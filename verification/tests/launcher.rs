use sshell_rs::launcher::{app_dirs, clipboard_rows, fuzzy, parse_desktop, sort_and_dedup, Entry};

fn entry(name: &str, command: &str, id: &str) -> Entry {
    Entry { name: name.into(), command: command.into(), icon: "".into(), desktop_id: id.into() }
}

#[test]
fn fuzzy_prefix_first() {
    let v = vec![
        Entry { name: "Firefox".into(), command: "firefox".into(), icon: "".into(), desktop_id: "a".into() },
        Entry { name: "Terminal".into(), command: "foot".into(), icon: "".into(), desktop_id: "b".into() },
    ];
    let r = fuzzy(&v, "fire");
    assert_eq!(r[0].name, "Firefox");
}

#[test]
fn fuzzy_ranks_prefix_substring_subsequence() {
    let v = vec![
        entry("Files", "nautilus", "a"),
        entry("Profile Manager", "pm", "b"),
        entry("Fi", "x", "c"),
        entry("Gnome Terminal", "gt", "d"),
    ];
    let r = fuzzy(&v, "fi");
    let names: Vec<&str> = r.iter().map(|e| e.name.as_str()).collect();
    assert_eq!(names, vec!["Fi", "Files", "Profile Manager"]);
    let s = fuzzy(&v, "gtl");
    assert_eq!(s.len(), 1);
    assert_eq!(s[0].name, "Gnome Terminal");
    assert!(fuzzy(&v, "").is_empty());
    assert!(fuzzy(&v, "zzz").is_empty());
}

#[test]
fn fuzzy_caps_at_twenty() {
    let v: Vec<Entry> = (0..30).map(|i| entry(&format!("App {}", i), "a", &i.to_string())).collect();
    assert_eq!(fuzzy(&v, "app").len(), 20);
}

#[test]
fn desktop_parse_fields() {
    let text = "[Desktop Entry]\nName=Foot\nName=Other\nExec=foot --server %U\nIcon=foot\n";
    let e = parse_desktop(text, "foot.desktop").unwrap();
    assert_eq!(e.name, "Foot");
    assert_eq!(e.command, "foot");
    assert_eq!(e.icon, "foot");
    assert_eq!(e.desktop_id, "foot.desktop");
    assert!(parse_desktop("Name=Hidden\nExec=h\nNoDisplay=true\n", "h.desktop").is_none());
    assert!(parse_desktop("Name=NoExec\n", "n.desktop").is_none());
    assert!(parse_desktop("Exec=x\n", "x.desktop").is_none());
    let t = parse_desktop("  Name=Spaced  \n\tExec=  run   a\n", "s.desktop").unwrap();
    assert_eq!(t.name, "Spaced");
    assert_eq!(t.command, "run");
}

#[test]
fn sorted_case_insensitively_then_deduplicated() {
    let v = vec![
        entry("zed", "z", "z.desktop"),
        entry("Alpha", "a", "a.desktop"),
        entry("alpha", "a2", "a.desktop"),
        entry("beta", "b", "b.desktop"),
    ];
    let r = sort_and_dedup(v);
    let names: Vec<&str> = r.iter().map(|e| e.name.as_str()).collect();
    assert_eq!(names, vec!["Alpha", "beta", "zed"]);
}

#[test]
fn application_directories() {
    assert_eq!(
        app_dirs("/home/u"),
        vec![
            "/home/u/.local/share/applications".to_string(),
            "/usr/share/applications".to_string(),
            "/var/lib/flatpak/exports/share/applications".to_string(),
            "/home/u/.local/share/flatpak/exports/share/applications".to_string(),
        ]
    );
}

#[test]
fn clipboard_history_rows() {
    assert_eq!(clipboard_rows(""), Vec::<String>::new());
    assert_eq!(clipboard_rows("a\r\nb\n"), vec!["0: a".to_string(), "1: b".to_string()]);
    assert_eq!(clipboard_rows("x\n\ny\r"), vec!["0: x".to_string(), "1: ".to_string(), "2: y\r".to_string()]);
    let long = "é".repeat(70);
    assert_eq!(clipboard_rows(&long), vec![format!("0: {}", "é".repeat(60))]);
    let many: String = (0..25).map(|i| format!("{}\n", i)).collect();
    let rows = clipboard_rows(&many);
    assert_eq!(rows.len(), 20);
    assert_eq!(rows[19], "19: 19");
}

#[test]
fn clipboard_rows_follow_str_lines() {
    for t in ["", "\n", "\r\n", "a", "a\n", "a\r", "a\r\r\n", "\n\n\nb", "one\ntwo\r\nthree\rfour"] {
        let expect: Vec<String> = t
            .lines()
            .take(20)
            .enumerate()
            .map(|(i, l)| format!("{}: {}", i, l.chars().take(60).collect::<String>()))
            .collect();
        assert_eq!(clipboard_rows(t), expect, "{:?}", t);
    }
}

#[test]
fn quoted_exec_paths() {
    let e = parse_desktop("Name=X\nExec=\"/opt/My App/bin/x\" --flag %U\n", "x.desktop").unwrap();
    assert_eq!(e.command, "/opt/My App/bin/x");
    let f = parse_desktop("Name=Y\nExec=  \"a\\\"b\\\\c\" z\n", "y.desktop").unwrap();
    assert_eq!(f.command, "a\"b\\c");
    let g = parse_desktop("Name=Z\nExec=\"unterminated path\n", "z.desktop").unwrap();
    assert_eq!(g.command, "unterminated path");
    assert!(parse_desktop("Name=E\nExec=\"\"\n", "e.desktop").is_none());
    let h = parse_desktop("Name=H\nExec=env A=\"1 2\" h\n", "h.desktop").unwrap();
    assert_eq!(h.command, "env");
}
