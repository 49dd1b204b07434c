use sshell_rs::json::{Json, Num};
use sshell_rs::hypr::{
    active_id_in, active_id_of, dots_label, is_workspace_event, persistent_fallback, runtime_dir_for,
    socket_path, uid_from_status, EventBuffer, Workspace,
};

fn ws(id: i32) -> Workspace {
    Workspace { id, name: id.to_string(), monitor: String::new() }
}

#[test]
fn dots_static() {
    let ws = persistent_fallback(1);
    let s = dots_label(&ws, 3);
    assert!(s.contains('●'));
    assert!(s.ends_with("3"));
}

#[test]
fn fallback_is_five_named_workspaces() {
    let v = persistent_fallback(4);
    assert_eq!(v.len(), 5);
    for (k, w) in v.iter().enumerate() {
        assert_eq!(w.id, k as i32 + 1);
        assert_eq!(w.name, (k + 1).to_string());
        assert_eq!(w.monitor, "");
    }
}

#[test]
fn dots_sorted_deduplicated() {
    assert_eq!(dots_label(&persistent_fallback(1), 3), "○ ○ ● ○ ○  3");
    assert_eq!(dots_label(&[ws(7), ws(2), ws(7), ws(4)], 4), "○ ● ○  4");
    assert_eq!(dots_label(&[], 9), "○ ○ ○ ○ ○  9");
    assert_eq!(dots_label(&[ws(-1)], -1), "●  -1");
}

#[test]
fn workspace_event_filter() {
    assert!(is_workspace_event("workspace>>3\n"));
    assert!(is_workspace_event("  closewindow>>abc"));
    assert!(is_workspace_event("monitorremoved>>HDMI-A-1"));
    assert!(!is_workspace_event("activewindow>>foot,~"));
    assert!(!is_workspace_event("workspace"));
}

#[test]
fn event_buffer_counts_complete_lines() {
    let mut b = EventBuffer::new();
    assert_eq!(b.feed(b"workspace>>2\nactivewindow>>x\nopenwin"), 1);
    assert_eq!(b.feed(b"dow>>1,2\n"), 1);
    assert_eq!(b.feed(b"focusedmon>>DP-1,3\ncreateworkspace>>4\n"), 2);
    assert_eq!(b.feed(b""), 0);
}

#[test]
fn uid_and_socket_paths() {
    assert_eq!(uid_from_status("Name:\tx\nUid:\t1001\t1001\t1001\t1001\nGid:\t5\n"), 1001);
    assert_eq!(uid_from_status("Name:\tx\n"), 1000);
    assert_eq!(uid_from_status("Uid: abc\n"), 1000);
    assert_eq!(runtime_dir_for(1001), "/run/user/1001");
    assert_eq!(socket_path("", "/run/user/1000", ".socket.sock"), None);
    assert_eq!(
        socket_path("abc", "/run/user/1000", ".socket.sock"),
        Some("/run/user/1000/hypr/abc/.socket.sock".to_string())
    );
}

#[test]
fn active_id_from_reply() {
    assert_eq!(active_id_in(None), 1);
    assert_eq!(active_id_in(Some(r#"{"id": 4, "name": "4"}"#)), 4);
    assert_eq!(active_id_in(Some("not json")), 1);
    assert_eq!(active_id_in(Some(r#"{"name": "x"}"#)), 1);
}

#[test]
fn active_id_of_parsed_reply() {
    let v = Json::Object(vec![("id".to_string(), Json::Number(Num::NegInt(-98)))]);
    assert_eq!(active_id_of(&v), -98);
    assert_eq!(active_id_of(&Json::Object(vec![("id".to_string(), Json::Str("2".to_string()))])), 1);
    assert_eq!(active_id_of(&Json::Null), 1);
}
