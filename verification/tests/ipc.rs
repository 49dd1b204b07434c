use sshell_rs::ipc::{default_timeout, event_from_msg, osd_line, serve_action, toggle_line, Event, Msg, ServeAction};

fn msg(cmd: &str, window: &str, text: &str, timeout_ms: u64) -> Msg {
    Msg { cmd: cmd.into(), window: window.into(), text: text.into(), timeout_ms }
}

#[test]
fn toggle_event_from_request() {
    let e = event_from_msg(msg("toggle", "launcher", "", default_timeout())).unwrap();
    assert!(matches!(e, Event::Toggle(w) if w == "launcher"));
}

#[test]
fn osd_event_keeps_default_timeout() {
    let e = event_from_msg(msg("osd", "", "50%", default_timeout())).unwrap();
    assert!(matches!(e, Event::Osd { timeout_ms: 1500, .. }));
    assert_eq!(default_timeout(), 1500);
}

#[test]
fn unknown_commands_refused() {
    assert!(event_from_msg(msg("rm -rf", "", "", 1500)).is_none());
    assert!(event_from_msg(msg("", "", "", 1500)).is_none());
    assert!(matches!(event_from_msg(msg("quit", "", "", 1500)), Some(Event::Quit)));
    assert!(matches!(event_from_msg(msg("refresh", "", "", 1500)), Some(Event::Refresh)));
}

#[test]
fn request_lines() {
    assert_eq!(toggle_line("launcher"), r#"{"cmd":"toggle","window":"launcher"}"#);
    assert_eq!(osd_line("50%", 1500), r#"{"cmd":"osd","text":"50%","timeout_ms":1500}"#);
    assert_eq!(toggle_line("a\"b"), r#"{"cmd":"toggle","window":"a\"b"}"#);
    let v: serde_json::Value = serde_json::from_str(&osd_line("x\ny", 7)).unwrap();
    assert_eq!(v["text"], "x\ny");
    assert_eq!(v["timeout_ms"], 7);
}

#[test]
fn server_decisions() {
    assert!(matches!(serve_action(Some(Event::Quit)), ServeAction::Stop));
    assert!(matches!(serve_action(None), ServeAction::Ignore));
    assert!(matches!(serve_action(Some(Event::Toggle("osd-hide".into()))), ServeAction::Emit(Event::Toggle(w)) if w == "osd-hide"));
}

#[test]
fn request_lines_escape_like_serde_json() {
    assert_eq!(toggle_line("a\\b\u{1}\u{8}\u{c}\r\u{1f} é"), r#"{"cmd":"toggle","window":"a\\b\u0001\b\f\r\u001f é"}"#);
    for w in ["plain", "q\"uote", "tab\there", "\u{7f}del", "nl\n", "\u{0}"] {
        let expect = format!("{{\"cmd\":\"toggle\",\"window\":{}}}", serde_json::to_string(w).unwrap());
        assert_eq!(toggle_line(w), expect);
    }
}
