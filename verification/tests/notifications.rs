use sshell_rs::notifications::{count_label, toast_timeout_ms, Notif, NotifState, Server};

fn notif(id: u32, title: &str) -> Notif {
    Notif { id, app: "app".into(), title: title.into(), body: "".into(), icon: "".into(), timeout_ms: 0 }
}

#[test]
fn push_drops_oldest_when_full() {
    let mut s = NotifState { list: vec![], dnd: false, max: 2 };
    s.push(notif(1, "a"));
    s.push(notif(2, "b"));
    s.push(notif(3, "c"));
    let ids: Vec<u32> = s.list.iter().map(|n| n.id).collect();
    assert_eq!(ids, vec![2, 3]);
    let mut z = NotifState { list: vec![], dnd: false, max: 0 };
    z.push(notif(1, "a"));
    z.push(notif(2, "b"));
    assert_eq!(z.list.len(), 1);
    assert_eq!(z.list[0].id, 2);
}

#[test]
fn close_removes_every_match() {
    let mut s = NotifState { list: vec![notif(1, "a"), notif(2, "b"), notif(1, "c")], dnd: true, max: 5 };
    s.close(1);
    assert_eq!(s.list.len(), 1);
    assert_eq!(s.list[0].id, 2);
    assert!(s.dnd);
    s.close(9);
    assert_eq!(s.list.len(), 1);
}

#[test]
fn server_ids_and_replacement() {
    let mut srv = Server::new(NotifState { list: vec![], dnd: false, max: 5 });
    let a = srv.notify("app".into(), 0, "".into(), "one".into(), "b1".into(), 1000);
    let b = srv.notify("app".into(), 0, "".into(), "two".into(), "b2".into(), -1);
    assert_eq!((a, b), (1, 2));
    let c = srv.notify("app".into(), 1, "".into(), "one'".into(), "b3".into(), 0);
    assert_eq!(c, 1);
    let titles: Vec<&str> = srv.state.list.iter().map(|n| n.title.as_str()).collect();
    assert_eq!(titles, vec!["two", "one'"]);
    let d = srv.notify("app".into(), 0, "".into(), "three".into(), "".into(), 0);
    assert_eq!(d, 3);
    srv.close_notification(2);
    let ids: Vec<u32> = srv.state.list.iter().map(|n| n.id).collect();
    assert_eq!(ids, vec![1, 3]);
}

#[test]
fn server_information() {
    let srv = Server::new(NotifState::default());
    assert_eq!(srv.get_capabilities(), vec!["body".to_string(), "actions".to_string(), "persistence".to_string()]);
    let info = srv.get_server_information("0.1.0");
    assert_eq!(info, ("cshell".to_string(), "cshell".to_string(), "0.1.0".to_string(), "1.2".to_string()));
}

#[test]
fn toast_and_counter() {
    assert_eq!(toast_timeout_ms(1200), 1200);
    assert_eq!(toast_timeout_ms(0), 5000);
    assert_eq!(toast_timeout_ms(-1), 5000);
    assert_eq!(count_label(0), "0 Notifications");
    assert_eq!(count_label(12), "12 Notifications");
}

#[test]
fn toast_leaves_list() {
    let mut srv = Server::new(NotifState { list: vec![], dnd: false, max: 5 });
    assert!(srv.toast(0).is_none());
    srv.notify("a".into(), 0, "".into(), "one".into(), "".into(), 0);
    srv.notify("a".into(), 0, "".into(), "two".into(), "".into(), 0);
    assert_eq!(srv.received_count(), 2);
    assert_eq!(srv.toast(0).map(|n| n.title.clone()), Some("two".to_string()));
    assert!(srv.toast(2).is_none());
    assert_eq!(srv.state.list.len(), 2);
    // a replacement of the shown notification is toasted again
    srv.notify("a".into(), 2, "".into(), "two'".into(), "".into(), 0);
    assert_eq!(srv.toast(2).map(|n| n.title.clone()), Some("two'".to_string()));
    // closing does not bring an older one back
    srv.close_notification(2);
    assert!(srv.toast(3).is_none());
    srv.state.dnd = true;
    srv.notify("a".into(), 0, "".into(), "three".into(), "".into(), 0);
    assert!(srv.toast(3).is_none());
    assert_eq!(srv.state.list.len(), 2);
}
