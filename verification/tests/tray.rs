use sshell_rs::tray::{TrayState, Watcher};

#[test]
fn tray_registry() {
    let mut w = Watcher::new(TrayState::new());
    w.register_status_notifier_item(":1.42".to_string());
    w.register_status_notifier_item("org.kde.StatusNotifierItem-7-1".to_string());
    w.register_status_notifier_item(":1.42".to_string());
    assert_eq!(w.registered_status_notifier_items(), vec![":1.42".to_string(), "org.kde.StatusNotifierItem-7-1".to_string()]);
    assert_eq!(w.state.items[0].1, "");
    w.state.items[0].1 = "nm-applet".to_string();
    w.register_status_notifier_item(":1.42".to_string());
    assert_eq!(w.state.items[0].1, "nm-applet");
    w.unregister_status_notifier_item(":1.42".to_string());
    assert_eq!(w.registered_status_notifier_items(), vec!["org.kde.StatusNotifierItem-7-1".to_string()]);
    w.unregister_status_notifier_item("absent".to_string());
    assert_eq!(w.registered_status_notifier_items().len(), 1);
}
