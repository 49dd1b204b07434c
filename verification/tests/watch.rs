use sshell_rs::watch::{is_mpris_path, net_signal_wanted, Debounce};

#[test]
fn signal_filters() {
    assert!(is_mpris_path("/org/mpris/MediaPlayer2"));
    assert!(!is_mpris_path("/org/freedesktop/DBus"));
    assert!(net_signal_wanted("org.freedesktop.NetworkManager", None));
    assert!(net_signal_wanted("org.bluez.obex", None));
    assert!(net_signal_wanted(":1.7", Some("/org/freedesktop/NetworkManager/Devices/2")));
    assert!(!net_signal_wanted(":1.7", Some("/org/freedesktop/systemd1")));
    assert!(!net_signal_wanted(":1.7", None));
    assert!(!net_signal_wanted("", None));
}

#[test]
fn debounce_coalesces_bursts() {
    let mut d = Debounce::new();
    assert!(d.fire(1000, 500));
    assert!(!d.fire(1200, 500));
    assert!(!d.fire(1499, 500));
    assert!(d.fire(1500, 500));
    assert_eq!(d.last, Some(1500));
    assert!(!d.fire(10, 500));
    assert_eq!(d.last, Some(1500));
}
