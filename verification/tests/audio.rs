use sshell_rs::audio::{is_muted, volume_text};

#[test]
fn volume_report_parts() {
    assert_eq!(volume_text("Volume: 0.45 [MUTED]"), "0.45");
    assert!(is_muted("Volume: 0.45 [MUTED]"));
    assert_eq!(volume_text("Volume: 1.00"), "1.00");
    assert!(!is_muted("Volume: 1.00"));
    assert_eq!(volume_text("no number"), "");
    assert_eq!(volume_text("a 3.2.1b 7"), "3.2.1");
    assert!(is_muted("MUTE"));
}
