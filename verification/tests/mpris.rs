use sshell_rs::mpris::{bar_text, is_player_name, player_method, playerctl_arg, Track};

fn track(title: &str, artist: &str, playing: bool) -> Track {
    Track { title: title.into(), artist: artist.into(), playing, player: "org.mpris.MediaPlayer2.x".into() }
}

#[test]
fn media_label_rules() {
    assert_eq!(bar_text(None, false, false, 40), None);
    let paused = track("Song", "Band", false);
    assert_eq!(bar_text(Some(&paused), true, false, 40), None);
    assert_eq!(bar_text(Some(&paused), false, false, 40), Some("󰏥 Song".to_string()));
    let playing = track("Song", "Band", true);
    assert_eq!(bar_text(Some(&playing), true, true, 40), Some("󰏤 Band — Song".to_string()));
    assert_eq!(bar_text(Some(&track("", "Band", true)), false, true, 40), None);
    assert_eq!(bar_text(Some(&track("Song", "", true)), false, true, 40), Some("󰏤 Song".to_string()));
}

#[test]
fn media_label_truncates_by_characters() {
    let t = track("Abcdefgh", "", true);
    assert_eq!(bar_text(Some(&t), false, false, 8), Some("󰏤 Abcdefgh".to_string()));
    assert_eq!(bar_text(Some(&t), false, false, 5), Some("󰏤 Abcd…".to_string()));
    assert_eq!(bar_text(Some(&t), false, false, 1), Some("󰏤 …".to_string()));
    assert_eq!(bar_text(Some(&t), false, false, 0), Some("󰏤 …".to_string()));
    let u = track("ééééé", "", false);
    assert_eq!(bar_text(Some(&u), false, false, 4), Some("󰏥 ééé…".to_string()));
}

#[test]
fn player_actions() {
    assert_eq!(player_method("next"), Some("Next"));
    assert_eq!(player_method("prev"), Some("Previous"));
    assert_eq!(player_method("play-pause"), Some("PlayPause"));
    assert_eq!(player_method("stop"), None);
    assert_eq!(playerctl_arg("prev"), Some("previous"));
    assert_eq!(playerctl_arg("next"), Some("next"));
    assert_eq!(playerctl_arg("play-pause"), Some("play-pause"));
    assert_eq!(playerctl_arg("seek"), None);
    assert!(is_player_name("org.mpris.MediaPlayer2.spotify"));
    assert!(!is_player_name("org.mpris.MediaPlayer2"));
    assert!(!is_player_name("org.freedesktop.DBus"));
}
