use sshell_rs::bar::{clock_label, date_format, dim_hint, secs_to_next_minute, time_format, weather_label};

#[test]
fn clock_pieces() {
    assert_eq!(time_format(true), "%H:%M");
    assert_eq!(time_format(false), "%-I:%M %p");
    assert_eq!(date_format(), "%a %b %-d");
    assert_eq!(clock_label("09:05", Some("Mon Jan 5")), "09:05  Mon Jan 5");
    assert_eq!(clock_label("9:05 AM", None), "9:05 AM");
}

#[test]
fn minute_alignment() {
    assert_eq!(secs_to_next_minute(0), 60);
    assert_eq!(secs_to_next_minute(59), 1);
    assert_eq!(secs_to_next_minute(61), 59);
    assert_eq!(secs_to_next_minute(1_700_000_030), 10);
}

#[test]
fn small_labels() {
    assert_eq!(weather_label(Some("7°C")), "󰖐 7°C");
    assert_eq!(weather_label(None), "󰖐 --");
    assert_eq!(dim_hint(50), "battery-dimmer active (≤50%)");
    assert_eq!(dim_hint(51), "");
}
