use sshell_rs::config::{mod_enabled, strip_jsonc, BarModule, ConfigError, ShellConfig};
use sshell_rs::json::{Json, Num};

#[test]
fn preserves_https_urls() {
    let s = r#"{"a": "https://x/y", "b": 1 // comment
        }"#;
    let cfg: serde_json::Value = serde_json::from_str(&strip_jsonc(s)).unwrap();
    assert_eq!(cfg["a"], "https://x/y");
}

#[test]
fn trailing_commas_and_comments() {
    let s = r#"{
          //top/bottom
          "bar": {"enabled": true, "position": "top", "style": "floating", "height": 38, "margin": 10,},
        }"#;
    let stripped = strip_jsonc(s);
    let v: serde_json::Value = serde_json::from_str(&stripped).unwrap();
    assert_eq!(v["bar"]["height"], 38);
}

#[test]
fn rejects_bad_height() {
    let mut c = ShellConfig::default();
    c.bar.height = 10;
    assert!(c.bar.height < 24);
    assert!(matches!(c.validate(), Err(ConfigError::HeightOutOfRange(10))));
}

#[test]
fn defaults_match_qml_tokens() {
    let c = ShellConfig::default();
    assert_eq!(c.bar.height, 38);
    assert_eq!(c.bar.style, "floating");
    assert_eq!(c.control_center_width(), 450);
    assert_eq!(c.osd_timeout_ms(), 1500);
}

#[test]
fn strip_keeps_comment_markers_inside_strings() {
    assert_eq!(strip_jsonc(r#"{"u": "a//b", "v": "/*x*/"}"#), r#"{"u": "a//b", "v": "/*x*/"}"#);
    assert_eq!(strip_jsonc("[1, /* two */ 2,]"), "[1,  2]");
    assert_eq!(strip_jsonc("{\"a\": 1 // c\n}"), "{\"a\": 1 \n}");
}

#[test]
fn validation_errors_and_messages() {
    let mut c = ShellConfig::default();
    assert!(c.validate().is_ok());
    c.bar.height = 65;
    let e = c.validate().unwrap_err();
    assert_eq!(e.message(), "bar.height 65 out of range 24..64");
    c.bar.height = 64;
    c.bar.position = "left".to_string();
    assert_eq!(c.validate().unwrap_err().message(), "bar.position must be top|bottom");
    c.bar.position = "bottom".to_string();
    c.bar.style = "glass".to_string();
    assert_eq!(c.validate().unwrap_err().message(), "bar.style must be full|floating|islands|modules");
    c.bar.style = "islands".to_string();
    c.bar.height = 24;
    assert!(c.validate().is_ok());
}

#[test]
fn accessors_fall_back_to_defaults() {
    let mut c = ShellConfig::default();
    c.controlCenter = Json::Object(vec![("width".to_string(), Json::Number(Num::PosInt(500)))]);
    c.osd = Json::Object(vec![("timeout".to_string(), Json::Str("x".to_string()))]);
    c.weather = Json::Object(vec![("city".to_string(), Json::Str("Berlin".to_string()))]);
    c.clock = Json::Object(vec![
        ("format".to_string(), Json::Number(Num::PosInt(24))),
        ("showDate".to_string(), Json::Bool(false)),
    ]);
    assert_eq!(c.control_center_width(), 500);
    assert_eq!(c.osd_timeout_ms(), 1500);
    assert_eq!(c.weather_city(), "Berlin");
    assert!(c.clock_format_24());
    assert!(!c.clock_show_date());
    let d = ShellConfig::default();
    assert_eq!(d.weather_city(), "");
    assert!(!d.clock_format_24());
    assert!(d.clock_show_date());
}

#[test]
fn modules_enabled_by_side() {
    let mut c = ShellConfig::default();
    assert!(mod_enabled(&c, "left", "Launcher"));
    assert!(mod_enabled(&c, "center", "Clock"));
    assert!(mod_enabled(&c, "right", "Tray"));
    assert!(!mod_enabled(&c, "right", "Clock"));
    assert!(!mod_enabled(&c, "top", "Clock"));
    c.bar.left = vec![BarModule { module: "Launcher".to_string(), enabled: false }];
    assert!(!mod_enabled(&c, "left", "Launcher"));
}

#[test]
fn default_bar_layout() {
    let c = ShellConfig::default();
    assert!(c.bar.enabled);
    assert_eq!(c.bar.position, "top");
    assert_eq!((c.bar.margin, c.bar.padding), (10, 5));
    let names = |v: &Vec<BarModule>| v.iter().map(|m| (m.module.clone(), m.enabled)).collect::<Vec<_>>();
    assert_eq!(names(&c.bar.left), vec![("Launcher".to_string(), true), ("Workspaces".to_string(), true), ("Mpris".to_string(), true)]);
    assert_eq!(names(&c.bar.center), vec![("Clock".to_string(), true), ("Weather".to_string(), true)]);
    assert_eq!(names(&c.bar.right), vec![("Battery".to_string(), true), ("Tray".to_string(), true)]);
}
