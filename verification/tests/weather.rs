use sshell_rs::json::Json;
use sshell_rs::weather::{
    cached_summary_in, cached_summary_of, cached_temp_in, cached_temp_of, curl_argv, report_from_json, report_from_output,
    WeatherReport,
};

#[test]
fn fetch_command_as_data() {
    assert_eq!(curl_argv("   "), None);
    assert_eq!(
        curl_argv("  New   York "),
        Some(vec![
            "curl".to_string(),
            "-m".to_string(),
            "10".to_string(),
            "-s".to_string(),
            "https://wttr.in/New+York?format=j1".to_string(),
        ])
    );
}

#[test]
fn cache_reads() {
    let cache = r#"{"temp":"7°C (feels 5)","desc":"Rain","hum":"Humidity 80%","forecast":["a","b"]}"#;
    assert_eq!(cached_temp_in(cache), Some("7°C (feels 5)".to_string()));
    assert_eq!(cached_temp_in("garbage"), None);
    assert_eq!(cached_summary_in("Oslo", cache), "Oslo — 7°C (feels 5) Rain\na\nb");
    assert_eq!(cached_summary_in("Oslo", ""), "Oslo — -- ");
}

#[test]
fn report_extraction_and_errors() {
    let reply = br#"{"current_condition":[{"temp_C":"12","FeelsLikeC":"10","humidity":"70","weatherDesc":[{"value":"Sunny"}]}],
        "weather":[{"date":"2024-01-01","maxtempC":"14","mintempC":"3"},{"date":"2024-01-02"},{"date":"d3","maxtempC":"1","mintempC":"0"},{"date":"d4"}]}"#;
    let r = report_from_output(reply).unwrap();
    assert_eq!(r.temp, "12°C (feels 10)");
    assert_eq!(r.desc, "Sunny");
    assert_eq!(r.hum, "Humidity 70%");
    assert_eq!(r.forecast, vec!["2024-01-01 14°/3°".to_string(), "2024-01-02 --°/--°".to_string(), "d3 1°/0°".to_string()]);
    assert_eq!(r.summary(), "12°C (feels 10) — Sunny — Humidity 70%\n2024-01-01 14°/3° · 2024-01-02 --°/--° · d3 1°/0°");
    assert_eq!(report_from_output(b"<html>").err(), Some("bad weather JSON".to_string()));
    assert_eq!(report_from_output(br#"{"weather":[]}"#).err(), Some("no current_condition".to_string()));
    let bare = report_from_output(br#"{"current_condition":[{}]}"#).unwrap();
    assert_eq!(bare.temp, "--°C (feels --)");
    assert_eq!(bare.desc, "");
    assert!(bare.forecast.is_empty());
}

#[test]
fn cache_document_round_trip() {
    let r = WeatherReport {
        temp: "7°C (feels 5)".to_string(),
        desc: "Light \"rain\"".to_string(),
        hum: "Humidity 80%".to_string(),
        forecast: vec!["a 1°/2°".to_string()],
    };
    let text = r.cache_text();
    assert_eq!(text, r#"{"desc":"Light \"rain\"","forecast":["a 1°/2°"],"hum":"Humidity 80%","temp":"7°C (feels 5)"}"#);
    assert_eq!(cached_temp_in(&text), Some("7°C (feels 5)".to_string()));
    assert_eq!(cached_summary_in("X", &text), "X — 7°C (feels 5) Light \"rain\"\na 1°/2°");
}

#[test]
fn parsed_documents() {
    let doc = Json::Object(vec![
        ("temp".to_string(), Json::Str("3°C".to_string())),
        ("forecast".to_string(), Json::Array(vec![Json::Str("d1".to_string()), Json::Null, Json::Str("d2".to_string())])),
    ]);
    assert_eq!(cached_temp_of(&doc), Some("3°C".to_string()));
    assert_eq!(cached_temp_of(&Json::Null), None);
    assert_eq!(cached_summary_of("Rome", &doc), "Rome — 3°C \nd1\nd2");
    assert_eq!(cached_summary_of("Rome", &Json::Null), "Rome — -- ");
    let reply = Json::Object(vec![(
        "current_condition".to_string(),
        Json::Array(vec![Json::Object(vec![("temp_C".to_string(), Json::Str("9".to_string()))])]),
    )]);
    let r = report_from_json(&reply).unwrap();
    assert_eq!(r.temp, "9°C (feels --)");
    assert_eq!(r.hum, "Humidity --%");
    assert_eq!(report_from_json(&Json::Null).err(), Some("no current_condition".to_string()));
}
