use sshell_rs::json::Json;
use sshell_rs::theme::{accent_css, accent_in, find_key};

fn obj(members: Vec<(&str, Json)>) -> Json {
    Json::Object(members.into_iter().map(|(k, v)| (k.to_string(), v)).collect())
}

fn text(s: &str) -> Json {
    Json::Str(s.to_string())
}

#[test]
fn finds_real_matugen_shape() {
    // {"colors":{"primary":{"default":{"hex":"#D0BCFF"}}}}
    let v = obj(vec![("colors", obj(vec![("primary", obj(vec![("default", obj(vec![("hex", text("#D0BCFF"))]))]))]))]);
    assert_eq!(find_key(&v, "primary"), Some("#D0BCFF".into()));
}

#[test]
fn finds_nested_primary() {
    // {"colors":{"primary":{"default":"#D0BCFF"}}}
    let v = obj(vec![("colors", obj(vec![("primary", obj(vec![("default", text("#D0BCFF"))]))]))]);
    assert_eq!(find_key(&v, "primary"), Some("#D0BCFF".into()));
}

#[test]
fn finds_flat_primary() {
    // {"primary":"#123456"}
    let v = obj(vec![("primary", text("#123456"))]);
    assert_eq!(find_key(&v, "primary"), Some("#123456".into()));
}

#[test]
fn missing_is_none() {
    // {"a":1}
    let v = obj(vec![("a", Json::Number(sshell_rs::json::Num::PosInt(1)))]);
    assert_eq!(find_key(&v, "primary"), None);
}

#[test]
fn accent_from_document_text() {
    assert_eq!(accent_in(r##"{"colors":{"primary":{"default":{"hex":"#D0BCFF"}}}}"##), Some("#D0BCFF".into()));
    assert_eq!(accent_in(r##"{"colors":{"primary":{"default":"#D0BCFF"}}}"##), Some("#D0BCFF".into()));
    assert_eq!(accent_in(r##"{"primary":"#123456"}"##), Some("#123456".into()));
    assert_eq!(accent_in(r#"{"a":1}"#), None);
    assert_eq!(accent_in("not json"), None);
    assert_eq!(accent_in(r##"[{"x":{"primary":["none","#abcdef"]}}]"##), Some("#abcdef".into()));
}

#[test]
fn preferred_members_win() {
    // a later "hex" member is preferred to an earlier plain member
    let v = obj(vec![("primary", obj(vec![("other", text("#111111")), ("hex", text("#222222"))]))]);
    assert_eq!(find_key(&v, "primary"), Some("#222222".into()));
}

#[test]
fn accent_stylesheet() {
    assert_eq!(accent_css("a{}", None), "a{}");
    assert_eq!(
        accent_css("a{}", Some("#123456")),
        "a{}\n.sshell-accent { color: #123456; }\n.sshell-bar { border-color: #123456; }"
    );
}
