use assay::redact::is_redacted_header;

fn keys() -> Vec<String> {
    vec!["password".into(), "token".into()]
}

#[test]
fn header_names_match_case_insensitively() {
    assert!(is_redacted_header("X-Auth-Token", &["x-auth-token".into()]));
    assert!(!is_redacted_header("content-type", &keys()));
}

#[test]
fn a_key_in_upper_case_still_hides_the_header() {
    assert!(is_redacted_header("token", &["TOKEN".into()]));
    assert!(!is_redacted_header("token", &[]));
}

use assay::redact::{redact_json, Json};

fn s(x: &str) -> Json {
    Json::Str(x.to_string())
}

fn obj(fields: Vec<(&str, Json)>) -> Json {
    Json::Object(fields.into_iter().map(|(k, v)| (k.to_string(), v)).collect())
}

#[test]
fn nested_and_arrayed_secrets_are_replaced_not_removed() {
    let doc = obj(vec![
        ("user", obj(vec![("name", s("a")), ("password", s("hunter2"))])),
        ("items", Json::Array(vec![obj(vec![("token", s("t"))])])),
    ]);
    let out = redact_json(doc, &keys()).expect("redacted");
    assert_eq!(
        out,
        obj(vec![
            ("user", obj(vec![("name", s("a")), ("password", s("[redacted]"))])),
            ("items", Json::Array(vec![obj(vec![("token", s("[redacted]"))])])),
        ])
    );
}

#[test]
fn matching_is_case_insensitive() {
    let out = redact_json(obj(vec![("Password", s("hunter2"))]), &keys()).expect("redacted");
    assert_eq!(out, obj(vec![("Password", s("[redacted]"))]));
}

#[test]
fn non_json_and_empty_keys_pass_through_untouched() {
    assert!(redact_json(obj(vec![("password", s("x"))]), &[]).is_none());
}

#[test]
fn a_secret_holding_a_structure_is_replaced_whole() {
    let doc = obj(vec![("token", obj(vec![("inner", Json::Number("1".to_string()))])), ("n", Json::Null)]);
    let out = redact_json(doc, &keys()).unwrap();
    assert_eq!(out, obj(vec![("token", s("[redacted]")), ("n", Json::Null)]));
}
