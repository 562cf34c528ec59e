use assay::http_response::{response_plan, Content, HeaderArg, ResponseBody};
use assay::redact::Json;

fn s(t: &str) -> String {
    t.to_string()
}

fn h(name: &str, value: &str) -> (String, String) {
    (s(name), s(value))
}

#[test]
fn a_json_body_defaults_its_content_type() {
    let doc = Json::Object(vec![(s("ok"), Json::Bool(true))]);
    let plan = response_plan(None, vec![], Content::Doc(doc));
    assert_eq!(plan.status, 200);
    assert_eq!(plan.headers, vec![h("content-type", "application/json")]);
    assert_eq!(plan.body, ResponseBody::Doc(Json::Object(vec![(s("ok"), Json::Bool(true))])));
}

#[test]
fn the_handler_content_type_wins_in_any_case() {
    let plan = response_plan(
        Some(201),
        vec![(s("Content-Type"), HeaderArg::Text(s("text/html")))],
        Content::Body(b"<p>hi</p>".to_vec()),
    );
    assert_eq!(plan.status, 201);
    assert_eq!(plan.headers, vec![h("Content-Type", "text/html")]);
    assert_eq!(plan.body, ResponseBody::Bytes(b"<p>hi</p>".to_vec()));
}

#[test]
fn a_content_type_of_the_wrong_kind_still_stops_the_default() {
    let plan = response_plan(None, vec![(s("content-type"), HeaderArg::Other)], Content::Nothing);
    assert!(plan.headers.is_empty());
    assert_eq!(plan.body, ResponseBody::Bytes(vec![]));
}

#[test]
fn a_list_value_sets_the_header_once_per_item() {
    let plan = response_plan(
        None,
        vec![(s("Set-Cookie"), HeaderArg::List(vec![s("a=1"), s("b=2")]))],
        Content::Nothing,
    );
    assert_eq!(
        plan.headers,
        vec![h("Set-Cookie", "a=1"), h("Set-Cookie", "b=2"), h("content-type", "text/plain")]
    );
}

#[test]
fn an_event_stream_gets_its_defaults_unless_the_handler_set_them() {
    let plan = response_plan(None, vec![], Content::Events);
    assert_eq!(
        plan.headers,
        vec![h("content-type", "text/event-stream"), h("cache-control", "no-cache"), h("connection", "keep-alive")]
    );
    assert_eq!(plan.body, ResponseBody::Events);
    let plan = response_plan(
        None,
        vec![(s("Cache-Control"), HeaderArg::Text(s("no-store")))],
        Content::Events,
    );
    assert_eq!(
        plan.headers,
        vec![h("Cache-Control", "no-store"), h("content-type", "text/event-stream"), h("connection", "keep-alive")]
    );
}

#[test]
fn an_invalid_status_becomes_ok() {
    assert_eq!(response_plan(Some(99), vec![], Content::Nothing).status, 200);
    assert_eq!(response_plan(Some(1000), vec![], Content::Nothing).status, 200);
    assert_eq!(response_plan(Some(999), vec![], Content::Nothing).status, 999);
    assert_eq!(response_plan(Some(100), vec![], Content::Nothing).status, 100);
}
