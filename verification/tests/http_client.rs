use assay::http_client::{
    call_args, ends_stream, request_plan, streams_events, ArgKind, BodyArg, CallArgs, HttpMethod, RequestBody,
    RequestOpts,
};
use assay::redact::Json;

fn s(t: &str) -> String {
    t.to_string()
}

fn opts(headers: Vec<(&str, &str)>, body: BodyArg) -> Option<RequestOpts> {
    Some(RequestOpts { headers: headers.into_iter().map(|(k, v)| (s(k), s(v))).collect(), body })
}

#[test]
fn get_takes_url_then_options() {
    assert_eq!(
        call_args("get", &[ArgKind::Str, ArgKind::Table]),
        Ok(CallArgs { has_body: false, body_at: None, opts_at: Some(1) })
    );
    assert_eq!(call_args("get", &[ArgKind::Str]), Ok(CallArgs { has_body: false, body_at: None, opts_at: None }));
    assert_eq!(
        call_args("delete", &[ArgKind::Str, ArgKind::Str]),
        Err(s("http.delete: second argument must be a table or nil"))
    );
}

#[test]
fn post_takes_url_body_then_options() {
    assert_eq!(
        call_args("post", &[ArgKind::Str, ArgKind::Table, ArgKind::Table]),
        Ok(CallArgs { has_body: true, body_at: Some(1), opts_at: Some(2) })
    );
    assert_eq!(
        call_args("put", &[ArgKind::Str, ArgKind::Nil, ArgKind::Table]),
        Ok(CallArgs { has_body: true, body_at: None, opts_at: Some(2) })
    );
    assert_eq!(
        call_args("post", &[ArgKind::Str, ArgKind::Other]),
        Err(s("http.post: second argument must be a string, table, or nil"))
    );
    assert_eq!(
        call_args("patch", &[ArgKind::Str, ArgKind::Str, ArgKind::Str]),
        Err(s("http.patch: third argument must be a table or nil"))
    );
}

#[test]
fn the_url_must_come_first_as_a_string() {
    assert_eq!(call_args("get", &[]), Err(s("http.get: first argument must be a URL string")));
    assert_eq!(call_args("post", &[ArgKind::Table]), Err(s("http.post: first argument must be a URL string")));
}

#[test]
fn a_table_body_is_sent_as_json_with_its_content_type_first() {
    let doc = Json::Object(vec![(s("a"), Json::Number(s("1")))]);
    let plan = request_plan("post", s("http://x/"), BodyArg::Doc(doc), opts(vec![("X-Trace", "7")], BodyArg::Nil))
        .unwrap();
    assert_eq!(plan.method, HttpMethod::Post);
    assert_eq!(plan.url, "http://x/");
    assert_eq!(plan.body, RequestBody::Json(Json::Object(vec![(s("a"), Json::Number(s("1")))])));
    assert_eq!(
        plan.headers,
        vec![(s("content-type"), s("application/json")), (s("x-trace"), s("7"))]
    );
}

#[test]
fn an_empty_text_body_is_no_body() {
    let plan = request_plan("put", s("http://x/"), BodyArg::Text(s("")), None).unwrap();
    assert_eq!(plan.body, RequestBody::Empty);
    assert!(plan.headers.is_empty());
    let plan = request_plan("put", s("http://x/"), BodyArg::Text(s("hi")), None).unwrap();
    assert_eq!(plan.body, RequestBody::Text(s("hi")));
}

#[test]
fn delete_carries_its_body_in_the_options() {
    let doc = Json::Object(vec![(s("id"), Json::Str(s("t1")))]);
    let plan = request_plan("delete", s("http://x/tuples"), BodyArg::Nil, opts(vec![], BodyArg::Doc(doc))).unwrap();
    assert_eq!(plan.method, HttpMethod::Delete);
    assert_eq!(plan.body, RequestBody::Json(Json::Object(vec![(s("id"), Json::Str(s("t1")))])));
    assert_eq!(plan.headers, vec![(s("content-type"), s("application/json"))]);
    assert_eq!(
        request_plan("delete", s("http://x/"), BodyArg::Nil, opts(vec![], BodyArg::Other)),
        Err(s("http.delete: opts.body must be a string, table, or nil"))
    );
}

#[test]
fn a_post_ignores_a_body_in_its_options() {
    let plan = request_plan("post", s("http://x/"), BodyArg::Nil, opts(vec![], BodyArg::Other)).unwrap();
    assert_eq!(plan.body, RequestBody::Empty);
}

#[test]
fn an_unknown_method_is_refused() {
    assert_eq!(
        request_plan("head", s("http://x/"), BodyArg::Nil, None),
        Err(s("http: unsupported method: head"))
    );
}

#[test]
fn events_stream_only_to_a_callback_of_an_event_stream() {
    assert!(streams_events(Some("text/event-stream; charset=utf-8"), true));
    assert!(!streams_events(Some("text/event-stream"), false));
    assert!(!streams_events(Some("application/json"), true));
    assert!(!streams_events(None, true));
    assert!(ends_stream(Some("close")));
    assert!(!ends_stream(Some("Close")));
    assert!(!ends_stream(None));
}

#[test]
fn a_caller_content_type_replaces_the_runtime_one() {
    let doc = Json::Object(vec![]);
    let plan = request_plan(
        "post",
        s("http://x/v3/auth/tokens"),
        BodyArg::Doc(doc),
        opts(vec![("Accept", "*/*"), ("Content-Type", "application/vnd.api+json")], BodyArg::Nil),
    )
    .unwrap();
    assert_eq!(
        plan.headers,
        vec![(s("content-type"), s("application/vnd.api+json")), (s("accept"), s("*/*"))]
    );
}

#[test]
fn a_name_given_twice_keeps_its_last_value_in_its_first_place() {
    let plan = request_plan(
        "get",
        s("http://x/"),
        BodyArg::Nil,
        opts(vec![("X-A", "1"), ("X-B", "2"), ("x-a", "3")], BodyArg::Nil),
    )
    .unwrap();
    assert_eq!(plan.headers, vec![(s("x-a"), s("3")), (s("x-b"), s("2"))]);
}
