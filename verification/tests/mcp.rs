use assay::mcp::{
    context_reply, handle_message, json_copy, parse_error_response, resolve_mode, run_reply,
    tools_list_result, McpStep, ModeValue, DEFAULT_PROTOCOL_VERSION,
};
use assay::modes::ExecMode;
use assay::redact::Json;

fn s(text: &str) -> Json {
    Json::Str(text.to_string())
}

fn n(text: &str) -> Json {
    Json::Number(text.to_string())
}

fn obj(fields: Vec<(&str, Json)>) -> Json {
    Json::Object(fields.into_iter().map(|(k, v)| (k.to_string(), v)).collect())
}

fn get<'a>(j: &'a Json, key: &str) -> &'a Json {
    match j {
        Json::Object(fs) => &fs.iter().find(|(k, _)| k == key).unwrap().1,
        other => panic!("not an object: {other:?}"),
    }
}

fn reply(step: McpStep) -> Json {
    match step {
        McpStep::Reply(j) => j,
        _ => panic!("expected a reply"),
    }
}

fn call(id: Json, name: &str, arguments: Json) -> Json {
    obj(vec![
        ("jsonrpc", s("2.0")),
        ("id", id),
        ("method", s("tools/call")),
        ("params", obj(vec![("name", s(name)), ("arguments", arguments)])),
    ])
}

#[test]
fn notifications_are_not_answered() {
    let note = obj(vec![("jsonrpc", s("2.0")), ("method", s("notifications/initialized"))]);
    assert!(matches!(handle_message(&note, false, "1.0"), McpStep::Silent));
}

#[test]
fn ping_is_answered_with_an_empty_result_and_the_same_id() {
    let r = reply(handle_message(&obj(vec![("id", n("7")), ("method", s("ping"))]), false, "1.0"));
    assert_eq!(get(&r, "jsonrpc"), &s("2.0"));
    assert_eq!(get(&r, "id"), &n("7"));
    assert_eq!(get(&r, "result"), &obj(vec![]));
}

#[test]
fn requests_without_a_known_method_get_errors() {
    let r = reply(handle_message(&obj(vec![("id", s("a"))]), false, "1.0"));
    assert_eq!(get(get(&r, "error"), "code"), &n("-32600"));
    assert_eq!(get(get(&r, "error"), "message"), &s("missing method"));
    let r = reply(handle_message(&obj(vec![("id", n("2")), ("method", s("nope"))]), false, "1.0"));
    assert_eq!(get(get(&r, "error"), "code"), &n("-32601"));
    assert_eq!(get(get(&r, "error"), "message"), &s("method not found: nope"));
    let err = parse_error_response();
    assert_eq!(get(&err, "id"), &Json::Null);
    assert_eq!(get(get(&err, "error"), "code"), &n("-32700"));
}

#[test]
fn initialize_echoes_the_protocol_version() {
    let req = obj(vec![
        ("id", n("1")),
        ("method", s("initialize")),
        ("params", obj(vec![("protocolVersion", s("2025-03-26"))])),
    ]);
    let r = reply(handle_message(&req, false, "9.9.9"));
    let result = get(&r, "result");
    assert_eq!(get(result, "protocolVersion"), &s("2025-03-26"));
    assert_eq!(get(get(result, "serverInfo"), "name"), &s("assay"));
    assert_eq!(get(get(result, "serverInfo"), "version"), &s("9.9.9"));
    let bare = obj(vec![("id", n("1")), ("method", s("initialize"))]);
    let r = reply(handle_message(&bare, false, "9.9.9"));
    assert_eq!(get(get(&r, "result"), "protocolVersion"), &s(DEFAULT_PROTOCOL_VERSION));
}

fn offered(allowed: bool) -> Json {
    let list = tools_list_result(allowed);
    let tools = match get(&list, "tools") {
        Json::Array(items) => items,
        other => panic!("{other:?}"),
    };
    let run = &tools[0];
    assert_eq!(get(run, "name"), &s("assay_run"));
    json_copy(get(get(get(get(run, "inputSchema"), "properties"), "mode"), "enum"))
}

#[test]
fn unrestricted_is_offered_only_where_allowed() {
    assert_eq!(offered(false), Json::Array(vec![s("readonly"), s("approval")]));
    assert_eq!(
        offered(true),
        Json::Array(vec![s("readonly"), s("approval"), s("unrestricted")])
    );
}

#[test]
fn a_run_call_carries_its_script_mode_timeout_and_string_args() {
    let args = obj(vec![
        ("script", s("return 1")),
        ("mode", s("approval")),
        ("timeout_secs", n("5")),
        ("args", Json::Array(vec![s("a"), n("1"), s("b")])),
    ]);
    match handle_message(&call(n("3"), "assay_run", args), false, "1.0") {
        McpStep::Run(c) => {
            assert_eq!(c.id, n("3"));
            assert_eq!(c.script, "return 1");
            assert_eq!(c.mode, ExecMode::Approval);
            assert_eq!(c.timeout_secs, 5);
            assert_eq!(c.args, vec!["a".to_string(), "b".to_string()]);
        }
        _ => panic!("expected a run"),
    }
    match handle_message(&call(n("4"), "assay_run", obj(vec![("script", s("x")), ("timeout_secs", n("2.5"))])), false, "1.0") {
        McpStep::Run(c) => {
            assert_eq!(c.mode, ExecMode::ReadOnly);
            assert_eq!(c.timeout_secs, 20);
            assert!(c.args.is_empty());
        }
        _ => panic!("expected a run"),
    }
}

#[test]
fn run_calls_that_cannot_run_are_tool_errors() {
    let r = reply(handle_message(&call(n("5"), "assay_run", obj(vec![])), false, "1.0"));
    let result = get(&r, "result");
    assert_eq!(get(result, "isError"), &Json::Bool(true));
    let first = match get(result, "content") {
        Json::Array(items) => json_copy(&items[0]),
        other => panic!("{other:?}"),
    };
    let text = match get(&first, "text") {
        Json::Str(t) => t.clone(),
        other => panic!("not a string: {other:?}"),
    };
    assert_eq!(text, "assay_run requires a 'script' string argument");
    let r = reply(handle_message(
        &call(n("6"), "assay_run", obj(vec![("script", s("x")), ("mode", s("unrestricted"))])),
        false,
        "1.0",
    ));
    assert_eq!(get(get(&r, "result"), "isError"), &Json::Bool(true));
    assert!(matches!(
        handle_message(&call(n("6"), "assay_run", obj(vec![("script", s("x")), ("mode", s("unrestricted"))])), true, "1.0"),
        McpStep::Run(_)
    ));
}

#[test]
fn a_context_call_takes_a_positive_limit_or_the_default() {
    match handle_message(&call(n("8"), "assay_context", obj(vec![("query", s("grafana")), ("limit", n("0"))])), false, "1.0") {
        McpStep::Context(c) => {
            assert_eq!(c.query, "grafana");
            assert_eq!(c.limit, 5);
        }
        _ => panic!("expected a search"),
    }
    match handle_message(&call(n("8"), "assay_context", obj(vec![("query", s("k8s")), ("limit", n("3"))])), false, "1.0") {
        McpStep::Context(c) => assert_eq!(c.limit, 3),
        _ => panic!("expected a search"),
    }
}

#[test]
fn unknown_or_unnamed_tools_are_invalid_params() {
    let r = reply(handle_message(&call(n("9"), "rm_rf", obj(vec![])), false, "1.0"));
    assert_eq!(get(get(&r, "error"), "code"), &n("-32602"));
    assert_eq!(get(get(&r, "error"), "message"), &s("unknown tool: rm_rf"));
    let unnamed = obj(vec![("id", n("9")), ("method", s("tools/call")), ("params", obj(vec![]))]);
    let r = reply(handle_message(&unnamed, false, "1.0"));
    assert_eq!(get(get(&r, "error"), "message"), &s("missing tool name"));
}

#[test]
fn run_outcomes_are_errors_unless_ok_or_waiting() {
    let r = run_reply(n("1"), "{\"status\":\"error\"}", "error");
    assert_eq!(get(get(&r, "result"), "isError"), &Json::Bool(true));
    let r = run_reply(n("1"), "{}", "needs_approval");
    assert_eq!(get(get(&r, "result"), "isError"), &Json::Bool(false));
    let r = context_reply(n("2"), Err("no modules".to_string()));
    assert_eq!(get(get(&r, "result"), "isError"), &Json::Bool(true));
    let r = context_reply(n("2"), Ok("# docs".to_string()));
    assert_eq!(get(get(&r, "result"), "isError"), &Json::Bool(false));
}

#[test]
fn modes_resolve_as_the_server_allows() {
    assert_eq!(resolve_mode(&ModeValue::Absent, false), Ok(ExecMode::ReadOnly));
    assert!(resolve_mode(&ModeValue::Text("unrestricted".to_string()), false).is_err());
}
