use assay::serve::{handler_error, not_found, request_params, upgrade_head};

fn s(t: &str) -> String {
    t.to_string()
}

fn h(k: &str, v: &str) -> (String, String) {
    (s(k), s(v))
}

#[test]
fn a_path_without_a_route_is_not_found() {
    let r = not_found();
    assert_eq!(r.status, 404);
    assert_eq!(r.headers, vec![h("content-type", "text/plain")]);
    assert_eq!(r.body, "not found");
}

#[test]
fn a_failing_handler_answers_500_with_its_error() {
    let r = handler_error("boom");
    assert_eq!(r.status, 500);
    assert_eq!(r.headers, vec![h("content-type", "text/plain")]);
    assert_eq!(r.body, "handler error: boom");
}

#[test]
fn a_good_handshake_switches_protocols_and_keeps_the_handler_headers() {
    let request = vec![
        h("Upgrade", "websocket"),
        h("Connection", "keep-alive, Upgrade"),
        h("Sec-WebSocket-Version", "13"),
        h("Sec-WebSocket-Key", "dGhlIHNhbXBsZSBub25jZQ=="),
    ];
    let handler = vec![h("X-Trace", "abc"), h("Connection", "close"), h("SEC-WEBSOCKET-ACCEPT", "forged")];
    let r = upgrade_head(&request, &handler);
    assert_eq!(r.status, 101);
    assert_eq!(
        r.headers,
        vec![
            h("upgrade", "websocket"),
            h("connection", "Upgrade"),
            h("sec-websocket-accept", "s3pPLMBiTxaQ9kYGzzhZRbK+xOo="),
            h("X-Trace", "abc"),
        ]
    );
    assert_eq!(r.body, "");
}

#[test]
fn a_malformed_handshake_is_a_bad_request() {
    let request = vec![h("Upgrade", "websocket"), h("Sec-WebSocket-Version", "13")];
    let r = upgrade_head(&request, &[]);
    assert_eq!(r.status, 400);
    assert_eq!(r.headers, vec![h("content-type", "text/plain")]);
    assert_eq!(r.body, "websocket upgrade rejected: missing Connection: Upgrade header");
    let request = vec![h("Connection", "Upgrade"), h("Sec-WebSocket-Version", "8")];
    assert_eq!(
        upgrade_head(&request, &[]).body,
        "websocket upgrade rejected: Sec-WebSocket-Version must be 13"
    );
}

#[test]
fn query_parameters_are_decoded_and_the_last_value_wins() {
    assert_eq!(request_params("a=1&b=hello%20world"), vec![h("a", "1"), h("b", "hello world")]);
    assert_eq!(request_params("x=a+b&x=c"), vec![h("x", "c")]);
    assert_eq!(request_params("k=1&j=2&k=3"), vec![h("k", "3"), h("j", "2")]);
    assert!(request_params("").is_empty());
}
