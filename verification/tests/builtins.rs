use assay::builtins::{
    compute_ws_accept, detect_compression, glob_matches, is_gated_http_verb, is_http_verb_path,
    is_postgres_url, is_process_running, is_websocket_upgrade, lookup_route, strip_shebang,
    validate_ws_request,
};

fn h(pairs: &[(&str, &str)]) -> Vec<(String, String)> {
    pairs.iter().map(|(k, v)| (k.to_string(), v.to_string())).collect()
}

#[test]
fn a_shebang_line_is_dropped() {
    assert_eq!(strip_shebang("#!/usr/bin/env assay\nprint(1)\n"), "print(1)\n");
    assert_eq!(strip_shebang("#!only"), "");
    assert_eq!(strip_shebang("print(1)"), "print(1)");
    assert_eq!(strip_shebang("-- #!\nx"), "-- #!\nx");
}

#[test]
fn compression_follows_the_extension_in_any_case() {
    assert_eq!(detect_compression("a.TAR.GZ"), "gz");
    assert_eq!(detect_compression("a.tgz"), "gz");
    assert_eq!(detect_compression("a.tar.xz"), "xz");
    assert_eq!(detect_compression("a.TXZ"), "xz");
    assert_eq!(detect_compression("a.tar.zst"), "zstd");
    assert_eq!(detect_compression("a.tzst"), "zstd");
    assert_eq!(detect_compression("a.tar"), "none");
}

#[test]
fn postgres_urls_are_recognised() {
    assert!(is_postgres_url("postgres://u@h/db"));
    assert!(is_postgres_url("postgresql://u@h/db"));
    assert!(!is_postgres_url("sqlite://x.db"));
}

#[test]
fn only_get_is_not_gated() {
    assert!(!is_gated_http_verb("get"));
    assert!(is_gated_http_verb("post"));
    assert!(is_gated_http_verb("GET"));
    assert!(is_http_verb_path("http.post"));
    assert!(is_http_verb_path("http.delete"));
    assert!(!is_http_verb_path("http.get"));
    assert!(!is_http_verb_path("http.client"));
}

#[test]
fn unit_globs_match_at_either_end() {
    assert!(glob_matches("*", "anything.service"));
    assert!(glob_matches("*.service", "ssh.service"));
    assert!(!glob_matches("*.service", "ssh.socket"));
    assert!(glob_matches("ssh*", "ssh.service"));
    assert!(glob_matches("ssh.service", "ssh.service"));
    assert!(!glob_matches("ssh.service", "sshd.service"));
}

#[test]
fn a_websocket_upgrade_is_recognised_in_any_case() {
    assert!(is_websocket_upgrade(&h(&[("Upgrade", "WebSocket")])));
    assert!(!is_websocket_upgrade(&h(&[("Upgrade", "h2c")])));
    assert!(!is_websocket_upgrade(&h(&[])));
}

#[test]
fn a_handshake_needs_upgrade_version_and_key() {
    let ok = h(&[
        ("Connection", "keep-alive, Upgrade"),
        ("Sec-WebSocket-Version", " 13 "),
        ("Sec-WebSocket-Key", "dGhlIHNhbXBsZSBub25jZQ=="),
    ]);
    assert_eq!(validate_ws_request(&ok), Ok("dGhlIHNhbXBsZSBub25jZQ==".to_string()));
    assert_eq!(
        validate_ws_request(&h(&[("Sec-WebSocket-Version", "13")])),
        Err("missing Connection: Upgrade header")
    );
    assert_eq!(
        validate_ws_request(&h(&[("connection", "upgrade"), ("sec-websocket-version", "8")])),
        Err("Sec-WebSocket-Version must be 13")
    );
    assert_eq!(
        validate_ws_request(&h(&[("connection", "upgrade"), ("sec-websocket-version", "13")])),
        Err("missing Sec-WebSocket-Key header")
    );
}

#[test]
fn the_accept_value_is_the_one_rfc_6455_gives() {
    assert_eq!(compute_ws_accept("dGhlIHNhbXBsZSBub25jZQ=="), "s3pPLMBiTxaQ9kYGzzhZRbK+xOo=");
}

#[test]
fn routes_fall_back_to_the_longest_wildcard() {
    let keys = h(&[("GET", "/api/*"), ("GET", "/*"), ("GET", "/api/users"), ("POST", "/api/users/*")]);
    assert_eq!(lookup_route(&keys, "GET", "/api/users"), Some(2));
    assert_eq!(lookup_route(&keys, "GET", "/api/users/7"), Some(0));
    assert_eq!(lookup_route(&keys, "GET", "/other"), Some(1));
    assert_eq!(lookup_route(&keys, "POST", "/api/users/7"), Some(3));
    assert_eq!(lookup_route(&keys, "POST", "/x"), None);
    assert_eq!(lookup_route(&keys, "GET", "nothing"), None);
}

#[test]
fn a_running_process_is_found_by_name() {
    let names = vec!["init".to_string(), "sshd".to_string()];
    assert!(is_process_running(&names, "sshd"));
    assert!(!is_process_running(&names, "ssh"));
}
