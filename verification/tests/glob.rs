use assay::glob::{host_matches, path_matches};

#[test]
fn host_wildcard_matches_subdomains_but_not_apex() {
    assert!(host_matches("*.example.com", "identity.example.com"));
    assert!(host_matches("*.example.com", "a.b.example.com"));
    assert!(!host_matches("*.example.com", "example.com"));
}

#[test]
fn host_wildcard_does_not_match_a_lookalike_suffix() {
    assert!(!host_matches("*.example.com", "evilexample.com"));
    assert!(!host_matches("example.com", "evil-example.com"));
}

#[test]
fn host_bare_star_matches_everything_and_exact_is_case_insensitive() {
    assert!(host_matches("*", "anything.internal"));
    assert!(host_matches("Example.COM", "example.com"));
}

#[test]
fn single_star_stays_inside_one_path_segment() {
    assert!(path_matches("/v3/*", "/v3/projects"));
    assert!(!path_matches("/v3/*", "/v3/projects/detail"));
}

#[test]
fn double_star_crosses_segments() {
    assert!(path_matches("/v3/**", "/v3/projects/detail"));
    assert!(path_matches("/**", "/anything/at/all"));
}

#[test]
fn patterns_are_anchored_at_both_ends() {
    assert!(!path_matches("/v3", "/v3/auth/tokens"));
    assert!(path_matches("/v3/auth/tokens", "/v3/auth/tokens"));
    assert!(!path_matches("/auth/tokens", "/v3/auth/tokens"));
}

#[test]
fn a_star_in_a_path_matches_an_empty_run() {
    assert!(path_matches("/v3/*", "/v3/"));
    assert!(path_matches("/a*b", "/ab"));
    assert!(!path_matches("/a*b", "/a/b"));
}

#[test]
fn a_host_pattern_with_no_star_is_exact() {
    assert!(host_matches("api.example.com", "API.example.com"));
    assert!(!host_matches("api.example.com", "api.example.com.evil"));
}
