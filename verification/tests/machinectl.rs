use assay::machinectl::{clone_args, invocation, pull_args, remove_args, validate_name, validate_url};

#[test]
fn validate_name_accepts_normal_names() {
    validate_name("test", "apex").unwrap();
    validate_name("test", "agent-x").unwrap();
    validate_name("test", "node_01").unwrap();
    validate_name("test", "host.local").unwrap();
}

#[test]
fn validate_name_rejects_empty() {
    assert!(validate_name("test", "").is_err());
}

#[test]
fn validate_name_rejects_path_traversal() {
    assert!(validate_name("test", "../../../etc/passwd").is_err());
    assert!(validate_name("test", "name/with/slash").is_err());
}

#[test]
fn validate_name_rejects_shell_meta() {
    assert!(validate_name("test", "name;rm -rf /").is_err());
    assert!(validate_name("test", "$(whoami)").is_err());
    assert!(validate_name("test", "name with space").is_err());
}

#[test]
fn validate_name_rejects_leading_dash() {
    assert!(validate_name("test", "-rf").is_err());
}

#[test]
fn validate_url_accepts_http_and_https() {
    validate_url("test", "https://example.com/image.tar.xz").unwrap();
    validate_url("test", "http://example.com/image.raw").unwrap();
}

#[test]
fn validate_url_rejects_other_schemes() {
    assert!(validate_url("test", "ftp://example.com/file").is_err());
    assert!(validate_url("test", "file:///etc/passwd").is_err());
}

#[test]
fn validate_url_rejects_control_chars() {
    assert!(validate_url("test", "https://example.com/\nfoo").is_err());
    assert!(validate_url("test", "https://example.com/\rfoo").is_err());
}

#[test]
fn refusals_name_the_operation_and_quote_the_name() {
    assert_eq!(validate_name("remove", "").unwrap_err(), "machinectl.remove: name must be non-empty");
    assert_eq!(
        validate_name("remove", "a b").unwrap_err(),
        "machinectl.remove: name \"a b\" must match [A-Za-z0-9._-]+"
    );
    assert_eq!(
        validate_name("clone(src)", "-x").unwrap_err(),
        "machinectl.clone(src): name \"-x\" must not start with '-' (would be parsed as a flag)"
    );
    assert_eq!(
        validate_url("pull_tar", "ftp://x").unwrap_err(),
        "machinectl.pull_tar: url must be http(s)://"
    );
    assert_eq!(
        validate_url("pull_raw", "https://x/\u{85}").unwrap_err(),
        "machinectl.pull_raw: url contains control characters"
    );
}

#[test]
fn command_lines_end_options_before_names() {
    assert_eq!(pull_args("pull-tar", false, "https://u", "n"), vec!["pull-tar", "--verify=no", "--", "https://u", "n"]);
    assert_eq!(pull_args("pull-raw", true, "https://u", "n"), vec!["pull-raw", "--", "https://u", "n"]);
    assert_eq!(remove_args("n"), vec!["remove", "--", "n"]);
    assert_eq!(clone_args("a", "b"), vec!["clone", "--", "a", "b"]);
    let (prog, args) = invocation(false, remove_args("n"));
    assert_eq!(prog, "sudo");
    assert_eq!(args, vec!["-n", "machinectl", "remove", "--", "n"]);
    let (prog, args) = invocation(true, remove_args("n"));
    assert_eq!(prog, "machinectl");
    assert_eq!(args, vec!["remove", "--", "n"]);
}
