use assay::api::{
    authorized, cleanup_unless_suspended, configured_tokens, constant_time_eq, resolve_timeout,
    DEFAULT_TIMEOUT_SECS, MAX_TIMEOUT_SECS,
};
use assay::mcp::{resolve_mode, ModeValue};
use assay::modes::ExecMode;

#[test]
fn a_matching_bearer_token_is_accepted() {
    let tokens = vec!["alpha".to_string(), "beta".to_string()];
    assert!(authorized(Some("Bearer beta"), &tokens));
}

#[test]
fn a_wrong_or_absent_token_is_refused() {
    let tokens = vec!["alpha".to_string()];
    assert!(!authorized(Some("Bearer nope"), &tokens));
    assert!(!authorized(Some("alpha"), &tokens));
    assert!(!authorized(None, &tokens));
}

#[test]
fn a_token_that_is_a_prefix_of_a_real_one_is_refused() {
    let tokens = vec!["alphabet".to_string()];
    assert!(!authorized(Some("Bearer alpha"), &tokens));
}

#[test]
fn timeouts_are_clamped_rather_than_trusted() {
    assert_eq!(resolve_timeout(None), DEFAULT_TIMEOUT_SECS);
    assert_eq!(resolve_timeout(Some(0)), 1);
    assert_eq!(resolve_timeout(Some(999_999)), MAX_TIMEOUT_SECS);
    assert_eq!(resolve_timeout(Some(42)), 42);
}

#[test]
fn constant_time_comparison_is_plain_equality() {
    assert!(constant_time_eq(b"secret", b"secret"));
    assert!(!constant_time_eq(b"secret", b"secreT"));
    assert!(!constant_time_eq(b"secret", b"secre"));
    assert!(constant_time_eq(b"", b""));
}

#[test]
fn tokens_are_trimmed_and_empty_ones_dropped() {
    assert_eq!(configured_tokens(" a , ,b,").unwrap(), vec!["a".to_string(), "b".to_string()]);
    assert_eq!(
        configured_tokens(" , ").unwrap_err(),
        "ASSAY_API_TOKENS is empty — refusing to serve an ungated runtime"
    );
    assert!(configured_tokens("").is_err());
}

#[test]
fn a_suspended_run_keeps_its_script() {
    assert!(!cleanup_unless_suspended("needs_approval"));
    assert!(cleanup_unless_suspended("ok"));
    assert!(cleanup_unless_suspended("error"));
}

#[test]
fn the_mode_of_a_run_defaults_to_readonly() {
    assert_eq!(resolve_mode(&ModeValue::Absent, false), Ok(ExecMode::ReadOnly));
    assert_eq!(resolve_mode(&ModeValue::Text("approval".to_string()), false), Ok(ExecMode::Approval));
    assert_eq!(
        resolve_mode(&ModeValue::Text("unrestricted".to_string()), true),
        Ok(ExecMode::Unrestricted)
    );
    assert!(resolve_mode(&ModeValue::Text("unrestricted".to_string()), false).is_err());
    assert_eq!(
        resolve_mode(&ModeValue::Text("root".to_string()), false).unwrap_err(),
        "mode must be \"readonly\" or \"approval\"; \"root\" is not accepted"
    );
    assert_eq!(
        resolve_mode(&ModeValue::Other, true).unwrap_err(),
        "mode must be a string: \"readonly\", \"approval\", or \"unrestricted\""
    );
}
