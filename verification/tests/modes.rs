use assay::modes::{
    resolve_script_mode, ScriptMode,
    approval_config, parse_indices, resolve_exec_mode, switch_from, ApprovalConfig, ExecMode, VmOptions,
};

#[test]
fn approval_wins_over_readonly() {
    assert_eq!(resolve_exec_mode(true, true, false, false), ExecMode::Approval);
    assert_eq!(resolve_exec_mode(true, false, false, true), ExecMode::Approval);
    assert_eq!(resolve_exec_mode(false, false, true, false), ExecMode::ReadOnly);
    assert_eq!(resolve_exec_mode(false, false, false, false), ExecMode::Unrestricted);
    assert!(ExecMode::ReadOnly.is_readonly());
    assert!(!ExecMode::ReadOnly.is_approval());
    assert!(ExecMode::Approval.is_approval());
    assert_eq!(ExecMode::default(), ExecMode::Unrestricted);
}

#[test]
fn switches_are_on_for_one_and_true_only() {
    assert!(switch_from(Some(" 1 ")));
    assert!(switch_from(Some("true")));
    assert!(!switch_from(Some("TRUE")));
    assert!(!switch_from(Some("yes")));
    assert!(!switch_from(None));
}

#[test]
fn indices_skip_what_is_not_a_number() {
    assert_eq!(parse_indices("1, 2,,x, 40 "), vec![1, 2, 40]);
    assert_eq!(parse_indices(""), Vec::<u64>::new());
}

#[test]
fn approval_state_comes_from_its_variables() {
    let c = approval_config(Some("3,5"), Some(" 7 "));
    assert_eq!(c.approved_indices, vec![3, 5]);
    assert_eq!(c.denied_index, Some(7));
    let none = approval_config(None, Some("x"));
    assert!(none.approved_indices.is_empty());
    assert_eq!(none.denied_index, None);
    assert_eq!(ApprovalConfig::default(), ApprovalConfig { approved_indices: vec![], denied_index: None });
    let o = VmOptions::default();
    assert_eq!(o.mode, ExecMode::Unrestricted);
    assert!(o.global_modules_path.is_none());
}

#[test]
fn the_command_line_mode_wins_over_the_environment() {
    assert_eq!(resolve_script_mode(Some("tool"), Some("script")), ScriptMode::Tool);
    assert_eq!(resolve_script_mode(Some("script"), Some("tool")), ScriptMode::Script);
    assert_eq!(resolve_script_mode(None, Some("tool")), ScriptMode::Tool);
    assert_eq!(resolve_script_mode(None, Some("Tool")), ScriptMode::Script);
    assert_eq!(resolve_script_mode(None, None), ScriptMode::Script);
}
