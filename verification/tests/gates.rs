use assay::gates::{
    blocked_functions, blocked_tables, client_request_refusal, header_names, io_open_writes,
    io_output_writes, readonly_refusal, split_path, truncate, GateDecision, GateState, approval_request,
    ApprovalRequest, APPROVAL_REQUEST_PREFIX,
};

#[test]
fn write_modes_of_io_open_are_gated() {
    assert!(io_open_writes(Some("w")));
    assert!(io_open_writes(Some("rb+")));
    assert!(io_open_writes(Some("a")));
    assert!(!io_open_writes(Some("rb")));
    assert!(!io_open_writes(None));
    assert!(io_output_writes(1));
    assert!(!io_output_writes(0));
}

#[test]
fn readonly_refusals_name_the_operation() {
    assert_eq!(
        readonly_refusal("fs.write"),
        "readonly: fs.write blocked (write operations are disabled in read-only mode)"
    );
    assert_eq!(
        client_request_refusal(Some("post")),
        Some("readonly: http.post blocked (write operations are disabled in read-only mode)".to_string())
    );
    assert_eq!(client_request_refusal(Some("get")), None);
    assert_eq!(client_request_refusal(None), None);
}

#[test]
fn the_catalog_is_shared_and_readonly_adds_two() {
    let shared = blocked_functions(false);
    let ro = blocked_functions(true);
    assert_eq!(ro.len(), shared.len() + 2);
    assert!(shared.contains(&"http.post".to_string()));
    assert!(!shared.contains(&"io.popen".to_string()));
    assert!(ro.contains(&"io.popen".to_string()));
    assert_eq!(blocked_tables(), vec!["shell", "process", "machinectl"]);
    assert_eq!(split_path("fs.write"), Some(("fs".to_string(), "write".to_string())));
    assert_eq!(split_path("plain"), None);
}

#[test]
fn each_gated_call_takes_the_next_index() {
    let mut g = GateState::new(vec![0, 2], Some(1), vec![(0, "fs.write".to_string())]);
    assert_eq!(g.decide("fs.write", "/tmp/x"), GateDecision::Proceed);
    assert_eq!(g.decide("fs.write", "/tmp/x"), GateDecision::Refused("approval: fs.write denied".to_string()));
    assert_eq!(
        g.decide("fs.remove", "/tmp/y"),
        GateDecision::Refused(
            "approval: no operation binding for approved index 2 ('fs.remove') — refusing".to_string()
        )
    );
    assert_eq!(
        g.decide("fs.remove", "/tmp/y"),
        GateDecision::AskApproval { index: 3, op: "fs.remove".to_string(), summary: "/tmp/y".to_string() }
    );
    assert_eq!(g.counter, 4);
}

#[test]
fn a_grant_does_not_cover_a_changed_operation() {
    let mut g = GateState::new(vec![0], None, vec![(0, "fs.write".to_string())]);
    assert_eq!(
        g.decide("fs.remove", ""),
        GateDecision::Refused(
            "approval: operation at index 0 changed since approval (approved 'fs.write', got 'fs.remove')"
                .to_string()
        )
    );
}

#[test]
fn summaries_are_cut_at_two_hundred_characters() {
    assert_eq!(truncate("short"), "short");
    let long = "é".repeat(250);
    let s = truncate(&long);
    assert_eq!(s.chars().count(), 203);
    assert!(s.ends_with("..."));
    assert_eq!(truncate(&"x".repeat(200)), "x".repeat(200));
}

#[test]
fn header_names_are_sorted_and_unique() {
    let names = vec!["b".to_string(), "a".to_string(), "b".to_string(), "Z".to_string()];
    assert_eq!(header_names(names), vec!["Z", "a", "b"]);
    assert!(header_names(vec![]).is_empty());
}

#[test]
fn an_unapproved_call_asks_with_a_prompt_naming_the_operation() {
    let mut gate = GateState::new(vec![], None, vec![]);
    let d = gate.decide("http.post", "https://x/");
    assert_eq!(
        approval_request(&d),
        Some(ApprovalRequest {
            prompt: "Approve http.post?".to_string(),
            op: "http.post".to_string(),
            summary: "https://x/".to_string(),
            index: 0,
        })
    );
    assert_eq!(approval_request(&GateDecision::Proceed), None);
    assert_eq!(APPROVAL_REQUEST_PREFIX, "__assay_approval_request__:");
}

#[test]
fn a_rebound_index_keeps_its_last_operation() {
    let mut gate = GateState::new(vec![0], None, vec![(0, "fs.write".to_string()), (0, "http.post".to_string())]);
    assert_eq!(gate.decide("http.post", "x"), GateDecision::Proceed);
}
