use assay::process::{shell_result, ShellEnd, ShellResult, kill_request, wait_pid, wait_report, ChildEnd, NumArg, WaitReport, SIGTERM};

#[test]
fn a_kill_needs_a_positive_pid_and_defaults_to_sigterm() {
    assert_eq!(kill_request(NumArg::Number(42), NumArg::Missing), Ok((42, SIGTERM)));
    assert_eq!(SIGTERM, 15);
    assert_eq!(kill_request(NumArg::Number(42), NumArg::Number(9)), Ok((42, 9)));
    assert_eq!(kill_request(NumArg::Number(42), NumArg::Number(0)), Ok((42, 0)));
    assert_eq!(kill_request(NumArg::Missing, NumArg::Missing), Err("process.kill: pid required".to_string()));
    assert_eq!(kill_request(NumArg::Other, NumArg::Missing), Err("process.kill: pid must be a number".to_string()));
    assert_eq!(kill_request(NumArg::Number(0), NumArg::Missing), Err("process.kill: pid must be > 0, got 0".to_string()));
    assert_eq!(
        kill_request(NumArg::Number(-1), NumArg::Number(9)),
        Err("process.kill: pid must be > 0, got -1".to_string())
    );
    assert_eq!(
        kill_request(NumArg::Number(7), NumArg::Number(-2)),
        Err("process.kill: signal must be >= 0, got -2".to_string())
    );
    assert_eq!(kill_request(NumArg::Number(7), NumArg::Other), Err("process.kill: signal must be a number".to_string()));
    assert_eq!(kill_request(NumArg::Nil, NumArg::Missing), Err("process.kill: pid must be a number".to_string()));
    assert_eq!(kill_request(NumArg::Number(7), NumArg::Nil), Ok((7, SIGTERM)));
}

#[test]
fn a_wait_needs_a_positive_pid() {
    assert_eq!(wait_pid(NumArg::Number(3)), Ok(3));
    assert_eq!(wait_pid(NumArg::Number(0)), Err("process.wait: pid must be > 0".to_string()));
    assert_eq!(wait_pid(NumArg::Missing), Err("process.wait: pid required".to_string()));
    assert_eq!(wait_pid(NumArg::Other), Err("process.wait: pid must be a number".to_string()));
    assert_eq!(wait_pid(NumArg::Nil), Err("process.wait: pid must be a number".to_string()));
}

#[test]
fn a_killed_child_reports_128_plus_the_signal() {
    assert_eq!(
        wait_report(ChildEnd::Exited(3)),
        WaitReport { status: 3, exited: true, signaled: false, timed_out: false }
    );
    assert_eq!(
        wait_report(ChildEnd::Signaled(9)),
        WaitReport { status: 137, exited: false, signaled: true, timed_out: false }
    );
    assert_eq!(
        wait_report(ChildEnd::TimedOut),
        WaitReport { status: -1, exited: false, signaled: false, timed_out: true }
    );
    assert_eq!(
        wait_report(ChildEnd::Neither),
        WaitReport { status: -1, exited: false, signaled: false, timed_out: false }
    );
}

#[test]
fn a_shell_result_carries_the_code_and_the_output() {
    assert_eq!(
        shell_result(ShellEnd::Exited { code: Some(2), stdout: b"out".to_vec(), stderr: vec![0xff] }),
        ShellResult { status: 2, stdout: "out".to_string(), stderr: "\u{fffd}".to_string(), timed_out: false }
    );
    assert_eq!(
        shell_result(ShellEnd::Exited { code: None, stdout: vec![], stderr: vec![] }).status,
        -1
    );
    assert_eq!(
        shell_result(ShellEnd::TimedOut),
        ShellResult { status: -1, stdout: String::new(), stderr: String::new(), timed_out: true }
    );
}
