use assay::redact::Json;
use assay::systemd::{is_timer_unit, timer_passed, units_matching, follow_matches, journal_args, journal_entry, machine_id_from, JournalQuery, machine_exec_args};

fn obj(fields: Vec<(&str, &str)>) -> Json {
    Json::Object(fields.into_iter().map(|(k, v)| (k.to_string(), Json::Str(v.to_string()))).collect())
}

#[test]
fn journalctl_is_asked_for_json_with_the_filters_given() {
    let q = JournalQuery {
        unit: Some("ssh.service".to_string()),
        machine: None,
        since: Some("-1h".to_string()),
        until: None,
        lines: 200,
        priority: 7,
    };
    assert_eq!(
        journal_args(&q),
        vec!["--output=json", "--no-pager", "-n200", "--priority=7", "--unit=ssh.service", "--since=-1h"]
    );
}

#[test]
fn an_entry_reads_its_fields_with_defaults() {
    let e = journal_entry(&obj(vec![
        ("__REALTIME_TIMESTAMP", "1700000000000000"),
        ("_HOSTNAME", "h"),
        ("MESSAGE", "hello"),
        ("PRIORITY", "3"),
    ]))
    .unwrap();
    assert_eq!(e.ts, 1_700_000_000_000_000);
    assert_eq!(e.hostname, "h");
    assert_eq!(e.message, "hello");
    assert_eq!(e.priority, 3);
    assert_eq!(e.unit, "");
    assert_eq!(e.transport, "");
    let d = journal_entry(&obj(vec![("PRIORITY", "300"), ("__REALTIME_TIMESTAMP", "x")])).unwrap();
    assert_eq!(d.priority, 7);
    assert_eq!(d.ts, 0);
    assert!(journal_entry(&Json::Null).is_none());
}

#[test]
fn a_follow_matches_every_priority_up_to_the_given_one() {
    let m = follow_matches(&Some("a.service".to_string()), &Some("vm".to_string()), &None, 2);
    assert_eq!(m, vec!["_SYSTEMD_UNIT=a.service", "_MACHINE=vm", "PRIORITY=0", "PRIORITY=1", "PRIORITY=2"]);
    let id = "0123456789abcdef0123456789ABCDEF".to_string();
    let m = follow_matches(&None, &Some("vm".to_string()), &Some(id.clone()), 0);
    assert_eq!(m, vec![format!("_MACHINE_ID={id}"), "PRIORITY=0".to_string()]);
}

#[test]
fn a_machine_id_is_thirty_two_hex_digits() {
    let content = "NAME=vm\nMACHINE_ID=xyz\nMACHINE_ID= 0123456789abcdef0123456789abcdef \n";
    assert_eq!(machine_id_from(content), Some("0123456789abcdef0123456789abcdef".to_string()));
    assert_eq!(machine_id_from("MACHINE_ID=0123"), None);
}

#[test]
fn machine_exec_passes_the_command_whole_to_sh() {
    let env = vec![("A".to_string(), "1".to_string()), ("B".to_string(), "x y".to_string())];
    assert_eq!(
        machine_exec_args("web", "echo hi; ls", &env),
        vec![
            "--machine=web", "--pipe", "--quiet", "--wait", "--collect", "--setenv=A=1",
            "--setenv=B=x y", "/bin/sh", "-c", "echo hi; ls",
        ]
    );
    assert_eq!(machine_exec_args("m", "true", &[]).len(), 8);
}

#[test]
fn a_listing_keeps_the_units_its_glob_matches() {
    let names: Vec<String> = ["ssh.service", "cron.service", "apt-daily.timer"].iter().map(|s| s.to_string()).collect();
    assert_eq!(units_matching(&names, None), vec![0, 1, 2]);
    assert_eq!(units_matching(&names, Some("*.service")), vec![0, 1]);
    assert_eq!(units_matching(&names, Some("apt-*")), vec![2]);
}

#[test]
fn timers_are_told_by_name_and_pass_once_due() {
    assert!(is_timer_unit("apt-daily.timer"));
    assert!(!is_timer_unit("apt-daily.service"));
    assert!(timer_passed(100, 101));
    assert!(!timer_passed(100, 100));
    assert!(!timer_passed(0, 5));
}
