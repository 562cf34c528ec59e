use assay::smtp::Reply;
use assay::smtp_probe::{
    begin, greeting_failure, greeting_ready, params_of, search_start, search_step, step, unreachable_probe,
    Action, Event, HostEvent, Plan, Probe, ProbeOptions, SearchAction,
};

fn plan(catch_all: bool, delay: u64) -> Plan {
    Plan {
        email: "someone@example.com".to_string(),
        domain: "example.com".to_string(),
        from: "probe@prober.test".to_string(),
        helo: "prober.test".to_string(),
        catch_all_check: catch_all,
        greylist_delay_ms: delay,
        random: 0xAB,
    }
}

fn reply(code: u16, text: &str) -> Event {
    Event::Replied(Reply { code, text: text.to_string() })
}

fn sent(a: &Action) -> String {
    match a {
        Action::Send(l) => l.clone(),
        Action::SendAfter(_, l) => l.clone(),
        _ => panic!("expected a command"),
    }
}

fn finished(a: Action) -> Probe {
    match a {
        Action::Finish(p) | Action::QuitAndFinish(p) => p,
        _ => panic!("expected the end of the probe"),
    }
}

fn run(p: &Plan, events: Vec<Event>) -> (Vec<String>, Probe) {
    let (mut d, mut a) = begin(p, "mx.example.com".to_string());
    let mut lines = vec![sent(&a)];
    for e in events {
        let (nd, na) = step(p, d, e);
        d = nd;
        a = na;
        match &a {
            Action::Send(_) | Action::SendAfter(_, _) => lines.push(sent(&a)),
            _ => return (lines, finished(a)),
        }
    }
    panic!("the dialogue did not end");
}

#[test]
fn a_deliverable_address_walks_the_whole_envelope() {
    let p = plan(true, 0);
    let (lines, probe) = run(
        &p,
        vec![reply(250, "hi"), reply(250, "ok"), reply(550, "no such user"), reply(250, "ok")],
    );
    assert_eq!(
        lines,
        vec![
            "EHLO prober.test",
            "MAIL FROM:<probe@prober.test>",
            "RCPT TO:<00000000000000ab@example.com>",
            "RCPT TO:<someone@example.com>",
        ]
    );
    assert!(probe.host_exists);
    assert!(probe.deliverable);
    assert_eq!(probe.reason, "accepted");
    assert_eq!(probe.stage, "rcpt_target");
    assert_eq!(probe.mx_host.as_deref(), Some("mx.example.com"));
    assert!(lines.iter().all(|l| l != "DATA"));
}

#[test]
fn a_server_that_says_yes_to_anything_is_a_catch_all() {
    let p = plan(true, 0);
    let (_, probe) = run(&p, vec![reply(250, "hi"), reply(250, "ok"), reply(250, "accepted")]);
    assert!(probe.catch_all);
    assert_eq!(probe.reason, "catch_all");
    assert_eq!(probe.stage, "rcpt_random");
    assert_eq!(probe.code, Some(250));
}

#[test]
fn a_refused_ehlo_falls_back_to_helo() {
    let p = plan(false, 0);
    let (lines, probe) = run(
        &p,
        vec![reply(502, "no esmtp"), reply(250, "hello"), reply(250, "ok"), reply(550, "user unknown")],
    );
    assert_eq!(lines[1], "HELO prober.test");
    assert_eq!(probe.reason, "no_mailbox");
    assert!(!probe.deliverable);
    assert!(probe.host_exists);
}

#[test]
fn a_soft_refusal_is_asked_again_after_the_delay() {
    let p = plan(false, 3000);
    let (mut d, _) = begin(&p, "mx".to_string());
    for e in [reply(250, "hi"), reply(250, "ok")] {
        d = step(&p, d, e).0;
    }
    let (d, a) = step(&p, d, reply(451, "try later"));
    match &a {
        Action::SendAfter(ms, l) => {
            assert_eq!(*ms, 3000);
            assert_eq!(l, "RCPT TO:<someone@example.com>");
        }
        _ => panic!("expected a retry"),
    }
    let (_, a) = step(&p, d, reply(451, "still later"));
    let probe = finished(a);
    assert!(probe.greylisted);
    assert_eq!(probe.reason, "exceeded_limits");
}

#[test]
fn a_broken_connection_stops_the_probe_with_an_io_error() {
    let p = plan(false, 0);
    let (d, _) = begin(&p, "mx".to_string());
    let (_, a) = step(&p, d, Event::Broken("connection closed".to_string()));
    let probe = finished(a);
    assert_eq!(probe.reason, "io_error");
    assert_eq!(probe.stage, "ehlo");
    assert_eq!(probe.detail, "connection closed");
}

#[test]
fn a_refusal_of_the_sender_is_reported_at_mail_from() {
    let p = plan(false, 0);
    let (_, probe) = run(&p, vec![reply(250, "hi"), reply(554, "5.7.1 denied by policy")]);
    assert_eq!(probe.stage, "mail_from");
    assert_eq!(probe.reason, "blocked");
    assert!(probe.blocked);
    assert_eq!(probe.code, Some(554));
}

#[test]
fn no_host_answering_is_unreachable() {
    let probe = unreachable_probe("mx1: connect timeout\r\n");
    assert!(!probe.host_exists);
    assert_eq!(probe.reason, "unreachable");
    assert_eq!(probe.stage, "connect");
    assert_eq!(probe.detail, "mx1: connect timeout");
}

#[test]
fn a_greeting_other_than_220_is_noted() {
    let r = Reply { code: 554, text: "go away".to_string() };
    assert!(!greeting_ready(&r));
    assert_eq!(greeting_failure("mx1", &r), "mx1: greeting 554 go away");
    assert!(greeting_ready(&Reply { code: 220, text: String::new() }));
}

#[test]
fn flags_once_raised_stay_raised() {
    let mut p = Probe::default();
    p.note_flags("full_inbox");
    p.note_flags("accepted");
    assert!(p.full_inbox);
    p.note_flags("not_allowed");
    assert!(p.disabled && p.full_inbox && !p.blocked);
    let stopped = p.rejected_at("rcpt_target", &Reply { code: 552, text: "over quota".to_string() });
    assert_eq!(stopped.reason, "full_inbox");
    assert_eq!(stopped.code, Some(552));
    let s = Probe::default().stopped("ehlo", "io_error", "x".to_string());
    assert_eq!((s.stage.as_str(), s.reason.as_str(), s.detail.as_str()), ("ehlo", "io_error", "x"));
}

fn options(email: &str, from: &str, mx: Option<Vec<&str>>) -> ProbeOptions {
    ProbeOptions {
        email: email.to_string(),
        from: from.to_string(),
        mx: mx.map(|v| v.into_iter().map(str::to_string).collect()),
        helo: None,
        port: None,
        connect_timeout_ms: None,
        op_timeout_ms: None,
        catch_all: None,
        greylist_delay_ms: None,
    }
}

#[test]
fn params_take_the_domain_after_the_last_at_and_the_defaults() {
    let p = params_of(&options("a@b@Example.COM", "probe@sender.net", Some(vec!["mx1", "mx2"]))).unwrap();
    assert_eq!(p.domain, "example.com");
    assert_eq!(p.helo, "sender.net");
    assert_eq!(p.hosts, vec!["mx1".to_string(), "mx2".to_string()]);
    assert_eq!(p.port, 25);
    assert_eq!(p.connect_ms, 8_000);
    assert_eq!(p.op_ms, 8_000);
    assert!(p.catch_all_check);
    assert_eq!(p.greylist_delay_ms, 3_000);
    let plan = p.plan().unwrap();
    assert_eq!(plan.domain, "example.com");
    assert_eq!(plan.helo, "sender.net");
}

#[test]
fn given_options_override_the_defaults() {
    let mut o = options("x@d.org", "s@e.org", Some(vec!["mx"]));
    o.helo = Some("me.example".to_string());
    o.port = Some(2525);
    o.catch_all = Some(false);
    o.greylist_delay_ms = Some(0);
    let p = params_of(&o).unwrap();
    assert_eq!(p.helo, "me.example");
    assert_eq!(p.port, 2525);
    assert!(!p.catch_all_check);
    assert_eq!(p.greylist_delay_ms, 0);
}

#[test]
fn params_refuse_what_cannot_be_probed() {
    let err = |o: ProbeOptions| params_of(&o).err().unwrap();
    assert_eq!(
        err(options("nobody", "s@e.org", Some(vec!["mx"]))),
        "smtp_probe.check: email must contain '@'"
    );
    assert_eq!(
        err(options("x@d.org", "sender", Some(vec!["mx"]))),
        "smtp_probe.check: from must be a full address — servers judge the envelope sender"
    );
    assert_eq!(
        err(options("x@d.org", "s@e.org", None)),
        "smtp_probe.check: mx list is required"
    );
    assert_eq!(
        err(options("x@d.org", "s@e.org", Some(vec![]))),
        "smtp_probe.check: mx list is empty"
    );
}

#[test]
fn hosts_are_tried_in_order_until_one_greets_with_220() {
    let hosts = vec!["mx1.example".to_string(), "mx2.example".to_string()];
    assert_eq!(search_start(&hosts), SearchAction::Try(0));
    assert_eq!(search_step(&hosts, 0, &HostEvent::Failed("connect timeout".to_string())), SearchAction::Try(1));
    let ready = HostEvent::Greeted(Reply { code: 220, text: "mx2 ESMTP".to_string() });
    assert_eq!(search_step(&hosts, 1, &ready), SearchAction::Begin(1));
}

#[test]
fn no_greeting_from_any_host_is_unreachable() {
    let hosts = vec!["mx1.example".to_string()];
    let busy = HostEvent::Greeted(Reply { code: 554, text: "go away".to_string() });
    match search_step(&hosts, 0, &busy) {
        SearchAction::GiveUp(p) => {
            assert_eq!(p.stage, "connect");
            assert_eq!(p.reason, "unreachable");
            assert_eq!(p.detail, "mx1.example: greeting 554 go away");
            assert!(!p.host_exists);
        }
        other => panic!("expected to give up, got {other:?}"),
    }
    match search_start(&[]) {
        SearchAction::GiveUp(p) => {
            assert_eq!(p.reason, "unreachable");
            assert_eq!(p.detail, "no mx hosts");
        }
        other => panic!("expected to give up, got {other:?}"),
    }
}
