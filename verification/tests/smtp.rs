use assay::smtp::{
    classify, classify_lowered, is_greylist, parse_reply_line, reply_step, truncate, Reply,
    ReplyProgress, MAX_DETAIL_LEN, MAX_REPLY_LINES,
};

#[test]
fn mailbox_wording_outranks_the_code_it_arrives_with() {
    assert_eq!(classify(552, "5.1.1 user unknown"), "no_mailbox");
    assert_eq!(classify(452, "4.2.2 mailbox is full"), "full_inbox");
    assert_eq!(classify(452, "too many recipients"), "too_many_recipients");
    assert_eq!(classify(550, "5.7.1 blocked by spamhaus"), "blocked");
    assert_eq!(classify(550, "5.1.1 unrouteable"), "no_mailbox");
    assert_eq!(classify(421, "service closing"), "try_again_later");
    assert_eq!(classify(599, "who knows"), "rejected");
}

#[test]
fn only_soft_refusals_count_as_greylisting() {
    assert!(is_greylist("try_again_later"));
    assert!(is_greylist("mailbox_busy"));
    assert!(is_greylist("exceeded_limits"));
    assert!(!is_greylist("no_mailbox"));
    assert!(!is_greylist("accepted"));
}

#[test]
fn detail_is_flattened_and_bounded() {
    assert_eq!(truncate("  550 no\r\n such user \n"), "550 no   such user");
    assert_eq!(truncate(&"x".repeat(400)).chars().count(), MAX_DETAIL_LEN);
}

#[test]
fn upper_case_wording_is_read_after_lower_casing() {
    assert_eq!(classify(550, "5.1.1 USER UNKNOWN"), "no_mailbox");
    assert_eq!(classify_lowered(550, "5.1.1 USER UNKNOWN"), "no_mailbox");
    assert_eq!(classify_lowered(551, "moved"), "recipient_moved");
}

#[test]
fn every_code_has_its_reason() {
    assert_eq!(classify(450, "later"), "mailbox_busy");
    assert_eq!(classify(451, "slow down"), "exceeded_limits");
    assert_eq!(classify(503, "bad sequence"), "need_mail_before_rcpt");
    assert_eq!(classify(552, "message size"), "full_inbox");
    assert_eq!(classify(553, "relay"), "no_relay");
    assert_eq!(classify(554, "transaction failed"), "not_allowed");
}

#[test]
fn a_positive_reply_is_accepted_whatever_it_says() {
    let r = Reply { code: 250, text: "user unknown".to_string() };
    assert!(r.positive());
    assert_eq!(r.reason(), "accepted");
    let r = Reply { code: 550, text: "user unknown".to_string() };
    assert!(!r.positive());
    assert_eq!(r.reason(), "no_mailbox");
}

#[test]
fn reply_lines_carry_code_text_and_continuation() {
    assert_eq!(parse_reply_line("250-mx.example.com\r\n"), Ok((250, "mx.example.com".to_string(), true)));
    assert_eq!(parse_reply_line("250 OK\r\n"), Ok((250, "OK".to_string(), false)));
    assert_eq!(parse_reply_line("220\n"), Ok((220, String::new(), false)));
    assert_eq!(parse_reply_line("ab\r\n"), Err("malformed reply: ab".to_string()));
    assert_eq!(parse_reply_line("xyz hello\r\n"), Err("malformed reply: xyz hello".to_string()));
}

#[test]
fn a_multiline_reply_is_joined_with_spaces() {
    let mut parts = Vec::new();
    assert!(matches!(reply_step(&mut parts, "250-first\r\n"), ReplyProgress::More));
    match reply_step(&mut parts, "250 second\r\n") {
        ReplyProgress::Done(r) => {
            assert_eq!(r.code, 250);
            assert_eq!(r.text, "first second");
        }
        _ => panic!("expected a complete reply"),
    }
}

#[test]
fn a_reply_that_never_ends_is_refused() {
    let mut parts = Vec::new();
    for _ in 0..MAX_REPLY_LINES - 1 {
        assert!(matches!(reply_step(&mut parts, "250-more\r\n"), ReplyProgress::More));
    }
    match reply_step(&mut parts, "250-more\r\n") {
        ReplyProgress::Failed(e) => assert_eq!(e, "reply exceeded 64 lines"),
        _ => panic!("expected a refusal"),
    }
}
