use assay::dns_wire::{
    decode_response, encode_name, encode_query, message_id, read_name, record_type, Answer, CLASS_IN,
    TYPE_A,
    TYPE_AAAA, TYPE_CNAME, TYPE_MX, TYPE_TXT,
};

/// Assemble a response whose answers all point their owner name at the
/// question, which is what a real nameserver emits.
fn response(flags: u16, question: (&str, u16), rrs: &[(u16, Vec<u8>)]) -> Vec<u8> {
    let mut out = Vec::new();
    out.extend_from_slice(&0x1234u16.to_be_bytes());
    out.extend_from_slice(&flags.to_be_bytes());
    out.extend_from_slice(&1u16.to_be_bytes());
    out.extend_from_slice(&(rrs.len() as u16).to_be_bytes());
    out.extend_from_slice(&0u16.to_be_bytes());
    out.extend_from_slice(&0u16.to_be_bytes());

    out.extend_from_slice(&encode_name(question.0).unwrap());
    out.extend_from_slice(&question.1.to_be_bytes());
    out.extend_from_slice(&CLASS_IN.to_be_bytes());

    for (rtype, rdata) in rrs {
        out.extend_from_slice(&[0xC0, 0x0C]);
        out.extend_from_slice(&rtype.to_be_bytes());
        out.extend_from_slice(&CLASS_IN.to_be_bytes());
        out.extend_from_slice(&60u32.to_be_bytes());
        out.extend_from_slice(&(rdata.len() as u16).to_be_bytes());
        out.extend_from_slice(rdata);
    }
    out
}

fn txt_rdata(chunks: &[&str]) -> Vec<u8> {
    let mut out = Vec::new();
    for chunk in chunks {
        out.push(chunk.len() as u8);
        out.extend_from_slice(chunk.as_bytes());
    }
    out
}

fn mx_rdata(preference: u16, exchange: &str) -> Vec<u8> {
    let mut out = preference.to_be_bytes().to_vec();
    out.extend_from_slice(&encode_name(exchange).unwrap());
    out
}

fn texts(answers: &[Answer]) -> Vec<String> {
    answers
        .iter()
        .map(|a| match a {
            Answer::Text(s) => s.clone(),
            other => panic!("expected text answer, got {other:?}"),
        })
        .collect()
}

#[test]
fn txt_chunks_join_with_nothing_between_them() {
    let msg = response(
        0x8180,
        ("example.com", TYPE_TXT),
        &[(TYPE_TXT, txt_rdata(&["v=spf1 include:_spf.", "example.com ~all"]))],
    );
    let out = decode_response(&msg, TYPE_TXT).unwrap();
    assert_eq!(texts(&out.answers), vec!["v=spf1 include:_spf.example.com ~all"]);
}

#[test]
fn a_dkim_key_split_across_two_chunks_reassembles_byte_exact() {
    let head = "x".repeat(255);
    let tail = "y".repeat(120);
    let msg = response(
        0x8180,
        ("sel._domainkey.example.com", TYPE_TXT),
        &[(TYPE_TXT, txt_rdata(&[&head, &tail]))],
    );
    let out = decode_response(&msg, TYPE_TXT).unwrap();
    assert_eq!(texts(&out.answers), vec![format!("{head}{tail}")]);
}

#[test]
fn two_txt_records_stay_two_strings() {
    let msg = response(
        0x8180,
        ("example.com", TYPE_TXT),
        &[
            (TYPE_TXT, txt_rdata(&["v=spf1 -all"])),
            (TYPE_TXT, txt_rdata(&["google-site-verification=abc"])),
        ],
    );
    let out = decode_response(&msg, TYPE_TXT).unwrap();
    assert_eq!(texts(&out.answers), vec!["v=spf1 -all", "google-site-verification=abc"]);
}

#[test]
fn mx_carries_preference_and_comes_back_lowest_first() {
    let msg = response(
        0x8180,
        ("example.com", TYPE_MX),
        &[
            (TYPE_MX, mx_rdata(20, "ALT1.aspmx.L.google.com.")),
            (TYPE_MX, mx_rdata(1, "aspmx.l.google.com.")),
            (TYPE_MX, mx_rdata(10, "mx.example.com.")),
        ],
    );
    let out = decode_response(&msg, TYPE_MX).unwrap();
    assert_eq!(
        out.answers,
        vec![
            Answer::Mx { preference: 1, exchange: "aspmx.l.google.com".to_string() },
            Answer::Mx { preference: 10, exchange: "mx.example.com".to_string() },
            Answer::Mx { preference: 20, exchange: "alt1.aspmx.l.google.com".to_string() },
        ]
    );
}

#[test]
fn nxdomain_is_an_empty_list_and_servfail_is_an_error() {
    let absent = response(0x8183, ("nope.example.com", TYPE_A), &[]);
    assert!(decode_response(&absent, TYPE_A).unwrap().answers.is_empty());

    let broken = response(0x8182, ("example.com", TYPE_A), &[]);
    assert_eq!(decode_response(&broken, TYPE_A).unwrap_err(), "SERVFAIL");

    let refused = response(0x8185, ("example.com", TYPE_A), &[]);
    assert_eq!(decode_response(&refused, TYPE_A).unwrap_err(), "REFUSED");

    let formerr = response(0x8181, ("example.com", TYPE_A), &[]);
    assert_eq!(decode_response(&formerr, TYPE_A).unwrap_err(), "FORMERR");
}

#[test]
fn a_cname_alongside_the_answer_is_left_out_of_it() {
    let msg = response(
        0x8180,
        ("www.example.com", TYPE_A),
        &[
            (TYPE_CNAME, encode_name("example.com").unwrap()),
            (TYPE_A, vec![93, 184, 216, 34]),
        ],
    );
    let out = decode_response(&msg, TYPE_A).unwrap();
    assert_eq!(texts(&out.answers), vec!["93.184.216.34"]);
}

#[test]
fn a_pointer_that_does_not_go_backwards_is_rejected_rather_than_followed() {
    let mut msg = vec![0; 12];
    msg[2] = 0x81;
    msg[3] = 0x80;
    msg[5] = 1;
    msg.extend_from_slice(&[0xC0, 0x0C]);
    msg.extend_from_slice(&TYPE_A.to_be_bytes());
    msg.extend_from_slice(&CLASS_IN.to_be_bytes());
    assert_eq!(
        decode_response(&msg, TYPE_A).unwrap_err(),
        "compression pointer does not point backwards"
    );

    let mut forward = msg.clone();
    forward[12] = 0xC0;
    forward[13] = 0x40;
    assert_eq!(
        decode_response(&forward, TYPE_A).unwrap_err(),
        "compression pointer does not point backwards"
    );
}

#[test]
fn a_truncated_answer_reports_the_flag_instead_of_a_parse_error() {
    let mut msg = response(
        0x8180,
        ("example.com", TYPE_TXT),
        &[(TYPE_TXT, txt_rdata(&["v=spf1 -all"]))],
    );
    msg[2] |= 0x02;
    msg.truncate(msg.len() - 6);
    let out = decode_response(&msg, TYPE_TXT).unwrap();
    assert!(out.truncated);
}

#[test]
fn a_query_asks_recursively_and_advertises_an_edns_buffer() {
    let q = encode_query(0xBEEF, "example.com", TYPE_MX).unwrap();
    assert_eq!(message_id(&q), Some(0xBEEF));
    assert_eq!(&q[2..4], &0x0100u16.to_be_bytes());
    assert_eq!(&q[10..12], &1u16.to_be_bytes());
    assert_eq!(&q[12..25], b"\x07example\x03com\x00");
    assert!(q.ends_with(&[0, 0, 41, 0x04, 0xD0, 0, 0, 0, 0, 0, 0]));
}

#[test]
fn names_that_cannot_be_encoded_are_refused_before_any_socket_is_opened() {
    assert!(encode_query(1, "exa..mple.com", TYPE_A).is_err());
    assert!(encode_query(1, &"a".repeat(64), TYPE_A).is_err());
    let too_long = vec!["abcdefghij"; 30].join(".");
    assert!(encode_query(1, &too_long, TYPE_A).is_err());
}

#[test]
fn record_types_are_recognised_whatever_their_case() {
    assert_eq!(record_type("txt"), Some(TYPE_TXT));
    assert_eq!(record_type("Mx"), Some(TYPE_MX));
    assert_eq!(record_type("AAAA"), Some(TYPE_AAAA));
    assert_eq!(record_type("SOA"), None);
}

#[test]
fn a_short_message_has_no_id_and_is_refused() {
    assert_eq!(message_id(&[0x12]), None);
    assert!(decode_response(&[0u8; 5], TYPE_A).is_err());
}

#[test]
fn a_name_with_a_trailing_dot_encodes_like_one_without() {
    assert_eq!(encode_name("example.com.").unwrap(), encode_name("example.com").unwrap());
    assert_eq!(encode_name("").unwrap(), vec![0]);
}

#[test]
fn an_aaaa_answer_reads_as_an_ipv6_address() {
    let addr = vec![0x20, 0x01, 0x0d, 0xb8, 0, 0, 0, 0, 0, 0, 0, 0, 0, 0, 0, 1];
    let msg = response(0x8180, ("example.com", TYPE_AAAA), &[(TYPE_AAAA, addr)]);
    let out = decode_response(&msg, TYPE_AAAA).unwrap();
    assert_eq!(texts(&out.answers), vec!["2001:db8::1"]);
}

#[test]
fn a_reply_to_a_query_is_required() {
    let not_reply = response(0x0100, ("example.com", TYPE_A), &[]);
    assert!(decode_response(&not_reply, TYPE_A).is_err());
}

#[test]
fn an_encoded_name_reads_back_lower_cased_without_its_dots() {
    let mut bytes = encode_name("Mail.Example.COM.").unwrap();
    let end = bytes.len();
    bytes.extend_from_slice(&[0, 15, 0, 1]);
    let mut pos = 0usize;
    assert_eq!(read_name(&bytes, &mut pos).unwrap(), "mail.example.com");
    assert_eq!(pos, end);
    let root = encode_name("...").unwrap();
    let mut pos = 0usize;
    assert_eq!(read_name(&root, &mut pos).unwrap(), "");
    assert_eq!(pos, 1);
}

#[test]
fn a_query_carries_the_id_it_was_built_with() {
    for id in [0u16, 1, 0xbeef, u16::MAX] {
        let q = encode_query(id, "example.com", TYPE_A).unwrap();
        assert_eq!(message_id(&q), Some(id));
    }
}

#[test]
fn a_position_past_the_end_is_refused_not_read() {
    let bytes = vec![3u8, b'c', b'o', b'm', 0];
    for start in [5usize, 6, 100, usize::MAX] {
        let mut pos = start;
        assert_eq!(read_name(&bytes, &mut pos).unwrap_err(), "name runs past the end of the message");
    }
}
