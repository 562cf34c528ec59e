use assay::sse::{format_sse_event, next_sse_event, parse_i64, parse_sse_event, SseEvent};

fn event(event: Option<&str>, data: Option<&str>, id: Option<&str>, retry: Option<i64>) -> SseEvent {
    SseEvent {
        event: event.map(str::to_string),
        data: data.map(str::to_string),
        id: id.map(str::to_string),
        retry,
    }
}

#[test]
fn each_data_line_gets_its_own_prefix() {
    let text = format_sse_event(&event(Some("tick"), Some("a\nb"), Some("7"), Some(1500))).unwrap();
    assert_eq!(text, "event: tick\ndata: a\ndata: b\nid: 7\nretry: 1500\n\n");
}

#[test]
fn an_empty_event_is_only_the_blank_line() {
    assert_eq!(format_sse_event(&event(None, None, None, None)).unwrap(), "\n");
    assert_eq!(format_sse_event(&event(None, Some(""), None, None)).unwrap(), "data: \n\n");
}

#[test]
fn names_and_ids_that_break_lines_are_refused() {
    assert_eq!(
        format_sse_event(&event(Some("a\nb"), None, None, None)).unwrap_err(),
        "SSE event name must not contain newlines"
    );
    assert_eq!(
        format_sse_event(&event(None, None, Some("x\r"), None)).unwrap_err(),
        "SSE id must not contain newlines"
    );
}

#[test]
fn a_negative_retry_is_written_with_its_sign() {
    assert_eq!(
        format_sse_event(&event(None, None, None, Some(-20))).unwrap(),
        "retry: -20\n\n"
    );
}

#[test]
fn a_written_event_reads_back_the_same() {
    let e = event(Some("update"), Some("{\"n\":1}"), Some("42"), Some(i64::MIN));
    let text = format_sse_event(&e).unwrap();
    let buffer = format!("{text}event: next");
    let (got, rest) = next_sse_event(&buffer).unwrap();
    assert_eq!(got, Some(e));
    assert_eq!(rest, "event: next");
}

#[test]
fn a_stream_is_cut_at_blank_lines() {
    assert_eq!(next_sse_event("data: partial"), None);
    let (got, rest) = next_sse_event("\n\ndata: x\n\n").unwrap();
    assert_eq!(got, None);
    assert_eq!(rest, "data: x\n\n");
    let (got, rest) = next_sse_event(&rest).unwrap();
    assert_eq!(got, Some(event(None, Some("x"), None, None)));
    assert_eq!(rest, "");
}

#[test]
fn reading_keeps_the_last_value_and_skips_unknown_lines() {
    let e = parse_sse_event("data: one\r\n: comment\ndata: two\nretry: soon\nid: 3");
    assert_eq!(e, event(None, Some("two"), Some("3"), None));
}

#[test]
fn signed_numbers_parse_as_rust_does() {
    let p = |s: &str| parse_i64(&s.chars().collect::<Vec<_>>());
    assert_eq!(p("-9223372036854775808"), Some(i64::MIN));
    assert_eq!(p("9223372036854775807"), Some(i64::MAX));
    assert_eq!(p("9223372036854775808"), None);
    assert_eq!(p("+5"), Some(5));
    assert_eq!(p("-+5"), None);
    assert_eq!(p("-"), None);
    assert_eq!(p(""), None);
    assert_eq!(p(" 5"), None);
}
