use assay::ws_session::{client_read_step, connect_headers, outgoing_frame, Frame, Incoming, ReadStep, ServerConn};

fn s(t: &str) -> String {
    t.to_string()
}

#[test]
fn a_server_read_delivers_frames_and_finishes_on_close() {
    let mut c = ServerConn::new();
    assert!(!c.is_closed());
    assert_eq!(c.read_step(Incoming::Text(s("hé"))), ReadStep::Deliver("hé".as_bytes().to_vec()));
    assert_eq!(c.read_step(Incoming::Binary(vec![0, 255])), ReadStep::Deliver(vec![0, 255]));
    assert_eq!(c.read_step(Incoming::Control), ReadStep::Skip);
    assert!(!c.is_closed());
    assert_eq!(c.read_step(Incoming::Close), ReadStep::Finished);
    assert!(c.is_closed());
}

#[test]
fn a_failed_read_closes_the_connection() {
    let mut c = ServerConn::new();
    assert_eq!(
        c.read_step(Incoming::Failed(s("Connection reset without closing handshake"))),
        ReadStep::Failed(s("conn:read: Connection reset without closing handshake"))
    );
    assert!(c.is_closed());
    let mut d = ServerConn::new();
    assert_eq!(d.read_step(Incoming::End), ReadStep::Finished);
    assert!(d.is_closed());
}

#[test]
fn closing_twice_sends_one_frame() {
    let mut c = ServerConn::new();
    assert_eq!(c.close(None, None), Some(None));
    assert!(c.is_closed());
    assert_eq!(c.close(Some(1001), Some(s("bye"))), None);
    let mut d = ServerConn::new();
    assert_eq!(d.close(None, Some(s("done"))), Some(Some((1000, s("done")))));
    let mut e = ServerConn::new();
    assert_eq!(e.close(Some(4000), None), Some(Some((4000, s("")))));
}

#[test]
fn a_client_read_treats_the_end_as_an_error() {
    assert_eq!(client_read_step(Incoming::Close), ReadStep::Failed(s("ws.recv: connection closed")));
    assert_eq!(client_read_step(Incoming::End), ReadStep::Failed(s("ws.recv: connection closed")));
    assert_eq!(client_read_step(Incoming::Failed(s("boom"))), ReadStep::Failed(s("ws.recv: boom")));
    assert_eq!(client_read_step(Incoming::Text(s("hi"))), ReadStep::Deliver(b"hi".to_vec()));
    assert_eq!(client_read_step(Incoming::Control), ReadStep::Skip);
}

#[test]
fn text_frames_must_be_utf8_unless_sent_binary() {
    assert_eq!(outgoing_frame(b"hi".to_vec(), false), Ok(Frame::Text(s("hi"))));
    assert_eq!(outgoing_frame(vec![0xff, 0xfe], true), Ok(Frame::Binary(vec![0xff, 0xfe])));
    let err = outgoing_frame(vec![0xff, 0xfe], false).unwrap_err();
    assert!(err.starts_with(
        "conn:write: text frames must be UTF-8 (use opts.binary=true for raw bytes): "
    ));
    assert!(err.len() > "conn:write: text frames must be UTF-8 (use opts.binary=true for raw bytes): ".len());
}

#[test]
fn subprotocols_go_first_in_one_header() {
    let headers = vec![(s("Authorization"), s("Bearer t"))];
    assert_eq!(
        connect_headers(&[s("graphql-ws"), s("json")], headers),
        vec![(s("Sec-WebSocket-Protocol"), s("graphql-ws, json")), (s("Authorization"), s("Bearer t"))]
    );
    assert_eq!(connect_headers(&[], vec![(s("A"), s("1"))]), vec![(s("A"), s("1"))]);
}
