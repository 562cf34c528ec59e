//! The decisions of a WebSocket connection that do not touch the socket:
//! what a received message gives the script, when a connection counts as
//! closed, what a write sends, the close frame, and the handshake headers
//! of a client.
//!
//! A server-side connection is closed for good once the peer ends the
//! stream, a read fails, a close frame arrives, or the script closes it;
//! closing it again sends nothing.

use vstd::prelude::*;
use vstd::utf8::{decode_utf8, valid_utf8};
use crate::text::{chars_of, string_of, string_from, push_str, push_chars, join_strings, join_sep, views};

verus! {

/// What the socket hands over next.
#[derive(Debug, PartialEq, Eq)]
pub enum Incoming {
    /// The stream ended.
    End,
    /// Reading failed, with the error's text.
    Failed(String),
    Text(String),
    Binary(Vec<u8>),
    /// A close frame.
    Close,
    /// A ping, a pong or a raw frame, which the protocol layer answers.
    Control,
}

/// What a read does with it.
#[derive(Debug, PartialEq, Eq)]
pub enum ReadStep {
    /// Hand these bytes to the script: a text frame's UTF-8, or a binary
    /// frame as it is.
    Deliver(Vec<u8>),
    /// The connection is over: the script gets `nil`.
    Finished,
    /// Raise this error.
    Failed(String),
    /// Nothing for the script; read on.
    Skip,
}

/// A frame the script sends.
#[derive(Debug, PartialEq, Eq)]
pub enum Frame {
    Text(String),
    Binary(Vec<u8>),
}

/// A server-side connection's state: whether it is closed.
#[derive(Debug)]
pub struct ServerConn {
    closed: bool,
}

/// The code a close frame carries where the script names none: 1000,
/// normal closure.
pub const NORMAL_CLOSURE: u16 = 1000;

impl ServerConn {
    /// Whether the connection is closed.
    pub closed spec fn is_closed_spec(&self) -> bool {
        self.closed
    }

    /// A fresh, open connection.
    pub fn new() -> (c: ServerConn)
        ensures
            !c.is_closed_spec(),
    {
        ServerConn { closed: false }
    }

    /// Whether the connection is closed.
    pub fn is_closed(&self) -> (r: bool)
        ensures
            r == self.is_closed_spec(),
    {
        self.closed
    }

    /// A server read's step on what arrived: text and binary frames are
    /// delivered; the end of the stream and a close frame finish the
    /// connection, a failure raises `conn:read: <error>` and also closes it;
    /// control frames are skipped.
    pub fn read_step(&mut self, m: Incoming) -> (r: ReadStep)
        ensures
            final(self).is_closed_spec() == closed_after(old(self).is_closed_spec(), m),
            match m {
                Incoming::End | Incoming::Close => r == ReadStep::Finished,
                Incoming::Failed(e) => r matches ReadStep::Failed(t) && t@ == "conn:read: "@ + e@,
                Incoming::Text(t) => r matches ReadStep::Deliver(b) && b@ == vstd::utf8::encode_utf8(t@),
                Incoming::Binary(b) => r == ReadStep::Deliver(b),
                Incoming::Control => r == ReadStep::Skip,
            },
    {
        match m {
            Incoming::End | Incoming::Close => {
                self.closed = true;
                ReadStep::Finished
            },
            Incoming::Failed(e) => {
                self.closed = true;
                let mut v = chars_of("conn:read: ");
                push_str(&mut v, e.as_str());
                proof {
                    assert(v@ =~= "conn:read: "@ + e@);
                }
                ReadStep::Failed(string_of(&v))
            },
            Incoming::Text(t) => ReadStep::Deliver(text_bytes(t)),
            Incoming::Binary(b) => ReadStep::Deliver(b),
            Incoming::Control => ReadStep::Skip,
        }
    }

    /// Closes the connection: `None` where it was closed already, so that
    /// nothing is sent twice; else the close frame to send, `Some(None)` for
    /// a bare one where the script gave neither code nor reason, else the
    /// code (`NORMAL_CLOSURE` by default) and the reason (empty by default).
    pub fn close(&mut self, code: Option<u16>, reason: Option<String>) -> (r: Option<Option<(u16, String)>>)
        ensures
            final(self).is_closed_spec(),
            old(self).is_closed_spec() ==> r is None,
            !old(self).is_closed_spec() && code is None && reason is None ==> r == Some(
                None::<(u16, String)>,
            ),
            !old(self).is_closed_spec() && !(code is None && reason is None) ==> (r matches Some(Some((c, t)))
                && c == (match code {
                Some(c) => c,
                None => NORMAL_CLOSURE,
            }) && t@ == (match reason {
                Some(s) => s@,
                None => Seq::<char>::empty(),
            })),
    {
        if self.closed {
            return None;
        }
        self.closed = true;
        match (code, reason) {
            (None, None) => Some(None),
            (code, reason) => {
                let c = match code {
                    Some(c) => c,
                    None => NORMAL_CLOSURE,
                };
                let t = match reason {
                    Some(s) => s,
                    None => string_of(&Vec::<char>::new()),
                };
                Some(Some((c, t)))
            },
        }
    }
}

/// Whether a connection is closed after a read: it was, or the stream
/// ended, failed or brought a close frame.
pub open spec fn closed_after(was_closed: bool, m: Incoming) -> bool {
    was_closed || m is End || m is Failed || m is Close
}

/// Once closed, a connection stays closed whatever a read brings, and a
/// text frame leaves an open connection open.
pub proof fn law_closed_stays_closed(was_closed: bool, m: Incoming)
    ensures
        was_closed ==> closed_after(was_closed, m),
        !was_closed && m is Text ==> !closed_after(was_closed, m),
{
}

/// The UTF-8 encoding of a text.
fn text_bytes(t: String) -> (r: Vec<u8>)
    ensures
        r@ == vstd::utf8::encode_utf8(t@),
{
    t.as_str().as_bytes_vec()
}

/// A client read's step: text and binary frames are delivered; the end of
/// the stream and a close frame raise `ws.recv: connection closed`, a
/// failure `ws.recv: <error>`; control frames are skipped.
pub fn client_read_step(m: Incoming) -> (r: ReadStep)
    ensures
        match m {
            Incoming::End | Incoming::Close => r matches ReadStep::Failed(t) && t@ == "ws.recv: connection closed"@,
            Incoming::Failed(e) => r matches ReadStep::Failed(t) && t@ == "ws.recv: "@ + e@,
            Incoming::Text(t) => r matches ReadStep::Deliver(b) && b@ == vstd::utf8::encode_utf8(t@),
            Incoming::Binary(b) => r == ReadStep::Deliver(b),
            Incoming::Control => r == ReadStep::Skip,
        },
{
    match m {
        Incoming::End | Incoming::Close => ReadStep::Failed(string_from("ws.recv: connection closed")),
        Incoming::Failed(e) => {
            let mut v = chars_of("ws.recv: ");
            push_str(&mut v, e.as_str());
            proof {
                assert(v@ =~= "ws.recv: "@ + e@);
            }
            ReadStep::Failed(string_of(&v))
        },
        Incoming::Text(t) => ReadStep::Deliver(text_bytes(t)),
        Incoming::Binary(b) => ReadStep::Deliver(b),
        Incoming::Control => ReadStep::Skip,
    }
}

/// `String::from_utf8`: the text exactly when the bytes are valid UTF-8;
/// otherwise the error's message, of which nothing is promised.
#[verifier::external_body]
fn string_from_utf8(bytes: Vec<u8>) -> (r: Result<String, String>)
    ensures
        r is Ok <==> valid_utf8(bytes@),
        r matches Ok(s) ==> s@ == decode_utf8(bytes@),
{
    String::from_utf8(bytes).map_err(|e| e.to_string())
}

/// The start of the refusal of a text frame that is not UTF-8.
pub open spec fn not_utf8_prefix() -> Seq<char> {
    "conn:write: text frames must be UTF-8 (use opts.binary=true for raw bytes): "@
}

/// The frame a server write sends: the bytes as they are when `binary` is
/// set, else a text frame, which must be UTF-8.
pub fn outgoing_frame(data: Vec<u8>, binary: bool) -> (r: Result<Frame, String>)
    ensures
        binary ==> r == Ok::<Frame, String>(Frame::Binary(data)),
        !binary && valid_utf8(data@) ==> (r matches Ok(Frame::Text(t)) && t@ == decode_utf8(data@)),
        !binary && !valid_utf8(data@) ==> (r matches Err(e) && e@.len() >= not_utf8_prefix().len() && e@.take(
            not_utf8_prefix().len() as int,
        ) == not_utf8_prefix()),
{
    if binary {
        return Ok(Frame::Binary(data));
    }
    match string_from_utf8(data) {
        Ok(t) => Ok(Frame::Text(t)),
        Err(detail) => {
            let mut v = chars_of("conn:write: text frames must be UTF-8 (use opts.binary=true for raw bytes): ");
            let ghost p = v@;
            push_str(&mut v, detail.as_str());
            proof {
                assert(v@.take(p.len() as int) =~= p);
            }
            Err(string_of(&v))
        },
    }
}

/// The handshake headers of a client: `Sec-WebSocket-Protocol` listing the
/// subprotocols joined by `, ` where there are any, then the caller's
/// headers in their order.
pub fn connect_headers(subprotocols: &[String], headers: Vec<(String, String)>) -> (r: Vec<(String, String)>)
    ensures
        subprotocols@.len() == 0 ==> r@ == headers@,
        subprotocols@.len() > 0 ==> r@.len() == headers@.len() + 1 && r@[0].0@ == "Sec-WebSocket-Protocol"@
            && r@[0].1@ == join_sep(views(subprotocols@), ", "@) && r@.skip(1) == headers@,
{
    if subprotocols.len() == 0 {
        return headers;
    }
    let mut out: Vec<(String, String)> = Vec::new();
    out.push((string_from("Sec-WebSocket-Protocol"), join_strings(subprotocols, ", ")));
    let mut rest = headers;
    out.append(&mut rest);
    proof {
        assert(out@.skip(1) =~= headers@);
    }
    out
}

} // verus!
