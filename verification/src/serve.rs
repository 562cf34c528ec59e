//! The answers `http.serve` makes on its own, around a script's handlers:
//! the 404 of a path no route takes, the 500 of a failing handler, the
//! WebSocket handshake (101 or 400), and the query parameters a handler is
//! given.

use vstd::prelude::*;
use crate::builtins::{validate_ws_request, compute_ws_accept, ws_request_spec, ws_accept_spec, header_pairs};
use crate::text::{lower, chars_of, lower_chars, chars_eq, string_of, string_from, push_str};

verus! {

/// The status line, headers and body of an answer the server makes itself.
#[derive(Debug, PartialEq, Eq)]
pub struct ResponseHead {
    pub status: u16,
    /// The headers in order.
    pub headers: Vec<(String, String)>,
    pub body: String,
}

/// Headers as plain values.
pub open spec fn pair_views(hs: Seq<(String, String)>) -> Seq<(Seq<char>, Seq<char>)> {
    hs.map_values(|h: (String, String)| (h.0@, h.1@))
}

fn text_head(status: u16, body: String) -> (r: ResponseHead)
    ensures
        r.status == status,
        pair_views(r.headers@) == seq![("content-type"@, "text/plain"@)],
        r.body@ == body@,
{
    let mut headers: Vec<(String, String)> = Vec::new();
    headers.push((string_from("content-type"), string_from("text/plain")));
    proof {
        assert(pair_views(headers@) =~= seq![("content-type"@, "text/plain"@)]);
    }
    ResponseHead { status, headers, body }
}

/// The answer to a request that no route takes (and no other router
/// serves): 404, `not found`, as plain text.
pub fn not_found() -> (r: ResponseHead)
    ensures
        r.status == 404,
        pair_views(r.headers@) == seq![("content-type"@, "text/plain"@)],
        r.body@ == "not found"@,
{
    text_head(404, string_from("not found"))
}

/// The answer when a handler raises an error: 500, `handler error:` and the
/// error, as plain text.
pub fn handler_error(error: &str) -> (r: ResponseHead)
    ensures
        r.status == 500,
        pair_views(r.headers@) == seq![("content-type"@, "text/plain"@)],
        r.body@ == "handler error: "@ + error@,
{
    let mut v = chars_of("handler error: ");
    push_str(&mut v, error);
    proof {
        assert(v@ =~= "handler error: "@ + error@);
    }
    text_head(500, string_of(&v))
}

/// Whether a header is one the handshake itself sets: `Upgrade`,
/// `Connection` or `Sec-WebSocket-Accept`, in any case.
pub open spec fn is_protocol_header(name: Seq<char>) -> bool {
    lower(name) == "upgrade"@ || lower(name) == "connection"@ || lower(name) == "sec-websocket-accept"@
}

/// A handler's headers without those the handshake sets, in their order.
pub open spec fn kept_headers(hs: Seq<(Seq<char>, Seq<char>)>) -> Seq<(Seq<char>, Seq<char>)>
    decreases hs.len(),
{
    if hs.len() == 0 {
        Seq::empty()
    } else if is_protocol_header(hs.last().0) {
        kept_headers(hs.drop_last())
    } else {
        kept_headers(hs.drop_last()).push(hs.last())
    }
}

/// The answer to a WebSocket upgrade whose handler accepted it: 400 and the
/// reason where the handshake is malformed; else 101 with `upgrade:
/// websocket`, `connection: Upgrade` and the accept key, then the
/// handler's own headers except those three, and no body.
pub fn upgrade_head(request_headers: &[(String, String)], handler_headers: &[(String, String)]) -> (r: ResponseHead)
    ensures
        match ws_request_spec(header_pairs(request_headers@)) {
            Err(m) => r.status == 400 && pair_views(r.headers@) == seq![("content-type"@, "text/plain"@)]
                && r.body@ == "websocket upgrade rejected: "@ + m,
            Ok(key) => r.status == 101 && pair_views(r.headers@) == seq![
                ("upgrade"@, "websocket"@),
                ("connection"@, "Upgrade"@),
                ("sec-websocket-accept"@, ws_accept_spec(key)),
            ] + kept_headers(pair_views(handler_headers@)) && r.body@.len() == 0,
        },
{
    let key = match validate_ws_request(request_headers) {
        Ok(k) => k,
        Err(msg) => {
            let mut v = chars_of("websocket upgrade rejected: ");
            push_str(&mut v, msg);
            proof {
                assert(v@ =~= "websocket upgrade rejected: "@ + msg@);
            }
            return text_head(400, string_of(&v));
        },
    };
    let accept = compute_ws_accept(key.as_str());
    let mut headers: Vec<(String, String)> = Vec::new();
    headers.push((string_from("upgrade"), string_from("websocket")));
    headers.push((string_from("connection"), string_from("Upgrade")));
    headers.push((string_from("sec-websocket-accept"), accept));
    let ghost own = pair_views(headers@);
    let ghost hv = pair_views(handler_headers@);
    let mut i: usize = 0;
    while i < handler_headers.len()
        invariant
            i <= handler_headers@.len(),
            hv == pair_views(handler_headers@),
            pair_views(headers@) == own + kept_headers(hv.take(i as int)),
        decreases handler_headers@.len() - i,
    {
        let name = handler_headers[i].0.as_str();
        let lowered = lower_chars(&chars_of(name));
        let protocol = chars_eq(&lowered, &chars_of("upgrade")) || chars_eq(&lowered, &chars_of("connection"))
            || chars_eq(&lowered, &chars_of("sec-websocket-accept"));
        proof {
            assert(hv.take(i + 1).drop_last() =~= hv.take(i as int));
            assert(hv.take(i + 1).last() == hv[i as int]);
            assert(hv[i as int].0 == name@);
        }
        if !protocol {
            let ghost before = headers@;
            headers.push((string_from(name), string_from(handler_headers[i].1.as_str())));
            assert(pair_views(headers@) =~= pair_views(before).push(hv[i as int]));
        }
        i += 1;
    }
    proof {
        assert(hv.take(i as int) =~= hv);
        assert(own =~= seq![
            ("upgrade"@, "websocket"@),
            ("connection"@, "Upgrade"@),
            ("sec-websocket-accept"@, ws_accept_spec(key@)),
        ]);
    }
    ResponseHead { status: 101, headers, body: string_of(&Vec::<char>::new()) }
}

/// What `url::form_urlencoded::parse` reads from a query string: its
/// `key=value` pairs in order, percent-escapes and `+` decoded.
pub uninterp spec fn form_pairs_spec(query: Seq<char>) -> Seq<(Seq<char>, Seq<char>)>;

/// `url::form_urlencoded::parse`: the decoded pairs of a query string, in
/// order; the contract names the result and says no more of it.
#[verifier::external_body]
fn form_pairs(query: &str) -> (r: Vec<(String, String)>)
    ensures
        pair_views(r@) == form_pairs_spec(query@),
{
    url::form_urlencoded::parse(query.as_bytes()).map(|(k, v)| (k.into_owned(), v.into_owned())).collect()
}

/// Where the pair with that key stands, or the length when none has it.
pub open spec fn key_index(ps: Seq<(Seq<char>, Seq<char>)>, key: Seq<char>) -> int
    decreases ps.len(),
{
    if ps.len() == 0 {
        0
    } else if ps[0].0 == key {
        0
    } else {
        1 + key_index(ps.drop_first(), key)
    }
}

/// Parameters as a table holds them: a later value for a key replaces the
/// earlier one.
pub open spec fn as_table(ps: Seq<(Seq<char>, Seq<char>)>) -> Seq<(Seq<char>, Seq<char>)>
    decreases ps.len(),
{
    if ps.len() == 0 {
        Seq::empty()
    } else {
        let acc = as_table(ps.drop_last());
        let i = key_index(acc, ps.last().0);
        if 0 <= i < acc.len() {
            acc.update(i, ps.last())
        } else {
            acc.push(ps.last())
        }
    }
}

proof fn lemma_key_index(ps: Seq<(Seq<char>, Seq<char>)>, key: Seq<char>, i: int)
    requires
        0 <= i <= ps.len(),
        forall|k: int| 0 <= k < i ==> (#[trigger] ps[k]).0 != key,
        i < ps.len() ==> ps[i].0 == key,
    ensures
        key_index(ps, key) == i,
    decreases i,
{
    if i > 0 {
        let rest = ps.drop_first();
        assert forall|k: int| 0 <= k < i - 1 implies (#[trigger] rest[k]).0 != key by {
            assert(rest[k] == ps[k + 1]);
        }
        lemma_key_index(rest, key, i - 1);
    }
}

fn find_key(ps: &Vec<(String, String)>, key: &Vec<char>) -> (j: usize)
    ensures
        j as int == key_index(pair_views(ps@), key@),
        j <= ps@.len(),
{
    let ghost pv = pair_views(ps@);
    let mut j: usize = 0;
    while j < ps.len()
        invariant
            j <= ps@.len(),
            pv == pair_views(ps@),
            forall|k: int| 0 <= k < j ==> (#[trigger] pv[k]).0 != key@,
        decreases ps@.len() - j,
    {
        if chars_eq(&chars_of(ps[j].0.as_str()), key) {
            proof {
                lemma_key_index(pv, key@, j as int);
            }
            return j;
        }
        j += 1;
    }
    proof {
        lemma_key_index(pv, key@, j as int);
    }
    j
}

/// The query parameters a handler is given: each key once, with the last
/// value the query gives it; none for an empty query.
pub fn request_params(query: &str) -> (r: Vec<(String, String)>)
    ensures
        query@.len() == 0 ==> r@.len() == 0,
        query@.len() > 0 ==> pair_views(r@) == as_table(form_pairs_spec(query@)),
{
    let mut out: Vec<(String, String)> = Vec::new();
    if chars_of(query).len() == 0 {
        return out;
    }
    let pairs = form_pairs(query);
    let ghost pv = pair_views(pairs@);
    let mut i: usize = 0;
    while i < pairs.len()
        invariant
            i <= pairs@.len(),
            pv == pair_views(pairs@),
            pv == form_pairs_spec(query@),
            pair_views(out@) == as_table(pv.take(i as int)),
        decreases pairs@.len() - i,
    {
        let key = chars_of(pairs[i].0.as_str());
        let ghost acc = pair_views(out@);
        proof {
            assert(pv.take(i + 1).drop_last() =~= pv.take(i as int));
            assert(pv.take(i + 1).last() == pv[i as int]);
        }
        let j = find_key(&out, &key);
        let found = j < out.len();
        let entry = (string_from(pairs[i].0.as_str()), string_from(pairs[i].1.as_str()));
        if found {
            out.set(j, entry);
            assert(pair_views(out@) =~= acc.update(j as int, pv[i as int]));
        } else {
            out.push(entry);
            assert(pair_views(out@) =~= acc.push(pv[i as int]));
        }
        i += 1;
    }
    proof {
        assert(pv.take(i as int) =~= pv);
    }
    out
}

} // verus!
