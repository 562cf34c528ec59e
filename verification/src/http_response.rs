//! The response a script's handler returns to `http.serve`, as the head
//! that goes on the wire: status, headers, and what the body is.
//!
//! The handler's own headers go first and win: a default `Content-Type`
//! (JSON, plain text, or the event stream's) is only added where the
//! handler set none, and so are an event stream's `Cache-Control` and
//! `Connection`.

use vstd::prelude::*;
use crate::redact::{Json, JsonModel, model};
use crate::text::{lower, chars_of, lower_chars, chars_eq, string_from};

verus! {

/// A header value as the handler gave it.
#[derive(Debug, PartialEq, Eq)]
pub enum HeaderArg {
    /// One value.
    Text(String),
    /// Several values, one header each (several `Set-Cookie`, say).
    List(Vec<String>),
    /// A value of another kind, which sets nothing.
    Other,
}

/// What the handler's response carries.
#[derive(Debug, PartialEq, Eq)]
pub enum Content {
    /// An `sse` function that writes an event stream.
    Events,
    /// A `json` table, as the document it encodes to.
    Doc(Json),
    /// A `body` string.
    Body(Vec<u8>),
    /// Neither.
    Nothing,
}

/// What goes out as the body.
#[derive(Debug, PartialEq, Eq)]
pub enum ResponseBody {
    /// The events the handler's `sse` function sends, as they come.
    Events,
    /// The document, as compact JSON.
    Doc(Json),
    Bytes(Vec<u8>),
}

/// The head of a response and what its body is.
#[derive(Debug, PartialEq, Eq)]
pub struct ResponsePlan {
    pub status: u16,
    /// The headers in order; a name may repeat.
    pub headers: Vec<(String, String)>,
    pub body: ResponseBody,
}

/// The status sent: the handler's where it is a valid status code (three
/// digits, 100 to 999), else 200.
pub open spec fn status_of(status: Option<u16>) -> u16 {
    match status {
        Some(c) => if 100 <= c <= 999 {
            c
        } else {
            200
        },
        None => 200,
    }
}

/// The headers one entry of the handler's table sets.
pub open spec fn entry_headers(e: (String, HeaderArg)) -> Seq<(Seq<char>, Seq<char>)> {
    match e.1 {
        HeaderArg::Text(v) => seq![(e.0@, v@)],
        HeaderArg::List(vs) => vs@.map_values(|v: String| (e.0@, v@)),
        HeaderArg::Other => Seq::empty(),
    }
}

/// The headers the handler's table sets, entry by entry.
pub open spec fn given_headers(hs: Seq<(String, HeaderArg)>) -> Seq<(Seq<char>, Seq<char>)>
    decreases hs.len(),
{
    if hs.len() == 0 {
        Seq::empty()
    } else {
        given_headers(hs.drop_last()) + entry_headers(hs.last())
    }
}

/// Whether a header of that (lower-case) name is among these, in any case.
pub open spec fn has_header(hs: Seq<(Seq<char>, Seq<char>)>, name: Seq<char>) -> bool {
    exists|i: int| 0 <= i < hs.len() && lower(#[trigger] hs[i].0) == name
}

/// Whether the handler's table names `Content-Type`, in any case, whatever
/// the value.
pub open spec fn names_content_type(hs: Seq<(String, HeaderArg)>) -> bool {
    exists|i: int| 0 <= i < hs.len() && lower((#[trigger] hs[i]).0@) == "content-type"@
}

/// A default header, added where no header of its name is set.
pub open spec fn with_default(
    hs: Seq<(Seq<char>, Seq<char>)>,
    name: Seq<char>,
    value: Seq<char>,
) -> Seq<(Seq<char>, Seq<char>)> {
    if has_header(hs, name) {
        hs
    } else {
        hs.push((name, value))
    }
}

/// The headers of a response: the handler's, then the defaults it did not
/// override. An event stream defaults `content-type: text/event-stream`,
/// `cache-control: no-cache` and `connection: keep-alive`; a JSON body
/// `content-type: application/json`; anything else `content-type:
/// text/plain`.
pub open spec fn response_headers(hs: Seq<(String, HeaderArg)>, content: Content) -> Seq<(Seq<char>, Seq<char>)> {
    let given = given_headers(hs);
    match content {
        Content::Events => with_default(
            with_default(with_default(given, "content-type"@, "text/event-stream"@), "cache-control"@, "no-cache"@),
            "connection"@,
            "keep-alive"@,
        ),
        Content::Doc(_) => if names_content_type(hs) {
            given
        } else {
            given.push(("content-type"@, "application/json"@))
        },
        _ => if names_content_type(hs) {
            given
        } else {
            given.push(("content-type"@, "text/plain"@))
        },
    }
}

/// Headers as plain values.
pub open spec fn header_views(hs: Seq<(String, String)>) -> Seq<(Seq<char>, Seq<char>)> {
    hs.map_values(|h: (String, String)| (h.0@, h.1@))
}

fn push_entry(out: &mut Vec<(String, String)>, name: &String, value: HeaderArg)
    ensures
        header_views(final(out)@) == header_views(old(out)@) + entry_headers((*name, value)),
{
    match value {
        HeaderArg::Text(v) => {
            out.push((string_from(name.as_str()), v));
            assert(header_views(out@) =~= header_views(old(out)@) + entry_headers((*name, HeaderArg::Text(v))));
        },
        HeaderArg::List(vs) => {
            let ghost vv = vs@;
            let ghost start = header_views(out@);
            let mut i: usize = 0;
            let mut rest = vs;
            let n = rest.len();
            while rest.len() > 0
                invariant
                    i <= vv.len(),
                    vv.len() == n,
                    rest@ == vv.skip(i as int),
                    header_views(out@) == start + vv.take(i as int).map_values(|v: String| (name@, v@)),
                decreases rest@.len(),
            {
                let v = rest.remove(0);
                assert(v == vv[i as int]);
                let ghost prev = out@;
                let nm = string_from(name.as_str());
                out.push((nm, v));
                assert(header_views(out@) =~= header_views(prev).push((name@, v@)));
                assert(vv.take(i + 1) =~= vv.take(i as int).push(v));
                assert(vv.take(i + 1).map_values(|v: String| (name@, v@)) =~= vv.take(i as int).map_values(
                    |v: String| (name@, v@),
                ).push((name@, v@)));
                assert(header_views(out@) =~= start + vv.take(i + 1).map_values(|v: String| (name@, v@)));
                i += 1;
                assert(vv.skip(i as int) =~= vv.skip(i - 1).drop_first());
            }
            assert(vv.take(i as int) =~= vv);
        },
        HeaderArg::Other => {
            assert(header_views(out@) =~= header_views(old(out)@) + entry_headers((*name, HeaderArg::Other)));
        },
    }
}

fn is_named(name: &str, lowered: &str) -> (r: bool)
    ensures
        r == (lower(name@) == lowered@),
{
    chars_eq(&lower_chars(&chars_of(name)), &chars_of(lowered))
}

fn has_named(hs: &Vec<(String, String)>, lowered: &str) -> (r: bool)
    ensures
        r == has_header(header_views(hs@), lowered@),
{
    let mut i: usize = 0;
    while i < hs.len()
        invariant
            i <= hs@.len(),
            forall|k: int| 0 <= k < i ==> lower((#[trigger] header_views(hs@)[k]).0) != lowered@,
        decreases hs@.len() - i,
    {
        if is_named(hs[i].0.as_str(), lowered) {
            assert(header_views(hs@)[i as int].0 == hs@[i as int].0@);
            return true;
        }
        i += 1;
    }
    false
}

fn add_default(out: &mut Vec<(String, String)>, name: &str, value: &str)
    ensures
        header_views(final(out)@) == with_default(header_views(old(out)@), name@, value@),
{
    if !has_named(out, name) {
        out.push((string_from(name), string_from(value)));
        assert(header_views(out@) =~= header_views(old(out)@).push((name@, value@)));
    }
}

/// The status, headers and body of the response a handler returned. The
/// handler's headers come first and win; a default content type (and an
/// event stream's cache and connection headers) is added where they set
/// none.
pub fn response_plan(status: Option<u16>, headers: Vec<(String, HeaderArg)>, content: Content) -> (r: ResponsePlan)
    ensures
        r.status == status_of(status),
        header_views(r.headers@) == response_headers(headers@, content),
        match content {
            Content::Events => r.body is Events,
            Content::Doc(j) => r.body == ResponseBody::Doc(j),
            Content::Body(b) => r.body == ResponseBody::Bytes(b),
            Content::Nothing => r.body matches ResponseBody::Bytes(b) && b@.len() == 0,
        },
{
    let code: u16 = match status {
        Some(c) => if 100 <= c && c <= 999 {
            c
        } else {
            200
        },
        None => 200,
    };
    let ghost hv = headers@;
    let mut out: Vec<(String, String)> = Vec::new();
    let mut names_ct = false;
    let mut rest = headers;
    let mut i: usize = 0;
    let n = rest.len();
    while rest.len() > 0
        invariant
            i <= hv.len(),
            hv.len() == n,
            rest@ == hv.skip(i as int),
            header_views(out@) == given_headers(hv.take(i as int)),
            names_ct == (exists|k: int| 0 <= k < i && lower((#[trigger] hv[k]).0@) == "content-type"@),
        decreases rest@.len(),
    {
        let (name, value) = rest.remove(0);
        assert((name, value) == hv[i as int]);
        if is_named(name.as_str(), "content-type") {
            names_ct = true;
        }
        proof {
            assert(hv.take(i + 1).drop_last() =~= hv.take(i as int));
            assert(hv.take(i + 1).last() == hv[i as int]);
        }
        push_entry(&mut out, &name, value);
        i += 1;
        assert(hv.skip(i as int) =~= hv.skip(i - 1).drop_first());
    }
    assert(hv.take(i as int) =~= hv);
    assert(names_ct == names_content_type(hv));
    let body = match content {
        Content::Events => {
            add_default(&mut out, "content-type", "text/event-stream");
            add_default(&mut out, "cache-control", "no-cache");
            add_default(&mut out, "connection", "keep-alive");
            ResponseBody::Events
        },
        Content::Doc(j) => {
            if !names_ct {
                out.push((string_from("content-type"), string_from("application/json")));
            }
            ResponseBody::Doc(j)
        },
        Content::Body(b) => {
            if !names_ct {
                out.push((string_from("content-type"), string_from("text/plain")));
            }
            ResponseBody::Bytes(b)
        },
        Content::Nothing => {
            if !names_ct {
                out.push((string_from("content-type"), string_from("text/plain")));
            }
            ResponseBody::Bytes(Vec::new())
        },
    };
    ResponsePlan { status: code, headers: out, body }
}

/// Whether a name is the name of one of the handler's entries.
pub open spec fn entry_named(hs: Seq<(String, HeaderArg)>, name: Seq<char>) -> bool {
    exists|k: int| 0 <= k < hs.len() && (#[trigger] hs[k]).0@ == name
}

proof fn lemma_given_names(hs: Seq<(String, HeaderArg)>)
    ensures
        forall|j: int| 0 <= j < given_headers(hs).len() ==> entry_named(hs, (#[trigger] given_headers(hs)[j]).0),
    decreases hs.len(),
{
    if hs.len() > 0 {
        let front = hs.drop_last();
        lemma_given_names(front);
        let g = given_headers(hs);
        let gf = given_headers(front);
        let e = hs.last();
        assert(g == gf + entry_headers(e));
        assert forall|j: int| 0 <= j < g.len() implies entry_named(hs, (#[trigger] g[j]).0) by {
            if j < gf.len() {
                assert(g[j] == gf[j]);
                assert(entry_named(front, gf[j].0));
                let k = choose|k: int| 0 <= k < front.len() && (#[trigger] front[k]).0@ == gf[j].0;
                assert(hs[k] == front[k]);
            } else {
                let t = j - gf.len();
                assert(g[j] == entry_headers(e)[t]);
                match e.1 {
                    HeaderArg::Text(v) => {},
                    HeaderArg::List(vs) => {
                        assert(entry_headers(e)[t] == (e.0@, vs@[t]@));
                    },
                    HeaderArg::Other => {},
                }
                assert(hs[hs.len() - 1] == e);
            }
        }
    }
}

/// The handler's headers come first, as it set them, and a default is only
/// ever added under a name that none of them has (in any case): what the
/// handler sets always wins over a default.
pub proof fn law_handler_headers_win(hs: Seq<(String, HeaderArg)>, content: Content)
    ensures
        response_headers(hs, content).len() >= given_headers(hs).len(),
        response_headers(hs, content).take(given_headers(hs).len() as int) == given_headers(hs),
        forall|i: int|
            given_headers(hs).len() <= i < response_headers(hs, content).len() ==> !has_header(
                given_headers(hs),
                (#[trigger] response_headers(hs, content)[i]).0,
            ),
{
    let g = given_headers(hs);
    let out = response_headers(hs, content);
    lemma_given_names(hs);
    match content {
        Content::Events => {
            let a = with_default(g, "content-type"@, "text/event-stream"@);
            let b = with_default(a, "cache-control"@, "no-cache"@);
            assert(a.take(g.len() as int) =~= g);
            assert(b.take(g.len() as int) =~= g);
            assert(out.take(g.len() as int) =~= g);
            assert forall|i: int| g.len() <= i < out.len() implies !has_header(g, (#[trigger] out[i]).0) by {
                if has_header(g, out[i].0) {
                    let k = choose|k: int| 0 <= k < g.len() && lower(#[trigger] g[k].0) == out[i].0;
                    assert(a[k] == g[k]);
                    assert(b[k] == g[k]);
                    if i == out.len() - 1 && !has_header(b, "connection"@) {
                        assert(has_header(b, "connection"@));
                    } else if i < b.len() && i == b.len() - 1 && !has_header(a, "cache-control"@) {
                        assert(b[i] == ("cache-control"@, "no-cache"@));
                        assert(has_header(a, "cache-control"@));
                    } else {
                        assert(i < a.len());
                        assert(a[i] == ("content-type"@, "text/event-stream"@));
                        assert(has_header(g, "content-type"@));
                    }
                }
            }
        },
        _ => {
            assert(out.take(g.len() as int) =~= g);
            assert forall|i: int| g.len() <= i < out.len() implies !has_header(g, (#[trigger] out[i]).0) by {
                assert(!names_content_type(hs));
                assert(out[i].0 == "content-type"@);
                if has_header(g, "content-type"@) {
                    let k = choose|k: int| 0 <= k < g.len() && lower(#[trigger] g[k].0) == "content-type"@;
                    assert(entry_named(hs, g[k].0));
                    let m = choose|m: int| 0 <= m < hs.len() && (#[trigger] hs[m]).0@ == g[k].0;
                    assert(lower(hs[m].0@) == "content-type"@);
                }
            }
        },
    }
}

} // verus!
