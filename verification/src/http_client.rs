//! What a script's `http.get` / `http.post` / ... call asks for, before any
//! byte goes out: which argument is the body and which the options, the
//! body itself, and the headers of the request.
//!
//! `get` and `delete` take `(url, opts)`; the others take
//! `(url, body, opts)`. A body given as a table is sent as JSON, with
//! `Content-Type: application/json`. A `delete` may carry a body through
//! `opts.body`. An empty text body is no body at all.

use vstd::prelude::*;
use crate::redact::{Json, JsonModel, model};
use crate::text::{lower, chars_of, lower_chars, chars_eq, string_of, string_from, push_str};

verus! {

/// The kind of an argument of the call.
#[derive(Debug, Clone, Copy, PartialEq, Eq, Structural)]
pub enum ArgKind {
    /// `nil`, or no argument at all.
    Nil,
    Str,
    Table,
    /// Anything else: a number, a boolean, a function.
    Other,
}

/// Where the call's arguments are: the body (for the methods that take
/// one) and the options table, by position.
#[derive(Debug, Clone, Copy, PartialEq, Eq, Structural)]
pub struct CallArgs {
    /// Whether the method takes a body argument.
    pub has_body: bool,
    /// The position of the body argument, when it is a string or a table.
    pub body_at: Option<usize>,
    /// The position of the options table, when there is one.
    pub opts_at: Option<usize>,
}

/// Whether a method takes a body argument: all but `get` and `delete`.
pub open spec fn takes_body(method: Seq<char>) -> bool {
    method != "get"@ && method != "delete"@
}

/// The kind of the argument at a position; `Nil` past the last one.
pub open spec fn kind_at(kinds: Seq<ArgKind>, i: int) -> ArgKind {
    if 0 <= i < kinds.len() {
        kinds[i]
    } else {
        ArgKind::Nil
    }
}

/// The refusal of an argument, naming the method.
pub open spec fn arg_refusal(method: Seq<char>, what: Seq<char>) -> Seq<char> {
    "http."@ + method + ": "@ + what
}

/// Where body and options stand, or the refusal of the first argument that
/// is of the wrong kind.
pub open spec fn call_args_spec(method: Seq<char>, kinds: Seq<ArgKind>) -> Result<CallArgs, Seq<char>> {
    if kind_at(kinds, 0) != ArgKind::Str {
        Err(arg_refusal(method, "first argument must be a URL string"@))
    } else if takes_body(method) {
        match kind_at(kinds, 1) {
            ArgKind::Other => Err(arg_refusal(method, "second argument must be a string, table, or nil"@)),
            k1 => match kind_at(kinds, 2) {
                ArgKind::Str | ArgKind::Other => Err(arg_refusal(method, "third argument must be a table or nil"@)),
                k2 => Ok(
                    CallArgs {
                        has_body: true,
                        body_at: if k1 == ArgKind::Nil { None } else { Some(1usize) },
                        opts_at: if k2 == ArgKind::Table { Some(2usize) } else { None },
                    },
                ),
            },
        }
    } else {
        match kind_at(kinds, 1) {
            ArgKind::Str | ArgKind::Other => Err(arg_refusal(method, "second argument must be a table or nil"@)),
            k1 => Ok(
                CallArgs {
                    has_body: false,
                    body_at: None,
                    opts_at: if k1 == ArgKind::Table { Some(1usize) } else { None },
                },
            ),
        }
    }
}

fn refusal(method: &str, what: &str) -> (r: String)
    ensures
        r@ == arg_refusal(method@, what@),
{
    let mut v = chars_of("http.");
    push_str(&mut v, method);
    push_str(&mut v, ": ");
    push_str(&mut v, what);
    proof {
        assert(v@ =~= arg_refusal(method@, what@));
    }
    string_of(&v)
}

fn kind_of(kinds: &[ArgKind], i: usize) -> (k: ArgKind)
    ensures
        k == kind_at(kinds@, i as int),
{
    if i < kinds.len() {
        kinds[i]
    } else {
        ArgKind::Nil
    }
}

/// Which argument of an `http.<method>` call is the body and which the
/// options table, given the kind of each argument; refused, naming the
/// argument, where the URL is not a string or an argument is of a kind its
/// place does not take.
pub fn call_args(method: &str, kinds: &[ArgKind]) -> (r: Result<CallArgs, String>)
    ensures
        match call_args_spec(method@, kinds@) {
            Ok(c) => r == Ok::<CallArgs, String>(c),
            Err(e) => r matches Err(t) && t@ == e,
        },
{
    proof {
        reveal_strlit("get");
        reveal_strlit("delete");
    }
    if kind_of(kinds, 0) != ArgKind::Str {
        return Err(refusal(method, "first argument must be a URL string"));
    }
    let m = chars_of(method);
    let has_body = !chars_eq(&m, &chars_of("get")) && !chars_eq(&m, &chars_of("delete"));
    if has_body {
        let k1 = kind_of(kinds, 1);
        if k1 == ArgKind::Other {
            return Err(refusal(method, "second argument must be a string, table, or nil"));
        }
        let k2 = kind_of(kinds, 2);
        if k2 == ArgKind::Str || k2 == ArgKind::Other {
            return Err(refusal(method, "third argument must be a table or nil"));
        }
        Ok(
            CallArgs {
                has_body: true,
                body_at: if k1 == ArgKind::Nil { None } else { Some(1) },
                opts_at: if k2 == ArgKind::Table { Some(2) } else { None },
            },
        )
    } else {
        let k1 = kind_of(kinds, 1);
        if k1 == ArgKind::Str || k1 == ArgKind::Other {
            return Err(refusal(method, "second argument must be a table or nil"));
        }
        Ok(CallArgs { has_body: false, body_at: None, opts_at: if k1 == ArgKind::Table { Some(1) } else { None } })
    }
}

/// A body as the call gave it.
#[derive(Debug, PartialEq, Eq)]
pub enum BodyArg {
    /// No body, or `nil`.
    Nil,
    Text(String),
    /// A table, as the JSON document it encodes to.
    Doc(Json),
    /// A value of another kind.
    Other,
}

/// What the call's options table says of the request.
#[derive(Debug, PartialEq, Eq)]
pub struct RequestOpts {
    /// `opts.headers`, in the order the table gave them.
    pub headers: Vec<(String, String)>,
    /// `opts.body`, which only `get` and `delete` read.
    pub body: BodyArg,
}

/// The HTTP methods a script can call.
#[derive(Debug, Clone, Copy, PartialEq, Eq, Structural)]
pub enum HttpMethod {
    Get,
    Post,
    Put,
    Patch,
    Delete,
}

/// The body of a request.
#[derive(Debug, PartialEq, Eq)]
pub enum RequestBody {
    Empty,
    Text(String),
    Json(Json),
}

/// A request ready to send.
#[derive(Debug, PartialEq, Eq)]
pub struct RequestPlan {
    pub method: HttpMethod,
    pub url: String,
    pub body: RequestBody,
    /// The headers, names in lower case, each name once, in the order the
    /// names were first set.
    pub headers: Vec<(String, String)>,
}

/// A body as plain values: `None` for no body, else the text or document.
pub enum BodyModel {
    Empty,
    Text(Seq<char>),
    Json(JsonModel),
}

pub open spec fn body_model(b: RequestBody) -> BodyModel {
    match b {
        RequestBody::Empty => BodyModel::Empty,
        RequestBody::Text(t) => BodyModel::Text(t@),
        RequestBody::Json(j) => BodyModel::Json(model(j)),
    }
}

/// The body that a body argument gives: a table is JSON, a non-empty text
/// is sent as it is, and an empty text or `nil` is no body.
pub open spec fn body_of(b: BodyArg) -> BodyModel {
    match b {
        BodyArg::Text(t) => if t@.len() == 0 { BodyModel::Empty } else { BodyModel::Text(t@) },
        BodyArg::Doc(j) => BodyModel::Json(model(j)),
        _ => BodyModel::Empty,
    }
}

/// The method a name calls for.
pub open spec fn method_of(name: Seq<char>) -> Option<HttpMethod> {
    if name == "get"@ {
        Some(HttpMethod::Get)
    } else if name == "post"@ {
        Some(HttpMethod::Post)
    } else if name == "put"@ {
        Some(HttpMethod::Put)
    } else if name == "patch"@ {
        Some(HttpMethod::Patch)
    } else if name == "delete"@ {
        Some(HttpMethod::Delete)
    } else {
        None
    }
}

/// The name a script calls each method by.
pub open spec fn call_name(m: HttpMethod) -> Seq<char> {
    match m {
        HttpMethod::Get => "get"@,
        HttpMethod::Post => "post"@,
        HttpMethod::Put => "put"@,
        HttpMethod::Patch => "patch"@,
        HttpMethod::Delete => "delete"@,
    }
}

/// A call sends the method it is named for and no other: `get`, `post`,
/// `put`, `patch` and `delete` give GET, POST, PUT, PATCH and DELETE, two
/// different names never give the same method, and no other name gives one.
pub proof fn law_call_sends_its_own_method(name: Seq<char>, m: HttpMethod)
    ensures
        method_of(name) == Some(m) <==> name == call_name(m),
        method_of(call_name(m)) == Some(m),
{
    reveal_strlit("get");
    reveal_strlit("post");
    reveal_strlit("put");
    reveal_strlit("patch");
    reveal_strlit("delete");
    assert("get"@.len() == 3 && "put"@.len() == 3 && "post"@.len() == 4);
    assert("patch"@.len() == 5 && "delete"@.len() == 6);
    assert("get"@ != "put"@) by {
        assert("get"@[0] != "put"@[0]);
    }
    match m {
        HttpMethod::Get => {},
        HttpMethod::Post => {},
        HttpMethod::Put => {},
        HttpMethod::Patch => {},
        HttpMethod::Delete => {},
    }
}

/// The body a call sends: the body argument for the methods that take one;
/// `opts.body` for `get` and `delete`.
pub open spec fn sent_body(method: Seq<char>, body: BodyArg, opts: Option<RequestOpts>) -> BodyModel {
    if takes_body(method) {
        body_of(body)
    } else {
        match opts {
            Some(o) => body_of(o.body),
            None => BodyModel::Empty,
        }
    }
}

/// Headers as plain values.
pub open spec fn header_views(hs: Seq<(String, String)>) -> Seq<(Seq<char>, Seq<char>)> {
    hs.map_values(|h: (String, String)| (h.0@, h.1@))
}

/// Where the header of that name stands, or the length when none has it.
pub open spec fn name_index(hs: Seq<(Seq<char>, Seq<char>)>, name: Seq<char>) -> int
    decreases hs.len(),
{
    if hs.len() == 0 {
        0
    } else if hs[0].0 == name {
        0
    } else {
        1 + name_index(hs.drop_first(), name)
    }
}

/// Headers with one set: its value replaces that of a header of the same
/// name, in that header's place, or it is added last.
pub open spec fn set_header(hs: Seq<(Seq<char>, Seq<char>)>, name: Seq<char>, value: Seq<char>) -> Seq<
    (Seq<char>, Seq<char>),
> {
    let i = name_index(hs, name);
    if 0 <= i < hs.len() {
        hs.update(i, (name, value))
    } else {
        hs.push((name, value))
    }
}

/// The caller's headers set over `base` one after the other, each under its
/// name in lower case (header names do not distinguish case): a later value
/// for a name replaces an earlier one, the runtime's included.
pub open spec fn merged(base: Seq<(Seq<char>, Seq<char>)>, given: Seq<(Seq<char>, Seq<char>)>) -> Seq<
    (Seq<char>, Seq<char>),
>
    decreases given.len(),
{
    if given.len() == 0 {
        base
    } else {
        set_header(merged(base, given.drop_last()), lower(given.last().0), given.last().1)
    }
}

/// The headers of a request, names in lower case: `content-type:
/// application/json` where the body is JSON, with `opts.headers` set over
/// it, so that a caller's `Content-Type` replaces the runtime's rather than
/// being sent beside it.
pub open spec fn sent_headers(body: BodyModel, opts: Option<RequestOpts>) -> Seq<(Seq<char>, Seq<char>)> {
    let own: Seq<(Seq<char>, Seq<char>)> = match body {
        BodyModel::Json(_) => seq![("content-type"@, "application/json"@)],
        _ => Seq::empty(),
    };
    match opts {
        Some(o) => merged(own, header_views(o.headers@)),
        None => own,
    }
}

proof fn lemma_name_index(hs: Seq<(Seq<char>, Seq<char>)>, name: Seq<char>, i: int)
    requires
        0 <= i <= hs.len(),
        forall|k: int| 0 <= k < i ==> (#[trigger] hs[k]).0 != name,
        i < hs.len() ==> hs[i].0 == name,
    ensures
        name_index(hs, name) == i,
    decreases i,
{
    if i > 0 {
        let rest = hs.drop_first();
        assert forall|k: int| 0 <= k < i - 1 implies (#[trigger] rest[k]).0 != name by {
            assert(rest[k] == hs[k + 1]);
        }
        lemma_name_index(rest, name, i - 1);
    }
}

fn set_header_exec(hs: &mut Vec<(String, String)>, name: &str, value: &str)
    ensures
        header_views(final(hs)@) == set_header(header_views(old(hs)@), lower(name@), value@),
{
    let lname = lower_chars(&chars_of(name));
    let ghost hv = header_views(hs@);
    let mut i: usize = 0;
    while i < hs.len()
        invariant
            i <= hs@.len(),
            hs@ == old(hs)@,
            hv == header_views(hs@),
            lname@ == lower(name@),
            forall|k: int| 0 <= k < i ==> (#[trigger] hv[k]).0 != lower(name@),
        decreases hs@.len() - i,
    {
        if chars_eq(&chars_of(hs[i].0.as_str()), &lname) {
            proof {
                lemma_name_index(hv, lower(name@), i as int);
            }
            hs.set(i, (string_of(&lname), string_from(value)));
            assert(header_views(hs@) =~= hv.update(i as int, (lower(name@), value@)));
            return;
        }
        i += 1;
    }
    proof {
        lemma_name_index(hv, lower(name@), i as int);
    }
    hs.push((string_of(&lname), string_from(value)));
    assert(header_views(hs@) =~= hv.push((lower(name@), value@)));
}

fn method_from(name: &str) -> (r: Option<HttpMethod>)
    ensures
        r == method_of(name@),
{
    let n = chars_of(name);
    if chars_eq(&n, &chars_of("get")) {
        Some(HttpMethod::Get)
    } else if chars_eq(&n, &chars_of("post")) {
        Some(HttpMethod::Post)
    } else if chars_eq(&n, &chars_of("put")) {
        Some(HttpMethod::Put)
    } else if chars_eq(&n, &chars_of("patch")) {
        Some(HttpMethod::Patch)
    } else if chars_eq(&n, &chars_of("delete")) {
        Some(HttpMethod::Delete)
    } else {
        None
    }
}

fn into_body(b: BodyArg) -> (r: RequestBody)
    ensures
        body_model(r) == body_of(b),
{
    match b {
        BodyArg::Text(t) => {
            if chars_of(t.as_str()).len() == 0 {
                RequestBody::Empty
            } else {
                RequestBody::Text(t)
            }
        },
        BodyArg::Doc(j) => RequestBody::Json(j),
        _ => RequestBody::Empty,
    }
}

/// The refusal of an `opts.body` of the wrong kind.
pub open spec fn opts_body_refusal(method: Seq<char>) -> Seq<char> {
    arg_refusal(method, "opts.body must be a string, table, or nil"@)
}

/// Whether a call without a body argument names a body of the wrong kind in
/// its options.
pub open spec fn bad_opts_body(method: Seq<char>, opts: Option<RequestOpts>) -> bool {
    !takes_body(method) && match opts {
        Some(o) => o.body is Other,
        None => false,
    }
}

/// The refusal of a method name that is none of the five.
pub open spec fn method_refusal(method: Seq<char>) -> Seq<char> {
    "http: unsupported method: "@ + method
}

/// The request an `http.<method>` call makes, from its URL, its body
/// argument (`Nil` for `get` and `delete`, which take none) and its options.
/// `get` and `delete` take their body from `opts.body`, and refuse one of
/// the wrong kind; a name that is no method is refused.
pub fn request_plan(method: &str, url: String, body: BodyArg, opts: Option<RequestOpts>) -> (r: Result<RequestPlan, String>)
    ensures
        bad_opts_body(method@, opts) ==> (r matches Err(e) && e@ == opts_body_refusal(method@)),
        !bad_opts_body(method@, opts) && method_of(method@) is None ==> (r matches Err(e) && e@ == method_refusal(
            method@,
        )),
        !bad_opts_body(method@, opts) && method_of(method@) is Some ==> (r matches Ok(
            p,
        ) && Some(p.method) == method_of(method@) && p.url@ == url@ && body_model(p.body) == sent_body(
            method@,
            body,
            opts,
        ) && header_views(p.headers@) == sent_headers(sent_body(method@, body, opts), opts)),
{
    proof {
        reveal_strlit("get");
        reveal_strlit("delete");
    }
    let ghost body0 = body;
    let ghost opts0 = opts;
    let m = chars_of(method);
    let has_body = !chars_eq(&m, &chars_of("get")) && !chars_eq(&m, &chars_of("delete"));
    let (sent, given) = match opts {
        Some(o) => {
            let RequestOpts { headers, body: from_opts } = o;
            if has_body {
                (into_body(body), headers)
            } else {
                if let BodyArg::Other = from_opts {
                    return Err(refusal(method, "opts.body must be a string, table, or nil"));
                }
                (into_body(from_opts), headers)
            }
        },
        None => {
            if has_body {
                (into_body(body), Vec::new())
            } else {
                (RequestBody::Empty, Vec::new())
            }
        },
    };
    assert(body_model(sent) == sent_body(method@, body0, opts0));
    let kind = match method_from(method) {
        Some(k) => k,
        None => {
            let mut v = chars_of("http: unsupported method: ");
            push_str(&mut v, method);
            proof {
                assert(v@ =~= method_refusal(method@));
            }
            return Err(string_of(&v));
        },
    };
    let ghost gv = header_views(given@);
    let mut headers: Vec<(String, String)> = Vec::new();
    if let RequestBody::Json(_) = sent {
        headers.push((string_from("content-type"), string_from("application/json")));
    }
    let ghost own = header_views(headers@);
    let mut i: usize = 0;
    while i < given.len()
        invariant
            i <= given@.len(),
            gv == header_views(given@),
            header_views(headers@) == merged(own, gv.take(i as int)),
        decreases given@.len() - i,
    {
        set_header_exec(&mut headers, given[i].0.as_str(), given[i].1.as_str());
        proof {
            assert(gv.take(i + 1).drop_last() =~= gv.take(i as int));
            assert(gv.take(i + 1).last() == gv[i as int]);
        }
        i += 1;
    }
    proof {
        assert(gv.take(i as int) =~= gv);
        match opts0 {
            Some(o) => {
                assert(given@ == o.headers@);
            },
            None => {
                assert(gv =~= Seq::<(Seq<char>, Seq<char>)>::empty());
            },
        }
        match body_model(sent) {
            BodyModel::Json(_) => {
                assert(own =~= seq![("content-type"@, "application/json"@)]);
            },
            _ => {
                assert(own =~= Seq::<(Seq<char>, Seq<char>)>::empty());
            },
        }
        assert(header_views(headers@) == sent_headers(sent_body(method@, body0, opts0), opts0));
    }
    Ok(RequestPlan { method: kind, url, body: sent, headers })
}

/// Whether a response is streamed to the caller's `on_event` callback: it
/// declares `text/event-stream` and the caller gave a callback.
pub open spec fn streams_events_spec(content_type: Option<Seq<char>>, has_callback: bool) -> bool {
    has_callback && match content_type {
        Some(ct) => crate::text::contains_seq(ct, "text/event-stream"@),
        None => false,
    }
}

/// Whether to stream a response's events to the callback.
pub fn streams_events(content_type: Option<&str>, has_callback: bool) -> (r: bool)
    ensures
        r == streams_events_spec(
            match content_type {
                Some(c) => Some(c@),
                None => None,
            },
            has_callback,
        ),
{
    if !has_callback {
        return false;
    }
    match content_type {
        Some(ct) => crate::text::contains_chars(&chars_of(ct), &chars_of("text/event-stream")),
        None => false,
    }
}

/// Whether the callback's answer ends the stream: the string `close`.
pub fn ends_stream(answer: Option<&str>) -> (r: bool)
    ensures
        r == (match answer {
            Some(a) => a@ == "close"@,
            None => false,
        }),
{
    match answer {
        Some(a) => chars_eq(&chars_of(a), &chars_of("close")),
        None => false,
    }
}

/// Whether no two headers share a name.
pub open spec fn names_unique(hs: Seq<(Seq<char>, Seq<char>)>) -> bool {
    forall|a: int, b: int| 0 <= a < b < hs.len() ==> (#[trigger] hs[a]).0 != (#[trigger] hs[b]).0
}

proof fn lemma_name_index_meaning(hs: Seq<(Seq<char>, Seq<char>)>, name: Seq<char>)
    ensures
        0 <= name_index(hs, name) <= hs.len(),
        forall|k: int| 0 <= k < name_index(hs, name) ==> (#[trigger] hs[k]).0 != name,
        name_index(hs, name) < hs.len() ==> hs[name_index(hs, name)].0 == name,
    decreases hs.len(),
{
    if hs.len() > 0 && hs[0].0 != name {
        let rest = hs.drop_first();
        lemma_name_index_meaning(rest, name);
        assert forall|k: int| 0 <= k < name_index(hs, name) implies (#[trigger] hs[k]).0 != name by {
            if k > 0 {
                assert(hs[k] == rest[k - 1]);
            }
        }
        if name_index(hs, name) < hs.len() {
            assert(hs[name_index(hs, name)] == rest[name_index(rest, name)]);
        }
    }
}

/// Setting headers one after the other never gives a name two values:
/// starting from headers with distinct names, every name is still there at
/// most once.
pub proof fn law_one_value_per_name(base: Seq<(Seq<char>, Seq<char>)>, given: Seq<(Seq<char>, Seq<char>)>)
    requires
        names_unique(base),
    ensures
        names_unique(merged(base, given)),
    decreases given.len(),
{
    if given.len() > 0 {
        let prev = merged(base, given.drop_last());
        law_one_value_per_name(base, given.drop_last());
        let n = lower(given.last().0);
        lemma_name_index_meaning(prev, n);
        let out = merged(base, given);
        assert forall|a: int, b: int| 0 <= a < b < out.len() implies (#[trigger] out[a]).0 != (#[trigger] out[b]).0 by {
            if name_index(prev, n) < prev.len() {
                assert(out[a].0 == prev[a].0);
                assert(out[b].0 == prev[b].0);
            } else if b == prev.len() {
                assert(out[a] == prev[a]);
            } else {
                assert(out[a] == prev[a]);
                assert(out[b] == prev[b]);
            }
        }
    }
}

/// The last value a caller gives for a name is the one sent under it,
/// whatever the runtime or earlier headers had set under that name.
pub proof fn law_last_value_wins(base: Seq<(Seq<char>, Seq<char>)>, given: Seq<(Seq<char>, Seq<char>)>, i: int)
    requires
        0 <= i < given.len(),
        forall|j: int| i < j < given.len() ==> lower((#[trigger] given[j]).0) != lower(given[i].0),
    ensures
        exists|k: int|
            0 <= k < merged(base, given).len() && #[trigger] merged(base, given)[k] == (lower(given[i].0), given[i].1),
    decreases given.len(),
{
    let prev = merged(base, given.drop_last());
    let m = lower(given.last().0);
    lemma_name_index_meaning(prev, m);
    let out = merged(base, given);
    if i == given.len() - 1 {
        let ni = name_index(prev, m);
        if ni < prev.len() {
            assert(out[ni] == (m, given.last().1));
        } else {
            assert(out[prev.len() as int] == (m, given.last().1));
        }
    } else {
        let front = given.drop_last();
        assert forall|j: int| i < j < front.len() implies lower((#[trigger] front[j]).0) != lower(front[i].0) by {
            assert(front[j] == given[j]);
        }
        law_last_value_wins(base, front, i);
        let k = choose|k: int| 0 <= k < prev.len() && #[trigger] prev[k] == (lower(front[i].0), front[i].1);
        assert(given[given.len() - 1] == given.last());
        assert(m != lower(given[i].0));
        assert(out[k] == prev[k]);
    }
}

} // verus!
