//! The decisions of the authenticated HTTP surface: which bearer tokens are
//! configured, whether a request carries one, how long a run may take,
//! which mode it asked for, and when its script file may go.

use vstd::prelude::*;
use crate::text::{
    trim, has_prefix, has_str, views, chars_of, trim_chars, starts_with, string_of, chars_eq,
    push_chars, push_str, pieces, split_all,
};
use crate::modes::ExecMode;

verus! {

/// The variable that lists the accepted bearer tokens, comma-separated.
pub const API_TOKENS_ENV: &'static str = "ASSAY_API_TOKENS";

/// The timeout of a run that names none.
pub const DEFAULT_TIMEOUT_SECS: u64 = 20;

/// The longest timeout a run may ask for.
pub const MAX_TIMEOUT_SECS: u64 = 600;

/// Compares two byte strings in time that depends on their length only,
/// not on where they first differ.
pub fn constant_time_eq(a: &[u8], b: &[u8]) -> (r: bool)
    ensures
        r == (a@ == b@),
{
    if a.len() != b.len() {
        return false;
    }
    let mut diff: u8 = 0;
    let mut i: usize = 0;
    assert(a@.take(0) =~= b@.take(0));
    while i < a.len()
        invariant
            i <= a@.len(),
            a@.len() == b@.len(),
            (diff == 0) == (a@.take(i as int) == b@.take(i as int)),
        decreases a@.len() - i,
    {
        let x = a[i];
        let y = b[i];
        let d = diff;
        let nd = d | (x ^ y);
        assert(nd == 0 <==> (d == 0 && x == y)) by (bit_vector)
            requires
                nd == d | (x ^ y),
        ;
        diff = nd;
        proof {
            if a@.take(i as int) == b@.take(i as int) && x == y {
                assert(a@.take(i + 1) =~= a@.take(i as int).push(x));
                assert(b@.take(i + 1) =~= b@.take(i as int).push(y));
            }
            if a@.take(i + 1) == b@.take(i + 1) {
                assert(a@.take(i + 1)[i as int] == x);
                assert(b@.take(i + 1)[i as int] == y);
                assert(a@.take(i as int) =~= a@.take(i + 1).take(i as int));
                assert(b@.take(i as int) =~= b@.take(i + 1).take(i as int));
            }
        }
        i += 1;
    }
    assert(a@.take(i as int) =~= a@);
    assert(b@.take(i as int) =~= b@);
    diff == 0
}

/// The token a request presents: its `Authorization` value after
/// `Bearer `, if it has one in that form.
pub open spec fn presented_token(header: Option<Seq<char>>) -> Option<Seq<char>> {
    match header {
        Some(h) => if has_prefix(h, "Bearer "@) {
            Some(h.skip(7))
        } else {
            None
        },
        None => None,
    }
}

/// The header value as plain characters.
pub open spec fn header_view(h: Option<&str>) -> Option<Seq<char>> {
    match h {
        Some(v) => Some(v@),
        None => None,
    }
}

/// Whether a request is authorized: it presents a bearer token equal to one
/// of the configured tokens. The header is the request's `Authorization`
/// value, where it has one that is text. Every configured token is compared,
/// the whole of each, whether or not one already matched.
pub fn authorized(header: Option<&str>, tokens: &[String]) -> (r: bool)
    ensures
        r == (match presented_token(header_view(header)) {
            Some(t) => has_str(tokens@, t),
            None => false,
        }),
{
    let h = match header {
        Some(h) => h,
        None => {
            return false;
        },
    };
    let hc = chars_of(h);
    let prefix = chars_of("Bearer ");
    if !starts_with(&hc, &prefix) {
        return false;
    }
    proof {
        reveal_strlit("Bearer ");
    }
    let mut rest: Vec<char> = Vec::new();
    let mut k: usize = 7;
    while k < hc.len()
        invariant
            7 <= k <= hc@.len(),
            rest@ == hc@.subrange(7, k as int),
        decreases hc@.len() - k,
    {
        rest.push(hc[k]);
        k += 1;
        assert(rest@ =~= hc@.subrange(7, k as int));
    }
    assert(rest@ =~= hc@.skip(7));
    let presented = string_of(&rest);
    let pb = presented.as_str().as_bytes();
    let mut matched = false;
    let mut i: usize = 0;
    while i < tokens.len()
        invariant
            i <= tokens@.len(),
            presented@ == h@.skip(7),
            pb@ == vstd::utf8::encode_utf8(presented@),
            matched == (exists|j: int| 0 <= j < i && (#[trigger] tokens@[j])@ == presented@),
        decreases tokens@.len() - i,
    {
        let tb = tokens[i].as_str().as_bytes();
        let same = constant_time_eq(tb, pb);
        proof {
            if same {
                vstd::utf8::encode_utf8_decode_utf8(tokens@[i as int]@);
                vstd::utf8::encode_utf8_decode_utf8(presented@);
            }
        }
        assert(same == (tokens@[i as int]@ == presented@));
        if same {
            matched = true;
        }
        i += 1;
    }
    matched
}

/// The tokens a comma-separated list names: each piece trimmed, empty ones
/// left out.
pub open spec fn token_list(ps: Seq<Seq<char>>) -> Seq<Seq<char>>
    decreases ps.len(),
{
    if ps.len() == 0 {
        Seq::empty()
    } else {
        let prev = token_list(ps.drop_last());
        let t = trim(ps.last());
        if t.len() == 0 {
            prev
        } else {
            prev.push(t)
        }
    }
}

/// The refusal to serve with no token configured.
pub open spec fn msg_no_tokens() -> Seq<char> {
    "ASSAY_API_TOKENS is empty — refusing to serve an ungated runtime"@
}

/// Reads the configured tokens from the value of `ASSAY_API_TOKENS` (empty
/// where it is unset). A server with no token refuses to start.
pub fn configured_tokens(raw: &str) -> (r: Result<Vec<String>, String>)
    ensures
        match r {
            Ok(v) => token_list(pieces(raw@, ',')).len() > 0 && views(v@) == token_list(pieces(raw@, ',')),
            Err(e) => token_list(pieces(raw@, ',')).len() == 0 && e@ == msg_no_tokens(),
        },
{
    let c = chars_of(raw);
    let ps = split_all(&c, ',');
    let ghost pv = pieces(raw@, ',');
    let mut out: Vec<String> = Vec::new();
    let mut i: usize = 0;
    while i < ps.len()
        invariant
            i <= ps@.len(),
            ps@.len() == pv.len(),
            forall|k: int| 0 <= k < ps@.len() ==> (#[trigger] ps@[k])@ == pv[k],
            views(out@) == token_list(pv.take(i as int)),
        decreases ps@.len() - i,
    {
        assert(pv.take(i + 1).drop_last() =~= pv.take(i as int));
        assert(pv.take(i + 1).last() == pv[i as int]);
        let t = trim_chars(&ps[i]);
        if t.len() > 0 {
            let ghost before = out@;
            out.push(string_of(&t));
            assert(views(out@) =~= views(before).push(t@));
        }
        i += 1;
    }
    assert(pv.take(i as int) =~= pv);
    if out.len() == 0 {
        let m = chars_of("ASSAY_API_TOKENS is empty — refusing to serve an ungated runtime");
        Err(string_of(&m))
    } else {
        Ok(out)
    }
}

/// The timeout of a run: the one it asked for, or the default, kept
/// between one second and the maximum.
pub open spec fn timeout_spec(asked: Option<u64>) -> u64 {
    let t = match asked {
        Some(t) => t,
        None => DEFAULT_TIMEOUT_SECS,
    };
    if t < 1 {
        1
    } else if t > MAX_TIMEOUT_SECS {
        MAX_TIMEOUT_SECS
    } else {
        t
    }
}

/// Resolves the timeout of a run from the `timeout_secs` it asked for, if it
/// asked for one as an unsigned integer: clamped rather than trusted.
pub fn resolve_timeout(asked: Option<u64>) -> (t: u64)
    ensures
        t == timeout_spec(asked),
        1 <= t <= MAX_TIMEOUT_SECS,
{
    let t = match asked {
        Some(t) => t,
        None => DEFAULT_TIMEOUT_SECS,
    };
    if t < 1 {
        1
    } else if t > MAX_TIMEOUT_SECS {
        MAX_TIMEOUT_SECS
    } else {
        t
    }
}

/// Whether a run's script file may be removed once the run has ended with
/// `status`: not while the run waits for approval, since its resume token
/// points back at the file.
pub fn cleanup_unless_suspended(status: &str) -> (r: bool)
    ensures
        r == (status@ != "needs_approval"@),
{
    let s = chars_of(status);
    !chars_eq(&s, &chars_of("needs_approval"))
}

} // verus!
