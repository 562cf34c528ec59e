//! The DNS message format: building a question, reading an answer.
//!
//! Pure byte handling, no I/O, which is what lets the awkward parts (chunked
//! TXT, compression pointers, the difference between "no such name" and "the
//! resolver broke") be stated and checked without a nameserver.

use vstd::prelude::*;
use vstd::utf8::{decode_utf8, encode_utf8, valid_utf8};

use crate::text::{
    chars_of, dec, dec_chars, lower, lower_chars, push_chars, push_str, string_of, upper,
    upper_chars, chars_eq,
};

verus! {

pub const TYPE_A: u16 = 1;
pub const TYPE_NS: u16 = 2;
pub const TYPE_CNAME: u16 = 5;
pub const TYPE_MX: u16 = 15;
pub const TYPE_TXT: u16 = 16;
pub const TYPE_AAAA: u16 = 28;
pub const TYPE_OPT: u16 = 41;

pub const CLASS_IN: u16 = 1;
pub const MAX_LABEL_LEN: usize = 63;
pub const MAX_NAME_LEN: usize = 255;

/// How large a UDP answer a query says it can accept. The classic 512-byte
/// limit truncates ordinary DKIM keys, so every lookup carries an EDNS0 OPT
/// record; 1232 is the size that survives the common path MTU.
pub const EDNS_UDP_PAYLOAD: u16 = 1232;

/// A compression pointer must move strictly backwards, so a chain ends on
/// its own; the cap is a second line of defence.
pub const MAX_POINTER_JUMPS: usize = 32;

/// The record types a lookup may ask for, as a refusal lists them.
pub const SUPPORTED_TYPES: &'static str = "A, AAAA, CNAME, MX, NS, TXT";

/// One record's worth of answer, in the shape Lua receives it.
#[derive(Debug, Clone, PartialEq, Eq)]
pub enum Answer {
    /// `A`, `AAAA`, `NS`, `CNAME` and `TXT` all answer with one string.
    Text(String),
    /// `MX` answers with two fields, and a caller that ignores preference
    /// picks the wrong mail host.
    Mx { preference: u16, exchange: String },
}

/// An answer as a value: its strings as character sequences.
pub enum AnswerView {
    Text(Seq<char>),
    Mx(u16, Seq<char>),
}

impl View for Answer {
    type V = AnswerView;

    open spec fn view(&self) -> AnswerView {
        match self {
            Answer::Text(s) => AnswerView::Text(s@),
            Answer::Mx { preference, exchange } => AnswerView::Mx(*preference, exchange@),
        }
    }
}

/// A decoded response.
#[derive(Debug, Clone, PartialEq, Eq)]
pub struct Response {
    /// The TC bit. A truncated answer is not a wrong answer, it is half an
    /// answer, and the caller is expected to ask again over TCP.
    pub truncated: bool,
    pub answers: Vec<Answer>,
}

/// The views of a list of answers.
pub open spec fn answers_view(a: Seq<Answer>) -> Seq<AnswerView> {
    a.map_values(|x: Answer| x@)
}

// ── record types ───────────────────────────────────────────────────────

/// The record types this builtin speaks, by their spelling in Lua.
pub open spec fn record_type_spec(name: Seq<char>) -> Option<u16> {
    let u = upper(name);
    if u == seq!['A'] {
        Some(TYPE_A)
    } else if u == seq!['A', 'A', 'A', 'A'] {
        Some(TYPE_AAAA)
    } else if u == seq!['N', 'S'] {
        Some(TYPE_NS)
    } else if u == seq!['C', 'N', 'A', 'M', 'E'] {
        Some(TYPE_CNAME)
    } else if u == seq!['M', 'X'] {
        Some(TYPE_MX)
    } else if u == seq!['T', 'X', 'T'] {
        Some(TYPE_TXT)
    } else {
        None
    }
}

/// The record type a Lua spelling names, whatever its case.
pub fn record_type(name: &str) -> (r: Option<u16>)
    ensures
        r == record_type_spec(name@),
{
    let n = chars_of(name);
    let u = upper_chars(&n);
    let a = ['A'];
    let aaaa = ['A', 'A', 'A', 'A'];
    let ns = ['N', 'S'];
    let cname = ['C', 'N', 'A', 'M', 'E'];
    let mx = ['M', 'X'];
    let txt = ['T', 'X', 'T'];
    assert(a@ =~= seq!['A']);
    assert(aaaa@ =~= seq!['A', 'A', 'A', 'A']);
    assert(ns@ =~= seq!['N', 'S']);
    assert(cname@ =~= seq!['C', 'N', 'A', 'M', 'E']);
    assert(mx@ =~= seq!['M', 'X']);
    assert(txt@ =~= seq!['T', 'X', 'T']);
    if chars_eq(&u, &a) {
        Some(TYPE_A)
    } else if chars_eq(&u, &aaaa) {
        Some(TYPE_AAAA)
    } else if chars_eq(&u, &ns) {
        Some(TYPE_NS)
    } else if chars_eq(&u, &cname) {
        Some(TYPE_CNAME)
    } else if chars_eq(&u, &mx) {
        Some(TYPE_MX)
    } else if chars_eq(&u, &txt) {
        Some(TYPE_TXT)
    } else {
        None
    }
}

// ── big-endian fields ─────────────────────────────────────────────────

/// The 16-bit big-endian value of two bytes.
pub open spec fn word(hi: u8, lo: u8) -> u16 {
    (hi as int * 256 + lo as int) as u16
}

/// The two bytes of a 16-bit value, high byte first.
pub open spec fn be_bytes(x: u16) -> Seq<u8> {
    seq![(x / 256) as u8, (x % 256) as u8]
}

/// The transaction ID of a message, if it is long enough to have one.
pub open spec fn message_id_spec(buf: Seq<u8>) -> Option<u16> {
    if buf.len() >= 2 {
        Some(word(buf[0], buf[1]))
    } else {
        None
    }
}

/// The transaction ID of a message, or `None` if it is too short to have one.
/// Read before decoding so a stray datagram can be dropped rather than parsed.
pub fn message_id(buf: &[u8]) -> (r: Option<u16>)
    ensures
        r == message_id_spec(buf@),
{
    if buf.len() < 2 {
        return None;
    }
    Some((buf[0] as u16) * 256 + (buf[1] as u16))
}

pub open spec fn err_mid_field() -> Seq<char> {
    "message ends mid-field"@
}

/// The 16-bit field at `at`, or the error for a message that ends first.
pub open spec fn be16_spec(buf: Seq<u8>, at: int) -> Result<u16, Seq<char>> {
    if 0 <= at && at + 1 < buf.len() {
        Ok(word(buf[at], buf[at + 1]))
    } else {
        Err(err_mid_field())
    }
}

pub fn be16(buf: &[u8], at: usize) -> (r: Result<u16, String>)
    requires
        at < usize::MAX,
    ensures
        match (r, be16_spec(buf@, at as int)) {
            (Ok(a), Ok(b)) => a == b,
            (Err(e), Err(f)) => e@ == f,
            _ => false,
        },
{
    if at >= buf.len() || at + 1 >= buf.len() {
        return Err(string_of(&chars_of("message ends mid-field")));
    }
    Ok((buf[at] as u16) * 256 + (buf[at + 1] as u16))
}

fn push_be16(out: &mut Vec<u8>, x: u16)
    ensures
        final(out)@ == old(out)@ + be_bytes(x),
{
    out.push((x / 256) as u8);
    out.push((x % 256) as u8);
    assert(final(out)@ =~= old(out)@ + be_bytes(x));
}

fn push_bytes(out: &mut Vec<u8>, b: &[u8])
    ensures
        final(out)@ == old(out)@ + b@,
{
    let ghost start = out@;
    let mut i: usize = 0;
    while i < b.len()
        invariant
            i <= b.len(),
            out@ == start + b@.take(i as int),
        decreases b.len() - i,
    {
        out.push(b[i]);
        i += 1;
        assert(out@ =~= start + b@.take(i as int));
    }
    assert(b@.take(b.len() as int) =~= b@);
}

// ── encoding a question ────────────────────────────────────────────────

/// `s` with every trailing `.` removed, as `trim_end_matches('.')` does.
pub open spec fn trim_dots(s: Seq<char>) -> Seq<char>
    decreases s.len(),
{
    if s.len() > 0 && s.last() == '.' {
        trim_dots(s.drop_last())
    } else {
        s
    }
}

/// The position of the first `.` at or after `i`, or the end.
pub open spec fn next_dot(t: Seq<char>, i: int) -> int
    decreases t.len() - i,
{
    if i < 0 || i >= t.len() {
        t.len() as int
    } else if t[i] == '.' {
        i
    } else {
        next_dot(t, i + 1)
    }
}

pub open spec fn msg_empty_label(name: Seq<char>) -> Seq<char> {
    "empty label in name '"@ + name + "'"@
}

pub open spec fn msg_long_label(label: Seq<char>, n: nat) -> Seq<char> {
    "label '"@ + label + "' is "@ + dec(n) + " bytes, over the 63-byte limit"@
}

pub open spec fn msg_long_name(name: Seq<char>, n: nat) -> Seq<char> {
    "name '"@ + name + "' encodes to "@ + dec(n) + " bytes, over the 255-byte limit"@
}

/// The length-prefixed labels of `t` from position `i` on, each label the
/// text up to the next `.`; or the error for the first unusable label.
pub open spec fn labels_from(t: Seq<char>, i: int, name: Seq<char>) -> Result<Seq<u8>, Seq<char>>
    decreases t.len() - i,
{
    if i < 0 || i > t.len() {
        Err(msg_empty_label(name))
    } else {
        let j = next_dot(t, i);
        let label = t.subrange(i, j);
        let bytes = encode_utf8(label);
        if label.len() == 0 {
            Err(msg_empty_label(name))
        } else if bytes.len() > MAX_LABEL_LEN {
            Err(msg_long_label(label, bytes.len()))
        } else {
            let head = seq![bytes.len() as u8] + bytes;
            if j >= t.len() {
                Ok(head)
            } else {
                proof {
                    lemma_next_dot_bounds(t, i);
                }
                match labels_from(t, j + 1, name) {
                    Ok(rest) => Ok(head + rest),
                    Err(e) => Err(e),
                }
            }
        }
    }
}

/// A name in wire form: its labels, then the root label; the root alone for
/// an empty name or one of dots.
pub open spec fn encode_name_spec(name: Seq<char>) -> Result<Seq<u8>, Seq<char>> {
    let t = trim_dots(name);
    if t.len() == 0 {
        Ok(seq![0u8])
    } else {
        match labels_from(t, 0, name) {
            Err(e) => Err(e),
            Ok(b) => {
                let out = b.push(0u8);
                if out.len() > MAX_NAME_LEN {
                    Err(msg_long_name(name, out.len()))
                } else {
                    Ok(out)
                }
            },
        }
    }
}

pub proof fn lemma_next_dot_bounds(t: Seq<char>, i: int)
    requires
        0 <= i <= t.len(),
    ensures
        i <= next_dot(t, i) <= t.len(),
        next_dot(t, i) < t.len() ==> t[next_dot(t, i)] == '.',
        forall|k: int| i <= k < next_dot(t, i) ==> #[trigger] t[k] != '.',
    decreases t.len() - i,
{
    if i < t.len() && t[i] != '.' {
        lemma_next_dot_bounds(t, i + 1);
    }
}

fn trim_dots_exec(v: &[char]) -> (r: usize)
    ensures
        r <= v@.len(),
        trim_dots(v@) == v@.take(r as int),
{
    let mut j: usize = v.len();
    assert(v@.take(j as int) =~= v@);
    while j > 0 && v[j - 1] == '.'
        invariant
            j <= v@.len(),
            trim_dots(v@) == trim_dots(v@.take(j as int)),
        decreases j,
    {
        assert(v@.take(j as int).drop_last() =~= v@.take(j - 1));
        j -= 1;
    }
    j
}

/// Encode the labels of `t` (the first `n` characters of `v`) from `i` on.
fn encode_labels(v: &[char], n: usize, i: usize, name: &str, out: &mut Vec<u8>) -> (r: Result<(), String>)
    requires
        n <= v@.len(),
        i <= n,
    ensures
        match (r, labels_from(v@.take(n as int), i as int, name@)) {
            (Ok(()), Ok(b)) => final(out)@ == old(out)@ + b,
            (Err(e), Err(f)) => e@ == f,
            _ => false,
        },
    decreases n - i,
{
    let ghost t = v@.take(n as int);
    let mut j: usize = i;
    while j < n && v[j] != '.'
        invariant
            i <= j <= n,
            n <= v@.len(),
            t == v@.take(n as int),
            next_dot(t, i as int) == next_dot(t, j as int),
        decreases n - j,
    {
        j += 1;
    }
    proof {
        lemma_next_dot_bounds(t, j as int);
    }
    let mut label: Vec<char> = Vec::new();
    let mut k: usize = i;
    while k < j
        invariant
            i <= k <= j,
            j <= n,
            n <= v@.len(),
            t == v@.take(n as int),
            label@ == t.subrange(i as int, k as int),
        decreases j - k,
    {
        label.push(v[k]);
        k += 1;
        assert(label@ =~= t.subrange(i as int, k as int));
    }
    if label.len() == 0 {
        let mut m: Vec<char> = Vec::new();
        push_str(&mut m, "empty label in name '");
        push_str(&mut m, name);
        push_str(&mut m, "'");
        return Err(string_of(&m));
    }
    let text = string_of(&label);
    let bytes = text.as_str().as_bytes();
    assert(bytes@ == encode_utf8(label@));
    if bytes.len() > MAX_LABEL_LEN {
        let mut m: Vec<char> = Vec::new();
        push_str(&mut m, "label '");
        push_chars(&mut m, &label);
        push_str(&mut m, "' is ");
        let d = dec_chars(bytes.len() as u64);
        push_chars(&mut m, &d);
        push_str(&mut m, " bytes, over the 63-byte limit");
        return Err(string_of(&m));
    }
    out.push(bytes.len() as u8);
    push_bytes(out, bytes);
    assert(out@ =~= old(out)@ + (seq![bytes@.len() as u8] + bytes@));
    if j >= n {
        return Ok(());
    }
    encode_labels(v, n, j + 1, name, out)
}

/// A name in wire form, refusing names that cannot be encoded before any
/// socket is opened.
pub fn encode_name(name: &str) -> (r: Result<Vec<u8>, String>)
    ensures
        match (r, encode_name_spec(name@)) {
            (Ok(a), Ok(b)) => a@ == b,
            (Err(e), Err(f)) => e@ == f,
            _ => false,
        },
{
    let v = chars_of(name);
    let n = trim_dots_exec(&v);
    let mut out: Vec<u8> = Vec::new();
    if n == 0 {
        out.push(0);
        assert(out@ =~= seq![0u8]);
        return Ok(out);
    }
    match encode_labels(&v, n, 0, name, &mut out) {
        Err(e) => return Err(e),
        Ok(()) => {},
    }
    out.push(0);
    if out.len() > MAX_NAME_LEN {
        let mut m: Vec<char> = Vec::new();
        push_str(&mut m, "name '");
        push_str(&mut m, name);
        push_str(&mut m, "' encodes to ");
        let d = dec_chars(out.len() as u64);
        push_chars(&mut m, &d);
        push_str(&mut m, " bytes, over the 255-byte limit");
        return Err(string_of(&m));
    }
    assert(out@.len() <= 255);
    Ok(out)
}

/// A standard recursive query: header with RD set, one question, and one
/// additional record, the EDNS0 OPT carrying the UDP payload size.
pub open spec fn query_bytes(id: u16, qname: Seq<u8>, qtype: u16) -> Seq<u8> {
    be_bytes(id) + be_bytes(0x0100) + be_bytes(1) + be_bytes(0) + be_bytes(0) + be_bytes(1) + qname
        + be_bytes(qtype) + be_bytes(CLASS_IN) + seq![0u8] + be_bytes(TYPE_OPT) + be_bytes(
        EDNS_UDP_PAYLOAD,
    ) + seq![0u8, 0u8, 0u8, 0u8] + be_bytes(0)
}

/// Build a standard recursive query with one question and an EDNS0 OPT record.
pub fn encode_query(id: u16, name: &str, qtype: u16) -> (r: Result<Vec<u8>, String>)
    ensures
        match (r, encode_name_spec(name@)) {
            (Ok(a), Ok(b)) => a@ == query_bytes(id, b, qtype),
            (Err(e), Err(f)) => e@ == f,
            _ => false,
        },
{
    let encoded = match encode_name(name) {
        Ok(e) => e,
        Err(e) => return Err(e),
    };
    let mut out: Vec<u8> = Vec::new();
    push_be16(&mut out, id);
    push_be16(&mut out, 0x0100);
    push_be16(&mut out, 1);
    push_be16(&mut out, 0);
    push_be16(&mut out, 0);
    push_be16(&mut out, 1);
    push_bytes(&mut out, &encoded);
    push_be16(&mut out, qtype);
    push_be16(&mut out, CLASS_IN);
    out.push(0);
    push_be16(&mut out, TYPE_OPT);
    push_be16(&mut out, EDNS_UDP_PAYLOAD);
    out.push(0);
    out.push(0);
    out.push(0);
    out.push(0);
    push_be16(&mut out, 0);
    assert(out@ =~= query_bytes(id, encoded@, qtype));
    Ok(out)
}

// ── reading an answer ──────────────────────────────────────────────────

/// What a non-zero RCODE is called, so an error names the thing the
/// resolver actually said.
pub open spec fn rcode_name_spec(rcode: u16) -> Seq<char> {
    if rcode == 1 {
        "FORMERR"@
    } else if rcode == 2 {
        "SERVFAIL"@
    } else if rcode == 3 {
        "NXDOMAIN"@
    } else if rcode == 4 {
        "NOTIMP"@
    } else if rcode == 5 {
        "REFUSED"@
    } else {
        "RCODE"@ + dec(rcode as nat)
    }
}

pub fn rcode_name(rcode: u16) -> (r: String)
    ensures
        r@ == rcode_name_spec(rcode),
{
    if rcode == 1 {
        string_of(&chars_of("FORMERR"))
    } else if rcode == 2 {
        string_of(&chars_of("SERVFAIL"))
    } else if rcode == 3 {
        string_of(&chars_of("NXDOMAIN"))
    } else if rcode == 4 {
        string_of(&chars_of("NOTIMP"))
    } else if rcode == 5 {
        string_of(&chars_of("REFUSED"))
    } else {
        let mut v = chars_of("RCODE");
        let d = dec_chars(rcode as u64);
        push_chars(&mut v, &d);
        string_of(&v)
    }
}

pub open spec fn err_name_past_end() -> Seq<char> {
    "name runs past the end of the message"@
}

pub open spec fn err_label_past_end() -> Seq<char> {
    "label runs past the end of the message"@
}

pub open spec fn err_name_too_long() -> Seq<char> {
    "name exceeds 255 bytes"@
}

pub open spec fn err_label_utf8() -> Seq<char> {
    "label is not valid UTF-8"@
}

pub open spec fn err_pointer_past_end() -> Seq<char> {
    "compression pointer runs past the end of the message"@
}

pub open spec fn err_pointer_not_backwards() -> Seq<char> {
    "compression pointer does not point backwards"@
}

pub open spec fn err_too_many_pointers() -> Seq<char> {
    "more than 32 compression pointers"@
}

pub open spec fn err_reserved_label() -> Seq<char> {
    "reserved label type in name"@
}

/// Labels joined with `.` between them.
pub open spec fn join_dots(ls: Seq<Seq<char>>) -> Seq<char>
    decreases ls.len(),
{
    if ls.len() == 0 {
        Seq::empty()
    } else if ls.len() == 1 {
        ls[0]
    } else {
        join_dots(ls.drop_last()) + seq!['.'] + ls.last()
    }
}

/// Reading a name from `cursor` on, with the state a reader carries: the
/// pointers followed so far, the bytes the name takes so far, whether a
/// pointer was followed (and where the name then ends in the message), and
/// the labels read so far. A label is the bytes after its length byte,
/// decoded as UTF-8 and ASCII lower-cased; a length byte of 192 or more is
/// a pointer whose 14-bit target must lie strictly before it; 64 to 191 is
/// reserved. The result is the labels joined with `.`, and the position just
/// past the name as it appears at the start (not wherever pointers led).
pub open spec fn name_walk(
    buf: Seq<u8>,
    cursor: int,
    jumps: int,
    total: int,
    followed: bool,
    end_pos: int,
    labels: Seq<Seq<char>>,
) -> Result<(Seq<char>, int), Seq<char>>
    decreases 33 - jumps, buf.len() - cursor,
{
    if cursor < 0 || cursor >= buf.len() || jumps < 0 || jumps > 32 {
        Err(err_name_past_end())
    } else {
        let len = buf[cursor] as int;
        let c1 = cursor + 1;
        if len < 64 {
            if len == 0 {
                Ok((join_dots(labels), if followed { end_pos } else { c1 }))
            } else {
                let end = c1 + len;
                if end > buf.len() {
                    Err(err_label_past_end())
                } else if total + 1 + len > 255 {
                    Err(err_name_too_long())
                } else {
                    let lb = buf.subrange(c1, end);
                    if !valid_utf8(lb) {
                        Err(err_label_utf8())
                    } else {
                        name_walk(
                            buf,
                            end,
                            jumps,
                            total + 1 + len,
                            followed,
                            end_pos,
                            labels.push(lower(decode_utf8(lb))),
                        )
                    }
                }
            }
        } else if len >= 192 {
            if c1 >= buf.len() {
                Err(err_pointer_past_end())
            } else {
                let target = (len - 192) * 256 + buf[c1] as int;
                let np = if followed { end_pos } else { c1 + 1 };
                if target >= cursor {
                    Err(err_pointer_not_backwards())
                } else if jumps + 1 > 32 {
                    Err(err_too_many_pointers())
                } else {
                    name_walk(buf, target, jumps + 1, total, true, np, labels)
                }
            }
        } else {
            Err(err_reserved_label())
        }
    }
}

/// Reading the name that starts at `pos`.
pub open spec fn name_at(buf: Seq<u8>, pos: int) -> Result<(Seq<char>, int), Seq<char>> {
    name_walk(buf, pos, 0, 1, false, 0, Seq::empty())
}

/// `std::str::from_utf8`: the text of the bytes exactly when they are valid
/// UTF-8, decoded as UTF-8 decodes.
#[verifier::external_body]
pub(crate) fn utf8_text(bytes: &[u8]) -> (r: Option<String>)
    ensures
        r is Some <==> valid_utf8(bytes@),
        r matches Some(s) ==> s@ == decode_utf8(bytes@),
{
    std::str::from_utf8(bytes).ok().map(|s| s.to_string())
}

fn copy_range(buf: &[u8], a: usize, b: usize) -> (r: Vec<u8>)
    requires
        a <= b <= buf@.len(),
    ensures
        r@ == buf@.subrange(a as int, b as int),
{
    let mut r: Vec<u8> = Vec::new();
    let mut i: usize = a;
    while i < b
        invariant
            a <= i <= b,
            b <= buf@.len(),
            r@ == buf@.subrange(a as int, i as int),
        decreases b - i,
    {
        r.push(buf[i]);
        i += 1;
        assert(r@ =~= buf@.subrange(a as int, i as int));
    }
    r
}

fn err_text(s: &str) -> (r: String)
    ensures
        r@ == s@,
{
    string_of(&chars_of(s))
}

/// Read a name, following compression pointers, and advance `pos` past the
/// name as it appeared here (not past wherever the pointers led).
///
/// Names come back lowercased and without the root dot, so two spellings of
/// the same host compare equal.
pub fn read_name(buf: &[u8], pos: &mut usize) -> (r: Result<String, String>)
    requires
        buf@.len() <= isize::MAX,
    ensures
        match (r, name_at(buf@, *old(pos) as int)) {
            (Ok(s), Ok((t, p))) => s@ == t && *final(pos) == p,
            (Err(e), Err(f)) => e@ == f,
            _ => false,
        },
{
    let ghost start = *pos as int;
    if *pos >= buf.len() {
        return Err(err_text("name runs past the end of the message"));
    }
    let mut cursor: usize = *pos;
    let mut jumps: usize = 0;
    let mut total: usize = 1;
    let mut followed = false;
    let mut end_pos: usize = 0;
    let ghost mut labels: Seq<Seq<char>> = Seq::empty();
    let mut joined: Vec<char> = Vec::new();
    let mut nlabels: usize = 0;
    loop
        invariant
            nlabels == labels.len(),
            nlabels < total,
            start == *old(pos) as int,
            buf@.len() <= isize::MAX,
            cursor <= buf@.len() + 4,
            jumps <= 32,
            1 <= total <= 255,
            end_pos <= buf@.len() + 4,
            joined@ == join_dots(labels),
            name_at(buf@, start) == name_walk(
                buf@,
                cursor as int,
                jumps as int,
                total as int,
                followed,
                end_pos as int,
                labels,
            ),
        decreases 33 - jumps, buf@.len() + 4 - cursor,
    {
        if cursor >= buf.len() {
            return Err(err_text("name runs past the end of the message"));
        }
        let len = buf[cursor] as usize;
        let c1 = cursor + 1;
        if len < 64 {
            if len == 0 {
                *pos = if followed { end_pos } else { c1 };
                return Ok(string_of(&joined));
            }
            if len > buf.len() - c1 {
                return Err(err_text("label runs past the end of the message"));
            }
            let end = c1 + len;
            if total + 1 + len > 255 {
                return Err(err_text("name exceeds 255 bytes"));
            }
            let lb = copy_range(buf, c1, end);
            let text = match utf8_text(&lb) {
                Some(t) => t,
                None => return Err(err_text("label is not valid UTF-8")),
            };
            let tv = chars_of(text.as_str());
            let low = lower_chars(&tv);
            proof {
                let ghost next = labels.push(low@);
                if labels.len() > 0 {
                    assert(next.drop_last() =~= labels);
                }
            }
            if nlabels > 0 {
                joined.push('.');
            }
            nlabels += 1;
            push_chars(&mut joined, &low);
            proof {
                let ghost next = labels.push(low@);
                if labels.len() == 0 {
                    assert(joined@ =~= join_dots(next));
                } else {
                    assert(next.drop_last() =~= labels);
                    assert(joined@ =~= join_dots(next));
                }
                labels = next;
            }
            total = total + 1 + len;
            cursor = end;
        } else if len >= 192 {
            if c1 >= buf.len() {
                return Err(err_text("compression pointer runs past the end of the message"));
            }
            let target = (len - 192) * 256 + buf[c1] as usize;
            if !followed {
                end_pos = c1 + 1;
                followed = true;
            }
            if target >= cursor {
                return Err(err_text("compression pointer does not point backwards"));
            }
            if jumps + 1 > MAX_POINTER_JUMPS {
                return Err(err_text("more than 32 compression pointers"));
            }
            jumps += 1;
            cursor = target;
        } else {
            return Err(err_text("reserved label type in name"));
        }
    }
}

/// The bytes of a TXT record's chunks from position `at` on, joined with
/// nothing between them; `None` when a chunk runs past the record.
pub open spec fn txt_bytes(rdata: Seq<u8>, at: int) -> Option<Seq<u8>>
    decreases rdata.len() - at,
{
    if at < 0 || at >= rdata.len() {
        Some(Seq::empty())
    } else {
        let end = at + 1 + rdata[at] as int;
        if end > rdata.len() {
            None
        } else {
            match txt_bytes(rdata, end) {
                Some(rest) => Some(rdata.subrange(at + 1, end) + rest),
                None => None,
            }
        }
    }
}

/// `String::from_utf8_lossy`, whose result the contract names; when the
/// bytes are valid UTF-8 it is their decoding.
pub uninterp spec fn spec_utf8_lossy(bytes: Seq<u8>) -> Seq<char>;

/// `String::from_utf8_lossy`: the text of the bytes, with each invalid
/// sequence replaced. The contract names the result, and states only that
/// valid UTF-8 comes back decoded.
#[verifier::external_body]
pub(crate) fn utf8_lossy(bytes: &[u8]) -> (r: String)
    ensures
        r@ == spec_utf8_lossy(bytes@),
        valid_utf8(bytes@) ==> r@ == decode_utf8(bytes@),
{
    String::from_utf8_lossy(bytes).into_owned()
}

pub open spec fn err_txt_chunk() -> Seq<char> {
    "TXT chunk runs past the end of the record"@
}

/// One TXT record is a sequence of length-prefixed chunks, each at most 255
/// bytes. They are one value that the wire format had to cut up, so they are
/// joined with nothing between them; a separator would corrupt any DKIM key
/// long enough to need two chunks.
pub fn read_character_strings(rdata: &[u8]) -> (r: Result<String, String>)
    requires
        rdata@.len() <= isize::MAX,
    ensures
        match (r, txt_bytes(rdata@, 0)) {
            (Ok(s), Some(b)) => s@ == spec_utf8_lossy(b),
            (Err(e), None) => e@ == err_txt_chunk(),
            _ => false,
        },
{
    let mut bytes: Vec<u8> = Vec::new();
    let mut at: usize = 0;
    while at < rdata.len()
        invariant
            at <= rdata@.len(),
            rdata@.len() <= isize::MAX,
            txt_bytes(rdata@, 0) == match txt_bytes(rdata@, at as int) {
                Some(rest) => Some(bytes@ + rest),
                None => None::<Seq<u8>>,
            },
        decreases rdata@.len() - at,
    {
        let len = rdata[at] as usize;
        if len > rdata.len() - at - 1 {
            return Err(err_text("TXT chunk runs past the end of the record"));
        }
        let end = at + 1 + len;
        let chunk = copy_range(rdata, at + 1, end);
        let ghost old_bytes = bytes@;
        push_bytes(&mut bytes, &chunk);
        proof {
            match txt_bytes(rdata@, end as int) {
                Some(rest) => {
                    assert(old_bytes + (chunk@ + rest) =~= bytes@ + rest);
                },
                None => {},
            }
        }
        at = end;
    }
    assert(bytes@ + Seq::<u8>::empty() =~= bytes@);
    Ok(utf8_lossy(&bytes))
}

/// The text of an IPv4 address, as `Ipv4Addr` displays it.
pub open spec fn ipv4_text(o: Seq<u8>) -> Seq<char> {
    dec(o[0] as nat) + seq!['.'] + dec(o[1] as nat) + seq!['.'] + dec(o[2] as nat) + seq!['.'] + dec(
        o[3] as nat,
    )
}

fn ipv4_chars(o: &[u8]) -> (r: Vec<char>)
    requires
        o@.len() == 4,
    ensures
        r@ == ipv4_text(o@),
{
    let mut v = dec_chars(o[0] as u64);
    v.push('.');
    let d = dec_chars(o[1] as u64);
    push_chars(&mut v, &d);
    v.push('.');
    let d = dec_chars(o[2] as u64);
    push_chars(&mut v, &d);
    v.push('.');
    let d = dec_chars(o[3] as u64);
    push_chars(&mut v, &d);
    assert(v@ =~= ipv4_text(o@));
    v
}

/// The text `Ipv6Addr` displays for sixteen octets.
pub uninterp spec fn spec_ipv6_text(octets: Seq<u8>) -> Seq<char>;

/// `Ipv6Addr::from(octets).to_string()`: the RFC 5952 text of an address.
/// The contract names the result and states nothing more of it.
#[verifier::external_body]
fn ipv6_text(octets: &[u8]) -> (r: String)
    requires
        octets@.len() == 16,
    ensures
        r@ == spec_ipv6_text(octets@),
{
    let mut a = [0u8; 16];
    a.copy_from_slice(octets);
    core::net::Ipv6Addr::from(a).to_string()
}

pub open spec fn msg_a_size(len: nat) -> Seq<char> {
    "A record has "@ + dec(len) + " bytes of data, want 4"@
}

pub open spec fn msg_aaaa_size(len: nat) -> Seq<char> {
    "AAAA record has "@ + dec(len) + " bytes of data, want 16"@
}

/// The answer one record's data gives for the type asked about; `None` for
/// a type this builtin does not read.
pub open spec fn rdata_spec(buf: Seq<u8>, qtype: u16, start: int, len: int) -> Result<
    Option<AnswerView>,
    Seq<char>,
> {
    let rdata = buf.subrange(start, start + len);
    if qtype == TYPE_A {
        if len != 4 {
            Err(msg_a_size(len as nat))
        } else {
            Ok(Some(AnswerView::Text(ipv4_text(rdata))))
        }
    } else if qtype == TYPE_AAAA {
        if len != 16 {
            Err(msg_aaaa_size(len as nat))
        } else {
            Ok(Some(AnswerView::Text(spec_ipv6_text(rdata))))
        }
    } else if qtype == TYPE_NS || qtype == TYPE_CNAME {
        match name_at(buf, start) {
            Ok((n, _)) => Ok(Some(AnswerView::Text(n))),
            Err(e) => Err(e),
        }
    } else if qtype == TYPE_MX {
        match be16_spec(buf, start) {
            Err(e) => Err(e),
            Ok(pref) => match name_at(buf, start + 2) {
                Ok((n, _)) => Ok(Some(AnswerView::Mx(pref, n))),
                Err(e) => Err(e),
            },
        }
    } else if qtype == TYPE_TXT {
        match txt_bytes(rdata, 0) {
            Some(b) => Ok(Some(AnswerView::Text(spec_utf8_lossy(b)))),
            None => Err(err_txt_chunk()),
        }
    } else {
        Ok(None)
    }
}

fn parse_rdata(buf: &[u8], qtype: u16, start: usize, len: usize) -> (r: Result<Option<Answer>, String>)
    requires
        buf@.len() <= isize::MAX,
        start + len <= buf@.len(),
    ensures
        match (r, rdata_spec(buf@, qtype, start as int, len as int)) {
            (Ok(Some(a)), Ok(Some(b))) => a@ == b,
            (Ok(None), Ok(None)) => true,
            (Err(e), Err(f)) => e@ == f,
            _ => false,
        },
{
    let rdata = copy_range(buf, start, start + len);
    if qtype == TYPE_A {
        if len != 4 {
            let mut m = chars_of("A record has ");
            let d = dec_chars(len as u64);
            push_chars(&mut m, &d);
            push_str(&mut m, " bytes of data, want 4");
            return Err(string_of(&m));
        }
        let t = ipv4_chars(&rdata);
        Ok(Some(Answer::Text(string_of(&t))))
    } else if qtype == TYPE_AAAA {
        if len != 16 {
            let mut m = chars_of("AAAA record has ");
            let d = dec_chars(len as u64);
            push_chars(&mut m, &d);
            push_str(&mut m, " bytes of data, want 16");
            return Err(string_of(&m));
        }
        Ok(Some(Answer::Text(ipv6_text(&rdata))))
    } else if qtype == TYPE_NS || qtype == TYPE_CNAME {
        let mut at = start;
        match read_name(buf, &mut at) {
            Ok(n) => Ok(Some(Answer::Text(n))),
            Err(e) => Err(e),
        }
    } else if qtype == TYPE_MX {
        let preference = match be16(buf, start) {
            Ok(p) => p,
            Err(e) => return Err(e),
        };
        let mut at = start + 2;
        match read_name(buf, &mut at) {
            Ok(exchange) => Ok(Some(Answer::Mx { preference, exchange })),
            Err(e) => Err(e),
        }
    } else if qtype == TYPE_TXT {
        match read_character_strings(&rdata) {
            Ok(t) => Ok(Some(Answer::Text(t))),
            Err(e) => Err(e),
        }
    } else {
        Ok(None)
    }
}

pub proof fn lemma_name_walk_end(
    buf: Seq<u8>,
    cursor: int,
    jumps: int,
    total: int,
    followed: bool,
    end_pos: int,
    labels: Seq<Seq<char>>,
)
    requires
        followed ==> end_pos <= buf.len(),
    ensures
        name_walk(buf, cursor, jumps, total, followed, end_pos, labels) matches Ok((_, p)) ==> 0 <= p
            <= buf.len() || (followed && p == end_pos),
    decreases 33 - jumps, buf.len() - cursor,
{
    if 0 <= cursor < buf.len() && 0 <= jumps <= 32 {
        let len = buf[cursor] as int;
        let c1 = cursor + 1;
        if len < 64 {
            if len != 0 {
                let end = c1 + len;
                if end <= buf.len() && total + 1 + len <= 255 && valid_utf8(buf.subrange(c1, end)) {
                    lemma_name_walk_end(
                        buf,
                        end,
                        jumps,
                        total + 1 + len,
                        followed,
                        end_pos,
                        labels.push(lower(decode_utf8(buf.subrange(c1, end)))),
                    );
                }
            }
        } else if len >= 192 && c1 < buf.len() {
            let target = (len - 192) * 256 + buf[c1] as int;
            let np = if followed { end_pos } else { c1 + 1 };
            if target < cursor && jumps + 1 <= 32 {
                lemma_name_walk_end(buf, target, jumps + 1, total, true, np, labels);
            }
        }
    }
}

/// The position after the name at `pos`, when it reads.
pub proof fn lemma_name_at_end(buf: Seq<u8>, pos: int)
    ensures
        name_at(buf, pos) matches Ok((_, p)) ==> 0 <= p <= buf.len(),
{
    lemma_name_walk_end(buf, pos, 0, 1, false, 0, Seq::empty());
}

pub open spec fn err_rdata_past_end() -> Seq<char> {
    "record data runs past the end of the message"@
}

/// Where the question section ends, skipping `n` questions from `pos`.
pub open spec fn questions_end(buf: Seq<u8>, pos: int, n: int) -> Result<int, Seq<char>>
    decreases n,
{
    if n <= 0 {
        Ok(pos)
    } else {
        match name_at(buf, pos) {
            Err(e) => Err(e),
            Ok((_, p)) => questions_end(buf, p + 4, n - 1),
        }
    }
}

/// The answer a record's data gives, as a list of none or one.
pub open spec fn opt_answers(o: Option<AnswerView>) -> Seq<AnswerView> {
    match o {
        Some(a) => seq![a],
        None => Seq::empty(),
    }
}

/// The answers of the type asked about, in class IN, read from `n` records
/// starting at `pos`, and the error that stopped the reading, if one did.
pub open spec fn records_from(buf: Seq<u8>, pos: int, n: int, qtype: u16) -> (
    Seq<AnswerView>,
    Option<Seq<char>>,
)
    decreases n,
{
    if n <= 0 {
        (Seq::empty(), None)
    } else {
        match name_at(buf, pos) {
            Err(e) => (Seq::empty(), Some(e)),
            Ok((_, p)) => match be16_spec(buf, p) {
                Err(e) => (Seq::empty(), Some(e)),
                Ok(rtype) => match be16_spec(buf, p + 2) {
                    Err(e) => (Seq::empty(), Some(e)),
                    Ok(class) => match be16_spec(buf, p + 8) {
                        Err(e) => (Seq::empty(), Some(e)),
                        Ok(rdlength) => {
                            let at = p + 10;
                            if buf.len() < at + rdlength {
                                (Seq::empty(), Some(err_rdata_past_end()))
                            } else if rtype == qtype && class == CLASS_IN {
                                match rdata_spec(buf, qtype, at, rdlength as int) {
                                    Err(e) => (Seq::empty(), Some(e)),
                                    Ok(o) => {
                                        let rest = records_from(buf, at + rdlength, n - 1, qtype);
                                        (opt_answers(o) + rest.0, rest.1)
                                    },
                                }
                            } else {
                                records_from(buf, at + rdlength, n - 1, qtype)
                            }
                        },
                    },
                },
            },
        }
    }
}

/// What reading the question and answer sections yields: the answers read,
/// and the error that stopped the reading, if one did.
pub open spec fn collect_spec(buf: Seq<u8>, qdcount: u16, ancount: u16, qtype: u16) -> (
    Seq<AnswerView>,
    Option<Seq<char>>,
) {
    match questions_end(buf, 12, qdcount as int) {
        Err(e) => (Seq::empty(), Some(e)),
        Ok(p) => records_from(buf, p, ancount as int, qtype),
    }
}

pub fn collect(buf: &[u8], qdcount: u16, ancount: u16, qtype: u16, answers: &mut Vec<Answer>) -> (r:
    Result<(), String>)
    requires
        12 <= buf@.len() <= isize::MAX,
    ensures
        answers_view(final(answers)@) == answers_view(old(answers)@) + collect_spec(
            buf@,
            qdcount,
            ancount,
            qtype,
        ).0,
        match (r, collect_spec(buf@, qdcount, ancount, qtype).1) {
            (Ok(()), None) => true,
            (Err(e), Some(f)) => e@ == f,
            _ => false,
        },
{
    let ghost start = answers@;
    let mut pos: usize = 12;
    let mut q: u16 = 0;
    while q < qdcount
        invariant
            q <= qdcount,
            buf@.len() <= isize::MAX,
            pos <= buf@.len() + 4,
            answers@ == start,
            start == old(answers)@,
            questions_end(buf@, 12, qdcount as int) == questions_end(buf@, pos as int, (qdcount - q) as int),
        decreases qdcount - q,
    {
        proof {
            lemma_name_at_end(buf@, pos as int);
        }
        match read_name(buf, &mut pos) {
            Ok(_) => {},
            Err(e) => {
                assert(answers_view(answers@) + Seq::<AnswerView>::empty() =~= answers_view(start));
                return Err(e);
            },
        }
        pos = pos + 4;
        q += 1;
    }
    let ghost p0 = pos as int;
    assert(collect_spec(buf@, qdcount, ancount, qtype) == records_from(buf@, p0, ancount as int, qtype));
    let ghost mut added: Seq<AnswerView> = Seq::empty();
    let mut k: u16 = 0;
    while k < ancount
        invariant
            k <= ancount,
            buf@.len() <= isize::MAX,
            pos <= buf@.len() + 4,
            start == old(answers)@,
            p0 == questions_end(buf@, 12, qdcount as int)->Ok_0,
            questions_end(buf@, 12, qdcount as int) is Ok,
            answers_view(answers@) == answers_view(start) + added,
            records_from(buf@, p0, ancount as int, qtype).0 == added + records_from(
                buf@,
                pos as int,
                (ancount - k) as int,
                qtype,
            ).0,
            records_from(buf@, p0, ancount as int, qtype).1 == records_from(
                buf@,
                pos as int,
                (ancount - k) as int,
                qtype,
            ).1,
        decreases ancount - k,
    {
        let ghost here = pos as int;
        let ghost n = (ancount - k) as int;
        proof {
            lemma_name_at_end(buf@, pos as int);
        }
        match read_name(buf, &mut pos) {
            Ok(_) => {},
            Err(e) => {
                assert(added + Seq::<AnswerView>::empty() =~= added);
                return Err(e);
            },
        }
        let rtype = match be16(buf, pos) {
            Ok(v) => v,
            Err(e) => {
                assert(added + Seq::<AnswerView>::empty() =~= added);
                return Err(e);
            },
        };
        let class = match be16(buf, pos + 2) {
            Ok(v) => v,
            Err(e) => {
                assert(added + Seq::<AnswerView>::empty() =~= added);
                return Err(e);
            },
        };
        let rdlength = match be16(buf, pos + 8) {
            Ok(v) => v as usize,
            Err(e) => {
                assert(added + Seq::<AnswerView>::empty() =~= added);
                return Err(e);
            },
        };
        let rdata_at = pos + 10;
        if buf.len() < rdata_at + rdlength {
            assert(added + Seq::<AnswerView>::empty() =~= added);
            return Err(err_text("record data runs past the end of the message"));
        }
        if rtype == qtype && class == CLASS_IN {
            match parse_rdata(buf, qtype, rdata_at, rdlength) {
                Err(e) => {
                    assert(added + Seq::<AnswerView>::empty() =~= added);
                    return Err(e);
                },
                Ok(Some(a)) => {
                    proof {
                        added = added + seq![a@];
                    }
                    let ghost before = answers@;
                    answers.push(a);
                    assert(answers_view(answers@) =~= answers_view(before) + seq![a@]);
                },
                Ok(None) => {},
            }
        }
        pos = rdata_at + rdlength;
        k += 1;
    }
    assert(added + Seq::<AnswerView>::empty() =~= added);
    Ok(())
}

// ── ordering MX answers ────────────────────────────────────────────────

/// What an answer is ordered by: an MX answer's preference; any other
/// answer goes last.
pub open spec fn pref_key(a: AnswerView) -> u16 {
    match a {
        AnswerView::Mx(p, _) => p,
        AnswerView::Text(_) => 0xFFFF,
    }
}

/// Insert `x` after every answer whose key is at most its own.
pub open spec fn insert_by_pref(x: AnswerView, s: Seq<AnswerView>) -> Seq<AnswerView>
    decreases s.len(),
{
    if s.len() == 0 {
        seq![x]
    } else if pref_key(s.last()) <= pref_key(x) {
        s.push(x)
    } else {
        insert_by_pref(x, s.drop_last()).push(s.last())
    }
}

/// The answers ordered by key, equal keys keeping their order, as a stable
/// sort by key leaves them.
pub open spec fn sort_by_pref(s: Seq<AnswerView>) -> Seq<AnswerView>
    decreases s.len(),
{
    if s.len() == 0 {
        s
    } else {
        insert_by_pref(s.last(), sort_by_pref(s.drop_last()))
    }
}

fn pref_of(a: &Answer) -> (k: u16)
    ensures
        k == pref_key(a@),
{
    match a {
        Answer::Mx { preference, .. } => *preference,
        Answer::Text(_) => 0xFFFF,
    }
}

proof fn lemma_insert_at(x: AnswerView, s: Seq<AnswerView>, j: int)
    requires
        0 <= j <= s.len(),
        j == 0 || pref_key(s[j - 1]) <= pref_key(x),
        forall|k: int| j <= k < s.len() ==> pref_key(#[trigger] s[k]) > pref_key(x),
    ensures
        insert_by_pref(x, s) == s.insert(j, x),
    decreases s.len(),
{
    if s.len() == 0 {
        assert(s.insert(j, x) =~= seq![x]);
    } else if j == s.len() {
        assert(s.insert(j, x) =~= s.push(x));
    } else {
        assert(pref_key(s.last()) > pref_key(x));
        let d = s.drop_last();
        assert forall|k: int| j <= k < d.len() implies pref_key(#[trigger] d[k]) > pref_key(x) by {
            assert(d[k] == s[k]);
        }
        if j > 0 {
            assert(d[j - 1] == s[j - 1]);
        }
        lemma_insert_at(x, d, j);
        assert(d.insert(j, x).push(s.last()) =~= s.insert(j, x));
    }
}

/// Order answers by preference, lowest first, keeping the order of equals.
fn sort_answers(answers: Vec<Answer>) -> (r: Vec<Answer>)
    ensures
        answers_view(r@) == sort_by_pref(answers_view(answers@)),
{
    let ghost orig = answers_view(answers@);
    let ghost n = answers@.len();
    let mut rest = answers;
    let mut sorted: Vec<Answer> = Vec::new();
    let ghost mut done: int = 0;
    assert(orig.take(0) =~= Seq::<AnswerView>::empty());
    while rest.len() > 0
        invariant
            0 <= done <= n,
            orig.len() == n,
            rest@.len() == n - done,
            answers_view(rest@) == orig.skip(done),
            answers_view(sorted@) == sort_by_pref(orig.take(done)),
        decreases rest@.len(),
    {
        let ghost old_rest = rest@;
        let x = rest.remove(0);
        assert(answers_view(old_rest)[0] == old_rest[0]@);
        assert(x@ == orig[done]);
        assert forall|i: int| 0 <= i < rest@.len() implies answers_view(rest@)[i] == orig.skip(done + 1)[i] by {
            assert(rest@[i] == old_rest[i + 1]);
            assert(answers_view(old_rest)[i + 1] == old_rest[i + 1]@);
            assert(orig.skip(done)[i + 1] == orig.skip(done + 1)[i]);
        }
        assert(answers_view(rest@) =~= orig.skip(done + 1));
        let key = pref_of(&x);
        let mut j: usize = sorted.len();
        while j > 0 && pref_of(&sorted[j - 1]) > key
            invariant
                j <= sorted@.len(),
                key == pref_key(x@),
                forall|k: int| j <= k < sorted@.len() ==> pref_key((#[trigger] sorted@[k])@) > key,
            decreases j,
        {
            j -= 1;
        }
        let ghost sv = answers_view(sorted@);
        proof {
            assert forall|k: int| j <= k < sv.len() implies pref_key(#[trigger] sv[k]) > pref_key(x@) by {
                assert(sv[k] == sorted@[k]@);
            }
            if j > 0 {
                assert(sv[j - 1] == sorted@[j - 1]@);
            }
            lemma_insert_at(x@, sv, j as int);
            assert(orig.take(done + 1).drop_last() =~= orig.take(done));
            assert(orig.take(done + 1).last() == x@);
        }
        sorted.insert(j, x);
        assert(answers_view(sorted@) =~= sv.insert(j as int, x@));
        proof {
            done = done + 1;
        }
    }
    assert(orig.take(n as int) =~= orig);
    sorted
}

// ── decoding a whole response ──────────────────────────────────────────

pub open spec fn msg_too_short(n: nat) -> Seq<char> {
    "response is "@ + dec(n) + " bytes, too short"@
}

pub open spec fn err_not_response() -> Seq<char> {
    "message is a query, not a response"@
}

/// What decoding a response yields: whether it was truncated and its
/// answers, or the error that refuses it.
///
/// NXDOMAIN is an empty list rather than an error: the name is absent,
/// which is a fact. Every other non-zero RCODE is an error. A truncated
/// message keeps whatever answers were read before it ran out; an untruncated
/// one that cannot be read is refused. MX answers come back lowest
/// preference first.
pub open spec fn decode_spec(buf: Seq<u8>, qtype: u16) -> Result<(bool, Seq<AnswerView>), Seq<char>> {
    if buf.len() < 12 {
        Err(msg_too_short(buf.len()))
    } else {
        let flags = word(buf[2], buf[3]);
        let truncated = flags & 0x0200 != 0;
        let rcode = flags & 0x000F;
        if flags & 0x8000 == 0 {
            Err(err_not_response())
        } else if rcode == 3 {
            Ok((false, Seq::empty()))
        } else if rcode != 0 {
            Err(rcode_name_spec(rcode))
        } else {
            let collected = collect_spec(buf, word(buf[4], buf[5]), word(buf[6], buf[7]), qtype);
            if !truncated && collected.1 is Some {
                Err(collected.1->Some_0)
            } else if qtype == TYPE_MX {
                Ok((truncated, sort_by_pref(collected.0)))
            } else {
                Ok((truncated, collected.0))
            }
        }
    }
}

/// Decode a response, keeping only answers of the type that was asked for.
///
/// NXDOMAIN is an empty list rather than an error: the name is absent, which
/// is a fact. Every other non-zero RCODE is an error, because the resolver has
/// told us it does not know, and a caller asking whether a domain is
/// blacklisted must not read "the resolver is down" as "listed on nothing".
pub fn decode_response(buf: &[u8], qtype: u16) -> (r: Result<Response, String>)
    requires
        buf@.len() <= isize::MAX,
    ensures
        match (r, decode_spec(buf@, qtype)) {
            (Ok(resp), Ok((t, a))) => resp.truncated == t && answers_view(resp.answers@) == a,
            (Err(e), Err(f)) => e@ == f,
            _ => false,
        },
{
    if buf.len() < 12 {
        let mut m = chars_of("response is ");
        let d = dec_chars(buf.len() as u64);
        push_chars(&mut m, &d);
        push_str(&mut m, " bytes, too short");
        return Err(string_of(&m));
    }
    let flags = match be16(buf, 2) {
        Ok(f) => f,
        Err(e) => return Err(e),
    };
    if flags & 0x8000 == 0 {
        return Err(err_text("message is a query, not a response"));
    }
    let truncated = flags & 0x0200 != 0;
    let rcode = flags & 0x000F;
    if rcode == 3 {
        let none: Vec<Answer> = Vec::new();
        assert(answers_view(none@) =~= Seq::<AnswerView>::empty());
        return Ok(Response { truncated: false, answers: none });
    }
    if rcode != 0 {
        return Err(rcode_name(rcode));
    }
    let qdcount = match be16(buf, 4) {
        Ok(v) => v,
        Err(e) => return Err(e),
    };
    let ancount = match be16(buf, 6) {
        Ok(v) => v,
        Err(e) => return Err(e),
    };
    let mut answers: Vec<Answer> = Vec::new();
    assert(answers_view(answers@) =~= Seq::<AnswerView>::empty());
    let outcome = collect(buf, qdcount, ancount, qtype, &mut answers);
    assert(Seq::<AnswerView>::empty() + collect_spec(buf@, qdcount, ancount, qtype).0 =~= collect_spec(
        buf@,
        qdcount,
        ancount,
        qtype,
    ).0);
    if !truncated {
        match outcome {
            Err(e) => return Err(e),
            Ok(()) => {},
        }
    }
    if qtype == TYPE_MX {
        let sorted = sort_answers(answers);
        return Ok(Response { truncated, answers: sorted });
    }
    Ok(Response { truncated, answers })
}


/// Whether answers come lowest preference first.
pub open spec fn pref_sorted(s: Seq<AnswerView>) -> bool {
    forall|i: int, j: int| 0 <= i < j < s.len() ==> pref_key(#[trigger] s[i]) <= pref_key(#[trigger] s[j])
}

proof fn lemma_insert_by_pref_len(x: AnswerView, s: Seq<AnswerView>)
    ensures
        insert_by_pref(x, s).len() == s.len() + 1,
    decreases s.len(),
{
    if s.len() > 0 && pref_key(s.last()) > pref_key(x) {
        lemma_insert_by_pref_len(x, s.drop_last());
    }
}

proof fn lemma_insert_by_pref_bounded(x: AnswerView, s: Seq<AnswerView>, b: u16)
    requires
        pref_key(x) <= b,
        forall|k: int| 0 <= k < s.len() ==> pref_key(#[trigger] s[k]) <= b,
    ensures
        forall|k: int| 0 <= k < insert_by_pref(x, s).len() ==> pref_key(#[trigger] insert_by_pref(x, s)[k]) <= b,
    decreases s.len(),
{
    lemma_insert_by_pref_len(x, s);
    if s.len() > 0 && pref_key(s.last()) > pref_key(x) {
        let t = s.drop_last();
        assert forall|k: int| 0 <= k < t.len() implies pref_key(#[trigger] t[k]) <= b by {
            assert(t[k] == s[k]);
        }
        lemma_insert_by_pref_bounded(x, t, b);
        let r = insert_by_pref(x, t);
        assert forall|k: int| 0 <= k < r.push(s.last()).len() implies pref_key(#[trigger] r.push(s.last())[k]) <= b by {
            if k < r.len() {
                assert(r.push(s.last())[k] == r[k]);
            }
        }
    }
}

proof fn lemma_insert_by_pref_sorted(x: AnswerView, s: Seq<AnswerView>)
    requires
        pref_sorted(s),
    ensures
        pref_sorted(insert_by_pref(x, s)),
        insert_by_pref(x, s).to_multiset() == s.to_multiset().insert(x),
    decreases s.len(),
{
    broadcast use vstd::seq_lib::group_to_multiset_ensures;

    lemma_insert_by_pref_len(x, s);
    if s.len() == 0 {
        assert(seq![x] =~= Seq::<AnswerView>::empty().push(x));
    } else if pref_key(s.last()) <= pref_key(x) {
        let r = s.push(x);
        assert forall|i: int, j: int| 0 <= i < j < r.len() implies pref_key(#[trigger] r[i]) <= pref_key(#[trigger] r[j]) by {
            if j == s.len() {
                if i < s.len() - 1 {
                    assert(pref_key(s[i]) <= pref_key(s[s.len() - 1]));
                }
            } else {
                assert(r[i] == s[i] && r[j] == s[j]);
            }
        }
    } else {
        let t = s.drop_last();
        let last = s.last();
        assert(pref_sorted(t)) by {
            assert forall|i: int, j: int| 0 <= i < j < t.len() implies pref_key(#[trigger] t[i]) <= pref_key(#[trigger] t[j]) by {
                assert(t[i] == s[i] && t[j] == s[j]);
            }
        }
        lemma_insert_by_pref_sorted(x, t);
        let r = insert_by_pref(x, t);
        assert forall|k: int| 0 <= k < t.len() implies pref_key(#[trigger] t[k]) <= pref_key(last) by {
            assert(t[k] == s[k]);
            assert(pref_key(s[k]) <= pref_key(s[s.len() - 1]));
        }
        lemma_insert_by_pref_bounded(x, t, pref_key(last));
        let rr = r.push(last);
        assert forall|i: int, j: int| 0 <= i < j < rr.len() implies pref_key(#[trigger] rr[i]) <= pref_key(#[trigger] rr[j]) by {
            if j == r.len() {
                assert(rr[i] == r[i]);
            } else {
                assert(rr[i] == r[i] && rr[j] == r[j]);
            }
        }
        assert(s =~= t.push(last));
        assert(rr.to_multiset() == r.to_multiset().insert(last));
        assert(s.to_multiset() == t.to_multiset().insert(last));
        assert(r.to_multiset() == t.to_multiset().insert(x));
        assert(t.to_multiset().insert(x).insert(last) =~= t.to_multiset().insert(last).insert(x));
    }
}

proof fn lemma_sort_by_pref(s: Seq<AnswerView>)
    ensures
        pref_sorted(sort_by_pref(s)),
        sort_by_pref(s).to_multiset() == s.to_multiset(),
    decreases s.len(),
{
    broadcast use vstd::seq_lib::group_to_multiset_ensures;

    if s.len() > 0 {
        lemma_sort_by_pref(s.drop_last());
        lemma_insert_by_pref_sorted(s.last(), sort_by_pref(s.drop_last()));
        assert(s =~= s.drop_last().push(s.last()));
    }
}

/// MX answers come back lowest preference first, and none is lost or made
/// up by the ordering: they are the answers read, reordered.
pub proof fn law_mx_answers_lowest_first(buf: Seq<u8>)
    ensures
        decode_spec(buf, TYPE_MX) matches Ok((_, a)) ==> pref_sorted(a),
        buf.len() >= 12 && decode_spec(buf, TYPE_MX) is Ok && word(buf[2], buf[3]) & 0x000F == 0 ==> (
        decode_spec(buf, TYPE_MX)->Ok_0.1.to_multiset() == collect_spec(
            buf,
            word(buf[4], buf[5]),
            word(buf[6], buf[7]),
            TYPE_MX,
        ).0.to_multiset()),
{
    if buf.len() >= 12 {
        let collected = collect_spec(buf, word(buf[4], buf[5]), word(buf[6], buf[7]), TYPE_MX);
        lemma_sort_by_pref(collected.0);
    }
}

/// NXDOMAIN is an answer, not a failure: a response with RCODE 3 decodes to
/// no records, whatever else it holds; every other non-zero RCODE is refused.
pub proof fn law_nxdomain_is_an_empty_answer(buf: Seq<u8>, qtype: u16)
    requires
        buf.len() >= 12,
        word(buf[2], buf[3]) & 0x8000 != 0,
    ensures
        word(buf[2], buf[3]) & 0x000F == 3 ==> decode_spec(buf, qtype) == Ok::<(bool, Seq<AnswerView>), Seq<char>>((false, Seq::empty())),
        word(buf[2], buf[3]) & 0x000F != 3 && word(buf[2], buf[3]) & 0x000F != 0 ==> decode_spec(buf, qtype) is Err,
{
}

} // verus!

verus! {

/// The labels of `t` from position `i` on, each the text up to the next
/// `.`, ASCII lower-cased.
pub open spec fn lowered_labels(t: Seq<char>, i: int) -> Seq<Seq<char>>
    decreases t.len() - i,
{
    if i < 0 || i > t.len() {
        Seq::empty()
    } else {
        let j = next_dot(t, i);
        let l = lower(t.subrange(i, j));
        if j >= t.len() {
            seq![l]
        } else {
            proof {
                lemma_next_dot_bounds(t, i);
            }
            seq![l] + lowered_labels(t, j + 1)
        }
    }
}

proof fn lemma_join_front(a: Seq<char>, rest: Seq<Seq<char>>)
    requires
        rest.len() > 0,
    ensures
        join_dots(seq![a] + rest) == a + seq!['.'] + join_dots(rest),
    decreases rest.len(),
{
    let s = seq![a] + rest;
    if rest.len() == 1 {
        assert(s.drop_last() =~= seq![a]);
        assert(s.last() == rest[0]);
        assert(join_dots(seq![a]) == a);
    } else {
        assert(s.drop_last() =~= seq![a] + rest.drop_last());
        lemma_join_front(a, rest.drop_last());
        assert(s.last() == rest.last());
        assert(join_dots(s) =~= a + seq!['.'] + join_dots(rest));
    }
}

proof fn lemma_join_lowered(t: Seq<char>, i: int)
    requires
        0 <= i <= t.len(),
    ensures
        lowered_labels(t, i).len() > 0,
        join_dots(lowered_labels(t, i)) == lower(t.skip(i)),
    decreases t.len() - i,
{
    lemma_next_dot_bounds(t, i);
    let j = next_dot(t, i);
    let seg = t.subrange(i, j);
    if j >= t.len() {
        assert(seg =~= t.skip(i));
    } else {
        lemma_join_lowered(t, j + 1);
        lemma_join_front(lower(seg), lowered_labels(t, j + 1));
        assert(t.skip(i) =~= seg + seq!['.'] + t.skip(j + 1));
        crate::text::lemma_lower_concat(seg + seq!['.'], t.skip(j + 1));
        crate::text::lemma_lower_concat(seg, seq!['.']);
        assert(lower(seq!['.']) =~= seq!['.']);
    }
}

proof fn lemma_walk_labels(
    t: Seq<char>,
    i: int,
    name: Seq<char>,
    buf: Seq<u8>,
    off: int,
    labels: Seq<Seq<char>>,
)
    requires
        0 <= i <= t.len(),
        labels_from(t, i, name) is Ok,
        0 <= off,
        off + labels_from(t, i, name)->Ok_0.len() < buf.len(),
        buf.subrange(off, off + labels_from(t, i, name)->Ok_0.len()) == labels_from(t, i, name)->Ok_0,
        buf[off + labels_from(t, i, name)->Ok_0.len()] == 0,
        off + labels_from(t, i, name)->Ok_0.len() + 1 <= MAX_NAME_LEN,
    ensures
        name_walk(buf, off, 0, off + 1, false, 0, labels) == Ok::<(Seq<char>, int), Seq<char>>(
            (
                join_dots(labels + lowered_labels(t, i)),
                off + labels_from(t, i, name)->Ok_0.len() + 1,
            ),
        ),
    decreases t.len() - i,
{
    lemma_next_dot_bounds(t, i);
    let bytes = labels_from(t, i, name)->Ok_0;
    let j = next_dot(t, i);
    let label = t.subrange(i, j);
    let lb = encode_utf8(label);
    let head = seq![lb.len() as u8] + lb;
    vstd::utf8::encode_utf8_valid_utf8(label);
    vstd::utf8::encode_utf8_decode_utf8(label);
    if lb.len() == 0 {
        assert(decode_utf8(lb) =~= Seq::<char>::empty());
    }
    assert(0 < lb.len() <= 63);
    assert(bytes.subrange(0, head.len() as int) =~= head);
    assert(buf[off] == bytes[0]);
    assert(buf[off] as int == lb.len());
    let end = off + 1 + lb.len();
    assert(buf.subrange(off + 1, end) =~= lb) by {
        assert forall|k: int| 0 <= k < lb.len() implies buf.subrange(off + 1, end)[k] == lb[k] by {
            assert(buf.subrange(off, off + bytes.len())[1 + k] == bytes[1 + k]);
            assert(bytes[1 + k] == head[1 + k]);
        }
    }
    if j >= t.len() {
        assert(bytes == head);
        assert(buf[end] == 0);
        assert(lowered_labels(t, i) == seq![lower(label)]);
        assert(labels.push(lower(label)) =~= labels + lowered_labels(t, i));
        assert(name_walk(buf, end, 0, end + 1, false, 0, labels.push(lower(label))) == Ok::<
            (Seq<char>, int),
            Seq<char>,
        >((join_dots(labels.push(lower(label))), end + 1)));
    } else {
        let rest = labels_from(t, j + 1, name)->Ok_0;
        assert(bytes == head + rest);
        assert(buf.subrange(end, end + rest.len()) =~= rest) by {
            assert forall|k: int| 0 <= k < rest.len() implies buf.subrange(end, end + rest.len())[k]
                == rest[k] by {
                assert(buf.subrange(off, off + bytes.len())[head.len() + k] == bytes[head.len() + k]);
            }
        }
        lemma_walk_labels(t, j + 1, name, buf, end, labels.push(lower(label)));
        assert(lowered_labels(t, i) == seq![lower(label)] + lowered_labels(t, j + 1));
        assert(labels.push(lower(label)) + lowered_labels(t, j + 1) =~= labels + lowered_labels(t, i));
    }
}

/// A name written in wire form reads back as itself, ASCII lower-cased and
/// without its trailing dots, whatever follows it in the message; the
/// reader stops just past it.
pub proof fn law_names_read_back(name: Seq<char>, rest: Seq<u8>)
    requires
        encode_name_spec(name) is Ok,
    ensures
        match encode_name_spec(name) {
            Ok(b) => name_at(b + rest, 0) == Ok::<(Seq<char>, int), Seq<char>>(
                (lower(trim_dots(name)), b.len() as int),
            ),
            Err(_) => false,
        },
{
    let t = trim_dots(name);
    let b = encode_name_spec(name)->Ok_0;
    let buf = b + rest;
    if t.len() == 0 {
        assert(b == seq![0u8]);
        assert(buf[0] == 0);
        assert(join_dots(Seq::<Seq<char>>::empty()) == Seq::<char>::empty());
        assert(lower(t) =~= Seq::<char>::empty());
    } else {
        let bytes = labels_from(t, 0, name)->Ok_0;
        assert(b == bytes.push(0u8));
        assert(buf.subrange(0, bytes.len() as int) =~= bytes);
        assert(buf[bytes.len() as int] == 0);
        lemma_walk_labels(t, 0, name, buf, 0, Seq::empty());
        lemma_join_lowered(t, 0);
        assert(Seq::<Seq<char>>::empty() + lowered_labels(t, 0) =~= lowered_labels(t, 0));
        assert(t.skip(0) =~= t);
    }
}

} // verus!

verus! {

/// A query carries the transaction ID it was built with, where a reply's
/// ID is read: so the ID a caller waits for is the one it sent.
pub proof fn law_query_carries_its_id(id: u16, qname: Seq<u8>, qtype: u16)
    ensures
        message_id_spec(query_bytes(id, qname, qtype)) == Some(id),
{
    let q = query_bytes(id, qname, qtype);
    assert(q[0] == (id / 256) as u8);
    assert(q[1] == (id % 256) as u8);
    assert(word((id / 256) as u8, (id % 256) as u8) == id) by (nonlinear_arith);
}

/// Whether a text has no ASCII upper-case letter.
pub open spec fn no_ascii_upper(s: Seq<char>) -> bool {
    forall|i: int| 0 <= i < s.len() ==> !('A' <= #[trigger] s[i] && s[i] <= 'Z')
}

proof fn lemma_lower_has_no_upper(s: Seq<char>)
    ensures
        no_ascii_upper(lower(s)),
{
    assert forall|i: int| 0 <= i < lower(s).len() implies !('A' <= #[trigger] lower(s)[i] && lower(s)[i] <= 'Z') by {
        let c = s[i];
        if 'A' <= c && c <= 'Z' {
            assert(((c as u32) + 32) as char as u32 == (c as u32) + 32);
        }
    }
}

proof fn lemma_join_has_no_upper(ls: Seq<Seq<char>>)
    requires
        forall|k: int| 0 <= k < ls.len() ==> no_ascii_upper(#[trigger] ls[k]),
    ensures
        no_ascii_upper(join_dots(ls)),
    decreases ls.len(),
{
    if ls.len() > 1 {
        let front = ls.drop_last();
        assert forall|k: int| 0 <= k < front.len() implies no_ascii_upper(#[trigger] front[k]) by {
            assert(front[k] == ls[k]);
        }
        lemma_join_has_no_upper(front);
        let j = join_dots(front) + seq!['.'] + ls.last();
        assert(no_ascii_upper(ls[ls.len() - 1]));
        assert forall|i: int| 0 <= i < j.len() implies !('A' <= #[trigger] j[i] && j[i] <= 'Z') by {
            if i < join_dots(front).len() {
                assert(j[i] == join_dots(front)[i]);
            } else if i > join_dots(front).len() {
                assert(j[i] == ls.last()[i - join_dots(front).len() - 1]);
            }
        }
    } else if ls.len() == 1 {
        assert(no_ascii_upper(ls[0]));
    }
}

proof fn lemma_walk_has_no_upper(
    buf: Seq<u8>,
    cursor: int,
    jumps: int,
    total: int,
    followed: bool,
    end_pos: int,
    labels: Seq<Seq<char>>,
)
    requires
        forall|k: int| 0 <= k < labels.len() ==> no_ascii_upper(#[trigger] labels[k]),
    ensures
        name_walk(buf, cursor, jumps, total, followed, end_pos, labels) matches Ok((s, _)) ==> no_ascii_upper(s),
    decreases 33 - jumps, buf.len() - cursor,
{
    if cursor < 0 || cursor >= buf.len() || jumps < 0 || jumps > 32 {
    } else {
        let len = buf[cursor] as int;
        let c1 = cursor + 1;
        if len < 64 {
            if len == 0 {
                lemma_join_has_no_upper(labels);
            } else {
                let end = c1 + len;
                if end <= buf.len() && total + 1 + len <= 255 {
                    let lb = buf.subrange(c1, end);
                    if valid_utf8(lb) {
                        let more = labels.push(lower(decode_utf8(lb)));
                        lemma_lower_has_no_upper(decode_utf8(lb));
                        assert forall|k: int| 0 <= k < more.len() implies no_ascii_upper(#[trigger] more[k]) by {
                            if k < labels.len() {
                                assert(more[k] == labels[k]);
                            }
                        }
                        lemma_walk_has_no_upper(buf, end, jumps, total + 1 + len, followed, end_pos, more);
                    }
                }
            }
        } else if len >= 192 {
            if c1 < buf.len() {
                let target = (len - 192) * 256 + buf[c1] as int;
                let np = if followed { end_pos } else { c1 + 1 };
                if target < cursor && jumps + 1 <= 32 {
                    lemma_walk_has_no_upper(buf, target, jumps + 1, total, true, np, labels);
                }
            }
        }
    }
}

/// Whatever the bytes and the starting position, reading a name ends (the
/// reader refuses a compression pointer that does not point backwards, a
/// chain of more than 32 pointers and a name over 255 bytes, and a position
/// past the end), and a name it reads has no ASCII upper-case letter, so two
/// spellings of one host compare equal.
pub proof fn law_names_read_are_lower_case(buf: Seq<u8>, pos: int)
    ensures
        name_at(buf, pos) matches Ok((s, _)) ==> no_ascii_upper(s),
        pos < 0 || pos >= buf.len() ==> name_at(buf, pos) == Err::<(Seq<char>, int), Seq<char>>(err_name_past_end()),
{
    lemma_walk_has_no_upper(buf, pos, 0, 1, false, 0, Seq::empty());
}

/// An answer record of type NS or CNAME answers with the name its data
/// holds, as a name read at the start of the data reads (compression
/// pointers followed, lower-cased): wherever that name reads, the record
/// gives exactly it.
pub proof fn law_name_records_answer_with_their_name(buf: Seq<u8>, qtype: u16, start: int, len: int)
    requires
        qtype == TYPE_NS || qtype == TYPE_CNAME,
    ensures
        name_at(buf, start) matches Ok((n, _)) ==> rdata_spec(buf, qtype, start, len) == Ok::<
            Option<AnswerView>,
            Seq<char>,
        >(Some(AnswerView::Text(n))),
        name_at(buf, start) is Err ==> rdata_spec(buf, qtype, start, len) is Err,
{
}

/// An MX record answers with its 16-bit preference and the name after it.
pub proof fn law_mx_records_answer_with_preference_and_name(buf: Seq<u8>, start: int, len: int)
    requires
        0 <= start,
        start + 2 <= buf.len(),
    ensures
        name_at(buf, start + 2) matches Ok((n, _)) ==> rdata_spec(buf, TYPE_MX, start, len) == Ok::<
            Option<AnswerView>,
            Seq<char>,
        >(Some(AnswerView::Mx((buf[start] as int * 256 + buf[start + 1] as int) as u16, n))),
{
}

/// No record type that a lookup can ask for by name is skipped: for each of
/// them a record of that type gives an answer or an error, never nothing,
/// whatever its data; other types give nothing.
pub proof fn law_asked_types_are_read(name: Seq<char>, buf: Seq<u8>, start: int, len: int)
    ensures
        record_type_spec(name) matches Some(t) ==> rdata_spec(buf, t, start, len) != Ok::<
            Option<AnswerView>,
            Seq<char>,
        >(None),
        record_type_spec(name) matches Some(t) ==> t == TYPE_A || t == TYPE_AAAA || t == TYPE_NS || t
            == TYPE_CNAME || t == TYPE_MX || t == TYPE_TXT,
{
}

} // verus!
