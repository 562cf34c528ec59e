//! The SMTP reply format and what a rejection means.
//!
//! A reply is one or more lines of a three-digit code followed by text; a
//! hyphen after the code continues the reply. The reason for a refusal is
//! read from the text first and the code second, since servers disagree on
//! codes more than on wording.

use vstd::prelude::*;
use crate::text::{
    trim, contains_seq, chars_of, trim_chars, contains_chars, string_of, push_chars, push_str,
    chars_eq, parse_u64_spec, parse_u64, views, join_sep, join_strings, unicode_lower, to_lowercase,
};

verus! {

/// The most lines one reply may take.
pub const MAX_REPLY_LINES: usize = 64;

/// The most characters of server text kept in a detail.
pub const MAX_DETAIL_LEN: usize = 300;

/// One complete reply: its code and the text of its lines joined by spaces.
#[derive(Debug, Clone, PartialEq, Eq)]
pub struct Reply {
    pub code: u16,
    pub text: String,
}

/// Whether a code says yes: 2xx and 3xx.
pub open spec fn positive_code(code: u16) -> bool {
    200 <= code < 400
}

/// The text names the mailbox as absent.
pub open spec fn says_mailbox_absent(l: Seq<char>) -> bool {
    ||| contains_seq(l, "undeliverable"@)
    ||| contains_seq(l, "does not exist"@)
    ||| contains_seq(l, "doesn't exist"@)
    ||| contains_seq(l, "may not exist"@)
    ||| contains_seq(l, "user unknown"@)
    ||| contains_seq(l, "unknown user"@)
    ||| contains_seq(l, "user not found"@)
    ||| contains_seq(l, "no such user"@)
    ||| contains_seq(l, "no such recipient"@)
    ||| contains_seq(l, "invalid address"@)
    ||| contains_seq(l, "invalid recipient"@)
    ||| contains_seq(l, "recipient invalid"@)
    ||| contains_seq(l, "recipient rejected"@)
    ||| contains_seq(l, "address rejected"@)
    ||| contains_seq(l, "no mailbox"@)
    ||| contains_seq(l, "mailbox unavailable"@)
    ||| contains_seq(l, "mailbox not found"@)
}

/// The text blames the sender's reputation.
pub open spec fn says_reputation(l: Seq<char>) -> bool {
    ||| contains_seq(l, "spamhaus"@)
    ||| contains_seq(l, "proofpoint"@)
    ||| contains_seq(l, "cloudmark"@)
    ||| contains_seq(l, "barracuda"@)
    ||| contains_seq(l, "blacklist"@)
    ||| contains_seq(l, "block list"@)
    ||| contains_seq(l, "blocklist"@)
    ||| contains_seq(l, "blocked"@)
    ||| contains_seq(l, "banned"@)
    ||| contains_seq(l, "denied"@)
    ||| contains_seq(l, "reputation"@)
}

/// The text says the mailbox has no room.
pub open spec fn says_out_of_space(l: Seq<char>) -> bool {
    ||| contains_seq(l, "full"@)
    ||| contains_seq(l, "space"@)
    ||| contains_seq(l, "over quota"@)
    ||| contains_seq(l, "insufficient"@)
    ||| contains_seq(l, "exceeded storage"@)
}

/// What a refusal means, given its code and its lower-cased text: wording
/// about the mailbox, then wording about reputation, then the code.
pub open spec fn classify_spec(code: u16, l: Seq<char>) -> Seq<char> {
    if says_mailbox_absent(l) {
        "no_mailbox"@
    } else if says_reputation(l) {
        "blocked"@
    } else if code == 421 {
        "try_again_later"@
    } else if code == 450 {
        "mailbox_busy"@
    } else if code == 451 {
        "exceeded_limits"@
    } else if code == 452 {
        if says_out_of_space(l) {
            "full_inbox"@
        } else {
            "too_many_recipients"@
        }
    } else if code == 503 {
        "need_mail_before_rcpt"@
    } else if code == 550 {
        "no_mailbox"@
    } else if code == 551 {
        "recipient_moved"@
    } else if code == 552 {
        "full_inbox"@
    } else if code == 553 {
        "no_relay"@
    } else if code == 554 {
        "not_allowed"@
    } else {
        "rejected"@
    }
}

/// What a reply means: `accepted` when positive, else the class of refusal.
pub open spec fn reason_spec(code: u16, text: Seq<char>) -> Seq<char> {
    if positive_code(code) {
        "accepted"@
    } else {
        classify_spec(code, unicode_lower(text))
    }
}

impl Reply {
    /// Whether the reply says yes (2xx or 3xx).
    pub fn positive(&self) -> (r: bool)
        ensures
            r == positive_code(self.code),
    {
        200 <= self.code && self.code < 400
    }

    /// What the reply means.
    pub fn reason(&self) -> (r: &'static str)
        ensures
            r@ == reason_spec(self.code, self.text@),
    {
        if self.positive() {
            "accepted"
        } else {
            classify(self.code, self.text.as_str())
        }
    }
}

fn has(l: &[char], needle: &str) -> (r: bool)
    ensures
        r == contains_seq(l@, needle@),
{
    let n = chars_of(needle);
    contains_chars(l, &n)
}

fn mailbox_absent(l: &[char]) -> (r: bool)
    ensures
        r == says_mailbox_absent(l@),
{
    has(l, "undeliverable") || has(l, "does not exist") || has(l, "doesn't exist") || has(
        l,
        "may not exist",
    ) || has(l, "user unknown") || has(l, "unknown user") || has(l, "user not found") || has(
        l,
        "no such user",
    ) || has(l, "no such recipient") || has(l, "invalid address") || has(l, "invalid recipient")
        || has(l, "recipient invalid") || has(l, "recipient rejected") || has(
        l,
        "address rejected",
    ) || has(l, "no mailbox") || has(l, "mailbox unavailable") || has(l, "mailbox not found")
}

fn reputation(l: &[char]) -> (r: bool)
    ensures
        r == says_reputation(l@),
{
    has(l, "spamhaus") || has(l, "proofpoint") || has(l, "cloudmark") || has(l, "barracuda") || has(
        l,
        "blacklist",
    ) || has(l, "block list") || has(l, "blocklist") || has(l, "blocked") || has(l, "banned")
        || has(l, "denied") || has(l, "reputation")
}

fn out_of_space(l: &[char]) -> (r: bool)
    ensures
        r == says_out_of_space(l@),
{
    has(l, "full") || has(l, "space") || has(l, "over quota") || has(l, "insufficient") || has(
        l,
        "exceeded storage",
    )
}

/// What a refusal means, given its code and its text already lower-cased.
pub fn classify_lowered(code: u16, lowered: &str) -> (r: &'static str)
    ensures
        r@ == classify_spec(code, lowered@),
{
    let l = chars_of(lowered);
    if mailbox_absent(&l) {
        return "no_mailbox";
    }
    if reputation(&l) {
        return "blocked";
    }
    if code == 421 {
        "try_again_later"
    } else if code == 450 {
        "mailbox_busy"
    } else if code == 451 {
        "exceeded_limits"
    } else if code == 452 {
        if out_of_space(&l) {
            "full_inbox"
        } else {
            "too_many_recipients"
        }
    } else if code == 503 {
        "need_mail_before_rcpt"
    } else if code == 550 {
        "no_mailbox"
    } else if code == 551 {
        "recipient_moved"
    } else if code == 552 {
        "full_inbox"
    } else if code == 553 {
        "no_relay"
    } else if code == 554 {
        "not_allowed"
    } else {
        "rejected"
    }
}

/// What a refusal means: the text is lower-cased and consulted before the
/// code.
pub fn classify(code: u16, text: &str) -> (r: &'static str)
    ensures
        r@ == classify_spec(code, unicode_lower(text@)),
{
    let lowered = to_lowercase(text);
    classify_lowered(code, lowered.as_str())
}

/// Whether a reason is a soft refusal ("not now" rather than "not ever").
pub open spec fn greylist_reason(reason: Seq<char>) -> bool {
    reason == "try_again_later"@ || reason == "mailbox_busy"@ || reason == "exceeded_limits"@
}

/// Whether a reason is a soft refusal: a probe stopped by one has learned
/// nothing about the mailbox.
pub fn is_greylist(reason: &str) -> (r: bool)
    ensures
        r == greylist_reason(reason@),
{
    let c = chars_of(reason);
    let a = chars_of("try_again_later");
    let b = chars_of("mailbox_busy");
    let d = chars_of("exceeded_limits");
    chars_eq(&c, &a) || chars_eq(&c, &b) || chars_eq(&c, &d)
}

/// The text with each carriage return and line feed turned into a space.
pub open spec fn flatten_lines(s: Seq<char>) -> Seq<char> {
    s.map_values(|c: char| if c == '\r' || c == '\n' { ' ' } else { c })
}

/// A detail: the text on one line, trimmed, and cut to its first
/// `MAX_DETAIL_LEN` characters.
pub open spec fn detail_spec(s: Seq<char>) -> Seq<char> {
    let t = trim(flatten_lines(s));
    if t.len() <= MAX_DETAIL_LEN {
        t
    } else {
        t.take(MAX_DETAIL_LEN as int)
    }
}

/// Flattens server text to one trimmed line of at most `MAX_DETAIL_LEN`
/// characters.
pub fn truncate(s: &str) -> (r: String)
    ensures
        r@ == detail_spec(s@),
{
    let c = chars_of(s);
    let mut flat: Vec<char> = Vec::new();
    let mut i: usize = 0;
    while i < c.len()
        invariant
            i <= c@.len(),
            flat@ == flatten_lines(c@.take(i as int)),
        decreases c@.len() - i,
    {
        let ch = c[i];
        if ch == '\r' || ch == '\n' {
            flat.push(' ');
        } else {
            flat.push(ch);
        }
        i += 1;
        assert(flat@ =~= flatten_lines(c@.take(i as int)));
    }
    assert(c@.take(i as int) =~= c@);
    let t = trim_chars(&flat);
    if t.len() <= MAX_DETAIL_LEN {
        string_of(&t)
    } else {
        let mut cut: Vec<char> = Vec::new();
        let mut k: usize = 0;
        while k < MAX_DETAIL_LEN
            invariant
                k <= MAX_DETAIL_LEN,
                MAX_DETAIL_LEN < t@.len(),
                cut@ == t@.take(k as int),
            decreases MAX_DETAIL_LEN - k,
        {
            cut.push(t[k]);
            k += 1;
            assert(cut@ =~= t@.take(k as int));
        }
        string_of(&cut)
    }
}

} // verus!

verus! {

/// The line without the carriage returns and line feeds that end it.
pub open spec fn strip_line_end(s: Seq<char>) -> Seq<char>
    decreases s.len(),
{
    if s.len() > 0 && (s.last() == '\r' || s.last() == '\n') {
        strip_line_end(s.drop_last())
    } else {
        s
    }
}

/// The number of bytes UTF-8 takes for a character.
pub open spec fn utf8_len(c: char) -> nat {
    if (c as u32) < 0x80 {
        1
    } else if (c as u32) < 0x800 {
        2
    } else if (c as u32) < 0x10000 {
        3
    } else {
        4
    }
}

/// The number of bytes UTF-8 takes for a text.
pub open spec fn byte_len(s: Seq<char>) -> nat
    decreases s.len(),
{
    if s.len() == 0 {
        0
    } else {
        byte_len(s.drop_last()) + utf8_len(s.last())
    }
}

/// Whether the first three characters are ASCII, so that the first three
/// bytes are exactly those characters.
pub open spec fn ascii3(s: Seq<char>) -> bool {
    s.len() >= 3 && (s[0] as u32) < 0x80 && (s[1] as u32) < 0x80 && (s[2] as u32) < 0x80
}

/// Whether byte 3 of the line falls between two characters, so that the
/// first three bytes can be cut off as text.
pub open spec fn cut_at_3(s: Seq<char>) -> bool {
    ||| byte_len(s) < 3
    ||| (s.len() >= 1 && byte_len(s.take(1)) == 3)
    ||| (s.len() >= 2 && byte_len(s.take(2)) == 3)
    ||| (s.len() >= 3 && byte_len(s.take(3)) == 3)
}

/// What `u16::from_str` accepts: what `u64::from_str` accepts, if it fits.
pub open spec fn parse_u16_spec(s: Seq<char>) -> Option<u16> {
    match parse_u64_spec(s) {
        Some(n) => if n <= u16::MAX {
            Some(n as u16)
        } else {
            None
        },
        None => None,
    }
}

/// The text without the hyphens and spaces that lead it.
pub open spec fn strip_dash_space(s: Seq<char>) -> Seq<char>
    decreases s.len(),
{
    if s.len() > 0 && (s[0] == '-' || s[0] == ' ') {
        strip_dash_space(s.drop_first())
    } else {
        s
    }
}

/// The refusal of a line that is not a reply line.
pub open spec fn msg_malformed(l: Seq<char>) -> Seq<char> {
    "malformed reply: "@ + l
}

/// One line of a reply, as read from the wire: its code, its text, and
/// whether the reply goes on (a hyphen right after the code); or the
/// refusal of a line shorter than three bytes or without a code.
pub open spec fn reply_line_spec(raw: Seq<char>) -> Result<(u16, Seq<char>, bool), Seq<char>> {
    let l = strip_line_end(raw);
    if byte_len(l) < 3 || !ascii3(l) {
        Err(msg_malformed(l))
    } else {
        match parse_u16_spec(l.take(3)) {
            Some(code) => Ok((code, strip_dash_space(l.skip(3)), l.len() > 3 && l[3] == '-')),
            None => Err(msg_malformed(l)),
        }
    }
}

proof fn lemma_byte_len_at_least_len(s: Seq<char>)
    ensures
        byte_len(s) >= s.len(),
    decreases s.len(),
{
    if s.len() > 0 {
        lemma_byte_len_at_least_len(s.drop_last());
    }
}

fn utf8_len_of(c: char) -> (r: u32)
    ensures
        r == utf8_len(c),
{
    let v = c as u32;
    if v < 0x80 {
        1
    } else if v < 0x800 {
        2
    } else if v < 0x10000 {
        3
    } else {
        4
    }
}

/// Whether the line is shorter than three bytes.
fn shorter_than_3_bytes(l: &[char]) -> (r: bool)
    ensures
        r == (byte_len(l@) < 3),
{
    proof {
        lemma_byte_len_at_least_len(l@);
    }
    if l.len() >= 3 {
        return false;
    }
    let mut n: u32 = 0;
    let mut i: usize = 0;
    while i < l.len()
        invariant
            i <= l@.len() < 3,
            n == byte_len(l@.take(i as int)),
            n <= 4 * i,
        decreases l@.len() - i,
    {
        assert(l@.take(i + 1).drop_last() =~= l@.take(i as int));
        n = n + utf8_len_of(l[i]);
        i += 1;
    }
    assert(l@.take(i as int) =~= l@);
    n < 3
}

/// Reads one line of a reply. The caller hands it as read, line end
/// included.
pub fn parse_reply_line(raw: &str) -> (r: Result<(u16, String, bool), String>)
    requires
        cut_at_3(strip_line_end(raw@)),
    ensures
        match (r, reply_line_spec(raw@)) {
            (Ok((c, t, m)), Ok((c2, t2, m2))) => c == c2 && t@ == t2 && m == m2,
            (Err(e), Err(e2)) => e@ == e2,
            _ => false,
        },
{
    let all = chars_of(raw);
    let mut n: usize = all.len();
    assert(all@.take(all@.len() as int) =~= all@);
    while n > 0 && (all[n - 1] == '\r' || all[n - 1] == '\n')
        invariant
            n <= all@.len(),
            strip_line_end(all@) == strip_line_end(all@.take(n as int)),
        decreases n,
    {
        assert(all@.take(n as int).drop_last() =~= all@.take(n - 1));
        n -= 1;
    }
    assert(all@.take(all@.len() as int) =~= all@);
    let mut l: Vec<char> = Vec::new();
    let mut i: usize = 0;
    while i < n
        invariant
            i <= n <= all@.len(),
            l@ == all@.take(i as int),
        decreases n - i,
    {
        l.push(all[i]);
        i += 1;
        assert(l@ =~= all@.take(i as int));
    }
    assert(strip_line_end(l@) == l@);
    let malformed = {
        let mut m = chars_of("malformed reply: ");
        push_chars(&mut m, &l);
        string_of(&m)
    };
    if shorter_than_3_bytes(&l) || l.len() < 3 {
        return Err(malformed);
    }
    if !((l[0] as u32) < 0x80 && (l[1] as u32) < 0x80 && (l[2] as u32) < 0x80) {
        return Err(malformed);
    }
    let head: Vec<char> = vec![l[0], l[1], l[2]];
    assert(head@ =~= l@.take(3));
    let code: u16 = match parse_u64(&head) {
        Some(v) => {
            if v <= 65535 {
                v as u16
            } else {
                return Err(malformed);
            }
        },
        None => {
            return Err(malformed);
        },
    };
    let mut a: usize = 3;
    while a < l.len() && (l[a] == '-' || l[a] == ' ')
        invariant
            3 <= a <= l@.len(),
            strip_dash_space(l@.skip(3)) == strip_dash_space(l@.skip(a as int)),
        decreases l@.len() - a,
    {
        assert(l@.skip(a as int).drop_first() =~= l@.skip(a + 1));
        a += 1;
    }
    let mut part: Vec<char> = Vec::new();
    let mut k: usize = a;
    while k < l.len()
        invariant
            a <= k <= l@.len(),
            part@ == l@.subrange(a as int, k as int),
        decreases l@.len() - k,
    {
        part.push(l[k]);
        k += 1;
        assert(part@ =~= l@.subrange(a as int, k as int));
    }
    assert(part@ =~= l@.skip(a as int));
    let more = l.len() > 3 && l[3] == '-';
    Ok((code, string_of(&part), more))
}

/// Where reading a reply stands after one more line.
pub enum ReplyProgress {
    /// The reply goes on: read another line.
    More,
    /// The reply is complete.
    Done(Reply),
    /// The reply cannot be read.
    Failed(String),
}

/// The refusal of a reply that goes on past `MAX_REPLY_LINES` lines.
pub open spec fn msg_too_long() -> Seq<char> {
    "reply exceeded 64 lines"@
}

/// Takes one more line of a reply. `parts` holds the text of the lines
/// read so far; a reply is complete at the first line without a hyphen
/// after its code, and its text is the lines' text joined by spaces.
pub fn reply_step(parts: &mut Vec<String>, raw: &str) -> (r: ReplyProgress)
    requires
        old(parts)@.len() < MAX_REPLY_LINES,
        cut_at_3(strip_line_end(raw@)),
    ensures
        match reply_line_spec(raw@) {
            Err(m) => r matches ReplyProgress::Failed(e) && e@ == m,
            Ok((code, part, more)) => {
                &&& views(final(parts)@) == views(old(parts)@).push(part)
                &&& !more ==> (r matches ReplyProgress::Done(rep) && rep.code == code && rep.text@
                    == join_sep(views(final(parts)@), " "@))
                &&& more && final(parts)@.len() >= MAX_REPLY_LINES ==> (r matches ReplyProgress::Failed(
                    e,
                ) && e@ == msg_too_long())
                &&& more && final(parts)@.len() < MAX_REPLY_LINES ==> r is More
            },
        },
{
    match parse_reply_line(raw) {
        Err(e) => ReplyProgress::Failed(e),
        Ok((code, part, more)) => {
            let ghost before = parts@;
            parts.push(part);
            assert(views(parts@) =~= views(before).push(views(parts@).last()));
            if !more {
                let text = join_strings(parts.as_slice(), " ");
                ReplyProgress::Done(Reply { code, text })
            } else if parts.len() >= MAX_REPLY_LINES {
                ReplyProgress::Failed(string_from_lit_too_long())
            } else {
                ReplyProgress::More
            }
        },
    }
}

fn string_from_lit_too_long() -> (r: String)
    ensures
        r@ == msg_too_long(),
{
    let c = chars_of("reply exceeded 64 lines");
    string_of(&c)
}

} // verus!
