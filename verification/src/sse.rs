//! Server-sent events: writing an event as the `text/event-stream` wire
//! text a server sends, cutting a received stream at blank lines, and
//! reading the fields of each event back.

use vstd::prelude::*;
use crate::text::{chars_of, string_of, push_chars, push_str, split_all, pieces, lines, lines_of,
    has_prefix, parse_u64, parse_u64_spec, unsigned_digits, int_dec, int_chars, trim, trim_chars,
    split_once_seq, split_once_chars, dec, next_char, lemma_next_char_bounds, find_from, occurs_at};

verus! {

/// One event: its name, its data, its id and the reconnection delay it
/// asks for, each of them optional.
#[derive(Debug, Clone, PartialEq, Eq)]
pub struct SseEvent {
    pub event: Option<String>,
    pub data: Option<String>,
    pub id: Option<String>,
    pub retry: Option<i64>,
}

/// An event as plain values.
pub struct SseEventModel {
    pub event: Option<Seq<char>>,
    pub data: Option<Seq<char>>,
    pub id: Option<Seq<char>>,
    pub retry: Option<i64>,
}

/// A text that may be absent, by its characters.
pub open spec fn opt_view(o: Option<String>) -> Option<Seq<char>> {
    match o {
        Some(s) => Some(s@),
        None => None,
    }
}

impl View for SseEvent {
    type V = SseEventModel;

    open spec fn view(&self) -> SseEventModel {
        SseEventModel {
            event: opt_view(self.event),
            data: opt_view(self.data),
            id: opt_view(self.id),
            retry: self.retry,
        }
    }
}

/// The event with no field set.
pub open spec fn empty_event() -> SseEventModel {
    SseEventModel { event: None, data: None, id: None, retry: None }
}

/// Whether a text holds a line break, `\n` or `\r`.
pub open spec fn breaks_line(s: Seq<char>) -> bool {
    s.contains('\n') || s.contains('\r')
}

/// The `data:` lines of a value: one per line of it, split at `\n`.
pub open spec fn data_lines(d: Seq<char>) -> Seq<Seq<char>> {
    pieces(d, '\n').map_values(|p: Seq<char>| "data: "@ + p)
}

/// The field lines of an event, in the order they are written: the name,
/// the data, the id, the retry delay.
pub open spec fn field_lines(e: SseEventModel) -> Seq<Seq<char>> {
    (match e.event {
        Some(x) => seq!["event: "@ + x],
        None => Seq::empty(),
    }) + (match e.data {
        Some(d) => data_lines(d),
        None => Seq::empty(),
    }) + (match e.id {
        Some(x) => seq!["id: "@ + x],
        None => Seq::empty(),
    }) + (match e.retry {
        Some(n) => seq!["retry: "@ + int_dec(n as int)],
        None => Seq::empty(),
    })
}

/// Lines, each followed by `\n`.
pub open spec fn terminated(ls: Seq<Seq<char>>) -> Seq<char>
    decreases ls.len(),
{
    if ls.len() == 0 {
        Seq::empty()
    } else {
        ls[0] + "\n"@ + terminated(ls.drop_first())
    }
}

/// The refusal of an event name that breaks its line.
pub open spec fn msg_event_breaks() -> Seq<char> {
    "SSE event name must not contain newlines"@
}

/// The refusal of an id that breaks its line.
pub open spec fn msg_id_breaks() -> Seq<char> {
    "SSE id must not contain newlines"@
}

/// The wire text of an event: its field lines, then the blank line that
/// ends it; refused where the name or the id would break its line.
pub open spec fn format_spec(e: SseEventModel) -> Result<Seq<char>, Seq<char>> {
    if e.event matches Some(x) && breaks_line(x) {
        Err(msg_event_breaks())
    } else if e.id matches Some(x) && breaks_line(x) {
        Err(msg_id_breaks())
    } else {
        Ok(terminated(field_lines(e)) + "\n"@)
    }
}

proof fn lemma_terminated_push(ls: Seq<Seq<char>>, l: Seq<char>)
    ensures
        terminated(ls.push(l)) == terminated(ls) + l + "\n"@,
    decreases ls.len(),
{
    if ls.len() == 0 {
        assert(ls.push(l).drop_first() =~= Seq::<Seq<char>>::empty());
        assert(ls.push(l)[0] == l);
        assert(terminated(Seq::<Seq<char>>::empty()) == Seq::<char>::empty());
        assert(terminated(ls.push(l)) == l + "\n"@ + Seq::<char>::empty());
        assert(terminated(ls.push(l)) =~= terminated(ls) + l + "\n"@);
    } else {
        assert(ls.push(l).drop_first() =~= ls.drop_first().push(l));
        lemma_terminated_push(ls.drop_first(), l);
        assert(ls.push(l)[0] == ls[0]);
        let t = terminated(ls.drop_first());
        assert(terminated(ls.push(l)) == ls[0] + "\n"@ + (t + l + "\n"@));
        assert(terminated(ls) == ls[0] + "\n"@ + t);
        assert(ls[0] + "\n"@ + (t + l + "\n"@) =~= (ls[0] + "\n"@ + t) + l + "\n"@);
    }
}

fn push_line(out: &mut Vec<char>, ls: Ghost<Seq<Seq<char>>>, head: &str, value: &[char]) -> (r: Ghost<
    Seq<Seq<char>>,
>)
    requires
        old(out)@ == terminated(ls@),
    ensures
        r@ == ls@.push(head@ + value@),
        final(out)@ == terminated(r@),
{
    push_str(out, head);
    push_chars(out, value);
    push_str(out, "\n");
    proof {
        lemma_terminated_push(ls@, head@ + value@);
        assert(out@ =~= terminated(ls@) + (head@ + value@) + "\n"@);
    }
    Ghost(ls@.push(head@ + value@))
}

fn has_break(s: &[char]) -> (r: bool)
    ensures
        r == breaks_line(s@),
{
    let mut i: usize = 0;
    while i < s.len()
        invariant
            i <= s.len(),
            forall|k: int| 0 <= k < i ==> s@[k] != '\n' && s@[k] != '\r',
        decreases s.len() - i,
    {
        if s[i] == '\n' || s[i] == '\r' {
            assert(s@.contains(s@[i as int]));
            return true;
        }
        i += 1;
    }
    false
}

/// The wire text of an event: `event:`, one `data:` line per line of the
/// data, `id:` and `retry:`, each where present, then a blank line.
pub fn format_sse_event(e: &SseEvent) -> (r: Result<String, String>)
    ensures
        match (r, format_spec(e@)) {
            (Ok(t), Ok(u)) => t@ == u,
            (Err(m), Err(n)) => m@ == n,
            _ => false,
        },
{
    let mut out: Vec<char> = Vec::new();
    let mut ls: Ghost<Seq<Seq<char>>> = Ghost(Seq::empty());
    let ghost ev = e@;
    match &e.event {
        Some(x) => {
            let xc = chars_of(x.as_str());
            if has_break(&xc) {
                return Err(string_of(&chars_of("SSE event name must not contain newlines")));
            }
            ls = push_line(&mut out, ls, "event: ", &xc);
        },
        None => {},
    }
    let ghost after_event = ls@;
    match &e.data {
        Some(d) => {
            let dc = chars_of(d.as_str());
            let parts = split_all(&dc, '\n');
            let mut i: usize = 0;
            while i < parts.len()
                invariant
                    i <= parts@.len(),
                    parts@.len() == pieces(dc@, '\n').len(),
                    forall|k: int| 0 <= k < parts@.len() ==> (#[trigger] parts@[k])@ == pieces(dc@, '\n')[k],
                    out@ == terminated(ls@),
                    ls@ == after_event + data_lines(dc@).take(i as int),
                decreases parts@.len() - i,
            {
                ls = push_line(&mut out, ls, "data: ", &parts[i]);
                i += 1;
                assert(ls@ =~= after_event + data_lines(dc@).take(i as int));
            }
            assert(data_lines(dc@).take(i as int) =~= data_lines(dc@));
        },
        None => {},
    }
    let ghost after_data = ls@;
    match &e.id {
        Some(x) => {
            let xc = chars_of(x.as_str());
            if has_break(&xc) {
                return Err(string_of(&chars_of("SSE id must not contain newlines")));
            }
            ls = push_line(&mut out, ls, "id: ", &xc);
        },
        None => {},
    }
    match e.retry {
        Some(n) => {
            let nc = int_chars(n);
            ls = push_line(&mut out, ls, "retry: ", &nc);
        },
        None => {},
    }
    assert(ls@ =~= field_lines(ev));
    push_str(&mut out, "\n");
    Ok(string_of(&out))
}

/// What `str::parse::<i64>` accepts: an optional sign, then one or more
/// ASCII digits whose value fits.
pub open spec fn parse_i64_spec(s: Seq<char>) -> Option<i64> {
    if s.len() > 0 && s[0] == '-' {
        let d = s.drop_first();
        if d.len() > 0 && d[0] == '+' {
            None
        } else {
            match parse_u64_spec(d) {
                Some(v) => if v <= 0x8000_0000_0000_0000u64 {
                    Some((0 - v) as i64)
                } else {
                    None
                },
                None => None,
            }
        }
    } else {
        match parse_u64_spec(s) {
            Some(v) => if v <= 0x7fff_ffff_ffff_ffffu64 {
                Some(v as i64)
            } else {
                None
            },
            None => None,
        }
    }
}

/// `str::parse::<i64>`.
pub fn parse_i64(s: &[char]) -> (r: Option<i64>)
    ensures
        r == parse_i64_spec(s@),
{
    if s.len() > 0 && s[0] == '-' {
        let d = crate::text::sub_chars(s, 1, s.len());
        assert(d@ =~= s@.drop_first());
        if d.len() > 0 && d[0] == '+' {
            return None;
        }
        match parse_u64(&d) {
            Some(v) => if v <= 0x8000_0000_0000_0000u64 {
                Some((0i128 - v as i128) as i64)
            } else {
                None
            },
            None => None,
        }
    } else {
        match parse_u64(s) {
            Some(v) => if v <= 0x7fff_ffff_ffff_ffffu64 {
                Some(v as i64)
            } else {
                None
            },
            None => None,
        }
    }
}

/// The event after one more line: `event: `, `data: ` and `id: ` set
/// their field to the rest of the line, `retry: ` sets the delay where
/// the rest reads as a number; any other line changes nothing.
pub open spec fn apply_line(e: SseEventModel, line: Seq<char>) -> SseEventModel {
    if has_prefix(line, "event: "@) {
        SseEventModel { event: Some(line.skip(7)), ..e }
    } else if has_prefix(line, "data: "@) {
        SseEventModel { data: Some(line.skip(6)), ..e }
    } else if has_prefix(line, "id: "@) {
        SseEventModel { id: Some(line.skip(4)), ..e }
    } else if has_prefix(line, "retry: "@) && parse_i64_spec(line.skip(7)) is Some {
        SseEventModel { retry: parse_i64_spec(line.skip(7)), ..e }
    } else {
        e
    }
}

/// The event that lines make, read in order, starting from `e`.
pub open spec fn apply_lines(e: SseEventModel, ls: Seq<Seq<char>>) -> SseEventModel
    decreases ls.len(),
{
    if ls.len() == 0 {
        e
    } else {
        apply_lines(apply_line(e, ls[0]), ls.drop_first())
    }
}

/// The event the text of one block makes, read line by line.
pub open spec fn parse_event_spec(text: Seq<char>) -> SseEventModel {
    apply_lines(empty_event(), lines(text))
}

fn tail(line: &[char], k: usize) -> (r: String)
    requires
        k <= line@.len(),
    ensures
        r@ == line@.skip(k as int),
{
    let t = crate::text::sub_chars(line, k, line.len());
    assert(t@ =~= line@.skip(k as int));
    string_of(&t)
}

/// Reads the fields of one event from the text of its block.
pub fn parse_sse_event(text: &str) -> (r: SseEvent)
    ensures
        r@ == parse_event_spec(text@),
{
    let t = chars_of(text);
    let ls = lines_of(&t);
    let ghost all = lines(text@);
    assert(ls@.len() == all.len());
    let mut e = SseEvent { event: None, data: None, id: None, retry: None };
    let ev_p = chars_of("event: ");
    let data_p = chars_of("data: ");
    let id_p = chars_of("id: ");
    let retry_p = chars_of("retry: ");
    proof {
        reveal_strlit("event: ");
        reveal_strlit("data: ");
        reveal_strlit("id: ");
        reveal_strlit("retry: ");
    }
    let mut i: usize = 0;
    assert(all.skip(0) =~= all);
    while i < ls.len()
        invariant
            i <= ls@.len(),
            ls@.len() == all.len(),
            forall|k: int| 0 <= k < ls@.len() ==> (#[trigger] ls@[k])@ == all[k],
            ev_p@ == "event: "@,
            data_p@ == "data: "@,
            id_p@ == "id: "@,
            retry_p@ == "retry: "@,
            ev_p@.len() == 7 && data_p@.len() == 6 && id_p@.len() == 4 && retry_p@.len() == 7,
            apply_lines(e@, all.skip(i as int)) == apply_lines(empty_event(), all),
        decreases ls@.len() - i,
    {
        let line = &ls[i];
        let ghost before = e@;
        if crate::text::starts_with(line, &ev_p) {
            e.event = Some(tail(line, 7));
        } else if crate::text::starts_with(line, &data_p) {
            e.data = Some(tail(line, 6));
        } else if crate::text::starts_with(line, &id_p) {
            e.id = Some(tail(line, 4));
        } else if crate::text::starts_with(line, &retry_p) {
            let rest = crate::text::sub_chars(line, 7, line.len());
            assert(rest@ =~= line@.skip(7));
            match parse_i64(&rest) {
                Some(n) => {
                    e.retry = Some(n);
                },
                None => {},
            }
        }
        assert(e@ == apply_line(before, all[i as int]));
        assert(all.skip(i as int).drop_first() =~= all.skip(i + 1));
        i += 1;
    }
    assert(all.skip(i as int) =~= Seq::<Seq<char>>::empty());
    e
}

/// The next event of a stream, and what is left of it: the text before
/// the first blank line (`\n\n`) is one event, skipped (`None`) where it
/// is only white space; `None` where no blank line has arrived yet.
pub open spec fn next_event_spec(buffer: Seq<char>) -> Option<(Option<SseEventModel>, Seq<char>)> {
    match split_once_seq(buffer, "\n\n"@) {
        None => None,
        Some((text, rest)) => Some(
            (
                if trim(text).len() == 0 {
                    None
                } else {
                    Some(parse_event_spec(text))
                },
                rest,
            ),
        ),
    }
}

/// Takes the next event off the front of a received stream.
pub fn next_sse_event(buffer: &str) -> (r: Option<(Option<SseEvent>, String)>)
    ensures
        match (r, next_event_spec(buffer@)) {
            (None, None) => true,
            (Some((None, rest)), Some((None, rest2))) => rest@ == rest2,
            (Some((Some(e), rest)), Some((Some(e2), rest2))) => e@ == e2 && rest@ == rest2,
            _ => false,
        },
{
    let b = chars_of(buffer);
    let sep = chars_of("\n\n");
    match split_once_chars(&b, &sep) {
        None => None,
        Some((text, rest)) => {
            let trimmed = trim_chars(&text);
            let restc = string_of(&rest);
            if trimmed.len() == 0 {
                Some((None, restc))
            } else {
                let t = string_of(&text);
                Some((Some(parse_sse_event(t.as_str())), restc))
            }
        },
    }
}

/// Lines joined by `\n`, none after the last.
pub open spec fn nl_join(ls: Seq<Seq<char>>) -> Seq<char>
    decreases ls.len(),
{
    if ls.len() <= 1 {
        if ls.len() == 0 {
            Seq::empty()
        } else {
            ls[0]
        }
    } else {
        ls[0] + "\n"@ + nl_join(ls.drop_first())
    }
}

/// Lines that can stand between `\n`s: each non-empty, none holding `\n`.
pub open spec fn plain_lines(ls: Seq<Seq<char>>) -> bool {
    forall|k: int| 0 <= k < ls.len() ==> (#[trigger] ls[k]).len() > 0 && !ls[k].contains('\n')
}

proof fn lemma_terminated_join(ls: Seq<Seq<char>>)
    requires
        ls.len() > 0,
    ensures
        terminated(ls) == nl_join(ls) + "\n"@,
    decreases ls.len(),
{
    if ls.len() == 1 {
        assert(ls.drop_first() =~= Seq::<Seq<char>>::empty());
        assert(terminated(ls.drop_first()) == Seq::<char>::empty());
        assert(terminated(ls) =~= nl_join(ls) + "\n"@);
    } else {
        lemma_terminated_join(ls.drop_first());
        assert(terminated(ls) =~= nl_join(ls) + "\n"@);
    }
}

proof fn lemma_join_shape(ls: Seq<Seq<char>>)
    requires
        ls.len() > 0,
        plain_lines(ls),
    ensures
        nl_join(ls).len() > 0,
        nl_join(ls)[0] != '\n',
        nl_join(ls).last() != '\n',
        forall|k: int|
            0 <= k < nl_join(ls).len() - 1 ==> !(#[trigger] nl_join(ls)[k] == '\n' && nl_join(ls)[k + 1]
                == '\n'),
    decreases ls.len(),
{
    let l0 = ls[0];
    assert(l0.len() > 0 && !l0.contains('\n'));
    assert(forall|k: int| 0 <= k < l0.len() ==> l0[k] != '\n') by {
        assert forall|k: int| 0 <= k < l0.len() implies l0[k] != '\n' by {
            if l0[k] == '\n' {
                assert(l0.contains(l0[k]));
            }
        }
    }
    if ls.len() > 1 {
        let rest = ls.drop_first();
        assert(plain_lines(rest)) by {
            assert forall|k: int| 0 <= k < rest.len() implies (#[trigger] rest[k]).len() > 0 && !rest[k].contains(
                '\n',
            ) by {
                assert(rest[k] == ls[k + 1]);
            }
        }
        lemma_join_shape(rest);
        let j = nl_join(rest);
        let s = nl_join(ls);
        assert(s == l0 + "\n"@ + j);
        reveal_strlit("\n");
        assert forall|k: int| 0 <= k < s.len() - 1 implies !(#[trigger] s[k] == '\n' && s[k + 1] == '\n') by {
            if k < l0.len() {
                assert(s[k] == l0[k]);
            } else if k == l0.len() {
                assert(s[k + 1] == j[0]);
            } else {
                assert(s[k] == j[k - l0.len() - 1]);
                assert(s[k + 1] == j[k - l0.len()]);
            }
        }
        assert(s[0] == l0[0]);
        assert(s.last() == j.last());
    } else {
        assert(nl_join(ls) == l0);
        assert(l0.last() == l0[l0.len() - 1]);
    }
}

proof fn lemma_find_from_at(s: Seq<char>, t: Seq<char>, i: int, p: int)
    requires
        0 <= i <= p,
        occurs_at(s, t, p),
        forall|k: int| i <= k < p ==> !#[trigger] occurs_at(s, t, k),
    ensures
        find_from(s, t, i) == p,
    decreases p - i,
{
    if i < p {
        lemma_find_from_at(s, t, i + 1, p);
    }
}

proof fn lemma_split_at_blank(ls: Seq<Seq<char>>, rest: Seq<char>)
    requires
        ls.len() > 0,
        plain_lines(ls),
    ensures
        split_once_seq(terminated(ls) + "\n"@ + rest, "\n\n"@) == Some((nl_join(ls), rest)),
{
    lemma_terminated_join(ls);
    lemma_join_shape(ls);
    let j = nl_join(ls);
    let s = terminated(ls) + "\n"@ + rest;
    let t = "\n\n"@;
    reveal_strlit("\n\n");
    reveal_strlit("\n");
    assert(s =~= j + t + rest);
    assert(s.subrange(j.len() as int, j.len() + 2int) =~= t);
    assert(occurs_at(s, t, j.len() as int));
    assert forall|k: int| 0 <= k < j.len() implies !#[trigger] occurs_at(s, t, k) by {
        if occurs_at(s, t, k) {
            assert(s.subrange(k, k + 2)[0] == s[k]);
            assert(s.subrange(k, k + 2)[1] == s[k + 1]);
            if k + 1 < j.len() {
                assert(s[k] == j[k] && s[k + 1] == j[k + 1]);
            } else {
                assert(s[k] == j.last());
            }
        }
    }
    lemma_find_from_at(s, t, 0, j.len() as int);
    assert(s.take(j.len() as int) =~= j);
    assert(s.skip(j.len() + 2int) =~= rest);
}

proof fn lemma_next_char_at(t: Seq<char>, c: char, i: int, p: int)
    requires
        0 <= i <= p <= t.len(),
        p < t.len() ==> t[p] == c,
        forall|k: int| i <= k < p ==> t[k] != c,
    ensures
        next_char(t, c, i) == p,
    decreases p - i,
{
    if i < p {
        lemma_next_char_at(t, c, i + 1, p);
    }
}

proof fn lemma_lines_from_shift(s: Seq<char>, i: int)
    requires
        0 <= i <= s.len(),
    ensures
        crate::text::lines_from(s, i) == lines(s.skip(i)),
    decreases s.len() - i,
{
    let u = s.skip(i);
    if i < s.len() {
        lemma_next_char_bounds(s, '\n', i);
        crate::text::lemma_next_char_skip(s, '\n', i);
        let j = next_char(s, '\n', i);
        assert(next_char(u, '\n', 0) == j - i);
        assert(s.subrange(i, j) =~= u.subrange(0, j - i));
        assert(s.subrange(i, s.len() as int) =~= u.subrange(0, u.len() as int));
        if j < s.len() {
            lemma_lines_from_shift(s, j + 1);
            lemma_lines_from_shift(u, j - i + 1);
            assert(u.skip(j - i + 1) =~= s.skip(j + 1));
        }
    } else {
        assert(u.len() == 0);
    }
}

proof fn lemma_lines_join(ls: Seq<Seq<char>>)
    requires
        ls.len() > 0,
        plain_lines(ls),
        forall|k: int| 0 <= k < ls.len() - 1 ==> (#[trigger] ls[k]).last() != '\r',
    ensures
        lines(nl_join(ls)) == ls,
    decreases ls.len(),
{
    let l0 = ls[0];
    let s = nl_join(ls);
    assert(l0.len() > 0 && !l0.contains('\n'));
    assert forall|k: int| 0 <= k < l0.len() implies l0[k] != '\n' by {
        if l0[k] == '\n' {
            assert(l0.contains(l0[k]));
        }
    }
    reveal_strlit("\n");
    if ls.len() == 1 {
        assert(s == l0);
        lemma_next_char_at(s, '\n', 0, s.len() as int);
        assert(s.subrange(0, s.len() as int) =~= s);
        assert(lines(s) =~= ls);
    } else {
        let rest = ls.drop_first();
        assert(plain_lines(rest)) by {
            assert forall|k: int| 0 <= k < rest.len() implies (#[trigger] rest[k]).len() > 0 && !rest[k].contains(
                '\n',
            ) by {
                assert(rest[k] == ls[k + 1]);
            }
        }
        assert forall|k: int| 0 <= k < rest.len() - 1 implies (#[trigger] rest[k]).last() != '\r' by {
            assert(rest[k] == ls[k + 1]);
        }
        lemma_lines_join(rest);
        let j = nl_join(rest);
        assert(s == l0 + "\n"@ + j);
        assert forall|k: int| 0 <= k < l0.len() implies s[k] != '\n' by {
            assert(s[k] == l0[k]);
        }
        lemma_next_char_at(s, '\n', 0, l0.len() as int);
        assert(s.subrange(0, l0.len() as int) =~= l0);
        assert(l0.last() != '\r');
        lemma_lines_from_shift(s, l0.len() + 1int);
        assert(s.skip(l0.len() + 1int) =~= j);
        assert(lines(s) =~= seq![l0] + rest);
        assert(seq![l0] + rest =~= ls);
    }
}

proof fn lemma_dec_digits(m: nat)
    ensures
        dec(m).len() > 0,
        forall|k: int| 0 <= k < dec(m).len() ==> crate::text::is_digit(#[trigger] dec(m)[k]),
        crate::text::digits_value(dec(m)) == m,
    decreases m,
{
    if m >= 10 {
        lemma_dec_digits(m / 10);
        let d = dec(m);
        assert(d == dec(m / 10).push(crate::text::digit_char(m % 10)));
        assert(d.drop_last() =~= dec(m / 10));
        assert(forall|k: int| 0 <= k < dec(m).len() ==> crate::text::is_digit(#[trigger] dec(m)[k])) by {
            assert forall|k: int| 0 <= k < d.len() implies crate::text::is_digit(#[trigger] d[k]) by {
                if k < d.len() - 1 {
                    assert(d[k] == dec(m / 10)[k]);
                }
            }
        }
        assert(m == (m / 10) * 10 + m % 10);
        let c = crate::text::digit_char(m % 10);
        assert((c as u32) == 48 + m % 10);
        assert(d.last() == c);
    } else {
        let c = crate::text::digit_char(m);
        assert(dec(m) == seq![c]);
        assert((c as u32) == 48 + m);
        assert(dec(m).drop_last() =~= Seq::<char>::empty());
        assert(crate::text::digits_value(Seq::<char>::empty()) == 0);
    }
}

proof fn lemma_parse_u64_dec(m: u64)
    ensures
        parse_u64_spec(dec(m as nat)) == Some(m),
        dec(m as nat)[0] != '+' && dec(m as nat)[0] != '-',
{
    lemma_dec_digits(m as nat);
    let d = dec(m as nat);
    assert(crate::text::is_digit(d[0]));
    assert(unsigned_digits(d) == d);
}

proof fn lemma_parse_int_dec(n: i64)
    ensures
        parse_i64_spec(int_dec(n as int)) == Some(n),
{
    reveal_strlit("-");
    if n < 0 {
        let m: u64 = (0 - n) as u64;
        lemma_parse_u64_dec(m);
        let s = int_dec(n as int);
        assert(s == "-"@ + dec(m as nat));
        assert(s[0] == '-');
        assert(s.drop_first() =~= dec(m as nat));
    } else {
        lemma_parse_u64_dec(n as u64);
    }
}

proof fn lemma_apply_concat(e: SseEventModel, a: Seq<Seq<char>>, b: Seq<Seq<char>>)
    ensures
        apply_lines(e, a + b) == apply_lines(apply_lines(e, a), b),
    decreases a.len(),
{
    if a.len() == 0 {
        assert(a + b =~= b);
    } else {
        assert((a + b).drop_first() =~= a.drop_first() + b);
        assert((a + b)[0] == a[0]);
        lemma_apply_concat(apply_line(e, a[0]), a.drop_first(), b);
    }
}

proof fn lemma_apply_one(e: SseEventModel, l: Seq<char>)
    ensures
        apply_lines(e, seq![l]) == apply_line(e, l),
{
    assert(seq![l].drop_first() =~= Seq::<Seq<char>>::empty());
    assert(seq![l][0] == l);
    assert(apply_lines(apply_line(e, l), Seq::<Seq<char>>::empty()) == apply_line(e, l));
}

proof fn lemma_prefix_of(head: Seq<char>, x: Seq<char>)
    ensures
        has_prefix(head + x, head),
        (head + x).skip(head.len() as int) == x,
{
    assert((head + x).take(head.len() as int) =~= head);
    assert((head + x).skip(head.len() as int) =~= x);
}

proof fn lemma_field_lines(e: SseEventModel)
    requires
        format_spec(e) is Ok,
        e.data matches Some(d) ==> !d.contains('\n'),
    ensures
        apply_lines(empty_event(), field_lines(e)) == e,
        plain_lines(field_lines(e)),
        field_lines(e).len() > 0 <==> (e.event is Some || e.data is Some || e.id is Some || e.retry is Some),
        field_lines(e).len() > 0 ==> !crate::text::is_ws(field_lines(e)[0][0]),
{
    reveal_strlit("event: ");
    reveal_strlit("data: ");
    reveal_strlit("id: ");
    reveal_strlit("retry: ");
    let a = match e.event {
        Some(x) => seq!["event: "@ + x],
        None => Seq::<Seq<char>>::empty(),
    };
    let b = match e.data {
        Some(d) => data_lines(d),
        None => Seq::<Seq<char>>::empty(),
    };
    let c = match e.id {
        Some(x) => seq!["id: "@ + x],
        None => Seq::<Seq<char>>::empty(),
    };
    let r = match e.retry {
        Some(n) => seq!["retry: "@ + int_dec(n as int)],
        None => Seq::<Seq<char>>::empty(),
    };
    assert(field_lines(e) == a + b + c + r);
    let e0 = empty_event();
    let e1 = SseEventModel { event: e.event, ..e0 };
    let e2 = SseEventModel { data: e.data, ..e1 };
    let e3 = SseEventModel { id: e.id, ..e2 };
    match e.event {
        Some(x) => {
            let l = "event: "@ + x;
            lemma_apply_one(e0, l);
            lemma_prefix_of("event: "@, x);
        },
        None => {},
    }
    assert(apply_lines(e0, a) == e1);
    match e.data {
        Some(d) => {
            lemma_next_char_at(d, '\n', 0, d.len() as int);
            assert(pieces(d, '\n') =~= seq![d]);
            let l = "data: "@ + d;
            assert(b =~= seq![l]);
            lemma_apply_one(e1, l);
            lemma_prefix_of("data: "@, d);
            assert(l[0] == 'd');
            assert(!has_prefix(l, "event: "@)) by {
                if has_prefix(l, "event: "@) {
                    assert(l.take(7)[0] == l[0]);
                }
            }
        },
        None => {},
    }
    assert(apply_lines(e1, b) == e2);
    match e.id {
        Some(x) => {
            let l = "id: "@ + x;
            lemma_apply_one(e2, l);
            lemma_prefix_of("id: "@, x);
            assert(l[0] == 'i');
            assert(!has_prefix(l, "event: "@)) by {
                if has_prefix(l, "event: "@) {
                    assert(l.take(7)[0] == l[0]);
                }
            }
            assert(!has_prefix(l, "data: "@)) by {
                if has_prefix(l, "data: "@) {
                    assert(l.take(6)[0] == l[0]);
                }
            }
        },
        None => {},
    }
    assert(apply_lines(e2, c) == e3);
    match e.retry {
        Some(n) => {
            let l = "retry: "@ + int_dec(n as int);
            lemma_apply_one(e3, l);
            lemma_prefix_of("retry: "@, int_dec(n as int));
            lemma_parse_int_dec(n);
            assert(l[0] == 'r');
            assert(!has_prefix(l, "event: "@)) by {
                if has_prefix(l, "event: "@) {
                    assert(l.take(7)[0] == l[0]);
                }
            }
            assert(!has_prefix(l, "data: "@)) by {
                if has_prefix(l, "data: "@) {
                    assert(l.take(6)[0] == l[0]);
                }
            }
            assert(!has_prefix(l, "id: "@)) by {
                if has_prefix(l, "id: "@) {
                    assert(l.take(4)[0] == l[0]);
                }
            }
        },
        None => {},
    }
    assert(apply_lines(e3, r) == e);
    lemma_apply_concat(e0, a, b);
    lemma_apply_concat(e0, a + b, c);
    lemma_apply_concat(e0, a + b + c, r);
    let ls = a + b + c + r;
    assert(plain_lines(ls)) by {
        assert forall|k: int| 0 <= k < ls.len() implies (#[trigger] ls[k]).len() > 0 && !ls[k].contains('\n') by {
            let l = ls[k];
            if k < a.len() {
                assert(l == "event: "@ + e.event->0);
                assert(l.len() > 0);
                if l.contains('\n') {
                    let w = choose|w: int| 0 <= w < l.len() && l[w] == '\n';
                    assert(w >= 7);
                    assert(e.event->0.contains(l[w])) by {
                        assert(e.event->0[w - 7] == l[w]);
                    }
                }
            } else if k < a.len() + b.len() {
                assert(l == "data: "@ + e.data->0);
                if l.contains('\n') {
                    let w = choose|w: int| 0 <= w < l.len() && l[w] == '\n';
                    assert(w >= 6);
                    assert(e.data->0.contains(l[w])) by {
                        assert(e.data->0[w - 6] == l[w]);
                    }
                }
            } else if k < a.len() + b.len() + c.len() {
                assert(l == "id: "@ + e.id->0);
                if l.contains('\n') {
                    let w = choose|w: int| 0 <= w < l.len() && l[w] == '\n';
                    assert(w >= 4);
                    assert(e.id->0.contains(l[w])) by {
                        assert(e.id->0[w - 4] == l[w]);
                    }
                }
            } else {
                let n = e.retry->0;
                assert(l == "retry: "@ + int_dec(n as int));
                if l.contains('\n') {
                    let w = choose|w: int| 0 <= w < l.len() && l[w] == '\n';
                    assert(w >= 7);
                    lemma_int_dec_digits(n as int);
                    assert(int_dec(n as int)[w - 7] == l[w]);
                }
            }
        }
    }
    if ls.len() > 0 {
        if a.len() > 0 {
            assert(ls[0] == a[0]);
        } else if b.len() > 0 {
            assert(ls[0] == b[0]);
        } else if c.len() > 0 {
            assert(ls[0] == c[0]);
        } else {
            assert(ls[0] == r[0]);
        }
    }
}

proof fn lemma_int_dec_digits(n: int)
    ensures
        forall|k: int| 0 <= k < int_dec(n).len() ==> #[trigger] int_dec(n)[k] != '\n',
{
    reveal_strlit("-");
    if n < 0 {
        lemma_dec_digits((-n) as nat);
        let d = dec((-n) as nat);
        assert forall|k: int| 0 <= k < int_dec(n).len() implies #[trigger] int_dec(n)[k] != '\n' by {
            if k > 0 {
                assert(int_dec(n)[k] == d[k - 1]);
                assert(crate::text::is_digit(d[k - 1]));
            }
        }
    } else {
        lemma_dec_digits(n as nat);
    }
}

proof fn lemma_trim_keeps(s: Seq<char>)
    requires
        s.len() > 0,
        !crate::text::is_ws(s[0]),
    ensures
        trim(s).len() > 0,
{
    assert(crate::text::trim_start(s) == s);
    lemma_trim_end_keeps(s);
}

proof fn lemma_trim_end_keeps(s: Seq<char>)
    requires
        s.len() > 0,
        !crate::text::is_ws(s[0]),
    ensures
        crate::text::trim_end(s).len() > 0,
    decreases s.len(),
{
    if s.len() > 1 && crate::text::is_ws(s.last()) {
        assert(s.drop_last()[0] == s[0]);
        lemma_trim_end_keeps(s.drop_last());
    }
}

/// An event survives the wire: the text `format_sse_event` writes for it,
/// read back by `next_sse_event` from the front of a stream, is the same
/// event, and the rest of the stream is left as it was. This holds of
/// every event that can be written and has a field, except one whose data
/// spans lines (only its last line is read back), or ends with `\r` and is
/// followed by an id or a delay (the `\r` is taken as part of the line
/// end).
pub proof fn law_sse_round_trip(e: SseEventModel, rest: Seq<char>)
    requires
        format_spec(e) is Ok,
        e.event is Some || e.data is Some || e.id is Some || e.retry is Some,
        e.data matches Some(d) ==> !d.contains('\n') && (d.len() > 0 && d.last() == '\r' ==> e.id is None
            && e.retry is None),
    ensures
        match format_spec(e) {
            Ok(t) => next_event_spec(t + rest) == Some((Some(e), rest)),
            Err(_) => false,
        },
{
    lemma_field_lines(e);
    let ls = field_lines(e);
    lemma_split_at_blank(ls, rest);
    let t = terminated(ls) + "\n"@;
    assert(t + rest =~= terminated(ls) + "\n"@ + rest);
    let j = nl_join(ls);
    lemma_join_shape(ls);
    assert(j.len() > 0);
    if ls.len() > 1 {
        assert(j[0] == ls[0][0]);
    }
    lemma_trim_keeps(j);
    assert forall|k: int| 0 <= k < ls.len() - 1 implies (#[trigger] ls[k]).last() != '\r' by {
        lemma_last_not_cr(e, k);
    }
    lemma_lines_join(ls);
}

proof fn lemma_last_not_cr(e: SseEventModel, k: int)
    requires
        format_spec(e) is Ok,
        e.data matches Some(d) ==> !d.contains('\n') && (d.len() > 0 && d.last() == '\r' ==> e.id is None
            && e.retry is None),
        0 <= k < field_lines(e).len() - 1,
    ensures
        field_lines(e)[k].last() != '\r',
{
    reveal_strlit("event: ");
    reveal_strlit("data: ");
    let a = match e.event {
        Some(x) => seq!["event: "@ + x],
        None => Seq::<Seq<char>>::empty(),
    };
    let b = match e.data {
        Some(d) => data_lines(d),
        None => Seq::<Seq<char>>::empty(),
    };
    let c = match e.id {
        Some(x) => seq!["id: "@ + x],
        None => Seq::<Seq<char>>::empty(),
    };
    let r = match e.retry {
        Some(n) => seq!["retry: "@ + int_dec(n as int)],
        None => Seq::<Seq<char>>::empty(),
    };
    let ls = a + b + c + r;
    assert(field_lines(e) == ls);
    let l = ls[k];
    if k < a.len() {
        let x = e.event->0;
        assert(l == "event: "@ + x);
        if x.len() > 0 {
            assert(l.last() == x.last());
            if x.last() == '\r' {
                assert(x.contains(x[x.len() - 1]));
            }
        } else {
            assert(l.last() == ' ');
        }
    } else if k < a.len() + b.len() {
        let d = e.data->0;
        lemma_next_char_at(d, '\n', 0, d.len() as int);
        assert(pieces(d, '\n') =~= seq![d]);
        assert(b =~= seq!["data: "@ + d]);
        assert(l == "data: "@ + d);
        assert(c.len() + r.len() > 0);
        if d.len() > 0 {
            assert(l.last() == d.last());
        } else {
            assert(l.last() == ' ');
        }
    } else {
        assert(k < a.len() + b.len() + c.len());
        let x = e.id->0;
        reveal_strlit("id: ");
        assert(l == "id: "@ + x);
        if x.len() > 0 {
            assert(l.last() == x.last());
            if x.last() == '\r' {
                assert(x.contains(x[x.len() - 1]));
            }
        } else {
            assert(l.last() == ' ');
        }
    }
}

} // verus!
