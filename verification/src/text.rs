//! Character-level helpers shared by the parsers and matchers.
//!
//! Everything here works on sequences of `char`, the view Verus gives a
//! `str` or a `String`, so each matcher can state its contract over `s@`.

use vstd::prelude::*;

verus! {

/// White space as `char::is_whitespace` defines it (the Unicode
/// `White_Space` property).
pub open spec fn is_ws(c: char) -> bool {
    ||| ('\u{9}' <= c && c <= '\u{d}')
    ||| c == ' '
    ||| c == '\u{85}'
    ||| c == '\u{a0}'
    ||| c == '\u{1680}'
    ||| ('\u{2000}' <= c && c <= '\u{200a}')
    ||| c == '\u{2028}'
    ||| c == '\u{2029}'
    ||| c == '\u{202f}'
    ||| c == '\u{205f}'
    ||| c == '\u{3000}'
}

/// `s` with leading white space removed.
pub open spec fn trim_start(s: Seq<char>) -> Seq<char>
    decreases s.len(),
{
    if s.len() > 0 && is_ws(s[0]) {
        trim_start(s.drop_first())
    } else {
        s
    }
}

/// `s` with trailing white space removed.
pub open spec fn trim_end(s: Seq<char>) -> Seq<char>
    decreases s.len(),
{
    if s.len() > 0 && is_ws(s.last()) {
        trim_end(s.drop_last())
    } else {
        s
    }
}

/// `s` with white space removed from both ends, as `str::trim` does.
pub open spec fn trim(s: Seq<char>) -> Seq<char> {
    trim_end(trim_start(s))
}

/// ASCII lower-casing of one character; every other character is kept.
pub open spec fn lower_char(c: char) -> char {
    if 'A' <= c && c <= 'Z' {
        ((c as u32) + 32) as char
    } else {
        c
    }
}

/// ASCII lower-casing of a whole sequence, as `to_ascii_lowercase` does.
pub open spec fn lower(s: Seq<char>) -> Seq<char> {
    s.map_values(|c: char| lower_char(c))
}

/// Whether `s` begins with `p`.
pub open spec fn has_prefix(s: Seq<char>, p: Seq<char>) -> bool {
    p.len() <= s.len() && s.take(p.len() as int) == p
}

/// Whether `s` ends with `p`.
pub open spec fn has_suffix(s: Seq<char>, p: Seq<char>) -> bool {
    p.len() <= s.len() && s.skip(s.len() - p.len()) == p
}

/// Whether `t` occurs in `s` starting at position `i`.
pub open spec fn occurs_at(s: Seq<char>, t: Seq<char>, i: int) -> bool {
    0 <= i && i + t.len() <= s.len() && s.subrange(i, i + t.len()) == t
}

/// Whether `t` occurs anywhere in `s`.
pub open spec fn contains_seq(s: Seq<char>, t: Seq<char>) -> bool {
    exists|i: int| #[trigger] occurs_at(s, t, i)
}

/// The characters of a string slice, in order.
pub fn chars_of(s: &str) -> (v: Vec<char>)
    ensures
        v@ == s@,
{
    let mut v: Vec<char> = Vec::new();
    for c in it: s.chars()
        invariant
            v@ == it.seq().take(it.index() as int),
            it.seq() == s@,
    {
        v.push(c);
    }
    v
}

/// `String::push`.
#[verifier::external_body]
fn push_char(s: &mut String, c: char)
    ensures
        final(s)@ == old(s)@.push(c),
{
    s.push(c);
}

/// A string holding exactly the given characters.
pub fn string_of(v: &[char]) -> (s: String)
    ensures
        s@ == v@,
{
    let mut s = String::new();
    let mut i: usize = 0;
    while i < v.len()
        invariant
            i <= v.len(),
            s@ == v@.take(i as int),
        decreases v.len() - i,
    {
        push_char(&mut s, v[i]);
        i += 1;
        assert(s@ == v@.take(i as int));
    }
    assert(v@.take(v.len() as int) == v@);
    s
}

/// A string holding the characters of a literal.
pub fn string_from(s: &str) -> (r: String)
    ensures
        r@ == s@,
{
    let v = chars_of(s);
    string_of(&v)
}

/// `char::is_whitespace`.
pub fn is_ws_char(c: char) -> (b: bool)
    ensures
        b == is_ws(c),
{
    ('\u{9}' <= c && c <= '\u{d}') || c == ' ' || c == '\u{85}' || c == '\u{a0}' || c == '\u{1680}'
        || ('\u{2000}' <= c && c <= '\u{200a}') || c == '\u{2028}' || c == '\u{2029}' || c
        == '\u{202f}' || c == '\u{205f}' || c == '\u{3000}'
}

/// ASCII lower-casing of one character.
pub fn lower_one(c: char) -> (r: char)
    ensures
        r == lower_char(c),
{
    if 'A' <= c && c <= 'Z' {
        let b = c as u8;
        assert(b + 32 < 128);
        let r = (b + 32) as char;
        assert(r as u32 == (c as u32) + 32);
        r
    } else {
        c
    }
}

/// ASCII lower-casing of a sequence of characters.
pub fn lower_chars(v: &[char]) -> (r: Vec<char>)
    ensures
        r@ == lower(v@),
{
    let mut r: Vec<char> = Vec::new();
    let mut i: usize = 0;
    while i < v.len()
        invariant
            i <= v.len(),
            r@ == lower(v@.take(i as int)),
        decreases v.len() - i,
    {
        let c = lower_one(v[i]);
        r.push(c);
        i += 1;
        assert(r@ =~= lower(v@.take(i as int)));
    }
    assert(v@.take(v.len() as int) == v@);
    r
}

proof fn lemma_trim_start_skip(s: Seq<char>, i: int)
    requires
        0 <= i <= s.len(),
        forall|k: int| 0 <= k < i ==> is_ws(#[trigger] s[k]),
    ensures
        trim_start(s) == trim_start(s.skip(i)),
    decreases i,
{
    if i > 0 {
        assert(is_ws(s[0]));
        assert(s.drop_first().skip(i - 1) =~= s.skip(i));
        assert forall|k: int| 0 <= k < i - 1 implies is_ws(#[trigger] s.drop_first()[k]) by {
            assert(s.drop_first()[k] == s[k + 1]);
        }
        lemma_trim_start_skip(s.drop_first(), i - 1);
    } else {
        assert(s.skip(0) =~= s);
    }
}

proof fn lemma_trim_end_take(s: Seq<char>, j: int)
    requires
        0 <= j <= s.len(),
        forall|k: int| j <= k < s.len() ==> is_ws(#[trigger] s[k]),
    ensures
        trim_end(s) == trim_end(s.take(j)),
    decreases s.len() - j,
{
    if j < s.len() {
        assert(s.drop_last().take(j) =~= s.take(j));
        lemma_trim_end_take(s.drop_last(), j);
    } else {
        assert(s.take(j) =~= s);
    }
}

/// `str::trim` on a sequence of characters.
pub fn trim_chars(v: &[char]) -> (r: Vec<char>)
    ensures
        r@ == trim(v@),
{
    let n = v.len();
    let mut i: usize = 0;
    while i < n && is_ws_char(v[i])
        invariant
            i <= n,
            n == v@.len(),
            forall|k: int| 0 <= k < i ==> is_ws(#[trigger] v@[k]),
        decreases n - i,
    {
        i += 1;
    }
    let mut j: usize = n;
    while j > i && is_ws_char(v[j - 1])
        invariant
            i <= j <= n,
            n == v@.len(),
            forall|k: int| j <= k < n ==> is_ws(#[trigger] v@[k]),
        decreases j,
    {
        j -= 1;
    }
    let mut r: Vec<char> = Vec::new();
    let mut k: usize = i;
    while k < j
        invariant
            i <= k <= j,
            j <= n,
            n == v@.len(),
            r@ == v@.subrange(i as int, k as int),
        decreases j - k,
    {
        r.push(v[k]);
        k += 1;
        assert(r@ =~= v@.subrange(i as int, k as int));
    }
    proof {
        lemma_trim_start_skip(v@, i as int);
        let t = v@.skip(i as int);
        if i < n {
            assert(!is_ws(t[0]));
        }
        assert(trim_start(t) == t);
        assert forall|k: int| j - i <= k < t.len() implies is_ws(#[trigger] t[k]) by {
            assert(t[k] == v@[k + i]);
        }
        lemma_trim_end_take(t, j - i);
        let u = t.take(j - i);
        if j > i {
            assert(u.last() == v@[j - 1]);
            assert(!is_ws(u.last()));
        }
        assert(trim_end(u) == u);
        assert(u =~= v@.subrange(i as int, j as int));
    }
    r
}

/// Whether two character sequences are equal.
pub fn chars_eq(a: &[char], b: &[char]) -> (r: bool)
    ensures
        r == (a@ == b@),
{
    if a.len() != b.len() {
        return false;
    }
    let mut i: usize = 0;
    while i < a.len()
        invariant
            i <= a.len(),
            a.len() == b.len(),
            a@.take(i as int) == b@.take(i as int),
        decreases a.len() - i,
    {
        if a[i] != b[i] {
            return false;
        }
        i += 1;
        assert(a@.take(i as int) =~= b@.take(i as int));
    }
    assert(a@.take(a.len() as int) =~= a@);
    assert(b@.take(b.len() as int) =~= b@);
    true
}

/// Whether `t` occurs in `s` at position `at`.
pub fn occurs_at_exec(s: &[char], t: &[char], at: usize) -> (r: bool)
    ensures
        r == occurs_at(s@, t@, at as int),
{
    if at > s.len() || t.len() > s.len() - at {
        return false;
    }
    let mut i: usize = 0;
    while i < t.len()
        invariant
            i <= t.len(),
            at + t.len() <= s.len(),
            s@.subrange(at as int, at + i) == t@.take(i as int),
        decreases t.len() - i,
    {
        if s[at + i] != t[i] {
            assert(s@.subrange(at as int, at + t.len())[i as int] != t@[i as int]);
            return false;
        }
        i += 1;
        assert(s@.subrange(at as int, at + i) =~= t@.take(i as int));
    }
    assert(t@.take(t.len() as int) =~= t@);
    true
}

/// Whether `p` is a prefix of `s`.
pub fn starts_with(s: &[char], p: &[char]) -> (r: bool)
    ensures
        r == has_prefix(s@, p@),
{
    let r = occurs_at_exec(s, p, 0);
    proof {
        if p@.len() <= s@.len() {
            assert(s@.subrange(0, p@.len() as int) =~= s@.take(p@.len() as int));
        }
    }
    r
}

/// Whether `p` is a suffix of `s`.
pub fn ends_with(s: &[char], p: &[char]) -> (r: bool)
    ensures
        r == has_suffix(s@, p@),
{
    if p.len() > s.len() {
        return false;
    }
    let r = occurs_at_exec(s, p, s.len() - p.len());
    proof {
        assert(s@.subrange(s@.len() - p@.len(), s@.len() as int) =~= s@.skip(s@.len() - p@.len()));
    }
    r
}

/// Whether `t` occurs anywhere in `s`.
pub fn contains_chars(s: &[char], t: &[char]) -> (r: bool)
    ensures
        r == contains_seq(s@, t@),
{
    if t.len() > s.len() {
        proof {
            assert forall|i: int| !#[trigger] occurs_at(s@, t@, i) by {}
        }
        return false;
    }
    let last = s.len() - t.len();
    let mut i: usize = 0;
    while i < last
        invariant
            i <= last,
            last + t.len() == s.len(),
            forall|k: int| 0 <= k < i ==> !#[trigger] occurs_at(s@, t@, k),
        decreases last - i,
    {
        if occurs_at_exec(s, t, i) {
            return true;
        }
        i += 1;
    }
    if occurs_at_exec(s, t, last) {
        return true;
    }
    proof {
        assert forall|k: int| !#[trigger] occurs_at(s@, t@, k) by {
            if 0 <= k < last {
            } else if k == last {
            }
        }
    }
    false
}

/// ASCII upper-casing of one character; every other character is kept.
pub open spec fn upper_char(c: char) -> char {
    if 'a' <= c && c <= 'z' {
        ((c as u32) - 32) as char
    } else {
        c
    }
}

/// ASCII upper-casing of a whole sequence, as `to_ascii_uppercase` does.
pub open spec fn upper(s: Seq<char>) -> Seq<char> {
    s.map_values(|c: char| upper_char(c))
}

/// ASCII upper-casing of a sequence of characters.
pub fn upper_chars(v: &[char]) -> (r: Vec<char>)
    ensures
        r@ == upper(v@),
{
    let mut r: Vec<char> = Vec::new();
    let mut i: usize = 0;
    while i < v.len()
        invariant
            i <= v.len(),
            r@ == upper(v@.take(i as int)),
        decreases v.len() - i,
    {
        let c = v[i];
        let u = if 'a' <= c && c <= 'z' {
            let b = c as u8;
            let u = (b - 32) as char;
            assert(u as u32 == (c as u32) - 32);
            u
        } else {
            c
        };
        r.push(u);
        i += 1;
        assert(r@ =~= upper(v@.take(i as int)));
    }
    assert(v@.take(v.len() as int) == v@);
    r
}

/// The decimal digit for a value below ten.
pub open spec fn digit_char(d: nat) -> char {
    (('0' as u32) + d) as char
}

/// The decimal spelling of a number, as `{}` formats it.
pub open spec fn dec(n: nat) -> Seq<char>
    decreases n,
{
    if n < 10 {
        seq![digit_char(n)]
    } else {
        dec(n / 10).push(digit_char(n % 10))
    }
}

/// The decimal spelling of a number.
pub fn dec_chars(n: u64) -> (r: Vec<char>)
    ensures
        r@ == dec(n as nat),
    decreases n,
{
    let d = (n % 10) as u8;
    let c = ('0' as u8 + d) as char;
    assert(c == digit_char((n % 10) as nat));
    if n < 10 {
        let mut r: Vec<char> = Vec::new();
        r.push(c);
        assert(r@ =~= seq![c]);
        r
    } else {
        let mut r = dec_chars(n / 10);
        r.push(c);
        r
    }
}

/// Append the characters of `s` to `v`.
pub fn push_str(v: &mut Vec<char>, s: &str)
    ensures
        final(v)@ == old(v)@ + s@,
{
    let t = chars_of(s);
    push_chars(v, &t);
}

/// Append `t` to `v`.
pub fn push_chars(v: &mut Vec<char>, t: &[char])
    ensures
        final(v)@ == old(v)@ + t@,
{
    let ghost start = v@;
    let mut i: usize = 0;
    while i < t.len()
        invariant
            i <= t.len(),
            v@ == start + t@.take(i as int),
        decreases t.len() - i,
    {
        v.push(t[i]);
        i += 1;
        assert(v@ =~= start + t@.take(i as int));
    }
    assert(t@.take(t.len() as int) =~= t@);
}

/// Whether two strings are equal ignoring ASCII case, as
/// `eq_ignore_ascii_case` decides.
pub fn eq_ignore_case(a: &[char], b: &[char]) -> (r: bool)
    ensures
        r == (lower(a@) == lower(b@)),
{
    let la = lower_chars(a);
    let lb = lower_chars(b);
    chars_eq(&la, &lb)
}

/// Whether a list of strings holds one equal to `s`.
pub open spec fn has_str(v: Seq<String>, s: Seq<char>) -> bool {
    exists|k: int| 0 <= k < v.len() && (#[trigger] v[k])@ == s
}

/// Whether a list of strings holds one equal to `s`.
pub fn contains_str(v: &[String], s: &str) -> (r: bool)
    ensures
        r == has_str(v@, s@),
{
    let sv = chars_of(s);
    let mut i: usize = 0;
    while i < v.len()
        invariant
            i <= v.len(),
            sv@ == s@,
            forall|k: int| 0 <= k < i ==> (#[trigger] v@[k])@ != s@,
        decreases v.len() - i,
    {
        let e = chars_of(v[i].as_str());
        if chars_eq(&e, &sv) {
            return true;
        }
        i += 1;
    }
    false
}

/// Whether a character is an ASCII digit.
pub open spec fn is_digit(c: char) -> bool {
    '0' <= c && c <= '9'
}

/// The value of a run of decimal digits.
pub open spec fn digits_value(s: Seq<char>) -> nat
    decreases s.len(),
{
    if s.len() == 0 {
        0
    } else {
        digits_value(s.drop_last()) * 10 + ((s.last() as u32) - ('0' as u32)) as nat
    }
}

/// The digits `u64::from_str` reads: the text after an optional leading `+`.
pub open spec fn unsigned_digits(s: Seq<char>) -> Seq<char> {
    if s.len() > 0 && s[0] == '+' {
        s.drop_first()
    } else {
        s
    }
}

/// What `str::parse::<u64>` accepts: an optional `+`, then one or more
/// ASCII digits whose value fits.
pub open spec fn parse_u64_spec(s: Seq<char>) -> Option<u64> {
    let d = unsigned_digits(s);
    if d.len() == 0 || !(forall|k: int| 0 <= k < d.len() ==> is_digit(#[trigger] d[k])) || digits_value(d)
        > u64::MAX {
        None
    } else {
        Some(digits_value(d) as u64)
    }
}

proof fn lemma_digits_value_prefix(d: Seq<char>, i: int)
    requires
        0 <= i <= d.len(),
        forall|k: int| 0 <= k < d.len() ==> is_digit(#[trigger] d[k]),
    ensures
        digits_value(d.take(i)) <= digits_value(d),
    decreases d.len() - i,
{
    if i < d.len() {
        assert(d.drop_last().take(i) =~= d.take(i));
        assert forall|k: int| 0 <= k < d.drop_last().len() implies is_digit(#[trigger] d.drop_last()[k]) by {
            assert(d.drop_last()[k] == d[k]);
        }
        lemma_digits_value_prefix(d.drop_last(), i);
    } else {
        assert(d.take(i) =~= d);
    }
}

/// `str::parse::<u64>`.
pub fn parse_u64(s: &[char]) -> (r: Option<u64>)
    ensures
        r == parse_u64_spec(s@),
{
    let start: usize = if s.len() > 0 && s[0] == '+' { 1 } else { 0 };
    let ghost d = unsigned_digits(s@);
    assert(d =~= s@.skip(start as int));
    if start == s.len() {
        return None;
    }
    let mut v: u64 = 0;
    let mut i: usize = start;
    while i < s.len()
        invariant
            start <= i <= s.len(),
            d == s@.skip(start as int),
            d == unsigned_digits(s@),
            forall|k: int| 0 <= k < i - start ==> is_digit(#[trigger] d[k]),
            v as nat == digits_value(d.take(i - start)),
        decreases s.len() - i,
    {
        let c = s[i];
        if !('0' <= c && c <= '9') {
            assert(!is_digit(d[i - start]));
            return None;
        }
        let digit = (c as u32 - '0' as u32) as u64;
        assert(d.take(i - start + 1).drop_last() =~= d.take(i - start));
        assert(d.take(i - start + 1).last() == c);
        assert(digits_value(d.take(i - start + 1)) == digits_value(d.take(i - start)) * 10 + digit);
        match v.checked_mul(10) {
            Some(m) => match m.checked_add(digit) {
                Some(n) => {
                    v = n;
                },
                None => {
                    proof {
                        assert forall|k: int| 0 <= k < i - start + 1 implies is_digit(#[trigger] d.take(
                            i - start + 1,
                        )[k]) by {}
                        if forall|k: int| 0 <= k < d.len() ==> is_digit(#[trigger] d[k]) {
                            lemma_digits_value_prefix(d, i - start + 1);
                        }
                    }
                    return None;
                },
            },
            None => {
                proof {
                    if forall|k: int| 0 <= k < d.len() ==> is_digit(#[trigger] d[k]) {
                        lemma_digits_value_prefix(d, i - start + 1);
                    }
                }
                return None;
            },
        }
        i += 1;
    }
    assert(d.take(i - start) =~= d);
    Some(v)
}

/// The position of the first `c` at or after `i`, or the end.
pub open spec fn next_char(t: Seq<char>, c: char, i: int) -> int
    decreases t.len() - i,
{
    if i < 0 || i >= t.len() {
        t.len() as int
    } else if t[i] == c {
        i
    } else {
        next_char(t, c, i + 1)
    }
}

pub proof fn lemma_next_char_bounds(t: Seq<char>, c: char, i: int)
    requires
        0 <= i <= t.len(),
    ensures
        i <= next_char(t, c, i) <= t.len(),
        next_char(t, c, i) < t.len() ==> t[next_char(t, c, i)] == c,
        forall|k: int| i <= k < next_char(t, c, i) ==> #[trigger] t[k] != c,
    decreases t.len() - i,
{
    if i < t.len() && t[i] != c {
        lemma_next_char_bounds(t, c, i + 1);
    }
}

/// The lines of `s` from position `i` on, as `str::lines` yields them: split
/// at `\n`, with a `\r` just before a `\n` dropped too; no line follows a
/// final `\n`.
pub open spec fn lines_from(s: Seq<char>, i: int) -> Seq<Seq<char>>
    decreases s.len() - i,
{
    if i < 0 || i >= s.len() {
        Seq::empty()
    } else {
        let j = next_char(s, '\n', i);
        if j >= s.len() {
            seq![s.subrange(i, s.len() as int)]
        } else {
            let seg = s.subrange(i, j);
            let line = if seg.len() > 0 && seg.last() == '\r' {
                seg.drop_last()
            } else {
                seg
            };
            proof {
                lemma_next_char_bounds(s, '\n', i);
            }
            seq![line] + lines_from(s, j + 1)
        }
    }
}

/// The lines of `s`, as `str::lines` yields them.
pub open spec fn lines(s: Seq<char>) -> Seq<Seq<char>> {
    lines_from(s, 0)
}

fn copy_chars(v: &[char], a: usize, b: usize) -> (r: Vec<char>)
    requires
        a <= b <= v@.len(),
    ensures
        r@ == v@.subrange(a as int, b as int),
{
    let mut r: Vec<char> = Vec::new();
    let mut i: usize = a;
    while i < b
        invariant
            a <= i <= b,
            b <= v@.len(),
            r@ == v@.subrange(a as int, i as int),
        decreases b - i,
    {
        r.push(v[i]);
        i += 1;
        assert(r@ =~= v@.subrange(a as int, i as int));
    }
    r
}

/// The part of `v` from `a` up to `b`.
pub fn sub_chars(v: &[char], a: usize, b: usize) -> (r: Vec<char>)
    requires
        a <= b <= v@.len(),
    ensures
        r@ == v@.subrange(a as int, b as int),
{
    copy_chars(v, a, b)
}

/// The position of the first `c` at or after `i`, or the end.
pub fn find_char(v: &[char], c: char, i: usize) -> (r: usize)
    requires
        i <= v@.len(),
    ensures
        r == next_char(v@, c, i as int),
        i <= r <= v@.len(),
{
    proof {
        lemma_next_char_bounds(v@, c, i as int);
    }
    let mut j: usize = i;
    while j < v.len() && v[j] != c
        invariant
            i <= j <= v@.len(),
            next_char(v@, c, i as int) == next_char(v@, c, j as int),
        decreases v@.len() - j,
    {
        j += 1;
    }
    j
}

/// The lines of `s`, as `str::lines` yields them.
pub fn lines_of(s: &[char]) -> (r: Vec<Vec<char>>)
    ensures
        r@.len() == lines(s@).len(),
        forall|k: int| 0 <= k < r@.len() ==> (#[trigger] r@[k])@ == lines(s@)[k],
{
    let mut out: Vec<Vec<char>> = Vec::new();
    let ghost mut done: Seq<Seq<char>> = Seq::empty();
    let mut i: usize = 0;
    while i < s.len()
        invariant
            i <= s@.len(),
            out@.len() == done.len(),
            forall|k: int| 0 <= k < out@.len() ==> (#[trigger] out@[k])@ == done[k],
            lines(s@) == done + lines_from(s@, i as int),
        decreases s@.len() - i,
    {
        let j = find_char(s, '\n', i);
        if j >= s.len() {
            let seg = copy_chars(s, i, s.len());
            proof {
                done = done.push(seg@);
            }
            out.push(seg);
            assert(lines_from(s@, s@.len() as int) =~= Seq::<Seq<char>>::empty());
            i = s.len();
            assert(lines(s@) =~= done + lines_from(s@, i as int));
        } else {
            let mut seg = copy_chars(s, i, j);
            if seg.len() > 0 && seg[seg.len() - 1] == '\r' {
                seg.pop();
                assert(seg@ =~= s@.subrange(i as int, j as int).drop_last());
            }
            proof {
                done = done.push(seg@);
            }
            out.push(seg);
            i = j + 1;
            assert(lines(s@) =~= done + lines_from(s@, i as int));
        }
    }
    assert(lines_from(s@, i as int) =~= Seq::<Seq<char>>::empty());
    assert(lines(s@) =~= done);
    out
}

/// Whether a character is ASCII white space, as `u8::is_ascii_whitespace`
/// decides: space, tab, line feed, form feed and carriage return.
pub open spec fn is_ascii_ws(c: char) -> bool {
    c == ' ' || c == '\t' || c == '\n' || c == '\u{c}' || c == '\r'
}

/// The first piece of `s` cut at the first `c`, and what follows that `c`,
/// as `splitn(2, c)` yields them.
pub open spec fn split_once_at(s: Seq<char>, c: char) -> (Seq<char>, Option<Seq<char>>) {
    let j = next_char(s, c, 0);
    if j >= s.len() {
        (s, None)
    } else {
        (s.take(j), Some(s.skip(j + 1)))
    }
}

/// `splitn(2, c)`: the text before the first `c`, and what follows it.
pub fn split_once_char(s: &[char], c: char) -> (r: (Vec<char>, Option<Vec<char>>))
    ensures
        r.0@ == split_once_at(s@, c).0,
        match (r.1, split_once_at(s@, c).1) {
            (Some(a), Some(b)) => a@ == b,
            (None, None) => true,
            _ => false,
        },
{
    let j = find_char(s, c, 0);
    if j >= s.len() {
        let all = copy_chars(s, 0, s.len());
        assert(all@ =~= s@);
        (all, None)
    } else {
        let a = copy_chars(s, 0, j);
        let b = copy_chars(s, j + 1, s.len());
        assert(a@ =~= s@.take(j as int));
        assert(b@ =~= s@.skip(j + 1));
        (a, Some(b))
    }
}

} // verus!

verus! {

/// Whether a character separates words: ASCII white space for
/// `split_ascii_whitespace`, Unicode white space for `split_whitespace`.
pub open spec fn is_sep(c: char, unicode: bool) -> bool {
    if unicode {
        is_ws(c)
    } else {
        is_ascii_ws(c)
    }
}

/// The first position at or after `i` that is not a separator.
pub open spec fn skip_seps(s: Seq<char>, i: int, unicode: bool) -> int
    decreases s.len() - i,
{
    if 0 <= i < s.len() && is_sep(s[i], unicode) {
        skip_seps(s, i + 1, unicode)
    } else {
        i
    }
}

/// The first position at or after `i` that is a separator, or the end.
pub open spec fn word_end(s: Seq<char>, i: int, unicode: bool) -> int
    decreases s.len() - i,
{
    if 0 <= i < s.len() && !is_sep(s[i], unicode) {
        word_end(s, i + 1, unicode)
    } else {
        i
    }
}

pub proof fn lemma_skip_word_bounds(s: Seq<char>, i: int, unicode: bool)
    requires
        0 <= i <= s.len(),
    ensures
        i <= skip_seps(s, i, unicode) <= s.len(),
        i <= word_end(s, i, unicode) <= s.len(),
        i < s.len() && !is_sep(s[i], unicode) ==> word_end(s, i, unicode) > i,
        skip_seps(s, i, unicode) < s.len() ==> !is_sep(s[skip_seps(s, i, unicode)], unicode),
    decreases s.len() - i,
{
    if i < s.len() {
        lemma_skip_word_bounds(s, i + 1, unicode);
    }
}

/// The words of `s` from position `i` on: maximal runs of characters that
/// are not separators.
pub open spec fn words_from(s: Seq<char>, i: int, unicode: bool) -> Seq<Seq<char>>
    decreases s.len() - i,
{
    if i < 0 || i > s.len() {
        Seq::empty()
    } else {
        let a = skip_seps(s, i, unicode);
        proof {
            lemma_skip_word_bounds(s, i, unicode);
        }
        if a >= s.len() {
            Seq::empty()
        } else {
            proof {
                lemma_skip_word_bounds(s, a, unicode);
            }
            let b = word_end(s, a, unicode);
            seq![s.subrange(a, b)] + words_from(s, b, unicode)
        }
    }
}

/// The words of `s`, as `str::split_ascii_whitespace` yields them.
pub open spec fn words(s: Seq<char>) -> Seq<Seq<char>> {
    words_from(s, 0, false)
}

/// The words of `s`, as `str::split_whitespace` yields them.
pub open spec fn words_ws(s: Seq<char>) -> Seq<Seq<char>> {
    words_from(s, 0, true)
}

fn is_ascii_ws_char(c: char) -> (b: bool)
    ensures
        b == is_ascii_ws(c),
{
    c == ' ' || c == '\t' || c == '\n' || c == '\u{c}' || c == '\r'
}

fn is_sep_char(c: char, unicode: bool) -> (b: bool)
    ensures
        b == is_sep(c, unicode),
{
    if unicode {
        is_ws_char(c)
    } else {
        is_ascii_ws_char(c)
    }
}

fn split_words(s: &[char], unicode: bool) -> (r: Vec<Vec<char>>)
    ensures
        r@.len() == words_from(s@, 0, unicode).len(),
        forall|k: int| 0 <= k < r@.len() ==> (#[trigger] r@[k])@ == words_from(s@, 0, unicode)[k],
{
    let mut out: Vec<Vec<char>> = Vec::new();
    let ghost mut done: Seq<Seq<char>> = Seq::empty();
    let mut i: usize = 0;
    let mut more = true;
    while more
        invariant
            i <= s@.len(),
            out@.len() == done.len(),
            forall|k: int| 0 <= k < out@.len() ==> (#[trigger] out@[k])@ == done[k],
            more ==> words_from(s@, 0, unicode) == done + words_from(s@, i as int, unicode),
            !more ==> words_from(s@, 0, unicode) == done,
        decreases s@.len() - i + (if more { 1int } else { 0int }),
    {
        proof {
            lemma_skip_word_bounds(s@, i as int, unicode);
        }
        let mut a: usize = i;
        while a < s.len() && is_sep_char(s[a], unicode)
            invariant
                i <= a <= s@.len(),
                skip_seps(s@, i as int, unicode) == skip_seps(s@, a as int, unicode),
            decreases s@.len() - a,
        {
            a += 1;
        }
        if a >= s.len() {
            more = false;
            assert(words_from(s@, i as int, unicode) =~= Seq::<Seq<char>>::empty());
            assert(words_from(s@, 0, unicode) =~= done);
        } else {
            proof {
                lemma_skip_word_bounds(s@, a as int, unicode);
            }
            let mut b: usize = a;
            while b < s.len() && !is_sep_char(s[b], unicode)
                invariant
                    a <= b <= s@.len(),
                    word_end(s@, a as int, unicode) == word_end(s@, b as int, unicode),
                decreases s@.len() - b,
            {
                b += 1;
            }
            let w = copy_chars(s, a, b);
            proof {
                done = done.push(w@);
            }
            out.push(w);
            i = b;
            assert(words_from(s@, 0, unicode) =~= done + words_from(s@, i as int, unicode));
        }
    }
    out
}

/// The words of `s`, split at ASCII white space.
pub fn words_of(s: &[char]) -> (r: Vec<Vec<char>>)
    ensures
        r@.len() == words(s@).len(),
        forall|k: int| 0 <= k < r@.len() ==> (#[trigger] r@[k])@ == words(s@)[k],
{
    split_words(s, false)
}

/// The words of `s`, split at Unicode white space.
pub fn words_ws_of(s: &[char]) -> (r: Vec<Vec<char>>)
    ensures
        r@.len() == words_ws(s@).len(),
        forall|k: int| 0 <= k < r@.len() ==> (#[trigger] r@[k])@ == words_ws(s@)[k],
{
    split_words(s, true)
}

} // verus!

verus! {

/// The characters of each string, in order.
pub open spec fn views(v: Seq<String>) -> Seq<Seq<char>> {
    v.map_values(|s: String| s@)
}

/// The pieces joined with `sep` between each two, as `join` does.
pub open spec fn join_sep(ps: Seq<Seq<char>>, sep: Seq<char>) -> Seq<char>
    decreases ps.len(),
{
    if ps.len() == 0 {
        Seq::empty()
    } else if ps.len() == 1 {
        ps[0]
    } else {
        join_sep(ps.drop_last(), sep) + sep + ps.last()
    }
}

/// `[String]::join`.
pub fn join_strings(parts: &[String], sep: &str) -> (r: String)
    ensures
        r@ == join_sep(views(parts@), sep@),
{
    let mut out: Vec<char> = Vec::new();
    let mut i: usize = 0;
    while i < parts.len()
        invariant
            i <= parts@.len(),
            out@ == join_sep(views(parts@.take(i as int)), sep@),
        decreases parts@.len() - i,
    {
        let p = chars_of(parts[i].as_str());
        let ghost before = parts@.take(i as int);
        if i > 0 {
            push_str(&mut out, sep);
        }
        push_chars(&mut out, &p);
        i += 1;
        proof {
            let now = views(parts@.take(i as int));
            assert(now.drop_last() =~= views(before));
            assert(now.last() == parts@[i - 1]@);
            if i == 1 {
                assert(now =~= seq![parts@[0]@]);
            }
        }
    }
    assert(parts@.take(i as int) =~= parts@);
    string_of(&out)
}

} // verus!

verus! {

/// The pieces of `s` between the occurrences of `c`, as `str::split(c)`
/// yields them: one more piece than there are `c`s, empty ones included.
pub open spec fn pieces(s: Seq<char>, c: char) -> Seq<Seq<char>>
    decreases s.len(),
{
    let j = next_char(s, c, 0);
    if j >= s.len() {
        seq![s]
    } else {
        proof {
            lemma_next_char_bounds(s, c, 0);
        }
        seq![s.take(j)] + pieces(s.skip(j + 1), c)
    }
}

pub proof fn lemma_next_char_skip(s: Seq<char>, c: char, i: int)
    requires
        0 <= i <= s.len(),
    ensures
        next_char(s, c, i) == i + next_char(s.skip(i), c, 0),
    decreases s.len() - i,
{
    lemma_next_char_bounds(s, c, i);
    lemma_next_char_bounds(s.skip(i), c, 0);
    if i < s.len() && s[i] != c {
        lemma_next_char_skip(s, c, i + 1);
        assert(s.skip(i).skip(1) =~= s.skip(i + 1));
        lemma_next_char_shift(s.skip(i), c);
    }
}

proof fn lemma_next_char_shift(t: Seq<char>, c: char)
    requires
        t.len() > 0,
        t[0] != c,
    ensures
        next_char(t, c, 0) == 1 + next_char(t.skip(1), c, 0),
{
    lemma_next_char_bounds(t, c, 1);
    lemma_next_char_offset(t, c, 1);
}

proof fn lemma_next_char_offset(t: Seq<char>, c: char, i: int)
    requires
        0 <= i <= t.len(),
    ensures
        next_char(t, c, i) == 1 + next_char(t.skip(1), c, i - 1) || i == 0,
    decreases t.len() - i,
{
    if i > 0 && i < t.len() && t[i] != c {
        lemma_next_char_offset(t, c, i + 1);
    }
}

/// The pieces of `s` between the occurrences of `c`.
pub fn split_all(s: &[char], c: char) -> (r: Vec<Vec<char>>)
    ensures
        r@.len() == pieces(s@, c).len(),
        forall|k: int| 0 <= k < r@.len() ==> (#[trigger] r@[k])@ == pieces(s@, c)[k],
{
    let mut out: Vec<Vec<char>> = Vec::new();
    let ghost mut done: Seq<Seq<char>> = Seq::empty();
    let mut i: usize = 0;
    assert(s@.skip(0) =~= s@);
    assert(done + pieces(s@, c) =~= pieces(s@, c));
    loop
        invariant
            i <= s@.len(),
            out@.len() == done.len(),
            forall|k: int| 0 <= k < out@.len() ==> (#[trigger] out@[k])@ == done[k],
            pieces(s@, c) == done + pieces(s@.skip(i as int), c),
        decreases s@.len() - i,
    {
        let j = find_char(s, c, i);
        proof {
            lemma_next_char_skip(s@, c, i as int);
        }
        let piece = copy_chars(s, i, j);
        let ghost rest = s@.skip(i as int);
        if j >= s.len() {
            assert(piece@ =~= rest);
            proof {
                done = done.push(piece@);
            }
            out.push(piece);
            assert(pieces(s@, c) =~= done);
            return out;
        }
        assert(piece@ =~= rest.take(j - i));
        assert(rest.skip(j - i + 1) =~= s@.skip(j + 1));
        proof {
            done = done.push(piece@);
        }
        out.push(piece);
        i = j + 1;
        assert(pieces(s@, c) =~= done + pieces(s@.skip(i as int), c));
    }
}

} // verus!

verus! {

/// `str::to_lowercase`: the text with each character mapped to its Unicode
/// lower case.
pub uninterp spec fn unicode_lower(s: Seq<char>) -> Seq<char>;

/// `str::to_lowercase`.
#[verifier::external_body]
pub(crate) fn to_lowercase(s: &str) -> (r: String)
    ensures
        r@ == unicode_lower(s@),
{
    s.to_lowercase()
}

} // verus!

verus! {

/// A text with no white space at either end is its own trim.
pub proof fn lemma_trim_plain(s: Seq<char>)
    requires
        s.len() == 0 || (!is_ws(s[0]) && !is_ws(s.last())),
    ensures
        trim(s) == s,
{
    assert(trim_start(s) == s);
    assert(trim_end(s) == s);
}

/// Lower-casing a concatenation lower-cases each part.
pub proof fn lemma_lower_concat(a: Seq<char>, b: Seq<char>)
    ensures
        lower(a + b) == lower(a) + lower(b),
{
    assert(lower(a + b) =~= lower(a) + lower(b));
}

/// Lower-casing twice is lower-casing once.
pub proof fn lemma_lower_idempotent(s: Seq<char>)
    ensures
        lower(lower(s)) == lower(s),
{
    assert(lower(lower(s)) =~= lower(s));
}

proof fn lemma_trim_start_lower(s: Seq<char>)
    ensures
        trim_start(lower(s)) == lower(trim_start(s)),
    decreases s.len(),
{
    if s.len() > 0 {
        assert(lower(s)[0] == lower_char(s[0]));
        assert(lower(s).drop_first() =~= lower(s.drop_first()));
        lemma_trim_start_lower(s.drop_first());
    }
}

proof fn lemma_trim_end_lower(s: Seq<char>)
    ensures
        trim_end(lower(s)) == lower(trim_end(s)),
    decreases s.len(),
{
    if s.len() > 0 {
        assert(lower(s).last() == lower_char(s.last()));
        assert(lower(s).drop_last() =~= lower(s.drop_last()));
        lemma_trim_end_lower(s.drop_last());
    }
}

/// Trimming and lower-casing can be done in either order.
pub proof fn lemma_trim_lower(s: Seq<char>)
    ensures
        trim(lower(s)) == lower(trim(s)),
{
    lemma_trim_start_lower(s);
    lemma_trim_end_lower(trim_start(s));
}

} // verus!

verus! {

/// The text that `{:?}` gives a string or a path: quoted, with special
/// characters escaped.
pub uninterp spec fn debug_quoted(s: Seq<char>) -> Seq<char>;

/// The text as `{:?}` prints it (`<str as Debug>::fmt`).
#[verifier::external_body]
pub(crate) fn debug_text(s: &str) -> (r: String)
    ensures
        r@ == debug_quoted(s@),
{
    format!("{s:?}")
}

} // verus!

verus! {

/// Whether `a` comes before `b` in the order of `str`'s `Ord`: character by
/// character (which is the order of their UTF-8 bytes), a proper prefix
/// first.
pub open spec fn text_lt(a: Seq<char>, b: Seq<char>) -> bool
    decreases a.len(),
{
    if a.len() == 0 {
        b.len() > 0
    } else if b.len() == 0 {
        false
    } else if a[0] != b[0] {
        a[0] < b[0]
    } else {
        text_lt(a.drop_first(), b.drop_first())
    }
}

/// Nothing comes before itself.
pub proof fn lemma_text_lt_irreflexive(a: Seq<char>)
    ensures
        !text_lt(a, a),
    decreases a.len(),
{
    if a.len() > 0 {
        lemma_text_lt_irreflexive(a.drop_first());
    }
}

/// Of two different texts, one comes first.
pub proof fn lemma_text_lt_total(a: Seq<char>, b: Seq<char>)
    ensures
        a != b ==> text_lt(a, b) || text_lt(b, a),
        !(text_lt(a, b) && text_lt(b, a)),
    decreases a.len(),
{
    if a.len() > 0 && b.len() > 0 {
        lemma_text_lt_total(a.drop_first(), b.drop_first());
        if a[0] == b[0] && a != b {
            assert(a =~= seq![a[0]] + a.drop_first());
            assert(b =~= seq![b[0]] + b.drop_first());
        }
    } else if a.len() == 0 && b.len() == 0 {
        assert(a =~= b);
    }
}

/// The order is transitive.
pub proof fn lemma_text_lt_transitive(a: Seq<char>, b: Seq<char>, c: Seq<char>)
    requires
        text_lt(a, b),
        text_lt(b, c),
    ensures
        text_lt(a, c),
    decreases a.len(),
{
    if a.len() > 0 && b.len() > 0 && c.len() > 0 {
        if a[0] == b[0] && b[0] == c[0] {
            lemma_text_lt_transitive(a.drop_first(), b.drop_first(), c.drop_first());
        }
    }
}

/// Compares two texts in `str`'s order.
pub fn text_lt_exec(a: &[char], b: &[char]) -> (r: bool)
    ensures
        r == text_lt(a@, b@),
{
    let mut i: usize = 0;
    assert(a@.skip(0) =~= a@);
    assert(b@.skip(0) =~= b@);
    while i < a.len() && i < b.len() && a[i] == b[i]
        invariant
            i <= a@.len(),
            i <= b@.len(),
            text_lt(a@, b@) == text_lt(a@.skip(i as int), b@.skip(i as int)),
        decreases a@.len() - i,
    {
        assert(a@.skip(i as int).drop_first() =~= a@.skip(i + 1));
        assert(b@.skip(i as int).drop_first() =~= b@.skip(i + 1));
        i += 1;
    }
    if i == a.len() {
        i < b.len()
    } else if i == b.len() {
        false
    } else {
        assert(a@.skip(i as int)[0] == a@[i as int]);
        assert(b@.skip(i as int)[0] == b@[i as int]);
        a[i] < b[i]
    }
}

} // verus!

verus! {

/// The first position at or after `i` where `t` occurs in `s`, or -1.
pub open spec fn find_from(s: Seq<char>, t: Seq<char>, i: int) -> int
    decreases s.len() + 1 - i,
{
    if i < 0 || i > s.len() {
        -1
    } else if occurs_at(s, t, i) {
        i
    } else {
        find_from(s, t, i + 1)
    }
}

/// The text before the first `t` in `s` and the text after it, as
/// `split_once` with a string pattern gives them.
pub open spec fn split_once_seq(s: Seq<char>, t: Seq<char>) -> Option<(Seq<char>, Seq<char>)> {
    let k = find_from(s, t, 0);
    if k < 0 {
        None
    } else {
        Some((s.take(k), s.skip(k + t.len())))
    }
}

pub proof fn lemma_find_from_bounds(s: Seq<char>, t: Seq<char>, i: int)
    ensures
        find_from(s, t, i) == -1 || (i <= find_from(s, t, i) && occurs_at(s, t, find_from(s, t, i))),
    decreases s.len() + 1 - i,
{
    if 0 <= i <= s.len() && !occurs_at(s, t, i) {
        lemma_find_from_bounds(s, t, i + 1);
    }
}

/// `split_once` with a string pattern.
pub fn split_once_chars(s: &[char], t: &[char]) -> (r: Option<(Vec<char>, Vec<char>)>)
    ensures
        match (r, split_once_seq(s@, t@)) {
            (Some((a, b)), Some((x, y))) => a@ == x && b@ == y,
            (None, None) => true,
            _ => false,
        },
{
    let mut k: usize = 0;
    while k < s.len()
        invariant
            k <= s@.len(),
            find_from(s@, t@, 0) == find_from(s@, t@, k as int),
        decreases s@.len() - k,
    {
        if occurs_at_exec(s, t, k) {
            proof {
                lemma_find_from_bounds(s@, t@, k as int);
            }
            let a = copy_chars(s, 0, k);
            let b = copy_chars(s, k + t.len(), s.len());
            assert(a@ =~= s@.take(k as int));
            assert(b@ =~= s@.skip(k + t@.len()));
            return Some((a, b));
        }
        k += 1;
    }
    if occurs_at_exec(s, t, k) {
        proof {
            lemma_find_from_bounds(s@, t@, k as int);
        }
        let a = copy_chars(s, 0, k);
        let b = copy_chars(s, k + t.len(), s.len());
        assert(a@ =~= s@.take(k as int));
        assert(b@ =~= s@.skip(k + t@.len()));
        return Some((a, b));
    }
    assert(find_from(s@, t@, k + 1) == -1);
    None
}

} // verus!

verus! {

/// The decimal spelling of a signed number, as `{}` formats it: a `-`
/// before the digits of a negative one.
pub open spec fn int_dec(n: int) -> Seq<char> {
    if n < 0 {
        "-"@ + dec((-n) as nat)
    } else {
        dec(n as nat)
    }
}

/// The decimal spelling of an `i64`.
pub fn int_chars(n: i64) -> (r: Vec<char>)
    ensures
        r@ == int_dec(n as int),
{
    if n < 0 {
        let m: u64 = (0i128 - n as i128) as u64;
        let d = dec_chars(m);
        let mut r = chars_of("-");
        push_chars(&mut r, &d);
        r
    } else {
        dec_chars(n as u64)
    }
}

} // verus!
