//! Host and path matching for policy rules.
//!
//! Hosts take a single leading-wildcard form rather than a general glob:
//! `*example.com` would match `evilexample.com`, which is a footgun in an
//! allowlist. Paths use `*` (one segment) and `**` (across segments).

use vstd::prelude::*;

use crate::text::{
    chars_eq, chars_of, ends_with, has_prefix, has_suffix, lower, lower_chars, occurs_at_exec,
    starts_with, trim, trim_chars, is_ws, lower_char, lemma_trim_plain, lemma_lower_concat,
    lemma_lower_idempotent, lemma_trim_lower,
};

verus! {

/// Whether `s` holds no `/`.
pub open spec fn no_slash(s: Seq<char>) -> bool {
    forall|k: int| 0 <= k < s.len() ==> #[trigger] s[k] != '/'
}

/// What a path pattern means, read straight off its characters: `**`
/// stands for any run of characters, a lone `*` for any run without `/`,
/// and every other character for itself. The whole path must be consumed.
pub open spec fn glob_match(p: Seq<char>, s: Seq<char>) -> bool
    decreases p.len(), 0int, 0int,
{
    if p.len() == 0 {
        s.len() == 0
    } else if p[0] != '*' {
        s.len() > 0 && s[0] == p[0] && glob_match(p.drop_first(), s.drop_first())
    } else if p.len() >= 2 && p[1] == '*' {
        glob_any(p.skip(2), s, 0, false)
    } else {
        glob_any(p.drop_first(), s, 0, true)
    }
}

/// Whether the rest of a pattern `q` matches `s` after skipping some run
/// that starts at `i`; with `one_segment` the skipped run may not hold `/`.
pub open spec fn glob_any(q: Seq<char>, s: Seq<char>, i: int, one_segment: bool) -> bool
    decreases q.len(), 1int, s.len() - i,
{
    if i < 0 || i > s.len() {
        false
    } else {
        ||| glob_match(q, s.skip(i))
        ||| (i < s.len() && !(one_segment && s[i] == '/') && glob_any(q, s, i + 1, one_segment))
    }
}

/// What a host pattern means. Both sides are trimmed and ASCII
/// lower-cased first; `*` admits every host; `*.d` admits a host that ends
/// in `.d` with at least one more character before that dot; anything
/// else must equal the host.
pub open spec fn host_match_spec(pattern: Seq<char>, host: Seq<char>) -> bool {
    let p = lower(trim(pattern));
    let h = lower(trim(host));
    if p == seq!['*'] {
        true
    } else if has_prefix(p, seq!['*', '.']) {
        let suffix = p.skip(2);
        has_suffix(h, suffix) && {
            let head = h.take(h.len() - suffix.len());
            head.len() > 1 && head.last() == '.'
        }
    } else {
        p == h
    }
}

/// `*` matches any host. `*.example.com` matches any strict subdomain but
/// not the apex. Everything else is an exact, case-insensitive match.
pub fn host_matches(pattern: &str, host: &str) -> (r: bool)
    ensures
        r == host_match_spec(pattern@, host@),
{
    let pv = chars_of(pattern);
    let hv = chars_of(host);
    let pt = trim_chars(&pv);
    let ht = trim_chars(&hv);
    let p = lower_chars(&pt);
    let h = lower_chars(&ht);
    let star = ['*'];
    if chars_eq(&p, &star) {
        assert(star@ =~= seq!['*']);
        return true;
    }
    assert(star@ =~= seq!['*']);
    let wild = ['*', '.'];
    assert(wild@ =~= seq!['*', '.']);
    if starts_with(&p, &wild) {
        let mut suffix: Vec<char> = Vec::new();
        let mut i: usize = 2;
        while i < p.len()
            invariant
                2 <= i <= p.len(),
                suffix@ == p@.subrange(2, i as int),
            decreases p.len() - i,
        {
            suffix.push(p[i]);
            i += 1;
            assert(suffix@ =~= p@.subrange(2, i as int));
        }
        assert(suffix@ =~= p@.skip(2));
        if !ends_with(&h, &suffix) {
            return false;
        }
        let head_len = h.len() - suffix.len();
        return head_len > 1 && h[head_len - 1] == '.';
    }
    chars_eq(&p, &h)
}

/// One piece of a tokenized path pattern.
pub enum Tok {
    Lit(Vec<char>),
    Star,
    DoubleStar,
}

/// The pattern text a token was read from.
pub open spec fn tok_text(t: Tok) -> Seq<char> {
    match t {
        Tok::Lit(l) => l@,
        Tok::Star => seq!['*'],
        Tok::DoubleStar => seq!['*', '*'],
    }
}

/// The pattern text a token list was read from.
pub open spec fn toks_text(ts: Seq<Tok>) -> Seq<char>
    decreases ts.len(),
{
    if ts.len() == 0 {
        Seq::empty()
    } else {
        tok_text(ts[0]) + toks_text(ts.drop_first())
    }
}

/// Whether a literal holds at least one character and no `*`.
pub open spec fn lit_ok(l: Seq<char>) -> bool {
    l.len() > 0 && forall|k: int| 0 <= k < l.len() ==> #[trigger] l[k] != '*'
}

/// The shape `tokenize` produces: literals are non-empty and star-free, and
/// a single `*` is followed by a literal or by nothing.
pub open spec fn toks_wf(ts: Seq<Tok>) -> bool {
    &&& forall|j: int| 0 <= j < ts.len() && (#[trigger] ts[j]) is Lit ==> lit_ok(ts[j]->Lit_0@)
    &&& forall|j: int| 0 <= j < ts.len() - 1 && (#[trigger] ts[j]) is Star ==> ts[j + 1] is Lit
}

/// What a token list matches.
pub open spec fn toks_match(ts: Seq<Tok>, s: Seq<char>) -> bool
    decreases ts.len(), 0int, 0int,
{
    if ts.len() == 0 {
        s.len() == 0
    } else {
        match ts[0] {
            Tok::Lit(l) => has_prefix(s, l@) && toks_match(ts.drop_first(), s.skip(l@.len() as int)),
            Tok::Star => toks_any(ts.drop_first(), s, 0, true),
            Tok::DoubleStar => toks_any(ts.drop_first(), s, 0, false),
        }
    }
}

/// `glob_any` for token lists.
pub open spec fn toks_any(ts: Seq<Tok>, s: Seq<char>, i: int, one_segment: bool) -> bool
    decreases ts.len(), 1int, s.len() - i,
{
    if i < 0 || i > s.len() {
        false
    } else {
        ||| toks_match(ts, s.skip(i))
        ||| (i < s.len() && !(one_segment && s[i] == '/') && toks_any(ts, s, i + 1, one_segment))
    }
}

proof fn lemma_toks_text_push(ts: Seq<Tok>, t: Tok)
    ensures
        toks_text(ts.push(t)) == toks_text(ts) + tok_text(t),
    decreases ts.len(),
{
    if ts.len() == 0 {
        assert(ts.push(t).drop_first() =~= Seq::<Tok>::empty());
        assert(toks_text(ts.push(t).drop_first()) == Seq::<char>::empty());
        assert(toks_text(ts) == Seq::<char>::empty());
        assert(toks_text(ts.push(t)) =~= tok_text(t));
    } else {
        assert(ts.push(t).drop_first() =~= ts.drop_first().push(t));
        lemma_toks_text_push(ts.drop_first(), t);
        assert(toks_text(ts.push(t)) =~= toks_text(ts) + tok_text(t));
    }
}

/// A star-free literal at the front of a pattern matches itself and
/// nothing else.
proof fn lemma_glob_lit_prefix(l: Seq<char>, r: Seq<char>, s: Seq<char>)
    requires
        forall|k: int| 0 <= k < l.len() ==> #[trigger] l[k] != '*',
    ensures
        glob_match(l + r, s) == (has_prefix(s, l) && glob_match(r, s.skip(l.len() as int))),
    decreases l.len(),
{
    if l.len() == 0 {
        assert(l + r =~= r);
        assert(s.skip(0) =~= s);
        assert(s.take(0) =~= l);
    } else {
        let p = l + r;
        assert(p[0] == l[0]);
        assert(p.drop_first() =~= l.drop_first() + r);
        if s.len() > 0 {
            lemma_glob_lit_prefix(l.drop_first(), r, s.drop_first());
            if l.len() <= s.len() {
                assert(s.drop_first().skip(l.len() - 1) =~= s.skip(l.len() as int));
            }
            if has_prefix(s, l) {
                assert(s[0] == s.take(l.len() as int)[0]);
                assert(s.drop_first().take(l.len() - 1) =~= s.take(l.len() as int).drop_first());
            }
            if s[0] == l[0] && has_prefix(s.drop_first(), l.drop_first()) {
                assert(s.take(l.len() as int) =~= seq![s[0]] + s.drop_first().take(l.len() - 1));
                assert(l =~= seq![l[0]] + l.drop_first());
            }
        }
    }
}

proof fn lemma_wf_rest(ts: Seq<Tok>)
    requires
        toks_wf(ts),
        ts.len() > 0,
    ensures
        toks_wf(ts.drop_first()),
{
    let rest = ts.drop_first();
    assert forall|j: int| 0 <= j < rest.len() && (#[trigger] rest[j]) is Lit implies lit_ok(
        rest[j]->Lit_0@,
    ) by {
        assert(rest[j] == ts[j + 1]);
    }
    assert forall|j: int| 0 <= j < rest.len() - 1 && (#[trigger] rest[j]) is Star implies rest[j
        + 1] is Lit by {
        assert(rest[j] == ts[j + 1]);
    }
}

/// `toks_any` and `glob_any` agree once the token list and its text agree.
proof fn lemma_toks_any_glob(ts: Seq<Tok>, s: Seq<char>, i: int, one_segment: bool)
    requires
        toks_wf(ts),
    ensures
        toks_any(ts, s, i, one_segment) == glob_any(toks_text(ts), s, i, one_segment),
    decreases ts.len(), 1int, s.len() - i,
{
    if 0 <= i <= s.len() {
        lemma_toks_match_glob_at(ts, s.skip(i));
        if i < s.len() {
            lemma_toks_any_glob(ts, s, i + 1, one_segment);
        }
    }
}

/// A well-formed token list matches exactly what its pattern text matches.
proof fn lemma_toks_match_glob_at(ts: Seq<Tok>, s: Seq<char>)
    requires
        toks_wf(ts),
    ensures
        toks_match(ts, s) == glob_match(toks_text(ts), s),
    decreases ts.len(), 0int, 0int,
{
    if ts.len() > 0 {
        let rest = ts.drop_first();
        lemma_wf_rest(ts);
        let r = toks_text(rest);
        let p = toks_text(ts);
        assert(p == tok_text(ts[0]) + r);
        match ts[0] {
            Tok::Lit(l) => {
                assert(lit_ok(l@));
                lemma_glob_lit_prefix(l@, r, s);
                if has_prefix(s, l@) {
                    lemma_toks_match_glob_at(rest, s.skip(l@.len() as int));
                }
            },
            Tok::Star => {
                assert(p =~= seq!['*'] + r);
                assert(p[0] == '*');
                assert(p.drop_first() =~= r);
                if rest.len() > 0 {
                    assert(rest[0] == ts[1]);
                    assert(lit_ok(rest[0]->Lit_0@));
                    assert(r == tok_text(rest[0]) + toks_text(rest.drop_first()));
                    assert(r[0] == rest[0]->Lit_0@[0]);
                    assert(p[1] == r[0]);
                } else {
                    assert(r =~= Seq::<char>::empty());
                }
                lemma_toks_any_glob(rest, s, 0, true);
            },
            Tok::DoubleStar => {
                assert(p =~= seq!['*', '*'] + r);
                assert(p[0] == '*');
                assert(p[1] == '*');
                assert(p.skip(2) =~= r);
                lemma_toks_any_glob(rest, s, 0, false);
            },
        }
    }
}

proof fn lemma_wf_push(ts: Seq<Tok>, t: Tok)
    requires
        toks_wf(ts),
        t is Lit ==> lit_ok(t->Lit_0@),
        ts.len() > 0 && ts.last() is Star ==> t is Lit,
    ensures
        toks_wf(ts.push(t)),
{
    let u = ts.push(t);
    assert forall|j: int| 0 <= j < u.len() && (#[trigger] u[j]) is Lit implies lit_ok(u[j]->Lit_0@) by {
        if j < ts.len() {
            assert(u[j] == ts[j]);
        }
    }
    assert forall|j: int| 0 <= j < u.len() - 1 && (#[trigger] u[j]) is Star implies u[j + 1] is Lit by {
        assert(u[j] == ts[j]);
        if j < ts.len() - 1 {
            assert(u[j + 1] == ts[j + 1]);
        }
    }
}

/// Split a pattern into literals, `*` and `**`.
fn tokenize(pattern: &[char]) -> (toks: Vec<Tok>)
    ensures
        toks_text(toks@) == pattern@,
        toks_wf(toks@),
{
    let mut toks: Vec<Tok> = Vec::new();
    let mut lit: Vec<char> = Vec::new();
    let n = pattern.len();
    let mut i: usize = 0;
    while i < n
        invariant
            i <= n,
            n == pattern@.len(),
            toks_text(toks@) + lit@ == pattern@.take(i as int),
            toks_wf(toks@),
            toks@.len() > 0 ==> !(toks@.last() is Lit),
            forall|k: int| 0 <= k < lit@.len() ==> #[trigger] lit@[k] != '*',
            toks@.len() > 0 && toks@.last() is Star && lit@.len() == 0 ==> (i == n || pattern@[i as int]
                != '*'),
        decreases n - i,
    {
        let c = pattern[i];
        if c != '*' {
            lit.push(c);
            i += 1;
            assert(toks_text(toks@) + lit@ =~= pattern@.take(i as int));
            continue;
        }
        if lit.len() > 0 {
            let mut taken: Vec<char> = Vec::new();
            std::mem::swap(&mut taken, &mut lit);
            proof {
                lemma_toks_text_push(toks@, Tok::Lit(taken));
                lemma_wf_push(toks@, Tok::Lit(taken));
            }
            toks.push(Tok::Lit(taken));
        }
        assert(toks_text(toks@) == pattern@.take(i as int));
        if i + 1 < n && pattern[i + 1] == '*' {
            proof {
                lemma_toks_text_push(toks@, Tok::DoubleStar);
                lemma_wf_push(toks@, Tok::DoubleStar);
            }
            toks.push(Tok::DoubleStar);
            i += 2;
            assert(pattern@.take(i as int) =~= pattern@.take(i - 2) + seq!['*', '*']);
        } else {
            proof {
                lemma_toks_text_push(toks@, Tok::Star);
                lemma_wf_push(toks@, Tok::Star);
            }
            toks.push(Tok::Star);
            i += 1;
            assert(pattern@.take(i as int) =~= pattern@.take(i - 1) + seq!['*']);
        }
        assert(toks_text(toks@) + lit@ =~= pattern@.take(i as int));
    }
    if lit.len() > 0 {
        proof {
            lemma_toks_text_push(toks@, Tok::Lit(lit));
            lemma_wf_push(toks@, Tok::Lit(lit));
        }
        toks.push(Tok::Lit(lit));
    } else {
        assert(toks_text(toks@) =~= toks_text(toks@) + lit@);
    }
    assert(pattern@.take(n as int) =~= pattern@);
    toks
}

/// Whether the tokens from position `ti` on match the path from position `si` on.
fn match_from(toks: &[Tok], ti: usize, s: &[char], si: usize) -> (r: bool)
    requires
        ti <= toks@.len(),
        si <= s@.len(),
    ensures
        r == toks_match(toks@.skip(ti as int), s@.skip(si as int)),
    decreases toks@.len() - ti, 1int,
{
    let ts = Ghost(toks@.skip(ti as int));
    let rest_s = Ghost(s@.skip(si as int));
    if ti == toks.len() {
        assert(ts@.len() == 0);
        return si == s.len();
    }
    assert(ts@[0] == toks@[ti as int]);
    assert(ts@.drop_first() =~= toks@.skip(ti + 1));
    match &toks[ti] {
        Tok::Lit(l) => {
            if !occurs_at_exec(s, l, si) {
                proof {
                    if has_prefix(rest_s@, l@) {
                        assert(s@.subrange(si as int, si + l@.len()) =~= rest_s@.take(l@.len() as int));
                    }
                }
                return false;
            }
            assert(s@.subrange(si as int, si + l@.len()) =~= rest_s@.take(l@.len() as int));
            assert(rest_s@.skip(l@.len() as int) =~= s@.skip(si + l@.len()));
            assert(si + l.len() <= s.len());
            match_from(toks, ti + 1, s, si + l.len())
        },
        Tok::Star => {
            let n = s.len();
            let mut limit: usize = si;
            while limit < n && s[limit] != '/'
                invariant
                    si <= limit <= n,
                    n == s@.len(),
                    forall|k: int| si <= k < limit ==> #[trigger] s@[k] != '/',
                decreases n - limit,
            {
                limit += 1;
            }
            any_from(toks, ti, s, si, limit, true)
        },
        Tok::DoubleStar => {
            let n = s.len();
            any_from(toks, ti, s, si, n, false)
        },
    }
}

/// The search behind `*` and `**`: try every split point from `si` up to
/// `limit`, where the skipped run must stop.
fn any_from(toks: &[Tok], ti: usize, s: &[char], si: usize, limit: usize, one_segment: bool) -> (r:
    bool)
    requires
        ti < toks.len(),
        si <= limit <= s@.len(),
        limit == s@.len() || (one_segment && s@[limit as int] == '/'),
        forall|k: int| si <= k < limit ==> !(one_segment && #[trigger] s@[k] == '/'),
    ensures
        r == toks_any(toks@.skip(ti + 1), s@.skip(si as int), 0, one_segment),
    decreases toks@.len() - ti, 0int,
{
    let rest = Ghost(toks@.skip(ti + 1));
    let sub = Ghost(s@.skip(si as int));
    let mut j: usize = si;
    while j < limit
        invariant
            si <= j <= limit,
            limit <= s@.len(),
            ti < toks.len(),
            rest@ == toks@.skip(ti + 1),
            sub@ == s@.skip(si as int),
            forall|k: int| si <= k < limit ==> !(one_segment && #[trigger] s@[k] == '/'),
            toks_any(rest@, sub@, 0, one_segment) == toks_any(rest@, sub@, j - si, one_segment),
        decreases limit - j,
    {
        let found = match_from(toks, ti + 1, s, j);
        assert(sub@.skip(j - si) =~= s@.skip(j as int));
        if found {
            return true;
        }
        assert(sub@[j - si] == s@[j as int]);
        j += 1;
    }
    let found = match_from(toks, ti + 1, s, limit);
    assert(sub@.skip(limit - si) =~= s@.skip(limit as int));
    if limit < s.len() {
        assert(sub@[limit - si] == s@[limit as int]);
    }
    found
}

/// Whether a token list matches the whole path.
fn match_toks(toks: &[Tok], s: &[char]) -> (r: bool)
    ensures
        r == toks_match(toks@, s@),
{
    assert(toks@.skip(0) =~= toks@);
    assert(s@.skip(0) =~= s@);
    match_from(toks, 0, s, 0)
}

/// `*` matches any run of characters except `/`; `**` matches any run
/// including `/`. Anchored at both ends, so `/v3` does not match `/v3/auth`.
pub fn path_matches(pattern: &str, path: &str) -> (r: bool)
    ensures
        r == glob_match(pattern@, path@),
{
    let p = chars_of(pattern);
    let s = chars_of(path);
    let toks = tokenize(&p);
    proof {
        lemma_toks_match_glob_at(toks@, s@);
    }
    match_toks(&toks, &s)
}

/// Whether `s` holds no `*`.
pub open spec fn star_free(s: Seq<char>) -> bool {
    forall|k: int| 0 <= k < s.len() ==> #[trigger] s[k] != '*'
}

/// Whether `s` never holds two `*` side by side, so every star in it is a
/// lone `*`.
pub open spec fn no_double_star(s: Seq<char>) -> bool {
    forall|k: int| 0 <= k < s.len() - 1 ==> !(#[trigger] s[k] == '*' && s[k + 1] == '*')
}

/// How many `/` a sequence holds.
pub open spec fn slash_count(s: Seq<char>) -> nat
    decreases s.len(),
{
    if s.len() == 0 {
        0
    } else {
        (if s[0] == '/' { 1nat } else { 0nat }) + slash_count(s.drop_first())
    }
}

proof fn lemma_glob_any_intro(q: Seq<char>, s: Seq<char>, i: int, j: int, one_segment: bool)
    requires
        0 <= i <= j <= s.len(),
        one_segment ==> no_slash(s.subrange(i, j)),
        glob_match(q, s.skip(j)),
    ensures
        glob_any(q, s, i, one_segment),
    decreases j - i,
{
    if i < j {
        if one_segment {
            assert(s.subrange(i, j)[0] == s[i]);
            assert(no_slash(s.subrange(i + 1, j))) by {
                assert forall|k: int| 0 <= k < s.subrange(i + 1, j).len() implies #[trigger] s.subrange(
                    i + 1,
                    j,
                )[k] != '/' by {
                    assert(s.subrange(i + 1, j)[k] == s.subrange(i, j)[k + 1]);
                }
            }
        }
        lemma_glob_any_intro(q, s, i + 1, j, one_segment);
    }
}

proof fn lemma_glob_any_elim(q: Seq<char>, s: Seq<char>, i: int, one_segment: bool) -> (j: int)
    requires
        glob_any(q, s, i, one_segment),
    ensures
        i <= j <= s.len(),
        one_segment ==> no_slash(s.subrange(i, j)),
        glob_match(q, s.skip(j)),
    decreases s.len() - i,
{
    if glob_match(q, s.skip(i)) {
        assert(s.subrange(i, i).len() == 0);
        i
    } else {
        let j = lemma_glob_any_elim(q, s, i + 1, one_segment);
        if one_segment {
            assert forall|k: int| 0 <= k < s.subrange(i, j).len() implies #[trigger] s.subrange(i, j)[k]
                != '/' by {
                if k > 0 {
                    assert(s.subrange(i, j)[k] == s.subrange(i + 1, j)[k - 1]);
                } else {
                    assert(s.subrange(i, j)[k] == s[i]);
                }
            }
        }
        j
    }
}

/// `*` and `**` in a path pattern: a lone `*` skips any run of characters
/// without `/`, `**` skips any run at all, and the rest of the pattern must
/// match what follows.
pub proof fn law_star_skips_a_run(q: Seq<char>, s: Seq<char>, one_segment: bool)
    ensures
        glob_any(q, s, 0, one_segment) == exists|i: int|
            0 <= i <= s.len() && (one_segment ==> no_slash(s.take(i))) && #[trigger] glob_match(
                q,
                s.skip(i),
            ),
{
    if glob_any(q, s, 0, one_segment) {
        let j = lemma_glob_any_elim(q, s, 0, one_segment);
        assert(s.subrange(0, j) =~= s.take(j));
    }
    if exists|i: int|
        0 <= i <= s.len() && (one_segment ==> no_slash(s.take(i))) && #[trigger] glob_match(q, s.skip(i)) {
        let i = choose|i: int|
            0 <= i <= s.len() && (one_segment ==> no_slash(s.take(i))) && #[trigger] glob_match(
                q,
                s.skip(i),
            );
        assert(s.subrange(0, i) =~= s.take(i));
        lemma_glob_any_intro(q, s, 0, i, one_segment);
    }
}

/// Patterns are anchored at both ends: a pattern without `*` matches
/// exactly the one path it spells.
pub proof fn law_plain_pattern_is_exact(p: Seq<char>, s: Seq<char>)
    requires
        star_free(p),
    ensures
        glob_match(p, s) == (p == s),
    decreases p.len(),
{
    if p.len() == 0 {
        if s.len() == 0 {
            assert(p =~= s);
        }
    } else {
        assert(star_free(p.drop_first()));
        if s.len() > 0 {
            law_plain_pattern_is_exact(p.drop_first(), s.drop_first());
            if p == s {
                assert(p.drop_first() == s.drop_first());
            }
            if s[0] == p[0] && p.drop_first() == s.drop_first() {
                assert forall|k: int| 0 <= k < p.len() implies p[k] == s[k] by {
                    if k > 0 {
                        assert(p[k] == p.drop_first()[k - 1]);
                        assert(s[k] == s.drop_first()[k - 1]);
                    }
                }
                assert(p =~= s);
            }
        } else {
            assert(p != s);
        }
    }
}

proof fn lemma_slash_count_concat(a: Seq<char>, b: Seq<char>)
    ensures
        slash_count(a + b) == slash_count(a) + slash_count(b),
    decreases a.len(),
{
    if a.len() == 0 {
        assert(a + b =~= b);
    } else {
        assert((a + b).drop_first() =~= a.drop_first() + b);
        lemma_slash_count_concat(a.drop_first(), b);
    }
}

proof fn lemma_no_slash_count(a: Seq<char>)
    requires
        no_slash(a),
    ensures
        slash_count(a) == 0,
    decreases a.len(),
{
    if a.len() > 0 {
        assert(no_slash(a.drop_first())) by {
            assert forall|k: int| 0 <= k < a.drop_first().len() implies #[trigger] a.drop_first()[k]
                != '/' by {
                assert(a.drop_first()[k] == a[k + 1]);
            }
        }
        lemma_no_slash_count(a.drop_first());
    }
}

/// A single `*` stays inside one path segment: a pattern without `**`
/// only matches paths with exactly as many `/` as the pattern itself.
pub proof fn law_single_star_keeps_segments(p: Seq<char>, s: Seq<char>)
    requires
        no_double_star(p),
        glob_match(p, s),
    ensures
        slash_count(s) == slash_count(p),
    decreases p.len(),
{
    if p.len() > 0 {
        let q = p.drop_first();
        assert(no_double_star(q)) by {
            assert forall|k: int| 0 <= k < q.len() - 1 implies !(#[trigger] q[k] == '*' && q[k + 1]
                == '*') by {
                assert(q[k] == p[k + 1]);
                assert(q[k + 1] == p[k + 2]);
            }
        }
        if p[0] != '*' {
            law_single_star_keeps_segments(q, s.drop_first());
            assert(slash_count(s) == (if s[0] == '/' { 1nat } else { 0nat }) + slash_count(s.drop_first()));
        } else {
            if p.len() >= 2 {
                assert(!(p[0] == '*' && p[1] == '*'));
            }
            law_star_skips_a_run(q, s, true);
            let i = choose|i: int|
                0 <= i <= s.len() && (true ==> no_slash(s.take(i))) && #[trigger] glob_match(q, s.skip(i));
            law_single_star_keeps_segments(q, s.skip(i));
            assert(s =~= s.take(i) + s.skip(i));
            lemma_slash_count_concat(s.take(i), s.skip(i));
            lemma_no_slash_count(s.take(i));
        }
    }
}

/// `**` crosses segments: a plain prefix followed by `**` matches every
/// path that starts with that prefix.
pub proof fn law_double_star_takes_any_tail(p: Seq<char>, t: Seq<char>)
    requires
        star_free(p),
    ensures
        glob_match(p + seq!['*', '*'], p + t),
{
    lemma_glob_lit_prefix(p, seq!['*', '*'], p + t);
    assert((p + t).take(p.len() as int) =~= p);
    assert((p + t).skip(p.len() as int) =~= t);
    let q = seq!['*', '*'];
    assert(q.skip(2) =~= Seq::<char>::empty());
    assert(t.skip(t.len() as int) =~= Seq::<char>::empty());
    lemma_glob_any_intro(q.skip(2), t, 0, t.len() as int, false);
    assert(q[0] == '*' && q[1] == '*');
}


/// `*` admits every host.
pub proof fn law_bare_star_admits_every_host(h: Seq<char>)
    ensures
        host_match_spec(seq!['*'], h),
{
    lemma_trim_plain(seq!['*']);
    assert(lower(seq!['*']) =~= seq!['*']);
}

/// Host matching ignores ASCII case on both sides.
pub proof fn law_host_match_ignores_case(p: Seq<char>, h: Seq<char>)
    ensures
        host_match_spec(p, h) == host_match_spec(lower(p), lower(h)),
{
    lemma_trim_lower(p);
    lemma_trim_lower(h);
    lemma_lower_idempotent(trim(p));
    lemma_lower_idempotent(trim(h));
}

/// `*.d` admits every strict subdomain of `d`: a label (or several), a dot,
/// then `d`. Hosts and patterns are taken without surrounding white space.
pub proof fn law_wildcard_admits_subdomains(l: Seq<char>, d: Seq<char>)
    requires
        l.len() > 0,
        !is_ws(l[0]),
        d.len() == 0 || !is_ws(d.last()),
    ensures
        host_match_spec(seq!['*', '.'] + d, l + seq!['.'] + d),
{
    let pat = seq!['*', '.'] + d;
    let host = l + seq!['.'] + d;
    assert(pat[0] == '*');
    assert(host[0] == l[0]);
    if d.len() > 0 {
        assert(pat.last() == d.last());
        assert(host.last() == d.last());
    } else {
        assert(pat.last() == '.');
        assert(host.last() == '.');
    }
    lemma_trim_plain(pat);
    lemma_trim_plain(host);
    lemma_lower_concat(seq!['*', '.'], d);
    lemma_lower_concat(l + seq!['.'], d);
    lemma_lower_concat(l, seq!['.']);
    assert(lower(seq!['*', '.']) =~= seq!['*', '.']);
    assert(lower(seq!['.']) =~= seq!['.']);
    let p = lower(pat);
    let hh = lower(host);
    assert(p =~= seq!['*', '.'] + lower(d));
    assert(hh =~= lower(l) + seq!['.'] + lower(d));
    assert(p != seq!['*']) by {
        assert(p.len() >= 2);
    }
    assert(has_prefix(p, seq!['*', '.'])) by {
        assert(p.take(2) =~= seq!['*', '.']);
    }
    assert(p.skip(2) =~= lower(d));
    let suffix = p.skip(2);
    assert(hh.skip(hh.len() - suffix.len()) =~= suffix);
    let head = hh.take(hh.len() - suffix.len());
    assert(head =~= lower(l) + seq!['.']);
}

/// `*.d` does not admit `d` itself: the apex is not its own subdomain.
pub proof fn law_wildcard_excludes_apex(d: Seq<char>)
    requires
        d.len() == 0 || (!is_ws(d[0]) && !is_ws(d.last())),
    ensures
        !host_match_spec(seq!['*', '.'] + d, d),
{
    let pat = seq!['*', '.'] + d;
    assert(pat[0] == '*');
    if d.len() > 0 {
        assert(pat.last() == d.last());
    } else {
        assert(pat.last() == '.');
    }
    lemma_trim_plain(pat);
    lemma_trim_plain(d);
    lemma_lower_concat(seq!['*', '.'], d);
    assert(lower(seq!['*', '.']) =~= seq!['*', '.']);
    let p = lower(pat);
    assert(p =~= seq!['*', '.'] + lower(d));
    assert(p != seq!['*']) by {
        assert(p.len() >= 2);
    }
    assert(p.skip(2) =~= lower(d));
}

/// `*.d` does not admit a host that merely ends in `d` without a dot
/// before it (`evilexample.com` for `*.example.com`).
pub proof fn law_wildcard_needs_a_dot_boundary(x: Seq<char>, d: Seq<char>)
    requires
        x.len() > 0,
        !is_ws(x[0]),
        !is_ws(x.last()),
        x.last() != '.',
        d.len() == 0 || !is_ws(d.last()),
    ensures
        !host_match_spec(seq!['*', '.'] + d, x + d),
{
    let pat = seq!['*', '.'] + d;
    let host = x + d;
    assert(pat[0] == '*');
    assert(host[0] == x[0]);
    if d.len() > 0 {
        assert(pat.last() == d.last());
        assert(host.last() == d.last());
    } else {
        assert(pat.last() == '.');
        assert(host.last() == x.last());
    }
    lemma_trim_plain(pat);
    lemma_trim_plain(host);
    lemma_lower_concat(seq!['*', '.'], d);
    lemma_lower_concat(x, d);
    assert(lower(seq!['*', '.']) =~= seq!['*', '.']);
    let p = lower(pat);
    let hh = lower(host);
    assert(p =~= seq!['*', '.'] + lower(d));
    assert(p != seq!['*']) by {
        assert(p.len() >= 2);
    }
    assert(p.skip(2) =~= lower(d));
    let suffix = p.skip(2);
    let head = hh.take(hh.len() - suffix.len());
    assert(head =~= lower(x));
    assert(lower(x).last() == lower_char(x.last()));
}

} // verus!
