//! Credential handles the VM cannot read.
//!
//! `credential.get(name)` hands back opaque placeholders, not secrets. The
//! real values are substituted into the outgoing request by the HTTP wrapper,
//! after the policy has already decided the target is allowed, so a script
//! can compose a request that authenticates without ever holding the secret.

use vstd::prelude::*;

use crate::policy::{CredentialEntry, Policy};
use crate::text::{
    chars_of, contains_chars, contains_seq, has_prefix, occurs_at_exec, push_chars, push_str,
    string_of,
};

verus! {

/// The character that frames every part of a placeholder.
pub const MARK: char = '\u{1}';

/// The tag that names a placeholder as one.
pub open spec fn tag() -> Seq<char> {
    seq!['a', 's', 's', 'a', 'y', '-', 'c', 'r', 'e', 'd']
}

/// The placeholder standing for one field of one credential.
pub open spec fn placeholder_spec(name: Seq<char>, field: Seq<char>) -> Seq<char> {
    seq![MARK] + tag() + seq![MARK] + name + seq![MARK] + field + seq![MARK]
}

fn tag_chars() -> (r: Vec<char>)
    ensures
        r@ == tag(),
{
    let t = ['a', 's', 's', 'a', 'y', '-', 'c', 'r', 'e', 'd'];
    let mut v: Vec<char> = Vec::new();
    push_chars(&mut v, &t);
    assert(v@ =~= tag());
    v
}

/// The placeholder handed to a script for `name.field`.
pub fn placeholder(name: &str, field: &str) -> (r: String)
    ensures
        r@ == placeholder_spec(name@, field@),
{
    let mut v: Vec<char> = Vec::new();
    v.push(MARK);
    let t = tag_chars();
    push_chars(&mut v, &t);
    v.push(MARK);
    push_str(&mut v, name);
    v.push(MARK);
    push_str(&mut v, field);
    v.push(MARK);
    assert(v@ =~= placeholder_spec(name@, field@));
    string_of(&v)
}

/// Whether a text may hold a placeholder: it holds the mark and the tag.
pub open spec fn may_hold_placeholder(text: Seq<char>) -> bool {
    contains_seq(text, seq![MARK]) && contains_seq(text, tag())
}

/// Whether a text may hold a placeholder.
pub fn contains_placeholder(text: &str) -> (r: bool)
    ensures
        r == may_hold_placeholder(text@),
{
    let v = chars_of(text);
    let mark = [MARK];
    assert(mark@ =~= seq![MARK]);
    let t = tag_chars();
    contains_chars(&v, &mark) && contains_chars(&v, &t)
}

/// A placeholder in a URL would put the secret in a request line, and from
/// there into every access log on the path. Refuse instead of substituting.
pub fn reject_in_url(url: &str) -> (r: Result<(), String>)
    ensures
        r is Ok <==> !may_hold_placeholder(url@),
        r matches Err(e) ==> e@ == "credential: a credential handle cannot be used in a URL"@,
{
    if contains_placeholder(url) {
        let v = chars_of("credential: a credential handle cannot be used in a URL");
        return Err(string_of(&v));
    }
    Ok(())
}

/// Every occurrence of `pat` in `s`, left to right and without overlap,
/// replaced by `rep`, as `str::replace` does for a non-empty pattern.
pub open spec fn replace_all(s: Seq<char>, pat: Seq<char>, rep: Seq<char>) -> Seq<char>
    decreases s.len(),
{
    if pat.len() == 0 || s.len() == 0 {
        s
    } else if has_prefix(s, pat) {
        rep + replace_all(s.skip(pat.len() as int), pat, rep)
    } else {
        seq![s[0]] + replace_all(s.drop_first(), pat, rep)
    }
}

/// `str::replace` for a non-empty pattern.
pub fn replace_chars(s: &[char], pat: &[char], rep: &[char]) -> (r: Vec<char>)
    requires
        pat@.len() > 0,
    ensures
        r@ == replace_all(s@, pat@, rep@),
{
    let mut out: Vec<char> = Vec::new();
    let mut i: usize = 0;
    assert(s@.skip(0) =~= s@);
    assert(out@ + replace_all(s@, pat@, rep@) =~= replace_all(s@, pat@, rep@));
    while i < s.len()
        invariant
            i <= s.len(),
            pat@.len() > 0,
            out@ + replace_all(s@.skip(i as int), pat@, rep@) == replace_all(s@, pat@, rep@),
        decreases s.len() - i,
    {
        let rest = Ghost(s@.skip(i as int));
        if occurs_at_exec(s, pat, i) {
            assert(s@.subrange(i as int, i + pat@.len()) =~= rest@.take(pat@.len() as int));
            assert(rest@.skip(pat@.len() as int) =~= s@.skip(i + pat@.len()));
            push_chars(&mut out, rep);
            i += pat.len();
        } else {
            proof {
                if has_prefix(rest@, pat@) {
                    assert(s@.subrange(i as int, i + pat@.len()) =~= rest@.take(pat@.len() as int));
                }
            }
            assert(rest@.drop_first() =~= s@.skip(i + 1));
            assert(rest@[0] == s@[i as int]);
            out.push(s[i]);
            i += 1;
        }
        assert(out@ + replace_all(s@.skip(i as int), pat@, rep@) =~= replace_all(s@, pat@, rep@));
    }
    assert(s@.skip(i as int) =~= Seq::<char>::empty());
    assert(out@ =~= out@ + replace_all(s@.skip(i as int), pat@, rep@));
    out
}

/// The value an environment listing gives a variable: the first entry with
/// that name, or nothing.
pub open spec fn env_lookup(env: Seq<(String, String)>, key: Seq<char>) -> Seq<char>
    decreases env.len(),
{
    if env.len() == 0 {
        Seq::empty()
    } else if env[0].0@ == key {
        env[0].1@
    } else {
        env_lookup(env.drop_first(), key)
    }
}

fn lookup_env(env: &[(String, String)], key: &str) -> (r: Vec<char>)
    ensures
        r@ == env_lookup(env@, key@),
{
    let k = chars_of(key);
    let mut i: usize = 0;
    assert(env@.skip(0) =~= env@);
    while i < env.len()
        invariant
            i <= env.len(),
            k@ == key@,
            env_lookup(env@, key@) == env_lookup(env@.skip(i as int), key@),
        decreases env.len() - i,
    {
        assert(env@.skip(i as int).drop_first() =~= env@.skip(i + 1));
        assert(env@.skip(i as int)[0] == env@[i as int]);
        let name = chars_of(env[i].0.as_str());
        if crate::text::chars_eq(&name, &k) {
            return chars_of(env[i].1.as_str());
        }
        i += 1;
    }
    Vec::new()
}

/// The placeholder of every declared field, in declaration order, each with
/// the variable that holds its value.
pub open spec fn tokens_of(creds: Seq<CredentialEntry>) -> Seq<(Seq<char>, Seq<char>)>
    decreases creds.len(),
{
    if creds.len() == 0 {
        Seq::empty()
    } else {
        field_tokens(creds[0].name@, creds[0].fields@) + tokens_of(creds.drop_first())
    }
}

/// The placeholders of one credential's fields.
pub open spec fn field_tokens(name: Seq<char>, fields: Seq<(String, String)>) -> Seq<(Seq<char>, Seq<char>)> {
    fields.map_values(|f: (String, String)| (placeholder_spec(name, f.0@), f.1@))
}

/// Substitute each placeholder in turn, from token `k` on.
pub open spec fn expand_from(
    toks: Seq<(Seq<char>, Seq<char>)>,
    text: Seq<char>,
    env: Seq<(String, String)>,
    k: int,
) -> Seq<char>
    decreases toks.len() - k,
{
    if k < 0 || k >= toks.len() {
        text
    } else {
        let next = if contains_seq(text, toks[k].0) {
            replace_all(text, toks[k].0, env_lookup(env, toks[k].1))
        } else {
            text
        };
        expand_from(toks, next, env, k + 1)
    }
}

proof fn lemma_tokens_concat(a: Seq<CredentialEntry>, b: Seq<CredentialEntry>)
    ensures
        tokens_of(a + b) == tokens_of(a) + tokens_of(b),
    decreases a.len(),
{
    if a.len() == 0 {
        assert(a + b =~= b);
        assert(tokens_of(a) =~= Seq::<(Seq<char>, Seq<char>)>::empty());
        assert(tokens_of(a) + tokens_of(b) =~= tokens_of(b));
    } else {
        assert((a + b).drop_first() =~= a.drop_first() + b);
        assert((a + b)[0] == a[0]);
        lemma_tokens_concat(a.drop_first(), b);
        assert(tokens_of(a + b) =~= tokens_of(a) + tokens_of(b));
    }
}

proof fn lemma_expand_split(
    t1: Seq<(Seq<char>, Seq<char>)>,
    t2: Seq<(Seq<char>, Seq<char>)>,
    text: Seq<char>,
    env: Seq<(String, String)>,
    k: int,
)
    requires
        0 <= k <= t1.len(),
    ensures
        expand_from(t1 + t2, text, env, k) == expand_from(t2, expand_from(t1, text, env, k), env, 0),
    decreases t1.len() - k,
{
    let t = t1 + t2;
    if k < t1.len() {
        assert(t[k] == t1[k]);
        let next = if contains_seq(text, t1[k].0) {
            replace_all(text, t1[k].0, env_lookup(env, t1[k].1))
        } else {
            text
        };
        lemma_expand_split(t1, t2, next, env, k + 1);
    } else {
        lemma_expand_shift(t1, t2, text, env, 0);
    }
}

proof fn lemma_expand_shift(
    t1: Seq<(Seq<char>, Seq<char>)>,
    t2: Seq<(Seq<char>, Seq<char>)>,
    text: Seq<char>,
    env: Seq<(String, String)>,
    j: int,
)
    requires
        0 <= j <= t2.len(),
    ensures
        expand_from(t1 + t2, text, env, t1.len() + j) == expand_from(t2, text, env, j),
    decreases t2.len() - j,
{
    if j < t2.len() {
        assert((t1 + t2)[t1.len() + j] == t2[j]);
        let next = if contains_seq(text, t2[j].0) {
            replace_all(text, t2[j].0, env_lookup(env, t2[j].1))
        } else {
            text
        };
        lemma_expand_shift(t1, t2, next, env, j + 1);
    }
}

/// Replace placeholders with the values of the variables they stand for, a
/// moment before a request leaves: credentials in name order, fields in
/// order, each placeholder present in the text replaced everywhere by the
/// value `env` gives its variable (nothing, when `env` has none).
pub fn expand(policy: &Policy, text: &str, env: &[(String, String)]) -> (r: String)
    ensures
        r@ == expand_from(tokens_of(policy.credentials@), text@, env@, 0),
{
    let creds = &policy.credentials;
    let mut out = chars_of(text);
    let mut c: usize = 0;
    assert(creds@.skip(0) =~= creds@);
    while c < creds.len()
        invariant
            c <= creds.len(),
            expand_from(tokens_of(creds@), text@, env@, 0) == expand_from(
                tokens_of(creds@.skip(c as int)),
                out@,
                env@,
                0,
            ),
        decreases creds.len() - c,
    {
        let entry = &creds[c];
        let ghost toks = field_tokens(entry.name@, entry.fields@);
        let ghost later = tokens_of(creds@.skip(c + 1));
        assert(creds@.skip(c as int) =~= seq![*entry] + creds@.skip(c + 1));
        proof {
            lemma_tokens_concat(seq![*entry], creds@.skip(c + 1));
            assert(seq![*entry].drop_first() =~= Seq::<CredentialEntry>::empty());
            assert(tokens_of(seq![*entry].drop_first()) =~= Seq::<(Seq<char>, Seq<char>)>::empty());
            assert(seq![*entry][0] == *entry);
            assert(tokens_of(seq![*entry]) =~= toks);
            lemma_expand_split(toks, later, out@, env@, 0);
        }
        let ghost start = out@;
        let mut f: usize = 0;
        while f < entry.fields.len()
            invariant
                f <= entry.fields.len(),
                toks == field_tokens(entry.name@, entry.fields@),
                expand_from(toks, start, env@, 0) == expand_from(toks, out@, env@, f as int),
            decreases entry.fields.len() - f,
        {
            let tok = placeholder(entry.name.as_str(), entry.fields[f].0.as_str());
            let tv = chars_of(tok.as_str());
            assert(toks[f as int].0 == tv@);
            assert(toks[f as int].1 == entry.fields@[f as int].1@);
            if contains_chars(&out, &tv) {
                let value = lookup_env(env, entry.fields[f].1.as_str());
                out = replace_chars(&out, &tv, &value);
            }
            f += 1;
        }
        c += 1;
    }
    assert(creds@.skip(c as int) =~= Seq::<CredentialEntry>::empty());
    assert(tokens_of(Seq::<CredentialEntry>::empty()) =~= Seq::<(Seq<char>, Seq<char>)>::empty());
    string_of(&out)
}

} // verus!
