//! The digest that binds an approval to one exact call: the operation's
//! name and a canonical rendering of its arguments, hashed with SHA-256.
//! Tables are rendered with their keys sorted, so two tables with the same
//! entries digest alike whatever order they were walked in.

use vstd::prelude::*;
use vstd::utf8::{decode_utf8, encode_utf8, valid_utf8};
use crate::text::{chars_of, string_of, int_dec, int_chars, views, text_lt, text_lt_exec,
    lemma_text_lt_irreflexive, lemma_text_lt_total, lemma_text_lt_transitive};
use crate::crypto::{sha256_digest, sha256_spec, hex_lower_bytes, hex_lower_string};
use crate::dns_wire::utf8_text;
use crate::gates::{header_names, strictly_sorted};

verus! {

/// A value of the scripting language, as the digest sees it.
#[derive(Debug)]
pub enum LuaValue {
    Nil,
    Boolean(bool),
    Integer(i64),
    /// A float, by the text `to_string` gives it.
    Number(String),
    /// A string, by its bytes.
    Str(Vec<u8>),
    /// A table, by its entries in the order they were walked.
    Table(Vec<(LuaValue, LuaValue)>),
    /// Any other value, by its type name.
    Other(String),
}

/// How a table key is written: a string as its text (empty where it is
/// not UTF-8), a number or a boolean as `to_string` writes it, anything
/// else by its type name.
pub open spec fn key_repr(k: LuaValue) -> Seq<char> {
    match k {
        LuaValue::Str(b) => if valid_utf8(b@) {
            decode_utf8(b@)
        } else {
            Seq::empty()
        },
        LuaValue::Integer(i) => int_dec(i as int),
        LuaValue::Number(t) => t@,
        LuaValue::Boolean(b) => if b {
            "true"@
        } else {
            "false"@
        },
        LuaValue::Nil => "nil"@,
        LuaValue::Table(_) => "table"@,
        LuaValue::Other(n) => n@,
    }
}

/// How a table key is written.
pub fn key_text(k: &LuaValue) -> (r: String)
    ensures
        r@ == key_repr(*k),
{
    match k {
        LuaValue::Str(b) => match utf8_text(b.as_slice()) {
            Some(s) => s,
            None => string_of(&Vec::new()),
        },
        LuaValue::Integer(i) => string_of(&int_chars(*i)),
        LuaValue::Number(t) => string_of(&chars_of(t.as_str())),
        LuaValue::Boolean(b) => if *b {
            string_of(&chars_of("true"))
        } else {
            string_of(&chars_of("false"))
        },
        LuaValue::Nil => string_of(&chars_of("nil")),
        LuaValue::Table(_) => string_of(&chars_of("table")),
        LuaValue::Other(n) => string_of(&chars_of(n.as_str())),
    }
}

/// The first position from `q` on in `ord` whose key sorts after `k`, or
/// the end.
pub open spec fn first_after(ord: Seq<int>, keys: Seq<Seq<char>>, k: Seq<char>, q: int) -> int
    decreases ord.len() - q,
{
    if q < 0 || q >= ord.len() {
        ord.len() as int
    } else if text_lt(k, keys[ord[q]]) {
        q
    } else {
        first_after(ord, keys, k, q + 1)
    }
}

/// The positions of the first `n` keys in sorted order, equal keys in the
/// order they came: each position is inserted after every key that does
/// not sort after its own.
pub open spec fn sorted_order(keys: Seq<Seq<char>>, n: nat) -> Seq<int>
    decreases n,
{
    if n == 0 {
        Seq::empty()
    } else {
        let ord = sorted_order(keys, (n - 1) as nat);
        let p = first_after(ord, keys, keys[n - 1], 0);
        ord.take(p) + seq![n - 1] + ord.skip(p)
    }
}

proof fn lemma_first_after_bounds(ord: Seq<int>, keys: Seq<Seq<char>>, k: Seq<char>, q: int)
    requires
        0 <= q <= ord.len(),
    ensures
        q <= first_after(ord, keys, k, q) <= ord.len(),
    decreases ord.len() - q,
{
    if q < ord.len() && !text_lt(k, keys[ord[q]]) {
        lemma_first_after_bounds(ord, keys, k, q + 1);
    }
}

proof fn lemma_sorted_order_range(keys: Seq<Seq<char>>, n: nat)
    ensures
        sorted_order(keys, n).len() == n,
        forall|q: int| 0 <= q < n ==> 0 <= #[trigger] sorted_order(keys, n)[q] < n,
    decreases n,
{
    if n > 0 {
        lemma_sorted_order_range(keys, (n - 1) as nat);
        let ord = sorted_order(keys, (n - 1) as nat);
        lemma_first_after_bounds(ord, keys, keys[n - 1], 0);
        let p = first_after(ord, keys, keys[n - 1], 0);
        let r = ord.take(p) + seq![n - 1] + ord.skip(p);
        assert forall|q: int| 0 <= q < n implies 0 <= #[trigger] r[q] < n by {
            if q < p {
                assert(r[q] == ord[q]);
            } else if q > p {
                assert(r[q] == ord[q - 1]);
            }
        }
    }
}

/// The bytes of a text.
pub open spec fn bytes_of(s: Seq<char>) -> Seq<u8> {
    encode_utf8(s)
}

/// How each key of a table's entries is written, in order.
pub open spec fn table_keys(es: Seq<(LuaValue, LuaValue)>) -> Seq<Seq<char>> {
    Seq::new(es.len(), |j: int| key_repr(es[j].0))
}

/// The canonical rendering of a value at a nesting depth: past depth 16
/// only `deep`; a table as `{`, then its entries in key order, then `}`;
/// any other value by its text or bytes.
pub open spec fn absorb(v: LuaValue, depth: int) -> Seq<u8>
    decreases 17 - depth, 1int, 0int,
{
    if depth > 16 || depth < 0 {
        bytes_of("deep"@)
    } else {
        match v {
            LuaValue::Nil => bytes_of("nil"@),
            LuaValue::Boolean(b) => if b {
                bytes_of("true"@)
            } else {
                bytes_of("false"@)
            },
            LuaValue::Integer(i) => bytes_of(int_dec(i as int)),
            LuaValue::Number(t) => bytes_of(t@),
            LuaValue::Str(b) => b@,
            LuaValue::Table(es) => bytes_of("{"@) + entries_render(
                es@,
                sorted_order(table_keys(es@), es@.len()),
                depth,
            ) + bytes_of("}"@),
            LuaValue::Other(n) => bytes_of(n@),
        }
    }
}

/// The entries of a table at the positions `ord`, each as `key=value;`,
/// the value rendered one level deeper.
pub open spec fn entries_render(es: Seq<(LuaValue, LuaValue)>, ord: Seq<int>, depth: int) -> Seq<u8>
    decreases 17 - depth, 0int, ord.len(),
{
    if ord.len() == 0 || depth > 16 || depth < 0 {
        Seq::empty()
    } else {
        let i = ord.last();
        entries_render(es, ord.drop_last(), depth) + bytes_of(key_repr(es[i].0)) + bytes_of("="@)
            + absorb(es[i].1, depth + 1) + bytes_of(";"@)
    }
}

/// What is hashed for a call: the operation's name, then for each
/// argument a zero byte and the argument's rendering.
pub open spec fn digest_input(op: Seq<char>, args: Seq<LuaValue>) -> Seq<u8> {
    bytes_of(op) + Seq::new(args.len(), |i: int| seq![0u8] + absorb(args[i], 0)).flatten()
}

fn append_bytes(v: &mut Vec<u8>, b: &[u8])
    ensures
        final(v)@ == old(v)@ + b@,
{
    let ghost start = v@;
    let mut i: usize = 0;
    while i < b.len()
        invariant
            i <= b.len(),
            v@ == start + b@.take(i as int),
        decreases b.len() - i,
    {
        v.push(b[i]);
        i += 1;
        assert(v@ =~= start + b@.take(i as int));
    }
    assert(b@.take(b.len() as int) =~= b@);
}

fn append_text(v: &mut Vec<u8>, s: &str)
    ensures
        final(v)@ == old(v)@ + bytes_of(s@),
{
    append_bytes(v, s.as_bytes());
}

/// The positions of keys in sorted order, equal keys in the order they
/// came.
pub fn sort_positions(keys: &Vec<String>) -> (r: Vec<usize>)
    ensures
        r@.len() == keys@.len(),
        forall|q: int| 0 <= q < r@.len() ==> r@[q] == sorted_order(views(keys@), keys@.len())[q],
{
    let ghost ks = views(keys@);
    let mut ord: Vec<usize> = Vec::new();
    let mut n: usize = 0;
    while n < keys.len()
        invariant
            n <= keys@.len(),
            ks == views(keys@),
            ord@.len() == n,
            forall|q: int| 0 <= q < n ==> ord@[q] == sorted_order(ks, n as nat)[q],
        decreases keys@.len() - n,
    {
        let k = chars_of(keys[n].as_str());
        let ghost prev = sorted_order(ks, n as nat);
        assert(ks[n as int] == k@);
        proof {
            lemma_sorted_order_range(ks, n as nat);
        }
        let mut p: usize = 0;
        while p < ord.len() && !text_lt_exec(&k, &chars_of(keys[ord[p]].as_str()))
            invariant
                p <= ord@.len(),
                ord@.len() == n,
                n < keys@.len(),
                ks == views(keys@),
                forall|q: int| 0 <= q < n ==> ord@[q] == prev[q],
                prev == sorted_order(ks, n as nat),
                first_after(prev, ks, k@, 0) == first_after(prev, ks, k@, p as int),
                forall|q: int| 0 <= q < n ==> 0 <= #[trigger] prev[q] < n,
            decreases ord@.len() - p,
        {
            proof {
                lemma_sorted_order_range(ks, n as nat);
                assert(prev[p as int] == ord@[p as int] as int);
            }
            p += 1;
        }
        proof {
            lemma_sorted_order_range(ks, n as nat);
            lemma_sorted_order_range(ks, (n + 1) as nat);
            if p < ord.len() {
                assert(prev[p as int] == ord@[p as int] as int);
            }
            assert(prev.len() == n);
            assert(first_after(prev, ks, k@, p as int) == p);
        }
        let ghost before = ord@;
        ord.insert(p, n);
        n += 1;
        proof {
            let now = sorted_order(ks, n as nat);
            assert(now == prev.take(p as int) + seq![n - 1] + prev.skip(p as int));
            assert forall|q: int| 0 <= q < n implies ord@[q] == now[q] by {
                if q < p {
                    assert(ord@[q] == before[q]);
                } else if q > p {
                    assert(ord@[q] == before[q - 1]);
                }
            }
        }
    }
    ord
}

/// Writes a value's canonical rendering at `depth` onto `out`.
pub fn absorb_into(v: &LuaValue, depth: usize, out: &mut Vec<u8>)
    ensures
        final(out)@ == old(out)@ + absorb(*v, depth as int),
    decreases 17 - depth,
{
    if depth > 16 {
        append_text(out, "deep");
        return;
    }
    match v {
        LuaValue::Nil => append_text(out, "nil"),
        LuaValue::Boolean(b) => if *b {
            append_text(out, "true")
        } else {
            append_text(out, "false")
        },
        LuaValue::Integer(i) => {
            let s = string_of(&int_chars(*i));
            append_text(out, s.as_str());
        },
        LuaValue::Number(t) => append_text(out, t.as_str()),
        LuaValue::Str(b) => append_bytes(out, b.as_slice()),
        LuaValue::Table(es) => {
            let ghost start = out@;
            let mut keys: Vec<String> = Vec::new();
            let mut j: usize = 0;
            while j < es.len()
                invariant
                    j <= es@.len(),
                    keys@.len() == j,
                    forall|i: int| 0 <= i < j ==> (#[trigger] keys@[i])@ == key_repr(es@[i].0),
                decreases es@.len() - j,
            {
                keys.push(key_text(&es[j].0));
                j += 1;
            }
            let ghost ks = table_keys(es@);
            assert(views(keys@) =~= ks);
            let ord = sort_positions(&keys);
            let ghost sord = sorted_order(ks, es@.len());
            proof {
                lemma_sorted_order_range(ks, es@.len());
            }
            append_text(out, "{");
            let mut q: usize = 0;
            assert(sord.take(0) =~= Seq::<int>::empty());
            while q < ord.len()
                invariant
                    q <= ord@.len(),
                    ord@.len() == es@.len(),
                    keys@.len() == es@.len(),
                    depth <= 16,
                    forall|i: int| 0 <= i < keys@.len() ==> (#[trigger] keys@[i])@ == ks[i],
                    ks == table_keys(es@),
                    forall|i: int| 0 <= i < ord@.len() ==> ord@[i] == sord[i],
                    forall|i: int| 0 <= i < es@.len() ==> 0 <= #[trigger] sord[i] < es@.len(),
                    sord.len() == es@.len(),
                    out@ == start + bytes_of("{"@) + entries_render(es@, sord.take(q as int), depth as int),
                decreases ord@.len() - q,
            {
                let idx = ord[q];
                assert(idx as int == sord[q as int]);
                let ghost mid = out@;
                append_text(out, keys[idx].as_str());
                append_text(out, "=");
                absorb_into(&es[idx].1, depth + 1, out);
                append_text(out, ";");
                proof {
                    let t = sord.take(q + 1);
                    assert(t.drop_last() =~= sord.take(q as int));
                    assert(t.last() == idx as int);
                    assert(keys@[idx as int]@ == key_repr(es@[idx as int].0));
                    assert(out@ =~= mid + bytes_of(key_repr(es@[idx as int].0)) + bytes_of("="@) + absorb(
                        es@[idx as int].1,
                        depth + 1,
                    ) + bytes_of(";"@));
                }
                q += 1;
            }
            append_text(out, "}");
            assert(sord.take(q as int) =~= sord);
        },
        LuaValue::Other(n) => append_text(out, n.as_str()),
    }
}

/// The digest that binds a grant to one exact call: SHA-256, in
/// lower-case hex, of the operation's name followed, for each argument,
/// by a zero byte and the argument's canonical rendering.
pub fn operation_digest(op: &str, args: &[LuaValue]) -> (r: String)
    ensures
        r@ == hex_lower_bytes(sha256_spec(digest_input(op@, args@))),
{
    let mut buf: Vec<u8> = Vec::new();
    append_text(&mut buf, op);
    let ghost f = |i: int| seq![0u8] + absorb(args@[i], 0);
    let mut i: usize = 0;
    assert(Seq::new(0, f) =~= Seq::<Seq<u8>>::empty());
    while i < args.len()
        invariant
            i <= args@.len(),
            buf@ == bytes_of(op@) + Seq::new(i as nat, f).flatten(),
            f == (|i: int| seq![0u8] + absorb(args@[i], 0)),
        decreases args@.len() - i,
    {
        let ghost mid = buf@;
        buf.push(0u8);
        absorb_into(&args[i], 0, &mut buf);
        assert(buf@ == mid.push(0u8) + absorb(args@[i as int], 0));
        assert(f(i as int) == seq![0u8] + absorb(args@[i as int], 0));
        proof {
            assert(Seq::new((i + 1) as nat, f) =~= Seq::new(i as nat, f).push(f(i as int)));
            Seq::new(i as nat, f).lemma_flatten_push(f(i as int));
            assert(buf@ =~= mid + f(i as int));
        }
        i += 1;
    }
    let d = sha256_digest(buf.as_slice());
    hex_lower_string(&d)
}


/// Whether a value is the string `headers`.
pub open spec fn is_headers_key(k: LuaValue) -> bool {
    k matches LuaValue::Str(b) && b@ == bytes_of("headers"@)
}

/// The position of the first entry keyed `headers` at or after `j`, or
/// the end.
pub open spec fn headers_entry(es: Seq<(LuaValue, LuaValue)>, j: int) -> int
    decreases es.len() - j,
{
    if j < 0 || j >= es.len() {
        es.len() as int
    } else if is_headers_key(es[j].0) {
        j
    } else {
        headers_entry(es, j + 1)
    }
}

/// The header names one argument carries: where it is a table whose
/// `headers` entry is a table, how each key of that table is written.
pub open spec fn arg_header_names(v: LuaValue) -> Seq<Seq<char>> {
    match v {
        LuaValue::Table(es) => {
            let j = headers_entry(es@, 0);
            if j < es@.len() {
                match es@[j].1 {
                    LuaValue::Table(hs) => table_keys(hs@),
                    _ => Seq::empty(),
                }
            } else {
                Seq::empty()
            }
        },
        _ => Seq::empty(),
    }
}

/// The header names of all the arguments, in order.
pub open spec fn all_header_names(args: Seq<LuaValue>) -> Seq<Seq<char>> {
    Seq::new(args.len(), |i: int| arg_header_names(args[i])).flatten()
}

fn is_headers(k: &LuaValue) -> (r: bool)
    ensures
        r == is_headers_key(*k),
{
    match k {
        LuaValue::Str(b) => {
            let h = "headers".as_bytes();
            if b.len() != h.len() {
                assert(b@ != h@);
                return false;
            }
            let mut i: usize = 0;
            while i < h.len()
                invariant
                    i <= h@.len(),
                    b@.len() == h@.len(),
                    h@ == bytes_of("headers"@),
                    is_headers_key(*k) == (b@ == h@),
                    forall|k: int| 0 <= k < i ==> b@[k] == h@[k],
                decreases h@.len() - i,
            {
                if b[i] != h[i] {
                    assert(b@[i as int] != h@[i as int]);
                    assert(b@ != h@);
                    return false;
                }
                i += 1;
            }
            assert(b@ =~= h@);
            true
        },
        _ => false,
    }
}

fn push_header_names(v: &LuaValue, names: &mut Vec<String>)
    ensures
        views(final(names)@) == views(old(names)@) + arg_header_names(*v),
{
    let ghost start = views(names@);
    match v {
        LuaValue::Table(es) => {
            let mut j: usize = 0;
            while j < es.len() && !is_headers(&es[j].0)
                invariant
                    j <= es@.len(),
                    headers_entry(es@, 0) == headers_entry(es@, j as int),
                decreases es@.len() - j,
            {
                j += 1;
            }
            if j < es.len() {
                match &es[j].1 {
                    LuaValue::Table(hs) => {
                        let mut k: usize = 0;
                        while k < hs.len()
                            invariant
                                k <= hs@.len(),
                                views(names@) == start + table_keys(hs@).take(k as int),
                            decreases hs@.len() - k,
                        {
                            let ghost before = names@;
                            let t = key_text(&hs[k].0);
                            names.push(t);
                            assert(views(names@) =~= views(before).push(key_repr(hs@[k as int].0)));
                            assert(table_keys(hs@).take(k + 1) =~= table_keys(hs@).take(k as int).push(
                                key_repr(hs@[k as int].0),
                            ));
                            k += 1;
                            assert(views(names@) =~= start + table_keys(hs@).take(k as int));
                        }
                        assert(table_keys(hs@).take(k as int) =~= table_keys(hs@));
                    },
                    _ => {
                        assert(views(names@) =~= start + Seq::<Seq<char>>::empty());
                    },
                }
            } else {
                assert(views(names@) =~= start + Seq::<Seq<char>>::empty());
            }
        },
        _ => {
            assert(views(names@) =~= start + Seq::<Seq<char>>::empty());
        },
    }
}

/// The header names a call carries, each once and in order: the keys of
/// the `headers` table of each table argument. Their values stay out of
/// what a person is shown.
pub fn header_names_of(args: &[LuaValue]) -> (r: Vec<String>)
    ensures
        strictly_sorted(views(r@)),
        forall|x: Seq<char>| views(r@).contains(x) <==> all_header_names(args@).contains(x),
{
    let mut names: Vec<String> = Vec::new();
    let ghost f = |i: int| arg_header_names(args@[i]);
    let mut i: usize = 0;
    assert(Seq::new(0, f) =~= Seq::<Seq<Seq<char>>>::empty());
    assert(views(names@) =~= Seq::<Seq<char>>::empty());
    while i < args.len()
        invariant
            i <= args@.len(),
            views(names@) == Seq::new(i as nat, f).flatten(),
            f == (|i: int| arg_header_names(args@[i])),
        decreases args@.len() - i,
    {
        push_header_names(&args[i], &mut names);
        proof {
            assert(Seq::new((i + 1) as nat, f) =~= Seq::new(i as nat, f).push(f(i as int)));
            Seq::new(i as nat, f).lemma_flatten_push(f(i as int));
        }
        i += 1;
    }
    header_names(names)
}


/// Whether `i` stands somewhere in `ord`.
pub open spec fn covers(ord: Seq<int>, i: int) -> bool {
    exists|q: int| 0 <= q < ord.len() && ord[q] == i
}

proof fn lemma_first_after_facts(ord: Seq<int>, keys: Seq<Seq<char>>, k: Seq<char>, q: int)
    requires
        0 <= q <= ord.len(),
    ensures
        forall|t: int| q <= t < first_after(ord, keys, k, q) ==> !text_lt(k, #[trigger] keys[ord[t]]),
        first_after(ord, keys, k, q) < ord.len() ==> text_lt(k, keys[ord[first_after(ord, keys, k, q)]]),
        q <= first_after(ord, keys, k, q) <= ord.len(),
    decreases ord.len() - q,
{
    if q < ord.len() && !text_lt(k, keys[ord[q]]) {
        lemma_first_after_facts(ord, keys, k, q + 1);
    }
}

/// Positions in `sorted_order`: every one of the first `n` exactly once.
proof fn lemma_sorted_order_perm(keys: Seq<Seq<char>>, n: nat)
    ensures
        sorted_order(keys, n).len() == n,
        forall|q: int| 0 <= q < n ==> 0 <= #[trigger] sorted_order(keys, n)[q] < n,
        forall|q1: int, q2: int|
            0 <= q1 < n && 0 <= q2 < n && q1 != q2 ==> #[trigger] sorted_order(keys, n)[q1]
                != #[trigger] sorted_order(keys, n)[q2],
        forall|i: int| 0 <= i < n ==> #[trigger] covers(sorted_order(keys, n), i),
    decreases n,
{
    if n > 0 {
        lemma_sorted_order_perm(keys, (n - 1) as nat);
        let ord = sorted_order(keys, (n - 1) as nat);
        lemma_first_after_bounds(ord, keys, keys[n - 1], 0);
        let p = first_after(ord, keys, keys[n - 1], 0);
        let r = sorted_order(keys, n);
        assert(r == ord.take(p) + seq![n - 1] + ord.skip(p));
        assert forall|q: int| 0 <= q < n implies r[q] == (if q < p {
            ord[q]
        } else if q == p {
            n - 1
        } else {
            ord[q - 1]
        }) by {}
        assert forall|i: int| 0 <= i < n implies #[trigger] covers(r, i) by {
            if i == n - 1 {
                assert(r[p] == i);
            } else {
                assert(covers(ord, i));
                let q = choose|q: int| 0 <= q < ord.len() && ord[q] == i;
                if q < p {
                    assert(r[q] == i);
                } else {
                    assert(r[q + 1] == i);
                }
            }
        }
    }
}

/// `sorted_order` puts no key after one that sorts before it.
proof fn lemma_sorted_order_sorted(keys: Seq<Seq<char>>, n: nat)
    ensures
        forall|q1: int, q2: int|
            0 <= q1 < q2 < n ==> !text_lt(
                #[trigger] keys[sorted_order(keys, n)[q2]],
                #[trigger] keys[sorted_order(keys, n)[q1]],
            ),
    decreases n,
{
    if n > 0 {
        lemma_sorted_order_sorted(keys, (n - 1) as nat);
        lemma_sorted_order_perm(keys, (n - 1) as nat);
        let ord = sorted_order(keys, (n - 1) as nat);
        let k = keys[n - 1];
        lemma_first_after_facts(ord, keys, k, 0);
        let p = first_after(ord, keys, k, 0);
        let r = sorted_order(keys, n);
        assert(r == ord.take(p) + seq![n - 1] + ord.skip(p));
        assert forall|q: int| p <= q < n - 1 implies !text_lt(#[trigger] keys[ord[q]], k) by {
            assert(text_lt(k, keys[ord[p]]));
            if q > p {
                assert(!text_lt(keys[ord[q]], keys[ord[p]]));
                lemma_text_lt_total(keys[ord[q]], keys[ord[p]]);
                if keys[ord[q]] != keys[ord[p]] {
                    lemma_text_lt_transitive(k, keys[ord[p]], keys[ord[q]]);
                }
            }
            lemma_text_lt_total(k, keys[ord[q]]);
        }
        assert forall|q1: int, q2: int| 0 <= q1 < q2 < n implies !text_lt(
            #[trigger] keys[r[q2]],
            #[trigger] keys[r[q1]],
        ) by {
            let a = if q1 < p { q1 } else { q1 - 1 };
            let b = if q2 < p { q2 } else { q2 - 1 };
            if q1 == p {
                assert(r[q1] == n - 1);
                assert(r[q2] == ord[b]);
            } else if q2 == p {
                assert(r[q2] == n - 1);
                assert(r[q1] == ord[a]);
            } else {
                assert(r[q1] == ord[a]);
                assert(r[q2] == ord[b]);
                assert(a < b);
            }
        }
    }
}

proof fn lemma_entries_render_eq(
    es1: Seq<(LuaValue, LuaValue)>,
    o1: Seq<int>,
    es2: Seq<(LuaValue, LuaValue)>,
    o2: Seq<int>,
    depth: int,
)
    requires
        o1.len() == o2.len(),
        forall|q: int| 0 <= q < o1.len() ==> es1[o1[q]] == es2[o2[q]],
    ensures
        entries_render(es1, o1, depth) == entries_render(es2, o2, depth),
    decreases o1.len(),
{
    if o1.len() > 0 && 0 <= depth <= 16 {
        lemma_entries_render_eq(es1, o1.drop_last(), es2, o2.drop_last(), depth);
        assert(es1[o1.last()] == es2[o2.last()]);
    }
}

/// The key a table entry is written under.
pub open spec fn kx(e: (LuaValue, LuaValue)) -> Seq<char> {
    key_repr(e.0)
}

proof fn lemma_same_sorted(s1: Seq<(LuaValue, LuaValue)>, s2: Seq<(LuaValue, LuaValue)>, q: int)
    requires
        s1.len() == s2.len(),
        0 <= q < s1.len(),
        forall|a: int, b: int| 0 <= a < b < s1.len() ==> text_lt(#[trigger] kx(s1[a]), #[trigger] kx(s1[b])),
        forall|a: int, b: int| 0 <= a < b < s2.len() ==> text_lt(#[trigger] kx(s2[a]), #[trigger] kx(s2[b])),
        forall|a: int| 0 <= a < s1.len() ==> s2.contains(#[trigger] s1[a]),
        forall|a: int| 0 <= a < s2.len() ==> s1.contains(#[trigger] s2[a]),
    ensures
        forall|t: int| 0 <= t <= q ==> s1[t] == s2[t],
    decreases q,
{
    if q > 0 {
        lemma_same_sorted(s1, s2, q - 1);
    }
    assert(s2.contains(s1[q]));
    let r = choose|b: int| 0 <= b < s2.len() && s2[b] == s1[q];
    assert(s1.contains(s2[q]));
    let t = choose|b: int| 0 <= b < s1.len() && s1[b] == s2[q];
    if r < q {
        assert(s1[r] == s2[r]);
        assert(text_lt(kx(s1[r]), kx(s1[q])));
        lemma_text_lt_irreflexive(kx(s1[q]));
    } else if r > q {
        if t < q {
            assert(s1[t] == s2[t]);
            assert(text_lt(kx(s2[t]), kx(s2[q])));
            lemma_text_lt_irreflexive(kx(s2[q]));
        } else if t > q {
            assert(text_lt(kx(s1[q]), kx(s1[t])));
            assert(text_lt(kx(s2[q]), kx(s2[r])));
            lemma_text_lt_transitive(kx(s1[q]), kx(s2[q]), kx(s1[q]));
            lemma_text_lt_irreflexive(kx(s1[q]));
        }
    }
}

/// The entries of a table, in the order they are rendered.
pub open spec fn rendered_entries(es: Seq<(LuaValue, LuaValue)>) -> Seq<(LuaValue, LuaValue)> {
    Seq::new(es.len(), |q: int| es[sorted_order(table_keys(es), es.len())[q]])
}

proof fn lemma_rendered_strict(es: Seq<(LuaValue, LuaValue)>)
    requires
        forall|i: int, j: int| 0 <= i < j < es.len() ==> key_repr(#[trigger] es[i].0) != key_repr(
            #[trigger] es[j].0,
        ),
    ensures
        forall|a: int, b: int|
            0 <= a < b < es.len() ==> text_lt(
                #[trigger] kx(rendered_entries(es)[a]),
                #[trigger] kx(rendered_entries(es)[b]),
            ),
{
    let keys = table_keys(es);
    let n = es.len();
    lemma_sorted_order_perm(keys, n);
    lemma_sorted_order_sorted(keys, n);
    let o = sorted_order(keys, n);
    let s = rendered_entries(es);
    assert forall|a: int, b: int| 0 <= a < b < es.len() implies text_lt(
        #[trigger] kx(s[a]),
        #[trigger] kx(s[b]),
    ) by {
        assert(o[a] != o[b]);
        assert(kx(s[a]) == keys[o[a]]);
        assert(kx(s[b]) == keys[o[b]]);
        assert(!text_lt(keys[o[b]], keys[o[a]]));
        if o[a] < o[b] {
            assert(key_repr(es[o[a]].0) != key_repr(es[o[b]].0));
        } else {
            assert(key_repr(es[o[b]].0) != key_repr(es[o[a]].0));
        }
        lemma_text_lt_total(keys[o[a]], keys[o[b]]);
    }
}

/// Two tables with the same entries digest alike, whatever order their
/// entries were walked in, as long as no two keys are written alike (an
/// integer key and the string of its digits are written alike, and then
/// the walk decides which comes first). `perm` says where each entry of
/// the first table stands in the second.
pub proof fn law_table_order_is_irrelevant(
    es1: Vec<(LuaValue, LuaValue)>,
    es2: Vec<(LuaValue, LuaValue)>,
    perm: Seq<int>,
    depth: int,
)
    requires
        perm.len() == es1@.len(),
        es2@.len() == es1@.len(),
        forall|i: int| 0 <= i < perm.len() ==> 0 <= #[trigger] perm[i] < es2@.len() && es2@[perm[i]] == es1@[i],
        forall|i: int, j: int| 0 <= i < j < perm.len() ==> #[trigger] perm[i] != #[trigger] perm[j],
        forall|j: int| 0 <= j < es2@.len() ==> #[trigger] covers(perm, j),
        forall|i: int, j: int| 0 <= i < j < es1@.len() ==> key_repr(#[trigger] es1@[i].0) != key_repr(
            #[trigger] es1@[j].0,
        ),
    ensures
        absorb(LuaValue::Table(es1), depth) == absorb(LuaValue::Table(es2), depth),
{
    if 0 <= depth <= 16 {
        let a = es1@;
        let b = es2@;
        let n = a.len();
        assert forall|i: int, j: int| 0 <= i < j < b.len() implies key_repr(#[trigger] b[i].0) != key_repr(
            #[trigger] b[j].0,
        ) by {
            assert(covers(perm, i) && covers(perm, j));
            let x = choose|x: int| 0 <= x < perm.len() && perm[x] == i;
            let y = choose|y: int| 0 <= y < perm.len() && perm[y] == j;
            assert(b[i] == a[x] && b[j] == a[y]);
            if x < y {
                assert(key_repr(a[x].0) != key_repr(a[y].0));
            } else if y < x {
                assert(key_repr(a[y].0) != key_repr(a[x].0));
            }
        }
        lemma_rendered_strict(a);
        lemma_rendered_strict(b);
        let o1 = sorted_order(table_keys(a), n);
        let o2 = sorted_order(table_keys(b), n);
        lemma_sorted_order_perm(table_keys(a), n);
        lemma_sorted_order_perm(table_keys(b), n);
        let s1 = rendered_entries(a);
        let s2 = rendered_entries(b);
        assert forall|q: int| 0 <= q < s1.len() implies s2.contains(#[trigger] s1[q]) by {
            let i = o1[q];
            let j = perm[i];
            assert(covers(o2, j));
            let r = choose|r: int| 0 <= r < o2.len() && o2[r] == j;
            assert(s2[r] == b[j]);
        }
        assert forall|q: int| 0 <= q < s2.len() implies s1.contains(#[trigger] s2[q]) by {
            let j = o2[q];
            assert(covers(perm, j));
            let i = choose|i: int| 0 <= i < perm.len() && perm[i] == j;
            assert(covers(o1, i));
            let r = choose|r: int| 0 <= r < o1.len() && o1[r] == i;
            assert(s1[r] == a[i]);
        }
        if n > 0 {
            lemma_same_sorted(s1, s2, n - 1);
        }
        assert forall|q: int| 0 <= q < o1.len() implies a[o1[q]] == b[o2[q]] by {
            assert(s1[q] == s2[q]);
        }
        lemma_entries_render_eq(a, o1, b, o2, depth);
    }
}

} // verus!
