//! How a VM finds `assay.*` modules and which globals it removes.
//!
//! `require("assay.a.b")` looks for `a/b.lua`, then `a/b/init.lua`, first in
//! `./modules`, then in the global module directory: the one configured,
//! else `ASSAY_MODULES_PATH`, else `~/.assay/modules`. `ASSAY_BLOCK_GLOBALS`
//! lists dotted paths of globals to remove.

use vstd::prelude::*;
use crate::text::{
    has_prefix, pieces, trim, chars_of, string_of, push_str, push_chars, starts_with, split_all,
    trim_chars, views,
};
use crate::install::{join_path, join_path_exec};

verus! {

/// The path a module name maps to: what follows `assay.`, with each `.`
/// turned into `/`.
pub open spec fn module_base_spec(name: Seq<char>) -> Option<Seq<char>> {
    if has_prefix(name, "assay."@) {
        Some(name.skip(6).map_values(|c: char| if c == '.' { '/' } else { c }))
    } else {
        None
    }
}

/// The answer to a module name outside `assay.*`.
pub open spec fn msg_not_assay(name: Seq<char>) -> Seq<char> {
    "not an assay.* module: "@ + name
}

/// The two files a module may live in, in the order they are tried:
/// `base.lua` and `base/init.lua`; or why the name is not one this loader
/// serves.
pub fn module_candidates(name: &str) -> (r: Result<(String, String), String>)
    ensures
        match module_base_spec(name@) {
            Some(base) => r matches Ok((a, b)) && a@ == base + ".lua"@ && b@ == base + "/init.lua"@,
            None => r matches Err(e) && e@ == msg_not_assay(name@),
        },
{
    let c = chars_of(name);
    if !starts_with(&c, &chars_of("assay.")) {
        let mut m = chars_of("not an assay.* module: ");
        push_chars(&mut m, &c);
        return Err(string_of(&m));
    }
    proof {
        reveal_strlit("assay.");
    }
    let mut base: Vec<char> = Vec::new();
    let mut i: usize = 6;
    while i < c.len()
        invariant
            6 <= i <= c@.len(),
            c@ == name@,
            base@ == c@.subrange(6, i as int).map_values(|x: char| if x == '.' { '/' } else { x }),
        decreases c@.len() - i,
    {
        if c[i] == '.' {
            base.push('/');
        } else {
            base.push(c[i]);
        }
        i += 1;
        assert(base@ =~= c@.subrange(6, i as int).map_values(|x: char| if x == '.' { '/' } else { x }));
    }
    assert(c@.subrange(6, i as int) =~= name@.skip(6));
    let mut a = base.clone();
    assert(a@ == base@);
    push_str(&mut a, ".lua");
    let mut b = base;
    push_str(&mut b, "/init.lua");
    Ok((string_of(&a), string_of(&b)))
}

/// The global module directory: the configured one, else the value of
/// `ASSAY_MODULES_PATH`, else `.assay/modules` under `HOME`, else none
/// (the empty path, which is not searched).
pub open spec fn modules_dir_spec(
    custom: Option<Seq<char>>,
    env_path: Option<Seq<char>>,
    home: Option<Seq<char>>,
) -> Seq<char> {
    if let Some(c) = custom {
        c
    } else if let Some(e) = env_path {
        e
    } else if let Some(h) = home {
        join_path(h, ".assay/modules"@)
    } else {
        Seq::empty()
    }
}

/// A text that may be absent, as plain characters.
pub open spec fn text_view(o: Option<&str>) -> Option<Seq<char>> {
    match o {
        Some(s) => Some(s@),
        None => None,
    }
}

/// The global module directory, given the configured one and the values of
/// `ASSAY_MODULES_PATH` and `HOME` where set.
pub fn global_modules_dir(custom: Option<&str>, env_path: Option<&str>, home: Option<&str>) -> (r: String)
    ensures
        r@ == modules_dir_spec(text_view(custom), text_view(env_path), text_view(home)),
{
    if let Some(c) = custom {
        string_of(&chars_of(c))
    } else if let Some(e) = env_path {
        string_of(&chars_of(e))
    } else if let Some(h) = home {
        join_path_exec(h, ".assay/modules")
    } else {
        string_of(&Vec::new())
    }
}

/// The non-empty segments of a dotted path.
pub open spec fn segments(ps: Seq<Seq<char>>) -> Seq<Seq<char>>
    decreases ps.len(),
{
    if ps.len() == 0 {
        Seq::empty()
    } else if ps.last().len() == 0 {
        segments(ps.drop_last())
    } else {
        segments(ps.drop_last()).push(ps.last())
    }
}

/// The globals a comma-separated list names, each as its path segments:
/// entries are trimmed, and empty entries or entries with no segment are
/// left out.
pub open spec fn blocked_globals_spec(entries: Seq<Seq<char>>) -> Seq<Seq<Seq<char>>>
    decreases entries.len(),
{
    if entries.len() == 0 {
        Seq::empty()
    } else {
        let prev = blocked_globals_spec(entries.drop_last());
        let t = trim(entries.last());
        let segs = segments(pieces(t, '.'));
        if t.len() == 0 || segs.len() == 0 {
            prev
        } else {
            prev.push(segs)
        }
    }
}

/// The segments of each string list, as plain characters.
pub open spec fn paths_view(v: Seq<Vec<String>>) -> Seq<Seq<Seq<char>>> {
    v.map_values(|p: Vec<String>| views(p@))
}

fn segments_of(t: &[char]) -> (r: Vec<String>)
    ensures
        views(r@) == segments(pieces(t@, '.')),
{
    let ps = split_all(t, '.');
    let ghost pv = pieces(t@, '.');
    let mut out: Vec<String> = Vec::new();
    let mut i: usize = 0;
    while i < ps.len()
        invariant
            i <= ps@.len(),
            ps@.len() == pv.len(),
            forall|k: int| 0 <= k < ps@.len() ==> (#[trigger] ps@[k])@ == pv[k],
            views(out@) == segments(pv.take(i as int)),
        decreases ps@.len() - i,
    {
        assert(pv.take(i + 1).drop_last() =~= pv.take(i as int));
        assert(pv.take(i + 1).last() == pv[i as int]);
        if ps[i].len() > 0 {
            let ghost before = out@;
            out.push(string_of(&ps[i]));
            assert(views(out@) =~= views(before).push(pv[i as int]));
        }
        i += 1;
    }
    assert(pv.take(i as int) =~= pv);
    out
}

/// Reads `ASSAY_BLOCK_GLOBALS`: the dotted paths of the globals to remove,
/// each split into its segments.
pub fn blocked_globals(raw: &str) -> (r: Vec<Vec<String>>)
    ensures
        paths_view(r@) == blocked_globals_spec(pieces(raw@, ',')),
{
    let c = chars_of(raw);
    let es = split_all(&c, ',');
    let ghost ev = pieces(raw@, ',');
    let mut out: Vec<Vec<String>> = Vec::new();
    let mut i: usize = 0;
    while i < es.len()
        invariant
            i <= es@.len(),
            es@.len() == ev.len(),
            forall|k: int| 0 <= k < es@.len() ==> (#[trigger] es@[k])@ == ev[k],
            paths_view(out@) == blocked_globals_spec(ev.take(i as int)),
        decreases es@.len() - i,
    {
        assert(ev.take(i + 1).drop_last() =~= ev.take(i as int));
        assert(ev.take(i + 1).last() == ev[i as int]);
        let t = trim_chars(&es[i]);
        if t.len() > 0 {
            let segs = segments_of(&t);
            if segs.len() > 0 {
                let ghost before = out@;
                let ghost sv = views(segs@);
                out.push(segs);
                assert(paths_view(out@) =~= paths_view(before).push(sv));
            }
        }
        i += 1;
    }
    assert(ev.take(i as int) =~= ev);
    out
}

} // verus!
