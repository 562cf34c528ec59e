//! The text side of the apt builtin: reading `dpkg-query` and
//! `apt list --upgradable` output, and checking and laying out a source.

use vstd::prelude::*;
use crate::text::{
    trim, lines, split_once_at, words_ws, has_prefix, contains_seq, split_once_seq, trim_end,
    chars_of, lines_of, trim_chars, split_once_char, words_ws_of, string_of, starts_with,
    contains_chars, split_once_chars, chars_eq, push_str, push_chars, debug_quoted, debug_text, views, string_from,
};

verus! {

/// One package as `dpkg-query` reports it.
#[derive(Debug, Clone, PartialEq, Eq)]
pub struct DpkgEntry {
    pub name: String,
    pub version: String,
    /// The third word of the status is `installed`.
    pub installed: bool,
}

/// A package entry as plain values.
pub struct DpkgModel {
    pub name: Seq<char>,
    pub version: Seq<char>,
    pub installed: bool,
}

/// The entry of one line of `${Package}\t${Version}\t${Status}` output: the
/// trimmed line cut at its first two tabs; none for a blank line or one
/// with fewer than two tabs.
pub open spec fn dpkg_line(line: Seq<char>) -> Option<DpkgModel> {
    let t = trim(line);
    let (a, rest) = split_once_at(t, '\t');
    if t.len() == 0 {
        None
    } else {
        match rest {
            None => None,
            Some(r) => {
                let (b, rest2) = split_once_at(r, '\t');
                match rest2 {
                    None => None,
                    Some(c) => {
                        let status = words_ws(trim(c));
                        Some(
                            DpkgModel {
                                name: trim(a),
                                version: trim(b),
                                installed: status.len() > 2 && status[2] == "installed"@,
                            },
                        )
                    },
                }
            },
        }
    }
}

/// The entries of the given lines, in order.
pub open spec fn dpkg_entries(ls: Seq<Seq<char>>) -> Seq<DpkgModel>
    decreases ls.len(),
{
    if ls.len() == 0 {
        Seq::empty()
    } else {
        let prev = dpkg_entries(ls.drop_last());
        match dpkg_line(ls.last()) {
            Some(e) => prev.push(e),
            None => prev,
        }
    }
}

/// An entry as plain values.
pub open spec fn dpkg_view(e: DpkgEntry) -> DpkgModel {
    DpkgModel { name: e.name@, version: e.version@, installed: e.installed }
}

fn parse_dpkg_line(line: &[char]) -> (r: Option<DpkgEntry>)
    ensures
        match (r, dpkg_line(line@)) {
            (Some(e), Some(m)) => dpkg_view(e) == m,
            (None, None) => true,
            _ => false,
        },
{
    let t = trim_chars(line);
    if t.len() == 0 {
        return None;
    }
    let (a, rest) = split_once_char(&t, '\t');
    let r = match rest {
        Some(r) => r,
        None => {
            return None;
        },
    };
    let (b, rest2) = split_once_char(&r, '\t');
    let c = match rest2 {
        Some(c) => c,
        None => {
            return None;
        },
    };
    let status = words_ws_of(&trim_chars(&c));
    let installed = status.len() > 2 && chars_eq(&status[2], &chars_of("installed"));
    Some(
        DpkgEntry {
            name: string_of(&trim_chars(&a)),
            version: string_of(&trim_chars(&b)),
            installed,
        },
    )
}

/// Reads `dpkg-query -W -f='${Package}\t${Version}\t${Status}\n'` output:
/// one entry per usable line, in order.
pub fn parse_dpkg_lines(input: &str) -> (r: Vec<DpkgEntry>)
    ensures
        r@.len() == dpkg_entries(lines(input@)).len(),
        forall|k: int| 0 <= k < r@.len() ==> dpkg_view(#[trigger] r@[k]) == dpkg_entries(lines(input@))[k],
{
    let c = chars_of(input);
    let ls = lines_of(&c);
    let ghost lv = lines(input@);
    let mut out: Vec<DpkgEntry> = Vec::new();
    let mut i: usize = 0;
    while i < ls.len()
        invariant
            i <= ls@.len(),
            ls@.len() == lv.len(),
            forall|k: int| 0 <= k < ls@.len() ==> (#[trigger] ls@[k])@ == lv[k],
            out@.len() == dpkg_entries(lv.take(i as int)).len(),
            forall|k: int| 0 <= k < out@.len() ==> dpkg_view(#[trigger] out@[k]) == dpkg_entries(lv.take(i as int))[k],
        decreases ls@.len() - i,
    {
        assert(lv.take(i + 1).drop_last() =~= lv.take(i as int));
        assert(lv.take(i + 1).last() == lv[i as int]);
        match parse_dpkg_line(&ls[i]) {
            Some(e) => out.push(e),
            None => {},
        }
        i += 1;
    }
    assert(lv.take(i as int) =~= lv);
    out
}

/// One package `apt list --upgradable` offers.
#[derive(Debug, Clone, PartialEq, Eq)]
pub struct Upgradable {
    pub name: String,
    pub current: String,
    pub candidate: String,
    pub suite: String,
}

/// An upgradable package as plain values.
pub struct UpgradableModel {
    pub name: Seq<char>,
    pub current: Seq<char>,
    pub candidate: Seq<char>,
    pub suite: Seq<char>,
}

/// The marker before the installed version.
pub open spec fn upgradable_marker() -> Seq<char> {
    "[upgradable from:"@
}

/// The text without the `]`s that end it.
pub open spec fn strip_closing(s: Seq<char>) -> Seq<char>
    decreases s.len(),
{
    if s.len() > 0 && s.last() == ']' {
        strip_closing(s.drop_last())
    } else {
        s
    }
}

/// The package one line of `name/suite candidate arch [upgradable from:
/// current]` names; none for blank, header, warning and note lines, and for
/// lines without the marker or without two words before it.
pub open spec fn upgradable_line(line: Seq<char>) -> Option<UpgradableModel> {
    let t = trim(line);
    if t.len() == 0 || has_prefix(t, "Listing..."@) || has_prefix(t, "WARNING:"@) || has_prefix(t, "N:"@) {
        None
    } else {
        match split_once_seq(t, upgradable_marker()) {
            None => None,
            Some((head, tail)) => {
                let ws = words_ws(head);
                if ws.len() < 2 {
                    None
                } else {
                    let (name, suite) = split_once_at(ws[0], '/');
                    Some(
                        UpgradableModel {
                            name,
                            current: trim(strip_closing(tail)),
                            candidate: ws[1],
                            suite: match suite {
                                Some(s) => s,
                                None => Seq::empty(),
                            },
                        },
                    )
                }
            },
        }
    }
}

/// The packages the given lines offer, in order.
pub open spec fn upgradables(ls: Seq<Seq<char>>) -> Seq<UpgradableModel>
    decreases ls.len(),
{
    if ls.len() == 0 {
        Seq::empty()
    } else {
        let prev = upgradables(ls.drop_last());
        match upgradable_line(ls.last()) {
            Some(e) => prev.push(e),
            None => prev,
        }
    }
}

/// An upgradable package as plain values.
pub open spec fn upgradable_view(e: Upgradable) -> UpgradableModel {
    UpgradableModel { name: e.name@, current: e.current@, candidate: e.candidate@, suite: e.suite@ }
}

fn parse_upgradable_line(line: &[char]) -> (r: Option<Upgradable>)
    ensures
        match (r, upgradable_line(line@)) {
            (Some(e), Some(m)) => upgradable_view(e) == m,
            (None, None) => true,
            _ => false,
        },
{
    let t = trim_chars(line);
    if t.len() == 0 || starts_with(&t, &chars_of("Listing...")) || starts_with(&t, &chars_of("WARNING:"))
        || starts_with(&t, &chars_of("N:")) {
        return None;
    }
    let (head, tail) = match split_once_chars(&t, &chars_of("[upgradable from:")) {
        Some(p) => p,
        None => {
            return None;
        },
    };
    let ws = words_ws_of(&head);
    if ws.len() < 2 {
        return None;
    }
    let (name, suite) = split_once_char(&ws[0], '/');
    let mut cur = tail;
    let ghost tail0 = cur@;
    while cur.len() > 0 && cur[cur.len() - 1] == ']'
        invariant
            strip_closing(tail0) == strip_closing(cur@),
        decreases cur@.len(),
    {
        cur.pop();
    }
    let current = trim_chars(&cur);
    Some(
        Upgradable {
            name: string_of(&name),
            current: string_of(&current),
            candidate: string_of(&ws[1]),
            suite: match suite {
                Some(s) => string_of(&s),
                None => string_of(&Vec::new()),
            },
        },
    )
}

/// Reads `apt list --upgradable -a` output: one entry per package line, in
/// order.
pub fn parse_upgradable_lines(input: &str) -> (r: Vec<Upgradable>)
    ensures
        r@.len() == upgradables(lines(input@)).len(),
        forall|k: int| 0 <= k < r@.len() ==> upgradable_view(#[trigger] r@[k]) == upgradables(lines(input@))[k],
{
    let c = chars_of(input);
    let ls = lines_of(&c);
    let ghost lv = lines(input@);
    let mut out: Vec<Upgradable> = Vec::new();
    let mut i: usize = 0;
    while i < ls.len()
        invariant
            i <= ls@.len(),
            ls@.len() == lv.len(),
            forall|k: int| 0 <= k < ls@.len() ==> (#[trigger] ls@[k])@ == lv[k],
            out@.len() == upgradables(lv.take(i as int)).len(),
            forall|k: int| 0 <= k < out@.len() ==> upgradable_view(#[trigger] out@[k]) == upgradables(lv.take(i as int))[k],
        decreases ls@.len() - i,
    {
        assert(lv.take(i + 1).drop_last() =~= lv.take(i as int));
        assert(lv.take(i + 1).last() == lv[i as int]);
        match parse_upgradable_line(&ls[i]) {
            Some(e) => out.push(e),
            None => {},
        }
        i += 1;
    }
    assert(lv.take(i as int) =~= lv);
    out
}

/// A character a source id may hold: lower-case ASCII letters, digits and
/// `-`.
pub open spec fn id_char(c: char) -> bool {
    ('a' <= c && c <= 'z') || ('0' <= c && c <= '9') || c == '-'
}

/// Why a source is refused, if it is: an id that is empty or holds another
/// character, then a source line that holds a line break.
pub open spec fn source_problem(id: Seq<char>, source_list: Seq<char>) -> Option<Seq<char>> {
    if id.len() == 0 || !(forall|i: int| 0 <= i < id.len() ==> id_char(#[trigger] id[i])) {
        Some("apt.add_source: id "@ + debug_quoted(id) + " must match [a-z0-9-]+"@)
    } else if exists|i: int| 0 <= i < source_list.len() && (#[trigger] source_list[i] == '\n'
        || source_list[i] == '\r') {
        Some("apt.add_source: source_list must be a single line (no \\n or \\r)"@)
    } else {
        None
    }
}

/// Checks a source before anything is written.
pub fn validate_source(id: &str, source_list: &str) -> (r: Result<(), String>)
    ensures
        match source_problem(id@, source_list@) {
            Some(m) => r matches Err(e) && e@ == m,
            None => r is Ok,
        },
{
    let c = chars_of(id);
    let mut ok = c.len() > 0;
    let mut i: usize = 0;
    while i < c.len()
        invariant
            i <= c@.len(),
            c@ == id@,
            ok == (c@.len() > 0 && forall|k: int| 0 <= k < i ==> id_char(#[trigger] c@[k])),
        decreases c@.len() - i,
    {
        let ch = c[i];
        if !(('a' <= ch && ch <= 'z') || ('0' <= ch && ch <= '9') || ch == '-') {
            ok = false;
        }
        i += 1;
    }
    if !ok {
        let mut m = chars_of("apt.add_source: id ");
        push_str(&mut m, debug_text(id).as_str());
        push_str(&mut m, " must match [a-z0-9-]+");
        return Err(string_of(&m));
    }
    let s = chars_of(source_list);
    let mut j: usize = 0;
    while j < s.len()
        invariant
            j <= s@.len(),
            s@ == source_list@,
            c@ == id@,
            id@.len() > 0 && forall|k: int| 0 <= k < id@.len() ==> id_char(#[trigger] id@[k]),
            forall|k: int| 0 <= k < j ==> s@[k] != '\n' && s@[k] != '\r',
        decreases s@.len() - j,
    {
        if s[j] == '\n' || s[j] == '\r' {
            assert(source_list@[j as int] == '\n' || source_list@[j as int] == '\r');
            return Err(string_of(&chars_of("apt.add_source: source_list must be a single line (no \\n or \\r)")));
        }
        j += 1;
    }
    Ok(())
}

/// Where a source's list and key go, and what the list holds: the source
/// line without trailing white space, then a line feed.
pub fn source_files(id: &str, source_list: &str, sources_dir: &str, keyrings_dir: &str) -> (r: (String, String, String))
    ensures
        r.0@ == sources_dir@ + "/"@ + id@ + ".list"@,
        r.1@ == keyrings_dir@ + "/"@ + id@ + ".gpg"@,
        r.2@ == trim_end(source_list@) + "\n"@,
{
    let mut l = chars_of(sources_dir);
    push_str(&mut l, "/");
    push_str(&mut l, id);
    push_str(&mut l, ".list");
    let mut k = chars_of(keyrings_dir);
    push_str(&mut k, "/");
    push_str(&mut k, id);
    push_str(&mut k, ".gpg");
    let s = chars_of(source_list);
    let mut n: usize = s.len();
    assert(s@.take(n as int) =~= s@);
    while n > 0 && crate::text::is_ws_char(s[n - 1])
        invariant
            n <= s@.len(),
            trim_end(s@) == trim_end(s@.take(n as int)),
        decreases n,
    {
        assert(s@.take(n as int).drop_last() =~= s@.take(n - 1));
        n -= 1;
    }
    let mut body = crate::text::sub_chars(&s, 0, n);
    assert(s@.take(n as int) =~= body@);
    push_str(&mut body, "\n");
    (string_of(&l), string_of(&k), string_of(&body))
}

/// The `apt-get` arguments of an install: `install -y
/// --no-install-recommends`, `--only-upgrade` where asked, then the names;
/// refused where no name is given.
pub fn install_args(names: &[String], only_upgrade: bool) -> (r: Result<Vec<String>, String>)
    ensures
        names@.len() == 0 ==> (r matches Err(e) && e@ == "apt.install: names array is empty"@),
        names@.len() > 0 ==> (r matches Ok(a) && views(a@) == (if only_upgrade {
            seq!["install"@, "-y"@, "--no-install-recommends"@, "--only-upgrade"@]
        } else {
            seq!["install"@, "-y"@, "--no-install-recommends"@]
        }) + views(names@)),
{
    if names.len() == 0 {
        return Err(string_from("apt.install: names array is empty"));
    }
    let mut a: Vec<String> = Vec::new();
    a.push(string_from("install"));
    a.push(string_from("-y"));
    a.push(string_from("--no-install-recommends"));
    if only_upgrade {
        a.push(string_from("--only-upgrade"));
    }
    append_names(&mut a, names);
    Ok(a)
}

/// The `apt-get` arguments of a removal: `remove -y`, then the names;
/// refused where no name is given.
pub fn remove_args(names: &[String]) -> (r: Result<Vec<String>, String>)
    ensures
        names@.len() == 0 ==> (r matches Err(e) && e@ == "apt.remove: names array is empty"@),
        names@.len() > 0 ==> (r matches Ok(a) && views(a@) == seq!["remove"@, "-y"@] + views(names@)),
{
    if names.len() == 0 {
        return Err(string_from("apt.remove: names array is empty"));
    }
    let mut a: Vec<String> = Vec::new();
    a.push(string_from("remove"));
    a.push(string_from("-y"));
    append_names(&mut a, names);
    Ok(a)
}

fn append_names(a: &mut Vec<String>, names: &[String])
    ensures
        views(final(a)@) == views(old(a)@) + views(names@),
{
    let ghost start = views(a@);
    let mut i: usize = 0;
    while i < names.len()
        invariant
            i <= names@.len(),
            views(a@) == start + views(names@.take(i as int)),
        decreases names@.len() - i,
    {
        let ghost before = a@;
        a.push(string_from(names[i].as_str()));
        assert(views(names@.take(i + 1)) =~= views(names@.take(i as int)).push(names@[i as int]@));
        assert(views(a@) =~= views(before).push(names@[i as int]@));
        i += 1;
    }
    assert(names@.take(i as int) =~= names@);
}

/// What `apt.query` answers for a package.
#[derive(Debug, Clone, PartialEq, Eq)]
pub struct QueryAnswer {
    pub installed: bool,
    /// The version, only for an installed package.
    pub version: Option<String>,
}

/// The entry a package's name selects among entries read into a table by
/// name: the last one with that name, since a later entry replaces an
/// earlier one.
pub open spec fn last_entry(es: Seq<DpkgModel>, name: Seq<char>) -> Option<DpkgModel>
    decreases es.len(),
{
    if es.len() == 0 {
        None
    } else if es.last().name == name {
        Some(es.last())
    } else {
        last_entry(es.drop_last(), name)
    }
}

/// The answer to `apt.query` for `name`, given the exit status and the
/// entries read from `dpkg-query`: not installed where the query failed or
/// names no such package; else whether it is installed, with its version
/// only if it is.
pub fn query_answer(status: i32, entries: &[DpkgEntry], name: &str) -> (r: QueryAnswer)
    ensures
        status != 0 ==> !r.installed && r.version is None,
        status == 0 ==> match last_entry(entries@.map_values(|e: DpkgEntry| dpkg_view(e)), name@) {
            Some(e) => r.installed == e.installed && (if e.installed {
                r.version matches Some(v) && v@ == e.version
            } else {
                r.version is None
            }),
            None => !r.installed && r.version is None,
        },
{
    if status != 0 {
        return QueryAnswer { installed: false, version: None };
    }
    let ghost ev = entries@.map_values(|e: DpkgEntry| dpkg_view(e));
    let want = chars_of(name);
    let mut i: usize = entries.len();
    assert(ev.take(i as int) =~= ev);
    while i > 0
        invariant
            status == 0,
            i <= entries@.len(),
            ev == entries@.map_values(|e: DpkgEntry| dpkg_view(e)),
            want@ == name@,
            last_entry(ev, name@) == last_entry(ev.take(i as int), name@),
        decreases i,
    {
        let k = i - 1;
        assert(ev.take(i as int).drop_last() =~= ev.take(k as int));
        assert(ev.take(i as int).last() == dpkg_view(entries@[k as int]));
        if chars_eq(&chars_of(entries[k].name.as_str()), &want) {
            if entries[k].installed {
                return QueryAnswer { installed: true, version: Some(string_from(entries[k].version.as_str())) };
            } else {
                return QueryAnswer { installed: false, version: None };
            }
        }
        i = k;
    }
    QueryAnswer { installed: false, version: None }
}

} // verus!
