//! Readers for the text files of the cgroup v2 unified hierarchy.
//!
//! The files themselves are read by the caller; what stands here turns
//! their text into values: `cpu.stat`, `io.stat`, the memory and pids
//! counters with their `max` sentinel, and the check that keeps a
//! canonical path inside the cgroup tree.

use vstd::prelude::*;
use crate::text::{
    trim, lines, split_once_at, parse_u64_spec, words, has_prefix, chars_of, lines_of, trim_chars,
    split_once_char, parse_u64, chars_eq, words_of, string_of, starts_with, push_str, push_chars,
    debug_quoted, debug_text,
};

verus! {

/// The root of the unified hierarchy.
pub const CGROUP_ROOT: &'static str = "/sys/fs/cgroup";

/// The key of a `key value` line: the trimmed text before the first space.
pub open spec fn kv_key(line: Seq<char>) -> Seq<char> {
    trim(split_once_at(line, ' ').0)
}

/// The value of a `key value` line: the trimmed text after the first space,
/// read as a `u64`; `None` where there is no space or it does not parse.
pub open spec fn kv_value(line: Seq<char>) -> Option<u64> {
    match split_once_at(line, ' ').1 {
        Some(v) => parse_u64_spec(trim(v)),
        None => None,
    }
}

/// The value that the last line naming `key` gives it; `None` where no line
/// names it.
pub open spec fn last_value(ls: Seq<Seq<char>>, key: Seq<char>) -> Option<u64>
    decreases ls.len(),
{
    if ls.len() == 0 {
        None
    } else if kv_key(ls.last()) == key {
        kv_value(ls.last())
    } else {
        last_value(ls.drop_last(), key)
    }
}

/// The counters of `cpu.stat`; a field is `None` where the file does not
/// name it or its value does not parse.
#[derive(Debug, Clone, Copy, PartialEq, Eq)]
pub struct CpuStat {
    pub usage_usec: Option<u64>,
    pub user_usec: Option<u64>,
    pub system_usec: Option<u64>,
    pub nr_periods: Option<u64>,
    pub nr_throttled: Option<u64>,
    pub throttled_usec: Option<u64>,
    pub nr_bursts: Option<u64>,
    pub burst_usec: Option<u64>,
}

/// The key and value of one `key value` line.
fn kv_line(line: &[char]) -> (r: (Vec<char>, Option<u64>))
    ensures
        r.0@ == kv_key(line@),
        r.1 == kv_value(line@),
{
    let (k, rest) = split_once_char(line, ' ');
    let key = trim_chars(&k);
    let val = match rest {
        Some(v) => {
            let t = trim_chars(&v);
            parse_u64(&t)
        },
        None => None,
    };
    (key, val)
}

proof fn lemma_last_value_step(ls: Seq<Seq<char>>, i: int, key: Seq<char>)
    requires
        0 <= i < ls.len(),
    ensures
        last_value(ls.take(i + 1), key) == (if kv_key(ls[i]) == key {
            kv_value(ls[i])
        } else {
            last_value(ls.take(i), key)
        }),
{
    assert(ls.take(i + 1).drop_last() =~= ls.take(i));
    assert(ls.take(i + 1).last() == ls[i]);
}

/// Reads `cpu.stat`: each line is a key, a space and a value; where a key
/// comes twice the last line wins.
pub fn parse_cpu_stat(content: &str) -> (s: CpuStat)
    ensures
        s.usage_usec == last_value(lines(content@), "usage_usec"@),
        s.user_usec == last_value(lines(content@), "user_usec"@),
        s.system_usec == last_value(lines(content@), "system_usec"@),
        s.nr_periods == last_value(lines(content@), "nr_periods"@),
        s.nr_throttled == last_value(lines(content@), "nr_throttled"@),
        s.throttled_usec == last_value(lines(content@), "throttled_usec"@),
        s.nr_bursts == last_value(lines(content@), "nr_bursts"@),
        s.burst_usec == last_value(lines(content@), "burst_usec"@),
{
    let mut s = CpuStat {
        usage_usec: None,
        user_usec: None,
        system_usec: None,
        nr_periods: None,
        nr_throttled: None,
        throttled_usec: None,
        nr_bursts: None,
        burst_usec: None,
    };
    let text = chars_of(content);
    let ls = lines_of(&text);
    let ghost l = lines(content@);
    let n_usage = chars_of("usage_usec");
    let n_user = chars_of("user_usec");
    let n_system = chars_of("system_usec");
    let n_periods = chars_of("nr_periods");
    let n_throttled = chars_of("nr_throttled");
    let n_throttled_usec = chars_of("throttled_usec");
    let n_bursts = chars_of("nr_bursts");
    let n_burst_usec = chars_of("burst_usec");
    let mut i: usize = 0;
    while i < ls.len()
        invariant
            i <= ls@.len(),
            ls@.len() == l.len(),
            forall|k: int| 0 <= k < ls@.len() ==> (#[trigger] ls@[k])@ == l[k],
            l == lines(content@),
            n_usage@ == "usage_usec"@,
            n_user@ == "user_usec"@,
            n_system@ == "system_usec"@,
            n_periods@ == "nr_periods"@,
            n_throttled@ == "nr_throttled"@,
            n_throttled_usec@ == "throttled_usec"@,
            n_bursts@ == "nr_bursts"@,
            n_burst_usec@ == "burst_usec"@,
            s.usage_usec == last_value(l.take(i as int), "usage_usec"@),
            s.user_usec == last_value(l.take(i as int), "user_usec"@),
            s.system_usec == last_value(l.take(i as int), "system_usec"@),
            s.nr_periods == last_value(l.take(i as int), "nr_periods"@),
            s.nr_throttled == last_value(l.take(i as int), "nr_throttled"@),
            s.throttled_usec == last_value(l.take(i as int), "throttled_usec"@),
            s.nr_bursts == last_value(l.take(i as int), "nr_bursts"@),
            s.burst_usec == last_value(l.take(i as int), "burst_usec"@),
        decreases ls@.len() - i,
    {
        let (key, val) = kv_line(&ls[i]);
        proof {
            lemma_last_value_step(l, i as int, "usage_usec"@);
            lemma_last_value_step(l, i as int, "user_usec"@);
            lemma_last_value_step(l, i as int, "system_usec"@);
            lemma_last_value_step(l, i as int, "nr_periods"@);
            lemma_last_value_step(l, i as int, "nr_throttled"@);
            lemma_last_value_step(l, i as int, "throttled_usec"@);
            lemma_last_value_step(l, i as int, "nr_bursts"@);
            lemma_last_value_step(l, i as int, "burst_usec"@);
        }
        if chars_eq(&key, &n_usage) {
            s.usage_usec = val;
        }
        if chars_eq(&key, &n_user) {
            s.user_usec = val;
        }
        if chars_eq(&key, &n_system) {
            s.system_usec = val;
        }
        if chars_eq(&key, &n_periods) {
            s.nr_periods = val;
        }
        if chars_eq(&key, &n_throttled) {
            s.nr_throttled = val;
        }
        if chars_eq(&key, &n_throttled_usec) {
            s.throttled_usec = val;
        }
        if chars_eq(&key, &n_bursts) {
            s.nr_bursts = val;
        }
        if chars_eq(&key, &n_burst_usec) {
            s.burst_usec = val;
        }
        i += 1;
    }
    assert(l.take(i as int) =~= l);
    s
}

} // verus!

verus! {

/// The key of an `io.stat` field `key=value`: the trimmed text before `=`.
pub open spec fn io_key(w: Seq<char>) -> Seq<char> {
    trim(split_once_at(w, '=').0)
}

/// The value of an `io.stat` field: the trimmed text after `=` read as a
/// `u64`, and 0 where there is none or it does not parse.
pub open spec fn io_value(w: Seq<char>) -> u64 {
    match split_once_at(w, '=').1 {
        Some(v) => match parse_u64_spec(trim(v)) {
            Some(n) => n,
            None => 0,
        },
        None => 0,
    }
}

/// The value that the last field naming `key` gives it, 0 where none does.
pub open spec fn io_last(ws: Seq<Seq<char>>, key: Seq<char>) -> u64
    decreases ws.len(),
{
    if ws.len() == 0 {
        0
    } else if io_key(ws.last()) == key {
        io_value(ws.last())
    } else {
        io_last(ws.drop_last(), key)
    }
}

/// One device's line of `io.stat`, as plain values.
pub struct IoEntryModel {
    pub device: Seq<char>,
    pub rbytes: u64,
    pub wbytes: u64,
    pub rios: u64,
    pub wios: u64,
    pub dbytes: u64,
    pub dios: u64,
}

/// One device's counters from `io.stat`.
#[derive(Debug, Clone, PartialEq, Eq)]
pub struct IoEntry {
    pub device: String,
    pub rbytes: u64,
    pub wbytes: u64,
    pub rios: u64,
    pub wios: u64,
    pub dbytes: u64,
    pub dios: u64,
}

impl View for IoEntry {
    type V = IoEntryModel;

    open spec fn view(&self) -> IoEntryModel {
        IoEntryModel {
            device: self.device@,
            rbytes: self.rbytes,
            wbytes: self.wbytes,
            rios: self.rios,
            wios: self.wios,
            dbytes: self.dbytes,
            dios: self.dios,
        }
    }
}

/// The entry one line of `io.stat` gives: its first word names the device,
/// the others are `key=value` fields; a blank line gives none.
pub open spec fn io_line(line: Seq<char>) -> Option<IoEntryModel> {
    let ws = words(trim(line));
    if trim(line).len() == 0 || ws.len() == 0 {
        None
    } else {
        let kv = ws.drop_first();
        Some(
            IoEntryModel {
                device: ws[0],
                rbytes: io_last(kv, "rbytes"@),
                wbytes: io_last(kv, "wbytes"@),
                rios: io_last(kv, "rios"@),
                wios: io_last(kv, "wios"@),
                dbytes: io_last(kv, "dbytes"@),
                dios: io_last(kv, "dios"@),
            },
        )
    }
}

/// The entries of the given lines of `io.stat`, in order.
pub open spec fn io_entries(ls: Seq<Seq<char>>) -> Seq<IoEntryModel>
    decreases ls.len(),
{
    if ls.len() == 0 {
        Seq::empty()
    } else {
        let prev = io_entries(ls.drop_last());
        match io_line(ls.last()) {
            Some(e) => prev.push(e),
            None => prev,
        }
    }
}

proof fn lemma_io_last_step(ws: Seq<Seq<char>>, j: int, key: Seq<char>)
    requires
        0 <= j < ws.len(),
    ensures
        io_last(ws.take(j + 1), key) == (if io_key(ws[j]) == key {
            io_value(ws[j])
        } else {
            io_last(ws.take(j), key)
        }),
{
    assert(ws.take(j + 1).drop_last() =~= ws.take(j));
    assert(ws.take(j + 1).last() == ws[j]);
}

/// The key and value of one `io.stat` field.
fn io_field(w: &[char]) -> (r: (Vec<char>, u64))
    ensures
        r.0@ == io_key(w@),
        r.1 == io_value(w@),
{
    let (k, rest) = split_once_char(w, '=');
    let key = trim_chars(&k);
    let val = match rest {
        Some(v) => {
            let t = trim_chars(&v);
            match parse_u64(&t) {
                Some(n) => n,
                None => 0,
            }
        },
        None => 0,
    };
    (key, val)
}

/// The entry of one line of `io.stat`, if it is not blank.
fn parse_io_line(line: &[char]) -> (r: Option<IoEntry>)
    ensures
        match (r, io_line(line@)) {
            (Some(e), Some(m)) => e@ == m,
            (None, None) => true,
            _ => false,
        },
{
    let t = trim_chars(line);
    if t.len() == 0 {
        return None;
    }
    let ws = words_of(&t);
    if ws.len() == 0 {
        return None;
    }
    let ghost wv = words(trim(line@));
    let ghost kv = wv.drop_first();
    let n_rbytes = chars_of("rbytes");
    let n_wbytes = chars_of("wbytes");
    let n_rios = chars_of("rios");
    let n_wios = chars_of("wios");
    let n_dbytes = chars_of("dbytes");
    let n_dios = chars_of("dios");
    let mut e = IoEntry {
        device: string_of(&ws[0]),
        rbytes: 0,
        wbytes: 0,
        rios: 0,
        wios: 0,
        dbytes: 0,
        dios: 0,
    };
    assert(kv.take(0) =~= Seq::<Seq<char>>::empty());
    let mut j: usize = 1;
    while j < ws.len()
        invariant
            1 <= j <= ws@.len(),
            ws@.len() == wv.len(),
            forall|k: int| 0 <= k < ws@.len() ==> (#[trigger] ws@[k])@ == wv[k],
            kv == wv.drop_first(),
            e.device@ == wv[0],
            n_rbytes@ == "rbytes"@,
            n_wbytes@ == "wbytes"@,
            n_rios@ == "rios"@,
            n_wios@ == "wios"@,
            n_dbytes@ == "dbytes"@,
            n_dios@ == "dios"@,
            e.rbytes == io_last(kv.take(j - 1), "rbytes"@),
            e.wbytes == io_last(kv.take(j - 1), "wbytes"@),
            e.rios == io_last(kv.take(j - 1), "rios"@),
            e.wios == io_last(kv.take(j - 1), "wios"@),
            e.dbytes == io_last(kv.take(j - 1), "dbytes"@),
            e.dios == io_last(kv.take(j - 1), "dios"@),
        decreases ws@.len() - j,
    {
        let (key, val) = io_field(&ws[j]);
        proof {
            assert(kv[j - 1] == wv[j as int]);
            lemma_io_last_step(kv, j - 1, "rbytes"@);
            lemma_io_last_step(kv, j - 1, "wbytes"@);
            lemma_io_last_step(kv, j - 1, "rios"@);
            lemma_io_last_step(kv, j - 1, "wios"@);
            lemma_io_last_step(kv, j - 1, "dbytes"@);
            lemma_io_last_step(kv, j - 1, "dios"@);
        }
        if chars_eq(&key, &n_rbytes) {
            e.rbytes = val;
        }
        if chars_eq(&key, &n_wbytes) {
            e.wbytes = val;
        }
        if chars_eq(&key, &n_rios) {
            e.rios = val;
        }
        if chars_eq(&key, &n_wios) {
            e.wios = val;
        }
        if chars_eq(&key, &n_dbytes) {
            e.dbytes = val;
        }
        if chars_eq(&key, &n_dios) {
            e.dios = val;
        }
        j += 1;
    }
    assert(kv.take(j - 1) =~= kv);
    Some(e)
}

/// Reads `io.stat`: one entry per line that is not blank, in file order.
pub fn parse_io_stat(content: &str) -> (r: Vec<IoEntry>)
    ensures
        r@.len() == io_entries(lines(content@)).len(),
        forall|k: int| 0 <= k < r@.len() ==> (#[trigger] r@[k])@ == io_entries(lines(content@))[k],
{
    let text = chars_of(content);
    let ls = lines_of(&text);
    let ghost l = lines(content@);
    let mut out: Vec<IoEntry> = Vec::new();
    let mut i: usize = 0;
    while i < ls.len()
        invariant
            i <= ls@.len(),
            ls@.len() == l.len(),
            forall|k: int| 0 <= k < ls@.len() ==> (#[trigger] ls@[k])@ == l[k],
            out@.len() == io_entries(l.take(i as int)).len(),
            forall|k: int| 0 <= k < out@.len() ==> (#[trigger] out@[k])@ == io_entries(l.take(i as int))[k],
        decreases ls@.len() - i,
    {
        assert(l.take(i + 1).drop_last() =~= l.take(i as int));
        assert(l.take(i + 1).last() == l[i as int]);
        match parse_io_line(&ls[i]) {
            Some(e) => {
                out.push(e);
            },
            None => {},
        }
        i += 1;
    }
    assert(l.take(i as int) =~= l);
    out
}

} // verus!

verus! {

/// The contents of a file that may be missing, as plain characters.
pub open spec fn file_view(f: Option<String>) -> Option<Seq<char>> {
    match f {
        Some(s) => Some(s@),
        None => None,
    }
}

/// A counter file: its trimmed text read as a `u64`; `None` where the file
/// is missing or does not parse.
pub open spec fn counter_value(f: Option<Seq<char>>) -> Option<u64> {
    match f {
        Some(c) => parse_u64_spec(trim(c)),
        None => None,
    }
}

/// A limit file: like a counter, with `max` (no limit) read as `None`.
pub open spec fn limit_value(f: Option<Seq<char>>) -> Option<u64> {
    match f {
        Some(c) => if trim(c) == "max"@ {
            None
        } else {
            parse_u64_spec(trim(c))
        },
        None => None,
    }
}

/// Reads a counter file such as `memory.current` or `pids.current`.
pub fn read_counter(f: &Option<String>) -> (r: Option<u64>)
    ensures
        r == counter_value(file_view(*f)),
{
    match f {
        Some(s) => {
            let c = chars_of(s.as_str());
            let t = trim_chars(&c);
            parse_u64(&t)
        },
        None => None,
    }
}

/// Reads a limit file such as `memory.max` or `pids.max`.
pub fn read_limit(f: &Option<String>) -> (r: Option<u64>)
    ensures
        r == limit_value(file_view(*f)),
{
    match f {
        Some(s) => {
            let c = chars_of(s.as_str());
            let t = trim_chars(&c);
            let max = chars_of("max");
            if chars_eq(&t, &max) {
                None
            } else {
                parse_u64(&t)
            }
        },
        None => None,
    }
}

/// The memory files of one cgroup, each `None` where it could not be read.
pub struct MemoryFiles {
    pub current: Option<String>,
    pub max: Option<String>,
    pub swap_current: Option<String>,
    pub swap_max: Option<String>,
    pub peak: Option<String>,
    pub low: Option<String>,
    pub high: Option<String>,
    pub events: Option<String>,
}

/// The memory counters of one cgroup; a limit of `max` reads as `None`.
#[derive(Debug, Clone, Copy, PartialEq, Eq)]
pub struct MemoryStat {
    pub current: Option<u64>,
    pub max: Option<u64>,
    pub swap_current: Option<u64>,
    pub swap_max: Option<u64>,
    pub peak: Option<u64>,
    pub low: Option<u64>,
    pub high: Option<u64>,
    pub oom_kill: Option<u64>,
    pub oom: Option<u64>,
}

/// Reads the `key value` lines of `memory.events` for `oom_kill` and `oom`.
fn event_counts(f: &Option<String>) -> (r: (Option<u64>, Option<u64>))
    ensures
        match file_view(*f) {
            Some(c) => r.0 == last_value(lines(c), "oom_kill"@) && r.1 == last_value(lines(c), "oom"@),
            None => r.0 is None && r.1 is None,
        },
{
    match f {
        Some(s) => {
            let text = chars_of(s.as_str());
            let ls = lines_of(&text);
            let ghost l = lines(s@);
            let n_kill = chars_of("oom_kill");
            let n_oom = chars_of("oom");
            let mut oom_kill: Option<u64> = None;
            let mut oom: Option<u64> = None;
            let mut i: usize = 0;
            while i < ls.len()
                invariant
                    i <= ls@.len(),
                    ls@.len() == l.len(),
                    forall|k: int| 0 <= k < ls@.len() ==> (#[trigger] ls@[k])@ == l[k],
                    n_kill@ == "oom_kill"@,
                    n_oom@ == "oom"@,
                    oom_kill == last_value(l.take(i as int), "oom_kill"@),
                    oom == last_value(l.take(i as int), "oom"@),
                decreases ls@.len() - i,
            {
                let (key, val) = kv_line(&ls[i]);
                proof {
                    lemma_last_value_step(l, i as int, "oom_kill"@);
                    lemma_last_value_step(l, i as int, "oom"@);
                }
                if chars_eq(&key, &n_kill) {
                    oom_kill = val;
                }
                if chars_eq(&key, &n_oom) {
                    oom = val;
                }
                i += 1;
            }
            assert(l.take(i as int) =~= l);
            (oom_kill, oom)
        },
        None => (None, None),
    }
}

/// Reads the memory counters of one cgroup from its files.
pub fn parse_memory_stat(files: &MemoryFiles) -> (m: MemoryStat)
    ensures
        m.current == counter_value(file_view(files.current)),
        m.max == limit_value(file_view(files.max)),
        m.swap_current == counter_value(file_view(files.swap_current)),
        m.swap_max == limit_value(file_view(files.swap_max)),
        m.peak == counter_value(file_view(files.peak)),
        m.low == counter_value(file_view(files.low)),
        m.high == counter_value(file_view(files.high)),
        match file_view(files.events) {
            Some(c) => m.oom_kill == last_value(lines(c), "oom_kill"@) && m.oom == last_value(
                lines(c),
                "oom"@,
            ),
            None => m.oom_kill is None && m.oom is None,
        },
{
    let (oom_kill, oom) = event_counts(&files.events);
    MemoryStat {
        current: read_counter(&files.current),
        max: read_limit(&files.max),
        swap_current: read_counter(&files.swap_current),
        swap_max: read_limit(&files.swap_max),
        peak: read_counter(&files.peak),
        low: read_counter(&files.low),
        high: read_counter(&files.high),
        oom_kill,
        oom,
    }
}

/// The process ids that the lines of `cgroup.procs` list, in order: each
/// line that reads as a number once trimmed.
pub open spec fn procs_list(ls: Seq<Seq<char>>) -> Seq<u64>
    decreases ls.len(),
{
    if ls.len() == 0 {
        Seq::empty()
    } else {
        let prev = procs_list(ls.drop_last());
        match parse_u64_spec(trim(ls.last())) {
            Some(p) => prev.push(p),
            None => prev,
        }
    }
}

/// Reads `cgroup.procs`: one process id per line; blank lines and lines
/// that are not numbers are left out.
pub fn parse_procs(content: &str) -> (r: Vec<u64>)
    ensures
        r@ == procs_list(lines(content@)),
{
    let text = chars_of(content);
    let ls = lines_of(&text);
    let ghost l = lines(content@);
    let mut out: Vec<u64> = Vec::new();
    let mut i: usize = 0;
    while i < ls.len()
        invariant
            i <= ls@.len(),
            ls@.len() == l.len(),
            forall|k: int| 0 <= k < ls@.len() ==> (#[trigger] ls@[k])@ == l[k],
            out@ == procs_list(l.take(i as int)),
        decreases ls@.len() - i,
    {
        assert(l.take(i + 1).drop_last() =~= l.take(i as int));
        assert(l.take(i + 1).last() == l[i as int]);
        let t = trim_chars(&ls[i]);
        if t.len() > 0 {
            match parse_u64(&t) {
                Some(p) => {
                    out.push(p);
                },
                None => {},
            }
        } else {
            assert(parse_u64_spec(trim(l[i as int])) is None);
        }
        i += 1;
    }
    assert(l.take(i as int) =~= l);
    out
}

/// Whether a canonical path is the cgroup root or lies beneath it.
pub open spec fn in_cgroup_tree(canon: Seq<char>) -> bool {
    canon == CGROUP_ROOT@ || has_prefix(canon, CGROUP_ROOT@ + "/"@)
}

/// The refusal of a path outside the cgroup tree.
pub open spec fn msg_outside_tree(canon: Seq<char>) -> Seq<char> {
    "cgroup: path must start with /sys/fs/cgroup, got "@ + debug_quoted(canon)
}

/// Keeps a canonical path inside the cgroup tree: the root itself or any
/// path beneath it passes, anything else is refused.
pub fn check_cgroup_path(canon: &str) -> (r: Result<(), String>)
    ensures
        r is Ok <==> in_cgroup_tree(canon@),
        r matches Err(e) ==> e@ == msg_outside_tree(canon@),
{
    let c = chars_of(canon);
    let root = chars_of(CGROUP_ROOT);
    let mut root_dir = chars_of(CGROUP_ROOT);
    push_str(&mut root_dir, "/");
    if chars_eq(&c, &root) || starts_with(&c, &root_dir) {
        Ok(())
    } else {
        let mut msg = chars_of("cgroup: path must start with /sys/fs/cgroup, got ");
        let q = debug_text(canon);
        let qc = chars_of(q.as_str());
        push_chars(&mut msg, &qc);
        Err(string_of(&msg))
    }
}

} // verus!
