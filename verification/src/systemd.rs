//! The journal side of the systemd builtin: the `journalctl` command line,
//! the entries read back from its JSON output, the matches a follow
//! installs, and a machine's id read from its runtime file.

use vstd::prelude::*;
use crate::text::{
    parse_u64_spec, trim, lines, has_prefix, chars_of, string_of, push_str, push_chars, dec_chars,
    dec, parse_u64, views, lines_of, starts_with, trim_chars, sub_chars,
};
use crate::redact::{Json, JsonModel, model};

verus! {

/// One journal entry, as scripts receive it.
#[derive(Debug, Clone, PartialEq, Eq)]
pub struct JournalEntry {
    /// Microseconds since the epoch.
    pub ts: u64,
    pub hostname: String,
    pub unit: String,
    pub message: String,
    pub priority: u8,
    pub transport: String,
}

/// What a journal read asks for.
pub struct JournalQuery {
    pub unit: Option<String>,
    pub machine: Option<String>,
    pub since: Option<String>,
    pub until: Option<String>,
    /// How many entries, 200 unless given.
    pub lines: u32,
    /// The least urgent priority shown, 7 unless given.
    pub priority: u8,
}

/// A text that may be absent, as plain characters.
pub open spec fn opt_seq(o: Option<String>) -> Option<Seq<char>> {
    match o {
        Some(s) => Some(s@),
        None => None,
    }
}

/// `flag` followed by the value, if there is one.
pub open spec fn flag_arg(flag: Seq<char>, v: Option<Seq<char>>) -> Seq<Seq<char>> {
    match v {
        Some(x) => seq![flag + x],
        None => Seq::empty(),
    }
}

/// The arguments of `journalctl` for a read: JSON output, no pager, the
/// count and priority, then the unit, machine, start and end where given.
pub open spec fn journal_args_spec(q: JournalQuery) -> Seq<Seq<char>> {
    seq!["--output=json"@, "--no-pager"@, "-n"@ + dec(q.lines as nat), "--priority="@ + dec(q.priority as nat)]
        + flag_arg("--unit="@, opt_seq(q.unit)) + flag_arg("--machine="@, opt_seq(q.machine))
        + flag_arg("--since="@, opt_seq(q.since)) + flag_arg("--until="@, opt_seq(q.until))
}

fn push_flag(v: &mut Vec<String>, flag: &str, value: &Option<String>)
    ensures
        views(final(v)@) == views(old(v)@) + flag_arg(flag@, opt_seq(*value)),
{
    match value {
        Some(x) => {
            let mut c = chars_of(flag);
            push_str(&mut c, x.as_str());
            let ghost before = v@;
            v.push(string_of(&c));
            assert(views(v@) =~= views(before) + seq![flag@ + x@]);
        },
        None => {
            assert(views(v@) =~= views(v@) + Seq::<Seq<char>>::empty());
        },
    }
}

/// The arguments of `journalctl` for a read.
pub fn journal_args(q: &JournalQuery) -> (r: Vec<String>)
    ensures
        views(r@) == journal_args_spec(*q),
{
    let mut v: Vec<String> = Vec::new();
    v.push(string_of(&chars_of("--output=json")));
    v.push(string_of(&chars_of("--no-pager")));
    let mut n = chars_of("-n");
    push_chars(&mut n, &dec_chars(q.lines as u64));
    v.push(string_of(&n));
    let mut p = chars_of("--priority=");
    push_chars(&mut p, &dec_chars(q.priority as u64));
    v.push(string_of(&p));
    assert(views(v@) =~= seq!["--output=json"@, "--no-pager"@, "-n"@ + dec(q.lines as nat), "--priority="@ + dec(q.priority as nat)]);
    push_flag(&mut v, "--unit=", &q.unit);
    push_flag(&mut v, "--machine=", &q.machine);
    push_flag(&mut v, "--since=", &q.since);
    push_flag(&mut v, "--until=", &q.until);
    v
}

/// The string a member of an object holds: the first member with the key,
/// if its value is a string.
pub open spec fn member_str(fields: Seq<(Seq<char>, JsonModel)>, key: Seq<char>) -> Option<Seq<char>>
    decreases fields.len(),
{
    if fields.len() == 0 {
        None
    } else if fields[0].0 == key {
        match fields[0].1 {
            JsonModel::Str(s) => Some(s),
            _ => None,
        }
    } else {
        member_str(fields.drop_first(), key)
    }
}

/// A string member, or the empty text.
pub open spec fn str_or_empty(fields: Seq<(Seq<char>, JsonModel)>, key: Seq<char>) -> Seq<char> {
    match member_str(fields, key) {
        Some(s) => s,
        None => Seq::empty(),
    }
}

/// The entry an object of `journalctl --output=json` gives: its timestamp
/// read from `__REALTIME_TIMESTAMP` (0 if missing or not a number), its
/// priority from `PRIORITY` (7 if missing or not a byte), and its host,
/// unit, message and transport (empty if missing). Only objects give
/// entries.
pub open spec fn entry_spec(j: JsonModel) -> Option<(u64, Seq<char>, Seq<char>, Seq<char>, u8, Seq<char>)> {
    match j {
        JsonModel::Object(fields) => {
            let ts = match member_str(fields, "__REALTIME_TIMESTAMP"@) {
                Some(s) => match parse_u64_spec(s) {
                    Some(n) => n,
                    None => 0,
                },
                None => 0,
            };
            let pri = match member_str(fields, "PRIORITY"@) {
                Some(s) => match parse_u64_spec(s) {
                    Some(n) => if n <= 255 {
                        n as u8
                    } else {
                        7
                    },
                    None => 7,
                },
                None => 7,
            };
            Some(
                (
                    ts,
                    str_or_empty(fields, "_HOSTNAME"@),
                    str_or_empty(fields, "_SYSTEMD_UNIT"@),
                    str_or_empty(fields, "MESSAGE"@),
                    pri,
                    str_or_empty(fields, "_TRANSPORT"@),
                ),
            )
        },
        _ => None,
    }
}

fn member(fields: &Vec<(String, Json)>, key: &str) -> (r: Option<String>)
    ensures
        match (r, member_str(model(Json::Object(*fields))->Object_0, key@)) {
            (Some(a), Some(b)) => a@ == b,
            (None, None) => true,
            _ => false,
        },
{
    let ghost ms = model(Json::Object(*fields))->Object_0;
    assert(ms.len() == fields@.len());
    let k = chars_of(key);
    let mut i: usize = 0;
    assert(ms.skip(0) =~= ms);
    while i < fields.len()
        invariant
            i <= fields@.len(),
            ms.len() == fields@.len(),
            ms == model(Json::Object(*fields))->Object_0,
            k@ == key@,
            member_str(ms, key@) == member_str(ms.skip(i as int), key@),
        decreases fields@.len() - i,
    {
        assert(ms.skip(i as int).drop_first() =~= ms.skip(i + 1));
        assert(ms[i as int] == (fields@[i as int].0@, model(fields@[i as int].1)));
        assert(ms.skip(i as int)[0] == ms[i as int]);
        if crate::text::chars_eq(&chars_of(fields[i].0.as_str()), &k) {
            return match &fields[i].1 {
                Json::Str(s) => Some(string_of(&chars_of(s.as_str()))),
                _ => None,
            };
        }
        i += 1;
    }
    None
}

/// The entry one line of `journalctl --output=json` gives, once decoded.
pub fn journal_entry(j: &Json) -> (r: Option<JournalEntry>)
    ensures
        match (r, entry_spec(model(*j))) {
            (Some(e), Some((ts, h, u, m, p, t))) => e.ts == ts && e.hostname@ == h && e.unit@ == u
                && e.message@ == m && e.priority == p && e.transport@ == t,
            (None, None) => true,
            _ => false,
        },
{
    match j {
        Json::Object(fields) => {
            let text = |o: Option<String>| -> (r: String)
                ensures
                    r@ == (match o {
                        Some(s) => s@,
                        None => Seq::empty(),
                    }),
                {
                    match o {
                        Some(s) => s,
                        None => string_of(&Vec::new()),
                    }
                };
            let ts = match member(fields, "__REALTIME_TIMESTAMP") {
                Some(s) => match parse_u64(&chars_of(s.as_str())) {
                    Some(n) => n,
                    None => 0,
                },
                None => 0,
            };
            let priority = match member(fields, "PRIORITY") {
                Some(s) => match parse_u64(&chars_of(s.as_str())) {
                    Some(n) => if n <= 255 {
                        n as u8
                    } else {
                        7
                    },
                    None => 7,
                },
                None => 7,
            };
            Some(
                JournalEntry {
                    ts,
                    hostname: text(member(fields, "_HOSTNAME")),
                    unit: text(member(fields, "_SYSTEMD_UNIT")),
                    message: text(member(fields, "MESSAGE")),
                    priority,
                    transport: text(member(fields, "_TRANSPORT")),
                },
            )
        },
        _ => None,
    }
}

/// The journal matches a follow installs: the unit, the machine by id when
/// it is known (else by name), and one match for each priority from 0 to
/// the given one.
pub open spec fn follow_matches_spec(
    unit: Option<Seq<char>>,
    machine: Option<Seq<char>>,
    machine_id: Option<Seq<char>>,
    priority: u8,
) -> Seq<Seq<char>> {
    let u: Seq<Seq<char>> = match unit {
        Some(x) => seq!["_SYSTEMD_UNIT="@ + x],
        None => Seq::empty(),
    };
    let m: Seq<Seq<char>> = match machine {
        Some(x) => match machine_id {
            Some(id) => seq!["_MACHINE_ID="@ + id],
            None => seq!["_MACHINE="@ + x],
        },
        None => Seq::empty(),
    };
    u + m + Seq::new(priority as nat + 1, |p: int| "PRIORITY="@ + dec(p as nat))
}

/// The journal matches of a follow; `machine_id` is the id the machine's
/// runtime file gives, where it gives one.
pub fn follow_matches(unit: &Option<String>, machine: &Option<String>, machine_id: &Option<String>, priority: u8) -> (r: Vec<String>)
    ensures
        views(r@) == follow_matches_spec(opt_seq(*unit), opt_seq(*machine), opt_seq(*machine_id), priority),
{
    let mut v: Vec<String> = Vec::new();
    push_flag(&mut v, "_SYSTEMD_UNIT=", unit);
    let ghost after_unit = views(v@);
    match machine {
        Some(_) => match machine_id {
            Some(_) => push_flag(&mut v, "_MACHINE_ID=", machine_id),
            None => push_flag(&mut v, "_MACHINE=", machine),
        },
        None => {},
    }
    let ghost base = views(v@);
    let mut p: u8 = 0;
    let mut done = false;
    while !done
        invariant
            !done ==> views(v@) == base + Seq::new(p as nat, |q: int| "PRIORITY="@ + dec(q as nat)),
            !done ==> p <= priority,
            done ==> views(v@) == base + Seq::new(priority as nat + 1, |q: int| "PRIORITY="@ + dec(q as nat)),
        decreases 512 - 2 * p - (if done { 1int } else { 0int }),
    {
        let mut c = chars_of("PRIORITY=");
        push_chars(&mut c, &dec_chars(p as u64));
        let ghost before = views(v@);
        v.push(string_of(&c));
        assert(views(v@) =~= before.push("PRIORITY="@ + dec(p as nat)));
        if p == priority {
            done = true;
            assert(views(v@) =~= base + Seq::new(priority as nat + 1, |q: int| "PRIORITY="@ + dec(q as nat)));
        } else {
            p = p + 1;
            assert(views(v@) =~= base + Seq::new(p as nat, |q: int| "PRIORITY="@ + dec(q as nat)));
        }
    }
    assert(follow_matches_spec(opt_seq(*unit), opt_seq(*machine), opt_seq(*machine_id), priority) =~= base
        + Seq::new(priority as nat + 1, |q: int| "PRIORITY="@ + dec(q as nat)));
    v
}


/// Whether a character is an ASCII hexadecimal digit.
pub open spec fn hex_char(c: char) -> bool {
    ('0' <= c && c <= '9') || ('a' <= c && c <= 'f') || ('A' <= c && c <= 'F')
}

/// The machine id a line of a machine's runtime file gives: after
/// `MACHINE_ID=`, trimmed, thirty-two hexadecimal digits.
pub open spec fn id_of_line(l: Seq<char>) -> Option<Seq<char>> {
    if has_prefix(l, "MACHINE_ID="@) {
        let id = trim(l.skip(11));
        if id.len() == 32 && (forall|i: int| 0 <= i < 32 ==> hex_char(#[trigger] id[i])) {
            Some(id)
        } else {
            None
        }
    } else {
        None
    }
}

/// The first id the lines give.
pub open spec fn first_id(ls: Seq<Seq<char>>) -> Option<Seq<char>>
    decreases ls.len(),
{
    if ls.len() == 0 {
        None
    } else {
        match id_of_line(ls[0]) {
            Some(id) => Some(id),
            None => first_id(ls.drop_first()),
        }
    }
}

/// Reads a machine's id from its runtime file
/// (`/run/systemd/machines/<name>`).
pub fn machine_id_from(content: &str) -> (r: Option<String>)
    ensures
        match (r, first_id(lines(content@))) {
            (Some(a), Some(b)) => a@ == b,
            (None, None) => true,
            _ => false,
        },
{
    let ls = lines_of(&chars_of(content));
    let ghost lv = lines(content@);
    let prefix = chars_of("MACHINE_ID=");
    proof {
        reveal_strlit("MACHINE_ID=");
    }
    let mut i: usize = 0;
    assert(lv.skip(0) =~= lv);
    while i < ls.len()
        invariant
            i <= ls@.len(),
            ls@.len() == lv.len(),
            forall|k: int| 0 <= k < ls@.len() ==> (#[trigger] ls@[k])@ == lv[k],
            prefix@ == "MACHINE_ID="@,
            prefix@.len() == 11,
            lv == lines(content@),
            first_id(lv) == first_id(lv.skip(i as int)),
        decreases ls@.len() - i,
    {
        assert(lv.skip(i as int).drop_first() =~= lv.skip(i + 1));
        assert(lv.skip(i as int)[0] == lv[i as int]);
        let l = &ls[i];
        if starts_with(l, &prefix) {
            let rest = sub_chars(l, 11, l.len());
            assert(rest@ =~= l@.skip(11));
            let id = trim_chars(&rest);
            if id.len() == 32 {
                let mut ok = true;
                let mut k: usize = 0;
                while k < 32
                    invariant
                        k <= 32,
                        id@.len() == 32,
                        ok == forall|m: int| 0 <= m < k ==> hex_char(#[trigger] id@[m]),
                    decreases 32 - k,
                {
                    let c = id[k];
                    if !(('0' <= c && c <= '9') || ('a' <= c && c <= 'f') || ('A' <= c && c <= 'F')) {
                        ok = false;
                    }
                    k += 1;
                }
                if ok {
                    assert(id_of_line(lv[i as int]) == Some(id@));
                    return Some(string_of(&id));
                }
            }
        }
        i += 1;
    }
    None
}

} // verus!

verus! {

/// The `--setenv=KEY=VALUE` options for an environment, in order.
pub open spec fn setenv_args(env: Seq<(Seq<char>, Seq<char>)>) -> Seq<Seq<char>> {
    Seq::new(env.len(), |i: int| "--setenv="@ + env[i].0 + "="@ + env[i].1)
}

/// The arguments of `systemd-run` that run `command` inside `machine`:
/// the machine and the options that wait for the command and hand back
/// its output, the environment, then `/bin/sh -c` and the command as one
/// argument.
pub open spec fn machine_exec_args_spec(
    machine: Seq<char>,
    command: Seq<char>,
    env: Seq<(Seq<char>, Seq<char>)>,
) -> Seq<Seq<char>> {
    seq!["--machine="@ + machine, "--pipe"@, "--quiet"@, "--wait"@, "--collect"@] + setenv_args(env) + seq![
        "/bin/sh"@,
        "-c"@,
        command,
    ]
}

/// The arguments of `systemd-run` for `systemd.machine_exec`.
pub fn machine_exec_args(machine: &str, command: &str, env: &[(String, String)]) -> (r: Vec<String>)
    ensures
        views(r@) == machine_exec_args_spec(
            machine@,
            command@,
            env@.map_values(|p: (String, String)| (p.0@, p.1@)),
        ),
{
    let ghost ev = env@.map_values(|p: (String, String)| (p.0@, p.1@));
    let mut out: Vec<String> = Vec::new();
    let mut m = chars_of("--machine=");
    push_str(&mut m, machine);
    out.push(string_of(&m));
    out.push(string_of(&chars_of("--pipe")));
    out.push(string_of(&chars_of("--quiet")));
    out.push(string_of(&chars_of("--wait")));
    out.push(string_of(&chars_of("--collect")));
    let ghost head = views(out@);
    assert(head =~= seq!["--machine="@ + machine@, "--pipe"@, "--quiet"@, "--wait"@, "--collect"@]);
    let mut i: usize = 0;
    while i < env.len()
        invariant
            i <= env@.len(),
            ev == env@.map_values(|p: (String, String)| (p.0@, p.1@)),
            views(out@) == head + setenv_args(ev.take(i as int)),
        decreases env@.len() - i,
    {
        let ghost before = views(out@);
        let mut a = chars_of("--setenv=");
        push_str(&mut a, env[i].0.as_str());
        push_str(&mut a, "=");
        push_str(&mut a, env[i].1.as_str());
        out.push(string_of(&a));
        proof {
            assert(views(out@) =~= before.push(a@));
            assert(setenv_args(ev.take(i + 1)) =~= setenv_args(ev.take(i as int)).push(a@));
        }
        i += 1;
    }
    assert(ev.take(i as int) =~= ev);
    let ghost mid = views(out@);
    out.push(string_of(&chars_of("/bin/sh")));
    out.push(string_of(&chars_of("-c")));
    out.push(string_of(&chars_of(command)));
    assert(views(out@) =~= mid + seq!["/bin/sh"@, "-c"@, command@]);
    out
}

/// The units a listing keeps, by position: all of them without a filter,
/// else those whose name the filter's glob matches, in their order.
pub open spec fn kept_units(names: Seq<Seq<char>>, filter: Option<Seq<char>>) -> Seq<int>
    decreases names.len(),
{
    if names.len() == 0 {
        Seq::empty()
    } else {
        let front = kept_units(names.drop_last(), filter);
        let keep = match filter {
            Some(p) => crate::builtins::unit_glob(p, names.last()),
            None => true,
        };
        if keep {
            front.push(names.len() - 1)
        } else {
            front
        }
    }
}

/// The positions of the units `systemd.list_units` lists, given the unit
/// names in the order the manager gave them and the optional glob.
pub fn units_matching(names: &[String], filter: Option<&str>) -> (r: Vec<usize>)
    ensures
        r@.len() == kept_units(views(names@), match filter {
            Some(f) => Some(f@),
            None => None,
        }).len(),
        forall|k: int|
            0 <= k < r@.len() ==> #[trigger] r@[k] as int == kept_units(views(names@), match filter {
                Some(f) => Some(f@),
                None => None,
            })[k],
{
    let ghost nv = views(names@);
    let ghost fv = match filter {
        Some(f) => Some(f@),
        None => None,
    };
    let mut out: Vec<usize> = Vec::new();
    let mut i: usize = 0;
    while i < names.len()
        invariant
            i <= names@.len(),
            nv == views(names@),
            fv == (match filter {
                Some(f) => Some(f@),
                None => None,
            }),
            out@.len() == kept_units(nv.take(i as int), fv).len(),
            forall|k: int| 0 <= k < out@.len() ==> #[trigger] out@[k] as int == kept_units(nv.take(i as int), fv)[k],
        decreases names@.len() - i,
    {
        assert(nv.take(i + 1).drop_last() =~= nv.take(i as int));
        assert(nv.take(i + 1).last() == names@[i as int]@);
        let keep = match filter {
            Some(p) => crate::builtins::glob_matches(p, names[i].as_str()),
            None => true,
        };
        if keep {
            out.push(i);
        }
        i += 1;
    }
    assert(nv.take(i as int) =~= nv);
    out
}

/// Whether a unit is a timer: its name ends in `.timer`.
pub fn is_timer_unit(name: &str) -> (r: bool)
    ensures
        r == crate::text::has_suffix(name@, ".timer"@),
{
    crate::text::ends_with(&chars_of(name), &chars_of(".timer"))
}

/// Whether a timer's next elapse (microseconds since the epoch, 0 for
/// none) has passed at `now`.
pub fn timer_passed(next_elapse: u64, now: u64) -> (r: bool)
    ensures
        r == (next_elapse > 0 && now > next_elapse),
{
    next_elapse > 0 && now > next_elapse
}

} // verus!
