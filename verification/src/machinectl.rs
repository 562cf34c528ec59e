//! The checks and command lines of the machinectl wrapper.
//!
//! Machine names are held to the systemd-machined character set and may not
//! look like flags; URLs must be http(s) and free of control characters.
//! Every command line ends its options with `--` before the names it
//! passes, and a caller that is not root runs it through `sudo -n`.

use vstd::prelude::*;
use crate::text::{string_from, has_prefix, chars_of, starts_with, string_of, push_str, push_chars, debug_quoted, debug_text, views};

verus! {

/// A character a machine name may hold: ASCII letters and digits, `-`, `_`
/// and `.`.
pub open spec fn name_char(c: char) -> bool {
    ('a' <= c && c <= 'z') || ('A' <= c && c <= 'Z') || ('0' <= c && c <= '9') || c == '-' || c
        == '_' || c == '.'
}

/// Whether every character of a name is allowed.
pub open spec fn name_chars_ok(name: Seq<char>) -> bool {
    forall|i: int| 0 <= i < name.len() ==> name_char(#[trigger] name[i])
}

/// Why a machine name is refused, if it is: empty, a character outside the
/// set, or a leading `-`, checked in that order.
pub open spec fn name_problem(kind: Seq<char>, name: Seq<char>) -> Option<Seq<char>> {
    if name.len() == 0 {
        Some("machinectl."@ + kind + ": name must be non-empty"@)
    } else if !name_chars_ok(name) {
        Some("machinectl."@ + kind + ": name "@ + debug_quoted(name) + " must match [A-Za-z0-9._-]+"@)
    } else if name[0] == '-' {
        Some(
            "machinectl."@ + kind + ": name "@ + debug_quoted(name)
                + " must not start with '-' (would be parsed as a flag)"@,
        )
    } else {
        None
    }
}

fn message3(a: &str, b: &str, c: &str) -> (r: String)
    ensures
        r@ == a@ + b@ + c@,
{
    let mut m = chars_of(a);
    push_str(&mut m, b);
    push_str(&mut m, c);
    string_of(&m)
}

/// Checks a machine or image name; `kind` names the operation in the
/// refusal.
pub fn validate_name(kind: &str, name: &str) -> (r: Result<(), String>)
    ensures
        match name_problem(kind@, name@) {
            Some(m) => r matches Err(e) && e@ == m,
            None => r is Ok,
        },
{
    let n = chars_of(name);
    if n.len() == 0 {
        return Err(message3("machinectl.", kind, ": name must be non-empty"));
    }
    let mut i: usize = 0;
    while i < n.len()
        invariant
            i <= n@.len(),
            n@ == name@,
            forall|k: int| 0 <= k < i ==> name_char(#[trigger] n@[k]),
        decreases n@.len() - i,
    {
        let c = n[i];
        if !(('a' <= c && c <= 'z') || ('A' <= c && c <= 'Z') || ('0' <= c && c <= '9') || c == '-'
            || c == '_' || c == '.') {
            let q = debug_text(name);
            let mut m = chars_of("machinectl.");
            push_str(&mut m, kind);
            push_str(&mut m, ": name ");
            push_str(&mut m, q.as_str());
            push_str(&mut m, " must match [A-Za-z0-9._-]+");
            return Err(string_of(&m));
        }
        i += 1;
    }
    if n[0] == '-' {
        let q = debug_text(name);
        let mut m = chars_of("machinectl.");
        push_str(&mut m, kind);
        push_str(&mut m, ": name ");
        push_str(&mut m, q.as_str());
        push_str(&mut m, " must not start with '-' (would be parsed as a flag)");
        return Err(string_of(&m));
    }
    Ok(())
}

/// Whether a character is a control character (general category `Cc`:
/// U+0000 to U+001F and U+007F to U+009F), as `char::is_control` decides.
pub open spec fn is_control(c: char) -> bool {
    (c as u32) <= 0x1F || (0x7F <= (c as u32) && (c as u32) <= 0x9F)
}

/// Why a URL is refused, if it is: not http(s), then a control character.
pub open spec fn url_problem(kind: Seq<char>, url: Seq<char>) -> Option<Seq<char>> {
    if !(has_prefix(url, "https://"@) || has_prefix(url, "http://"@)) {
        Some("machinectl."@ + kind + ": url must be http(s)://"@)
    } else if exists|i: int| 0 <= i < url.len() && is_control(#[trigger] url[i]) {
        Some("machinectl."@ + kind + ": url contains control characters"@)
    } else {
        None
    }
}

/// Checks an image URL; `kind` names the operation in the refusal.
pub fn validate_url(kind: &str, url: &str) -> (r: Result<(), String>)
    ensures
        match url_problem(kind@, url@) {
            Some(m) => r matches Err(e) && e@ == m,
            None => r is Ok,
        },
{
    let u = chars_of(url);
    if !(starts_with(&u, &chars_of("https://")) || starts_with(&u, &chars_of("http://"))) {
        return Err(message3("machinectl.", kind, ": url must be http(s)://"));
    }
    let mut i: usize = 0;
    while i < u.len()
        invariant
            i <= u@.len(),
            u@ == url@,
            has_prefix(url@, "https://"@) || has_prefix(url@, "http://"@),
            forall|k: int| 0 <= k < i ==> !is_control(#[trigger] u@[k]),
        decreases u@.len() - i,
    {
        let v = u[i] as u32;
        if v <= 0x1F || (0x7F <= v && v <= 0x9F) {
            assert(is_control(url@[i as int]));
            return Err(message3("machinectl.", kind, ": url contains control characters"));
        }
        i += 1;
    }
    Ok(())
}

/// The arguments of a pull: the verb, `--verify=no` unless verification
/// was asked for, `--`, the URL and the name.
pub open spec fn pull_args_spec(verb: Seq<char>, verify: bool, url: Seq<char>, name: Seq<char>) -> Seq<Seq<char>> {
    if verify {
        seq![verb, "--"@, url, name]
    } else {
        seq![verb, "--verify=no"@, "--"@, url, name]
    }
}

/// The arguments of `machinectl pull-tar` or `pull-raw` (`verb`).
pub fn pull_args(verb: &str, verify: bool, url: &str, name: &str) -> (r: Vec<String>)
    ensures
        views(r@) == pull_args_spec(verb@, verify, url@, name@),
{
    let mut v: Vec<String> = Vec::new();
    v.push(string_from(verb));
    if !verify {
        v.push(string_from("--verify=no"));
    }
    v.push(string_from("--"));
    v.push(string_from(url));
    v.push(string_from(name));
    assert(views(v@) =~= pull_args_spec(verb@, verify, url@, name@));
    v
}

/// The arguments of `machinectl remove`.
pub fn remove_args(name: &str) -> (r: Vec<String>)
    ensures
        views(r@) == seq!["remove"@, "--"@, name@],
{
    let v = vec![string_from("remove"), string_from("--"), string_from(name)];
    assert(views(v@) =~= seq!["remove"@, "--"@, name@]);
    v
}

/// The arguments of `machinectl clone`.
pub fn clone_args(src: &str, dst: &str) -> (r: Vec<String>)
    ensures
        views(r@) == seq!["clone"@, "--"@, src@, dst@],
{
    let v = vec![string_from("clone"), string_from("--"), string_from(src), string_from(dst)];
    assert(views(v@) =~= seq!["clone"@, "--"@, src@, dst@]);
    v
}

/// The program and full argument list that run machinectl: directly for
/// root, else through `sudo -n` so that a password prompt fails at once.
pub open spec fn invocation_spec(root: bool, args: Seq<Seq<char>>) -> (Seq<char>, Seq<Seq<char>>) {
    if root {
        ("machinectl"@, args)
    } else {
        ("sudo"@, seq!["-n"@, "machinectl"@] + args)
    }
}

/// The program and arguments to run machinectl with.
pub fn invocation(root: bool, args: Vec<String>) -> (r: (String, Vec<String>))
    ensures
        r.0@ == invocation_spec(root, views(args@)).0,
        views(r.1@) == invocation_spec(root, views(args@)).1,
{
    if root {
        (string_from("machinectl"), args)
    } else {
        let mut v: Vec<String> = Vec::new();
        v.push(string_from("-n"));
        v.push(string_from("machinectl"));
        let mut i: usize = 0;
        let ghost av = views(args@);
        while i < args.len()
            invariant
                i <= args@.len(),
                av == views(args@),
                views(v@) == seq!["-n"@, "machinectl"@] + av.take(i as int),
            decreases args@.len() - i,
        {
            let ghost before = v@;
            v.push(string_from(args[i].as_str()));
            assert(views(v@) =~= views(before).push(av[i as int]));
            i += 1;
            assert(seq!["-n"@, "machinectl"@] + av.take(i as int) =~= seq!["-n"@, "machinectl"@] + av.take(i - 1).push(av[i - 1]));
        }
        assert(av.take(i as int) =~= av);
        (string_from("sudo"), v)
    }
}

/// A name that passes the check holds only allowed characters and does not
/// begin with `-`, so it can be neither a path nor a flag.
pub proof fn law_accepted_names_are_plain(kind: Seq<char>, name: Seq<char>)
    requires
        name_problem(kind, name) is None,
    ensures
        name.len() > 0,
        name[0] != '-',
        forall|i: int| 0 <= i < name.len() ==> #[trigger] name[i] != '/' && name[i] != ' ' && name[i] != ';',
{
    assert forall|i: int| 0 <= i < name.len() implies #[trigger] name[i] != '/' && name[i] != ' ' && name[i]
        != ';' by {
        assert(name_char(name[i]));
    }
}

/// Every pull hands the URL and the name after `--`, so neither can be read
/// as an option.
pub proof fn law_pull_ends_options_first(verb: Seq<char>, verify: bool, url: Seq<char>, name: Seq<char>)
    ensures
        ({
            let a = pull_args_spec(verb, verify, url, name);
            &&& a[a.len() - 3] == "--"@
            &&& a[a.len() - 2] == url
            &&& a[a.len() - 1] == name
        }),
{
}

} // verus!
