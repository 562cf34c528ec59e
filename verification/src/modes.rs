//! The execution mode of a run and the approval state it carries.
//!
//! A run is unrestricted, read-only (mutating builtins refuse) or under
//! approval (mutating builtins suspend for a decision). The flags come from
//! the command line and from the environment; approval wins over read-only.

use vstd::prelude::*;
use crate::text::{trim, chars_of, trim_chars, chars_eq, pieces, split_all, parse_u64_spec, parse_u64};

verus! {

/// Which gate, if any, a run is under.
#[derive(Debug, Clone, Copy, PartialEq, Eq)]
pub enum ExecMode {
    Unrestricted,
    ReadOnly,
    Approval,
}

impl Default for ExecMode {
    fn default() -> (m: Self)
        ensures
            m == ExecMode::Unrestricted,
    {
        ExecMode::Unrestricted
    }
}

impl ExecMode {
    /// Whether mutating builtins refuse.
    pub fn is_readonly(self) -> (r: bool)
        ensures
            r == (self == ExecMode::ReadOnly),
    {
        match self {
            ExecMode::ReadOnly => true,
            _ => false,
        }
    }

    /// Whether mutating builtins suspend for approval.
    pub fn is_approval(self) -> (r: bool)
        ensures
            r == (self == ExecMode::Approval),
    {
        match self {
            ExecMode::Approval => true,
            _ => false,
        }
    }
}

/// Whether an environment switch is on: set, and `1` or `true` once
/// trimmed.
pub open spec fn switch_on(raw: Option<Seq<char>>) -> bool {
    match raw {
        Some(v) => trim(v) == "1"@ || trim(v) == "true"@,
        None => false,
    }
}

/// The value of an environment variable as plain characters.
pub open spec fn env_view(raw: Option<&str>) -> Option<Seq<char>> {
    match raw {
        Some(v) => Some(v@),
        None => None,
    }
}

/// Reads an environment switch such as `ASSAY_READONLY` or
/// `ASSAY_APPROVAL`, given its value if it is set.
pub fn switch_from(raw: Option<&str>) -> (r: bool)
    ensures
        r == switch_on(env_view(raw)),
{
    match raw {
        Some(v) => {
            let c = chars_of(v);
            let t = trim_chars(&c);
            chars_eq(&t, &chars_of("1")) || chars_eq(&t, &chars_of("true"))
        },
        None => false,
    }
}

/// The mode of a run: approval if the command line or the environment asks
/// for it, else read-only if either asks for that, else unrestricted.
pub open spec fn exec_mode_spec(cli_readonly: bool, cli_approval: bool, env_readonly: bool, env_approval: bool) -> ExecMode {
    if cli_approval || env_approval {
        ExecMode::Approval
    } else if cli_readonly || env_readonly {
        ExecMode::ReadOnly
    } else {
        ExecMode::Unrestricted
    }
}

/// Resolves the mode of a run from the command-line flags and the
/// environment switches. Approval wins over read-only.
pub fn resolve_exec_mode(cli_readonly: bool, cli_approval: bool, env_readonly: bool, env_approval: bool) -> (m: ExecMode)
    ensures
        m == exec_mode_spec(cli_readonly, cli_approval, env_readonly, env_approval),
{
    if cli_approval || env_approval {
        ExecMode::Approval
    } else if cli_readonly || env_readonly {
        ExecMode::ReadOnly
    } else {
        ExecMode::Unrestricted
    }
}

/// The indices a comma-separated list names, in order: each piece that is a
/// number once trimmed; empty pieces and others are left out.
pub open spec fn indices_of(ps: Seq<Seq<char>>) -> Seq<u64>
    decreases ps.len(),
{
    if ps.len() == 0 {
        Seq::empty()
    } else {
        let prev = indices_of(ps.drop_last());
        let t = trim(ps.last());
        if t.len() == 0 {
            prev
        } else {
            match parse_u64_spec(t) {
                Some(n) => prev.push(n),
                None => prev,
            }
        }
    }
}

/// Reads a comma-separated list of operation indices.
pub fn parse_indices(raw: &str) -> (r: Vec<u64>)
    ensures
        r@ == indices_of(pieces(raw@, ',')),
{
    let c = chars_of(raw);
    let ps = split_all(&c, ',');
    let ghost pv = pieces(raw@, ',');
    let mut out: Vec<u64> = Vec::new();
    let mut i: usize = 0;
    while i < ps.len()
        invariant
            i <= ps@.len(),
            ps@.len() == pv.len(),
            forall|k: int| 0 <= k < ps@.len() ==> (#[trigger] ps@[k])@ == pv[k],
            out@ == indices_of(pv.take(i as int)),
        decreases ps@.len() - i,
    {
        assert(pv.take(i + 1).drop_last() =~= pv.take(i as int));
        assert(pv.take(i + 1).last() == pv[i as int]);
        let t = trim_chars(&ps[i]);
        if t.len() > 0 {
            match parse_u64(&t) {
                Some(n) => out.push(n),
                None => {},
            }
        }
        i += 1;
    }
    assert(pv.take(i as int) =~= pv);
    out
}

/// Which operations of an approval run are already approved, and which one
/// (if any) must fail for good.
#[derive(Debug, Clone, PartialEq, Eq)]
pub struct ApprovalConfig {
    pub approved_indices: Vec<u64>,
    pub denied_index: Option<u64>,
}

impl Default for ApprovalConfig {
    fn default() -> (c: Self)
        ensures
            c.approved_indices@.len() == 0,
            c.denied_index is None,
    {
        ApprovalConfig { approved_indices: Vec::new(), denied_index: None }
    }
}

/// The approval state of a run, from the values of `ASSAY_APPROVED_INDICES`
/// and `ASSAY_DENIED_INDEX` where they are set. Nothing is approved or
/// denied where they are not.
pub fn approval_config(approved: Option<&str>, denied: Option<&str>) -> (c: ApprovalConfig)
    ensures
        c.approved_indices@ == (match env_view(approved) {
            Some(v) => indices_of(pieces(v, ',')),
            None => Seq::empty(),
        }),
        c.denied_index == (match env_view(denied) {
            Some(v) => parse_u64_spec(trim(v)),
            None => None,
        }),
{
    let approved_indices = match approved {
        Some(raw) => parse_indices(raw),
        None => Vec::new(),
    };
    let denied_index = match denied {
        Some(raw) => {
            let c = chars_of(raw);
            let t = trim_chars(&c);
            parse_u64(&t)
        },
        None => None,
    };
    ApprovalConfig { approved_indices, denied_index }
}

/// The configuration of one VM: where global modules are looked up, the
/// mode, and the approval state.
#[derive(Debug, Clone)]
pub struct VmOptions {
    pub global_modules_path: Option<String>,
    pub mode: ExecMode,
    pub approval: ApprovalConfig,
}

impl Default for VmOptions {
    fn default() -> (o: Self)
        ensures
            o.global_modules_path is None,
            o.mode == ExecMode::Unrestricted,
            o.approval.approved_indices@.len() == 0,
            o.approval.denied_index is None,
    {
        VmOptions {
            global_modules_path: None,
            mode: ExecMode::Unrestricted,
            approval: ApprovalConfig::default(),
        }
    }
}

/// Approval wins over read-only whatever the other flags say; with neither
/// asked for anywhere, a run is unrestricted.
pub proof fn law_approval_outranks_readonly(
    cli_readonly: bool,
    cli_approval: bool,
    env_readonly: bool,
    env_approval: bool,
)
    ensures
        (cli_approval || env_approval) ==> exec_mode_spec(cli_readonly, cli_approval, env_readonly, env_approval)
            == ExecMode::Approval,
        !(cli_approval || env_approval || cli_readonly || env_readonly) ==> exec_mode_spec(
            cli_readonly,
            cli_approval,
            env_readonly,
            env_approval,
        ) == ExecMode::Unrestricted,
{
}

/// How a script file is run: as a plain script, or as a tool that answers
/// with one JSON envelope and may suspend for approval.
#[derive(Debug, Clone, Copy, PartialEq, Eq, Structural)]
pub enum ScriptMode {
    Script,
    Tool,
}

/// The script mode asked for: the command line's `--mode` where given, else
/// `ASSAY_MODE`; `tool` selects tool mode, anything else plain scripts.
pub fn resolve_script_mode(cli_mode: Option<&str>, env_mode: Option<&str>) -> (m: ScriptMode)
    ensures
        m == (match cli_mode {
            Some(c) => if c@ == "tool"@ { ScriptMode::Tool } else { ScriptMode::Script },
            None => match env_mode {
                Some(e) => if e@ == "tool"@ { ScriptMode::Tool } else { ScriptMode::Script },
                None => ScriptMode::Script,
            },
        }),
{
    let chosen = match cli_mode {
        Some(c) => Some(c),
        None => env_mode,
    };
    match chosen {
        Some(t) => {
            if chars_eq(&chars_of(t), &chars_of("tool")) {
                ScriptMode::Tool
            } else {
                ScriptMode::Script
            }
        },
        None => ScriptMode::Script,
    }
}

} // verus!
