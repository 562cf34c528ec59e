//! The read-only and approval gates over the mutating builtins.
//!
//! Both gates share one catalog of what mutates. Under read-only, a
//! mutating call is refused. Under approval, each mutating call takes the
//! next index of the run: a denied index fails for good, an approved index
//! runs only if it is bound to the very same operation, and any other index
//! suspends the run with a request for approval.

use vstd::prelude::*;
use crate::text::{string_from, 
    chars_of, string_of, push_str, push_chars, chars_eq, contains_seq, dec, dec_chars, views,
    has_str, contains_str, text_lt, text_lt_exec, lemma_text_lt_irreflexive, lemma_text_lt_total,
    lemma_text_lt_transitive,
};

verus! {

/// Whether a text holds a character.
pub open spec fn has_char(s: Seq<char>, c: char) -> bool {
    exists|i: int| 0 <= i < s.len() && s[i] == c
}

/// Whether an `io.open` mode writes: it holds `w`, `a` or `+`. A missing
/// mode is `r`.
pub open spec fn open_mode_writes(mode: Option<Seq<char>>) -> bool {
    match mode {
        Some(m) => has_char(m, 'w') || has_char(m, 'a') || has_char(m, '+'),
        None => false,
    }
}

/// The mode argument as plain characters.
pub open spec fn mode_view(mode: Option<&str>) -> Option<Seq<char>> {
    match mode {
        Some(m) => Some(m@),
        None => None,
    }
}

/// Whether an `io.open` call writes, given its mode argument if it is a
/// string.
pub fn io_open_writes(mode: Option<&str>) -> (r: bool)
    ensures
        r == open_mode_writes(mode_view(mode)),
{
    match mode {
        Some(m) => {
            assert(mode_view(mode) == Some(m@));
            let c = chars_of(m);
            let mut i: usize = 0;
            while i < c.len()
                invariant
                    i <= c@.len(),
                    c@ == m@,
                    mode_view(mode) == Some(m@),
                    forall|k: int| 0 <= k < i ==> c@[k] != 'w' && c@[k] != 'a' && c@[k] != '+',
                decreases c@.len() - i,
            {
                if c[i] == 'w' || c[i] == 'a' || c[i] == '+' {
                    assert(c@[i as int] == m@[i as int]);
                    if c[i] == 'w' {
                        assert(has_char(m@, 'w'));
                    } else if c[i] == 'a' {
                        assert(has_char(m@, 'a'));
                    } else {
                        assert(has_char(m@, '+'));
                    }
                    return true;
                }
                i += 1;
            }
            false
        },
        None => false,
    }
}

/// Whether an `io.output` call writes: it does when it names a target.
pub fn io_output_writes(arg_count: usize) -> (r: bool)
    ensures
        r == (arg_count > 0),
{
    arg_count > 0
}

/// The refusal of a blocked operation under read-only.
pub open spec fn msg_readonly(name: Seq<char>) -> Seq<char> {
    "readonly: "@ + name + " blocked (write operations are disabled in read-only mode)"@
}

/// The refusal of a blocked operation under read-only.
pub fn readonly_refusal(name: &str) -> (r: String)
    ensures
        r@ == msg_readonly(name@),
{
    let mut m = chars_of("readonly: ");
    push_str(&mut m, name);
    push_str(&mut m, " blocked (write operations are disabled in read-only mode)");
    string_of(&m)
}

/// What read-only does with a `http._client_request` call: a call whose
/// method is a string other than `get` is refused, naming `http.<method>`.
pub open spec fn client_request_refusal_spec(method: Option<Seq<char>>) -> Option<Seq<char>> {
    match method {
        Some(m) => if m != "get"@ {
            Some(msg_readonly("http."@ + m))
        } else {
            None
        },
        None => None,
    }
}

/// The refusal read-only gives a `http._client_request` call, if any.
pub fn client_request_refusal(method: Option<&str>) -> (r: Option<String>)
    ensures
        match (r, client_request_refusal_spec(mode_view(method))) {
            (Some(a), Some(b)) => a@ == b,
            (None, None) => true,
            _ => false,
        },
{
    match method {
        Some(m) => {
            if chars_eq(&chars_of(m), &chars_of("get")) {
                None
            } else {
                let mut n = chars_of("http.");
                push_str(&mut n, m);
                let name = string_of(&n);
                Some(readonly_refusal(name.as_str()))
            }
        },
        None => None,
    }
}

/// The most characters of an argument shown in an approval request.
pub const SUMMARY_CAP: usize = 200;

/// An argument as an approval request shows it: whole, or its first
/// `SUMMARY_CAP` characters and `...`.
pub open spec fn summary_spec(s: Seq<char>) -> Seq<char> {
    if s.len() > SUMMARY_CAP {
        s.take(SUMMARY_CAP as int) + "..."@
    } else {
        s
    }
}

/// Cuts an argument down for an approval request.
pub fn truncate(value: &str) -> (r: String)
    ensures
        r@ == summary_spec(value@),
{
    let c = chars_of(value);
    if c.len() > SUMMARY_CAP {
        let mut head: Vec<char> = Vec::new();
        let mut i: usize = 0;
        while i < SUMMARY_CAP
            invariant
                i <= SUMMARY_CAP < c@.len(),
                head@ == c@.take(i as int),
            decreases SUMMARY_CAP - i,
        {
            head.push(c[i]);
            i += 1;
            assert(head@ =~= c@.take(i as int));
        }
        push_str(&mut head, "...");
        string_of(&head)
    } else {
        string_of(&c)
    }
}

/// The state of the approval gate over one run.
pub struct GateState {
    /// The index the next gated call takes.
    pub counter: u64,
    /// The indices approved for this run, read as a set: an index is
    /// approved when it occurs in the list at least once.
    pub approved: Vec<u64>,
    /// The index that must fail for good, if any.
    pub denied: Option<u64>,
    /// The operation each approved index was approved for, read as a map
    /// filled in order: where an index occurs more than once, its last
    /// entry counts (see `binding_of`).
    pub bindings: Vec<(u64, String)>,
}

/// What approval decides for one gated call.
#[derive(Debug, Clone, PartialEq, Eq)]
pub enum GateDecision {
    /// The call runs.
    Proceed,
    /// The call fails with this message.
    Refused(String),
    /// The run suspends, asking for approval of this call at this index.
    AskApproval { index: u64, op: String, summary: String },
}

/// The operation an index was approved for: its last binding, as a map
/// filled from the bindings in order keeps it.
pub open spec fn binding_of(bs: Seq<(u64, String)>, index: u64) -> Option<Seq<char>>
    decreases bs.len(),
{
    if bs.len() == 0 {
        None
    } else if bs.last().0 == index {
        Some(bs.last().1@)
    } else {
        binding_of(bs.drop_last(), index)
    }
}

/// The refusal of the denied index.
pub open spec fn msg_denied(op: Seq<char>) -> Seq<char> {
    "approval: "@ + op + " denied"@
}

/// The refusal of an approved index whose operation changed.
pub open spec fn msg_changed(index: u64, expected: Seq<char>, op: Seq<char>) -> Seq<char> {
    "approval: operation at index "@ + dec(index as nat) + " changed since approval (approved '"@
        + expected + "', got '"@ + op + "')"@
}

/// The refusal of an approved index with no operation bound to it.
pub open spec fn msg_unbound(index: u64, op: Seq<char>) -> Seq<char> {
    "approval: no operation binding for approved index "@ + dec(index as nat) + " ('"@ + op
        + "') — refusing"@
}

/// A decision as plain values.
pub enum DecisionModel {
    Proceed,
    Refused(Seq<char>),
    AskApproval(u64, Seq<char>, Seq<char>),
}

/// A decision as plain values.
pub open spec fn decision_view(d: GateDecision) -> DecisionModel {
    match d {
        GateDecision::Proceed => DecisionModel::Proceed,
        GateDecision::Refused(m) => DecisionModel::Refused(m@),
        GateDecision::AskApproval { index, op, summary } => DecisionModel::AskApproval(index, op@, summary@),
    }
}

/// The decision for the call of `op` that takes `index`.
pub open spec fn decide_spec(
    approved: Seq<u64>,
    denied: Option<u64>,
    bindings: Seq<(u64, String)>,
    index: u64,
    op: Seq<char>,
    summary: Seq<char>,
) -> DecisionModel {
    if denied == Some(index) {
        DecisionModel::Refused(msg_denied(op))
    } else if approved.contains(index) {
        match binding_of(bindings, index) {
            Some(expected) => if expected == op {
                DecisionModel::Proceed
            } else {
                DecisionModel::Refused(msg_changed(index, expected, op))
            },
            None => DecisionModel::Refused(msg_unbound(index, op)),
        }
    } else {
        DecisionModel::AskApproval(index, op, summary)
    }
}

/// The index after `i`, wrapping as an atomic counter does.
pub open spec fn next_index(i: u64) -> u64 {
    if i == u64::MAX {
        0
    } else {
        (i + 1) as u64
    }
}

fn find_binding(bs: &Vec<(u64, String)>, index: u64) -> (r: Option<String>)
    ensures
        match (r, binding_of(bs@, index)) {
            (Some(a), Some(b)) => a@ == b,
            (None, None) => true,
            _ => false,
        },
{
    let mut i: usize = bs.len();
    assert(bs@.take(i as int) =~= bs@);
    while i > 0
        invariant
            i <= bs@.len(),
            binding_of(bs@, index) == binding_of(bs@.take(i as int), index),
        decreases i,
    {
        let k = i - 1;
        assert(bs@.take(i as int).drop_last() =~= bs@.take(k as int));
        assert(bs@.take(i as int).last() == bs@[k as int]);
        if bs[k].0 == index {
            return Some(string_from(bs[k].1.as_str()));
        }
        i = k;
    }
    None
}

impl GateState {
    /// The approval state at the start of a run.
    pub fn new(approved: Vec<u64>, denied: Option<u64>, bindings: Vec<(u64, String)>) -> (g: GateState)
        ensures
            g.counter == 0,
            g.approved@ == approved@,
            g.denied == denied,
            g.bindings@ == bindings@,
    {
        GateState { counter: 0, approved, denied, bindings }
    }

    /// Decides one gated call of `op`, whose first string argument reads
    /// `summary` once cut down: the call takes the next index.
    pub fn decide(&mut self, op: &str, summary: &str) -> (d: GateDecision)
        ensures
            final(self).counter == next_index(old(self).counter),
            final(self).approved@ == old(self).approved@,
            final(self).denied == old(self).denied,
            final(self).bindings@ == old(self).bindings@,
            decision_view(d) == decide_spec(
                old(self).approved@,
                old(self).denied,
                old(self).bindings@,
                old(self).counter,
                op@,
                summary@,
            ),
    {
        let index = self.counter;
        self.counter = if index == u64::MAX { 0 } else { index + 1 };
        if self.denied == Some(index) {
            let mut m = chars_of("approval: ");
            push_str(&mut m, op);
            push_str(&mut m, " denied");
            return GateDecision::Refused(string_of(&m));
        }
        let mut is_approved = false;
        let mut i: usize = 0;
        while i < self.approved.len()
            invariant
                i <= self.approved@.len(),
                is_approved == exists|k: int| 0 <= k < i && self.approved@[k] == index,
            decreases self.approved@.len() - i,
        {
            if self.approved[i] == index {
                is_approved = true;
            }
            i += 1;
        }
        assert(is_approved == self.approved@.contains(index));
        if is_approved {
            match find_binding(&self.bindings, index) {
                Some(expected) => {
                    let e = chars_of(expected.as_str());
                    let o = chars_of(op);
                    if chars_eq(&e, &o) {
                        GateDecision::Proceed
                    } else {
                        let mut m = chars_of("approval: operation at index ");
                        push_chars(&mut m, &dec_chars(index));
                        push_str(&mut m, " changed since approval (approved '");
                        push_chars(&mut m, &e);
                        push_str(&mut m, "', got '");
                        push_chars(&mut m, &o);
                        push_str(&mut m, "')");
                        GateDecision::Refused(string_of(&m))
                    }
                },
                None => {
                    let mut m = chars_of("approval: no operation binding for approved index ");
                    push_chars(&mut m, &dec_chars(index));
                    push_str(&mut m, " ('");
                    push_str(&mut m, op);
                    push_str(&mut m, "') — refusing");
                    GateDecision::Refused(string_of(&m))
                },
            }
        } else {
            GateDecision::AskApproval { index, op: string_from(op), summary: string_from(summary) }
        }
    }
}

/// A call runs under approval only if its index was approved for exactly
/// this operation and is not the denied one; the denied index never runs.
pub proof fn law_only_bound_grants_run(
    approved: Seq<u64>,
    denied: Option<u64>,
    bindings: Seq<(u64, String)>,
    index: u64,
    op: Seq<char>,
    summary: Seq<char>,
)
    ensures
        decide_spec(approved, denied, bindings, index, op, summary) is Proceed ==> (approved.contains(index)
            && denied != Some(index) && binding_of(bindings, index) == Some(op)),
        denied == Some(index) ==> decide_spec(approved, denied, bindings, index, op, summary) is Refused,
        !approved.contains(index) && denied != Some(index) ==> decide_spec(
            approved,
            denied,
            bindings,
            index,
            op,
            summary,
        ) == DecisionModel::AskApproval(index, op, summary),
{
}

/// A write-mode `io.open` never gets past read-only: any mode it lets
/// through holds no `w`, `a` or `+`.
pub proof fn law_readonly_open_is_read_only(mode: Seq<char>)
    ensures
        !open_mode_writes(Some(mode)) ==> forall|i: int| 0 <= i < mode.len() ==> #[trigger] mode[i] != 'w'
            && mode[i] != 'a' && mode[i] != '+',
{
}


/// The functions both gates treat as mutating, inside tables that are
/// otherwise usable.
pub open spec fn gated_functions() -> Seq<Seq<char>> {
    seq![
        "http.post"@,
        "http.put"@,
        "http.patch"@,
        "http.delete"@,
        "http.serve"@,
        "http.serve_with_extra"@,
        "http.download"@,
        "ws.connect"@,
        "fs.write"@,
        "fs.write_bytes"@,
        "fs.remove"@,
        "fs.rename"@,
        "fs.copy"@,
        "fs.chmod"@,
        "fs.mkdir"@,
        "fs.tempdir"@,
        "fs.sub_in_file"@,
        "env.set"@,
        "db.execute"@,
        "oci.copy"@,
        "oci.tag"@,
        "oci.mutate"@,
        "systemd.start"@,
        "systemd.stop"@,
        "systemd.restart"@,
        "systemd.reload"@,
        "systemd.unit_action"@,
        "systemd.machine_start"@,
        "systemd.machine_poweroff"@,
        "systemd.machine_reboot"@,
        "systemd.machine_terminate"@,
        "systemd.machine_exec"@,
        "apt.update"@,
        "apt.install"@,
        "apt.remove"@,
        "apt.add_source"@,
        "compress.untar"@,
        "tar.create"@
    ]
}

/// What read-only blocks besides: extracting archives and `io.popen`.
pub open spec fn readonly_extra() -> Seq<Seq<char>> {
    seq!["tar.extract"@, "io.popen"@]
}

/// The tables whose every function is mutating.
pub open spec fn gated_tables() -> Seq<Seq<char>> {
    seq!["shell"@, "process"@, "machinectl"@]
}

/// The functions a gate wraps one by one: the shared catalog, and for
/// read-only the extra two.
pub fn blocked_functions(readonly: bool) -> (r: Vec<String>)
    ensures
        views(r@) == (if readonly { gated_functions() + readonly_extra() } else { gated_functions() }),
{
    let mut v: Vec<String> = Vec::new();
    v.push(string_from("http.post"));
    v.push(string_from("http.put"));
    v.push(string_from("http.patch"));
    v.push(string_from("http.delete"));
    v.push(string_from("http.serve"));
    v.push(string_from("http.serve_with_extra"));
    v.push(string_from("http.download"));
    v.push(string_from("ws.connect"));
    v.push(string_from("fs.write"));
    v.push(string_from("fs.write_bytes"));
    v.push(string_from("fs.remove"));
    v.push(string_from("fs.rename"));
    v.push(string_from("fs.copy"));
    v.push(string_from("fs.chmod"));
    v.push(string_from("fs.mkdir"));
    v.push(string_from("fs.tempdir"));
    v.push(string_from("fs.sub_in_file"));
    v.push(string_from("env.set"));
    v.push(string_from("db.execute"));
    v.push(string_from("oci.copy"));
    v.push(string_from("oci.tag"));
    v.push(string_from("oci.mutate"));
    v.push(string_from("systemd.start"));
    v.push(string_from("systemd.stop"));
    v.push(string_from("systemd.restart"));
    v.push(string_from("systemd.reload"));
    v.push(string_from("systemd.unit_action"));
    v.push(string_from("systemd.machine_start"));
    v.push(string_from("systemd.machine_poweroff"));
    v.push(string_from("systemd.machine_reboot"));
    v.push(string_from("systemd.machine_terminate"));
    v.push(string_from("systemd.machine_exec"));
    v.push(string_from("apt.update"));
    v.push(string_from("apt.install"));
    v.push(string_from("apt.remove"));
    v.push(string_from("apt.add_source"));
    v.push(string_from("compress.untar"));
    v.push(string_from("tar.create"));
    let ghost shared = views(v@);
    assert(shared =~= gated_functions());
    if readonly {
        v.push(string_from("tar.extract"));
        v.push(string_from("io.popen"));
        assert(views(v@) =~= gated_functions() + readonly_extra());
    }
    v
}

/// The tables a gate wraps whole.
pub fn blocked_tables() -> (r: Vec<String>)
    ensures
        views(r@) == gated_tables(),
{
    let v = vec![string_from("shell"), string_from("process"), string_from("machinectl")];
    assert(views(v@) =~= gated_tables());
    v
}

/// The table and the function a dotted catalog entry names: the text
/// before the first `.` and the text after it.
pub fn split_path(path: &str) -> (r: Option<(String, String)>)
    ensures
        match (r, crate::text::split_once_at(path@, '.')) {
            (Some((a, b)), (x, Some(y))) => a@ == x && b@ == y,
            (None, (_, None)) => true,
            _ => false,
        },
{
    let c = chars_of(path);
    let (a, b) = crate::text::split_once_char(&c, '.');
    match b {
        Some(rest) => Some((string_of(&a), string_of(&rest))),
        None => None,
    }
}


/// Whether texts come in strictly increasing order, so none occurs twice.
pub open spec fn strictly_sorted(s: Seq<Seq<char>>) -> bool {
    forall|i: int, j: int| 0 <= i < j < s.len() ==> text_lt(#[trigger] s[i], #[trigger] s[j])
}

proof fn lemma_push_contains(s: Seq<Seq<char>>, v: Seq<char>, x: Seq<char>)
    ensures
        s.push(v).contains(x) <==> (s.contains(x) || x == v),
{
    if s.push(v).contains(x) {
        let k = choose|k: int| 0 <= k < s.push(v).len() && s.push(v)[k] == x;
        if k < s.len() {
            assert(s[k] == x);
        }
    }
    if s.contains(x) {
        let k = choose|k: int| 0 <= k < s.len() && s[k] == x;
        assert(s.push(v)[k] == x);
    }
    if x == v {
        assert(s.push(v)[s.len() as int] == x);
    }
}

/// The header names an approval request shows: each name once, in order.
/// The values are left out, since a header value is where a bearer token
/// lives.
pub fn header_names(names: Vec<String>) -> (r: Vec<String>)
    ensures
        strictly_sorted(views(r@)),
        forall|x: Seq<char>| views(r@).contains(x) <==> views(names@).contains(x),
{
    let mut out: Vec<String> = Vec::new();
    let mut i: usize = 0;
    while i < names.len()
        invariant
            i <= names@.len(),
            strictly_sorted(views(out@)),
            forall|x: Seq<char>| views(out@).contains(x) <==> views(names@.take(i as int)).contains(x),
        decreases names@.len() - i,
    {
        let n = chars_of(names[i].as_str());
        let ghost nv = n@;
        let ghost ov = views(out@);
        let mut p: usize = 0;
        while p < out.len() && text_lt_exec(&chars_of(out[p].as_str()), &n)
            invariant
                p <= out@.len(),
                ov == views(out@),
                n@ == nv,
                forall|k: int| 0 <= k < p ==> text_lt(#[trigger] ov[k], nv),
            decreases out@.len() - p,
        {
            p += 1;
        }
        assert(views(names@.take(i + 1)) =~= views(names@.take(i as int)).push(nv));
        let dup = p < out.len() && chars_eq(&chars_of(out[p].as_str()), &n);
        if !dup {
            proof {
                if p < ov.len() {
                    lemma_text_lt_total(ov[p as int], nv);
                    assert(text_lt(nv, ov[p as int]));
                }
                assert forall|k: int| p < k < ov.len() implies text_lt(nv, #[trigger] ov[k]) by {
                    lemma_text_lt_total(ov[p as int], nv);
                    lemma_text_lt_transitive(nv, ov[p as int], ov[k]);
                }
            }
            out.insert(p, string_of(&n));
            proof {
                let nw = views(out@);
                assert(nw =~= ov.insert(p as int, nv));
                assert forall|a: int, b: int| 0 <= a < b < nw.len() implies text_lt(#[trigger] nw[a], #[trigger] nw[b]) by {
                    if a < p && b < p {
                        assert(nw[a] == ov[a] && nw[b] == ov[b]);
                    } else if a < p && b == p {
                        assert(nw[a] == ov[a]);
                    } else if a < p && b > p {
                        assert(nw[a] == ov[a] && nw[b] == ov[b - 1]);
                        lemma_text_lt_transitive(ov[a], nv, ov[b - 1]);
                    } else if a == p {
                        assert(nw[b] == ov[b - 1]);
                    } else {
                        assert(nw[a] == ov[a - 1] && nw[b] == ov[b - 1]);
                    }
                }
                assert forall|x: Seq<char>| nw.contains(x) <==> views(names@.take(i + 1)).contains(x) by {
                    lemma_push_contains(views(names@.take(i as int)), nv, x);
                    if nw.contains(x) {
                        let k = choose|k: int| 0 <= k < nw.len() && nw[k] == x;
                        if k < p {
                            assert(ov[k] == x);
                        } else if k > p {
                            assert(ov[k - 1] == x);
                        }
                    }
                    if ov.contains(x) {
                        let k = choose|k: int| 0 <= k < ov.len() && ov[k] == x;
                        if k < p {
                            assert(nw[k] == x);
                        } else {
                            assert(nw[k + 1] == x);
                        }
                    }
                    if x == nv {
                        assert(nw[p as int] == x);
                    }
                }
            }
        } else {
            proof {
                assert(ov[p as int] == nv);
                assert forall|x: Seq<char>| ov.contains(x) <==> views(names@.take(i + 1)).contains(x) by {
                    lemma_push_contains(views(names@.take(i as int)), nv, x);
                    if x == nv {
                        assert(ov.contains(x));
                    }
                }
            }
        }
        i += 1;
    }
    assert(names@.take(i as int) =~= names@);
    out
}

/// The text in front of an approval request in the error a gated call
/// raises, by which the run's caller tells a request from a failure.
pub const APPROVAL_REQUEST_PREFIX: &'static str = "__assay_approval_request__:";

/// What an approval request asks: the prompt shown to whoever decides, the
/// operation, what it acts on, and the index of the call in the run. The
/// request goes out as `APPROVAL_REQUEST_PREFIX` followed by these four as
/// a JSON object (`prompt`, `op`, `summary`, `index`).
#[derive(Debug, Clone, PartialEq, Eq)]
pub struct ApprovalRequest {
    pub prompt: String,
    pub op: String,
    pub summary: String,
    pub index: u64,
}

/// The prompt of an approval request: `Approve <op>?`.
pub open spec fn prompt_spec(op: Seq<char>) -> Seq<char> {
    "Approve "@ + op + "?"@
}

/// The request that an `AskApproval` decision makes; `None` for the
/// other decisions.
pub fn approval_request(d: &GateDecision) -> (r: Option<ApprovalRequest>)
    ensures
        match d {
            GateDecision::AskApproval { index, op, summary } => r matches Some(q) && q.prompt@ == prompt_spec(op@)
                && q.op@ == op@ && q.summary@ == summary@ && q.index == *index,
            _ => r is None,
        },
{
    match d {
        GateDecision::AskApproval { index, op, summary } => {
            let mut p = chars_of("Approve ");
            push_str(&mut p, op.as_str());
            push_str(&mut p, "?");
            proof {
                assert(p@ =~= prompt_spec(op@));
            }
            Some(
                ApprovalRequest {
                    prompt: string_of(&p),
                    op: string_from(op.as_str()),
                    summary: string_from(summary.as_str()),
                    index: *index,
                },
            )
        },
        _ => None,
    }
}

} // verus!
