//! The envelope dialogue of a recipient probe: greeting, EHLO (or HELO),
//! MAIL FROM, an optional RCPT TO for an address nobody owns, RCPT TO for
//! the target, QUIT.
//!
//! The dialogue is a machine from state and reply to next state and
//! action; the caller performs each action on the connection and hands the
//! reply back. DATA is never among its commands, so a probe can never
//! deliver anything.

use vstd::prelude::*;
use crate::text::{string_from, chars_of, string_of, push_chars, push_str, dec, dec_chars, has_prefix, views};
use crate::smtp::{
    Reply, positive_code, reason_spec, greylist_reason, detail_spec, truncate, is_greylist,
};

verus! {

/// The outcome of a probe, as plain values.
pub struct ProbeModel {
    pub host_exists: bool,
    pub mx_host: Option<Seq<char>>,
    pub catch_all: bool,
    pub deliverable: bool,
    pub full_inbox: bool,
    pub disabled: bool,
    pub blocked: bool,
    pub greylisted: bool,
    pub code: Option<u16>,
    pub reason: Seq<char>,
    pub detail: Seq<char>,
    pub stage: Seq<char>,
}

/// The outcome of a probe: what was learned, the last code seen, why it
/// stopped and at which stage.
#[derive(Debug, Clone, PartialEq, Eq)]
pub struct Probe {
    pub host_exists: bool,
    pub mx_host: Option<String>,
    pub catch_all: bool,
    pub deliverable: bool,
    pub full_inbox: bool,
    pub disabled: bool,
    pub blocked: bool,
    pub greylisted: bool,
    pub code: Option<u16>,
    pub reason: String,
    pub detail: String,
    pub stage: String,
}

/// A text that may be absent, as plain characters.
pub open spec fn opt_view(o: Option<String>) -> Option<Seq<char>> {
    match o {
        Some(s) => Some(s@),
        None => None,
    }
}

impl View for Probe {
    type V = ProbeModel;

    open spec fn view(&self) -> ProbeModel {
        ProbeModel {
            host_exists: self.host_exists,
            mx_host: opt_view(self.mx_host),
            catch_all: self.catch_all,
            deliverable: self.deliverable,
            full_inbox: self.full_inbox,
            disabled: self.disabled,
            blocked: self.blocked,
            greylisted: self.greylisted,
            code: self.code,
            reason: self.reason@,
            detail: self.detail@,
            stage: self.stage@,
        }
    }
}

/// A probe that has learned nothing yet.
pub open spec fn blank_probe() -> ProbeModel {
    ProbeModel {
        host_exists: false,
        mx_host: None,
        catch_all: false,
        deliverable: false,
        full_inbox: false,
        disabled: false,
        blocked: false,
        greylisted: false,
        code: None,
        reason: Seq::empty(),
        detail: Seq::empty(),
        stage: Seq::empty(),
    }
}

impl Default for Probe {
    fn default() -> (p: Self)
        ensures
            p@ == blank_probe(),
    {
        Probe {
            host_exists: false,
            mx_host: None,
            catch_all: false,
            deliverable: false,
            full_inbox: false,
            disabled: false,
            blocked: false,
            greylisted: false,
            code: None,
            reason: String::new(),
            detail: String::new(),
            stage: String::new(),
        }
    }
}

/// The probe, stopped at `stage` for `reason`.
pub open spec fn stopped_spec(
    p: ProbeModel,
    stage: Seq<char>,
    reason: Seq<char>,
    detail: Seq<char>,
) -> ProbeModel {
    ProbeModel { stage, reason, detail, ..p }
}

/// The probe with the flags that a reason raises: a full inbox, a disabled
/// mailbox, a block. A flag once raised stays raised.
pub open spec fn note_flags_spec(p: ProbeModel, reason: Seq<char>) -> ProbeModel {
    ProbeModel {
        full_inbox: p.full_inbox || reason == "full_inbox"@,
        disabled: p.disabled || reason == "not_allowed"@,
        blocked: p.blocked || reason == "blocked"@,
        ..p
    }
}

/// The probe stopped by a refusal at `stage`.
pub open spec fn rejected_at_spec(p: ProbeModel, stage: Seq<char>, code: u16, text: Seq<char>) -> ProbeModel {
    let reason = reason_spec(code, text);
    stopped_spec(
        note_flags_spec(ProbeModel { code: Some(code), ..p }, reason),
        stage,
        reason,
        detail_spec(text),
    )
}

fn copy_text(o: &Option<String>) -> (r: Option<String>)
    ensures
        opt_view(r) == opt_view(*o),
{
    match o {
        Some(s) => Some(string_from(s.as_str())),
        None => None,
    }
}

/// A copy of a probe, field by field.
fn copy_probe(p: &Probe) -> (r: Probe)
    ensures
        r@ == p@,
{
    Probe {
        host_exists: p.host_exists,
        mx_host: copy_text(&p.mx_host),
        catch_all: p.catch_all,
        deliverable: p.deliverable,
        full_inbox: p.full_inbox,
        disabled: p.disabled,
        blocked: p.blocked,
        greylisted: p.greylisted,
        code: p.code,
        reason: string_from(p.reason.as_str()),
        detail: string_from(p.detail.as_str()),
        stage: string_from(p.stage.as_str()),
    }
}

impl Probe {
    /// The probe, stopped at `stage` for `reason`, with `detail`.
    pub fn stopped(self, stage: &str, reason: &str, detail: String) -> (r: Self)
        ensures
            r@ == stopped_spec(self@, stage@, reason@, detail@),
    {
        let mut p = self;
        p.stage = string_from(stage);
        p.reason = string_from(reason);
        p.detail = detail;
        p
    }

    /// Raises the flags that `reason` calls for.
    pub fn note_flags(&mut self, reason: &str)
        ensures
            final(self)@ == note_flags_spec(old(self)@, reason@),
    {
        let r = chars_of(reason);
        let full = chars_of("full_inbox");
        let not_allowed = chars_of("not_allowed");
        let blocked = chars_of("blocked");
        self.full_inbox = self.full_inbox || crate::text::chars_eq(&r, &full);
        self.disabled = self.disabled || crate::text::chars_eq(&r, &not_allowed);
        self.blocked = self.blocked || crate::text::chars_eq(&r, &blocked);
    }

    /// The probe stopped by a refusal at `stage`: its code, the flags its
    /// reason raises, and its text as the detail.
    pub fn rejected_at(self, stage: &str, reply: &Reply) -> (r: Self)
        ensures
            r@ == rejected_at_spec(self@, stage@, reply.code, reply.text@),
    {
        let mut p = self;
        p.code = Some(reply.code);
        let reason = reply.reason();
        p.note_flags(reason);
        let d = truncate(reply.text.as_str());
        p.stopped(stage, reason, d)
    }
}

/// The outcome when no MX host answered with a greeting.
pub fn unreachable_probe(detail: &str) -> (r: Probe)
    ensures
        r@ == stopped_spec(blank_probe(), "connect"@, "unreachable"@, detail_spec(detail@)),
{
    let d = truncate(detail);
    Probe::default().stopped("connect", "unreachable", d)
}

/// Why a host that answered did not do for a probe: its greeting was not
/// 220.
pub open spec fn greeting_failure_spec(host: Seq<char>, code: u16, text: Seq<char>) -> Seq<char> {
    host + ": greeting "@ + dec(code as nat) + " "@ + text
}

/// Whether a greeting lets the dialogue begin.
pub fn greeting_ready(r: &Reply) -> (b: bool)
    ensures
        b == (r.code == 220),
{
    r.code == 220
}

/// The note kept when a host's greeting was not 220.
pub fn greeting_failure(host: &str, r: &Reply) -> (m: String)
    ensures
        m@ == greeting_failure_spec(host@, r.code, r.text@),
{
    let mut c = chars_of(host);
    push_str(&mut c, ": greeting ");
    let d = dec_chars(r.code as u64);
    push_chars(&mut c, &d);
    push_str(&mut c, " ");
    let t = chars_of(r.text.as_str());
    push_chars(&mut c, &t);
    string_of(&c)
}

/// What a probe is asked to find out, and how.
pub struct Plan {
    /// The address probed.
    pub email: String,
    /// Its domain, lower-cased.
    pub domain: String,
    /// The envelope sender.
    pub from: String,
    /// The name given in EHLO and HELO.
    pub helo: String,
    /// Whether to offer an address nobody owns before the target.
    pub catch_all_check: bool,
    /// How long to wait before asking again after a soft refusal.
    pub greylist_delay_ms: u64,
    /// The random number that names the address nobody owns.
    pub random: u64,
}

/// A plan as plain values.
pub struct PlanModel {
    pub email: Seq<char>,
    pub domain: Seq<char>,
    pub from: Seq<char>,
    pub helo: Seq<char>,
    pub catch_all_check: bool,
    pub greylist_delay_ms: u64,
    pub random: u64,
}

impl View for Plan {
    type V = PlanModel;

    open spec fn view(&self) -> PlanModel {
        PlanModel {
            email: self.email@,
            domain: self.domain@,
            from: self.from@,
            helo: self.helo@,
            catch_all_check: self.catch_all_check,
            greylist_delay_ms: self.greylist_delay_ms,
            random: self.random,
        }
    }
}

/// The lower-case hexadecimal digit of a value below 16.
pub open spec fn hex_digit(d: nat) -> char {
    if d < 10 {
        ((d + 48) as u8) as char
    } else {
        ((d + 87) as u8) as char
    }
}

/// The last `k` hexadecimal digits of `n`, zeros first where it is short,
/// as `{:0k$x}` writes a number below `16^k`.
pub open spec fn hex_fixed(n: nat, k: nat) -> Seq<char>
    decreases k,
{
    if k == 0 {
        Seq::empty()
    } else {
        hex_fixed(n / 16, (k - 1) as nat).push(hex_digit(n % 16))
    }
}

fn hex_fixed_exec(n: u64, k: usize) -> (r: Vec<char>)
    ensures
        r@ == hex_fixed(n as nat, k as nat),
    decreases k,
{
    if k == 0 {
        Vec::new()
    } else {
        let mut v = hex_fixed_exec(n / 16, k - 1);
        let d = (n % 16) as u8;
        let c = if d < 10 {
            (d + 48) as char
        } else {
            (d + 87) as char
        };
        v.push(c);
        v
    }
}

/// The address nobody owns: sixteen hex digits of the random number, then
/// the domain.
pub open spec fn random_address(p: PlanModel) -> Seq<char> {
    hex_fixed(p.random as nat, 16) + "@"@ + p.domain
}

/// `EHLO name`.
pub open spec fn ehlo_cmd(p: PlanModel) -> Seq<char> {
    "EHLO "@ + p.helo
}

/// `HELO name`.
pub open spec fn helo_cmd(p: PlanModel) -> Seq<char> {
    "HELO "@ + p.helo
}

/// `MAIL FROM:<sender>`.
pub open spec fn mail_cmd(p: PlanModel) -> Seq<char> {
    "MAIL FROM:<"@ + p.from + ">"@
}

/// `RCPT TO:<address>`.
pub open spec fn rcpt_cmd(addr: Seq<char>) -> Seq<char> {
    "RCPT TO:<"@ + addr + ">"@
}

/// Where the dialogue stands.
#[derive(Debug, Clone, Copy, PartialEq, Eq)]
pub enum Stage {
    /// EHLO was sent.
    Hello,
    /// EHLO was refused and HELO sent.
    HeloFallback,
    /// MAIL FROM was sent.
    MailFrom,
    /// RCPT TO for the address nobody owns was sent.
    CatchAll,
    /// RCPT TO for the target was sent.
    Target,
    /// RCPT TO for the target was sent again after a soft refusal.
    TargetRetry,
    /// The probe is over.
    Done,
}

/// A dialogue in progress: where it stands, what it has learned, and the
/// first answer for the target while a retry is out.
pub struct Dialogue {
    pub stage: Stage,
    pub probe: Probe,
    pub first: Option<Reply>,
}

/// A dialogue as plain values.
pub struct DialogueModel {
    pub stage: Stage,
    pub probe: ProbeModel,
    pub first: Option<(u16, Seq<char>)>,
}

impl View for Dialogue {
    type V = DialogueModel;

    open spec fn view(&self) -> DialogueModel {
        DialogueModel {
            stage: self.stage,
            probe: self.probe@,
            first: match self.first {
                Some(r) => Some((r.code, r.text@)),
                None => None,
            },
        }
    }
}

/// What came back for the last command.
pub enum Event {
    /// A complete reply.
    Replied(Reply),
    /// The connection failed, timed out or closed, with what was said of it.
    Broken(String),
}

/// An event as plain values.
pub enum EventModel {
    Replied(u16, Seq<char>),
    Broken(Seq<char>),
}

impl View for Event {
    type V = EventModel;

    open spec fn view(&self) -> EventModel {
        match self {
            Event::Replied(r) => EventModel::Replied(r.code, r.text@),
            Event::Broken(m) => EventModel::Broken(m@),
        }
    }
}

/// What the caller does next.
pub enum Action {
    /// Send this command line and hand back what comes of it.
    Send(String),
    /// Wait this many milliseconds, then send this command line.
    SendAfter(u64, String),
    /// The probe is over; send nothing more.
    Finish(Probe),
    /// The probe is over; say QUIT (whatever comes of it) and stop.
    QuitAndFinish(Probe),
}

/// An action as plain values.
pub enum ActionModel {
    Send(Seq<char>),
    SendAfter(u64, Seq<char>),
    Finish(ProbeModel),
    QuitAndFinish(ProbeModel),
}

impl View for Action {
    type V = ActionModel;

    open spec fn view(&self) -> ActionModel {
        match self {
            Action::Send(l) => ActionModel::Send(l@),
            Action::SendAfter(ms, l) => ActionModel::SendAfter(*ms, l@),
            Action::Finish(p) => ActionModel::Finish(p@),
            Action::QuitAndFinish(p) => ActionModel::QuitAndFinish(p@),
        }
    }
}

/// The first state and action once `host` has greeted with 220: the host
/// exists whatever it says next.
pub open spec fn begin_spec(p: PlanModel, host: Seq<char>) -> (DialogueModel, ActionModel) {
    (
        DialogueModel {
            stage: Stage::Hello,
            probe: ProbeModel { host_exists: true, mx_host: Some(host), ..blank_probe() },
            first: None,
        },
        ActionModel::Send(ehlo_cmd(p)),
    )
}

/// The outcome of the target's final answer.
pub open spec fn target_outcome(p: ProbeModel, code: u16, text: Seq<char>) -> ProbeModel {
    let reason = reason_spec(code, text);
    let q = ProbeModel {
        code: Some(code),
        deliverable: positive_code(code),
        greylisted: greylist_reason(reason),
        ..p
    };
    stopped_spec(note_flags_spec(q, reason), "rcpt_target"@, reason, detail_spec(text))
}

/// The dialogue stopped by a broken connection at `stage`.
pub open spec fn broken_at(d: DialogueModel, stage: Seq<char>, m: Seq<char>) -> (
    DialogueModel,
    ActionModel,
) {
    let q = stopped_spec(d.probe, stage, "io_error"@, detail_spec(m));
    (DialogueModel { stage: Stage::Done, probe: q, ..d }, ActionModel::Finish(q))
}

/// After MAIL FROM was accepted: the address nobody owns first, if asked
/// for, else the target.
pub open spec fn after_mail(p: PlanModel, d: DialogueModel) -> (DialogueModel, ActionModel) {
    if p.catch_all_check {
        (DialogueModel { stage: Stage::CatchAll, ..d }, ActionModel::Send(rcpt_cmd(random_address(p))))
    } else {
        (DialogueModel { stage: Stage::Target, ..d }, ActionModel::Send(rcpt_cmd(p.email)))
    }
}

/// The dialogue ended by the target's final answer: QUIT, then the outcome.
pub open spec fn finish_target(d: DialogueModel, code: u16, text: Seq<char>) -> (DialogueModel, ActionModel) {
    let q = target_outcome(d.probe, code, text);
    (DialogueModel { stage: Stage::Done, probe: q, first: None }, ActionModel::QuitAndFinish(q))
}

/// One step of the dialogue: the next state and action, given what came
/// back for the last command.
pub open spec fn step_spec(p: PlanModel, d: DialogueModel, e: EventModel) -> (DialogueModel, ActionModel) {
    match d.stage {
        Stage::Hello => match e {
            EventModel::Broken(m) => broken_at(d, "ehlo"@, m),
            EventModel::Replied(code, _) => if positive_code(code) {
                (DialogueModel { stage: Stage::MailFrom, ..d }, ActionModel::Send(mail_cmd(p)))
            } else {
                (DialogueModel { stage: Stage::HeloFallback, ..d }, ActionModel::Send(helo_cmd(p)))
            },
        },
        Stage::HeloFallback => match e {
            EventModel::Broken(m) => broken_at(d, "ehlo"@, m),
            EventModel::Replied(code, text) => if positive_code(code) {
                (DialogueModel { stage: Stage::MailFrom, ..d }, ActionModel::Send(mail_cmd(p)))
            } else {
                let q = rejected_at_spec(d.probe, "ehlo"@, code, text);
                (DialogueModel { stage: Stage::Done, probe: q, ..d }, ActionModel::Finish(q))
            },
        },
        Stage::MailFrom => match e {
            EventModel::Broken(m) => broken_at(d, "mail_from"@, m),
            EventModel::Replied(code, text) => if positive_code(code) {
                after_mail(p, d)
            } else {
                let q = rejected_at_spec(d.probe, "mail_from"@, code, text);
                (DialogueModel { stage: Stage::Done, probe: q, ..d }, ActionModel::Finish(q))
            },
        },
        Stage::CatchAll => match e {
            EventModel::Broken(m) => broken_at(d, "rcpt_random"@, m),
            EventModel::Replied(code, text) => {
                let with_code = ProbeModel { code: Some(code), ..d.probe };
                if positive_code(code) {
                    let q = stopped_spec(
                        ProbeModel { catch_all: true, ..with_code },
                        "rcpt_random"@,
                        "catch_all"@,
                        detail_spec(text),
                    );
                    (DialogueModel { stage: Stage::Done, probe: q, ..d }, ActionModel::QuitAndFinish(q))
                } else {
                    let flagged = note_flags_spec(with_code, reason_spec(code, text));
                    let q = ProbeModel { detail: detail_spec(text), ..flagged };
                    (
                        DialogueModel { stage: Stage::Target, probe: q, ..d },
                        ActionModel::Send(rcpt_cmd(p.email)),
                    )
                }
            },
        },
        Stage::Target => match e {
            EventModel::Broken(m) => broken_at(d, "rcpt_target"@, m),
            EventModel::Replied(code, text) => if !greylist_reason(reason_spec(code, text))
                || p.greylist_delay_ms == 0 {
                finish_target(d, code, text)
            } else {
                (
                    DialogueModel { stage: Stage::TargetRetry, first: Some((code, text)), ..d },
                    ActionModel::SendAfter(p.greylist_delay_ms, rcpt_cmd(p.email)),
                )
            },
        },
        Stage::TargetRetry => match e {
            EventModel::Broken(_) => match d.first {
                Some((code, text)) => finish_target(d, code, text),
                None => (DialogueModel { stage: Stage::Done, ..d }, ActionModel::Finish(d.probe)),
            },
            EventModel::Replied(code, text) => finish_target(d, code, text),
        },
        Stage::Done => (d, ActionModel::Finish(d.probe)),
    }
}

fn ehlo_line(plan: &Plan, verb: &str) -> (r: String)
    ensures
        r@ == verb@ + plan.helo@,
{
    let mut c = chars_of(verb);
    let h = chars_of(plan.helo.as_str());
    push_chars(&mut c, &h);
    string_of(&c)
}

fn mail_line(plan: &Plan) -> (r: String)
    ensures
        r@ == mail_cmd(plan@),
{
    let mut c = chars_of("MAIL FROM:<");
    let f = chars_of(plan.from.as_str());
    push_chars(&mut c, &f);
    push_str(&mut c, ">");
    string_of(&c)
}

fn rcpt_line(addr: &[char]) -> (r: String)
    ensures
        r@ == rcpt_cmd(addr@),
{
    let mut c = chars_of("RCPT TO:<");
    push_chars(&mut c, addr);
    push_str(&mut c, ">");
    string_of(&c)
}

fn random_line(plan: &Plan) -> (r: String)
    ensures
        r@ == rcpt_cmd(random_address(plan@)),
{
    let mut a = hex_fixed_exec(plan.random, 16);
    push_str(&mut a, "@");
    let d = chars_of(plan.domain.as_str());
    push_chars(&mut a, &d);
    rcpt_line(&a)
}

fn target_line(plan: &Plan) -> (r: String)
    ensures
        r@ == rcpt_cmd(plan@.email),
{
    let e = chars_of(plan.email.as_str());
    rcpt_line(&e)
}

/// Starts the dialogue with a host that greeted with 220.
pub fn begin(plan: &Plan, host: String) -> (r: (Dialogue, Action))
    ensures
        r.0@ == begin_spec(plan@, host@).0,
        r.1@ == begin_spec(plan@, host@).1,
{
    let mut probe = Probe::default();
    probe.host_exists = true;
    probe.mx_host = Some(host);
    (Dialogue { stage: Stage::Hello, probe, first: None }, Action::Send(ehlo_line(plan, "EHLO ")))
}

fn finish_with(d: Dialogue, code: u16, text: &String) -> (r: (Dialogue, Action))
    ensures
        r.0@ == finish_target(d@, code, text@).0,
        r.1@ == finish_target(d@, code, text@).1,
{
    let reply = Reply { code, text: string_from(text.as_str()) };
    let reason = reply.reason();
    let mut q = d.probe;
    q.code = Some(code);
    q.deliverable = reply.positive();
    q.greylisted = is_greylist(reason);
    q.note_flags(reason);
    let detail = truncate(text.as_str());
    let q = q.stopped("rcpt_target", reason, detail);
    let q2 = copy_probe(&q);
    (Dialogue { stage: Stage::Done, probe: q, first: None }, Action::QuitAndFinish(q2))
}


fn broken(d: Dialogue, stage: &str, m: &String) -> (r: (Dialogue, Action))
    ensures
        r.0@ == broken_at(d@, stage@, m@).0,
        r.1@ == broken_at(d@, stage@, m@).1,
{
    let detail = truncate(m.as_str());
    let q = d.probe.stopped(stage, "io_error", detail);
    let q2 = copy_probe(&q);
    (Dialogue { stage: Stage::Done, probe: q, first: d.first }, Action::Finish(q2))
}

fn refused(d: Dialogue, stage: &str, r: &Reply) -> (out: (Dialogue, Action))
    ensures
        out.0@ == (DialogueModel { stage: Stage::Done, probe: rejected_at_spec(d@.probe, stage@, r.code, r.text@), ..d@ }),
        out.1@ == ActionModel::Finish(rejected_at_spec(d@.probe, stage@, r.code, r.text@)),
{
    let q = d.probe.rejected_at(stage, r);
    let q2 = copy_probe(&q);
    (Dialogue { stage: Stage::Done, probe: q, first: d.first }, Action::Finish(q2))
}

/// One step of the dialogue: from where it stands and what came back for
/// the last command, the next state and what to do.
pub fn step(plan: &Plan, d: Dialogue, e: Event) -> (r: (Dialogue, Action))
    ensures
        r.0@ == step_spec(plan@, d@, e@).0,
        r.1@ == step_spec(plan@, d@, e@).1,
{
    match d.stage {
        Stage::Hello => match e {
            Event::Broken(m) => broken(d, "ehlo", &m),
            Event::Replied(r) => if r.positive() {
                (Dialogue { stage: Stage::MailFrom, ..d }, Action::Send(mail_line(plan)))
            } else {
                (Dialogue { stage: Stage::HeloFallback, ..d }, Action::Send(ehlo_line(plan, "HELO ")))
            },
        },
        Stage::HeloFallback => match e {
            Event::Broken(m) => broken(d, "ehlo", &m),
            Event::Replied(r) => if r.positive() {
                (Dialogue { stage: Stage::MailFrom, ..d }, Action::Send(mail_line(plan)))
            } else {
                refused(d, "ehlo", &r)
            },
        },
        Stage::MailFrom => match e {
            Event::Broken(m) => broken(d, "mail_from", &m),
            Event::Replied(r) => if r.positive() {
                if plan.catch_all_check {
                    (Dialogue { stage: Stage::CatchAll, ..d }, Action::Send(random_line(plan)))
                } else {
                    (Dialogue { stage: Stage::Target, ..d }, Action::Send(target_line(plan)))
                }
            } else {
                refused(d, "mail_from", &r)
            },
        },
        Stage::CatchAll => match e {
            Event::Broken(m) => broken(d, "rcpt_random", &m),
            Event::Replied(r) => {
                let mut q = d.probe;
                q.code = Some(r.code);
                if r.positive() {
                    q.catch_all = true;
                    let detail = truncate(r.text.as_str());
                    let q = q.stopped("rcpt_random", "catch_all", detail);
                    let q2 = copy_probe(&q);
                    (Dialogue { stage: Stage::Done, probe: q, first: d.first }, Action::QuitAndFinish(q2))
                } else {
                    q.note_flags(r.reason());
                    q.detail = truncate(r.text.as_str());
                    (Dialogue { stage: Stage::Target, probe: q, first: d.first }, Action::Send(target_line(plan)))
                }
            },
        },
        Stage::Target => match e {
            Event::Broken(m) => broken(d, "rcpt_target", &m),
            Event::Replied(r) => {
                if !is_greylist(r.reason()) || plan.greylist_delay_ms == 0 {
                    finish_with(d, r.code, &r.text)
                } else {
                    let line = target_line(plan);
                    (
                        Dialogue { stage: Stage::TargetRetry, probe: d.probe, first: Some(r) },
                        Action::SendAfter(plan.greylist_delay_ms, line),
                    )
                }
            },
        },
        Stage::TargetRetry => match e {
            Event::Broken(_) => {
                let Dialogue { stage, probe, first } = d;
                match first {
                    Some(f) => finish_with(Dialogue { stage, probe, first: None }, f.code, &f.text),
                    None => {
                        let q2 = copy_probe(&probe);
                        (Dialogue { stage: Stage::Done, probe, first: None }, Action::Finish(q2))
                    },
                }
            },
            Event::Replied(r) => finish_with(d, r.code, &r.text),
        },
        Stage::Done => {
            let q2 = copy_probe(&d.probe);
            (d, Action::Finish(q2))
        },
    }
}


/// The line an action sends, if it sends one.
pub open spec fn sent_line(a: ActionModel) -> Option<Seq<char>> {
    match a {
        ActionModel::Send(l) => Some(l),
        ActionModel::SendAfter(_, l) => Some(l),
        _ => None,
    }
}

/// The outcome an action ends the probe with, if it ends it.
pub open spec fn final_probe(a: ActionModel) -> Option<ProbeModel> {
    match a {
        ActionModel::Finish(q) => Some(q),
        ActionModel::QuitAndFinish(q) => Some(q),
        _ => None,
    }
}

/// An envelope command: EHLO, HELO, MAIL FROM or RCPT TO.
pub open spec fn envelope_command(l: Seq<char>) -> bool {
    ||| has_prefix(l, "EHLO "@)
    ||| has_prefix(l, "HELO "@)
    ||| has_prefix(l, "MAIL FROM:<"@)
    ||| has_prefix(l, "RCPT TO:<"@)
}

proof fn lemma_envelope_is_not_data(l: Seq<char>)
    requires
        envelope_command(l),
    ensures
        l != "DATA"@,
{
    reveal_strlit("DATA");
    reveal_strlit("EHLO ");
    reveal_strlit("HELO ");
    reveal_strlit("MAIL FROM:<");
    reveal_strlit("RCPT TO:<");
    if l == "DATA"@ {
        assert(l[0] == 'D');
    }
}

/// Every line the dialogue sends, from its first to its last, is an
/// envelope command; none is DATA, so a probe never delivers anything.
pub proof fn law_no_data_is_ever_sent(p: PlanModel, host: Seq<char>, d: DialogueModel, e: EventModel)
    ensures
        sent_line(begin_spec(p, host).1) matches Some(l) ==> envelope_command(l) && l != "DATA"@,
        sent_line(step_spec(p, d, e).1) matches Some(l) ==> envelope_command(l) && l != "DATA"@,
{
    reveal_strlit("EHLO ");
    reveal_strlit("HELO ");
    reveal_strlit("MAIL FROM:<");
    reveal_strlit("RCPT TO:<");
    let a0 = begin_spec(p, host).1;
    if let Some(l) = sent_line(a0) {
        assert(l.take(5) =~= "EHLO "@);
        lemma_envelope_is_not_data(l);
    }
    let a = step_spec(p, d, e).1;
    if let Some(l) = sent_line(a) {
        assert(envelope_command(l)) by {
            if l == mail_cmd(p) {
                assert(l.take(11) =~= "MAIL FROM:<"@);
            } else if l == helo_cmd(p) {
                assert(l.take(5) =~= "HELO "@);
            } else if l == rcpt_cmd(p.email) {
                assert(l.take(9) =~= "RCPT TO:<"@);
            } else if l == rcpt_cmd(random_address(p)) {
                assert(l.take(9) =~= "RCPT TO:<"@);
            }
        }
        lemma_envelope_is_not_data(l);
    }
}

/// Once a host has greeted, the probe says it exists at every later step
/// and in every outcome, whatever the host answers next.
pub proof fn law_greeted_host_stays_known(p: PlanModel, d: DialogueModel, e: EventModel)
    requires
        d.probe.host_exists,
    ensures
        step_spec(p, d, e).0.probe.host_exists,
        final_probe(step_spec(p, d, e).1) matches Some(q) ==> q.host_exists,
{
}

/// A probe is marked greylisted only when it stops on a soft refusal, and
/// then that refusal is its reason.
pub proof fn law_greylisted_only_on_soft_refusal(p: PlanModel, d: DialogueModel, e: EventModel)
    requires
        !d.probe.greylisted,
    ensures
        !step_spec(p, d, e).0.probe.greylisted || step_spec(p, d, e).0.stage == Stage::Done,
        final_probe(step_spec(p, d, e).1) matches Some(q) ==> (q.greylisted ==> greylist_reason(
            q.reason,
        )),
{
}

/// A soft refusal of the target is asked again after the plan's delay, and
/// the answer to that second RCPT TO decides the outcome: the probe ends
/// with that answer's code, is deliverable exactly when that answer is
/// positive, and stops at rcpt_target. The first refusal decides only when
/// the second try breaks.
pub proof fn law_retried_answer_decides(
    p: PlanModel,
    d: DialogueModel,
    first_code: u16,
    first_text: Seq<char>,
    code: u16,
    text: Seq<char>,
    m: Seq<char>,
)
    requires
        d.stage == Stage::Target,
        greylist_reason(reason_spec(first_code, first_text)),
        p.greylist_delay_ms > 0,
    ensures
        ({
            let (d1, a1) = step_spec(p, d, EventModel::Replied(first_code, first_text));
            &&& a1 == ActionModel::SendAfter(p.greylist_delay_ms, rcpt_cmd(p.email))
            &&& final_probe(a1) is None
            &&& final_probe(step_spec(p, d1, EventModel::Replied(code, text)).1) matches Some(q)
                && q.code == Some(code) && q.deliverable == positive_code(code)
                && q.stage == "rcpt_target"@
            &&& final_probe(step_spec(p, d1, EventModel::Broken(m)).1) matches Some(q)
                && q.code == Some(first_code) && q.deliverable == positive_code(first_code)
                && q.stage == "rcpt_target"@
        }),
{
}

} // verus!

verus! {

/// The port probes connect to where none is given.
pub const DEFAULT_PORT: u16 = 25;

/// How long a connection may take, in milliseconds, where none is given.
pub const DEFAULT_CONNECT_TIMEOUT_MS: u64 = 8_000;

/// How long one command may take, in milliseconds, where none is given.
pub const DEFAULT_OP_TIMEOUT_MS: u64 = 8_000;

/// How long to wait before asking again after a soft refusal, in
/// milliseconds, where none is given.
pub const DEFAULT_GREYLIST_DELAY_MS: u64 = 3_000;

/// What a caller asks a probe to do; absent options take their defaults.
pub struct ProbeOptions {
    pub email: String,
    pub from: String,
    pub mx: Option<Vec<String>>,
    pub helo: Option<String>,
    pub port: Option<u16>,
    pub connect_timeout_ms: Option<u64>,
    pub op_timeout_ms: Option<u64>,
    pub catch_all: Option<bool>,
    pub greylist_delay_ms: Option<u64>,
}

/// A probe, settled: the target and its domain, the MX hosts to try in
/// order, the envelope sender, the EHLO name, the port and the timeouts.
pub struct Params {
    pub email: String,
    pub domain: String,
    pub hosts: Vec<String>,
    pub from: String,
    pub helo: String,
    pub port: u16,
    pub connect_ms: u64,
    pub op_ms: u64,
    pub catch_all_check: bool,
    pub greylist_delay_ms: u64,
}

/// The position of the last `c` in `s`, or -1.
pub open spec fn last_index_of(s: Seq<char>, c: char) -> int
    decreases s.len(),
{
    if s.len() == 0 {
        -1
    } else if s.last() == c {
        s.len() - 1
    } else {
        last_index_of(s.drop_last(), c)
    }
}

/// The text before the last `c` and the text after it, as `rsplit_once`
/// gives them.
pub open spec fn rsplit_once_at(s: Seq<char>, c: char) -> Option<(Seq<char>, Seq<char>)> {
    let k = last_index_of(s, c);
    if k < 0 {
        None
    } else {
        Some((s.take(k), s.skip(k + 1)))
    }
}

proof fn lemma_last_index_bounds(s: Seq<char>, c: char)
    ensures
        -1 <= last_index_of(s, c) < s.len(),
        last_index_of(s, c) >= 0 ==> s[last_index_of(s, c)] == c,
    decreases s.len(),
{
    if s.len() > 0 && s.last() != c {
        lemma_last_index_bounds(s.drop_last(), c);
    }
}

fn rsplit_once_char(s: &[char], c: char) -> (r: Option<(Vec<char>, Vec<char>)>)
    ensures
        match (r, rsplit_once_at(s@, c)) {
            (Some((a, b)), Some((x, y))) => a@ == x && b@ == y,
            (None, None) => true,
            _ => false,
        },
{
    let mut k: usize = s.len();
    assert(s@.take(k as int) =~= s@);
    while k > 0 && s[k - 1] != c
        invariant
            k <= s@.len(),
            last_index_of(s@, c) == last_index_of(s@.take(k as int), c),
        decreases k,
    {
        assert(s@.take(k as int).drop_last() =~= s@.take(k - 1));
        k -= 1;
    }
    proof {
        lemma_last_index_bounds(s@, c);
        if k > 0 {
            assert(s@.take(k as int).last() == c);
        } else {
            assert(s@.take(0) =~= Seq::<char>::empty());
        }
    }
    if k == 0 {
        return None;
    }
    let a = crate::text::sub_chars(s, 0, k - 1);
    let b = crate::text::sub_chars(s, k, s.len());
    assert(a@ =~= s@.take(k - 1));
    assert(b@ =~= s@.skip(k as int));
    Some((a, b))
}

/// The refusal of a target without `@`.
pub open spec fn msg_email_needs_at() -> Seq<char> {
    "smtp_probe.check: email must contain '@'"@
}

/// The refusal of a sender without `@`.
pub open spec fn msg_from_needs_at() -> Seq<char> {
    "smtp_probe.check: from must be a full address — servers judge the envelope sender"@
}

/// The refusal of a probe without an MX list.
pub open spec fn msg_mx_required() -> Seq<char> {
    "smtp_probe.check: mx list is required"@
}

/// The refusal of an empty MX list.
pub open spec fn msg_mx_empty() -> Seq<char> {
    "smtp_probe.check: mx list is empty"@
}

/// A value that may be absent, or its default.
pub open spec fn or_default<T>(o: Option<T>, d: T) -> T {
    match o {
        Some(v) => v,
        None => d,
    }
}

/// Settles a probe from what was asked: the domain is what follows the
/// last `@` of the target, lower-cased; the EHLO name defaults to what
/// follows the last `@` of the sender; the MX list must be given and not
/// be empty; every other option takes its default where absent.
pub fn params_of(o: &ProbeOptions) -> (r: Result<Params, String>)
    ensures
        rsplit_once_at(o.email@, '@') is None ==> (r matches Err(e) && e@ == msg_email_needs_at()),
        rsplit_once_at(o.email@, '@') is Some && rsplit_once_at(o.from@, '@') is None ==> (r matches Err(
            e,
        ) && e@ == msg_from_needs_at()),
        rsplit_once_at(o.email@, '@') is Some && rsplit_once_at(o.from@, '@') is Some && o.mx is None
            ==> (r matches Err(e) && e@ == msg_mx_required()),
        rsplit_once_at(o.email@, '@') is Some && rsplit_once_at(o.from@, '@') is Some && (o.mx matches Some(
            m,
        ) && m@.len() == 0) ==> (r matches Err(e) && e@ == msg_mx_empty()),
        r matches Ok(p) ==> {
            &&& rsplit_once_at(o.email@, '@') matches Some((_, d)) && p.domain@
                == crate::text::unicode_lower(d)
            &&& rsplit_once_at(o.from@, '@') matches Some((_, fd)) && p.helo@ == or_default(
                opt_view(o.helo),
                fd,
            )
            &&& o.mx matches Some(m) && m@.len() > 0 && p.hosts@.len() == m@.len() && (forall|k: int|
                0 <= k < m@.len() ==> (#[trigger] p.hosts@[k])@ == m@[k]@)
            &&& p.email@ == o.email@ && p.from@ == o.from@
            &&& p.port == or_default(o.port, DEFAULT_PORT)
            &&& p.connect_ms == or_default(o.connect_timeout_ms, DEFAULT_CONNECT_TIMEOUT_MS)
            &&& p.op_ms == or_default(o.op_timeout_ms, DEFAULT_OP_TIMEOUT_MS)
            &&& p.catch_all_check == or_default(o.catch_all, true)
            &&& p.greylist_delay_ms == or_default(o.greylist_delay_ms, DEFAULT_GREYLIST_DELAY_MS)
        },
        rsplit_once_at(o.email@, '@') is Some && rsplit_once_at(o.from@, '@') is Some && (o.mx matches Some(
            m,
        ) && m@.len() > 0) ==> r is Ok,
{
    let ec = chars_of(o.email.as_str());
    let domain = match rsplit_once_char(&ec, '@') {
        Some((_, d)) => {
            let ds = string_of(&d);
            crate::text::to_lowercase(ds.as_str())
        },
        None => {
            return Err(string_of(&chars_of("smtp_probe.check: email must contain '@'")));
        },
    };
    let fc = chars_of(o.from.as_str());
    let from_domain = match rsplit_once_char(&fc, '@') {
        Some((_, d)) => string_of(&d),
        None => {
            return Err(
                string_of(
                    &chars_of(
                        "smtp_probe.check: from must be a full address — servers judge the envelope sender",
                    ),
                ),
            );
        },
    };
    let hosts = match &o.mx {
        None => {
            return Err(string_of(&chars_of("smtp_probe.check: mx list is required")));
        },
        Some(m) => {
            if m.len() == 0 {
                return Err(string_of(&chars_of("smtp_probe.check: mx list is empty")));
            }
            copy_strings(m)
        },
    };
    let helo = match &o.helo {
        Some(h) => string_from(h.as_str()),
        None => from_domain,
    };
    Ok(
        Params {
            email: string_from(o.email.as_str()),
            domain,
            hosts,
            from: string_from(o.from.as_str()),
            helo,
            port: match o.port {
                Some(p) => p,
                None => DEFAULT_PORT,
            },
            connect_ms: match o.connect_timeout_ms {
                Some(v) => v,
                None => DEFAULT_CONNECT_TIMEOUT_MS,
            },
            op_ms: match o.op_timeout_ms {
                Some(v) => v,
                None => DEFAULT_OP_TIMEOUT_MS,
            },
            catch_all_check: match o.catch_all {
                Some(b) => b,
                None => true,
            },
            greylist_delay_ms: match o.greylist_delay_ms {
                Some(v) => v,
                None => DEFAULT_GREYLIST_DELAY_MS,
            },
        },
    )
}

fn copy_strings(v: &Vec<String>) -> (r: Vec<String>)
    ensures
        r@.len() == v@.len(),
        forall|k: int| 0 <= k < v@.len() ==> (#[trigger] r@[k])@ == v@[k]@,
{
    let mut r: Vec<String> = Vec::new();
    let mut i: usize = 0;
    while i < v.len()
        invariant
            i <= v@.len(),
            r@.len() == i,
            forall|k: int| 0 <= k < i ==> (#[trigger] r@[k])@ == v@[k]@,
        decreases v@.len() - i,
    {
        r.push(string_from(v[i].as_str()));
        i += 1;
    }
    r
}

impl Params {
    /// The plan the dialogue follows, with a number drawn from the
    /// system's random source to name the address nobody owns; the
    /// source's failure is reported as `smtp_probe.check: random source:
    /// <error>`, before any connection is made.
    pub fn plan(&self) -> (r: Result<Plan, String>)
        ensures
            r matches Ok(p) ==> p.email@ == self.email@ && p.domain@ == self.domain@ && p.from@ == self.from@
                && p.helo@ == self.helo@ && p.catch_all_check == self.catch_all_check && p.greylist_delay_ms
                == self.greylist_delay_ms,
            r matches Err(e) ==> e@.len() >= 33 && e@.take(33) == "smtp_probe.check: random source: "@,
    {
        match crate::crypto::system_u64() {
            Ok(random) => Ok(
                Plan {
                    email: string_from(self.email.as_str()),
                    domain: string_from(self.domain.as_str()),
                    from: string_from(self.from.as_str()),
                    helo: string_from(self.helo.as_str()),
                    catch_all_check: self.catch_all_check,
                    greylist_delay_ms: self.greylist_delay_ms,
                    random,
                },
            ),
            Err(e) => {
                let mut m = chars_of("smtp_probe.check: random source: ");
                let ghost p = m@;
                push_str(&mut m, e.as_str());
                proof {
                    reveal_strlit("smtp_probe.check: random source: ");
                    assert(p.len() == 33);
                    assert(m@.take(33) =~= p);
                }
                Err(string_of(&m))
            },
        }
    }
}

/// What trying one MX host came to: it could not be reached or read (the
/// error's text), or it greeted with a reply.
#[derive(Debug, PartialEq, Eq)]
pub enum HostEvent {
    Failed(String),
    Greeted(Reply),
}

/// A host's outcome as plain values.
pub enum HostEventModel {
    Failed(Seq<char>),
    Greeted(u16, Seq<char>),
}

pub open spec fn host_event_view(e: HostEvent) -> HostEventModel {
    match e {
        HostEvent::Failed(m) => HostEventModel::Failed(m@),
        HostEvent::Greeted(r) => HostEventModel::Greeted(r.code, r.text@),
    }
}

/// Whether a host can carry the dialogue: it greeted with 220.
pub open spec fn is_ready(e: HostEventModel) -> bool {
    e matches HostEventModel::Greeted(c, _) && c == 220
}

/// The note a host that cannot be used leaves: the host and the error, or
/// the greeting it gave instead of 220.
pub open spec fn host_note(host: Seq<char>, e: HostEventModel) -> Seq<char> {
    match e {
        HostEventModel::Failed(m) => host + ": "@ + m,
        HostEventModel::Greeted(c, t) => greeting_failure_spec(host, c, t),
    }
}

/// What to do next in the search for a host: try the host at an index,
/// begin the dialogue with the host at an index, or give up with a note.
pub enum SearchModel {
    Try(int),
    Begin(int),
    GiveUp(Seq<char>),
}

/// Where a search stands after the first hosts, in order, came to these
/// outcomes: the first host that greets with 220 is used; a host that does
/// not leads to the next; after the last one the search gives up with the
/// last host's note (`no mx hosts` where there is none).
pub open spec fn search_spec(hosts: Seq<Seq<char>>, evs: Seq<HostEventModel>) -> SearchModel
    decreases evs.len(),
{
    if evs.len() == 0 {
        if hosts.len() == 0 {
            SearchModel::GiveUp("no mx hosts"@)
        } else {
            SearchModel::Try(0)
        }
    } else {
        match search_spec(hosts, evs.drop_last()) {
            SearchModel::Try(i) => if is_ready(evs.last()) {
                SearchModel::Begin(i)
            } else if i + 1 < hosts.len() {
                SearchModel::Try(i + 1)
            } else {
                SearchModel::GiveUp(host_note(hosts[i], evs.last()))
            },
            other => other,
        }
    }
}

/// What to do next in the search for a host.
#[derive(Debug, PartialEq, Eq)]
pub enum SearchAction {
    /// Connect to the host at this index and read its greeting.
    Try(usize),
    /// Start the dialogue with the host at this index.
    Begin(usize),
    /// No host will do: the probe ends here.
    GiveUp(Probe),
}

/// The probe that a search which gave up with `note` ends in: stopped at
/// `connect` as `unreachable`, no host known to exist.
pub open spec fn unreachable_spec(note: Seq<char>) -> ProbeModel {
    stopped_spec(blank_probe(), "connect"@, "unreachable"@, detail_spec(note))
}

/// Whether an action is what the search stands at.
pub open spec fn action_matches(a: SearchAction, m: SearchModel) -> bool {
    match (a, m) {
        (SearchAction::Try(i), SearchModel::Try(j)) => i == j,
        (SearchAction::Begin(i), SearchModel::Begin(j)) => i == j,
        (SearchAction::GiveUp(p), SearchModel::GiveUp(n)) => p@ == unreachable_spec(n),
        _ => false,
    }
}

/// How a search starts: with the first host, or, where there is none, by
/// giving up.
pub fn search_start(hosts: &[String]) -> (r: SearchAction)
    ensures
        action_matches(r, search_spec(views(hosts@), Seq::empty())),
{
    if hosts.len() == 0 {
        proof {
            reveal_strlit("no mx hosts");
        }
        SearchAction::GiveUp(unreachable_probe("no mx hosts"))
    } else {
        SearchAction::Try(0)
    }
}

/// The next step of a search that tried the host at `index`, given what
/// came of it. Where the outcomes so far brought the search to that host,
/// the step is where the outcomes with this one bring it.
pub fn search_step(hosts: &[String], index: usize, e: &HostEvent) -> (r: SearchAction)
    requires
        index < hosts@.len(),
    ensures
        forall|evs: Seq<HostEventModel>|
            #![trigger search_spec(views(hosts@), evs.push(host_event_view(*e)))]
            search_spec(views(hosts@), evs) == SearchModel::Try(index as int) ==> action_matches(
                r,
                search_spec(views(hosts@), evs.push(host_event_view(*e))),
            ),
{
    let ghost hv = views(hosts@);
    let ghost ev = host_event_view(*e);
    let note = match e {
        HostEvent::Greeted(reply) => {
            if greeting_ready(reply) {
                proof {
                    assert forall|evs: Seq<HostEventModel>|
                        search_spec(hv, evs) == SearchModel::Try(index as int) implies #[trigger] search_spec(
                            hv,
                            evs.push(ev),
                        ) == SearchModel::Begin(index as int) by {
                        assert(evs.push(ev).drop_last() =~= evs);
                    }
                }
                return SearchAction::Begin(index);
            }
            greeting_failure(hosts[index].as_str(), reply)
        },
        HostEvent::Failed(m) => {
            let mut c = chars_of(hosts[index].as_str());
            push_str(&mut c, ": ");
            push_str(&mut c, m.as_str());
            string_of(&c)
        },
    };
    assert(note@ =~= host_note(hv[index as int], ev));
    if index + 1 < hosts.len() {
        proof {
            assert forall|evs: Seq<HostEventModel>|
                search_spec(hv, evs) == SearchModel::Try(index as int) implies #[trigger] search_spec(
                    hv,
                    evs.push(ev),
                ) == SearchModel::Try(index + 1) by {
                assert(evs.push(ev).drop_last() =~= evs);
            }
        }
        SearchAction::Try(index + 1)
    } else {
        proof {
            assert forall|evs: Seq<HostEventModel>|
                search_spec(hv, evs) == SearchModel::Try(index as int) implies #[trigger] search_spec(
                    hv,
                    evs.push(ev),
                ) == SearchModel::GiveUp(note@) by {
                assert(evs.push(ev).drop_last() =~= evs);
            }
        }
        SearchAction::GiveUp(unreachable_probe(note.as_str()))
    }
}

proof fn lemma_search_tries_in_order(hosts: Seq<Seq<char>>, evs: Seq<HostEventModel>)
    requires
        evs.len() <= hosts.len(),
        hosts.len() > 0,
        forall|i: int| 0 <= i < evs.len() ==> !is_ready(#[trigger] evs[i]),
    ensures
        evs.len() < hosts.len() ==> search_spec(hosts, evs) == SearchModel::Try(evs.len() as int),
        evs.len() == hosts.len() ==> search_spec(hosts, evs) is GiveUp,
    decreases evs.len(),
{
    if evs.len() > 0 {
        let front = evs.drop_last();
        assert forall|i: int| 0 <= i < front.len() implies !is_ready(#[trigger] front[i]) by {
            assert(front[i] == evs[i]);
        }
        lemma_search_tries_in_order(hosts, front);
        assert(!is_ready(evs[evs.len() - 1]));
    }
}

/// A probe reaches no mailbox unless some host greets it with 220: when
/// every MX host fails or greets otherwise, the search tries each of them
/// in order and then gives up, and the probe it gives up with is stopped
/// at `connect` as `unreachable`, with no host known to exist.
pub proof fn law_no_greeting_means_unreachable(hosts: Seq<Seq<char>>, evs: Seq<HostEventModel>)
    requires
        evs.len() == hosts.len(),
        forall|i: int| 0 <= i < evs.len() ==> !is_ready(#[trigger] evs[i]),
    ensures
        search_spec(hosts, evs) matches SearchModel::GiveUp(note) && unreachable_spec(note).stage == "connect"@
            && unreachable_spec(note).reason == "unreachable"@ && !unreachable_spec(note).host_exists,
{
    if hosts.len() > 0 {
        lemma_search_tries_in_order(hosts, evs);
    }
}

} // verus!
