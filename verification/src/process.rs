//! The checks and outcomes of `process.kill` and `process.wait` that need
//! no system call: which process and signal a kill may target, and what a
//! wait reports of how a child ended.
//!
//! A pid must be positive: 0 would signal the caller's own process group
//! and -1 every process the caller may signal.

use vstd::prelude::*;
use crate::text::{chars_of, string_of, string_from, push_str, push_chars, int_chars, int_dec};
use crate::dns_wire::{spec_utf8_lossy, utf8_lossy};

verus! {

/// A numeric argument as the call passed it: not passed at all, an
/// explicit `nil`, a number (converted to `i32` as the call converts it), or
/// a value of another kind.
#[derive(Debug, Clone, Copy, PartialEq, Eq, Structural)]
pub enum NumArg {
    Missing,
    Nil,
    Number(i32),
    Other,
}

/// The signal a kill sends where none is given: 15, `SIGTERM`.
pub const SIGTERM: i32 = 15;

/// The pid and signal of a `process.kill` call, or why it is refused: the
/// pid is required (an explicit `nil` is no number), must be a number and
/// positive; the signal defaults to `SIGTERM` when absent or `nil`, must be
/// a number and not negative.
pub open spec fn kill_spec(pid: NumArg, signal: NumArg) -> Result<(i32, i32), Seq<char>> {
    match pid {
        NumArg::Missing => Err("process.kill: pid required"@),
        NumArg::Nil | NumArg::Other => Err("process.kill: pid must be a number"@),
        NumArg::Number(p) => if p <= 0 {
            Err("process.kill: pid must be > 0, got "@ + int_dec(p as int))
        } else {
            match signal {
                NumArg::Other => Err("process.kill: signal must be a number"@),
                NumArg::Missing | NumArg::Nil => Ok((p, SIGTERM)),
                NumArg::Number(s) => if s < 0 {
                    Err("process.kill: signal must be >= 0, got "@ + int_dec(s as int))
                } else {
                    Ok((p, s))
                },
            }
        },
    }
}

fn refusal_with(prefix: &str, n: i32) -> (r: String)
    ensures
        r@ == prefix@ + int_dec(n as int),
{
    let mut v = chars_of(prefix);
    push_chars(&mut v, &int_chars(n as i64));
    string_of(&v)
}

/// What a `process.kill` call targets, or why it is refused.
pub fn kill_request(pid: NumArg, signal: NumArg) -> (r: Result<(i32, i32), String>)
    ensures
        match kill_spec(pid, signal) {
            Ok(t) => r == Ok::<(i32, i32), String>(t),
            Err(m) => r matches Err(e) && e@ == m,
        },
{
    let p = match pid {
        NumArg::Missing => return Err(string_from("process.kill: pid required")),
        NumArg::Nil | NumArg::Other => return Err(string_from("process.kill: pid must be a number")),
        NumArg::Number(p) => p,
    };
    if p <= 0 {
        return Err(refusal_with("process.kill: pid must be > 0, got ", p));
    }
    match signal {
        NumArg::Other => Err(string_from("process.kill: signal must be a number")),
        NumArg::Missing | NumArg::Nil => Ok((p, SIGTERM)),
        NumArg::Number(s) => if s < 0 {
            Err(refusal_with("process.kill: signal must be >= 0, got ", s))
        } else {
            Ok((p, s))
        },
    }
}

/// The pid a `process.wait` call waits for, or why it is refused.
pub fn wait_pid(pid: NumArg) -> (r: Result<i32, String>)
    ensures
        match pid {
            NumArg::Missing => r matches Err(e) && e@ == "process.wait: pid required"@,
            NumArg::Nil | NumArg::Other => r matches Err(e) && e@ == "process.wait: pid must be a number"@,
            NumArg::Number(p) => if p <= 0 {
                r matches Err(e) && e@ == "process.wait: pid must be > 0"@
            } else {
                r == Ok::<i32, String>(p)
            },
        },
{
    match pid {
        NumArg::Missing => Err(string_from("process.wait: pid required")),
        NumArg::Nil | NumArg::Other => Err(string_from("process.wait: pid must be a number")),
        NumArg::Number(p) => if p <= 0 {
            Err(string_from("process.wait: pid must be > 0"))
        } else {
            Ok(p)
        },
    }
}

/// What a wait reports: the status, and whether the child exited, was
/// killed by a signal, or is still running when the time ran out.
#[derive(Debug, Clone, Copy, PartialEq, Eq, Structural)]
pub struct WaitReport {
    /// The exit code; 128 plus the signal for a child killed by one; -1
    /// otherwise.
    pub status: i32,
    pub exited: bool,
    pub signaled: bool,
    pub timed_out: bool,
}

/// How the child ended, as the operating system reports it.
#[derive(Debug, Clone, Copy, PartialEq, Eq, Structural)]
pub enum ChildEnd {
    /// It exited with this code.
    Exited(i32),
    /// A signal of this number killed it.
    Signaled(i32),
    /// Neither (stopped or continued).
    Neither,
    /// The wait's time ran out first; the child still runs.
    TimedOut,
}

/// The report of a wait: the exit code of a child that exited, 128 plus
/// the signal of one a signal killed, -1 otherwise.
pub fn wait_report(end: ChildEnd) -> (r: WaitReport)
    requires
        end matches ChildEnd::Signaled(s) ==> 0 <= s < 128,
    ensures
        r == (match end {
            ChildEnd::Exited(c) => WaitReport { status: c, exited: true, signaled: false, timed_out: false },
            ChildEnd::Signaled(s) => WaitReport {
                status: (128 + s) as i32,
                exited: false,
                signaled: true,
                timed_out: false,
            },
            ChildEnd::Neither => WaitReport { status: -1i32, exited: false, signaled: false, timed_out: false },
            ChildEnd::TimedOut => WaitReport { status: -1i32, exited: false, signaled: false, timed_out: true },
        }),
{
    match end {
        ChildEnd::Exited(c) => WaitReport { status: c, exited: true, signaled: false, timed_out: false },
        ChildEnd::Signaled(s) => WaitReport { status: 128 + s, exited: false, signaled: true, timed_out: false },
        ChildEnd::Neither => WaitReport { status: -1, exited: false, signaled: false, timed_out: false },
        ChildEnd::TimedOut => WaitReport { status: -1, exited: false, signaled: false, timed_out: true },
    }
}

/// How a `shell.exec` child ended.
#[derive(Debug, PartialEq, Eq)]
pub enum ShellEnd {
    /// It exited, with its code (none where a signal ended it) and what it
    /// wrote.
    Exited { code: Option<i32>, stdout: Vec<u8>, stderr: Vec<u8> },
    /// The timeout ran out first; the child was killed.
    TimedOut,
}

/// What `shell.exec` returns.
#[derive(Debug, PartialEq, Eq)]
pub struct ShellResult {
    /// The exit code, or -1 where there is none.
    pub status: i64,
    pub stdout: String,
    pub stderr: String,
    pub timed_out: bool,
}

/// The result of a `shell.exec`: the exit code (-1 without one) and the
/// output read as UTF-8, invalid sequences replaced; a child that ran out of
/// time reports -1, no output and `timed_out`.
pub fn shell_result(end: ShellEnd) -> (r: ShellResult)
    ensures
        match end {
            ShellEnd::Exited { code, stdout, stderr } => r.status == (match code {
                Some(c) => c as i64,
                None => -1i64,
            }) && r.stdout@ == spec_utf8_lossy(stdout@) && r.stderr@ == spec_utf8_lossy(stderr@) && !r.timed_out,
            ShellEnd::TimedOut => r.status == -1 && r.stdout@.len() == 0 && r.stderr@.len() == 0 && r.timed_out,
        },
{
    match end {
        ShellEnd::Exited { code, stdout, stderr } => ShellResult {
            status: match code {
                Some(c) => c as i64,
                None => -1,
            },
            stdout: utf8_lossy(stdout.as_slice()),
            stderr: utf8_lossy(stderr.as_slice()),
            timed_out: false,
        },
        ShellEnd::TimedOut => ShellResult {
            status: -1,
            stdout: string_of(&Vec::<char>::new()),
            stderr: string_of(&Vec::<char>::new()),
            timed_out: true,
        },
    }
}

} // verus!
