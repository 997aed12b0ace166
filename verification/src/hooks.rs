//! Decision logic of the fetch/pull hooks.
//!
//! Two call sites guard one fetch or pull command: PRE, before it runs, and
//! POST, after it returns, whatever its outcome.  PRE decides whether a
//! background provenance-note fetch is launched; the handle it yields is
//! carried in a per-invocation context and consumed exactly once at POST.
//! After a successful pull that moved the head, the operation log is checked
//! for a fast-forward, and a confirmed fast-forward asks for one Working Log
//! rename from the old head to the new.  The subprocesses and threads
//! themselves run outside; their observed outcomes are handed in as plain
//! values.

use crate::command::ExecOutcome;
use crate::scan::{bytes_eq, find_byte, find_from, trim_ascii_ws, trimmed};
use vstd::prelude::*;
use vstd::string::StringSliceAdditionalSpecFns;
use vstd::utf8::encode_utf8;

verus! {

/// The operation tag that the log subject of a pull starts with: `pull`.
pub open spec fn pull_tag() -> Seq<u8> {
    seq![112u8, 117u8, 108u8, 108u8]
}

/// What the log subject of a fast-forward ends with: `: Fast-forward`.
pub open spec fn ff_suffix() -> Seq<u8> {
    seq![58u8, 32u8, 70u8, 97u8, 115u8, 116u8, 45u8, 102u8, 111u8, 114u8, 119u8, 97u8, 114u8, 100u8]
}

/// Whether the most recent operation-log entry confirms a fast-forward pull
/// onto `expected`: trimmed, the line splits at its first space into an id
/// equal to `expected` and a subject that starts with `pull` and ends with
/// `: Fast-forward`.
pub open spec fn spec_fast_forward_line(stdout: Seq<u8>, expected: Seq<u8>) -> bool {
    let t = trimmed(stdout);
    let p = find_from(t, 0, 32);
    let subject = t.subrange(p + 1, t.len() as int);
    &&& p < t.len()
    &&& t.subrange(0, p) == expected
    &&& subject.len() >= 4 && subject.subrange(0, 4) == pull_tag()
    &&& subject.len() >= 14 && subject.subrange(subject.len() - 14, subject.len() as int)
        == ff_suffix()
}

fn subject_starts_with_pull(subject: &[u8]) -> (r: bool)
    ensures
        r == (subject@.len() >= 4 && subject@.subrange(0, 4) == pull_tag()),
{
    if subject.len() < 4 {
        return false;
    }
    let r = subject[0] == 112 && subject[1] == 117 && subject[2] == 108 && subject[3] == 108;
    proof {
        let sub = subject@.subrange(0, 4);
        assert(sub[0] == subject@[0] && sub[1] == subject@[1] && sub[2] == subject@[2] && sub[3]
            == subject@[3]);
        if r {
            assert(sub =~= pull_tag());
        }
    }
    r
}

fn subject_ends_with_ff(subject: &[u8]) -> (r: bool)
    ensures
        r == (subject@.len() >= 14 && subject@.subrange(
            subject@.len() - 14,
            subject@.len() as int,
        ) == ff_suffix()),
{
    let n = subject.len();
    if n < 14 {
        return false;
    }
    let s = n - 14;
    let r = subject[s] == 58 && subject[s + 1] == 32 && subject[s + 2] == 70 && subject[s + 3]
        == 97 && subject[s + 4] == 115 && subject[s + 5] == 116 && subject[s + 6] == 45
        && subject[s + 7] == 102 && subject[s + 8] == 111 && subject[s + 9] == 114 && subject[s
        + 10] == 119 && subject[s + 11] == 97 && subject[s + 12] == 114 && subject[s + 13] == 100;
    proof {
        let sub = subject@.subrange(s as int, n as int);
        assert(forall|k: int| 0 <= k < 14 ==> #[trigger] sub[k] == subject@[s + k]);
        if r {
            assert(sub =~= ff_suffix());
        } else {
            assert(sub != ff_suffix());
        }
    }
    r
}

/// Whether the observed most-recent operation-log entry confirms that the
/// guarded pull fast-forwarded onto `expected_new_head`.  Any command failure
/// or parse mismatch yields `false`, never an error: the signal is advisory.
pub fn was_fast_forward_pull(reflog: &ExecOutcome, expected_new_head: &str) -> (r: bool)
    ensures
        r == (reflog matches ExecOutcome::Output { stdout } && spec_fast_forward_line(
            stdout@,
            encode_utf8(expected_new_head@),
        )),
{
    let stdout = match reflog {
        ExecOutcome::Output { stdout } => stdout,
        ExecOutcome::Failure { .. } => {
            return false;
        },
    };
    let t = trim_ascii_ws(stdout.as_slice());
    let p = find_byte(t, 0, 32);
    proof {
        crate::scan::lemma_find_from_bounds(t@, 0, 32);
    }
    if p >= t.len() {
        return false;
    }
    let sha = vstd::slice::slice_subrange(t, 0, p);
    if !bytes_eq(sha, expected_new_head.as_bytes()) {
        return false;
    }
    let subject = vstd::slice::slice_subrange(t, p + 1, t.len());
    subject_starts_with_pull(subject) && subject_ends_with_ff(subject)
}

/// Per-invocation context of one guarded command, carried from its PRE call
/// site to its POST call site.  It holds at most one in-flight background
/// handle.
pub struct CommandHooksContext<H> {
    pub fetch_authorship_handle: Option<H>,
}

impl<H> CommandHooksContext<H> {
    /// A fresh context: no handle in flight.
    pub fn new() -> (r: Self)
        ensures
            r.fetch_authorship_handle is None,
    {
        CommandHooksContext { fetch_authorship_handle: None }
    }

    /// Record the handle of the background fetch launched at PRE.
    pub fn record_fetch_handle(&mut self, h: H)
        ensures
            final(self).fetch_authorship_handle == Some(h),
    {
        self.fetch_authorship_handle = Some(h);
    }

    /// Take the in-flight handle for joining.  Afterwards the context holds
    /// none, so however often POST runs, the handle is joined exactly once.
    pub fn take_fetch_handle(&mut self) -> (h: Option<H>)
        ensures
            final(self).fetch_authorship_handle is None,
            h == old(self).fetch_authorship_handle,
    {
        let mut taken: Option<H> = None;
        core::mem::swap(&mut self.fetch_authorship_handle, &mut taken);
        taken
    }
}

/// What the PRE call site of a guarded fetch or pull does.
pub enum PreFetchAction {
    /// A dry run: launch nothing, touch nothing.
    SkipDryRun,
    /// The target remote could not be resolved: log and launch nothing; the
    /// primary command is never failed on this account.
    SkipNoRemote,
    /// Launch a background fetch of provenance notes from this remote.
    LaunchFetch { remote: String },
}

/// Decide the PRE call site: under a dry run nothing is launched, whatever
/// the remote resolution said; without a resolved remote the hook degrades to
/// doing nothing; otherwise a background note fetch from the resolved remote
/// is launched.
pub fn pre_fetch_decision(dry_run: bool, remote: &Option<String>) -> (r: PreFetchAction)
    ensures
        dry_run ==> r is SkipDryRun,
        !dry_run && remote is None ==> r is SkipNoRemote,
        !dry_run ==> (remote matches Some(s) ==> r matches PreFetchAction::LaunchFetch {
            remote: rr,
        } && rr@ == s@),
{
    if dry_run {
        return PreFetchAction::SkipDryRun;
    }
    match remote {
        None => PreFetchAction::SkipNoRemote,
        Some(s) => PreFetchAction::LaunchFetch { remote: s.clone() },
    }
}

/// What the POST call site of a pull does about consistency repair.
pub enum PullRepairCheck {
    /// Nothing to check: the pull failed, a head is unknown, or the head did
    /// not move.
    Stop,
    /// History advanced: consult the operation log for a fast-forward onto
    /// the new head.
    CheckFastForward { old_head: String, new_head: String },
}

/// Decide whether the POST call site of a pull consults the operation log at
/// all: only after a successful pull, with both heads known, that moved the
/// head.  An unchanged head skips the fast-forward check entirely.
pub fn pull_repair_decision(
    exit_success: bool,
    old_head: &Option<String>,
    new_head: &Option<String>,
) -> (r: PullRepairCheck)
    ensures
        !exit_success ==> r is Stop,
        old_head is None || new_head is None ==> r is Stop,
        exit_success ==> (old_head matches Some(o) ==> (new_head matches Some(n) ==> if o@ == n@ {
            r is Stop
        } else {
            r matches PullRepairCheck::CheckFastForward { old_head: a, new_head: b } && a@ == o@
                && b@ == n@
        })),
{
    if !exit_success {
        return PullRepairCheck::Stop;
    }
    let o = match old_head {
        Some(o) => o,
        None => {
            return PullRepairCheck::Stop;
        },
    };
    let n = match new_head {
        Some(n) => n,
        None => {
            return PullRepairCheck::Stop;
        },
    };
    if o.eq(n) {
        return PullRepairCheck::Stop;
    }
    PullRepairCheck::CheckFastForward { old_head: o.clone(), new_head: n.clone() }
}

/// Decide the Working Log repair from the operation-log observation: a rename
/// of the old head's entry to the new head is requested exactly when history
/// advanced and the log confirms a fast-forward pull onto the new head.
pub fn pull_repair_action(check: &PullRepairCheck, reflog: &ExecOutcome) -> (r: Option<
    (String, String),
>)
    ensures
        check is Stop ==> r is None,
        check matches PullRepairCheck::CheckFastForward { old_head: a, new_head: b } ==> {
            &&& (r is Some <==> (reflog matches ExecOutcome::Output { stdout }
                && spec_fast_forward_line(stdout@, encode_utf8(b@))))
            &&& (r matches Some(p) ==> p.0@ == a@ && p.1@ == b@)
        },
{
    match check {
        PullRepairCheck::Stop => None,
        PullRepairCheck::CheckFastForward { old_head, new_head } => {
            if was_fast_forward_pull(reflog, new_head.as_str()) {
                Some((old_head.clone(), new_head.clone()))
            } else {
                None
            }
        },
    }
}

} // verus!
