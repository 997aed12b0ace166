use std::sync::atomic::{AtomicBool, Ordering};
use std::sync::Arc;

use provenance_notes::command::ExecOutcome;
use provenance_notes::hooks::{
    pre_fetch_decision, pull_repair_action, pull_repair_decision, was_fast_forward_pull,
    CommandHooksContext, PreFetchAction, PullRepairCheck,
};

fn output(bytes: &[u8]) -> ExecOutcome {
    ExecOutcome::Output { stdout: bytes.to_vec() }
}

#[test]
fn fast_forward_line_detected() {
    let reflog = output(b"bbbb pull: Fast-forward\n");
    assert!(was_fast_forward_pull(&reflog, "bbbb"));
}

#[test]
fn fast_forward_rejects_merge_subject() {
    let reflog = output(b"bbbb merge: Fast-forward\n");
    assert!(!was_fast_forward_pull(&reflog, "bbbb"));
    let reflog2 = output(b"bbbb pull: Merge made by the 'ort' strategy.\n");
    assert!(!was_fast_forward_pull(&reflog2, "bbbb"));
}

#[test]
fn fast_forward_rejects_wrong_head() {
    let reflog = output(b"cccc pull: Fast-forward\n");
    assert!(!was_fast_forward_pull(&reflog, "bbbb"));
}

#[test]
fn fast_forward_rejects_unsplittable_line() {
    assert!(!was_fast_forward_pull(&output(b"nospace\n"), "nospace"));
    assert!(!was_fast_forward_pull(&output(b""), "bbbb"));
}

#[test]
fn fast_forward_command_failure_is_false() {
    assert!(!was_fast_forward_pull(&ExecOutcome::Failure { code: Some(1) }, "bbbb"));
}

#[test]
fn fast_forward_accepts_pull_with_options() {
    // The subject must start with "pull" and end with ": Fast-forward";
    // what stands between is free.
    let reflog = output(b"bbbb pull --rebase=false origin main: Fast-forward\n");
    assert!(was_fast_forward_pull(&reflog, "bbbb"));
}

#[test]
fn repair_decision_requests_check_when_head_moved() {
    // Old head A, new head B after a successful pull: the operation log is
    // consulted, and on a confirmed fast-forward a rename A -> B is asked.
    let d = pull_repair_decision(true, &Some("aaaa".to_string()), &Some("bbbb".to_string()));
    match &d {
        PullRepairCheck::CheckFastForward { old_head, new_head } => {
            assert_eq!(old_head, "aaaa");
            assert_eq!(new_head, "bbbb");
        }
        PullRepairCheck::Stop => panic!("expected a fast-forward check"),
    }
    let rename = pull_repair_action(&d, &output(b"bbbb pull: Fast-forward\n"));
    assert_eq!(rename, Some(("aaaa".to_string(), "bbbb".to_string())));
}

#[test]
fn repair_no_rename_for_merge_line() {
    let d = pull_repair_decision(true, &Some("aaaa".to_string()), &Some("bbbb".to_string()));
    let rename = pull_repair_action(&d, &output(b"bbbb merge: something\n"));
    assert_eq!(rename, None);
}

#[test]
fn repair_skipped_when_head_unchanged() {
    // Unchanged head after pull: the fast-forward check is skipped entirely.
    let d = pull_repair_decision(true, &Some("aaaa".to_string()), &Some("aaaa".to_string()));
    assert!(matches!(d, PullRepairCheck::Stop));
    assert_eq!(pull_repair_action(&d, &output(b"aaaa pull: Fast-forward\n")), None);
}

#[test]
fn repair_skipped_on_failed_pull_or_unknown_heads() {
    assert!(matches!(
        pull_repair_decision(false, &Some("a".to_string()), &Some("b".to_string())),
        PullRepairCheck::Stop
    ));
    assert!(matches!(
        pull_repair_decision(true, &None, &Some("b".to_string())),
        PullRepairCheck::Stop
    ));
    assert!(matches!(
        pull_repair_decision(true, &Some("a".to_string()), &None),
        PullRepairCheck::Stop
    ));
}

#[test]
fn dry_run_launches_nothing() {
    // A dry-run invocation produces no handle, whatever the remote said.
    assert!(matches!(
        pre_fetch_decision(true, &Some("origin".to_string())),
        PreFetchAction::SkipDryRun
    ));
    assert!(matches!(pre_fetch_decision(true, &None), PreFetchAction::SkipDryRun));
}

#[test]
fn unresolvable_remote_degrades_to_no_launch() {
    assert!(matches!(pre_fetch_decision(false, &None), PreFetchAction::SkipNoRemote));
}

#[test]
fn resolved_remote_launches_fetch() {
    match pre_fetch_decision(false, &Some("origin".to_string())) {
        PreFetchAction::LaunchFetch { remote } => assert_eq!(remote, "origin"),
        _ => panic!("expected a launch"),
    }
}

#[test]
fn handle_taken_exactly_once() {
    let mut ctx: CommandHooksContext<u64> = CommandHooksContext::new();
    assert!(ctx.fetch_authorship_handle.is_none());
    ctx.record_fetch_handle(7);
    assert_eq!(ctx.take_fetch_handle(), Some(7));
    // A second POST finds nothing left to join.
    assert_eq!(ctx.take_fetch_handle(), None);
}

#[test]
fn background_task_joined_before_post_returns() {
    // PRE launches a handle; POST joins it even when the main command
    // failed; after POST no background task remains running.
    let action = pre_fetch_decision(false, &Some("origin".to_string()));
    assert!(matches!(action, PreFetchAction::LaunchFetch { .. }));
    let done = Arc::new(AtomicBool::new(false));
    let done_in_task = Arc::clone(&done);
    let mut ctx: CommandHooksContext<smol::Task<()>> = CommandHooksContext::new();
    ctx.record_fetch_handle(smol::spawn(async move {
        done_in_task.store(true, Ordering::SeqCst);
    }));
    // The guarded command itself fails; POST still joins.
    let main_command_failed = true;
    assert!(main_command_failed);
    if let Some(task) = ctx.take_fetch_handle() {
        smol::block_on(task);
    }
    assert!(done.load(Ordering::SeqCst));
    assert!(ctx.fetch_authorship_handle.is_none());
}
