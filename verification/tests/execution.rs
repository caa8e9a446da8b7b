use ravyn::execution::{execution_step, ExecAction, ExecEvent, ExecState};
use ravyn::execution::{numbered_name, organized_path_exhausted};
use ravyn::error::{FailureClass, RavynError};
use ravyn::execution::{
    action_effect, action_tool, journal_index, media_output_role, produced_files, run_end,
    run_end_failure, run_end_outcome, should_execute, was_interrupted, ActionEffect, RunEnd,
};
use ravyn::models::{JobStatus, OutputState, OutputType, PostAction};

#[test]
fn runs_only_claimed_jobs() {
    assert!(should_execute(JobStatus::Downloading));
    assert!(!should_execute(JobStatus::Queued));
    assert!(was_interrupted(Some(JobStatus::Paused)));
    assert!(was_interrupted(Some(JobStatus::Cancelled)));
    assert!(!was_interrupted(None));
}

#[test]
fn produced_outputs_and_journal() {
    assert_eq!(produced_files(vec![], Some("/d/a".into())), vec!["/d/a".to_string()]);
    assert_eq!(produced_files(vec!["/d/b".into()], Some("/d/a".into())), vec!["/d/b".to_string()]);
    assert!(produced_files(vec![], None).is_empty());
    assert_eq!(journal_index(2, 3, 1), 7);
    assert_eq!(journal_index(usize::MAX, 2, 1), usize::MAX);
    assert_eq!(action_tool(&PostAction::Open), None);
    assert_eq!(
        action_tool(&PostAction::Extract { destination: None, delete_archive: false }),
        Some("seven_zip")
    );
    assert_eq!(media_output_role(None, true), "primary");
    assert_eq!(media_output_role(None, false), "auxiliary");
    assert_eq!(media_output_role(Some("subtitle"), true), "subtitle");
}

#[test]
fn post_actions_change_recorded_outputs() {
    assert_eq!(
        action_effect(&PostAction::Extract { destination: None, delete_archive: true }),
        ActionEffect::Derive { output_type: OutputType::Directory, source_state: Some(OutputState::Deleted) }
    );
    assert_eq!(
        action_effect(&PostAction::ConvertMedia {
            extension: "mp4".into(),
            preset: None,
            arguments: vec![],
            unsafe_arguments: false,
            delete_original: false,
        }),
        ActionEffect::Derive { output_type: OutputType::ConvertedFile, source_state: None }
    );
    assert_eq!(action_effect(&PostAction::Move { destination: "/x".into() }), ActionEffect::Relocate);
    assert_eq!(action_effect(&PostAction::VerifySha256 { expected: "ab".into() }), ActionEffect::RecordChecksum);
}

#[test]
fn runs_end_by_their_result() {
    match run_end(Ok((None, None))) {
        RunEnd::Finished { status, severity, code, message, outcome, .. } => {
            assert_eq!(status, JobStatus::Completed);
            assert_eq!(severity, "info");
            assert_eq!(code, "JOB_COMPLETED");
            assert_eq!(message, "job execution reached its terminal success state");
            assert_eq!(outcome, "completed");
        }
        _ => panic!("expected a finished run"),
    }
    match run_end(Ok((Some(JobStatus::Partial), None))) {
        RunEnd::Finished { status, message, outcome, .. } => {
            assert_eq!(status, JobStatus::Partial);
            assert_eq!(message, "job completed with partial failures");
            assert_eq!(outcome, "partial");
        }
        _ => panic!("expected a finished run"),
    }
    let cancelled = run_end(Err(RavynError::Cancelled));
    assert_eq!(run_end_outcome(&cancelled), "cancelled");
    assert_eq!(run_end_failure(&cancelled), Some(FailureClass::Cancellation));
    let deferred = run_end(Err(RavynError::Unavailable("host down".into())));
    assert!(matches!(&deferred, RunEnd::Deferred { message } if message == "host down"));
    assert_eq!(run_end_failure(&deferred), Some(FailureClass::RetryableHttp));
    let failed = run_end(Err(RavynError::Invalid("bad".into())));
    match &failed {
        RunEnd::Failed { message, class } => {
            assert_eq!(message, "invalid request: bad");
            assert_eq!(*class, FailureClass::PermanentClient);
        }
        _ => panic!("expected a failure"),
    }
    assert_eq!(run_end_outcome(&failed), "failed");
}

#[test]
fn organized_names_are_numbered() {
    assert_eq!(numbered_name("movie", Some("mkv"), 2), "movie (2).mkv");
    assert_eq!(numbered_name("README", None, 10), "README (10)");
    assert!(matches!(
        organized_path_exhausted("/lib/a.mkv"),
        RavynError::Conflict(m) if m == "could not allocate a unique organized path for /lib/a.mkv"
    ));
}

#[test]
fn a_run_steps_through_its_post_actions_in_journal_order() {
    let (state, action) = execution_step(ExecState::Claimed, ExecEvent::StatusRead { current: Some(JobStatus::Downloading) });
    assert_eq!((state, action), (ExecState::Transferring, ExecAction::StartTransfer));
    let (state, action) = execution_step(
        state,
        ExecEvent::TransferFinished { succeeded: true, current: Some(JobStatus::Downloading), verify_primary: true },
    );
    assert_eq!((state, action), (ExecState::Verifying, ExecAction::VerifyChecksum));
    let (state, action) = execution_step(state, ExecEvent::ChecksumChecked { matched: true });
    assert_eq!((state, action), (ExecState::Registering, ExecAction::RegisterOutputs));
    let (mut state, action) =
        execution_step(state, ExecEvent::OutputsRegistered { succeeded: true, files: 2, actions: 2 });
    assert_eq!(action, ExecAction::RunAction { file: 0, action: 0, journal_index: 0 });
    for expected in 1..4usize {
        let (next, action) = execution_step(state, ExecEvent::ActionFinished { succeeded: true });
        assert_eq!(
            action,
            ExecAction::RunAction { file: expected / 2, action: expected % 2, journal_index: expected }
        );
        state = next;
    }
    let (state, action) = execution_step(state, ExecEvent::ActionFinished { succeeded: true });
    assert_eq!((state, action), (ExecState::Indexing, ExecAction::IndexLibrary));
    let (state, action) = execution_step(state, ExecEvent::LibraryIndexed);
    assert_eq!((state, action), (ExecState::Ending, ExecAction::ReadStatus));
    let (state, action) = execution_step(state, ExecEvent::StatusRead { current: Some(JobStatus::PostProcessing) });
    assert_eq!((state, action), (ExecState::Done, ExecAction::Conclude));
}

#[test]
fn interrupted_or_unclaimed_runs_stop() {
    assert_eq!(
        execution_step(ExecState::Claimed, ExecEvent::StatusRead { current: Some(JobStatus::Paused) }),
        (ExecState::Done, ExecAction::Stop)
    );
    assert_eq!(
        execution_step(
            ExecState::Transferring,
            ExecEvent::TransferFinished { succeeded: true, current: Some(JobStatus::Cancelled), verify_primary: false },
        ),
        (ExecState::Done, ExecAction::Stop)
    );
    assert_eq!(
        execution_step(
            ExecState::Transferring,
            ExecEvent::TransferFinished { succeeded: false, current: Some(JobStatus::Downloading), verify_primary: false },
        ),
        (ExecState::Ending, ExecAction::ReadStatus)
    );
    assert_eq!(
        execution_step(ExecState::Ending, ExecEvent::StatusRead { current: Some(JobStatus::Cancelled) }),
        (ExecState::Done, ExecAction::RecordCancelled)
    );
    assert_eq!(
        execution_step(ExecState::Verifying, ExecEvent::LibraryIndexed),
        (ExecState::Verifying, ExecAction::Ignore)
    );
}
