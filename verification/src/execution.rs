//! The decisions a job's execution takes between its steps: whether it
//! runs at all, which outputs it records, how post-actions are journaled and
//! what they do to the recorded outputs, and how the run ends.
use vstd::prelude::*;
use crate::error::{FailureClass, RavynError};
use crate::models::{JobStatus, OutputState, OutputType, PostAction};
use crate::text::{dec, push_decimal};

verus! {

/// A claimed job runs only while it is still marked as downloading.
pub fn should_execute(status: JobStatus) -> (b: bool)
    ensures
        b == (status == JobStatus::Downloading),
{
    status == JobStatus::Downloading
}

/// A job paused or cancelled meanwhile is left as it is.
pub fn was_interrupted(current: Option<JobStatus>) -> (b: bool)
    ensures
        b == (current == Some(JobStatus::Paused) || current == Some(JobStatus::Cancelled)),
{
    match current {
        Some(JobStatus::Paused) => true,
        Some(JobStatus::Cancelled) => true,
        _ => false,
    }
}

pub open spec fn string_views(v: Seq<String>) -> Seq<Seq<char>> {
    v.map_values(|s: String| s@)
}

/// The files a finished transfer registers when its adapter described no
/// artifacts: the files it reported, or else its primary file.
pub open spec fn spec_produced_files(files: Seq<Seq<char>>, primary: Option<Seq<char>>) -> Seq<Seq<char>> {
    if files.len() > 0 {
        files
    } else {
        match primary {
            Some(p) => seq![p],
            None => Seq::empty(),
        }
    }
}

pub fn produced_files(files: Vec<String>, primary: Option<String>) -> (r: Vec<String>)
    ensures
        string_views(r@) == spec_produced_files(
            string_views(files@),
            match primary {
                Some(p) => Some(p@),
                None => None,
            },
        ),
{
    if files.len() > 0 {
        files
    } else {
        match primary {
            Some(p) => {
                let r = vec![p];
                proof {
                    assert(string_views(r@) =~= seq![r@[0]@]);
                }
                r
            },
            None => {
                let r: Vec<String> = Vec::new();
                proof {
                    assert(string_views(r@) =~= Seq::<Seq<char>>::empty());
                }
                r
            },
        }
    }
}

/// The journal slot of one action applied to one output file.
pub open spec fn spec_journal_index(file_index: usize, action_count: usize, action_index: usize) -> usize {
    let scaled = file_index * action_count;
    let scaled = if scaled > usize::MAX { usize::MAX as int } else { scaled };
    if scaled + action_index > usize::MAX { usize::MAX } else { (scaled + action_index) as usize }
}

pub fn journal_index(file_index: usize, action_count: usize, action_index: usize) -> (j: usize)
    ensures
        j == spec_journal_index(file_index, action_count, action_index),
{
    let scaled = match file_index.checked_mul(action_count) {
        Some(v) => v,
        None => usize::MAX,
    };
    match scaled.checked_add(action_index) {
        Some(v) => v,
        None => usize::MAX,
    }
}

/// The external tool a post-action runs, as its duration is reported.
pub fn action_tool(action: &PostAction) -> (t: Option<&'static str>)
    ensures
        match action {
            PostAction::Extract { .. } => t matches Some(x) && x@ == "seven_zip"@,
            PostAction::ConvertMedia { .. } => t matches Some(x) && x@ == "ffmpeg"@,
            _ => t is None,
        },
{
    match action {
        PostAction::Extract { .. } => Some("seven_zip"),
        PostAction::ConvertMedia { .. } => Some("ffmpeg"),
        _ => None,
    }
}

/// The role a media output is linked under: the adapter's, else primary or auxiliary.
pub fn media_output_role(role: Option<&str>, is_primary: bool) -> (r: String)
    ensures
        match role {
            Some(x) => r@ == x@,
            None => r@ == if is_primary { "primary"@ } else { "auxiliary"@ },
        },
{
    match role {
        Some(x) => String::from_str(x),
        None => if is_primary {
            String::from_str("primary")
        } else {
            String::from_str("auxiliary")
        },
    }
}

/// What a completed post-action does to the output it worked on.
#[derive(Debug, Clone, Copy, PartialEq, Eq, Structural)]
pub enum ActionEffect {
    /// The verified digest is stored on the output.
    RecordChecksum,
    /// A new output of this type is derived; the source may change state.
    Derive { output_type: OutputType, source_state: Option<OutputState> },
    /// The output now lives at the action's result.
    Relocate,
    Nothing,
}

pub open spec fn spec_action_effect(action: PostAction) -> ActionEffect {
    match action {
        PostAction::VerifySha256 { .. } => ActionEffect::RecordChecksum,
        PostAction::Extract { delete_archive, .. } => ActionEffect::Derive {
            output_type: OutputType::Directory,
            source_state: if delete_archive { Some(OutputState::Deleted) } else { None },
        },
        PostAction::ConvertMedia { delete_original, .. } => ActionEffect::Derive {
            output_type: OutputType::ConvertedFile,
            source_state: if delete_original { Some(OutputState::Replaced) } else { None },
        },
        PostAction::Move { .. } => ActionEffect::Relocate,
        PostAction::Open => ActionEffect::Nothing,
    }
}

pub fn action_effect(action: &PostAction) -> (e: ActionEffect)
    ensures
        e == spec_action_effect(*action),
{
    match action {
        PostAction::VerifySha256 { .. } => ActionEffect::RecordChecksum,
        PostAction::Extract { delete_archive, .. } => ActionEffect::Derive {
            output_type: OutputType::Directory,
            source_state: if *delete_archive {
                Some(OutputState::Deleted)
            } else {
                None
            },
        },
        PostAction::ConvertMedia { delete_original, .. } => ActionEffect::Derive {
            output_type: OutputType::ConvertedFile,
            source_state: if *delete_original {
                Some(OutputState::Replaced)
            } else {
                None
            },
        },
        PostAction::Move { .. } => ActionEffect::Relocate,
        PostAction::Open => ActionEffect::Nothing,
    }
}

/// How a run ends, as far as the job's record, its log and its metrics go.
pub enum RunEnd {
    /// The job reached `status` (completed or partial); the log gets
    /// `severity`, `code` and `message`; `outcome` is the metric label.
    Finished { status: JobStatus, event_message: Option<String>, severity: &'static str, code: &'static str, message: String, outcome: &'static str },
    /// The job was cancelled.
    Cancelled,
    /// The job waits for its host to recover and is queued again.
    Deferred { message: String },
    /// The job failed with `message`, classified as `class`.
    Failed { message: String, class: FailureClass },
}

pub open spec fn finished_status(terminal: Option<JobStatus>) -> JobStatus {
    match terminal {
        Some(s) => s,
        None => JobStatus::Completed,
    }
}

/// Decides how a run ends from its result: on success, the status the
/// adapter asked for (completed by default); cancellations and unavailable
/// hosts are not failures; anything else fails the job with the error's text.
pub fn run_end(result: Result<(Option<JobStatus>, Option<String>), RavynError>) -> (e: RunEnd)
    ensures
        match result {
            Ok((terminal, message)) => e matches RunEnd::Finished { status, event_message, severity, code, message: m, outcome }
                && status == finished_status(terminal) && event_message == message
                && if finished_status(terminal) == JobStatus::Partial {
                    &&& severity@ == "warning"@
                    &&& code@ == "JOB_PARTIAL"@
                    &&& m@ == match message {
                        Some(x) => x@,
                        None => "job completed with partial failures"@,
                    }
                    &&& outcome@ == "partial"@
                } else {
                    &&& severity@ == "info"@
                    &&& code@ == "JOB_COMPLETED"@
                    &&& m@ == "job execution reached its terminal success state"@
                    &&& outcome@ == "completed"@
                },
            Err(RavynError::Cancelled) => e is Cancelled,
            Err(RavynError::Unavailable(m)) => e matches RunEnd::Deferred { message } && message == m,
            Err(err) => e matches RunEnd::Failed { message, class } && message@ == err.spec_display()
                && class == err.spec_failure_class(),
        },
{
    match result {
        Ok((terminal, message)) => {
            let status = match terminal {
                Some(s) => s,
                None => JobStatus::Completed,
            };
            if status == JobStatus::Partial {
                let text = match &message {
                    Some(x) => x.clone(),
                    None => String::from_str("job completed with partial failures"),
                };
                RunEnd::Finished {
                    status,
                    event_message: message,
                    severity: "warning",
                    code: "JOB_PARTIAL",
                    message: text,
                    outcome: "partial",
                }
            } else {
                RunEnd::Finished {
                    status,
                    event_message: message,
                    severity: "info",
                    code: "JOB_COMPLETED",
                    message: String::from_str("job execution reached its terminal success state"),
                    outcome: "completed",
                }
            }
        },
        Err(RavynError::Cancelled) => RunEnd::Cancelled,
        Err(RavynError::Unavailable(m)) => RunEnd::Deferred { message: m },
        Err(err) => {
            let class = err.failure_class();
            let message = err.to_text();
            RunEnd::Failed { message, class }
        },
    }
}

/// The metric outcome label of a run end.
pub fn run_end_outcome(e: &RunEnd) -> (s: &'static str)
    ensures
        match e {
            RunEnd::Finished { outcome, .. } => s == *outcome,
            RunEnd::Cancelled => s@ == "cancelled"@,
            RunEnd::Deferred { .. } => s@ == "deferred"@,
            RunEnd::Failed { .. } => s@ == "failed"@,
        },
{
    match e {
        RunEnd::Finished { outcome, .. } => outcome,
        RunEnd::Cancelled => "cancelled",
        RunEnd::Deferred { .. } => "deferred",
        RunEnd::Failed { .. } => "failed",
    }
}

/// The failure class a run end is counted under, if any.
pub fn run_end_failure(e: &RunEnd) -> (c: Option<FailureClass>)
    ensures
        match e {
            RunEnd::Finished { .. } => c is None,
            RunEnd::Cancelled => c == Some(FailureClass::Cancellation),
            RunEnd::Deferred { .. } => c == Some(FailureClass::RetryableHttp),
            RunEnd::Failed { class, .. } => c == Some(*class),
        },
{
    match e {
        RunEnd::Finished { .. } => None,
        RunEnd::Cancelled => Some(FailureClass::Cancellation),
        RunEnd::Deferred { .. } => Some(FailureClass::RetryableHttp),
        RunEnd::Failed { class, .. } => Some(*class),
    }
}

/// How many numbered alternatives are tried for an organized path.
pub const MAX_NAME_SUFFIX: u32 = 10_000;

/// The file name `stem (n).ext` (without the extension when there is none).
pub open spec fn spec_numbered_name(stem: Seq<char>, extension: Option<Seq<char>>, suffix: u32) -> Seq<char> {
    stem + " ("@ + dec(suffix as nat) + ")"@ + match extension {
        Some(e) => "."@ + e,
        None => Seq::empty(),
    }
}

pub fn numbered_name(stem: &str, extension: Option<&str>, suffix: u32) -> (n: String)
    ensures
        n@ == spec_numbered_name(
            stem@,
            match extension {
                Some(e) => Some(e@),
                None => None,
            },
            suffix,
        ),
{
    let mut n = String::from_str(stem);
    n.append(" (");
    push_decimal(&mut n, suffix as u64);
    n.append(")");
    match extension {
        Some(e) => {
            n.append(".");
            n.append(e);
        },
        None => {},
    }
    n
}

/// The error when every numbered alternative of an organized path is taken.
pub fn organized_path_exhausted(preferred_display: &str) -> (e: RavynError)
    ensures
        e matches RavynError::Conflict(x) && x@ == "could not allocate a unique organized path for "@ + preferred_display@,
{
    let mut m = String::from_str("could not allocate a unique organized path for ");
    m.append(preferred_display);
    RavynError::Conflict(m)
}

// ---------------------------------------------------------------------------
// The run as a state machine
// ---------------------------------------------------------------------------

/// Where a job's execution stands between two of its steps.
#[derive(Debug, Clone, Copy, PartialEq, Eq, Structural)]
pub enum ExecState {
    /// Claimed; its current status has not been read yet.
    Claimed,
    /// The adapter is transferring.
    Transferring,
    /// The primary file is being checked against the expected digest.
    Verifying,
    /// The transfer's outputs are being registered.
    Registering,
    /// Post-action `action` of produced file `file` runs; each of `files`
    /// files takes `actions` actions.
    PostProcessing { file: usize, action: usize, files: usize, actions: usize },
    /// The outputs are being indexed in the library.
    Indexing,
    /// The status is read once more before the run ends.
    Ending,
    /// The run is over.
    Done,
}

/// What the outside work of the last step reports.
#[derive(Debug, Clone, Copy, PartialEq, Eq, Structural)]
pub enum ExecEvent {
    /// The job's status as stored now (`None` when it disappeared).
    StatusRead { current: Option<JobStatus> },
    /// The adapter returned; `current` is the status read right after it,
    /// and `verify_primary` whether a primary file and an expected digest
    /// are both at hand.
    TransferFinished { succeeded: bool, current: Option<JobStatus>, verify_primary: bool },
    ChecksumChecked { matched: bool },
    /// The outputs were registered; `files` of them are post-processed,
    /// each by the job's `actions` post-actions.
    OutputsRegistered { succeeded: bool, files: usize, actions: usize },
    ActionFinished { succeeded: bool },
    LibraryIndexed,
}

/// The outside work to do next.
#[derive(Debug, Clone, Copy, PartialEq, Eq, Structural)]
pub enum ExecAction {
    /// Publish the downloading status, log the start and run the adapter.
    StartTransfer,
    /// Mark the job verifying and check the primary file's digest.
    VerifyChecksum,
    /// Register the produced outputs.
    RegisterOutputs,
    /// Run one post-action (marking the job post-processing before the
    /// first) under its journal index.
    RunAction { file: usize, action: usize, journal_index: usize },
    /// Index the outputs in the library; a failure there is only logged.
    IndexLibrary,
    /// Read the job's status before ending.
    ReadStatus,
    /// The job was paused or cancelled meanwhile: record the run as cancelled.
    RecordCancelled,
    /// End the run by `run_end` of its result.
    Conclude,
    /// Leave the job as it is.
    Stop,
    /// The event does not belong to the state: nothing happens.
    Ignore,
}

/// The step after post-action `action` of file `file` succeeded: the next
/// action of the same file, else the first action of the next file, else
/// the library index.
pub open spec fn after_action(file: usize, action: usize, files: usize, actions: usize) -> (ExecState, ExecAction) {
    if action + 1 < actions {
        (
            ExecState::PostProcessing { file, action: (action + 1) as usize, files, actions },
            ExecAction::RunAction {
                file,
                action: (action + 1) as usize,
                journal_index: spec_journal_index(file, actions, (action + 1) as usize),
            },
        )
    } else if file + 1 < files {
        (
            ExecState::PostProcessing { file: (file + 1) as usize, action: 0, files, actions },
            ExecAction::RunAction {
                file: (file + 1) as usize,
                action: 0,
                journal_index: spec_journal_index((file + 1) as usize, actions, 0),
            },
        )
    } else {
        (ExecState::Indexing, ExecAction::IndexLibrary)
    }
}

/// One step of a run: from where it stands and what the last outside work
/// reported, where it goes and what to do next. A failure anywhere reads
/// the status once more and ends the run; so does the end of the work.
pub open spec fn spec_execution_step(state: ExecState, event: ExecEvent) -> (ExecState, ExecAction) {
    let fail = (ExecState::Ending, ExecAction::ReadStatus);
    match (state, event) {
        (ExecState::Claimed, ExecEvent::StatusRead { current }) => if current == Some(JobStatus::Downloading) {
            (ExecState::Transferring, ExecAction::StartTransfer)
        } else {
            (ExecState::Done, ExecAction::Stop)
        },
        (ExecState::Transferring, ExecEvent::TransferFinished { succeeded, current, verify_primary }) => {
            if current == Some(JobStatus::Paused) || current == Some(JobStatus::Cancelled) {
                (ExecState::Done, ExecAction::Stop)
            } else if !succeeded {
                fail
            } else if verify_primary {
                (ExecState::Verifying, ExecAction::VerifyChecksum)
            } else {
                (ExecState::Registering, ExecAction::RegisterOutputs)
            }
        },
        (ExecState::Verifying, ExecEvent::ChecksumChecked { matched }) => if matched {
            (ExecState::Registering, ExecAction::RegisterOutputs)
        } else {
            fail
        },
        (ExecState::Registering, ExecEvent::OutputsRegistered { succeeded, files, actions }) => if !succeeded {
            fail
        } else if files > 0 && actions > 0 {
            (
                ExecState::PostProcessing { file: 0, action: 0, files, actions },
                ExecAction::RunAction { file: 0, action: 0, journal_index: 0 },
            )
        } else {
            (ExecState::Indexing, ExecAction::IndexLibrary)
        },
        (
            ExecState::PostProcessing { file, action, files, actions },
            ExecEvent::ActionFinished { succeeded },
        ) => if !succeeded {
            fail
        } else {
            after_action(file, action, files, actions)
        },
        (ExecState::Indexing, ExecEvent::LibraryIndexed) => fail,
        (ExecState::Ending, ExecEvent::StatusRead { current }) => if current == Some(JobStatus::Paused)
            || current == Some(JobStatus::Cancelled) {
            (ExecState::Done, ExecAction::RecordCancelled)
        } else {
            (ExecState::Done, ExecAction::Conclude)
        },
        _ => (state, ExecAction::Ignore),
    }
}

/// Takes one step of a run (see `spec_execution_step`).
pub fn execution_step(state: ExecState, event: ExecEvent) -> (r: (ExecState, ExecAction))
    ensures
        r == spec_execution_step(state, event),
{
    let fail = (ExecState::Ending, ExecAction::ReadStatus);
    match (state, event) {
        (ExecState::Claimed, ExecEvent::StatusRead { current }) => if should_execute_current(current) {
            (ExecState::Transferring, ExecAction::StartTransfer)
        } else {
            (ExecState::Done, ExecAction::Stop)
        },
        (ExecState::Transferring, ExecEvent::TransferFinished { succeeded, current, verify_primary }) => {
            if was_interrupted(current) {
                (ExecState::Done, ExecAction::Stop)
            } else if !succeeded {
                fail
            } else if verify_primary {
                (ExecState::Verifying, ExecAction::VerifyChecksum)
            } else {
                (ExecState::Registering, ExecAction::RegisterOutputs)
            }
        },
        (ExecState::Verifying, ExecEvent::ChecksumChecked { matched }) => if matched {
            (ExecState::Registering, ExecAction::RegisterOutputs)
        } else {
            fail
        },
        (ExecState::Registering, ExecEvent::OutputsRegistered { succeeded, files, actions }) => if !succeeded {
            fail
        } else if files > 0 && actions > 0 {
            (
                ExecState::PostProcessing { file: 0, action: 0, files, actions },
                ExecAction::RunAction { file: 0, action: 0, journal_index: 0 },
            )
        } else {
            (ExecState::Indexing, ExecAction::IndexLibrary)
        },
        (
            ExecState::PostProcessing { file, action, files, actions },
            ExecEvent::ActionFinished { succeeded },
        ) => if !succeeded {
            fail
        } else if action < usize::MAX && action + 1 < actions {
            let next = action + 1;
            (
                ExecState::PostProcessing { file, action: next, files, actions },
                ExecAction::RunAction { file, action: next, journal_index: journal_index(file, actions, next) },
            )
        } else if file < usize::MAX && file + 1 < files {
            let next = file + 1;
            (
                ExecState::PostProcessing { file: next, action: 0, files, actions },
                ExecAction::RunAction { file: next, action: 0, journal_index: journal_index(next, actions, 0) },
            )
        } else {
            (ExecState::Indexing, ExecAction::IndexLibrary)
        },
        (ExecState::Indexing, ExecEvent::LibraryIndexed) => fail,
        (ExecState::Ending, ExecEvent::StatusRead { current }) => if was_interrupted(current) {
            (ExecState::Done, ExecAction::RecordCancelled)
        } else {
            (ExecState::Done, ExecAction::Conclude)
        },
        _ => (state, ExecAction::Ignore),
    }
}

fn should_execute_current(current: Option<JobStatus>) -> (b: bool)
    ensures
        b == (current == Some(JobStatus::Downloading)),
{
    match current {
        Some(status) => should_execute(status),
        None => false,
    }
}

/// Post-actions run file by file, each file's actions in order, under
/// consecutive journal indices; after the last action of the last file the
/// outputs are indexed.
pub proof fn lemma_actions_follow_the_journal(file: usize, action: usize, files: usize, actions: usize)
    requires
        file < files,
        action < actions,
        files * actions <= usize::MAX,
    ensures
        match spec_execution_step(
            ExecState::PostProcessing { file, action, files, actions },
            ExecEvent::ActionFinished { succeeded: true },
        ) {
            (ExecState::PostProcessing { file: f, action: a, .. }, ExecAction::RunAction { journal_index, .. }) => {
                &&& f < files && a < actions
                &&& journal_index == f * actions + a
                &&& journal_index == file * actions + action + 1
            },
            (ExecState::Indexing, ExecAction::IndexLibrary) => file == files - 1 && action == actions - 1,
            _ => false,
        },
{
    assert(file * actions + action < files * actions) by (nonlinear_arith)
        requires
            file < files,
            action < actions,
    ;
    assert((file + 1) * actions == file * actions + actions) by (nonlinear_arith);
    assert((file + 1) * actions <= files * actions) by (nonlinear_arith)
        requires
            file + 1 <= files,
    ;
}

/// A run is concluded only from its last status read, and only when that
/// read found the job neither paused nor cancelled; a job found paused or
/// cancelled right after its transfer is left as it is.
pub proof fn lemma_interrupted_runs_are_not_concluded(state: ExecState, event: ExecEvent)
    ensures
        spec_execution_step(state, event).1 == ExecAction::Conclude ==> (state == ExecState::Ending && (
        event matches ExecEvent::StatusRead { current } && (current != Some(JobStatus::Paused) && current
            != Some(JobStatus::Cancelled)))),
        (state == ExecState::Transferring && (event matches ExecEvent::TransferFinished { current, .. } && (
        current == Some(JobStatus::Paused) || current == Some(JobStatus::Cancelled)))) ==> spec_execution_step(
            state,
            event,
        ) == (ExecState::Done, ExecAction::Stop),
{
}

/// Outputs are registered only after a transfer that succeeded and needs no
/// digest check, or after the digest check matched: a mismatching digest
/// never reaches registration.
pub proof fn lemma_outputs_are_registered_only_when_verified(state: ExecState, event: ExecEvent)
    ensures
        spec_execution_step(state, event).1 == ExecAction::RegisterOutputs ==> ((state == ExecState::Transferring
            && (event matches ExecEvent::TransferFinished { succeeded, current, verify_primary } && (succeeded
            && !verify_primary && current != Some(JobStatus::Paused) && current != Some(JobStatus::Cancelled))))
            || (state == ExecState::Verifying && event == ExecEvent::ChecksumChecked { matched: true })),
        spec_execution_step(state, event).0 == ExecState::Registering && state != ExecState::Registering
            ==> spec_execution_step(state, event).1 == ExecAction::RegisterOutputs,
{
}

/// Every failure the run hears of, in the state that waits for it, ends
/// the work: the status is read once more and the run ends. This holds for
/// a failed transfer (unless the job was paused or cancelled meanwhile), a
/// mismatching digest, failed registration and a failed post-action.
pub proof fn lemma_failures_end_the_run(state: ExecState, event: ExecEvent)
    requires
        ({
            ||| state == ExecState::Transferring && (event matches ExecEvent::TransferFinished { succeeded, current, .. }
                && (!succeeded && current != Some(JobStatus::Paused) && current != Some(JobStatus::Cancelled)))
            ||| state == ExecState::Verifying && event == ExecEvent::ChecksumChecked { matched: false }
            ||| state == ExecState::Registering && (event matches ExecEvent::OutputsRegistered { succeeded, .. }
                && !succeeded)
            ||| state is PostProcessing && event == ExecEvent::ActionFinished { succeeded: false }
        }),
    ensures
        spec_execution_step(state, event) == (ExecState::Ending, ExecAction::ReadStatus),
{
}

/// A transfer starts only for a claimed job still marked downloading, and
/// always does for one; the digest is checked only after a transfer that
/// succeeded with a primary file and an expected digest at hand.
pub proof fn lemma_transfer_and_check_start_when_due(state: ExecState, event: ExecEvent)
    ensures
        spec_execution_step(state, event).1 == ExecAction::StartTransfer <==> (state == ExecState::Claimed
            && event == ExecEvent::StatusRead { current: Some(JobStatus::Downloading) }),
        spec_execution_step(state, event).1 == ExecAction::VerifyChecksum <==> (state == ExecState::Transferring
            && (event matches ExecEvent::TransferFinished { succeeded, current, verify_primary } && (succeeded
            && verify_primary && current != Some(JobStatus::Paused) && current != Some(JobStatus::Cancelled)))),
{
}

/// Post-actions run only when registration reported files to process and
/// actions to run; otherwise the outputs go straight to the library index.
pub proof fn lemma_post_actions_run_only_when_there_are_some(files: usize, actions: usize)
    ensures
        spec_execution_step(
            ExecState::Registering,
            ExecEvent::OutputsRegistered { succeeded: true, files, actions },
        ) == if files > 0 && actions > 0 {
            (
                ExecState::PostProcessing { file: 0, action: 0, files, actions },
                ExecAction::RunAction { file: 0, action: 0, journal_index: 0 },
            )
        } else {
            (ExecState::Indexing, ExecAction::IndexLibrary)
        },
{
}

/// What a finished post-action does to the recorded outputs: only
/// extraction and conversion derive a new output (a directory and a
/// converted file); the source's state changes exactly when the action was
/// asked to delete its input; a move relocates, a digest check records the
/// checksum and opening changes nothing.
pub proof fn lemma_action_effects(action: PostAction)
    ensures
        spec_action_effect(action) matches ActionEffect::Derive { output_type, source_state } ==> ({
            &&& action is Extract ==> output_type == OutputType::Directory && (source_state is Some
                <==> action->delete_archive)
            &&& action is ConvertMedia ==> output_type == OutputType::ConvertedFile && (source_state is Some
                <==> action->delete_original)
            &&& (action is Extract || action is ConvertMedia)
        }),
        (action is Extract || action is ConvertMedia) ==> spec_action_effect(action) is Derive,
        action is Move <==> spec_action_effect(action) == ActionEffect::Relocate,
        action is VerifySha256 <==> spec_action_effect(action) == ActionEffect::RecordChecksum,
        action is Open <==> spec_action_effect(action) == ActionEffect::Nothing,
{
}

} // verus!
