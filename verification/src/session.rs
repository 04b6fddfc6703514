//! The workflow record of a session, as the stages read it.

use vstd::prelude::*;

use crate::failure::Failure;

verus! {

pub const LEGACY_SESSION_FORMAT_VERSION: u16 = 2;

pub const PREVIOUS_SESSION_FORMAT_VERSION: u16 = 3;

pub const RECORDING_SESSION_FORMAT_VERSION: u16 = 4;

pub const SESSION_FORMAT_VERSION: u16 = 5;

pub const LEGACY_EVENT_FORMAT_VERSION: u16 = 1;

pub const EVENT_FORMAT_VERSION: u16 = 2;

pub const PACKET_JOURNAL_FORMAT_VERSION: u16 = 1;

pub const LEGACY_PLAYOUT_JOURNAL_FORMAT_VERSION: u16 = 1;

pub const PLAYOUT_JOURNAL_FORMAT_VERSION: u16 = 2;

/// Where a session stands in the workflow.
#[derive(Clone, Copy, Debug, PartialEq, Eq, Structural)]
pub enum WorkflowState {
    Recording,
    RecordedClean,
    RecordedIncomplete,
    ReadyForTranscription,
    AwaitingOperator,
    Transcribing,
    TranscriptionFailed,
    Complete,
}

impl DeepView for WorkflowState {
    type V = WorkflowState;

    open spec fn deep_view(&self) -> WorkflowState {
        *self
    }
}

impl WorkflowState {
    pub open spec fn name(self) -> Seq<char> {
        match self {
            WorkflowState::Recording => "recording"@,
            WorkflowState::RecordedClean => "recorded_clean"@,
            WorkflowState::RecordedIncomplete => "recorded_incomplete"@,
            WorkflowState::ReadyForTranscription => "ready_for_transcription"@,
            WorkflowState::AwaitingOperator => "awaiting_operator"@,
            WorkflowState::Transcribing => "transcribing"@,
            WorkflowState::TranscriptionFailed => "transcription_failed"@,
            WorkflowState::Complete => "complete"@,
        }
    }

    /// The name under which the workflow record stores the state.
    pub fn as_str(self) -> (name: &'static str)
        ensures
            name@ == self.name(),
    {
        match self {
            WorkflowState::Recording => "recording",
            WorkflowState::RecordedClean => "recorded_clean",
            WorkflowState::RecordedIncomplete => "recorded_incomplete",
            WorkflowState::ReadyForTranscription => "ready_for_transcription",
            WorkflowState::AwaitingOperator => "awaiting_operator",
            WorkflowState::Transcribing => "transcribing",
            WorkflowState::TranscriptionFailed => "transcription_failed",
            WorkflowState::Complete => "complete",
        }
    }
}

/// An artefact of the session: where it lies and in which format.
#[derive(Debug)]
pub struct FileDescription {
    pub path: String,
    pub format: u16,
}

pub struct FileView {
    pub path: Seq<char>,
    pub format: u16,
}

impl DeepView for FileDescription {
    type V = FileView;

    open spec fn deep_view(&self) -> FileView {
        FileView { path: self.path@, format: self.format }
    }
}

/// The artefacts a session record declares.
#[derive(Debug)]
pub struct SessionFiles {
    pub packets: FileDescription,
    pub playout: FileDescription,
    pub events: FileDescription,
    pub participants: FileDescription,
    pub tracks: FileDescription,
    pub work_items: Option<FileDescription>,
    pub results: Option<FileDescription>,
    pub transcript: Option<FileDescription>,
}

pub struct SessionFilesView {
    pub packets: FileView,
    pub playout: FileView,
    pub events: FileView,
    pub participants: FileView,
    pub tracks: FileView,
    pub work_items: Option<FileView>,
    pub results: Option<FileView>,
    pub transcript: Option<FileView>,
}

impl DeepView for SessionFiles {
    type V = SessionFilesView;

    open spec fn deep_view(&self) -> SessionFilesView {
        SessionFilesView {
            packets: self.packets.deep_view(),
            playout: self.playout.deep_view(),
            events: self.events.deep_view(),
            participants: self.participants.deep_view(),
            tracks: self.tracks.deep_view(),
            work_items: self.work_items.deep_view(),
            results: self.results.deep_view(),
            transcript: self.transcript.deep_view(),
        }
    }
}

/// A durable step the workflow has taken.
#[derive(Debug)]
pub struct CheckpointRecord {
    pub completed_at_unix_millis: u64,
    pub stage: String,
}

pub struct CheckpointView {
    pub completed_at_unix_millis: u64,
    pub stage: Seq<char>,
}

impl DeepView for CheckpointRecord {
    type V = CheckpointView;

    open spec fn deep_view(&self) -> CheckpointView {
        CheckpointView {
            completed_at_unix_millis: self.completed_at_unix_millis,
            stage: self.stage@,
        }
    }
}

/// A fault the workflow has met, and the state it was met in.
#[derive(Debug)]
pub struct FailureRecord {
    pub state: WorkflowState,
    pub kind: String,
    pub message: String,
}

pub struct FailureView {
    pub state: WorkflowState,
    pub kind: Seq<char>,
    pub message: Seq<char>,
}

impl DeepView for FailureRecord {
    type V = FailureView;

    open spec fn deep_view(&self) -> FailureView {
        FailureView { state: self.state, kind: self.kind@, message: self.message@ }
    }
}

/// The workflow authority of a session.
#[derive(Debug)]
pub struct SessionRecord {
    pub format: u16,
    pub session_id: String,
    pub state: WorkflowState,
    pub files: SessionFiles,
    pub checkpoints: Vec<CheckpointRecord>,
    pub failures: Vec<FailureRecord>,
}

pub struct SessionView {
    pub format: u16,
    pub session_id: Seq<char>,
    pub state: WorkflowState,
    pub files: SessionFilesView,
    pub checkpoints: Seq<CheckpointView>,
    pub failures: Seq<FailureView>,
}

impl DeepView for SessionRecord {
    type V = SessionView;

    open spec fn deep_view(&self) -> SessionView {
        SessionView {
            format: self.format,
            session_id: self.session_id@,
            state: self.state,
            files: self.files.deep_view(),
            checkpoints: self.checkpoints.deep_view(),
            failures: self.failures.deep_view(),
        }
    }
}

/// What the file system says of an artefact.
#[derive(Debug)]
pub struct InspectedFile {
    /// The location shown to the operator.
    pub location: String,
    pub kind: FileKind,
}

#[derive(Debug)]
pub enum FileKind {
    Regular,
    Other,
    /// It could not be inspected, for a reason.
    Unreadable(Failure),
}

} // verus!
