//! One-stop post-recording orchestration and stage-aware continuation.
//!
//! Live capture finishes before this coordinator takes ownership. The
//! coordinator performs one action at a time, under one lease, and reports what
//! came of it; what is due next is decided here. Only a stage that had been
//! accepted when it failed leaves a durable failure behind.

use vstd::prelude::*;

use crate::failure;
use crate::failure::Failure;
use crate::session::{
    SessionRecord, SessionView, WorkflowState, PREVIOUS_SESSION_FORMAT_VERSION,
    RECORDING_SESSION_FORMAT_VERSION, SESSION_FORMAT_VERSION,
};
use crate::stage::StageError;
use crate::text;

verus! {

/// What the operator has configured for the stages behind a recording.
#[derive(Debug)]
pub struct PreparedPipeline<T> {
    pub merge_gap_ms: u64,
    pub transcription: T,
}

impl<T> PreparedPipeline<T> {
    /// Take the configuration that was read. A mistake in it refuses the
    /// pipeline before any session is touched; that of the segmentation is
    /// reported first.
    pub fn load(merge_gap_ms: Result<u64, Failure>, transcription: Result<T, Failure>) -> (prepared:
        Result<PreparedPipeline<T>, Failure>)
        ensures
            match prepared {
                Ok(pipeline) => merge_gap_ms == Ok::<u64, Failure>(pipeline.merge_gap_ms)
                    && transcription == Ok::<T, Failure>(pipeline.transcription),
                Err(refusal) => (match merge_gap_ms {
                    Err(mistake) => refusal == mistake,
                    Ok(_) => transcription == Err::<T, Failure>(refusal),
                }),
            },
    {
        match merge_gap_ms {
            Err(mistake) => Err(mistake),
            Ok(merge_gap_ms) => match transcription {
                Err(mistake) => Err(mistake),
                Ok(transcription) => Ok(PreparedPipeline { merge_gap_ms, transcription }),
            },
        }
    }
}

/// The stage a durable failure is filed under.
#[derive(Clone, Copy, Debug, PartialEq, Eq, Structural)]
pub enum StageName {
    WorkManifestBuild,
    Transcription,
}

impl StageName {
    pub open spec fn name(self) -> Seq<char> {
        match self {
            StageName::WorkManifestBuild => "work_manifest_build"@,
            StageName::Transcription => "transcription_orchestration"@,
        }
    }

    pub fn as_str(self) -> (name: &'static str)
        ensures
            name@ == self.name(),
    {
        match self {
            StageName::WorkManifestBuild => "work_manifest_build",
            StageName::Transcription => "transcription_orchestration",
        }
    }
}

/// The action that is due.
#[derive(Clone, Copy, Debug, PartialEq, Eq, Structural)]
pub enum Step {
    /// Load the record of a session that has just been recorded.
    AdmitRecording,
    /// Load the record of a session to be continued.
    Route,
    /// Validate a recording that waited for its operator.
    ValidateRecording,
    /// Load the record of a session that should stand ready.
    AdmitReady,
    /// Build the work manifest.
    BuildWorkItems,
    /// Load the record behind the work manifest.
    AdmitTranscription,
    /// Run the transcription stage.
    Transcribe,
    /// Continue the transcription stage.
    ContinueTranscription,
    /// Load the record behind the transcription.
    ConfirmCompletion,
    /// Load the record to which a stage failure is to be added.
    ReloadAuthority,
    /// Record the stage failure of a session that stands ready.
    PublishFailure,
    /// Record the stage failure of a session that is being transcribed.
    PublishTranscriptionFailure,
    /// Move the session to where an operator may continue it.
    AwaitOperator,
    /// The session is complete.
    Finished,
    /// The pipeline has failed.
    Stopped,
}

impl Step {
    /// Whether the step only reads the session record.
    pub open spec fn loads(self) -> bool {
        self == Step::AdmitRecording || self == Step::Route || self == Step::AdmitReady || self
            == Step::AdmitTranscription || self == Step::ConfirmCompletion || self
            == Step::ReloadAuthority
    }

    /// Whether the step runs a stage of the workflow.
    pub open spec fn runs_stage(self) -> bool {
        self == Step::BuildWorkItems || self == Step::Transcribe || self
            == Step::ContinueTranscription
    }

    /// Whether the step adds a failure to the session record.
    pub open spec fn records(self) -> bool {
        self == Step::PublishFailure || self == Step::PublishTranscriptionFailure || self
            == Step::AwaitOperator
    }

    pub open spec fn ended(self) -> bool {
        self == Step::Finished || self == Step::Stopped
    }
}

/// What came of the action that was due.
#[derive(Debug)]
pub enum Event {
    Done,
    Loaded(Result<SessionRecord, Failure>),
    Failed(Failure),
    StageFailed(StageError<Failure>),
    /// There was no timestamp to record a failure under.
    NoClock(Failure),
}

pub enum EventView {
    Done,
    Loaded(Result<SessionView, Seq<char>>),
    Failed(Seq<char>),
    StageFailed { accepted: bool, source: Seq<char> },
    NoClock(Seq<char>),
}

impl DeepView for Event {
    type V = EventView;

    open spec fn deep_view(&self) -> EventView {
        match self {
            Event::Done => EventView::Done,
            Event::Loaded(loaded) => EventView::Loaded(failure::outcome(*loaded)),
            Event::Failed(cause) => EventView::Failed(cause@),
            Event::StageFailed(error) => EventView::StageFailed {
                accepted: error.spec_accepted(),
                source: error.spec_source()@,
            },
            Event::NoClock(cause) => EventView::NoClock(cause@),
        }
    }
}

pub open spec fn transcription_authority(record: SessionView) -> bool {
    record.files.work_items is Some && record.files.results is Some
}

/// Whether a session declares both its work and its results.
pub fn has_transcription_authority(record: &SessionRecord) -> (result: bool)
    ensures
        result == transcription_authority(record.deep_view()),
{
    record.files.work_items.is_some() && record.files.results.is_some()
}

pub open spec fn loaded_record(
    directory: Seq<char>,
    loaded: Result<SessionView, Seq<char>>,
) -> Result<SessionView, Seq<char>> {
    match loaded {
        Ok(record) => Ok(record),
        Err(cause) => Err(
            failure::because("failed to load workflow state from "@ + directory, cause),
        ),
    }
}

/// The workflow record of a session, or the failure to load it.
pub fn load_record(session_directory: &str, loaded: Result<SessionRecord, Failure>) -> (record:
    Result<SessionRecord, Failure>)
    ensures
        failure::outcome(record) == loaded_record(session_directory@, failure::outcome(loaded)),
{
    match loaded {
        Ok(found) => Ok(found),
        Err(cause) => Err(
            Failure::caused(
                "failed to load workflow state from ".to_owned().concat(session_directory),
                &cause,
            ),
        ),
    }
}

pub open spec fn unix_millis(since_epoch: Result<u128, Failure>) -> Result<u64, Seq<char>> {
    match since_epoch {
        Err(cause) => Err(failure::because("system clock is before Unix epoch"@, cause@)),
        Ok(millis) => if millis > u64::MAX {
            Err(
                failure::because(
                    "Unix timestamp does not fit in u64"@,
                    "out of range integral type conversion attempted"@,
                ),
            )
        } else {
            Ok(millis as u64)
        },
    }
}

/// The timestamp of a stage or a failure, from the milliseconds that the clock
/// is past the Unix epoch, or from why it is not past it.
pub fn unix_millis_now(since_epoch: Result<u128, Failure>) -> (millis: Result<u64, Failure>)
    ensures
        failure::outcome(millis) == unix_millis(since_epoch),
{
    match since_epoch {
        Err(cause) => Err(
            Failure::caused("system clock is before Unix epoch".to_owned(), &cause),
        ),
        Ok(millis) => {
            if millis > u64::MAX as u128 {
                Err(
                    Failure::caused(
                        "Unix timestamp does not fit in u64".to_owned(),
                        &Failure::from_text("out of range integral type conversion attempted"),
                    ),
                )
            } else {
                Ok(millis as u64)
            }
        },
    }
}

/// How a stage failure is added to a session record.
#[derive(Debug)]
pub enum FailureRecording {
    /// The session stands ready: file the failure and wait for the operator.
    Orchestration(String),
    /// The session is being transcribed: file a transcription failure, then
    /// wait for the operator.
    Transcription(String),
    /// The stage has filed its failure itself.
    AlreadyRecorded,
}

pub enum FailureRecordingView {
    Orchestration(Seq<char>),
    Transcription(Seq<char>),
    AlreadyRecorded,
}

impl DeepView for FailureRecording {
    type V = FailureRecordingView;

    open spec fn deep_view(&self) -> FailureRecordingView {
        match self {
            FailureRecording::Orchestration(message) => FailureRecordingView::Orchestration(
                message@,
            ),
            FailureRecording::Transcription(message) => FailureRecordingView::Transcription(
                message@,
            ),
            FailureRecording::AlreadyRecorded => FailureRecordingView::AlreadyRecorded,
        }
    }
}

/// How the failure of an accepted stage is added to the record that stands now,
/// or why it cannot be.
pub open spec fn recording_of(
    stage: StageName,
    source: Seq<char>,
    loaded: Result<WorkflowState, Seq<char>>,
) -> Result<FailureRecordingView, Seq<char>> {
    match loaded {
        Err(cause) => Err(
            failure::because(
                "stage failed ("@ + source
                    + ") and current workflow authority could not be reloaded"@,
                cause,
            ),
        ),
        Ok(state) => match state {
            WorkflowState::ReadyForTranscription => Ok(FailureRecordingView::Orchestration(source)),
            WorkflowState::Transcribing => Ok(
                FailureRecordingView::Transcription(
                    "process=orchestration_failure; stage="@ + stage.name() + "; error="@ + source,
                ),
            ),
            WorkflowState::AwaitingOperator | WorkflowState::TranscriptionFailed => Ok(
                FailureRecordingView::AlreadyRecorded,
            ),
            _ => Err(
                "stage failed ("@ + source + ") after authority unexpectedly reached "@
                    + state.name(),
            ),
        },
    }
}

/// Decide how the failure of an accepted stage is made durable.
pub fn record_accepted_stage_failure(
    stage: StageName,
    source: &str,
    loaded: &Result<WorkflowState, Failure>,
) -> (recording: Result<FailureRecording, Failure>)
    ensures
        failure::outcome(recording) == recording_of(stage, source@, failure::outcome(*loaded)),
{
    match loaded {
        Err(cause) => Err(
            Failure::caused(
                "stage failed (".to_owned().concat(source).concat(
                    ") and current workflow authority could not be reloaded",
                ),
                cause,
            ),
        ),
        Ok(state) => match *state {
            WorkflowState::ReadyForTranscription => Ok(
                FailureRecording::Orchestration(source.to_owned()),
            ),
            WorkflowState::Transcribing => Ok(
                FailureRecording::Transcription(
                    "process=orchestration_failure; stage=".to_owned().concat(
                        stage.as_str(),
                    ).concat("; error=").concat(source),
                ),
            ),
            WorkflowState::AwaitingOperator | WorkflowState::TranscriptionFailed => Ok(
                FailureRecording::AlreadyRecorded,
            ),
            _ => Err(
                Failure::new(
                    "stage failed (".to_owned().concat(source).concat(
                        ") after authority unexpectedly reached ",
                    ).concat(state.as_str()),
                ),
            ),
        },
    }
}

/// The format and state of a record, as a refusal names them.
pub open spec fn standing(record: SessionView) -> Seq<char> {
    text::decimal(record.format as nat) + " state "@ + record.state.name()
}

fn standing_text(record: &SessionRecord) -> (standing: String)
    ensures
        standing@ == self::standing(record.deep_view()),
{
    text::decimal_text(record.format as u64).concat(" state ").concat(record.state.as_str())
}

/// A session that has just been recorded and may enter the pipeline.
pub open spec fn freshly_recorded(record: SessionView) -> bool {
    record.format == RECORDING_SESSION_FORMAT_VERSION && record.state
        == WorkflowState::ReadyForTranscription && record.files.results is None
}

/// A session whose work may be built or transcribed.
pub open spec fn stands_ready(record: SessionView) -> bool {
    record.format <= RECORDING_SESSION_FORMAT_VERSION && record.state
        == WorkflowState::ReadyForTranscription && record.files.results is None
}

/// A session whose published work may be transcribed.
pub open spec fn work_is_published(record: SessionView) -> bool {
    record.state == WorkflowState::ReadyForTranscription && record.files.work_items is Some
        && record.files.results is None
}

/// A recorded session without results, in a format from before transcription.
pub open spec fn untranscribed(record: SessionView) -> bool {
    (record.format == PREVIOUS_SESSION_FORMAT_VERSION || record.format
        == RECORDING_SESSION_FORMAT_VERSION) && record.files.results is None
}

/// The step at which a session is continued, where it can be.
pub open spec fn route(record: SessionView) -> Option<Step> {
    if untranscribed(record) && record.state == WorkflowState::AwaitingOperator {
        Some(Step::ValidateRecording)
    } else if untranscribed(record) && record.state == WorkflowState::ReadyForTranscription {
        Some(Step::AdmitReady)
    } else if record.format == SESSION_FORMAT_VERSION && transcription_authority(record) {
        if record.state == WorkflowState::Transcribing {
            Some(Step::Transcribe)
        } else if record.state == WorkflowState::AwaitingOperator || record.state
            == WorkflowState::TranscriptionFailed {
            Some(Step::ContinueTranscription)
        } else {
            None
        }
    } else {
        None
    }
}

/// Choose the step at which a session is continued.
pub fn choose_route(record: &SessionRecord) -> (step: Option<Step>)
    ensures
        step == route(record.deep_view()),
{
    let untranscribed = (record.format == PREVIOUS_SESSION_FORMAT_VERSION || record.format
        == RECORDING_SESSION_FORMAT_VERSION) && record.files.results.is_none();
    if untranscribed && record.state == WorkflowState::AwaitingOperator {
        Some(Step::ValidateRecording)
    } else if untranscribed && record.state == WorkflowState::ReadyForTranscription {
        Some(Step::AdmitReady)
    } else if record.format == SESSION_FORMAT_VERSION && has_transcription_authority(record) {
        match record.state {
            WorkflowState::Transcribing => Some(Step::Transcribe),
            WorkflowState::AwaitingOperator | WorkflowState::TranscriptionFailed => Some(
                Step::ContinueTranscription,
            ),
            _ => None,
        }
    } else {
        None
    }
}

/// A run of the stages behind a recording.
#[derive(Debug)]
pub struct Pipeline {
    step: Step,
    directory: String,
    stage: StageName,
    source: String,
    message: String,
    report: Failure,
}

pub struct PipelineView {
    pub step: Step,
    pub directory: Seq<char>,
    /// The stage whose failure is being made durable.
    pub stage: StageName,
    /// The failure that is being made durable.
    pub source: Seq<char>,
    /// The words under which it is filed.
    pub message: Seq<char>,
    pub report: Seq<char>,
}

impl DeepView for Pipeline {
    type V = PipelineView;

    closed spec fn deep_view(&self) -> PipelineView {
        PipelineView {
            step: self.step,
            directory: self.directory@,
            stage: self.stage,
            source: self.source@,
            message: self.message@,
            report: self.report@,
        }
    }
}

pub open spec fn pipeline_at(step: Step, directory: Seq<char>) -> PipelineView {
    PipelineView {
        step,
        directory,
        stage: StageName::WorkManifestBuild,
        source: Seq::empty(),
        message: Seq::empty(),
        report: Seq::empty(),
    }
}

impl PipelineView {
    pub open spec fn moved(self, step: Step) -> PipelineView {
        PipelineView { step, ..self }
    }

    pub open spec fn stopped(self, report: Seq<char>) -> PipelineView {
        PipelineView { step: Step::Stopped, report, ..self }
    }

    /// The failure of an accepted stage is to be made durable.
    pub open spec fn accepted(self, stage: StageName, source: Seq<char>) -> PipelineView {
        PipelineView { step: Step::ReloadAuthority, stage, source, ..self }
    }

    /// The failure of the stage is durable.
    pub open spec fn waiting(self) -> PipelineView {
        self.stopped(
            failure::because(
                "one-stop workflow stopped at a safe boundary; session is awaiting operator action"@,
                self.source,
            ),
        )
    }

    /// The stage that the step that is due belongs to.
    pub open spec fn due_stage(self) -> StageName {
        if self.step == Step::BuildWorkItems {
            StageName::WorkManifestBuild
        } else {
            StageName::Transcription
        }
    }

    pub open spec fn answers(self, event: EventView) -> bool {
        match event {
            EventView::Done => !self.step.loads() && !self.step.ended(),
            EventView::Loaded(_) => self.step.loads(),
            EventView::Failed(_) => self.step == Step::ValidateRecording || self.step.records(),
            EventView::StageFailed { .. } => self.step.runs_stage(),
            EventView::NoClock(_) => self.step.records(),
        }
    }

    pub open spec fn after_load(self, loaded: Result<SessionView, Seq<char>>) -> PipelineView {
        if self.step == Step::ReloadAuthority {
            self.after_reload(
                match loaded {
                    Ok(record) => Ok(record.state),
                    Err(cause) => Err(cause),
                },
            )
        } else {
            match loaded_record(self.directory, loaded) {
                Ok(record) => self.after_record(record),
                Err(fault) => match self.step {
                    Step::AdmitTranscription => self.accepted(StageName::WorkManifestBuild, fault),
                    Step::ConfirmCompletion => self.accepted(StageName::Transcription, fault),
                    _ => self.stopped(fault),
                },
            }
        }
    }

    pub open spec fn after_record(self, record: SessionView) -> PipelineView {
        match self.step {
            Step::AdmitRecording => if freshly_recorded(record) {
                self.moved(Step::AdmitReady)
            } else {
                self.stopped(
                    "one-stop post-recording orchestration requires a format-4 ready_for_transcription session without results; found format "@
                        + standing(record),
                )
            },
            Step::Route => match route(record) {
                Some(step) => self.moved(step),
                None => self.stopped(
                    "continue <session> <config> cannot route format "@ + standing(record)
                        + " with the current work/results authority"@,
                ),
            },
            Step::AdmitReady => if !stands_ready(record) {
                self.stopped(
                    "post-recording pipeline requires ready_for_transcription without results; found format "@
                        + standing(record),
                )
            } else if record.files.work_items is None {
                self.moved(Step::BuildWorkItems)
            } else {
                self.moved(Step::AdmitTranscription)
            },
            Step::AdmitTranscription => if work_is_published(record) {
                self.moved(Step::Transcribe)
            } else {
                self.accepted(
                    StageName::WorkManifestBuild,
                    "work-manifest stage did not leave a reusable ready_for_transcription authority"@,
                )
            },
            Step::ConfirmCompletion => if record.state == WorkflowState::Complete {
                self.moved(Step::Finished)
            } else {
                self.accepted(
                    StageName::Transcription,
                    "transcription stage returned successfully without completing session "@
                        + record.session_id + "; found "@ + record.state.name(),
                )
            },
            _ => self,
        }
    }

    pub open spec fn after_reload(self, loaded: Result<WorkflowState, Seq<char>>) -> PipelineView {
        match recording_of(self.stage, self.source, loaded) {
            Err(fault) => self.stopped(fault),
            Ok(recording) => match recording {
                FailureRecordingView::Orchestration(message) => PipelineView {
                    step: Step::PublishFailure,
                    message,
                    ..self
                },
                FailureRecordingView::Transcription(message) => PipelineView {
                    step: Step::PublishTranscriptionFailure,
                    message,
                    ..self
                },
                FailureRecordingView::AlreadyRecorded => self.waiting(),
            },
        }
    }

    pub open spec fn after_failure(self, cause: Seq<char>) -> PipelineView {
        match self.step {
            Step::PublishFailure => self.stopped(
                failure::because(
                    "stage failed and durable awaiting_operator publication also failed"@,
                    cause,
                ),
            ),
            Step::PublishTranscriptionFailure => self.stopped(
                failure::because(
                    "stage failed and durable transcription failure publication also failed"@,
                    cause,
                ),
            ),
            Step::AwaitOperator => self.stopped(
                failure::because(
                    "transcription failure is durable but awaiting_operator publication failed"@,
                    cause,
                ),
            ),
            _ => self.stopped(cause),
        }
    }

    pub open spec fn advanced(self) -> PipelineView {
        match self.step {
            Step::ValidateRecording => self.moved(Step::AdmitReady),
            Step::BuildWorkItems => self.moved(Step::AdmitTranscription),
            Step::Transcribe | Step::ContinueTranscription => self.moved(Step::ConfirmCompletion),
            Step::PublishTranscriptionFailure => self.moved(Step::AwaitOperator),
            Step::PublishFailure | Step::AwaitOperator => self.waiting(),
            _ => self,
        }
    }

    /// The pipeline after an event.
    pub open spec fn after(self, event: EventView) -> PipelineView {
        match event {
            EventView::Done => self.advanced(),
            EventView::Loaded(loaded) => self.after_load(loaded),
            EventView::Failed(cause) => self.after_failure(cause),
            EventView::StageFailed { accepted, source } => if accepted {
                self.accepted(self.due_stage(), source)
            } else {
                self.stopped(source)
            },
            EventView::NoClock(cause) => self.stopped(cause),
        }
    }
}

/// Start the pipeline of a session that has just been recorded.
pub fn run_after_recording(session_directory: &str) -> (pipeline: Pipeline)
    ensures
        pipeline.deep_view() == pipeline_at(Step::AdmitRecording, session_directory@),
{
    Pipeline::start(Step::AdmitRecording, session_directory)
}

/// Continue the pipeline of a session from where its record stands.
pub fn continue_stage_aware(session_directory: &str) -> (pipeline: Pipeline)
    ensures
        pipeline.deep_view() == pipeline_at(Step::Route, session_directory@),
{
    Pipeline::start(Step::Route, session_directory)
}

impl Pipeline {
    fn start(step: Step, session_directory: &str) -> (pipeline: Pipeline)
        ensures
            pipeline.deep_view() == pipeline_at(step, session_directory@),
    {
        Pipeline {
            step,
            directory: session_directory.to_owned(),
            stage: StageName::WorkManifestBuild,
            source: String::new(),
            message: String::new(),
            report: Failure::new(String::new()),
        }
    }

    /// The action that is due.
    pub fn step(&self) -> (step: Step)
        ensures
            step == self.deep_view().step,
    {
        self.step
    }

    /// The stage under which a failure is to be filed.
    pub fn failed_stage(&self) -> (stage: StageName)
        ensures
            stage == self.deep_view().stage,
    {
        self.stage
    }

    /// The words under which a failure is to be filed.
    pub fn failure_message(&self) -> (message: &str)
        ensures
            message@ == self.deep_view().message,
    {
        self.message.as_str()
    }

    fn stop(&mut self, report: Failure)
        ensures
            final(self).deep_view() == old(self).deep_view().stopped(report@),
    {
        self.report = report;
        self.step = Step::Stopped;
    }

    fn accept(&mut self, stage: StageName, source: String)
        ensures
            final(self).deep_view() == old(self).deep_view().accepted(stage, source@),
    {
        self.stage = stage;
        self.source = source;
        self.step = Step::ReloadAuthority;
    }

    fn wait(&mut self)
        ensures
            final(self).deep_view() == old(self).deep_view().waiting(),
    {
        let report = "one-stop workflow stopped at a safe boundary; session is awaiting operator action".to_owned().concat(
        ": ").concat(self.source.as_str());
        self.stop(Failure::new(report));
    }

    fn reloaded(&mut self, loaded: &Result<WorkflowState, Failure>)
        ensures
            final(self).deep_view() == old(self).deep_view().after_reload(
                failure::outcome(*loaded),
            ),
    {
        match record_accepted_stage_failure(self.stage, self.source.as_str(), loaded) {
            Err(fault) => {
                self.stop(fault);
            },
            Ok(recording) => {
                match recording {
                    FailureRecording::Orchestration(message) => {
                        self.message = message;
                        self.step = Step::PublishFailure;
                    },
                    FailureRecording::Transcription(message) => {
                        self.message = message;
                        self.step = Step::PublishTranscriptionFailure;
                    },
                    FailureRecording::AlreadyRecorded => {
                        self.wait();
                    },
                }
            },
        }
    }

    fn loaded(&mut self, loaded: Result<SessionRecord, Failure>)
        ensures
            final(self).deep_view() == old(self).deep_view().after_load(failure::outcome(loaded)),
    {
        if self.step == Step::ReloadAuthority {
            let state = match loaded {
                Ok(record) => Ok(record.state),
                Err(cause) => Err(cause),
            };
            self.reloaded(&state);
            return;
        }
        match load_record(self.directory.as_str(), loaded) {
            Ok(record) => {
                self.weigh(&record);
            },
            Err(fault) => {
                match self.step {
                    Step::AdmitTranscription => {
                        self.accept(StageName::WorkManifestBuild, fault.message);
                    },
                    Step::ConfirmCompletion => {
                        self.accept(StageName::Transcription, fault.message);
                    },
                    _ => {
                        self.stop(fault);
                    },
                }
            },
        }
    }

    fn weigh(&mut self, record: &SessionRecord)
        ensures
            final(self).deep_view() == old(self).deep_view().after_record(record.deep_view()),
    {
        match self.step {
            Step::AdmitRecording => {
                if record.format == RECORDING_SESSION_FORMAT_VERSION && record.state
                    == WorkflowState::ReadyForTranscription && record.files.results.is_none() {
                    self.step = Step::AdmitReady;
                } else {
                    self.stop(
                        Failure::new(
                            "one-stop post-recording orchestration requires a format-4 ready_for_transcription session without results; found format ".to_owned().concat(
                            standing_text(record).as_str()),
                        ),
                    );
                }
            },
            Step::Route => {
                match choose_route(record) {
                    Some(step) => {
                        self.step = step;
                    },
                    None => {
                        self.stop(
                            Failure::new(
                                "continue <session> <config> cannot route format ".to_owned().concat(
                                standing_text(record).as_str()).concat(
                                    " with the current work/results authority",
                                ),
                            ),
                        );
                    },
                }
            },
            Step::AdmitReady => {
                if record.format > RECORDING_SESSION_FORMAT_VERSION || record.state
                    != WorkflowState::ReadyForTranscription || record.files.results.is_some() {
                    self.stop(
                        Failure::new(
                            "post-recording pipeline requires ready_for_transcription without results; found format ".to_owned().concat(
                            standing_text(record).as_str()),
                        ),
                    );
                } else if record.files.work_items.is_none() {
                    self.step = Step::BuildWorkItems;
                } else {
                    self.step = Step::AdmitTranscription;
                }
            },
            Step::AdmitTranscription => {
                if record.state != WorkflowState::ReadyForTranscription
                    || record.files.work_items.is_none() || record.files.results.is_some() {
                    self.accept(
                        StageName::WorkManifestBuild,
                        "work-manifest stage did not leave a reusable ready_for_transcription authority".to_owned(),
                    );
                } else {
                    self.step = Step::Transcribe;
                }
            },
            Step::ConfirmCompletion => {
                if record.state != WorkflowState::Complete {
                    self.accept(
                        StageName::Transcription,
                        "transcription stage returned successfully without completing session ".to_owned().concat(
                        record.session_id.as_str()).concat("; found ").concat(
                            record.state.as_str(),
                        ),
                    );
                } else {
                    self.step = Step::Finished;
                }
            },
            _ => {},
        }
    }

    fn failed(&mut self, cause: Failure)
        ensures
            final(self).deep_view() == old(self).deep_view().after_failure(cause@),
    {
        match self.step {
            Step::PublishFailure => {
                self.stop(
                    Failure::caused(
                        "stage failed and durable awaiting_operator publication also failed".to_owned(),
                        &cause,
                    ),
                );
            },
            Step::PublishTranscriptionFailure => {
                self.stop(
                    Failure::caused(
                        "stage failed and durable transcription failure publication also failed".to_owned(),
                        &cause,
                    ),
                );
            },
            Step::AwaitOperator => {
                self.stop(
                    Failure::caused(
                        "transcription failure is durable but awaiting_operator publication failed".to_owned(),
                        &cause,
                    ),
                );
            },
            _ => {
                self.stop(cause);
            },
        }
    }

    fn advance(&mut self)
        ensures
            final(self).deep_view() == old(self).deep_view().advanced(),
    {
        match self.step {
            Step::ValidateRecording => {
                self.step = Step::AdmitReady;
            },
            Step::BuildWorkItems => {
                self.step = Step::AdmitTranscription;
            },
            Step::Transcribe | Step::ContinueTranscription => {
                self.step = Step::ConfirmCompletion;
            },
            Step::PublishTranscriptionFailure => {
                self.step = Step::AwaitOperator;
            },
            Step::PublishFailure | Step::AwaitOperator => {
                self.wait();
            },
            _ => {},
        }
    }

    /// Take in what came of the action that was due.
    pub fn observe(&mut self, event: Event)
        requires
            old(self).deep_view().answers(event.deep_view()),
        ensures
            final(self).deep_view() == old(self).deep_view().after(event.deep_view()),
    {
        match event {
            Event::Done => {
                self.advance();
            },
            Event::Loaded(loaded) => {
                self.loaded(loaded);
            },
            Event::Failed(cause) => {
                self.failed(cause);
            },
            Event::StageFailed(error) => {
                let stage = match self.step {
                    Step::BuildWorkItems => StageName::WorkManifestBuild,
                    _ => StageName::Transcription,
                };
                if error.was_accepted() {
                    self.accept(stage, error.into_anyhow().message);
                } else {
                    self.stop(error.into_anyhow());
                }
            },
            Event::NoClock(cause) => {
                self.stop(cause);
            },
        }
    }

    /// What a pipeline that has ended came to.
    pub fn conclude(self) -> (result: Result<(), Failure>)
        requires
            self.deep_view().step.ended(),
        ensures
            failure::outcome(result) == (if self.deep_view().step == Step::Finished {
                Ok::<(), Seq<char>>(())
            } else {
                Err(self.deep_view().report)
            }),
    {
        if self.step == Step::Finished {
            Ok(())
        } else {
            Err(self.report)
        }
    }
}

/// How many steps a pipeline may still take.
pub open spec fn remaining(step: Step) -> nat {
    match step {
        Step::AdmitRecording => 11,
        Step::Route => 12,
        Step::ValidateRecording => 11,
        Step::AdmitReady => 10,
        Step::BuildWorkItems => 9,
        Step::AdmitTranscription => 8,
        Step::Transcribe => 7,
        Step::ContinueTranscription => 7,
        Step::ConfirmCompletion => 6,
        Step::ReloadAuthority => 5,
        Step::PublishFailure => 4,
        Step::PublishTranscriptionFailure => 4,
        Step::AwaitOperator => 3,
        Step::Finished => 0,
        Step::Stopped => 0,
    }
}

/// The pipeline behind a course of events.
pub open spec fn course(start: PipelineView, events: Seq<EventView>) -> PipelineView
    decreases events.len(),
{
    if events.len() == 0 {
        start
    } else {
        course(start, events.drop_last()).after(events.last())
    }
}

/// Whether each event of a course answers the step that was due.
pub open spec fn answered(start: PipelineView, events: Seq<EventView>) -> bool
    decreases events.len(),
{
    events.len() > 0 ==> answered(start, events.drop_last()) && course(
        start,
        events.drop_last(),
    ).answers(events.last())
}

/// No pipeline takes more than a dozen actions, whatever comes of them; none is
/// repeated.
pub proof fn pipelines_come_to_an_end(start: PipelineView, events: Seq<EventView>)
    requires
        answered(start, events),
    ensures
        remaining(course(start, events).step) + events.len() <= remaining(start.step) <= 12,
    decreases events.len(),
{
    if events.len() > 0 {
        pipelines_come_to_an_end(start, events.drop_last());
    }
}

/// A refusal, be it of a session record, of a recording or of a stage, ends the
/// pipeline with its own words. Nothing is added to the session record.
pub proof fn refusals_record_nothing(pipeline: PipelineView, event: EventView)
    requires
        pipeline.answers(event),
    ensures
        event matches EventView::StageFailed { accepted, source } ==> !accepted ==> pipeline.after(
            event,
        ) == pipeline.stopped(source),
        pipeline.step == Step::ValidateRecording ==> (event matches EventView::Failed(cause)
            ==> pipeline.after(event) == pipeline.stopped(cause)),
        pipeline.step == Step::AdmitRecording || pipeline.step == Step::Route || pipeline.step
            == Step::AdmitReady ==> pipeline.after(event).step != Step::ReloadAuthority
            && !pipeline.after(event).step.records(),
{
}

/// A failure is recorded only where a stage had been accepted: one that says so
/// of itself, or one that left the session record other than it should.
pub proof fn only_accepted_failures_are_recorded(pipeline: PipelineView, event: EventView)
    requires
        pipeline.answers(event),
    ensures
        pipeline.after(event).step.records() ==> pipeline.step == Step::ReloadAuthority
            || pipeline.step == Step::PublishTranscriptionFailure,
        pipeline.after(event).step == Step::ReloadAuthority ==> {
            ||| (pipeline.step.runs_stage() && event is StageFailed
                && event->StageFailed_accepted)
            ||| (pipeline.step == Step::AdmitTranscription && !(event->Loaded_0 is Ok
                && work_is_published(event->Loaded_0->Ok_0)))
            ||| (pipeline.step == Step::ConfirmCompletion && !(event->Loaded_0 is Ok
                && event->Loaded_0->Ok_0.state == WorkflowState::Complete))
        },
{
}

/// The failure of an accepted stage is filed under that stage before the
/// operator is told that the session waits.
pub proof fn accepted_failures_are_recorded(
    pipeline: PipelineView,
    source: Seq<char>,
    record: SessionView,
)
    requires
        pipeline.step.runs_stage(),
        record.state == WorkflowState::ReadyForTranscription || record.state
            == WorkflowState::Transcribing || record.state == WorkflowState::AwaitingOperator
            || record.state == WorkflowState::TranscriptionFailed,
    ensures
        ({
            let failed = pipeline.after(EventView::StageFailed { accepted: true, source }).after(
                EventView::Loaded(Ok(record)),
            );
            let told = failure::because(
                "one-stop workflow stopped at a safe boundary; session is awaiting operator action"@,
                source,
            );
            &&& failed.stage == pipeline.due_stage()
            &&& record.state == WorkflowState::ReadyForTranscription ==> {
                &&& failed.step == Step::PublishFailure
                &&& failed.message == source
                &&& failed.after(EventView::Done) == failed.stopped(told)
            }
            &&& record.state == WorkflowState::Transcribing ==> {
                &&& failed.step == Step::PublishTranscriptionFailure
                &&& failed.after(EventView::Done).step == Step::AwaitOperator
                &&& failed.after(EventView::Done).after(EventView::Done) == failed.stopped(told)
            }
            &&& record.state == WorkflowState::AwaitingOperator || record.state
                == WorkflowState::TranscriptionFailed ==> failed == failed.stopped(told)
        }),
{
}

/// Transcription is entered only from a record that has just been loaded and
/// that declares published work.
pub proof fn transcription_needs_published_work(pipeline: PipelineView, event: EventView)
    requires
        pipeline.answers(event),
        pipeline.after(event).step == Step::Transcribe || pipeline.after(event).step
            == Step::ContinueTranscription,
    ensures
        event matches EventView::Loaded(Ok(record)) && record.files.work_items is Some,
        pipeline.step == Step::AdmitTranscription || pipeline.step == Step::Route,
{
}

/// A pipeline ends well only when the record that it loaded last is complete.
pub proof fn success_is_a_complete_session(pipeline: PipelineView, event: EventView)
    requires
        pipeline.answers(event),
        pipeline.after(event).step == Step::Finished,
    ensures
        pipeline.step == Step::ConfirmCompletion,
        event matches EventView::Loaded(Ok(record)) && record.state == WorkflowState::Complete,
{
}

/// A complete session is never taken up again: whichever way it is offered, no
/// stage runs and nothing is recorded.
pub proof fn complete_sessions_are_left_alone(pipeline: PipelineView, record: SessionView)
    requires
        pipeline.step == Step::AdmitRecording || pipeline.step == Step::Route || pipeline.step
            == Step::AdmitReady,
        record.state == WorkflowState::Complete,
    ensures
        pipeline.after(EventView::Loaded(Ok(record))).step == Step::Stopped,
{
}

/// A work manifest that is published already is transcribed as it is.
pub proof fn published_work_is_reused(pipeline: PipelineView, record: SessionView)
    requires
        pipeline.step == Step::AdmitReady,
        stands_ready(record),
        record.files.work_items is Some,
    ensures
        pipeline.after(EventView::Loaded(Ok(record))).step == Step::AdmitTranscription,
        pipeline.after(EventView::Loaded(Ok(record))).after(EventView::Loaded(Ok(record))).step
            == Step::Transcribe,
{
}

} // verus!
