//! The course of a transcription once its session has been accepted.
//!
//! The coordinator performs one action at a time and reports what came of it.
//! From here on every failure is a durable workflow fault.

use vstd::prelude::*;

use crate::failure;
use crate::failure::Failure;
use crate::resume::ResumePlan;
use crate::session::WorkflowState;
use crate::stage;
use crate::stage::StageError;
use crate::text;
use crate::worker;
use crate::worker::AttemptVerdict;

verus! {

/// The action that is due.
#[derive(Clone, Copy, Debug, PartialEq, Eq, Structural)]
pub enum Step {
    /// Publish an empty results file.
    PrepareResults,
    /// Record that transcription has started.
    PublishStart,
    /// Validate the committed results.
    ReadCommitted,
    /// Move a failed session to where an operator may continue it.
    EnterWaiting,
    /// Record the boundary at which to resume.
    RecordBoundary,
    /// Cut the results back to the boundary.
    RewindResults,
    /// Render the partial transcript of the results that are kept.
    RenderKept,
    /// Record that the boundary was carried out.
    ApplyBoundary,
    /// Run the worker and judge what it left.
    RunWorker,
    /// Record the failed attempt.
    PublishFailure,
    /// Move the session to where an operator may continue it.
    AwaitOperator,
    /// Render the transcript of all results.
    RenderAll,
    /// Publish the transcript under its final name.
    PublishTranscript,
    /// Record that the session is complete.
    PublishCompletion,
    /// The session is complete.
    Finished,
    /// The run has failed.
    Stopped,
}

/// What came of the action that was due.
#[derive(Debug)]
pub enum Event {
    Done,
    Failed(Failure),
    /// There was no timestamp to record the action under.
    NoClock(Failure),
    /// The committed results were validated; so many stand.
    Committed(usize),
    /// The worker ended and its attempt was judged.
    Judged(AttemptVerdict),
}

/// A run of the transcription stage.
#[derive(Debug)]
pub struct Flow {
    step: Step,
    resume: Option<ResumePlan>,
    start_sequence: u64,
    failure_message: String,
    diagnostic: String,
    report: Failure,
}

pub struct FlowView {
    pub step: Step,
    pub resume: Option<ResumePlan>,
    pub start_sequence: u64,
    pub failure_message: Seq<char>,
    pub diagnostic: Seq<char>,
    pub report: Seq<char>,
}

pub enum EventView {
    Done,
    Failed(Seq<char>),
    NoClock(Seq<char>),
    Committed(nat),
    Judged(worker::VerdictView),
}

impl DeepView for Event {
    type V = EventView;

    open spec fn deep_view(&self) -> EventView {
        match self {
            Event::Done => EventView::Done,
            Event::Failed(cause) => EventView::Failed(cause@),
            Event::NoClock(cause) => EventView::NoClock(cause@),
            Event::Committed(count) => EventView::Committed(*count as nat),
            Event::Judged(verdict) => EventView::Judged(verdict.deep_view()),
        }
    }
}

impl DeepView for Flow {
    type V = FlowView;

    closed spec fn deep_view(&self) -> FlowView {
        FlowView {
            step: self.step,
            resume: self.resume,
            start_sequence: self.start_sequence,
            failure_message: self.failure_message@,
            diagnostic: self.diagnostic@,
            report: self.report@,
        }
    }
}

/// A run that is due to take a step.
pub open spec fn flow_at(step: Step, resume: Option<ResumePlan>, start_sequence: u64) -> FlowView {
    FlowView {
        step,
        resume,
        start_sequence,
        failure_message: Seq::empty(),
        diagnostic: Seq::empty(),
        report: Seq::empty(),
    }
}

/// Where a run starts: a session that stands ready begins with empty results,
/// one that was interrupted with those it has.
pub open spec fn begun(state: WorkflowState) -> FlowView {
    flow_at(
        if state == WorkflowState::ReadyForTranscription {
            Step::PrepareResults
        } else {
            Step::ReadCommitted
        },
        None,
        0,
    )
}

/// Where a continued run starts: a failed session is first moved to where it
/// may be continued, and a boundary that is not yet recorded is recorded.
pub open spec fn continued(state: WorkflowState, plan: ResumePlan) -> FlowView {
    flow_at(
        if state == WorkflowState::TranscriptionFailed {
            Step::EnterWaiting
        } else if !plan.previously_prepared {
            Step::RecordBoundary
        } else {
            Step::RewindResults
        },
        Some(plan),
        plan.sequence,
    )
}

impl FlowView {
    /// Only a continued run has a boundary, and only it records, rewinds to or
    /// applies one.
    pub open spec fn wf(self) -> bool {
        match self.step {
            Step::PrepareResults | Step::PublishStart | Step::ReadCommitted => self.resume is None,
            Step::EnterWaiting
            | Step::RecordBoundary
            | Step::RewindResults
            | Step::ApplyBoundary => self.resume is Some,
            _ => true,
        }
    }

    pub open spec fn moved(self, step: Step) -> FlowView {
        FlowView { step, ..self }
    }

    pub open spec fn stopped(self, report: Seq<char>) -> FlowView {
        FlowView { step: Step::Stopped, report, ..self }
    }

    /// The sentence with which a failed action stops the run.
    pub open spec fn failed(self, cause: Seq<char>) -> Seq<char> {
        match self.step {
            Step::PublishStart => failure::because(
                "results authority was prepared but session.json could not start transcription"@,
                cause,
            ),
            Step::EnterWaiting => failure::because(
                "failed to publish awaiting_operator for transcription continuation"@,
                cause,
            ),
            Step::RecordBoundary => failure::because(
                "failed to record prepared transcription resume sequence "@ + text::decimal(
                    self.start_sequence as nat,
                ),
                cause,
            ),
            Step::ApplyBoundary => failure::because(
                "results were rewound to sequence "@ + text::decimal(self.start_sequence as nat)
                    + " but the applied resume state was not published"@,
                cause,
            ),
            Step::PublishFailure => worker::failure_report(self.diagnostic, Err(cause), Ok(())),
            Step::AwaitOperator => worker::failure_report(self.diagnostic, Ok(()), Err(cause)),
            Step::PublishCompletion => failure::because(
                "final transcript was published but session completion state was not"@,
                cause,
            ),
            _ => cause,
        }
    }

    /// The step behind one that went well.
    pub open spec fn advanced(self) -> FlowView {
        match self.step {
            Step::PrepareResults => self.moved(Step::PublishStart),
            Step::PublishStart => self.moved(Step::ReadCommitted),
            Step::EnterWaiting => if self.resume matches Some(plan) && plan.previously_prepared {
                self.moved(Step::RewindResults)
            } else {
                self.moved(Step::RecordBoundary)
            },
            Step::RecordBoundary => self.moved(Step::RewindResults),
            Step::RewindResults => self.moved(Step::RenderKept),
            Step::RenderKept => if self.resume is Some {
                self.moved(Step::ApplyBoundary)
            } else {
                self.moved(Step::RunWorker)
            },
            Step::ApplyBoundary => self.moved(Step::RunWorker),
            Step::PublishFailure => self.moved(Step::AwaitOperator),
            Step::AwaitOperator => self.stopped(
                worker::failure_report(self.diagnostic, Ok(()), Ok(())),
            ),
            Step::RenderAll => self.moved(Step::PublishTranscript),
            Step::PublishTranscript => self.moved(Step::PublishCompletion),
            Step::PublishCompletion => self.moved(Step::Finished),
            _ => self,
        }
    }

    /// Whether the step that is due writes the session record, and so needs a
    /// timestamp.
    pub open spec fn timed(self) -> bool {
        match self.step {
            Step::PublishStart
            | Step::EnterWaiting
            | Step::RecordBoundary
            | Step::ApplyBoundary
            | Step::PublishFailure
            | Step::AwaitOperator
            | Step::PublishCompletion => true,
            _ => false,
        }
    }

    /// Whether an event can be the answer to the step that is due.
    pub open spec fn answers(self, event: EventView) -> bool {
        match event {
            EventView::Done => self.step != Step::ReadCommitted && self.step != Step::RunWorker
                && self.step != Step::Finished && self.step != Step::Stopped,
            EventView::Failed(_) => self.step != Step::Finished && self.step != Step::Stopped,
            EventView::NoClock(_) => self.timed(),
            EventView::Committed(count) => self.step == Step::ReadCommitted && count < u64::MAX,
            EventView::Judged(_) => self.step == Step::RunWorker,
        }
    }

    /// The run after an event.
    pub open spec fn after(self, event: EventView) -> FlowView {
        match event {
            EventView::Done => self.advanced(),
            EventView::Failed(cause) => self.stopped(self.failed(cause)),
            EventView::NoClock(cause) => self.stopped(cause),
            EventView::Committed(count) => FlowView {
                step: Step::RenderKept,
                start_sequence: (count + 1) as u64,
                ..self
            },
            EventView::Judged(verdict) => match verdict {
                worker::VerdictView::Complete => self.moved(Step::RenderAll),
                worker::VerdictView::Failed { message, diagnostic } => FlowView {
                    step: Step::PublishFailure,
                    failure_message: message,
                    diagnostic,
                    ..self
                },
            },
        }
    }
}

impl Flow {
    /// Start a run of a session that may be transcribed.
    pub fn begin(state: WorkflowState) -> (flow: Flow)
        ensures
            flow.deep_view() == begun(state),
            flow.deep_view().wf(),
    {
        let step = if state == WorkflowState::ReadyForTranscription {
            Step::PrepareResults
        } else {
            Step::ReadCommitted
        };
        Flow {
            step,
            resume: None,
            start_sequence: 0,
            failure_message: String::new(),
            diagnostic: String::new(),
            report: Failure::new(String::new()),
        }
    }

    /// Continue a run of a session that stopped, by a plan.
    pub fn resume(state: WorkflowState, plan: ResumePlan) -> (flow: Flow)
        ensures
            flow.deep_view() == continued(state, plan),
            flow.deep_view().wf(),
    {
        let step = if state == WorkflowState::TranscriptionFailed {
            Step::EnterWaiting
        } else if !plan.previously_prepared {
            Step::RecordBoundary
        } else {
            Step::RewindResults
        };
        Flow {
            step,
            resume: Some(plan),
            start_sequence: plan.sequence,
            failure_message: String::new(),
            diagnostic: String::new(),
            report: Failure::new(String::new()),
        }
    }

    /// The action that is due.
    pub fn step(&self) -> (step: Step)
        ensures
            step == self.deep_view().step,
    {
        self.step
    }

    /// The sequence at which the worker starts.
    pub fn start_sequence(&self) -> (sequence: u64)
        ensures
            sequence == self.deep_view().start_sequence,
    {
        self.start_sequence
    }

    /// The failure to record for a failed attempt.
    pub fn failure_message(&self) -> (message: &str)
        ensures
            message@ == self.deep_view().failure_message,
    {
        self.failure_message.as_str()
    }

    fn failed_report(&self, cause: Failure) -> (report: Failure)
        ensures
            report@ == self.deep_view().failed(cause@),
    {
        match self.step {
            Step::PublishStart => Failure::caused(
                "results authority was prepared but session.json could not start transcription".to_owned(),
                &cause,
            ),
            Step::EnterWaiting => Failure::caused(
                "failed to publish awaiting_operator for transcription continuation".to_owned(),
                &cause,
            ),
            Step::RecordBoundary => Failure::caused(
                "failed to record prepared transcription resume sequence ".to_owned().concat(
                    text::decimal_text(self.start_sequence).as_str(),
                ),
                &cause,
            ),
            Step::ApplyBoundary => Failure::caused(
                "results were rewound to sequence ".to_owned().concat(
                    text::decimal_text(self.start_sequence).as_str(),
                ).concat(" but the applied resume state was not published"),
                &cause,
            ),
            Step::PublishFailure => worker::publish_transcription_failure_and_wait(
                self.diagnostic.as_str(),
                &Err(cause),
                &Ok(()),
            ),
            Step::AwaitOperator => worker::publish_transcription_failure_and_wait(
                self.diagnostic.as_str(),
                &Ok(()),
                &Err(cause),
            ),
            Step::PublishCompletion => Failure::caused(
                "final transcript was published but session completion state was not".to_owned(),
                &cause,
            ),
            _ => cause,
        }
    }

    fn advance(&mut self)
        ensures
            final(self).deep_view() == old(self).deep_view().advanced(),
    {
        match self.step {
            Step::PrepareResults => {
                self.step = Step::PublishStart;
            },
            Step::PublishStart => {
                self.step = Step::ReadCommitted;
            },
            Step::EnterWaiting => {
                let recorded = match self.resume {
                    Some(plan) => plan.previously_prepared,
                    None => false,
                };
                if recorded {
                    self.step = Step::RewindResults;
                } else {
                    self.step = Step::RecordBoundary;
                }
            },
            Step::RecordBoundary => {
                self.step = Step::RewindResults;
            },
            Step::RewindResults => {
                self.step = Step::RenderKept;
            },
            Step::RenderKept => {
                if self.resume.is_some() {
                    self.step = Step::ApplyBoundary;
                } else {
                    self.step = Step::RunWorker;
                }
            },
            Step::ApplyBoundary => {
                self.step = Step::RunWorker;
            },
            Step::PublishFailure => {
                self.step = Step::AwaitOperator;
            },
            Step::AwaitOperator => {
                self.report = worker::publish_transcription_failure_and_wait(
                    self.diagnostic.as_str(),
                    &Ok(()),
                    &Ok(()),
                );
                self.step = Step::Stopped;
            },
            Step::RenderAll => {
                self.step = Step::PublishTranscript;
            },
            Step::PublishTranscript => {
                self.step = Step::PublishCompletion;
            },
            Step::PublishCompletion => {
                self.step = Step::Finished;
            },
            _ => {},
        }
    }

    /// Take in what came of the action that was due.
    pub fn observe(&mut self, event: Event)
        requires
            old(self).deep_view().answers(event.deep_view()),
        ensures
            final(self).deep_view() == old(self).deep_view().after(event.deep_view()),
            old(self).deep_view().wf() ==> final(self).deep_view().wf(),
    {
        match event {
            Event::Done => {
                self.advance();
            },
            Event::Failed(cause) => {
                self.report = self.failed_report(cause);
                self.step = Step::Stopped;
            },
            Event::NoClock(cause) => {
                self.report = cause;
                self.step = Step::Stopped;
            },
            Event::Committed(count) => {
                self.start_sequence = count as u64 + 1;
                self.step = Step::RenderKept;
            },
            Event::Judged(verdict) => {
                match verdict {
                    AttemptVerdict::Complete => {
                        self.step = Step::RenderAll;
                    },
                    AttemptVerdict::Failed { message, diagnostic } => {
                        self.failure_message = message;
                        self.diagnostic = diagnostic;
                        self.step = Step::PublishFailure;
                    },
                }
            },
        }
    }

    /// What a run that has ended came to. Every failure counts as one of an
    /// accepted stage.
    pub fn conclude(self) -> (result: Result<(), StageError<Failure>>)
        requires
            self.deep_view().step == Step::Finished || self.deep_view().step == Step::Stopped,
        ensures
            stage::staged(result) == (if self.deep_view().step == Step::Finished {
                Ok::<(), (bool, Seq<char>)>(())
            } else {
                Err((true, self.deep_view().report))
            }),
    {
        if self.step == Step::Finished {
            Ok(())
        } else {
            Err(StageError::accepted(self.report))
        }
    }
}

/// How many steps a run may still take.
pub open spec fn remaining(step: Step) -> nat {
    match step {
        Step::PrepareResults => 12,
        Step::EnterWaiting => 11,
        Step::PublishStart => 11,
        Step::ReadCommitted => 10,
        Step::RecordBoundary => 10,
        Step::RewindResults => 9,
        Step::RenderKept => 8,
        Step::ApplyBoundary => 7,
        Step::RunWorker => 6,
        Step::PublishFailure => 5,
        Step::AwaitOperator => 4,
        Step::RenderAll => 3,
        Step::PublishTranscript => 2,
        Step::PublishCompletion => 1,
        Step::Finished => 0,
        Step::Stopped => 0,
    }
}

/// Every answered step brings a run nearer to its end; no action is repeated.
pub proof fn runs_come_to_an_end(flow: FlowView, event: EventView)
    requires
        flow.answers(event),
    ensures
        remaining(flow.after(event).step) < remaining(flow.step),
{
}

/// The worker is launched in a continued run only when its boundary has just
/// been recorded as carried out, and in a first run only when the partial
/// transcript of the kept results has just been rendered.
pub proof fn worker_follows_its_boundary(flow: FlowView, event: EventView)
    requires
        flow.wf(),
        flow.answers(event),
        flow.after(event).step == Step::RunWorker,
    ensures
        event == EventView::Done,
        flow.resume is Some ==> flow.step == Step::ApplyBoundary,
        flow.resume is None ==> flow.step == Step::RenderKept,
{
}

/// Results are rewound only when the boundary is on record, and the boundary
/// counts as applied only when results and partial transcript have been cut
/// back to it.
pub proof fn rewinding_is_recorded_first(flow: FlowView, event: EventView)
    requires
        flow.answers(event),
    ensures
        flow.after(event).step == Step::RewindResults ==> flow.step == Step::RecordBoundary || (
        flow.step == Step::EnterWaiting && flow.resume->0.previously_prepared),
        flow.after(event).step == Step::ApplyBoundary ==> flow.step == Step::RenderKept
            && flow.resume is Some,
{
}

/// A session becomes complete only behind a judged attempt with every result:
/// its transcript is rendered, then published, then the completion recorded.
pub proof fn completion_follows_a_complete_attempt(flow: FlowView, event: EventView)
    requires
        flow.answers(event),
    ensures
        flow.after(event).step == Step::Finished ==> flow.step == Step::PublishCompletion,
        flow.after(event).step == Step::PublishCompletion ==> flow.step
            == Step::PublishTranscript,
        flow.after(event).step == Step::PublishTranscript ==> flow.step == Step::RenderAll,
        flow.after(event).step == Step::RenderAll ==> event == EventView::Judged(
            worker::VerdictView::Complete,
        ),
{
}

/// A failed attempt is recorded before the session waits for its operator, and
/// no failed attempt ends as a complete session.
pub proof fn failed_attempts_are_recorded(
    flow: FlowView,
    message: Seq<char>,
    diagnostic: Seq<char>,
    recorded: EventView,
    waiting: EventView,
)
    requires
        flow.step == Step::RunWorker,
        recorded == EventView::Done || recorded is Failed || recorded is NoClock,
        waiting == EventView::Done || waiting is Failed || waiting is NoClock,
    ensures
        ({
            let failed = flow.after(
                EventView::Judged(worker::VerdictView::Failed { message, diagnostic }),
            );
            let next = failed.after(recorded);
            &&& failed.step == Step::PublishFailure
            &&& failed.failure_message == message
            &&& recorded != EventView::Done ==> next.step == Step::Stopped
            &&& recorded == EventView::Done ==> next.step == Step::AwaitOperator && next.after(
                waiting,
            ).step == Step::Stopped
        }),
{
}

} // verus!
