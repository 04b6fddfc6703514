//! Complete, atomic replacement transcription for a healthy completed session.
//!
//! A replacement is built in an unreferenced generation directory. Only a
//! final atomic replacement of the session record makes the manifest, results
//! and readable transcript authoritative together.

use vstd::prelude::*;

use crate::failure;
use crate::failure::Failure;
use crate::results::{ResultAuthorityFailure, ResultView, TranscriptionResult};
use crate::session::{SessionRecord, SessionView, WorkflowState};
use crate::text;
use crate::transcription;
use crate::transcription::RecordFile;
use crate::work_items::{WorkItem, WorkItemView};
use crate::worker;
use crate::worker::{AttemptVerdict, VerdictView, WorkerOutcome};

verus! {

/// Where generations lie below a session.
pub const RETRANSCRIPTION_DIRECTORY: &'static str = "transcription/retranscriptions";

pub const FINAL_TRANSCRIPT_FILE_NAME: &'static str = "transcript.txt";

/// What the file system says of the directory that holds the generations.
#[derive(Debug)]
pub struct GenerationRoot {
    /// The directory, as it is shown to the operator.
    pub location: String,
    /// The directory behind its links, as it is shown to the operator.
    pub resolved: String,
    /// Whether it is a directory itself, and no link to one.
    pub real_directory: bool,
    /// Whether what it resolves to lies below the session.
    pub below_session: bool,
}

/// The number that a name in the generation directory stands for; a name that
/// is no text or no number stands for none.
pub open spec fn generation_number(name: Option<Seq<char>>) -> Option<u64> {
    match name {
        Some(characters) => text::parsed_u64(characters),
        None => None,
    }
}

/// The largest number among names, or zero.
pub open spec fn largest_generation(names: Seq<Option<Seq<char>>>) -> u64
    decreases names.len(),
{
    if names.len() == 0 {
        0
    } else {
        let before = largest_generation(names.drop_last());
        match generation_number(names.last()) {
            Some(number) if number > before => number,
            _ => before,
        }
    }
}

/// The name of the next generation in the directory that holds them, or why
/// there is none.
pub open spec fn next_generation(root: GenerationRoot, names: Seq<Option<Seq<char>>>) -> Result<
    Seq<char>,
    Seq<char>,
> {
    if !root.real_directory {
        Err("retranscription generation root "@ + root.location@ + " is not a real directory"@)
    } else if !root.below_session {
        Err(
            "retranscription generation root "@ + root.resolved@
                + " escapes the session directory"@,
        )
    } else if largest_generation(names) == u64::MAX {
        Err("retranscription generation number overflow"@)
    } else {
        Ok(text::zero_padded((largest_generation(names) + 1) as nat, 6))
    }
}

/// Choose the name of the next generation's directory from the names of those
/// there are.
pub fn next_generation_directory(root: &GenerationRoot, names: &Vec<Option<String>>) -> (directory:
    Result<String, Failure>)
    ensures
        failure::outcome(directory) == next_generation(*root, names.deep_view()),
{
    if !root.real_directory {
        return Err(
            Failure::new(
                "retranscription generation root ".to_owned().concat(
                    root.location.as_str(),
                ).concat(" is not a real directory"),
            ),
        );
    }
    if !root.below_session {
        return Err(
            Failure::new(
                "retranscription generation root ".to_owned().concat(
                    root.resolved.as_str(),
                ).concat(" escapes the session directory"),
            ),
        );
    }
    let ghost views = names.deep_view();
    let mut maximum: u64 = 0;
    let mut index: usize = 0;
    assert(views.take(0) =~= Seq::<Option<Seq<char>>>::empty());
    while index < names.len()
        invariant
            index <= names.len(),
            views == names.deep_view(),
            maximum == largest_generation(views.take(index as int)),
        decreases names.len() - index,
    {
        proof {
            let longer = views.take(index + 1);
            assert(longer.drop_last() =~= views.take(index as int));
            assert(longer.last() == names@[index as int].deep_view());
        }
        if let Some(name) = &names[index] {
            if let Some(number) = text::parse_u64(name.as_str()) {
                if number > maximum {
                    maximum = number;
                }
            }
        }
        index = index + 1;
    }
    assert(views.take(views.len() as int) =~= views);
    match maximum.checked_add(1) {
        None => Err(Failure::from_text("retranscription generation number overflow")),
        Some(next) => Ok(text::zero_padded_text(next, 6)),
    }
}

proof fn lemma_largest_is_an_upper_bound(names: Seq<Option<Seq<char>>>, index: int)
    requires
        0 <= index < names.len(),
    ensures
        generation_number(names[index]) matches Some(number) ==> number <= largest_generation(
            names,
        ),
    decreases names.len(),
{
    if index < names.len() - 1 {
        lemma_largest_is_an_upper_bound(names.drop_last(), index);
        assert(names.drop_last()[index] == names[index]);
    }
}

proof fn lemma_leading_zeroes(zeroes: Seq<char>, digits: Seq<char>)
    requires
        forall|i: int| 0 <= i < zeroes.len() ==> zeroes[i] == '0',
        text::all_digits(digits),
    ensures
        text::all_digits(zeroes + digits),
        text::digits_value(zeroes + digits) == text::digits_value(digits),
    decreases zeroes.len() + digits.len(),
{
    let whole = zeroes + digits;
    assert forall|i: int| 0 <= i < whole.len() implies text::is_digit(#[trigger] whole[i]) by {
        if i < zeroes.len() {
            assert(zeroes[i] == '0');
        } else {
            assert(text::is_digit(digits[i - zeroes.len()]));
        }
    }
    if digits.len() > 0 {
        assert forall|i: int| 0 <= i < digits.drop_last().len() implies text::is_digit(
            #[trigger] digits.drop_last()[i],
        ) by {
            assert(text::is_digit(digits[i]));
        }
        lemma_leading_zeroes(zeroes, digits.drop_last());
        assert(whole.drop_last() =~= zeroes + digits.drop_last());
        assert(whole.last() == digits.last());
    } else if zeroes.len() > 0 {
        assert(whole =~= zeroes);
        lemma_leading_zeroes(zeroes.drop_last(), digits);
        assert(zeroes.drop_last() + digits =~= whole.drop_last());
        assert(whole.last() == '0');
    } else {
        assert(whole =~= digits);
    }
}

pub proof fn lemma_padded_reads_back(value: u64, width: nat)
    ensures
        text::parsed_u64(text::zero_padded(value as nat, width)) == Some(value),
{
    let plain = text::decimal(value as nat);
    text::lemma_decimal_is_digits(value as nat);
    if plain.len() < width {
        let zeroes = Seq::new((width - plain.len()) as nat, |i: int| '0');
        lemma_leading_zeroes(zeroes, plain);
        assert((zeroes + plain)[0] == '0');
        assert(text::without_plus(zeroes + plain) == zeroes + plain);
    } else {
        text::decimal_reads_back(value);
    }
}

/// A generation is always a new one: its number is larger than that of every
/// generation there is, and no name in the directory is its own.
pub proof fn generations_are_new(root: GenerationRoot, names: Seq<Option<Seq<char>>>, index: int)
    requires
        next_generation(root, names) is Ok,
        0 <= index < names.len(),
    ensures
        ({
            let next = (largest_generation(names) + 1) as u64;
            &&& generation_number(names[index]) matches Some(number) ==> number < next
            &&& names[index] != Some(next_generation(root, names)->Ok_0)
        }),
{
    lemma_largest_is_an_upper_bound(names, index);
    lemma_padded_reads_back((largest_generation(names) + 1) as u64, 6);
}

/// Where a staged file lies, seen from its session.
#[derive(Debug)]
pub enum StagedPath {
    Outside,
    NotText,
    Below(String),
}

pub open spec fn relative(session_directory: Seq<char>, path: Seq<char>, staged: StagedPath) -> Result<
    Seq<char>,
    Seq<char>,
> {
    match staged {
        StagedPath::Outside => Err(
            "staged path "@ + path + " is outside session "@ + session_directory,
        ),
        StagedPath::NotText => Err("staged path is not valid UTF-8"@),
        StagedPath::Below(relative) => Ok(relative@),
    }
}

/// The path under which the session record names a staged file.
pub fn relative_path(session_directory: &str, path: &str, staged: StagedPath) -> (relative: Result<
    String,
    Failure,
>)
    ensures
        failure::outcome(relative) == self::relative(session_directory@, path@, staged),
{
    match staged {
        StagedPath::Outside => Err(
            Failure::new(
                "staged path ".to_owned().concat(path).concat(" is outside session ").concat(
                    session_directory,
                ),
            ),
        ),
        StagedPath::NotText => Err(Failure::from_text("staged path is not valid UTF-8")),
        StagedPath::Below(relative) => Ok(relative),
    }
}

/// What is to be replaced must be the complete transcription of a complete
/// session.
pub open spec fn complete_authority(
    record: SessionView,
    manifest: RecordFile<WorkItem>,
    results: RecordFile<TranscriptionResult>,
    windows: bool,
) -> Result<(), Seq<char>> {
    if record.state != WorkflowState::Complete || record.files.work_items is None
        || record.files.results is None {
        Err(
            "retranscription requires a complete session with work and result authority; found format "@
                + text::decimal(record.format as nat) + " state "@ + record.state.name(),
        )
    } else {
        match transcription::complete_transcript(record.session_id, manifest, results, windows) {
            Err(fault) => Err(fault),
            Ok(_) => Ok(()),
        }
    }
}

/// Validate the transcription that is to be replaced.
pub fn validate_complete_transcription_authority(
    record: &SessionRecord,
    manifest: RecordFile<WorkItem>,
    results: RecordFile<TranscriptionResult>,
    windows: bool,
) -> (validated: Result<(), Failure>)
    requires
        manifest.wf(),
        results.wf(),
    ensures
        failure::outcome(validated) == complete_authority(
            record.deep_view(),
            manifest,
            results,
            windows,
        ),
{
    if record.state != WorkflowState::Complete || record.files.work_items.is_none()
        || record.files.results.is_none() {
        return Err(
            Failure::new(
                "retranscription requires a complete session with work and result authority; found format ".to_owned().concat(
                text::decimal_text(record.format as u64).as_str()).concat(" state ").concat(
                    record.state.as_str(),
                ),
            ),
        );
    }
    match transcription::render_complete_transcript(record, manifest, results, windows) {
        Err(fault) => Err(fault),
        Ok(_) => Ok(()),
    }
}

/// The staged results that may replace the previous ones, or why none may.
pub open spec fn accepted_results(
    outcome: WorkerOutcome,
    authority: Result<Vec<TranscriptionResult>, ResultAuthorityFailure>,
    items: Seq<WorkItemView>,
) -> Result<Seq<ResultView>, Seq<char>> {
    match authority {
        Err(integrity) => Err(
            failure::because("staged result validation failed"@, integrity.deep_view().text()),
        ),
        Ok(results) => match worker::verdict(outcome, Ok(results.deep_view()), items, 1) {
            Err(refusal) => Err(refusal),
            Ok(VerdictView::Failed { message, .. }) => Err(message),
            Ok(VerdictView::Complete) => Ok(results.deep_view()),
        },
    }
}

/// Judge the worker that filled a generation, from its first work item on, by
/// how it ended and by the results it left there.
pub fn accept_staged_results(
    outcome: &WorkerOutcome,
    authority: Result<Vec<TranscriptionResult>, ResultAuthorityFailure>,
    work_items: &Vec<WorkItem>,
) -> (results: Result<Vec<TranscriptionResult>, Failure>)
    ensures
        failure::outcome(results) == accepted_results(*outcome, authority, work_items.deep_view()),
{
    if let Err(integrity) = &authority {
        return Err(
            Failure::caused(
                "staged result validation failed".to_owned(),
                &Failure::new(integrity.text()),
            ),
        );
    }
    match worker::judge_attempt(outcome, &authority, work_items, 1) {
        Err(refusal) => Err(refusal),
        Ok(AttemptVerdict::Failed { message, .. }) => Err(Failure::new(message)),
        Ok(AttemptVerdict::Complete) => match authority {
            Err(integrity) => Err(Failure::new(integrity.text())),
            Ok(results) => Ok(results),
        },
    }
}

/// Only a complete replacement is accepted: the worker ended well, and every
/// work item has a sound result.
pub proof fn replacements_are_complete(
    outcome: WorkerOutcome,
    authority: Result<Vec<TranscriptionResult>, ResultAuthorityFailure>,
    items: Seq<WorkItemView>,
)
    ensures
        accepted_results(outcome, authority, items) is Ok <==> (outcome.succeeded()
            && authority is Ok && authority->Ok_0.deep_view().len() == items.len()),
{
}

/// The action that is due.
#[derive(Clone, Copy, Debug, PartialEq, Eq, Structural)]
pub enum Step {
    /// Load the session record.
    LoadRecord,
    /// Validate the transcription that is to be replaced.
    ValidateAuthority,
    /// Build the work items anew.
    BuildItems,
    /// Choose the directory of the generation.
    ChooseGeneration,
    /// Create it.
    CreateGeneration,
    /// Make the directories above it durable.
    SynchroniseParents,
    /// Write the work manifest into it.
    WriteManifest,
    /// Run the worker and validate every result.
    Transcribe,
    /// Write the transcript.
    WriteTranscript,
    /// Remove the partial transcript that the worker may have left.
    RemovePartial,
    /// Make the generation durable.
    SynchroniseGeneration,
    /// Find the paths under which the session record will name its files.
    NameFiles,
    /// Replace the session record.
    Publish,
    /// The replacement is authoritative.
    Finished,
    /// The previous transcription remains authoritative.
    Stopped,
}

/// What came of the action that was due.
#[derive(Debug)]
pub enum Event {
    Done,
    /// The record of the session of this ID was loaded.
    Loaded(String),
    /// So many work items were built.
    Built(usize),
    /// The generation, and the partial transcript in it, lie here, as they are
    /// shown to the operator.
    Chosen { generation: String, partial_transcript: String },
    Failed(Failure),
    /// There was no timestamp to publish under.
    NoClock(Failure),
}

pub enum EventView {
    Done,
    Loaded(Seq<char>),
    Built(nat),
    Chosen { generation: Seq<char>, partial_transcript: Seq<char> },
    Failed(Seq<char>),
    NoClock(Seq<char>),
}

impl DeepView for Event {
    type V = EventView;

    open spec fn deep_view(&self) -> EventView {
        match self {
            Event::Done => EventView::Done,
            Event::Loaded(session_id) => EventView::Loaded(session_id@),
            Event::Built(count) => EventView::Built(*count as nat),
            Event::Chosen { generation, partial_transcript } => EventView::Chosen {
                generation: generation@,
                partial_transcript: partial_transcript@,
            },
            Event::Failed(cause) => EventView::Failed(cause@),
            Event::NoClock(cause) => EventView::NoClock(cause@),
        }
    }
}

/// A run that replaces the transcription of a session.
#[derive(Debug)]
pub struct Retranscription {
    step: Step,
    session_directory: String,
    session_id: String,
    work_items: usize,
    generation: String,
    partial_transcript: String,
    report: Failure,
}

pub struct RetranscriptionView {
    pub step: Step,
    pub session_directory: Seq<char>,
    pub session_id: Seq<char>,
    pub work_items: nat,
    pub generation: Seq<char>,
    pub partial_transcript: Seq<char>,
    pub report: Seq<char>,
}

impl DeepView for Retranscription {
    type V = RetranscriptionView;

    closed spec fn deep_view(&self) -> RetranscriptionView {
        RetranscriptionView {
            step: self.step,
            session_directory: self.session_directory@,
            session_id: self.session_id@,
            work_items: self.work_items as nat,
            generation: self.generation@,
            partial_transcript: self.partial_transcript@,
            report: self.report@,
        }
    }
}

impl RetranscriptionView {
    pub open spec fn moved(self, step: Step) -> RetranscriptionView {
        RetranscriptionView { step, ..self }
    }

    /// The run has failed; the operator learns that nothing was replaced.
    pub open spec fn stopped(self, cause: Seq<char>) -> RetranscriptionView {
        RetranscriptionView {
            step: Step::Stopped,
            report: failure::because(
                "retranscription failed; the previous complete transcription remains authoritative"@,
                cause,
            ),
            ..self
        }
    }

    /// What the action that is due has failed to do.
    pub open spec fn failed(self, cause: Seq<char>) -> Seq<char> {
        match self.step {
            Step::LoadRecord => failure::because(
                "failed to load workflow state from "@ + self.session_directory,
                cause,
            ),
            Step::CreateGeneration => failure::because(
                "failed to create retranscription generation "@ + self.generation,
                cause,
            ),
            Step::RemovePartial => failure::because(
                "failed to remove completed staging transcript "@ + self.partial_transcript,
                cause,
            ),
            Step::Publish => failure::because(
                "staged retranscription was complete but session authority was not replaced"@,
                cause,
            ),
            _ => cause,
        }
    }

    pub open spec fn advanced(self) -> RetranscriptionView {
        match self.step {
            Step::ValidateAuthority => self.moved(Step::BuildItems),
            Step::CreateGeneration => self.moved(Step::SynchroniseParents),
            Step::SynchroniseParents => self.moved(Step::WriteManifest),
            Step::WriteManifest => self.moved(Step::Transcribe),
            Step::Transcribe => self.moved(Step::WriteTranscript),
            Step::WriteTranscript => self.moved(Step::RemovePartial),
            Step::RemovePartial => self.moved(Step::SynchroniseGeneration),
            Step::SynchroniseGeneration => self.moved(Step::NameFiles),
            Step::NameFiles => self.moved(Step::Publish),
            Step::Publish => self.moved(Step::Finished),
            _ => self,
        }
    }

    pub open spec fn ended(self) -> bool {
        self.step == Step::Finished || self.step == Step::Stopped
    }

    pub open spec fn answers(self, event: EventView) -> bool {
        match event {
            EventView::Done => !self.ended() && self.step != Step::LoadRecord && self.step
                != Step::BuildItems && self.step != Step::ChooseGeneration,
            EventView::Loaded(_) => self.step == Step::LoadRecord,
            EventView::Built(_) => self.step == Step::BuildItems,
            EventView::Chosen { .. } => self.step == Step::ChooseGeneration,
            EventView::Failed(_) => !self.ended(),
            EventView::NoClock(_) => self.step == Step::Publish,
        }
    }

    /// The run after an event.
    pub open spec fn after(self, event: EventView) -> RetranscriptionView {
        match event {
            EventView::Done => self.advanced(),
            EventView::Loaded(session_id) => RetranscriptionView {
                step: Step::ValidateAuthority,
                session_id,
                ..self
            },
            EventView::Built(count) => RetranscriptionView {
                step: Step::ChooseGeneration,
                work_items: count,
                ..self
            },
            EventView::Chosen { generation, partial_transcript } => RetranscriptionView {
                step: Step::CreateGeneration,
                generation,
                partial_transcript,
                ..self
            },
            EventView::Failed(cause) => self.stopped(self.failed(cause)),
            EventView::NoClock(cause) => self.stopped(cause),
        }
    }
}

/// Start to replace the transcription of a session.
pub fn run(session_directory: &str) -> (retranscription: Retranscription)
    ensures
        retranscription.deep_view() == (RetranscriptionView {
            step: Step::LoadRecord,
            session_directory: session_directory@,
            session_id: Seq::empty(),
            work_items: 0,
            generation: Seq::empty(),
            partial_transcript: Seq::empty(),
            report: Seq::empty(),
        }),
{
    Retranscription {
        step: Step::LoadRecord,
        session_directory: session_directory.to_owned(),
        session_id: String::new(),
        work_items: 0,
        generation: String::new(),
        partial_transcript: String::new(),
        report: Failure::new(String::new()),
    }
}

impl Retranscription {
    /// The action that is due.
    pub fn step(&self) -> (step: Step)
        ensures
            step == self.deep_view().step,
    {
        self.step
    }

    fn stop(&mut self, cause: Failure)
        ensures
            final(self).deep_view() == old(self).deep_view().stopped(cause@),
    {
        self.report = Failure::caused(
            "retranscription failed; the previous complete transcription remains authoritative".to_owned(),
            &cause,
        );
        self.step = Step::Stopped;
    }

    fn failure(&self, cause: Failure) -> (failure: Failure)
        ensures
            failure@ == self.deep_view().failed(cause@),
    {
        match self.step {
            Step::LoadRecord => Failure::caused(
                "failed to load workflow state from ".to_owned().concat(
                    self.session_directory.as_str(),
                ),
                &cause,
            ),
            Step::CreateGeneration => Failure::caused(
                "failed to create retranscription generation ".to_owned().concat(
                    self.generation.as_str(),
                ),
                &cause,
            ),
            Step::RemovePartial => Failure::caused(
                "failed to remove completed staging transcript ".to_owned().concat(
                    self.partial_transcript.as_str(),
                ),
                &cause,
            ),
            Step::Publish => Failure::caused(
                "staged retranscription was complete but session authority was not replaced".to_owned(),
                &cause,
            ),
            _ => cause,
        }
    }

    /// Take in what came of the action that was due.
    pub fn observe(&mut self, event: Event)
        requires
            old(self).deep_view().answers(event.deep_view()),
        ensures
            final(self).deep_view() == old(self).deep_view().after(event.deep_view()),
    {
        match event {
            Event::Done => {
                self.step = match self.step {
                    Step::ValidateAuthority => Step::BuildItems,
                    Step::CreateGeneration => Step::SynchroniseParents,
                    Step::SynchroniseParents => Step::WriteManifest,
                    Step::WriteManifest => Step::Transcribe,
                    Step::Transcribe => Step::WriteTranscript,
                    Step::WriteTranscript => Step::RemovePartial,
                    Step::RemovePartial => Step::SynchroniseGeneration,
                    Step::SynchroniseGeneration => Step::NameFiles,
                    Step::NameFiles => Step::Publish,
                    Step::Publish => Step::Finished,
                    other => other,
                };
            },
            Event::Loaded(session_id) => {
                self.session_id = session_id;
                self.step = Step::ValidateAuthority;
            },
            Event::Built(count) => {
                self.work_items = count;
                self.step = Step::ChooseGeneration;
            },
            Event::Chosen { generation, partial_transcript } => {
                self.generation = generation;
                self.partial_transcript = partial_transcript;
                self.step = Step::CreateGeneration;
            },
            Event::Failed(cause) => {
                let failure = self.failure(cause);
                self.stop(failure);
            },
            Event::NoClock(cause) => {
                self.stop(cause);
            },
        }
    }

    /// What a run that has ended came to: the sentence that reports it, or why
    /// nothing was replaced.
    pub fn conclude(self) -> (report: Result<String, Failure>)
        requires
            self.deep_view().ended(),
        ensures
            failure::outcome(report) == (if self.deep_view().step == Step::Finished {
                Ok::<Seq<char>, Seq<char>>(
                    "Retranscription completed for session "@ + self.deep_view().session_id
                        + "; published "@ + text::decimal(self.deep_view().work_items)
                        + " work item(s) from "@ + self.deep_view().generation + "."@,
                )
            } else {
                Err(self.deep_view().report)
            }),
    {
        if self.step == Step::Finished {
            Ok(
                "Retranscription completed for session ".to_owned().concat(
                    self.session_id.as_str(),
                ).concat("; published ").concat(
                    text::decimal_text(self.work_items as u64).as_str(),
                ).concat(" work item(s) from ").concat(self.generation.as_str()).concat("."),
            )
        } else {
            Err(self.report)
        }
    }
}

/// How many steps lie before the session record is replaced.
pub open spec fn remaining(step: Step) -> nat {
    match step {
        Step::LoadRecord => 13,
        Step::ValidateAuthority => 12,
        Step::BuildItems => 11,
        Step::ChooseGeneration => 10,
        Step::CreateGeneration => 9,
        Step::SynchroniseParents => 8,
        Step::WriteManifest => 7,
        Step::Transcribe => 6,
        Step::WriteTranscript => 5,
        Step::RemovePartial => 4,
        Step::SynchroniseGeneration => 3,
        Step::NameFiles => 2,
        Step::Publish => 1,
        Step::Finished => 0,
        Step::Stopped => 0,
    }
}

/// The session record is replaced by the last action alone: every earlier one
/// must have gone well, each once and in order, and the run has succeeded
/// exactly when this one has.
pub proof fn replacement_is_published_last(run: RetranscriptionView, event: EventView)
    requires
        run.answers(event),
    ensures
        run.after(event).step == Step::Stopped || remaining(run.after(event).step) + 1
            == remaining(run.step),
        run.after(event).step == Step::Finished <==> run.step == Step::Publish && event
            == EventView::Done,
{
}

/// Whatever fails, the run ends at once, and the operator is told that the
/// previous transcription remains authoritative.
pub proof fn failures_keep_the_previous_transcription(run: RetranscriptionView, cause: Seq<char>)
    requires
        !run.ended(),
    ensures
        run.after(EventView::Failed(cause)).step == Step::Stopped,
        run.after(EventView::Failed(cause)).report == failure::because(
            "retranscription failed; the previous complete transcription remains authoritative"@,
            run.failed(cause),
        ),
{
}

} // verus!
