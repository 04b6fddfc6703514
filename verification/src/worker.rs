//! The transcription worker: how it is invoked, and what an attempt came to.
//!
//! The worker owns model loading, ranged audio extraction, and ordered result
//! appends; it never edits the workflow record.

use vstd::prelude::*;

use crate::failure;
use crate::failure::Failure;
use crate::results::AuthorityFailureView;
use crate::results::ResultAuthorityFailure;
use crate::results::ResultView;
use crate::results::TranscriptionResult;
use crate::resume;
use crate::text;
use crate::work_items::WorkItem;
use crate::work_items::WorkItemView;

verus! {

/// The settings a worker is given.
#[derive(Debug)]
pub struct WorkerSettings {
    pub model: String,
    pub language: String,
    pub device: String,
    pub compute_type: String,
    pub beam_size: u64,
    pub vad_enabled: bool,
    pub hotwords: Vec<String>,
}

pub struct WorkerSettingsView {
    pub model: Seq<char>,
    pub language: Seq<char>,
    pub device: Seq<char>,
    pub compute_type: Seq<char>,
    pub beam_size: u64,
    pub vad_enabled: bool,
    pub hotwords: Seq<Seq<char>>,
}

impl DeepView for WorkerSettings {
    type V = WorkerSettingsView;

    open spec fn deep_view(&self) -> WorkerSettingsView {
        WorkerSettingsView {
            model: self.model@,
            language: self.language@,
            device: self.device@,
            compute_type: self.compute_type@,
            beam_size: self.beam_size,
            vad_enabled: self.vad_enabled,
            hotwords: self.hotwords.deep_view(),
        }
    }
}

/// One argument of the worker's command line. Paths are named, so that they
/// reach the worker as the file system has them.
#[derive(Debug)]
pub enum WorkerArgument {
    Text(String),
    WorkerScript,
    ConfigPath,
    SessionDirectory,
    ManifestPath,
    ResultsPath,
    TranscriptPath,
}

pub enum WorkerArgumentView {
    Text(Seq<char>),
    WorkerScript,
    ConfigPath,
    SessionDirectory,
    ManifestPath,
    ResultsPath,
    TranscriptPath,
}

impl DeepView for WorkerArgument {
    type V = WorkerArgumentView;

    open spec fn deep_view(&self) -> WorkerArgumentView {
        match self {
            WorkerArgument::Text(text) => WorkerArgumentView::Text(text@),
            WorkerArgument::WorkerScript => WorkerArgumentView::WorkerScript,
            WorkerArgument::ConfigPath => WorkerArgumentView::ConfigPath,
            WorkerArgument::SessionDirectory => WorkerArgumentView::SessionDirectory,
            WorkerArgument::ManifestPath => WorkerArgumentView::ManifestPath,
            WorkerArgument::ResultsPath => WorkerArgumentView::ResultsPath,
            WorkerArgument::TranscriptPath => WorkerArgumentView::TranscriptPath,
        }
    }
}

fn text_argument(value: &str) -> (argument: WorkerArgument)
    ensures
        argument.deep_view() == WorkerArgumentView::Text(value@),
{
    WorkerArgument::Text(value.to_owned())
}

pub open spec fn truth(value: bool) -> Seq<char> {
    if value {
        "true"@
    } else {
        "false"@
    }
}

/// The two arguments that switch voice activity detection.
pub fn vad_worker_arguments(enabled: bool) -> (arguments: Vec<String>)
    ensures
        arguments.deep_view() == seq!["--vad-enabled"@, truth(enabled)],
{
    let mut arguments: Vec<String> = Vec::new();
    arguments.push("--vad-enabled".to_owned());
    if enabled {
        arguments.push("true".to_owned());
    } else {
        arguments.push("false".to_owned());
    }
    assert(arguments.deep_view() =~= seq!["--vad-enabled"@, truth(enabled)]);
    arguments
}

/// The arguments that do not depend on the vocabulary.
pub open spec fn fixed_arguments(next_sequence: u64, settings: WorkerSettingsView) -> Seq<
    WorkerArgumentView,
> {
    seq![
        WorkerArgumentView::WorkerScript,
        WorkerArgumentView::Text("--config"@),
        WorkerArgumentView::ConfigPath,
        WorkerArgumentView::Text("--session"@),
        WorkerArgumentView::SessionDirectory,
        WorkerArgumentView::Text("--manifest"@),
        WorkerArgumentView::ManifestPath,
        WorkerArgumentView::Text("--results"@),
        WorkerArgumentView::ResultsPath,
        WorkerArgumentView::Text("--transcript"@),
        WorkerArgumentView::TranscriptPath,
        WorkerArgumentView::Text("--start-sequence"@),
        WorkerArgumentView::Text(text::decimal(next_sequence as nat)),
        WorkerArgumentView::Text("--model"@),
        WorkerArgumentView::Text(settings.model),
        WorkerArgumentView::Text("--language"@),
        WorkerArgumentView::Text(settings.language),
        WorkerArgumentView::Text("--device"@),
        WorkerArgumentView::Text(settings.device),
        WorkerArgumentView::Text("--compute-type"@),
        WorkerArgumentView::Text(settings.compute_type),
        WorkerArgumentView::Text("--beam-size"@),
        WorkerArgumentView::Text(text::decimal(settings.beam_size as nat)),
        WorkerArgumentView::Text("--vad-enabled"@),
        WorkerArgumentView::Text(truth(settings.vad_enabled)),
    ]
}

/// One flag and one phrase for each hotword.
pub open spec fn hotword_arguments(hotwords: Seq<Seq<char>>) -> Seq<WorkerArgumentView>
    decreases hotwords.len(),
{
    if hotwords.len() == 0 {
        Seq::empty()
    } else {
        hotword_arguments(hotwords.drop_last()).push(WorkerArgumentView::Text("--hotword"@)).push(
            WorkerArgumentView::Text(hotwords.last()),
        )
    }
}

/// The command line of a worker that starts at a sequence.
pub fn worker_arguments(next_sequence: u64, settings: &WorkerSettings) -> (arguments: Vec<
    WorkerArgument,
>)
    ensures
        arguments.deep_view() == fixed_arguments(next_sequence, settings.deep_view())
            + hotword_arguments(settings.deep_view().hotwords),
{
    let mut arguments: Vec<WorkerArgument> = Vec::new();
    arguments.push(WorkerArgument::WorkerScript);
    arguments.push(text_argument("--config"));
    arguments.push(WorkerArgument::ConfigPath);
    arguments.push(text_argument("--session"));
    arguments.push(WorkerArgument::SessionDirectory);
    arguments.push(text_argument("--manifest"));
    arguments.push(WorkerArgument::ManifestPath);
    arguments.push(text_argument("--results"));
    arguments.push(WorkerArgument::ResultsPath);
    arguments.push(text_argument("--transcript"));
    arguments.push(WorkerArgument::TranscriptPath);
    arguments.push(text_argument("--start-sequence"));
    arguments.push(WorkerArgument::Text(text::decimal_text(next_sequence)));
    arguments.push(text_argument("--model"));
    arguments.push(text_argument(settings.model.as_str()));
    arguments.push(text_argument("--language"));
    arguments.push(text_argument(settings.language.as_str()));
    arguments.push(text_argument("--device"));
    arguments.push(text_argument(settings.device.as_str()));
    arguments.push(text_argument("--compute-type"));
    arguments.push(text_argument(settings.compute_type.as_str()));
    arguments.push(text_argument("--beam-size"));
    arguments.push(WorkerArgument::Text(text::decimal_text(settings.beam_size)));
    let vad = vad_worker_arguments(settings.vad_enabled);
    assert(vad.deep_view().len() == 2);
    assert(vad.deep_view()[0] == "--vad-enabled"@);
    assert(vad.deep_view()[1] == truth(settings.vad_enabled));
    arguments.push(text_argument(vad[0].as_str()));
    arguments.push(text_argument(vad[1].as_str()));
    let ghost fixed = fixed_arguments(next_sequence, settings.deep_view());
    assert(arguments.deep_view() =~= fixed);
    let ghost hotwords = settings.deep_view().hotwords;
    let mut index: usize = 0;
    assert(hotwords.take(0) =~= Seq::<Seq<char>>::empty());
    assert(arguments.deep_view() =~= fixed + hotword_arguments(hotwords.take(0)));
    while index < settings.hotwords.len()
        invariant
            index <= settings.hotwords.len(),
            hotwords == settings.deep_view().hotwords,
            arguments.deep_view() == fixed + hotword_arguments(hotwords.take(index as int)),
        decreases settings.hotwords.len() - index,
    {
        let ghost before = arguments.deep_view();
        let flag = text_argument("--hotword");
        let phrase = text_argument(settings.hotwords[index].as_str());
        let ghost added = phrase.deep_view();
        arguments.push(flag);
        arguments.push(phrase);
        proof {
            let longer = hotwords.take(index + 1);
            assert(longer.drop_last() =~= hotwords.take(index as int));
            assert(longer.last() == hotwords[index as int]);
            assert(arguments.deep_view() =~= before.push(
                WorkerArgumentView::Text("--hotword"@),
            ).push(added));
            assert(arguments.deep_view() =~= fixed + hotword_arguments(longer));
        }
        index = index + 1;
    }
    assert(hotwords.take(hotwords.len() as int) =~= hotwords);
    arguments
}

/// Where the worker script lies: the names to follow from the application
/// root, one below the other.
pub fn worker_script_path() -> (names: Vec<String>)
    ensures
        names.deep_view() == seq!["workers"@, "faster-whisper"@, "transcription_worker.py"@],
{
    let names: Vec<String> = vec![
        "workers".to_owned(),
        "faster-whisper".to_owned(),
        "transcription_worker.py".to_owned(),
    ];
    assert(names.deep_view() =~= seq![
        "workers"@,
        "faster-whisper"@,
        "transcription_worker.py"@,
    ]);
    names
}

pub open spec fn virtual_environment(windows: bool) -> Seq<Seq<char>> {
    if windows {
        seq![".venv"@, "Scripts"@, "python.exe"@]
    } else {
        seq![".venv"@, "bin"@, "python"@]
    }
}

/// Where the shared virtual environment keeps its interpreter: the names to
/// follow from the application root, one below the other.
pub fn virtual_environment_interpreter(windows: bool) -> (names: Vec<String>)
    ensures
        names.deep_view() == virtual_environment(windows),
{
    let names: Vec<String> = if windows {
        vec![".venv".to_owned(), "Scripts".to_owned(), "python.exe".to_owned()]
    } else {
        vec![".venv".to_owned(), "bin".to_owned(), "python".to_owned()]
    };
    assert(names.deep_view() =~= virtual_environment(windows));
    names
}

/// Which Python runs the worker.
#[derive(Debug)]
pub enum Interpreter {
    /// The one the operator named.
    Explicit,
    /// The one in the virtual environment, along these names below the
    /// application root.
    VirtualEnvironment(Vec<String>),
    /// The platform command of this name.
    Platform(String),
}

pub enum InterpreterView {
    Explicit,
    VirtualEnvironment(Seq<Seq<char>>),
    Platform(Seq<char>),
}

impl DeepView for Interpreter {
    type V = InterpreterView;

    open spec fn deep_view(&self) -> InterpreterView {
        match self {
            Interpreter::Explicit => InterpreterView::Explicit,
            Interpreter::VirtualEnvironment(names) => InterpreterView::VirtualEnvironment(
                names.deep_view(),
            ),
            Interpreter::Platform(name) => InterpreterView::Platform(name@),
        }
    }
}

/// What `ECHOSCRIBE_PYTHON` holds.
#[derive(Clone, Copy, Debug, PartialEq, Eq, Structural)]
pub enum ExplicitInterpreter {
    Unset,
    Empty,
    Named,
}

/// An explicit interpreter is used as it stands, an empty one refused; else the
/// virtual environment is preferred where it has an interpreter, and the
/// platform command is the last resort.
pub open spec fn chosen_interpreter(
    explicit: ExplicitInterpreter,
    windows: bool,
    virtual_environment_present: bool,
) -> Result<InterpreterView, Seq<char>> {
    match explicit {
        ExplicitInterpreter::Named => Ok(InterpreterView::Explicit),
        ExplicitInterpreter::Empty => Err("ECHOSCRIBE_PYTHON is set but empty"@),
        ExplicitInterpreter::Unset => if virtual_environment_present {
            Ok(InterpreterView::VirtualEnvironment(virtual_environment(windows)))
        } else if windows {
            Ok(InterpreterView::Platform("python"@))
        } else {
            Ok(InterpreterView::Platform("python3"@))
        },
    }
}

pub fn select_python_interpreter(
    explicit: ExplicitInterpreter,
    windows: bool,
    virtual_environment_present: bool,
) -> (interpreter: Result<Interpreter, Failure>)
    ensures
        failure::outcome(interpreter) == chosen_interpreter(
            explicit,
            windows,
            virtual_environment_present,
        ),
{
    match explicit {
        ExplicitInterpreter::Named => Ok(Interpreter::Explicit),
        ExplicitInterpreter::Empty => Err(Failure::from_text("ECHOSCRIBE_PYTHON is set but empty")),
        ExplicitInterpreter::Unset => {
            if virtual_environment_present {
                Ok(Interpreter::VirtualEnvironment(virtual_environment_interpreter(windows)))
            } else if windows {
                Ok(Interpreter::Platform("python".to_owned()))
            } else {
                Ok(Interpreter::Platform("python3".to_owned()))
            }
        },
    }
}

/// How a worker process ended.
#[derive(Clone, Copy, Debug, PartialEq, Eq, Structural)]
pub struct WorkerExit {
    pub success: bool,
    pub code: Option<i32>,
}

/// What came of launching a worker.
#[derive(Debug)]
pub enum WorkerOutcome {
    NotLaunched(String),
    Exited(WorkerExit),
}

impl WorkerOutcome {
    pub open spec fn succeeded(self) -> bool {
        self matches WorkerOutcome::Exited(exit) && exit.success
    }

    pub open spec fn diagnostic(self) -> Seq<char> {
        match self {
            WorkerOutcome::NotLaunched(cause) => "launch_failure: "@ + cause@,
            WorkerOutcome::Exited(exit) => if exit.success {
                "zero_exit"@
            } else {
                match exit.code {
                    Some(code) => "non_zero_exit: status "@ + text::signed_decimal(code as int),
                    None => "signal_termination: worker terminated without an exit status"@,
                }
            },
        }
    }

    /// How the process ended, in a form fit for the failure record.
    pub fn diagnostic_text(&self) -> (text: String)
        ensures
            text@ == self.diagnostic(),
    {
        match self {
            WorkerOutcome::NotLaunched(cause) => "launch_failure: ".to_owned().concat(
                cause.as_str(),
            ),
            WorkerOutcome::Exited(exit) => {
                if exit.success {
                    "zero_exit".to_owned()
                } else {
                    match exit.code {
                        Some(code) => "non_zero_exit: status ".to_owned().concat(
                            text::signed_decimal_text(code).as_str(),
                        ),
                        None => "signal_termination: worker terminated without an exit status".to_owned(),
                    }
                }
            },
        }
    }

    fn has_succeeded(&self) -> (result: bool)
        ensures
            result == self.succeeded(),
    {
        match self {
            WorkerOutcome::NotLaunched(_) => false,
            WorkerOutcome::Exited(exit) => exit.success,
        }
    }
}

/// The failure record of an attempt that stopped short of the work.
pub open spec fn worker_failure(
    items: Seq<WorkItemView>,
    committed: nat,
    attempted_start_sequence: u64,
    diagnostic: Seq<char>,
) -> Result<Seq<char>, Seq<char>> {
    match resume::next_sequence_after(committed) {
        Err(message) => Err(message),
        Ok(next) => Ok(
            "attempted_start_sequence="@ + text::decimal(attempted_start_sequence as nat)
                + "; next_uncommitted_sequence="@ + text::decimal(next as nat)
                + "; next_work_item_id="@ + (if committed < items.len() {
                items[committed as int].id
            } else {
                "none"@
            }) + "; process="@ + diagnostic,
        ),
    }
}

/// Describe an attempt that stopped short of the work.
pub fn record_worker_failure(
    work_items: &Vec<WorkItem>,
    committed: &Vec<TranscriptionResult>,
    attempted_start_sequence: u64,
    process_diagnostic: &str,
) -> (message: Result<String, Failure>)
    ensures
        failure::outcome(message) == worker_failure(
            work_items.deep_view(),
            committed@.len(),
            attempted_start_sequence,
            process_diagnostic@,
        ),
{
    let next_uncommitted_sequence: u64 = match resume::next_sequence(committed.len()) {
        Ok(value) => value,
        Err(refusal) => {
            return Err(refusal);
        },
    };
    let next_work_item_id = if committed.len() < work_items.len() {
        work_items[committed.len()].id.as_str()
    } else {
        "none"
    };
    Ok(
        "attempted_start_sequence=".to_owned().concat(
            text::decimal_text(attempted_start_sequence).as_str(),
        ).concat("; next_uncommitted_sequence=").concat(
            text::decimal_text(next_uncommitted_sequence).as_str(),
        ).concat("; next_work_item_id=").concat(next_work_item_id).concat("; process=").concat(
            process_diagnostic,
        ),
    )
}

/// The failure record of an attempt that left damaged results.
pub open spec fn integrity_failure(
    attempted_start_sequence: u64,
    diagnostic: Seq<char>,
    integrity: AuthorityFailureView,
) -> Seq<char> {
    "attempted_start_sequence="@ + text::decimal(attempted_start_sequence as nat) + "; process="@
        + diagnostic + "; result_integrity_error="@ + integrity.message
        + "; safely_validated_prefix_length="@ + text::decimal(
        integrity.safely_validated_prefix_length,
    ) + "; earliest_unsafe_sequence="@ + text::decimal(integrity.earliest_unsafe_sequence as nat)
        + "; earliest_unsafe_work_item_id="@ + integrity.earliest_unsafe_work_item_id
}

/// Describe an attempt that left damaged results.
pub fn record_result_integrity_failure(
    attempted_start_sequence: u64,
    process_diagnostic: &str,
    integrity: &ResultAuthorityFailure,
) -> (message: String)
    ensures
        message@ == integrity_failure(
            attempted_start_sequence,
            process_diagnostic@,
            integrity.deep_view(),
        ),
{
    "attempted_start_sequence=".to_owned().concat(
        text::decimal_text(attempted_start_sequence).as_str(),
    ).concat("; process=").concat(process_diagnostic).concat("; result_integrity_error=").concat(
        integrity.message.as_str(),
    ).concat("; safely_validated_prefix_length=").concat(
        text::decimal_text(integrity.safely_validated_prefix_length as u64).as_str(),
    ).concat("; earliest_unsafe_sequence=").concat(
        text::decimal_text(integrity.earliest_unsafe_sequence).as_str(),
    ).concat("; earliest_unsafe_work_item_id=").concat(
        integrity.earliest_unsafe_work_item_id.as_str(),
    )
}

/// What an attempt came to: every work item has its result, or the failure to
/// record and the diagnostic to report.
#[derive(Debug)]
pub enum AttemptVerdict {
    Complete,
    Failed { message: String, diagnostic: String },
}

pub enum VerdictView {
    Complete,
    Failed { message: Seq<char>, diagnostic: Seq<char> },
}

impl DeepView for AttemptVerdict {
    type V = VerdictView;

    open spec fn deep_view(&self) -> VerdictView {
        match self {
            AttemptVerdict::Complete => VerdictView::Complete,
            AttemptVerdict::Failed { message, diagnostic } => VerdictView::Failed {
                message: message@,
                diagnostic: diagnostic@,
            },
        }
    }
}

pub open spec fn incomplete_exit(committed: nat, work: nat) -> Seq<char> {
    "incomplete_zero_exit: committed "@ + text::decimal(committed) + " of "@ + text::decimal(work)
        + " work items"@
}

pub open spec fn failed_short(
    items: Seq<WorkItemView>,
    committed: nat,
    start: u64,
    diagnostic: Seq<char>,
) -> Result<VerdictView, Seq<char>> {
    match worker_failure(items, committed, start, diagnostic) {
        Err(message) => Err(message),
        Ok(message) => Ok(VerdictView::Failed { message, diagnostic }),
    }
}

/// Judge an attempt by how the process ended and by the results it left.
/// Damaged results outweigh how the process ended; a process that ended well
/// must have committed all of the work.
pub open spec fn verdict(
    outcome: WorkerOutcome,
    authority: Result<Seq<ResultView>, AuthorityFailureView>,
    items: Seq<WorkItemView>,
    start: u64,
) -> Result<VerdictView, Seq<char>> {
    match authority {
        Err(integrity) => Ok(
            VerdictView::Failed {
                message: integrity_failure(start, outcome.diagnostic(), integrity),
                diagnostic: outcome.diagnostic(),
            },
        ),
        Ok(committed) => if !outcome.succeeded() {
            failed_short(items, committed.len(), start, outcome.diagnostic())
        } else if committed.len() != items.len() {
            failed_short(
                items,
                committed.len(),
                start,
                incomplete_exit(committed.len(), items.len()),
            )
        } else {
            Ok(VerdictView::Complete)
        },
    }
}

pub open spec fn authority_view(
    authority: Result<Vec<TranscriptionResult>, ResultAuthorityFailure>,
) -> Result<Seq<ResultView>, AuthorityFailureView> {
    match authority {
        Ok(results) => Ok(results.deep_view()),
        Err(integrity) => Err(integrity.deep_view()),
    }
}

fn fail_short(
    work_items: &Vec<WorkItem>,
    committed: &Vec<TranscriptionResult>,
    start: u64,
    diagnostic: String,
) -> (result: Result<AttemptVerdict, Failure>)
    ensures
        failure::outcome(result) == failed_short(
            work_items.deep_view(),
            committed@.len(),
            start,
            diagnostic@,
        ),
{
    match record_worker_failure(work_items, committed, start, diagnostic.as_str()) {
        Err(refusal) => Err(refusal),
        Ok(message) => Ok(AttemptVerdict::Failed { message, diagnostic }),
    }
}

pub fn judge_attempt(
    outcome: &WorkerOutcome,
    authority: &Result<Vec<TranscriptionResult>, ResultAuthorityFailure>,
    work_items: &Vec<WorkItem>,
    attempted_start_sequence: u64,
) -> (result: Result<AttemptVerdict, Failure>)
    ensures
        failure::outcome(result) == verdict(
            *outcome,
            authority_view(*authority),
            work_items.deep_view(),
            attempted_start_sequence,
        ),
{
    let diagnostic = outcome.diagnostic_text();
    let committed = match authority {
        Err(integrity) => {
            let message = record_result_integrity_failure(
                attempted_start_sequence,
                diagnostic.as_str(),
                integrity,
            );
            return Ok(AttemptVerdict::Failed { message, diagnostic });
        },
        Ok(committed) => committed,
    };
    if !outcome.has_succeeded() {
        return fail_short(work_items, committed, attempted_start_sequence, diagnostic);
    }
    if committed.len() != work_items.len() {
        let shortfall = "incomplete_zero_exit: committed ".to_owned().concat(
            text::decimal_text(committed.len() as u64).as_str(),
        ).concat(" of ").concat(text::decimal_text(work_items.len() as u64).as_str()).concat(
            " work items",
        );
        return fail_short(work_items, committed, attempted_start_sequence, shortfall);
    }
    Ok(AttemptVerdict::Complete)
}

/// What is reported once a failed attempt was recorded and the session was
/// told to wait, or why one of the two did not happen.
pub open spec fn failure_report(
    diagnostic: Seq<char>,
    recorded: Result<(), Seq<char>>,
    waiting: Result<(), Seq<char>>,
) -> Seq<char> {
    match recorded {
        Err(cause) => failure::because(
            "failed to publish durable transcription failure"@,
            cause,
        ),
        Ok(_) => match waiting {
            Err(cause) => "transcription worker failed ("@ + diagnostic
                + "); failure is durable but the session remains transcription_failed because awaiting_operator publication failed: "@
                + cause,
            Ok(_) => "transcription worker failed ("@ + diagnostic
                + "); session is awaiting operator action"@,
        },
    }
}

/// Report a failed attempt. It is always an error.
pub fn publish_transcription_failure_and_wait(
    process_diagnostic: &str,
    recorded: &Result<(), Failure>,
    waiting: &Result<(), Failure>,
) -> (report: Failure)
    ensures
        report@ == failure_report(
            process_diagnostic@,
            failure::outcome(*recorded),
            failure::outcome(*waiting),
        ),
{
    match recorded {
        Err(cause) => Failure::caused(
            "failed to publish durable transcription failure".to_owned(),
            cause,
        ),
        Ok(_) => match waiting {
            Err(cause) => Failure::new(
                "transcription worker failed (".to_owned().concat(process_diagnostic).concat(
                    "); failure is durable but the session remains transcription_failed because awaiting_operator publication failed: ",
                ).concat(cause.text()),
            ),
            Ok(_) => Failure::new(
                "transcription worker failed (".to_owned().concat(process_diagnostic).concat(
                    "); session is awaiting operator action",
                ),
            ),
        },
    }
}

/// An attempt is complete exactly when the process ended well and every work
/// item has a sound result.
pub proof fn completion_needs_every_result(
    outcome: WorkerOutcome,
    authority: Result<Seq<ResultView>, AuthorityFailureView>,
    items: Seq<WorkItemView>,
    start: u64,
)
    ensures
        (verdict(outcome, authority, items, start) == Ok::<VerdictView, Seq<char>>(
            VerdictView::Complete,
        )) <==> (outcome.succeeded() && authority is Ok && authority->Ok_0.len() == items.len()),
{
}

} // verus!
