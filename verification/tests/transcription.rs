//! The transcription stage, driven as a coordinator drives it, with a session
//! and a worker that live in memory.

use echoscribe::artifacts::{
    TRANSCRIPTION_RESULT_FORMAT_VERSION, WORK_ITEM_MANIFEST_FORMAT_VERSION,
};
use echoscribe::continuation;
use echoscribe::failure::Failure;
use echoscribe::records::{find_committed_length, split_records};
use echoscribe::results::{
    conclude_repair, render_transcript, transcript_line, validate_and_repair_result_prefix,
    validate_and_repair_result_prefix_detailed, validate_result_matches_work_item, RepairFailure,
    ResultAuthorityFailure, TranscriptionResult,
};
use echoscribe::resume::{
    calculate_resume_sequence, kept_results, latest_resume_checkpoint, parse_resume_sequence,
    select_resume_plan, ResumeCheckpoint, ResumePlan, RESUME_APPLIED_PREFIX,
    RESUME_PREPARED_PREFIX,
};
use echoscribe::retranscription::{
    self, accept_staged_results, next_generation_directory,
    validate_complete_transcription_authority, GenerationRoot, RETRANSCRIPTION_DIRECTORY,
};
use echoscribe::session::{
    CheckpointRecord, FailureRecord, FileDescription, FileKind, InspectedFile, SessionFiles,
    SessionRecord, WorkflowState, RECORDING_SESSION_FORMAT_VERSION, SESSION_FORMAT_VERSION,
};
use echoscribe::stage::StageError;
use echoscribe::track_manifest::{TrackDescription, TrackManifest, TrackState};
use echoscribe::transcription::{
    accept_work, plan_continuation, read_work_manifest_authority, rebuild_transcript,
    validate_work_item_for_session, Entry, RecordFile, SessionArtifacts,
};
use echoscribe::transcription_flow::{Event, Flow, Step};
use echoscribe::work_items::WorkItem;
use echoscribe::worker::{
    judge_attempt, select_python_interpreter, vad_worker_arguments, worker_arguments,
    worker_script_path, AttemptVerdict, ExplicitInterpreter, Interpreter, WorkerArgument,
    WorkerExit, WorkerOutcome, WorkerSettings,
};

const SESSION_ID: &str = "session-transcription";

fn test_item(sequence: u64, start_ms: u64, end_ms: u64) -> WorkItem {
    WorkItem {
        format: WORK_ITEM_MANIFEST_FORMAT_VERSION,
        id: format!("session-transcription:{sequence:06}"),
        session_id: SESSION_ID.to_owned(),
        sequence,
        discord_user_id: "11".to_owned(),
        discord_name: "Alice".to_owned(),
        name: None,
        speaker: "Alice".to_owned(),
        role: "player".to_owned(),
        character: None,
        start_ms,
        end_ms,
        source: "tracks/user-11.flac".to_owned(),
        source_start_ms: start_ms,
        source_end_ms: end_ms,
    }
}

fn copy(item: &WorkItem) -> WorkItem {
    item.to_line().into_item()
}

fn complete_result(item: &WorkItem, text: &str) -> TranscriptionResult {
    TranscriptionResult {
        format: TRANSCRIPTION_RESULT_FORMAT_VERSION,
        work_item_id: item.id.clone(),
        session_id: item.session_id.clone(),
        sequence: item.sequence,
        discord_user_id: item.discord_user_id.clone(),
        speaker: item.speaker.clone(),
        role: item.role.clone(),
        character: item.character.clone(),
        start_ms: item.start_ms,
        end_ms: item.end_ms,
        source: item.source.clone(),
        source_start_ms: item.source_start_ms,
        source_end_ms: item.source_end_ms,
        text: text.to_owned(),
        status: "complete".to_owned(),
    }
}

/// A result as one JSON line, for as much of it as these tests vary.
fn line_of(result: &TranscriptionResult) -> Vec<u8> {
    let mut object = serde_json::Map::new();
    object.insert("sequence".to_owned(), result.sequence.into());
    object.insert("speaker".to_owned(), result.speaker.clone().into());
    object.insert("text".to_owned(), result.text.clone().into());
    object.insert("status".to_owned(), result.status.clone().into());
    let mut line = serde_json::to_vec(&serde_json::Value::Object(object)).unwrap();
    line.push(b'\n');
    line
}

fn read_line(items: &[WorkItem], line: &[u8]) -> Result<TranscriptionResult, Failure> {
    let value: serde_json::Value =
        serde_json::from_slice(line).map_err(|error| Failure::new(error.to_string()))?;
    let sequence = value["sequence"].as_u64().unwrap();
    let mut result = complete_result(
        &items[usize::try_from(sequence).unwrap() - 1],
        value["text"].as_str().unwrap(),
    );
    result.speaker = value["speaker"].as_str().unwrap().to_owned();
    result.status = value["status"].as_str().unwrap().to_owned();
    Ok(result)
}

fn parse_results(items: &[WorkItem], bytes: &Vec<u8>) -> Vec<Result<TranscriptionResult, Failure>> {
    split_records(bytes, find_committed_length(bytes))
        .iter()
        .map(|line| read_line(items, line))
        .collect()
}

fn file(path: &str, format: u16) -> FileDescription {
    FileDescription { path: path.to_owned(), format }
}

fn inspected(location: &str, kind: FileKind) -> InspectedFile {
    InspectedFile { location: location.to_owned(), kind }
}

/// What a worker does before it ends.
enum Worker {
    NotLaunched,
    Ends { commits: usize, appends: Vec<u8>, success: bool, code: Option<i32> },
}

impl Worker {
    fn successful() -> Worker {
        Worker::Ends { commits: usize::MAX, appends: vec![], success: true, code: Some(0) }
    }

    fn failed() -> Worker {
        Worker::Ends { commits: 0, appends: vec![], success: false, code: Some(17) }
    }

    fn progress_then_failure(commits: usize) -> Worker {
        Worker::Ends { commits, appends: vec![], success: false, code: Some(23) }
    }
}

/// A session without a disk.
struct FakeSession {
    format: u16,
    state: WorkflowState,
    has_results: bool,
    checkpoints: Vec<String>,
    failures: Vec<(String, String)>,
    items: Vec<WorkItem>,
    results: Vec<u8>,
    partial: Option<String>,
    transcript: Option<String>,
    missing_packets: bool,
    rewind_seconds: u64,
    /// So many writes of the session record succeed before one fails.
    writes_before_failure: Option<usize>,
    invocations: Vec<u64>,
    plan: Option<ResumePlan>,
}

impl FakeSession {
    fn with_items(ranges: &[(u64, u64)]) -> FakeSession {
        let mut items = Vec::new();
        for (index, (start_ms, end_ms)) in ranges.iter().enumerate() {
            items.push(test_item(u64::try_from(index).unwrap() + 1, *start_ms, *end_ms));
        }
        FakeSession {
            format: RECORDING_SESSION_FORMAT_VERSION,
            state: WorkflowState::ReadyForTranscription,
            has_results: false,
            checkpoints: vec![],
            failures: vec![],
            items,
            results: vec![],
            partial: None,
            transcript: None,
            missing_packets: false,
            rewind_seconds: 120,
            writes_before_failure: None,
            invocations: vec![],
            plan: None,
        }
    }

    fn ready() -> FakeSession {
        FakeSession::with_items(&[(0, 100)])
    }

    fn start_transcribing(&mut self) {
        self.format = SESSION_FORMAT_VERSION;
        self.state = WorkflowState::Transcribing;
        self.has_results = true;
    }

    fn failed_with_results(ranges: &[(u64, u64)], committed: usize) -> FakeSession {
        let mut session = FakeSession::with_items(ranges);
        session.start_transcribing();
        for index in 0..committed {
            let text = format!("Result {}", index + 1);
            let line = line_of(&complete_result(&session.items[index], &text));
            session.results.extend(line);
        }
        session.failures.push((
            "transcription_worker".to_owned(),
            "attempted_start_sequence=1; next_uncommitted_sequence=1; \
             next_work_item_id=test; process=test_failure"
                .to_owned(),
        ));
        session.state = WorkflowState::AwaitingOperator;
        session
    }

    fn record(&self) -> SessionRecord {
        SessionRecord {
            format: self.format,
            session_id: SESSION_ID.to_owned(),
            state: self.state,
            files: SessionFiles {
                packets: file("packets.dat", 1),
                playout: file("playout.dat", 2),
                events: file("events.ndjson", 2),
                participants: file("participants.toml", 1),
                tracks: file("tracks.json", 1),
                work_items: Some(file("transcription/work-items.jsonl", 1)),
                results: if self.has_results {
                    Some(file("transcription/results.jsonl", 1))
                } else {
                    None
                },
                transcript: None,
            },
            checkpoints: self
                .checkpoints
                .iter()
                .map(|stage| CheckpointRecord {
                    completed_at_unix_millis: 1,
                    stage: stage.clone(),
                })
                .collect(),
            failures: self
                .failures
                .iter()
                .map(|(kind, message)| FailureRecord {
                    state: WorkflowState::Transcribing,
                    kind: kind.clone(),
                    message: message.clone(),
                })
                .collect(),
        }
    }

    fn artifacts(&self) -> SessionArtifacts {
        let end = self.items.iter().map(|item| item.end_ms).max().unwrap_or(1);
        let tracks = TrackManifest::new(
            SESSION_ID.to_owned(),
            vec![TrackDescription::new(
                11,
                "Alice".to_owned(),
                "player".to_owned(),
                None,
                "tracks/user-11.flac".to_owned(),
                TrackState::Complete,
                end * 48,
                vec![100],
                None,
            )],
        );
        SessionArtifacts {
            packets: inspected(
                "packets.dat",
                if self.missing_packets {
                    FileKind::Unreadable(Failure::from_text("no such file"))
                } else {
                    FileKind::Regular
                },
            ),
            playout: inspected("playout.dat", FileKind::Regular),
            events: inspected("events.ndjson", FileKind::Regular),
            participants: inspected("participants.toml", FileKind::Regular),
            tracks: inspected("tracks.json", FileKind::Regular),
            participant_snapshot: Ok(()),
            track_manifest: Ok(tracks),
            track_files: vec![inspected("tracks/user-11.flac", FileKind::Regular)],
        }
    }

    fn manifest_file(&self) -> RecordFile<WorkItem> {
        manifest_file(&self.items)
    }

    fn write_record(&mut self) -> Result<(), Failure> {
        match self.writes_before_failure {
            Some(0) => {
                self.writes_before_failure = None;
                Err(Failure::from_text("injected record write failure"))
            }
            Some(count) => {
                self.writes_before_failure = Some(count - 1);
                Ok(())
            }
            None => Ok(()),
        }
    }

    /// Validate the committed results and cut off an unfinished tail.
    fn authority(&mut self) -> Result<Vec<TranscriptionResult>, ResultAuthorityFailure> {
        let parsed = parse_results(&self.items, &self.results);
        let read = Ok(self.results.clone());
        let prefix = validate_and_repair_result_prefix_detailed(
            &read,
            parsed,
            "results.jsonl",
            &self.items,
        )?;
        if prefix.needs_repair {
            self.results.truncate(prefix.committed_length);
        }
        conclude_repair(prefix, Ok(()), "results.jsonl", &self.items)
    }

    fn launch(&mut self, worker: &Worker, start_sequence: u64) -> WorkerOutcome {
        self.invocations.push(start_sequence);
        match worker {
            Worker::NotLaunched => {
                WorkerOutcome::NotLaunched("injected worker launch failure".to_owned())
            }
            Worker::Ends { commits, appends, success, code } => {
                let start = usize::try_from(start_sequence).unwrap() - 1;
                for item in self.items.iter().skip(start).take(*commits) {
                    let text = format!("Result {}", item.sequence);
                    self.results.extend(line_of(&complete_result(item, &text)));
                }
                self.results.extend(appends.iter());
                WorkerOutcome::Exited(WorkerExit { success: *success, code: *code })
            }
        }
    }

    fn perform(
        &mut self,
        flow: &Flow,
        worker: &Worker,
        committed: &mut Vec<TranscriptionResult>,
    ) -> Event {
        let start_sequence = flow.start_sequence();
        match flow.step() {
            Step::PrepareResults => {
                self.results.clear();
                Event::Done
            }
            Step::ReadCommitted => match validate_and_repair_result_prefix(self.authority()) {
                Err(cause) => Event::Failed(cause),
                Ok(found) => {
                    let count = found.len();
                    *committed = found;
                    Event::Committed(count)
                }
            },
            Step::RewindResults => {
                *committed = kept_results(std::mem::take(committed), self.plan.unwrap());
                self.results.clear();
                for result in committed.iter() {
                    self.results.extend(line_of(result));
                }
                Event::Done
            }
            Step::RenderKept => {
                self.partial = Some(render_transcript(committed));
                Event::Done
            }
            Step::RunWorker => {
                let outcome = self.launch(worker, start_sequence);
                let authority = self.authority();
                match judge_attempt(&outcome, &authority, &self.items, start_sequence) {
                    Err(cause) => Event::Failed(cause),
                    Ok(verdict) => {
                        if let Ok(found) = authority {
                            *committed = found;
                        }
                        Event::Judged(verdict)
                    }
                }
            }
            Step::RenderAll => {
                self.partial = Some(render_transcript(committed));
                Event::Done
            }
            Step::PublishTranscript => {
                self.transcript = self.partial.take();
                Event::Done
            }
            step => {
                if let Err(cause) = self.write_record() {
                    return Event::Failed(cause);
                }
                match step {
                    Step::PublishStart => self.start_transcribing(),
                    Step::EnterWaiting | Step::AwaitOperator => {
                        self.state = WorkflowState::AwaitingOperator;
                    }
                    Step::RecordBoundary => {
                        self.checkpoints.push(format!("{RESUME_PREPARED_PREFIX}{start_sequence}"));
                    }
                    Step::ApplyBoundary => {
                        self.checkpoints.push(format!("{RESUME_APPLIED_PREFIX}{start_sequence}"));
                        self.state = WorkflowState::Transcribing;
                    }
                    Step::PublishFailure => {
                        self.failures.push((
                            "transcription_worker".to_owned(),
                            flow.failure_message().to_owned(),
                        ));
                        self.state = WorkflowState::TranscriptionFailed;
                    }
                    Step::PublishCompletion => self.state = WorkflowState::Complete,
                    other => unreachable!("{other:?} writes no record"),
                }
                Event::Done
            }
        }
    }

    fn drive(
        &mut self,
        mut flow: Flow,
        worker: &Worker,
        mut committed: Vec<TranscriptionResult>,
    ) -> Result<(), StageError<Failure>> {
        while flow.step() != Step::Finished && flow.step() != Step::Stopped {
            let event = self.perform(&flow, worker, &mut committed);
            flow.observe(event);
        }
        flow.conclude()
    }

    fn run(&mut self, worker: &Worker) -> Result<(), StageError<Failure>> {
        accept_work(Entry::Run, &self.record(), &self.artifacts(), self.manifest_file(), false)?;
        let flow = Flow::begin(self.state);
        self.drive(flow, worker, vec![])
    }

    fn resume(&mut self, worker: &Worker) -> Result<(), StageError<Failure>> {
        let record = self.record();
        let items =
            accept_work(Entry::Continue, &record, &self.artifacts(), self.manifest_file(), false)?;
        let authority = self.authority();
        let planned = plan_continuation(&record, authority, &items, self.rewind_seconds)?;
        self.plan = Some(planned.plan);
        let flow = Flow::resume(self.state, planned.plan);
        self.drive(flow, worker, planned.committed)
    }

    fn committed(&mut self) -> Vec<TranscriptionResult> {
        validate_and_repair_result_prefix(self.authority()).unwrap()
    }

    fn last_failure(&self) -> &str {
        &self.failures.last().unwrap().1
    }
}

fn manifest_file(items: &[WorkItem]) -> RecordFile<WorkItem> {
    let mut bytes = Vec::new();
    for item in items {
        bytes.extend(format!("item {}\n", item.id).into_bytes());
    }
    RecordFile {
        path: "work-items.jsonl".to_owned(),
        read: Ok(bytes),
        parsed: items.iter().map(|item| Ok(copy(item))).collect(),
    }
}

fn read_test_work_manifest_authority(items: &[WorkItem]) -> Result<Vec<WorkItem>, Failure> {
    let file = manifest_file(items);
    read_work_manifest_authority(
        &file.read.unwrap(),
        file.parsed,
        &file.path,
        &FakeSession::ready().record(),
        false,
    )
}

fn text_of(error: StageError<Failure>) -> String {
    error.into_anyhow().message
}

#[test]
fn python_interpreter_prefers_override_then_root_virtual_environment() {
    let choose = |explicit, windows, present| {
        select_python_interpreter(explicit, windows, present)
    };
    assert!(matches!(
        choose(ExplicitInterpreter::Named, false, false).unwrap(),
        Interpreter::Explicit
    ));
    assert!(choose(ExplicitInterpreter::Empty, false, false)
        .unwrap_err()
        .text()
        .contains("set but empty"));

    let Interpreter::Platform(name) = choose(ExplicitInterpreter::Unset, false, false).unwrap()
    else {
        panic!("expected the platform command");
    };
    assert_eq!(name, "python3");
    let Interpreter::Platform(name) = choose(ExplicitInterpreter::Unset, true, false).unwrap()
    else {
        panic!("expected the platform command");
    };
    assert_eq!(name, "python");

    let Interpreter::VirtualEnvironment(names) =
        choose(ExplicitInterpreter::Unset, false, true).unwrap()
    else {
        panic!("expected the virtual environment");
    };
    assert_eq!(names, [".venv", "bin", "python"]);
    let Interpreter::VirtualEnvironment(names) =
        choose(ExplicitInterpreter::Unset, true, true).unwrap()
    else {
        panic!("expected the virtual environment");
    };
    assert_eq!(names, [".venv", "Scripts", "python.exe"]);
}

#[test]
fn worker_path_is_rooted_at_the_application_manifest() {
    assert_eq!(
        worker_script_path(),
        ["workers", "faster-whisper", "transcription_worker.py"]
    );
}

#[test]
fn worker_arguments_include_explicit_vad_setting() {
    assert_eq!(vad_worker_arguments(true), ["--vad-enabled", "true"]);
    assert_eq!(vad_worker_arguments(false), ["--vad-enabled", "false"]);
}

#[test]
fn workers_are_given_every_setting_in_order() {
    let settings = WorkerSettings {
        model: "m".to_owned(),
        language: "en".to_owned(),
        device: "cpu".to_owned(),
        compute_type: "int8".to_owned(),
        beam_size: 5,
        vad_enabled: false,
        hotwords: vec!["Emperor Coaltongue".to_owned(), "Dragon Lance".to_owned()],
    };
    let shown: Vec<String> = worker_arguments(7, &settings)
        .into_iter()
        .map(|argument| match argument {
            WorkerArgument::Text(text) => text,
            other => format!("<{other:?}>"),
        })
        .collect();
    assert_eq!(
        shown,
        [
            "<WorkerScript>",
            "--config",
            "<ConfigPath>",
            "--session",
            "<SessionDirectory>",
            "--manifest",
            "<ManifestPath>",
            "--results",
            "<ResultsPath>",
            "--transcript",
            "<TranscriptPath>",
            "--start-sequence",
            "7",
            "--model",
            "m",
            "--language",
            "en",
            "--device",
            "cpu",
            "--compute-type",
            "int8",
            "--beam-size",
            "5",
            "--vad-enabled",
            "false",
            "--hotword",
            "Emperor Coaltongue",
            "--hotword",
            "Dragon Lance",
        ]
    );
}

#[test]
fn work_manifest_accepts_equal_start_with_numeric_id_order() {
    let mut first = test_item(1, 646_300, 647_000);
    first.discord_user_id = "333965420539150337".to_owned();
    let mut second = copy(&first);
    second.sequence = 2;
    second.id = "session-transcription:000002".to_owned();
    second.discord_user_id = "1070186824502358139".to_owned();

    let items = read_test_work_manifest_authority(&[first, second]).unwrap();

    assert_eq!(items.len(), 2);
    assert_eq!(items[0].discord_user_id, "333965420539150337");
    assert_eq!(items[1].discord_user_id, "1070186824502358139");
}

#[test]
fn work_manifest_equal_start_uses_sequence_for_either_id_order() {
    let mut first = test_item(1, 500, 700);
    for (first_id, second_id) in [
        ("333965420539150337", "1070186824502358139"),
        ("1070186824502358139", "333965420539150337"),
    ] {
        first.discord_user_id = first_id.to_owned();
        let mut second = copy(&first);
        second.sequence = 2;
        second.id = "session-transcription:000002".to_owned();
        second.discord_user_id = second_id.to_owned();

        read_test_work_manifest_authority(&[copy(&first), second]).unwrap();
    }
}

#[test]
fn work_manifest_accepts_exact_sample_starts_rounded_to_same_millisecond() {
    let samples_per_millisecond: u64 = 48;
    let exact_first_start = 646_300 * samples_per_millisecond + 1;
    let exact_second_start = exact_first_start + 1;
    assert_ne!(exact_first_start, exact_second_start);
    assert_eq!(
        exact_first_start / samples_per_millisecond,
        exact_second_start / samples_per_millisecond
    );

    let mut first = test_item(1, 0, 100);
    first.discord_user_id = "9".to_owned();
    first.start_ms = exact_first_start / samples_per_millisecond;
    first.end_ms = first.start_ms + 100;
    first.source_start_ms = first.start_ms;
    first.source_end_ms = first.end_ms;
    let mut second = copy(&first);
    second.sequence = 2;
    second.id = "session-transcription:000002".to_owned();
    second.discord_user_id = "10".to_owned();
    second.start_ms = exact_second_start / samples_per_millisecond;
    second.source_start_ms = second.start_ms;

    read_test_work_manifest_authority(&[first, second]).unwrap();
}

#[test]
fn work_manifest_rejects_decreasing_start_time() {
    let first = test_item(1, 500, 700);
    let second = test_item(2, 499, 701);

    let error = read_test_work_manifest_authority(&[first, second]).unwrap_err();

    assert!(error.text().contains("not in deterministic chronological order"));
}

#[test]
fn work_manifest_still_rejects_sequence_gap_and_duplicate() {
    let first = test_item(1, 0, 100);
    for invalid_sequence in [1, 3] {
        let second = test_item(invalid_sequence, first.end_ms, first.end_ms + 100);
        assert!(read_test_work_manifest_authority(&[copy(&first), second]).is_err());
    }
}

#[test]
fn work_manifest_still_validates_fields_ranges_session_and_source_path() {
    let item = test_item(1, 0, 100);
    let mut invalid_items = Vec::new();

    let mut invalid = copy(&item);
    invalid.format += 1;
    invalid_items.push(invalid);

    let mut invalid = copy(&item);
    invalid.session_id = "another-session".to_owned();
    invalid_items.push(invalid);

    let mut invalid = copy(&item);
    invalid.id = "not-canonical".to_owned();
    invalid_items.push(invalid);

    let mut invalid = copy(&item);
    invalid.end_ms = invalid.start_ms;
    invalid_items.push(invalid);

    let mut invalid = copy(&item);
    invalid.source_end_ms = invalid.source_start_ms;
    invalid_items.push(invalid);

    let mut invalid = copy(&item);
    invalid.speaker = "   ".to_owned();
    invalid_items.push(invalid);

    let mut invalid = copy(&item);
    invalid.role = "spectator".to_owned();
    invalid_items.push(invalid);

    let mut invalid = copy(&item);
    invalid.discord_user_id = "0".to_owned();
    invalid_items.push(invalid);

    let mut invalid = copy(&item);
    invalid.discord_user_id = "not-a-discord-id".to_owned();
    invalid_items.push(invalid);

    let mut invalid = copy(&item);
    invalid.source = "/tmp/user-11.flac".to_owned();
    invalid_items.push(invalid);

    let mut invalid = item;
    invalid.source = "tracks/../../user-11.flac".to_owned();
    invalid_items.push(invalid);

    let record = FakeSession::ready().record();
    for invalid in invalid_items {
        assert!(validate_work_item_for_session(&invalid, &record, None, false).is_err());
        let file = RecordFile {
            path: "work-items.jsonl".to_owned(),
            read: Ok(b"item\n".to_vec()),
            parsed: vec![Ok(invalid)],
        };
        assert!(read_work_manifest_authority(
            &file.read.unwrap(),
            file.parsed,
            &file.path,
            &record
        , false)
        .is_err());
    }
}

#[test]
fn unreadable_manifest_records_are_named() {
    let record = FakeSession::ready().record();
    let read = |bytes: &[u8], parsed: Vec<Result<WorkItem, Failure>>| {
        read_work_manifest_authority(&bytes.to_vec(), parsed, "w.jsonl", &record, false)
            .unwrap_err()
            .message
    };
    let broken = || Err(Failure::from_text("expected value"));
    assert_eq!(
        read(b"{\n", vec![broken()]),
        "malformed work manifest record at line 1 in w.jsonl: expected value"
    );
    assert_eq!(
        read(b"item\n\n", vec![Ok(test_item(1, 0, 100)), broken()]),
        "blank work manifest record at line 2 in w.jsonl"
    );
    assert_eq!(read(b"{", vec![]), "work manifest w.jsonl has a truncated final record");
    assert!(read_work_manifest_authority(&vec![], vec![], "w.jsonl", &record, false).unwrap().is_empty());
    let lone = read_work_manifest_authority(&b"\n".to_vec(), vec![], "w.jsonl", &record, false);
    assert!(lone.unwrap().is_empty());
}

#[test]
fn first_invocation_publishes_results_and_state_before_one_worker() {
    let mut session = FakeSession::ready();

    session.run(&Worker::successful()).unwrap();

    assert_eq!(session.format, SESSION_FORMAT_VERSION);
    assert_eq!(session.state, WorkflowState::Complete);
    assert!(session.has_results);
    assert_eq!(session.committed().len(), 1);
    assert!(session.partial.is_none());
    assert!(session.transcript.is_some());
    assert_eq!(session.invocations, [1]);
}

fn results_file(session: &FakeSession) -> RecordFile<TranscriptionResult> {
    RecordFile {
        path: "results.jsonl".to_owned(),
        read: Ok(session.results.clone()),
        parsed: parse_results(&session.items, &session.results),
    }
}

fn rebuild(session: &FakeSession) -> Result<String, Failure> {
    let results = results_file(session);
    rebuild_transcript(&session.record(), session.manifest_file(), results, false)
}

#[test]
fn rebuild_transcript_replaces_only_the_complete_display_artefact() {
    let mut session = FakeSession::ready();
    session.run(&Worker::successful()).unwrap();
    let results_before = session.results.clone();

    let transcript = rebuild(&session).unwrap();

    assert_eq!(transcript, "[00:00:00] Alice: Result 1\n");
    assert_eq!(session.results, results_before);
}

#[test]
fn rebuild_transcript_refuses_incomplete_or_truncated_authority_without_mutation() {
    let mut session = FakeSession::ready();
    session.run(&Worker::successful()).unwrap();
    session.results.extend_from_slice(b"{\"format\":");
    let truncated = session.results.clone();

    let error = rebuild(&session).unwrap_err();

    assert!(error.text().contains("truncated final result"));
    assert_eq!(session.results, truncated);

    session.results.clear();
    let error = rebuild(&session).unwrap_err();
    assert_eq!(error.text(), "cannot rebuild transcript: committed 0 of 1 work items");

    session.state = WorkflowState::Transcribing;
    let error = rebuild(&session).unwrap_err();
    assert!(error.text().contains("found format 5 state transcribing"));
}

#[test]
fn controlled_restart_repairs_tail_rebuilds_text_and_skips_prefix() {
    let mut session = FakeSession::ready();
    session.start_transcribing();
    let result = complete_result(&session.items[0], "All conversation stays here.");
    let expected = line_of(&result);
    session.results = expected.clone();
    session.results.extend_from_slice(b"{\"format\":");
    session.partial = Some("stale duplicate\n".to_owned());

    session.run(&Worker::successful()).unwrap();

    assert_eq!(session.results, expected);
    assert_eq!(
        session.transcript.as_deref(),
        Some("[00:00:00] Alice: All conversation stays here.\n")
    );
    assert_eq!(session.invocations, [2]);
}

#[test]
fn malformed_interior_result_is_rejected_without_worker_launch() {
    let mut session = FakeSession::ready();
    session.start_transcribing();
    session.results = line_of(&complete_result(&session.items[0], "Committed"));
    session.results.extend_from_slice(b"{not-json}\n");

    let error = session.run(&Worker::successful()).unwrap_err();

    assert!(text_of(error).contains("malformed interior"));
    assert!(session.invocations.is_empty());
}

fn prefix_of(
    items: &Vec<WorkItem>,
    results: Vec<TranscriptionResult>,
) -> Result<Vec<TranscriptionResult>, Failure> {
    let mut bytes = Vec::new();
    for result in &results {
        bytes.extend(line_of(result));
    }
    let parsed = results.into_iter().map(Ok).collect();
    let detailed =
        validate_and_repair_result_prefix_detailed(&Ok(bytes), parsed, "results.jsonl", items)
            .map(|prefix| prefix.results);
    validate_and_repair_result_prefix(detailed)
}

#[test]
fn result_prefix_rejects_gaps_duplicates_and_mismatched_complete_records() {
    let first = test_item(1, 0, 100);
    let second = test_item(2, 100, 200);
    let items = vec![copy(&first), copy(&second)];

    let gap = complete_result(&second, "gap");
    assert!(prefix_of(&items, vec![gap]).unwrap_err().text().contains("does not match"));

    let duplicate = || complete_result(&first, "duplicate");
    assert!(prefix_of(&items, vec![duplicate(), duplicate()]).is_err());

    let mut mismatched = complete_result(&first, "mismatch");
    mismatched.speaker = "Someone else".to_owned();
    assert!(prefix_of(&items, vec![mismatched]).is_err());

    let mut incomplete = complete_result(&first, "incomplete");
    incomplete.status = "failed".to_owned();
    assert!(prefix_of(&items, vec![incomplete]).is_err());

    let whole = vec![complete_result(&first, "one"), complete_result(&second, "two")];
    assert_eq!(prefix_of(&items, whole).unwrap().len(), 2);
}

#[test]
fn repairs_that_fail_are_faults_of_the_results() {
    let items = vec![test_item(1, 0, 100)];
    let unfinished = |repair: RepairFailure| {
        let prefix = validate_and_repair_result_prefix_detailed(
            &Ok(b"{\"format\":".to_vec()),
            vec![],
            "r.jsonl",
            &items,
        )
        .unwrap();
        assert!(prefix.needs_repair);
        assert_eq!(prefix.committed_length, 0);
        conclude_repair(prefix, Err(repair), "r.jsonl", &items).unwrap_err().message
    };
    let lost = || "gone".to_owned();
    assert_eq!(
        unfinished(RepairFailure::Open(lost())),
        "failed to open truncated results r.jsonl for repair: gone"
    );
    assert_eq!(
        unfinished(RepairFailure::Truncate(lost())),
        "failed to truncate result byte tail: gone"
    );
    assert_eq!(
        unfinished(RepairFailure::Synchronise(lost())),
        "failed to synchronise repaired results: gone"
    );
    assert_eq!(
        unfinished(RepairFailure::SynchroniseDirectory(lost())),
        "failed to synchronise repaired result directory: gone"
    );
    let unread = validate_and_repair_result_prefix_detailed(
        &Err(Failure::from_text("gone")),
        vec![],
        "r.jsonl",
        &items,
    )
    .unwrap_err();
    assert_eq!(unread.message, "failed to read results r.jsonl: gone");
    assert_eq!(unread.earliest_unsafe_sequence, 1);
}

#[test]
fn failed_session_publication_does_not_launch_worker() {
    let mut session = FakeSession::ready();
    session.writes_before_failure = Some(0);

    let error = session.run(&Worker::successful()).unwrap_err();

    assert!(error.was_accepted());
    assert!(text_of(error).contains("could not start transcription"));
    assert!(session.invocations.is_empty());
    assert_eq!(session.format, RECORDING_SESSION_FORMAT_VERSION);
    assert_eq!(session.state, WorkflowState::ReadyForTranscription);
    assert_eq!(session.results, b"");
}

#[test]
fn missing_required_artifact_prevents_state_change_and_worker_launch() {
    let mut session = FakeSession::ready();
    session.missing_packets = true;

    let error = session.run(&Worker::successful()).unwrap_err();

    assert!(!error.was_accepted());
    assert_eq!(
        text_of(error),
        "failed to inspect packet journal packets.dat: no such file"
    );
    assert!(session.invocations.is_empty());
    assert_eq!(session.state, WorkflowState::ReadyForTranscription);
    assert_eq!(session.format, RECORDING_SESSION_FORMAT_VERSION);
    assert!(!session.has_results);
}

#[test]
fn worker_failure_records_diagnostics_and_waits_for_operator() {
    let mut session = FakeSession::ready();

    let error = session.run(&Worker::failed()).unwrap_err();

    assert!(text_of(error).contains("status 17"));
    assert_eq!(session.invocations.len(), 1);
    assert_eq!(session.state, WorkflowState::AwaitingOperator);
    assert_eq!(session.failures.len(), 1);
    assert_eq!(session.failures[0].0, "transcription_worker");
    assert!(session.failures[0].1.contains("attempted_start_sequence=1"));
    assert!(session.failures[0].1.contains("next_uncommitted_sequence=1"));
}

#[test]
fn failure_diagnostics_use_results_committed_after_worker_start() {
    let mut session = FakeSession::with_items(&[
        (0, 10_000),
        (20_000, 30_000),
        (40_000, 50_000),
        (60_000, 70_000),
    ]);

    let error = session.run(&Worker::progress_then_failure(3)).unwrap_err();

    assert!(text_of(error).contains("status 23"));
    assert_eq!(session.state, WorkflowState::AwaitingOperator);
    let message = session.last_failure();
    assert!(message.contains("attempted_start_sequence=1"));
    assert!(message.contains("next_uncommitted_sequence=4"));
    assert!(message.contains("next_work_item_id=session-transcription:000004"));
    assert_eq!(session.committed().len(), 3);
}

#[test]
fn malformed_complete_result_after_nonzero_exit_is_durable_and_untouched() {
    let mut session =
        FakeSession::with_items(&[(0, 10_000), (20_000, 30_000), (40_000, 50_000)]);
    let worker = Worker::Ends {
        commits: 1,
        appends: b"{malformed complete record}\n".to_vec(),
        success: false,
        code: Some(31),
    };

    let error = session.run(&worker).unwrap_err();

    assert!(text_of(error).contains("status 31"));
    assert!(session.results.ends_with(b"{malformed complete record}\n"));
    assert_eq!(session.state, WorkflowState::AwaitingOperator);
    let failure = session.last_failure();
    assert!(failure.contains("process=non_zero_exit: status 31"));
    assert!(failure.contains("result_integrity_error=malformed interior"));
    assert!(failure.contains("safely_validated_prefix_length=1"));
    assert!(failure.contains("earliest_unsafe_sequence=2"));
    assert!(failure.contains("earliest_unsafe_work_item_id=session-transcription:000002"));
}

fn mismatched_then_zero(session: &FakeSession) -> Worker {
    let mut result = complete_result(&session.items[0], "Mismatched");
    result.speaker = "Wrong speaker".to_owned();
    Worker::Ends { commits: 0, appends: line_of(&result), success: true, code: Some(0) }
}

#[test]
fn mismatched_result_after_zero_exit_is_durable_and_untouched() {
    let mut session = FakeSession::ready();
    let worker = mismatched_then_zero(&session);

    let error = session.run(&worker).unwrap_err();

    assert!(text_of(error).contains("zero_exit"));
    assert!(session.results.ends_with(b"\n"));
    assert_eq!(session.state, WorkflowState::AwaitingOperator);
    let failure = session.last_failure();
    assert!(failure.contains("process=zero_exit"));
    assert!(failure.contains("result_integrity_error=transcription result sequence 1"));
    assert!(failure.contains("safely_validated_prefix_length=0"));
    assert!(failure.contains("earliest_unsafe_sequence=1"));
    assert!(failure.contains("earliest_unsafe_work_item_id=session-transcription:000001"));
}

#[test]
fn result_integrity_failure_can_remain_recoverably_transcription_failed() {
    let mut session = FakeSession::ready();
    let worker = mismatched_then_zero(&session);
    // Start and failure publication succeed; awaiting_operator fails.
    session.writes_before_failure = Some(2);

    let error = session.run(&worker).unwrap_err();

    assert!(text_of(error).contains("remains transcription_failed"));
    assert_eq!(session.state, WorkflowState::TranscriptionFailed);
    assert!(session
        .last_failure()
        .contains("result_integrity_error=transcription result sequence 1"));
}

#[test]
fn launch_and_signal_failures_are_distinguished_durably() {
    let signal = Worker::Ends { commits: 0, appends: vec![], success: false, code: None };
    for (worker, expected) in
        [(Worker::NotLaunched, "launch_failure"), (signal, "signal_termination")]
    {
        let mut session = FakeSession::ready();

        let error = session.run(&worker).unwrap_err();

        assert!(text_of(error).contains(expected));
        assert_eq!(session.state, WorkflowState::AwaitingOperator);
        assert!(session.last_failure().contains(expected));
    }
}

#[test]
fn stranded_transcription_failed_session_can_continue() {
    let mut session = FakeSession::ready();
    session.writes_before_failure = Some(2);

    let error = session.run(&Worker::failed()).unwrap_err();

    assert!(text_of(error).contains("remains transcription_failed"));
    assert_eq!(session.state, WorkflowState::TranscriptionFailed);

    session.resume(&Worker::successful()).unwrap();

    assert_eq!(session.state, WorkflowState::Complete);
}

#[test]
fn zero_rewind_retains_complete_prefix_without_duplicate_authority() {
    let mut session = FakeSession::with_items(&[
        (0, 10_000),
        (20_000, 30_000),
        (40_000, 50_000),
        (60_000, 70_000),
    ]);
    session.rewind_seconds = 0;
    session.run(&Worker::progress_then_failure(3)).unwrap_err();
    session.invocations.clear();

    session.resume(&Worker::successful()).unwrap();

    assert_eq!(session.invocations[0], 4);
    let results = session.committed();
    assert_eq!(results.len(), 4);
    assert_eq!(
        results.iter().map(|result| result.sequence).collect::<Vec<_>>(),
        [1, 2, 3, 4]
    );
}

#[test]
fn positive_rewind_uses_earliest_intersection_and_contiguous_prefix() {
    let items = [
        test_item(1, 0, 10_000),
        test_item(2, 170_000, 190_000),
        test_item(3, 175_000, 400_000),
        test_item(4, 290_000, 300_000),
    ];
    let results = items
        .iter()
        .map(|item| complete_result(item, "overlap"))
        .collect::<Vec<_>>();

    assert_eq!(calculate_resume_sequence(&results, 120).unwrap(), 2);
    assert_eq!(calculate_resume_sequence(&results, 0).unwrap(), 5);
}

#[test]
fn continuation_repairs_a_truncated_final_result_before_rewind() {
    let mut session = FakeSession::failed_with_results(
        &[(0, 10_000), (130_000, 140_000), (260_000, 270_000)],
        2,
    );
    session.results.extend_from_slice(b"{\"format\":");

    session.resume(&Worker::successful()).unwrap();

    assert_eq!(session.invocations[0], 2);
    assert_eq!(session.committed().len(), 3);
}

#[test]
fn prepared_checkpoint_is_reapplied_without_recalculating_rewind() {
    let mut session =
        FakeSession::failed_with_results(&[(0, 10_000), (20_000, 30_000), (40_000, 50_000)], 3);
    session.checkpoints.push(format!("{RESUME_PREPARED_PREFIX}2"));

    session.resume(&Worker::successful()).unwrap();

    assert_eq!(session.invocations[0], 2);
    assert_eq!(session.committed().len(), 3);
}

#[test]
fn result_replacement_before_applied_checkpoint_is_idempotent() {
    let mut session =
        FakeSession::failed_with_results(&[(0, 10_000), (20_000, 30_000), (40_000, 50_000)], 3);
    session.checkpoints.push(format!("{RESUME_PREPARED_PREFIX}2"));
    session.results = line_of(&complete_result(&session.items[0], "Result 1"));
    session.partial = Some("stale text\n".to_owned());

    session.resume(&Worker::successful()).unwrap();

    assert_eq!(session.invocations[0], 2);
    assert_eq!(
        session.transcript.as_deref(),
        Some(
            "[00:00:00] Alice: Result 1\n\
             [00:00:20] Alice: Result 2\n\
             [00:00:40] Alice: Result 3\n"
        )
    );
}

#[test]
fn applied_checkpoint_failure_is_recoverable_without_second_rewind() {
    let mut session = FakeSession::failed_with_results(
        &[(0, 10_000), (130_000, 140_000), (260_000, 270_000)],
        3,
    );
    // The boundary is recorded; that it was carried out is not.
    session.writes_before_failure = Some(1);

    let error = session.resume(&Worker::successful()).unwrap_err();

    assert!(text_of(error).contains("applied resume state"));
    assert_eq!(session.state, WorkflowState::AwaitingOperator);
    assert!(session.checkpoints.last().unwrap().starts_with(RESUME_PREPARED_PREFIX));
    session.resume(&Worker::successful()).unwrap();
    assert_eq!(session.invocations, [3]);
}

#[test]
fn repeated_failure_without_progress_reuses_attempt_boundary() {
    let mut session =
        FakeSession::failed_with_results(&[(0, 10_000), (130_000, 140_000)], 2);
    session.resume(&Worker::failed()).unwrap_err();

    session.resume(&Worker::failed()).unwrap_err();

    assert_eq!(session.invocations, [2, 2]);
}

#[test]
fn new_progress_allows_one_new_rewind_calculation() {
    let mut session = FakeSession::failed_with_results(
        &[(0, 10_000), (130_000, 140_000), (260_000, 270_000), (390_000, 400_000)],
        2,
    );
    session.resume(&Worker::progress_then_failure(2)).unwrap_err();

    session.resume(&Worker::failed()).unwrap_err();

    assert_eq!(session.invocations, [2, 3]);
}

#[test]
fn transcription_continue_rejects_recording_format_without_mutation() {
    let mut session = FakeSession::ready();

    let error = session.resume(&Worker::successful()).unwrap_err();

    assert!(!error.was_accepted());
    assert!(text_of(error).contains("requires a format-5"));
    assert!(session.invocations.is_empty());
}

#[test]
fn recording_continue_rejects_format_five_without_mutation() {
    let session = FakeSession::failed_with_results(&[(0, 10_000)], 0);
    let evidence = continuation::ContinuationEvidence {
        participants: Ok(()),
        tracks: Err(Failure::from_text("not read")),
        unresolved_ssrcs: Ok(vec![]),
        replay: Err(Failure::from_text("not read")),
    };

    let error = continuation::run(&session.record(), &evidence, "started_", "completed_")
        .unwrap_err();

    assert!(error.text().contains("format-3 or format-4"));
}

#[test]
fn transcription_continue_rejects_transcribing_state() {
    let mut session = FakeSession::ready();
    session.start_transcribing();
    session
        .failures
        .push(("transcription_worker".to_owned(), "historical test evidence".to_owned()));

    let error = session.resume(&Worker::successful()).unwrap_err();

    assert!(text_of(error).contains("awaiting_operator or"));
    assert!(session.invocations.is_empty());
}

#[test]
fn partial_transcript_reconstruction_is_deterministic() {
    let results = vec![
        complete_result(&test_item(1, 0, 10_000), "First"),
        complete_result(&test_item(2, 65_000, 70_000), "Second"),
    ];

    let first = render_transcript(&results);

    assert_eq!(render_transcript(&results), first);
    assert_eq!(first, "[00:00:00] Alice: First\n[00:01:05] Alice: Second\n");
}

#[test]
fn partial_and_final_transcripts_omit_empty_results() {
    let first_item = test_item(1, 0, 10_000);
    let second_item = test_item(2, 10_000, 20_000);
    let results = vec![
        complete_result(&first_item, ""),
        complete_result(&second_item, "Spoken text"),
    ];

    validate_result_matches_work_item(&results[0], &first_item).unwrap();
    assert_eq!(render_transcript(&results), "[00:00:10] Alice: Spoken text\n");
}

#[test]
fn completion_state_failure_is_recoverable_by_explicit_transcribe_retry() {
    let mut session = FakeSession::ready();
    // The start is recorded; the completion is not.
    session.writes_before_failure = Some(1);

    let error = session.run(&Worker::successful()).unwrap_err();

    assert!(text_of(error).contains("completion state"));
    assert_eq!(session.state, WorkflowState::Transcribing);
    assert!(session.transcript.is_some());

    session.run(&Worker::successful()).unwrap();

    assert_eq!(session.state, WorkflowState::Complete);
    assert_eq!(session.committed().len(), 1);
}

#[test]
fn transcript_times_are_padded_and_grow() {
    let item = test_item(1, 3_661_999, 3_700_000);
    assert_eq!(
        transcript_line(&complete_result(&item, "Late")),
        "[01:01:01] Alice: Late\n"
    );
    let item = test_item(1, 400_000_000, 400_000_001);
    assert_eq!(
        transcript_line(&complete_result(&item, "Very late")),
        "[111:06:40] Alice: Very late\n"
    );
}

#[test]
fn incomplete_successes_are_failures() {
    let items = vec![test_item(1, 0, 100), test_item(2, 100, 200)];
    let ended = WorkerOutcome::Exited(WorkerExit { success: true, code: Some(0) });
    let one = Ok(vec![complete_result(&items[0], "one")]);
    let AttemptVerdict::Failed { message, diagnostic } =
        judge_attempt(&ended, &one, &items, 1).unwrap()
    else {
        panic!("one result is missing");
    };
    assert_eq!(diagnostic, "incomplete_zero_exit: committed 1 of 2 work items");
    assert!(message.contains("next_work_item_id=session-transcription:000002"));
    let both = Ok(vec![complete_result(&items[0], "one"), complete_result(&items[1], "two")]);
    assert!(matches!(judge_attempt(&ended, &both, &items, 1).unwrap(), AttemptVerdict::Complete));
}

#[test]
fn resume_boundaries_are_read_from_checkpoints() {
    assert_eq!(parse_resume_sequence("12").unwrap(), 12);
    assert!(parse_resume_sequence("0").is_err());
    assert!(parse_resume_sequence("x").is_err());

    let mut session = FakeSession::failed_with_results(&[(0, 10_000), (20_000, 30_000)], 1);
    assert_eq!(latest_resume_checkpoint(&session.record()).unwrap(), None);
    session.checkpoints = vec![
        format!("{RESUME_PREPARED_PREFIX}1"),
        format!("{RESUME_APPLIED_PREFIX}2"),
        "unrelated".to_owned(),
    ];
    assert_eq!(
        latest_resume_checkpoint(&session.record()).unwrap(),
        Some(ResumeCheckpoint::Applied(2))
    );
    session.checkpoints.push(format!("{RESUME_PREPARED_PREFIX}9"));
    let committed = session.committed();
    assert!(select_resume_plan(&session.record(), &committed, &session.items, 120).is_err());
}

/// The files of a generation that is being filled.
struct Generation {
    name: String,
    results: Vec<u8>,
    transcript: String,
}

impl FakeSession {
    fn complete() -> FakeSession {
        let mut session = FakeSession::ready();
        session.run(&Worker::successful()).unwrap();
        session.invocations.clear();
        session
    }

    fn stage(
        &mut self,
        step: retranscription::Step,
        worker: &Worker,
        generations: &mut Vec<Generation>,
    ) -> Result<retranscription::Event, Failure> {
        match step {
            retranscription::Step::LoadRecord => {
                return Ok(retranscription::Event::Loaded(SESSION_ID.to_owned()));
            }
            retranscription::Step::ValidateAuthority => {
                let results = results_file(self);
                validate_complete_transcription_authority(
                    &self.record(),
                    self.manifest_file(),
                    results,
                    false,
                )?;
            }
            retranscription::Step::BuildItems => {
                return Ok(retranscription::Event::Built(self.items.len()));
            }
            retranscription::Step::ChooseGeneration => {
                let root = GenerationRoot {
                    location: "retranscriptions".to_owned(),
                    resolved: "retranscriptions".to_owned(),
                    real_directory: true,
                    below_session: true,
                };
                let names = generations
                    .iter()
                    .map(|generation| Some(generation.name.clone()))
                    .collect();
                let name = next_generation_directory(&root, &names)?;
                let generation = format!("{RETRANSCRIPTION_DIRECTORY}/{name}");
                generations.push(Generation { name, results: vec![], transcript: String::new() });
                return Ok(retranscription::Event::Chosen {
                    partial_transcript: format!("{generation}/transcript.partial.txt"),
                    generation,
                });
            }
            retranscription::Step::Transcribe => {
                let mut staged = FakeSession::with_items(&[]);
                staged.items = self.items.iter().map(copy).collect();
                let outcome = staged.launch(worker, 1);
                self.invocations.push(1);
                let authority = staged.authority();
                let accepted = accept_staged_results(&outcome, authority, &self.items)?;
                let generation = generations.last_mut().unwrap();
                generation.results = staged.results;
                generation.transcript = render_transcript(&accepted);
            }
            retranscription::Step::Publish => {
                self.write_record()?;
                let generation = generations.last().unwrap();
                self.results = generation.results.clone();
                self.transcript = Some(generation.transcript.clone());
            }
            _ => {}
        }
        Ok(retranscription::Event::Done)
    }

    fn retranscribe(
        &mut self,
        worker: &Worker,
        generations: &mut Vec<Generation>,
    ) -> Result<String, Failure> {
        let mut run = retranscription::run("session");
        while run.step() != retranscription::Step::Finished
            && run.step() != retranscription::Step::Stopped
        {
            let event = match self.stage(run.step(), worker, generations) {
                Ok(event) => event,
                Err(cause) => retranscription::Event::Failed(cause),
            };
            run.observe(event);
        }
        run.conclude()
    }

    fn authority_bytes(&self) -> (Vec<u8>, Option<String>) {
        (self.results.clone(), self.transcript.clone())
    }
}

#[test]
fn successful_retranscription_publishes_one_complete_generation() {
    let mut session = FakeSession::complete();
    let mut generations = Vec::new();

    let report = session.retranscribe(&Worker::successful(), &mut generations).unwrap();

    assert_eq!(
        report,
        "Retranscription completed for session session-transcription; published 1 work item(s) \
         from transcription/retranscriptions/000001."
    );
    assert_eq!(session.invocations, [1]);
    assert_eq!(session.state, WorkflowState::Complete);
    assert_eq!(generations.len(), 1);
    assert_eq!(session.results, generations[0].results);
    assert_eq!(session.transcript.as_deref(), Some("[00:00:00] Alice: Result 1\n"));
}

#[test]
fn worker_failure_preserves_previous_authority_and_complete_state() {
    let mut session = FakeSession::complete();
    let before = session.authority_bytes();

    let error = session.retranscribe(&Worker::failed(), &mut vec![]).unwrap_err();

    assert!(error.text().contains("previous complete transcription"));
    assert_eq!(session.authority_bytes(), before);
    assert_eq!(session.state, WorkflowState::Complete);
}

#[test]
fn malformed_staged_results_do_not_replace_existing_authority() {
    let mut session = FakeSession::complete();
    let before = session.authority_bytes();
    let worker = Worker::Ends {
        commits: 0,
        appends: b"{malformed staged result}\n".to_vec(),
        success: true,
        code: Some(0),
    };

    let error = session.retranscribe(&worker, &mut vec![]).unwrap_err();

    assert!(error.text().contains("staged result validation failed"));
    assert_eq!(session.authority_bytes(), before);
    assert_eq!(session.state, WorkflowState::Complete);
}

#[test]
fn incomplete_staged_results_do_not_replace_existing_authority() {
    let mut session = FakeSession::complete();
    let before = session.authority_bytes();
    let worker = Worker::Ends { commits: 0, appends: vec![], success: true, code: Some(0) };

    let error = session.retranscribe(&worker, &mut vec![]).unwrap_err();

    assert!(error.text().contains("committed 0 of 1 work items"));
    assert_eq!(session.authority_bytes(), before);
}

#[test]
fn failed_session_publication_cannot_mix_old_and_new_authority() {
    let mut session = FakeSession::complete();
    let before = session.authority_bytes();
    session.writes_before_failure = Some(0);

    let error = session.retranscribe(&Worker::successful(), &mut vec![]).unwrap_err();

    assert!(error.text().contains("session authority was not replaced"));
    assert_eq!(session.authority_bytes(), before);
    assert_eq!(session.state, WorkflowState::Complete);
}

#[test]
fn non_complete_entry_is_refused_without_mutation_or_worker() {
    let mut session = FakeSession::complete();
    session.state = WorkflowState::Transcribing;
    let before = session.authority_bytes();
    let mut generations = Vec::new();

    let error = session.retranscribe(&Worker::successful(), &mut generations).unwrap_err();

    assert!(error.text().contains("requires a complete session"));
    assert!(session.invocations.is_empty());
    assert!(generations.is_empty());
    assert_eq!(session.authority_bytes(), before);
}

#[test]
fn damaged_authority_is_not_replaced() {
    let mut session = FakeSession::complete();
    session.results.extend_from_slice(b"{\"format\":");

    let error = session.retranscribe(&Worker::successful(), &mut vec![]).unwrap_err();

    assert!(error.text().contains("truncated final result record"));
    assert!(session.invocations.is_empty());
}

#[test]
fn repeated_retranscription_is_safe_and_rebuilds_from_sequence_one() {
    let mut session = FakeSession::complete();
    let mut generations = Vec::new();

    session.retranscribe(&Worker::successful(), &mut generations).unwrap();
    let first = (generations[0].name.clone(), generations[0].results.clone());
    session.retranscribe(&Worker::successful(), &mut generations).unwrap();

    assert_ne!(generations[1].name, first.0);
    assert_eq!(generations[1].name, "000002");
    assert_eq!(generations[0].results, first.1);
    assert_eq!(session.invocations, [1, 1]);
}

#[test]
fn transcripts_follow_the_clock() {
    let mut session =
        FakeSession::with_items(&[(0, 10_000), (5_000, 20_000), (5_000, 6_000), (65_000, 70_000)]);

    session.run(&Worker::successful()).unwrap();

    assert_eq!(
        session.transcript.as_deref(),
        Some(
            "[00:00:00] Alice: Result 1\n[00:00:05] Alice: Result 2\n\
             [00:00:05] Alice: Result 3\n[00:01:05] Alice: Result 4\n"
        )
    );
    let starts: Vec<u64> = session.committed().iter().map(|result| result.start_ms).collect();
    assert_eq!(starts, [0, 5_000, 5_000, 65_000]);
}

#[test]
fn rewinding_keeps_the_results_before_the_boundary() {
    let results = || {
        let mut results = Vec::new();
        for sequence in 1..=3u64 {
            let start = sequence * 1_000;
            let item = test_item(sequence, start, start + 500);
            results.push(complete_result(&item, "text"));
        }
        results
    };
    for (sequence, kept) in [(1u64, 0usize), (2, 1), (3, 2), (4, 3)] {
        let plan = ResumePlan { sequence, previously_prepared: false };
        let left = kept_results(results(), plan);
        assert_eq!(left.len(), kept);
        assert!(left.iter().zip(results()).all(|(kept, whole)| kept.sequence == whole.sequence));
    }
}

/// A flow that stands at a step.
fn flow_at(step: Step) -> Flow {
    let plan = ResumePlan { sequence: 2, previously_prepared: false };
    let mut flow = match step {
        Step::PublishStart => Flow::begin(WorkflowState::ReadyForTranscription),
        Step::EnterWaiting => Flow::resume(WorkflowState::TranscriptionFailed, plan),
        Step::RecordBoundary | Step::ApplyBoundary => {
            Flow::resume(WorkflowState::AwaitingOperator, plan)
        }
        _ => Flow::begin(WorkflowState::Transcribing),
    };
    while flow.step() != step {
        let event = match flow.step() {
            Step::ReadCommitted => Event::Committed(0),
            Step::RunWorker if step == Step::PublishCompletion => {
                Event::Judged(AttemptVerdict::Complete)
            }
            Step::RunWorker => Event::Judged(AttemptVerdict::Failed {
                message: "message".to_owned(),
                diagnostic: "diagnostic".to_owned(),
            }),
            _ => Event::Done,
        };
        flow.observe(event);
    }
    flow
}

#[test]
fn missing_clocks_are_reported_bare() {
    for step in [
        Step::PublishStart,
        Step::EnterWaiting,
        Step::RecordBoundary,
        Step::ApplyBoundary,
        Step::PublishFailure,
        Step::AwaitOperator,
        Step::PublishCompletion,
    ] {
        let mut flow = flow_at(step);
        flow.observe(Event::NoClock(Failure::from_text("no clock")));
        assert_eq!(flow.step(), Step::Stopped);
        let error = flow.conclude().unwrap_err();
        assert!(error.was_accepted());
        assert_eq!(text_of(error), "no clock");

        let mut flow = flow_at(step);
        flow.observe(Event::Failed(Failure::from_text("no disk")));
        assert_ne!(text_of(flow.conclude().unwrap_err()), "no disk");
    }
}
