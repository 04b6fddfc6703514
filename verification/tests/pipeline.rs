//! The stages behind a recording, driven as a coordinator drives them.

use echoscribe::failure::Failure;
use echoscribe::operation_lease::{acquire, LeaseDecision, LockAttempt};
use echoscribe::orchestration::{
    continue_stage_aware, has_transcription_authority, load_record, record_accepted_stage_failure,
    run_after_recording, unix_millis_now, Event, FailureRecording, Pipeline, PreparedPipeline,
    StageName, Step,
};
use echoscribe::session::{
    FailureRecord, FileDescription, SessionFiles, SessionRecord, WorkflowState,
    PREVIOUS_SESSION_FORMAT_VERSION, RECORDING_SESSION_FORMAT_VERSION, SESSION_FORMAT_VERSION,
};
use echoscribe::stage::StageError;

#[derive(Clone, Copy)]
enum BuildBehaviour {
    Publish,
    Refuse,
    FailAfterAcceptance,
}

#[derive(Clone, Copy)]
enum TranscriptionBehaviour {
    Complete,
    FailWithPartialOutput,
}

/// A session and the stages that work on it, without a disk.
struct FakeSession {
    format: u16,
    state: WorkflowState,
    has_work: bool,
    has_results: bool,
    failures: Vec<FailureRecord>,
    calls: Vec<&'static str>,
    build: BuildBehaviour,
    transcription: TranscriptionBehaviour,
}

impl FakeSession {
    fn new(state: WorkflowState) -> FakeSession {
        FakeSession {
            format: RECORDING_SESSION_FORMAT_VERSION,
            state,
            has_work: false,
            has_results: false,
            failures: vec![],
            calls: vec![],
            build: BuildBehaviour::Publish,
            transcription: TranscriptionBehaviour::Complete,
        }
    }

    fn record(&self) -> SessionRecord {
        let file = |path: &str| FileDescription { path: path.to_owned(), format: 1 };
        SessionRecord {
            format: self.format,
            session_id: "session-test".to_owned(),
            state: self.state,
            files: SessionFiles {
                packets: file("packets.dat"),
                playout: file("playout.dat"),
                events: file("events.ndjson"),
                participants: file("participants.toml"),
                tracks: file("tracks.json"),
                work_items: if self.has_work { Some(file("work")) } else { None },
                results: if self.has_results { Some(file("results")) } else { None },
                transcript: None,
            },
            checkpoints: vec![],
            failures: vec![],
        }
    }

    fn snapshot(&self) -> (u16, WorkflowState, bool, bool, usize) {
        (self.format, self.state, self.has_work, self.has_results, self.failures.len())
    }

    fn publish_work_manifest(&mut self) {
        self.has_work = true;
        self.format = RECORDING_SESSION_FORMAT_VERSION;
    }

    fn publish_transcription_start(&mut self) {
        self.has_results = true;
        self.format = SESSION_FORMAT_VERSION;
        self.state = WorkflowState::Transcribing;
    }

    fn fail(&mut self, kind: &str, message: &str) {
        self.failures.push(FailureRecord {
            state: self.state,
            kind: kind.to_owned(),
            message: message.to_owned(),
        });
    }

    fn perform(&mut self, pipeline: &Pipeline) -> Event {
        match pipeline.step() {
            Step::ValidateRecording => {
                self.calls.push("validate_recording");
                self.state = WorkflowState::ReadyForTranscription;
                Event::Done
            }
            Step::BuildWorkItems => {
                self.calls.push("build");
                match self.build {
                    BuildBehaviour::Publish => {
                        self.publish_work_manifest();
                        Event::Done
                    }
                    BuildBehaviour::Refuse => Event::StageFailed(StageError::refused(
                        Failure::from_text("manifest validation refused"),
                    )),
                    BuildBehaviour::FailAfterAcceptance => Event::StageFailed(
                        StageError::accepted(Failure::from_text("manifest publication failed")),
                    ),
                }
            }
            Step::Transcribe => {
                self.calls.push("transcribe");
                if self.state == WorkflowState::ReadyForTranscription {
                    self.publish_transcription_start();
                }
                match self.transcription {
                    TranscriptionBehaviour::Complete => {
                        self.state = WorkflowState::Complete;
                        Event::Done
                    }
                    TranscriptionBehaviour::FailWithPartialOutput => {
                        self.fail("transcription", "injected worker failure");
                        self.state = WorkflowState::AwaitingOperator;
                        Event::StageFailed(StageError::accepted(Failure::from_text(
                            "worker failed",
                        )))
                    }
                }
            }
            Step::ContinueTranscription => {
                self.calls.push("continue_transcription");
                self.state = WorkflowState::Complete;
                Event::Done
            }
            Step::PublishFailure => {
                let kind = pipeline.failed_stage().as_str();
                self.fail(kind, pipeline.failure_message());
                self.state = WorkflowState::AwaitingOperator;
                Event::Done
            }
            Step::PublishTranscriptionFailure => {
                self.fail("transcription", pipeline.failure_message());
                self.state = WorkflowState::TranscriptionFailed;
                Event::Done
            }
            Step::AwaitOperator => {
                self.state = WorkflowState::AwaitingOperator;
                Event::Done
            }
            _ => Event::Loaded(Ok(self.record())),
        }
    }

    fn drive(&mut self, mut pipeline: Pipeline) -> Result<(), Failure> {
        while pipeline.step() != Step::Finished && pipeline.step() != Step::Stopped {
            let event = self.perform(&pipeline);
            pipeline.observe(event);
        }
        pipeline.conclude()
    }

    fn after_recording(&mut self) -> Result<(), Failure> {
        self.drive(run_after_recording("/session"))
    }

    fn continued(&mut self) -> Result<(), Failure> {
        self.drive(continue_stage_aware("/session"))
    }
}

#[test]
fn clean_pipeline_crosses_every_post_recording_state() {
    let mut session = FakeSession::new(WorkflowState::ReadyForTranscription);

    session.after_recording().unwrap();

    assert_eq!(session.calls, ["build", "transcribe"]);
    assert_eq!(session.state, WorkflowState::Complete);
}

#[test]
fn published_work_manifest_is_reused() {
    let mut session = FakeSession::new(WorkflowState::ReadyForTranscription);
    session.publish_work_manifest();

    session.after_recording().unwrap();

    assert_eq!(session.calls, ["transcribe"]);
}

#[test]
fn format_three_ready_session_is_upgraded_then_completed() {
    let mut session = FakeSession::new(WorkflowState::ReadyForTranscription);
    session.format = PREVIOUS_SESSION_FORMAT_VERSION;

    session.continued().unwrap();

    assert_eq!(session.calls, ["build", "transcribe"]);
    assert_eq!(session.format, SESSION_FORMAT_VERSION);
    assert_eq!(session.state, WorkflowState::Complete);
}

#[test]
fn accepted_manifest_failure_waits_without_starting_transcription() {
    let mut session = FakeSession::new(WorkflowState::ReadyForTranscription);
    session.build = BuildBehaviour::FailAfterAcceptance;

    let error = session.after_recording().unwrap_err();

    assert!(error.text().contains("safe boundary"));
    assert_eq!(session.calls, ["build"]);
    assert_eq!(session.state, WorkflowState::AwaitingOperator);
    assert_eq!(session.failures.last().unwrap().kind, "work_manifest_build");
    assert_eq!(session.failures.last().unwrap().message, "manifest publication failed");
}

#[test]
fn configured_continuation_retries_the_failed_manifest_boundary() {
    let mut session = FakeSession::new(WorkflowState::ReadyForTranscription);
    session.build = BuildBehaviour::FailAfterAcceptance;
    session.after_recording().unwrap_err();
    session.build = BuildBehaviour::Publish;
    session.calls.clear();

    session.continued().unwrap();

    assert_eq!(session.calls, ["validate_recording", "build", "transcribe"]);
    assert_eq!(session.state, WorkflowState::Complete);
}

#[test]
fn transcription_failure_stops_with_partial_outputs() {
    let mut session = FakeSession::new(WorkflowState::ReadyForTranscription);
    session.transcription = TranscriptionBehaviour::FailWithPartialOutput;

    let error = session.after_recording().unwrap_err();

    assert!(error.text().contains("safe boundary"));
    assert_eq!(session.calls, ["build", "transcribe"]);
    assert_eq!(session.state, WorkflowState::AwaitingOperator);
    // The stage has filed its failure itself; nothing is added to it.
    assert_eq!(session.failures.len(), 1);
    assert!(session.has_results);
}

#[test]
fn validation_refusal_does_not_mutate_authority() {
    let mut session = FakeSession::new(WorkflowState::ReadyForTranscription);
    session.build = BuildBehaviour::Refuse;
    let before = session.snapshot();

    let error = session.after_recording().unwrap_err();

    assert!(error.text().contains("validation refused"));
    assert_eq!(session.snapshot(), before);
    assert_eq!(session.calls, ["build"]);
}

#[test]
fn configured_continuation_validates_recovery_then_resumes_pipeline() {
    let mut session = FakeSession::new(WorkflowState::AwaitingOperator);

    session.continued().unwrap();

    assert_eq!(session.calls, ["validate_recording", "build", "transcribe"]);
    assert_eq!(session.state, WorkflowState::Complete);
}

#[test]
fn configured_continuation_uses_controlled_restart_for_transcribing() {
    let mut session = FakeSession::new(WorkflowState::ReadyForTranscription);
    session.publish_work_manifest();
    session.publish_transcription_start();

    session.continued().unwrap();

    assert_eq!(session.calls, ["transcribe"]);
    assert_eq!(session.state, WorkflowState::Complete);
}

#[test]
fn configured_continuation_routes_transcription_failure_to_rewind_stage() {
    let mut session = FakeSession::new(WorkflowState::ReadyForTranscription);
    session.publish_work_manifest();
    session.publish_transcription_start();
    session.fail("transcription", "injected transcription failure");
    session.state = WorkflowState::AwaitingOperator;

    session.continued().unwrap();

    assert_eq!(session.calls, ["continue_transcription"]);
    assert_eq!(session.state, WorkflowState::Complete);
}

#[test]
fn completed_session_refuses_duplicate_normal_continuation() {
    let mut session = FakeSession::new(WorkflowState::ReadyForTranscription);
    session.publish_work_manifest();
    session.publish_transcription_start();
    session.state = WorkflowState::Complete;
    let before = session.snapshot();

    let error = session.continued().unwrap_err();

    assert!(error.text().contains("cannot route"));
    assert_eq!(
        error.text(),
        "continue <session> <config> cannot route format 5 state complete with the current work/results authority"
    );
    assert!(session.calls.is_empty());
    assert_eq!(session.snapshot(), before);
}

#[test]
fn unfit_sessions_are_refused_after_recording() {
    let mut session = FakeSession::new(WorkflowState::RecordedClean);
    assert_eq!(
        session.after_recording().unwrap_err().text(),
        "one-stop post-recording orchestration requires a format-4 ready_for_transcription session without results; found format 4 state recorded_clean"
    );
    let mut session = FakeSession::new(WorkflowState::ReadyForTranscription);
    session.format = PREVIOUS_SESSION_FORMAT_VERSION;
    assert!(session.after_recording().unwrap_err().text().contains("found format 3"));
    assert!(session.calls.is_empty());
}

#[test]
fn stages_that_leave_the_wrong_record_are_recorded() {
    // The builder reports success but publishes nothing.
    let mut pipeline = run_after_recording("/session");
    let session = FakeSession::new(WorkflowState::ReadyForTranscription);
    pipeline.observe(Event::Loaded(Ok(session.record())));
    pipeline.observe(Event::Loaded(Ok(session.record())));
    assert_eq!(pipeline.step(), Step::BuildWorkItems);
    pipeline.observe(Event::Done);
    pipeline.observe(Event::Loaded(Ok(session.record())));
    assert_eq!(pipeline.step(), Step::ReloadAuthority);
    pipeline.observe(Event::Loaded(Ok(session.record())));
    assert_eq!(pipeline.step(), Step::PublishFailure);
    assert_eq!(pipeline.failed_stage(), StageName::WorkManifestBuild);
    assert_eq!(
        pipeline.failure_message(),
        "work-manifest stage did not leave a reusable ready_for_transcription authority"
    );
    pipeline.observe(Event::Failed(Failure::from_text("disk full")));
    assert_eq!(
        pipeline.conclude().unwrap_err().text(),
        "stage failed and durable awaiting_operator publication also failed: disk full"
    );
}

fn transcribing() -> FakeSession {
    let mut session = FakeSession::new(WorkflowState::ReadyForTranscription);
    session.publish_work_manifest();
    session.publish_transcription_start();
    session
}

#[test]
fn unfinished_transcriptions_are_failed_and_left_waiting() {
    // The stage reports success but the session is still being transcribed.
    let mut pipeline = continue_stage_aware("/session");
    let session = transcribing();
    pipeline.observe(Event::Loaded(Ok(session.record())));
    assert_eq!(pipeline.step(), Step::Transcribe);
    pipeline.observe(Event::Done);
    pipeline.observe(Event::Loaded(Ok(session.record())));
    pipeline.observe(Event::Loaded(Ok(session.record())));
    assert_eq!(pipeline.step(), Step::PublishTranscriptionFailure);
    let source = "transcription stage returned successfully without completing session session-test; found transcribing";
    assert_eq!(
        pipeline.failure_message(),
        format!("process=orchestration_failure; stage=transcription_orchestration; error={source}")
    );
    pipeline.observe(Event::Done);
    assert_eq!(pipeline.step(), Step::AwaitOperator);
    pipeline.observe(Event::Done);
    assert_eq!(
        pipeline.conclude().unwrap_err().text(),
        format!("one-stop workflow stopped at a safe boundary; session is awaiting operator action: {source}")
    );
}

#[test]
fn failures_to_record_a_failure_are_reported() {
    let lost = || Failure::from_text("gone");
    let failed = |event: Event| {
        let mut pipeline = continue_stage_aware("/session");
        pipeline.observe(Event::Loaded(Ok(transcribing().record())));
        pipeline.observe(Event::StageFailed(StageError::accepted(Failure::from_text("broken"))));
        pipeline.observe(event);
        pipeline
    };
    assert_eq!(
        failed(Event::Loaded(Err(lost()))).conclude().unwrap_err().text(),
        "stage failed (broken) and current workflow authority could not be reloaded: gone"
    );
    let mut session = transcribing();
    session.state = WorkflowState::Complete;
    assert_eq!(
        failed(Event::Loaded(Ok(session.record()))).conclude().unwrap_err().text(),
        "stage failed (broken) after authority unexpectedly reached complete"
    );
    let mut pipeline = failed(Event::Loaded(Ok(transcribing().record())));
    pipeline.observe(Event::Failed(lost()));
    assert_eq!(
        pipeline.conclude().unwrap_err().text(),
        "stage failed and durable transcription failure publication also failed: gone"
    );
    let mut pipeline = failed(Event::Loaded(Ok(transcribing().record())));
    pipeline.observe(Event::Done);
    pipeline.observe(Event::Failed(lost()));
    assert_eq!(
        pipeline.conclude().unwrap_err().text(),
        "transcription failure is durable but awaiting_operator publication failed: gone"
    );
    let mut pipeline = failed(Event::Loaded(Ok(transcribing().record())));
    pipeline.observe(Event::NoClock(Failure::from_text("no clock")));
    assert_eq!(pipeline.conclude().unwrap_err().text(), "no clock");
}

#[test]
fn records_that_cannot_be_loaded_refuse_or_fail() {
    let mut pipeline = continue_stage_aware("/session");
    pipeline.observe(Event::Loaded(Err(Failure::from_text("gone"))));
    assert_eq!(
        pipeline.conclude().unwrap_err().text(),
        "failed to load workflow state from /session: gone"
    );

    let mut pipeline = continue_stage_aware("/session");
    pipeline.observe(Event::Loaded(Ok(transcribing().record())));
    pipeline.observe(Event::Done);
    pipeline.observe(Event::Loaded(Err(Failure::from_text("gone"))));
    assert_eq!(pipeline.step(), Step::ReloadAuthority);

    assert_eq!(
        load_record("/s", Err(Failure::from_text("gone"))).unwrap_err().text(),
        "failed to load workflow state from /s: gone"
    );
    assert_eq!(load_record("/s", Ok(transcribing().record())).unwrap().format, 5);
    assert!(has_transcription_authority(&transcribing().record()));
}

#[test]
fn stage_failures_are_filed_by_the_state_they_meet() {
    let ready = record_accepted_stage_failure(
        StageName::WorkManifestBuild,
        "broken",
        &Ok(WorkflowState::ReadyForTranscription),
    );
    assert!(matches!(ready, Ok(FailureRecording::Orchestration(message)) if message == "broken"));
    for state in [WorkflowState::AwaitingOperator, WorkflowState::TranscriptionFailed] {
        let recorded =
            record_accepted_stage_failure(StageName::Transcription, "broken", &Ok(state));
        assert!(matches!(recorded, Ok(FailureRecording::AlreadyRecorded)));
    }
}

#[test]
fn configuration_mistakes_are_reported_in_order() {
    let wrong = |text: &str| Failure::from_text(text);
    let both = PreparedPipeline::<u8>::load(Err(wrong("gap")), Err(wrong("model")));
    assert_eq!(both.unwrap_err().text(), "gap");
    let second = PreparedPipeline::<u8>::load(Ok(750), Err(wrong("model")));
    assert_eq!(second.unwrap_err().text(), "model");
    let prepared = PreparedPipeline::load(Ok(750), Ok(3u8)).unwrap();
    assert_eq!((prepared.merge_gap_ms, prepared.transcription), (750, 3));
}

#[test]
fn pipeline_timestamps_fit_their_record() {
    assert_eq!(unix_millis_now(Ok(12)).unwrap(), 12);
    assert_eq!(
        unix_millis_now(Err(Failure::from_text("early"))).unwrap_err().text(),
        "system clock is before Unix epoch: early"
    );
    assert_eq!(
        unix_millis_now(Ok(1 << 64)).unwrap_err().text(),
        format!(
            "Unix timestamp does not fit in u64: {}",
            u64::try_from(1u128 << 64).unwrap_err()
        )
    );
    assert_eq!(
        echoscribe::clock::unix_millis_now(Err(Failure::from_text("early"))).unwrap_err().text(),
        "system clock precedes Unix epoch: early"
    );
    assert_eq!(
        echoscribe::clock::unix_millis_now(Ok(1 << 64)).unwrap_err().text(),
        "current Unix timestamp does not fit in u64"
    );
    assert_eq!(echoscribe::clock::unix_millis_now(Ok(u64::MAX as u128)).unwrap(), u64::MAX);
}

#[test]
fn leases_are_tried_twice() {
    assert!(matches!(acquire(0, LockAttempt::Locked, "s", "l"), LeaseDecision::Acquired));
    assert!(matches!(acquire(0, LockAttempt::WouldBlock, "s", "l"), LeaseDecision::Retry));
    assert!(matches!(acquire(1, LockAttempt::Locked, "s", "l"), LeaseDecision::Acquired));
    let LeaseDecision::Refused(held) = acquire(1, LockAttempt::WouldBlock, "s", "l") else {
        panic!("the lock is held");
    };
    assert_eq!(
        held.text(),
        "another mutating operation is already active for session s; lease l is held"
    );
    let broken = LockAttempt::Error(Failure::from_text("unsupported"));
    let LeaseDecision::Refused(refusal) = acquire(0, broken, "s", "l") else {
        panic!("the lock cannot be taken");
    };
    assert_eq!(refusal.text(), "failed to acquire session operation lease l: unsupported");
}
