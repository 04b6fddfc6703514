//! Continuing a recording that waited for its operator.

use echoscribe::audio::SAMPLES_PER_TICK;
use echoscribe::continuation::{
    judge_publication, legacy_capture_drop_counts, parse_checkpoint_user, run,
    validate_historical_failures, ContinuationEvidence, RecoveryEvidence,
};
use echoscribe::failure::Failure;
use echoscribe::session::{
    CheckpointRecord, FailureRecord, FileDescription, SessionFiles, SessionRecord, WorkflowState,
};
use echoscribe::track_manifest::{TrackDescription, TrackManifest, TrackState};
use echoscribe::work_authority::{Activity, ActivityReplay};

const STARTED: &str = "recovery_started_";
const COMPLETED: &str = "recovery_completed_";

fn file(path: &str) -> FileDescription {
    FileDescription { path: path.to_owned(), format: 1 }
}

fn checkpoint(stage: &str) -> CheckpointRecord {
    CheckpointRecord { completed_at_unix_millis: 2_500, stage: stage.to_owned() }
}

/// A session whose one speaker, user 11, has an incomplete track.
struct Fixture {
    record: SessionRecord,
    evidence: ContinuationEvidence,
}

fn track(user: u64, state: TrackState) -> TrackDescription {
    let (path, reason) = match state {
        TrackState::Complete => (format!("tracks/user-{user}.flac"), None),
        TrackState::Incomplete => {
            (format!("tracks/user-{user}.flac.part"), Some("encoder_error".to_owned()))
        }
    };
    TrackDescription::new(
        user,
        format!("User {user}"),
        "player".to_owned(),
        None,
        path,
        state,
        SAMPLES_PER_TICK,
        vec![100],
        reason,
    )
}

fn heard(tick: u64, ssrc: u32, user: Option<u64>) -> Activity {
    Activity {
        ssrc,
        tick,
        decoded_samples: u32::try_from(SAMPLES_PER_TICK).unwrap(),
        discord_user_id: user,
    }
}

fn fixture() -> Fixture {
    Fixture {
        record: SessionRecord {
            format: 4,
            session_id: "session-continuation".to_owned(),
            state: WorkflowState::AwaitingOperator,
            files: SessionFiles {
                packets: file("packets.dat"),
                playout: file("playout.dat"),
                events: file("events.ndjson"),
                participants: file("participants.toml"),
                tracks: file("tracks.json"),
                work_items: None,
                results: None,
                transcript: None,
            },
            checkpoints: vec![],
            failures: vec![],
        },
        evidence: ContinuationEvidence {
            participants: Ok(()),
            tracks: Ok(TrackManifest::new(
                "session-continuation".to_owned(),
                vec![track(11, TrackState::Incomplete)],
            )),
            unresolved_ssrcs: Ok(vec![]),
            replay: Ok(ActivityReplay {
                activities: vec![heard(10, 100, Some(11))],
                truncated_packet_tail: false,
                truncated_playout_tail: false,
                skipped_undecoded: 0,
            }),
        },
    }
}

impl Fixture {
    fn recover(&mut self) {
        self.evidence.tracks = Ok(TrackManifest::new(
            "session-continuation".to_owned(),
            vec![track(11, TrackState::Complete)],
        ));
        self.record.checkpoints.push(checkpoint("recovery_started_11"));
        self.record.checkpoints.push(checkpoint("recovery_completed_11"));
    }

    fn fail(&mut self, kind: &str, message: &str) {
        self.record.failures.push(FailureRecord {
            state: WorkflowState::AwaitingOperator,
            kind: kind.to_owned(),
            message: message.to_owned(),
        });
    }

    fn replay(&mut self) -> &mut ActivityReplay {
        self.evidence.replay.as_mut().unwrap()
    }

    fn run(&self) -> Result<(), Failure> {
        run(&self.record, &self.evidence, STARTED, COMPLETED)
    }
}

#[test]
fn continue_refuses_while_a_required_track_is_incomplete() {
    let error = fixture().run().unwrap_err();
    assert!(error.text().contains("no complete routine track for Discord users 11"));
}

#[test]
fn continue_accepts_a_healthy_recovered_recording() {
    let mut session = fixture();
    session.recover();
    session.run().unwrap();
    assert_eq!(
        judge_publication(1, "session-continuation", &Ok(())).unwrap(),
        "Validated 1 routine track(s); session session-continuation is ready for transcription."
    );
}

#[test]
fn authoritative_capture_loss_still_blocks_after_track_recovery() {
    let mut session = fixture();
    session.recover();
    session.fail(
        "capture_queue_drop",
        "capture queue rejected 2 records while full and 0 records after closure, including 1 decoded-audio records",
    );

    let error = session.run().unwrap_err();

    assert!(error.text().contains("authoritative records"));
}

#[test]
fn audio_only_capture_loss_requires_every_track_to_be_recovered() {
    let mut session = fixture();
    session.recover();
    session.fail(
        "capture_queue_drop",
        "capture queue rejected 1 records while full and 0 records after closure, including 1 decoded-audio records",
    );
    session.run().unwrap();

    // The same loss, with the track complete but never recovered.
    session.record.checkpoints.clear();
    assert!(session.run().is_err());
}

#[test]
fn failed_ready_publication_remains_awaiting_operator() {
    let mut session = fixture();
    session.recover();
    session.run().unwrap();

    let error = judge_publication(
        1,
        "session-continuation",
        &Err(Failure::from_text("injected record write failure")),
    )
    .unwrap_err();

    assert!(error.text().contains("ready_for_transcription"));
    assert_eq!(echoscribe::continuation::CONTINUATION_FAILURE_KIND, "recording_continuation");
}

#[test]
fn continuation_requires_manifest_coverage_for_every_replayed_user() {
    let mut session = fixture();
    session.recover();
    session.replay().activities = vec![heard(10, 100, Some(11)), heard(11, 200, Some(22))];

    let error = session.run().unwrap_err();

    assert!(error.text().contains("no complete routine track for Discord users 22"));
}

#[test]
fn continuation_refuses_unattributed_replayed_pcm() {
    let mut session = fixture();
    session.recover();
    session.replay().activities = vec![heard(10, 999, None)];

    let error = session.run().unwrap_err();

    assert!(error.text().contains("attributed safely for SSRCs 999"));
}

#[test]
fn damaged_recordings_are_not_continued() {
    let mut session = fixture();
    session.recover();
    session.replay().truncated_packet_tail = true;
    assert_eq!(
        session.run().unwrap_err().text(),
        "cannot continue with a truncated authoritative journal tail"
    );

    let mut session = fixture();
    session.recover();
    session.replay().skipped_undecoded = 2;
    assert_eq!(
        session.run().unwrap_err().text(),
        "cannot continue: 2 playout decisions lack decoded-sample evidence"
    );

    let mut session = fixture();
    session.recover();
    session.evidence.unresolved_ssrcs = Ok(vec![300, 7]);
    assert_eq!(
        session.run().unwrap_err().text(),
        "cannot continue while SSRC mapping evidence remains unresolved for 7, 300"
    );

    let mut session = fixture();
    session.recover();
    session.record.session_id = "mine".to_owned();
    assert_eq!(
        session.run().unwrap_err().text(),
        "track manifest session ID \"session-continuation\" does not match session.json ID \"mine\""
    );

    let mut session = fixture();
    session.recover();
    session.record.state = WorkflowState::Complete;
    assert_eq!(
        session.run().unwrap_err().text(),
        "continue <session> requires a format-3 or format-4 awaiting_operator session without transcription results; found format 4 state complete"
    );

    let mut session = fixture();
    session.recover();
    session.evidence.participants = Err(Failure::from_text("no snapshot"));
    assert_eq!(session.run().unwrap_err().text(), "no snapshot");
}

#[test]
fn unfinished_recoveries_block() {
    let mut session = fixture();
    session.recover();
    session.record.checkpoints.push(checkpoint("recovery_started_22"));
    assert!(session.run().unwrap_err().text().contains("22"));

    let evidence = RecoveryEvidence::from_session(&session.record, STARTED, COMPLETED).unwrap();
    assert!(evidence.completed(11));
    assert!(!evidence.completed(22));
    assert!(!evidence.nothing_completed());
    assert!(evidence.validate_complete_attempts().is_err());

    session.record.checkpoints.push(checkpoint("recovery_completed_nobody"));
    assert!(RecoveryEvidence::from_session(&session.record, STARTED, COMPLETED).is_err());
    assert_eq!(parse_checkpoint_user("11").unwrap(), 11);
    assert!(parse_checkpoint_user("eleven").is_err());
}

#[test]
fn capture_drop_counts_are_read_from_their_sentence() {
    assert_eq!(
        legacy_capture_drop_counts(
            "capture queue rejected 2 records while full and 3 records after closure, including 4 decoded-audio records"
        ),
        Some((5, 4))
    );
    assert_eq!(legacy_capture_drop_counts("something else"), None);
    let huge = format!(
        "capture queue rejected {} records while full and 1 records after closure, including 0 decoded-audio records",
        u64::MAX
    );
    assert_eq!(legacy_capture_drop_counts(&huge), None);
}

#[test]
fn historical_failures_are_weighed_by_kind() {
    let manifest = TrackManifest::new(
        "s".to_owned(),
        vec![track(11, TrackState::Complete), track(22, TrackState::Complete)],
    );
    let mut session = fixture();
    let unrecovered =
        RecoveryEvidence::from_session(&session.record, STARTED, COMPLETED).unwrap();
    session.recover();
    let recovered = RecoveryEvidence::from_session(&session.record, STARTED, COMPLETED).unwrap();
    let weigh = |kind: &str, recovery: &RecoveryEvidence| {
        let failures = vec![FailureRecord {
            state: WorkflowState::Recording,
            kind: kind.to_owned(),
            message: "words".to_owned(),
        }];
        validate_historical_failures(&failures, &manifest, recovery)
    };

    assert!(validate_historical_failures(&vec![], &manifest, &unrecovered).is_ok());
    assert!(weigh("gateway_terminated", &unrecovered).is_ok());
    assert_eq!(
        weigh("capture_consumer", &recovered).unwrap_err().text(),
        "authoritative recording fault remains unresolved: words"
    );
    assert_eq!(
        weigh("capture_queue_drop", &recovered).unwrap_err().text(),
        "capture queue loss may include authoritative records and remains unresolved: words"
    );
    assert_eq!(
        weigh("live_flac_encoder", &unrecovered).unwrap_err().text(),
        "derived track failures remain without a durable successful recovery result"
    );
    assert!(weigh("live_flac_encoder", &recovered).is_ok());
    assert_eq!(
        weigh("capture_audio_drop", &recovered).unwrap_err().text(),
        "decoded-audio ingress loss requires recovery of every routine track; missing users 22"
    );
}
