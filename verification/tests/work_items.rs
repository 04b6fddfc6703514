//! Candidate ranges and the work items made of them.

use echoscribe::artifacts::{
    LEGACY_WORK_ITEM_MANIFEST_FORMAT_VERSION, WORK_ITEM_MANIFEST_FORMAT_VERSION,
};
use echoscribe::audio::SAMPLES_PER_TICK;
use echoscribe::candidate_ranges::{build_candidate_ranges, AttributedFrame, CandidateRange};
use echoscribe::failure::Failure;
use echoscribe::participants::{
    CurrentFileParticipant, LegacyFileParticipant, LegacyParticipantRole, ParticipantContext,
    TranscriptNameSource,
};
use echoscribe::session::{
    FileDescription, FileKind, InspectedFile, SessionFiles, SessionRecord, WorkflowState,
};
use echoscribe::track_manifest::{TrackDescription, TrackManifest, TrackState};
use echoscribe::transcription::read_work_manifest;
use echoscribe::work_authority::{
    build_items_from_authority, build_retranscription_items, judge_publication, run_with_refiner,
    validate_tracks, Activity, ActivityReplay, AuthorityEvidence, NoopRefiner, RangeRefiner,
};
use echoscribe::work_items::{
    canonical_id_text, comma_join, layout_of_format, line_layout, materialise_work_items,
    samples_to_millis_ceil, samples_to_millis_floor, validate_range, validate_source_alignment,
    validate_work_item, LineLayout, WorkItem, WorkItemLine,
};

fn frame(user: u64, tick: u64) -> AttributedFrame {
    AttributedFrame { discord_user_id: user, tick, samples: SAMPLES_PER_TICK }
}

fn range(user: u64, start: u64, end: u64) -> CandidateRange {
    CandidateRange {
        discord_user_id: user,
        start_sample: start,
        end_sample: end,
        source_start_sample: start,
        source_end_sample: end,
    }
}

fn track(user: u64, name: &str, length_samples: u64) -> TrackDescription {
    TrackDescription::new(
        user,
        name.to_owned(),
        "player".to_owned(),
        None,
        format!("tracks/user-{user}.flac"),
        TrackState::Complete,
        length_samples,
        vec![100],
        None,
    )
}

#[test]
fn nearby_same_user_runs_merge_and_long_gaps_do_not() {
    let ranges =
        build_candidate_ranges(vec![frame(11, 10), frame(11, 20), frame(11, 80)], 750).unwrap();

    assert_eq!(ranges.len(), 2);
    assert_eq!(ranges[0].discord_user_id, 11);
    assert_eq!(ranges[0].start_sample, 10 * SAMPLES_PER_TICK);
    assert_eq!(ranges[0].end_sample, 21 * SAMPLES_PER_TICK);
    assert_eq!(ranges[1].start_sample, 80 * SAMPLES_PER_TICK);
}

#[test]
fn one_frame_of_short_speech_is_retained() {
    let ranges = build_candidate_ranges(vec![frame(11, 10)], 750).unwrap();

    assert_eq!(ranges.len(), 1);
    assert_eq!(ranges[0].end_sample - ranges[0].start_sample, SAMPLES_PER_TICK);
}

#[test]
fn ssrc_independent_frames_for_one_user_share_one_range() {
    // SSRC attribution has already resolved before this boundary; the stable
    // user ID is the only grouping key.
    let ranges = build_candidate_ranges(vec![frame(11, 10), frame(11, 11)], 750).unwrap();

    assert_eq!(ranges.len(), 1);
    assert_eq!(ranges[0].discord_user_id, 11);
    assert_eq!(ranges[0].end_sample, 12 * SAMPLES_PER_TICK);
}

#[test]
fn nonstandard_frames_preserve_exact_source_offsets() {
    let ranges = build_candidate_ranges(
        vec![AttributedFrame { discord_user_id: 11, tick: 10, samples: 480 }, frame(11, 11)],
        750,
    )
    .unwrap();

    assert_eq!(ranges.len(), 1);
    assert_eq!(ranges[0].source_start_sample, 10 * SAMPLES_PER_TICK);
    assert_eq!(
        ranges[0].source_end_sample,
        10 * SAMPLES_PER_TICK + 480 + SAMPLES_PER_TICK
    );
    assert_eq!(ranges[0].end_sample, 12 * SAMPLES_PER_TICK);
}

#[test]
fn reconstructed_source_length_must_match_aligned_track() {
    let ranges = build_candidate_ranges(vec![frame(11, 10)], 750).unwrap();
    let manifest = TrackManifest::new(
        "session-source-length".to_owned(),
        vec![track(11, "Alice", 12 * SAMPLES_PER_TICK)],
    );

    let error = validate_source_alignment(&ranges, &manifest).unwrap_err();

    assert!(error.text().contains("tracks.json records"));
    assert_eq!(
        error.text(),
        "playout activity reconstructs 10560 aligned samples for Discord user 11, but tracks.json records 11520"
    );
}

struct SplitRefiner;

impl RangeRefiner for SplitRefiner {
    fn refine(&self, candidates: Vec<CandidateRange>) -> Result<Vec<CandidateRange>, Failure> {
        let range = &candidates[0];
        let session_midpoint = range.start_sample + SAMPLES_PER_TICK;
        let source_midpoint = range.source_start_sample + SAMPLES_PER_TICK;
        Ok(vec![
            CandidateRange {
                discord_user_id: range.discord_user_id,
                start_sample: range.start_sample,
                end_sample: session_midpoint,
                source_start_sample: range.source_start_sample,
                source_end_sample: source_midpoint,
            },
            CandidateRange {
                discord_user_id: range.discord_user_id,
                start_sample: session_midpoint,
                end_sample: range.end_sample,
                source_start_sample: source_midpoint,
                source_end_sample: range.source_end_sample,
            },
        ])
    }
}

#[test]
fn refinement_interface_can_be_substituted_without_changing_builder() {
    let candidates = build_candidate_ranges(vec![frame(11, 10), frame(11, 11)], 750).unwrap();
    let refined = SplitRefiner.refine(candidates).unwrap();

    assert_eq!(refined.len(), 2);
    assert_eq!(refined[0].end_sample, refined[1].start_sample);
}

fn excluding_context() -> ParticipantContext {
    ParticipantContext::from_legacy_file(
        vec![
            (
                "11".to_owned(),
                LegacyFileParticipant {
                    character: Some("Included".to_owned()),
                    role: LegacyParticipantRole::Gm,
                    transcribe: true,
                },
            ),
            (
                "22".to_owned(),
                LegacyFileParticipant {
                    character: None,
                    role: LegacyParticipantRole::Player,
                    transcribe: false,
                },
            ),
        ],
        "session/participants.toml".to_owned(),
    )
    .unwrap()
}

#[test]
fn excluded_participants_are_removed_before_global_sequencing() {
    let participants = excluding_context();
    let tracks = TrackManifest::new(
        "session-exclusion".to_owned(),
        vec![
            track(11, "Alice", 5 * SAMPLES_PER_TICK),
            track(22, "Astra", 5 * SAMPLES_PER_TICK),
        ],
    );
    let ranges = vec![
        range(11, SAMPLES_PER_TICK, 2 * SAMPLES_PER_TICK),
        range(22, 2 * SAMPLES_PER_TICK, 3 * SAMPLES_PER_TICK),
        range(11, 4 * SAMPLES_PER_TICK, 5 * SAMPLES_PER_TICK),
    ];

    let items =
        materialise_work_items("session-exclusion", ranges, &tracks, &participants).unwrap();

    assert_eq!(items.len(), 2);
    assert_eq!(items[0].sequence, 1);
    assert_eq!(items[1].sequence, 2);
    assert_eq!(items[0].id, "session-exclusion:000001");
    assert_eq!(items[1].id, "session-exclusion:000002");
    assert!(items.iter().all(|item| item.discord_user_id == "11"));
    assert_eq!(items[0].speaker, "Alice");
    assert_eq!(items[0].role, "gm");
    assert_eq!(items[0].character.as_deref(), Some("Included"));
    assert_eq!(items[0].source, "tracks/user-11.flac");
}

fn current_item() -> WorkItem {
    let participants = ParticipantContext::from_current_file(
        TranscriptNameSource::Name,
        vec![(
            "11".to_owned(),
            CurrentFileParticipant {
                name: Some("Stefan".to_owned()),
                role: "speaker".to_owned(),
                transcribe: true,
            },
        )],
        "session/participants.toml".to_owned(),
    )
    .unwrap();
    let tracks = TrackManifest::new_with_format(
        WORK_ITEM_MANIFEST_FORMAT_VERSION,
        "session-generic".to_owned(),
        vec![TrackDescription::new(
            11,
            "Tromador".to_owned(),
            "speaker".to_owned(),
            None,
            "tracks/user-11.flac".to_owned(),
            TrackState::Complete,
            2 * SAMPLES_PER_TICK,
            vec![100],
            None,
        )],
    );
    let ranges = vec![range(11, SAMPLES_PER_TICK, 2 * SAMPLES_PER_TICK)];
    materialise_work_items("session-generic", ranges, &tracks, &participants)
        .unwrap()
        .remove(0)
}

#[test]
fn current_participant_metadata_controls_attribution_and_manifest_schema() {
    let item = current_item();
    assert_eq!(item.format, WORK_ITEM_MANIFEST_FORMAT_VERSION);
    assert_eq!(item.discord_name, "Tromador");
    assert_eq!(item.name.as_deref(), Some("Stefan"));
    assert_eq!(item.speaker, "Stefan");
    assert_eq!(item.role, "speaker");
    assert_eq!(item.character, None);

    // The line of the current layout has no place for a character.
    let WorkItemLine::Current(line) = item.to_line() else {
        panic!("expected the current layout");
    };
    assert_eq!(line.discord_name, "Tromador");
    assert_eq!(line.name.as_deref(), Some("Stefan"));

    let mut inconsistent = item.to_line().into_item();
    inconsistent.speaker = "Entirely Different Person".to_owned();
    assert!(validate_work_item(&inconsistent).is_err());
}

#[test]
fn work_items_survive_their_manifest_lines() {
    let item = current_item();
    assert!(validate_work_item(&item).is_ok());
    let read = item.to_line().into_item();
    assert_eq!(format!("{item:?}"), format!("{read:?}"));

    let tracks = TrackManifest::new("old".to_owned(), vec![track(22, "Bob", 9_600)]);
    let items = materialise_work_items(
        "old",
        vec![range(22, 0, 9_600)],
        &tracks,
        &ParticipantContext::empty_for_test(),
    )
    .unwrap();
    assert_eq!(items[0].format, LEGACY_WORK_ITEM_MANIFEST_FORMAT_VERSION);
    assert!(matches!(items[0].to_line(), WorkItemLine::Legacy(_)));
    let read = items[0].to_line().into_item();
    assert_eq!(format!("{:?}", items[0]), format!("{read:?}"));
}

#[test]
fn manifest_line_formats_choose_their_layout() {
    assert_eq!(layout_of_format(Some(1)).unwrap(), LineLayout::Legacy);
    assert_eq!(layout_of_format(Some(2)).unwrap(), LineLayout::Current);
    assert_eq!(
        layout_of_format(None).unwrap_err().text(),
        "work item format must be an integer"
    );
    assert_eq!(layout_of_format(Some(9)).unwrap(), LineLayout::Current);

    assert_eq!(
        line_layout(&b"{\"format\": 2, \"id\": \"x\"}".to_vec()).unwrap(),
        LineLayout::Current
    );
    assert_eq!(line_layout(&b"{\"format\": 1}".to_vec()).unwrap(), LineLayout::Legacy);
    assert!(line_layout(&b"{\"format\": \"1\"}".to_vec()).is_err());
    assert!(line_layout(&b"{\"id\": 1}".to_vec()).is_err());
    assert_eq!(
        line_layout(&b"{\"format\"".to_vec()).unwrap_err().text(),
        "EOF while parsing an object at line 1 column 9"
    );

    // What follows the value of a line is not the business of its layout.
    assert_eq!(
        line_layout(&b"{\"id\": 1} x".to_vec()).unwrap_err().text(),
        "work item format must be an integer"
    );
    assert_eq!(
        line_layout(&b"{\"format\": \"1\"}{}".to_vec()).unwrap_err().text(),
        "work item format must be an integer"
    );
    assert_eq!(
        line_layout(&b"[{\"format\": 1}]".to_vec()).unwrap_err().text(),
        "work item format must be an integer"
    );
    assert_eq!(line_layout(&b"{\"format\": 2} x".to_vec()).unwrap(), LineLayout::Current);
    assert_eq!(
        line_layout(&b" x{\"format\": 2}".to_vec()).unwrap_err().text(),
        "expected value at line 1 column 2"
    );
}

#[test]
fn millisecond_ranges_round_outwards() {
    assert_eq!(samples_to_millis_floor(95), 1);
    assert_eq!(samples_to_millis_floor(96), 2);
    assert_eq!(samples_to_millis_ceil(96).unwrap(), 2);
    assert_eq!(samples_to_millis_ceil(97).unwrap(), 3);
    assert_eq!(samples_to_millis_ceil(0).unwrap(), 0);
    assert_eq!(
        samples_to_millis_ceil(u64::MAX).unwrap_err().text(),
        "millisecond range conversion overflow"
    );
}

#[test]
fn numbers_are_listed_with_commas() {
    assert_eq!(comma_join(&vec![]), "");
    assert_eq!(comma_join(&vec![7]), "7");
    assert_eq!(comma_join(&vec![11, 22, 3]), "11, 22, 3");
    assert_eq!(canonical_id_text("s", 12), "s:000012");
    assert_eq!(canonical_id_text("s", 12_345_678), "s:12345678");
}

#[test]
fn activity_without_a_track_and_tracks_without_activity_are_refused() {
    let manifest =
        TrackManifest::new("s".to_owned(), vec![track(11, "A", 960), track(22, "B", 960)]);
    let heard = vec![range(11, 0, 960)];
    assert_eq!(
        validate_source_alignment(&heard, &manifest).unwrap_err().text(),
        "complete routine tracks have no attributable playout activity for Discord users 22"
    );
    let stranger = vec![range(33, 0, 960)];
    assert_eq!(
        validate_source_alignment(&stranger, &manifest).unwrap_err().text(),
        "playout activity for Discord user 33 has no routine track"
    );
    let both = vec![range(11, 0, 960), range(22, 0, 960)];
    assert!(validate_source_alignment(&both, &manifest).is_ok());
    assert!(validate_range(&range(11, 5, 5), &manifest.tracks[0]).is_err());
    assert!(validate_range(&range(11, 0, 961), &manifest.tracks[0]).is_err());
    assert!(validate_range(&range(11, 0, 960), &manifest.tracks[0]).is_ok());
}

#[test]
fn frame_times_that_do_not_fit_are_refused() {
    assert!(build_candidate_ranges(vec![frame(1, u64::MAX)], 0).is_err());
    assert!(build_candidate_ranges(vec![frame(1, 1)], u64::MAX).is_err());
    assert!(build_candidate_ranges(vec![], 750).unwrap().is_empty());
}

#[test]
fn items_follow_one_chronological_order() {
    let tracks = TrackManifest::new(
        "s".to_owned(),
        vec![track(11, "A", 100 * 960), track(22, "B", 100 * 960)],
    );
    let ranges = vec![range(22, 9_600, 10_560), range(11, 9_600, 10_560), range(22, 0, 960)];
    let items =
        materialise_work_items("s", ranges, &tracks, &ParticipantContext::empty_for_test())
            .unwrap();
    let order: Vec<(u64, &str, u64)> = items
        .iter()
        .map(|item| (item.sequence, item.discord_user_id.as_str(), item.start_ms))
        .collect();
    assert_eq!(order, vec![(1, "22", 0), (2, "11", 200), (3, "22", 200)]);
}

#[test]
fn distinct_ranges_and_tracks_have_one_order() {
    let (a, b, c) = (0, 1, 2);
    let permutations = [[a, b, c], [a, c, b], [b, a, c], [b, c, a], [c, a, b], [c, b, a]];
    let mut seen = Vec::new();
    for permutation in permutations {
        let users = [33u64, 11, 22];
        let starts = [960u64, 960, 0];
        let tracks: Vec<_> =
            permutation.iter().map(|i| track(users[*i], "T", 100 * 960)).collect();
        let ranges: Vec<_> =
            permutation.iter().map(|i| range(users[*i], starts[*i], 9_600)).collect();
        let manifest = TrackManifest::new("s".to_owned(), tracks);
        let items =
            materialise_work_items("s", ranges, &manifest, &ParticipantContext::empty_for_test())
                .unwrap();
        let order: Vec<_> = items.iter().map(|item| item.discord_user_id.clone()).collect();
        assert_eq!(order, ["22", "11", "33"]);
        seen.push(format!("{manifest:?} {items:?}"));
    }
    assert!(seen.iter().all(|outcome| outcome == &seen[0]));
}

fn description(path: &str, format: u16) -> FileDescription {
    FileDescription { path: path.to_owned(), format }
}

fn session_record(session_id: &str, state: WorkflowState) -> SessionRecord {
    SessionRecord {
        format: 4,
        session_id: session_id.to_owned(),
        state,
        files: SessionFiles {
            packets: description("packets.dat", 1),
            playout: description("playout.dat", 2),
            events: description("events.ndjson", 2),
            participants: description("participants.toml", 1),
            tracks: description("tracks.json", 1),
            work_items: None,
            results: None,
            transcript: None,
        },
        checkpoints: vec![],
        failures: vec![],
    }
}

fn regular(location: &str) -> InspectedFile {
    InspectedFile { location: location.to_owned(), kind: FileKind::Regular }
}

/// A clean recording of two users, one of whom changed source.
fn ready_session_fixture() -> AuthorityEvidence {
    let participants = ParticipantContext::from_legacy_file(
        vec![(
            "11".to_owned(),
            LegacyFileParticipant {
                character: Some("Emperor Coaltongue".to_owned()),
                role: LegacyParticipantRole::parse("GM").unwrap(),
                transcribe: true,
            },
        )],
        "participants.toml".to_owned(),
    )
    .unwrap();
    let activities = [(10, 100), (10, 200), (11, 100), (20, 101), (100, 101)]
        .into_iter()
        .map(|(tick, ssrc)| Activity {
            ssrc,
            tick,
            decoded_samples: u32::try_from(SAMPLES_PER_TICK).unwrap(),
            discord_user_id: Some(if ssrc == 200 { 22 } else { 11 }),
        })
        .collect();
    let tracks = TrackManifest::new(
        "session-work-items".to_owned(),
        vec![
            TrackDescription::new(
                11,
                "Alice".to_owned(),
                "player".to_owned(),
                None,
                "tracks/user-11.flac".to_owned(),
                TrackState::Complete,
                101 * SAMPLES_PER_TICK,
                vec![100, 101],
                None,
            ),
            TrackDescription::new(
                22,
                "Bob".to_owned(),
                "gm".to_owned(),
                Some("Mutable manifest context".to_owned()),
                "tracks/user-22.flac".to_owned(),
                TrackState::Complete,
                11 * SAMPLES_PER_TICK,
                vec![200],
                None,
            ),
        ],
    );
    AuthorityEvidence {
        participants: Ok(participants),
        tracks: Ok(tracks),
        track_files: vec![regular("tracks/user-11.flac"), regular("tracks/user-22.flac")],
        unresolved_ssrcs: Ok(vec![]),
        replay: Ok(ActivityReplay {
            activities,
            truncated_packet_tail: false,
            truncated_playout_tail: false,
            skipped_undecoded: 0,
        }),
    }
}

#[test]
fn complete_session_produces_stable_globally_ordered_manifest() {
    let record = session_record("session-work-items", WorkflowState::ReadyForTranscription);
    let first_items =
        run_with_refiner(&record, &ready_session_fixture(), 750, &NoopRefiner).unwrap();

    assert_eq!(first_items.len(), 3);
    assert_eq!(
        first_items.iter().map(|item| item.discord_user_id.as_str()).collect::<Vec<_>>(),
        ["11", "22", "11"]
    );
    assert_eq!(
        first_items.iter().map(|item| item.id.as_str()).collect::<Vec<_>>(),
        [
            "session-work-items:000001",
            "session-work-items:000002",
            "session-work-items:000003",
        ]
    );
    assert_eq!((first_items[0].start_ms, first_items[0].end_ms), (200, 420));
    assert_eq!((first_items[0].source_start_ms, first_items[0].source_end_ms), (200, 420));
    assert_eq!((first_items[1].start_ms, first_items[1].end_ms), (200, 220));
    assert_eq!((first_items[2].start_ms, first_items[2].end_ms), (2_000, 2_020));
    assert_eq!(first_items[0].speaker, "Alice");
    assert_eq!(first_items[0].role, "gm");
    assert_eq!(first_items[0].character.as_deref(), Some("Emperor Coaltongue"));
    assert_eq!(first_items[1].role, "player");
    assert_eq!(first_items[1].character, None);

    let second_items =
        run_with_refiner(&record, &ready_session_fixture(), 750, &NoopRefiner).unwrap();
    assert_eq!(format!("{first_items:?}"), format!("{second_items:?}"));
    let rebuilt = build_retranscription_items(&record, &ready_session_fixture(), 750).unwrap();
    assert_eq!(format!("{first_items:?}"), format!("{rebuilt:?}"));
    assert_eq!(
        judge_publication(&first_items, "session-work-items", Ok(()), Ok(())).unwrap(),
        "Published 3 chronological work item(s) for session session-work-items."
    );
}

#[test]
fn command_boundary_refuses_a_session_not_ready_for_transcription() {
    let record = session_record("session-wrong-state", WorkflowState::Recording);
    let error =
        run_with_refiner(&record, &ready_session_fixture(), 750, &NoopRefiner).unwrap_err();
    assert!(!error.was_accepted());
    assert!(error.cause().text().contains("ready_for_transcription"));
    assert!(error.cause().text().contains("found recording"));
}

#[test]
fn session_publish_failure_does_not_claim_a_work_manifest_checkpoint() {
    let record = session_record("session-work-items", WorkflowState::ReadyForTranscription);
    let items = run_with_refiner(&record, &ready_session_fixture(), 750, &NoopRefiner).unwrap();
    let failed = judge_publication(
        &items,
        "session-work-items",
        Ok(()),
        Err(Failure::from_text("injected record failure")),
    )
    .unwrap_err();
    assert!(failed.was_accepted());
    assert!(failed.cause().text().contains("session.json could not record it"));
    assert!(failed.cause().text().contains("injected record failure"));
    let unwritten =
        judge_publication(&items, "s", Err(Failure::from_text("disk full")), Ok(())).unwrap_err();
    assert!(unwritten.was_accepted());
    assert_eq!(unwritten.cause().text(), "disk full");
}

#[test]
fn refined_ranges_become_items() {
    let record = session_record("session-work-items", WorkflowState::ReadyForTranscription);
    // Only the first range, of 220 ms, is kept: 20 ms and the rest of it.
    let items =
        build_items_from_authority(&record, &ready_session_fixture(), 750, &SplitRefiner).unwrap();
    assert_eq!(items.len(), 2);
    assert_eq!((items[0].start_ms, items[0].end_ms), (200, 220));
    assert_eq!((items[1].start_ms, items[1].end_ms), (220, 420));
}

#[test]
fn unusable_tracks_are_refused_before_work_is_built() {
    let mut manifest = TrackManifest::new("other".to_owned(), vec![track(11, "A", 960)]);
    let files = vec![regular("tracks/user-11.flac")];
    assert_eq!(
        validate_tracks("mine", &manifest, &files).unwrap_err().text(),
        "track manifest session ID \"other\" does not match session.json ID \"mine\""
    );
    assert!(validate_tracks("other", &manifest, &files).is_ok());
    let files = vec![InspectedFile {
        location: "/s/tracks/user-11.flac".to_owned(),
        kind: FileKind::Other,
    }];
    assert_eq!(
        validate_tracks("other", &manifest, &files).unwrap_err().text(),
        "routine track /s/tracks/user-11.flac is not a regular file"
    );
    let files = vec![InspectedFile {
        location: "/s/tracks/user-11.flac".to_owned(),
        kind: FileKind::Unreadable(Failure::from_text("no such file")),
    }];
    assert_eq!(
        validate_tracks("other", &manifest, &files).unwrap_err().text(),
        "failed to inspect routine track /s/tracks/user-11.flac: no such file"
    );
    manifest.tracks[0].state = TrackState::Incomplete;
    assert_eq!(
        validate_tracks("other", &manifest, &files).unwrap_err().text(),
        "cannot build work items with incomplete tracks for Discord users 11"
    );
}

fn replay_of(evidence: &mut AuthorityEvidence) -> &mut ActivityReplay {
    evidence.replay.as_mut().unwrap()
}

#[test]
fn damaged_or_unattributed_replays_are_refused() {
    let record = session_record("session-work-items", WorkflowState::ReadyForTranscription);
    let refusal = |evidence: &AuthorityEvidence| {
        run_with_refiner(&record, evidence, 750, &NoopRefiner)
            .unwrap_err()
            .into_anyhow()
            .message
    };

    let mut evidence = ready_session_fixture();
    replay_of(&mut evidence).truncated_playout_tail = true;
    assert_eq!(
        refusal(&evidence),
        "cannot build work items with a truncated authoritative journal tail"
    );

    let mut evidence = ready_session_fixture();
    replay_of(&mut evidence).skipped_undecoded = 3;
    assert_eq!(
        refusal(&evidence),
        "cannot build work items: 3 playout decisions lack decoded-sample evidence"
    );

    let mut evidence = ready_session_fixture();
    for activity in replay_of(&mut evidence).activities.iter_mut() {
        if activity.ssrc == 101 || activity.ssrc == 100 {
            activity.discord_user_id = None;
        }
    }
    assert_eq!(
        refusal(&evidence),
        "cannot build work items: decoded PCM cannot be attributed safely for SSRCs 100, 101"
    );
}

fn read_back(items: &[WorkItem], tracks: &TrackManifest) -> Result<Vec<WorkItem>, Failure> {
    let record = session_record("session-built", WorkflowState::ReadyForTranscription);
    let mut bytes = Vec::new();
    for item in items {
        bytes.extend(format!("{}\n", item.id).into_bytes());
    }
    let parsed = items.iter().map(|item| Ok(item.to_line().into_item())).collect();
    read_work_manifest(&bytes, parsed, "work-items.jsonl", &record, tracks, false)
}

#[test]
fn built_work_is_read_back() {
    let participants = |role: &str| {
        ParticipantContext::from_current_file(
            TranscriptNameSource::Discord,
            vec![(
                "11".to_owned(),
                CurrentFileParticipant { name: None, role: role.to_owned(), transcribe: true },
            )],
            "participants.toml".to_owned(),
        )
        .unwrap()
    };
    let tracks = TrackManifest::new("session-built".to_owned(), vec![track(11, "Alice", 4_799)]);
    let ranges = || vec![range(11, 1_000, 4_799), range(11, 0, 960)];

    let items =
        materialise_work_items("session-built", ranges(), &tracks, &participants("gm")).unwrap();
    let read = read_back(&items, &tracks).unwrap();
    assert_eq!(format!("{read:?}"), format!("{items:?}"));
    assert_eq!((read[0].start_ms, read[1].start_ms), (0, 20));
    assert_eq!(read[1].source_end_ms, 100);

    // Transcription accepts the roles player and gm alone.
    let items =
        materialise_work_items("session-built", ranges(), &tracks, &participants("host")).unwrap();
    assert_eq!(
        read_back(&items, &tracks).unwrap_err().text(),
        "invalid or out-of-order work item \"session-built:000001\""
    );
}
