//! Track manifests, their verification, and replacement transcriptions.

use echoscribe::failure::Failure;
use echoscribe::retranscription::{
    self, next_generation_directory, relative_path, GenerationRoot, StagedPath,
};
use echoscribe::session::{FileDescription, SessionFiles, SessionRecord, WorkflowState};
use echoscribe::track_manifest::{
    invalid_data, validate_relative_path, ErrorKind, TrackDescription, TrackManifest, TrackState,
};
use echoscribe::verify_tracks::{
    self, verified_report, verify_complete_manifest, Event, Integrity, Step, StreamFormat,
    Verification,
};
use echoscribe::voice::{Member, Roster, VoiceState};

fn two_tracks() -> Vec<TrackDescription> {
    vec![
        TrackDescription::new(
            22,
            "Second player".to_owned(),
            "player".to_owned(),
            None,
            "tracks/user-22.flac.part".to_owned(),
            TrackState::Incomplete,
            1_920,
            vec![200],
            Some("queue_full".to_owned()),
        ),
        TrackDescription::new(
            11,
            "GM Name".to_owned(),
            "gm".to_owned(),
            Some("Emperor Coaltongue".to_owned()),
            "tracks/user-11.flac".to_owned(),
            TrackState::Complete,
            2_880,
            vec![100, 101],
            None,
        ),
    ]
}

#[test]
fn complete_and_incomplete_tracks_are_described() {
    let manifest = TrackManifest::new("session-123".to_owned(), two_tracks());

    manifest.validate(false).unwrap();
    assert_eq!(manifest.tracks[0].discord_user_id, "11");
    assert_eq!(manifest.tracks[0].character.as_deref(), Some("Emperor Coaltongue"));
    assert_eq!(manifest.tracks[1].state, TrackState::Incomplete);
    assert_eq!(manifest.tracks[1].last_contiguous_sample, Some(1_920));
}

#[test]
fn escaping_track_paths_are_invalid() {
    let manifest = TrackManifest::new(
        "session-123".to_owned(),
        vec![TrackDescription::new(
            11,
            "Player".to_owned(),
            "player".to_owned(),
            None,
            "../user-11.flac".to_owned(),
            TrackState::Complete,
            960,
            vec![100],
            None,
        )],
    );
    let sentence = "track path must be relative to and contained by the session directory";
    let error = manifest.validate(false).unwrap_err();
    assert_eq!(error.kind, ErrorKind::InvalidData);
    assert_eq!(error.failure.text(), sentence);
    assert!(validate_relative_path("tracks/user-11.flac", false).is_ok());
    for path in ["", "/tracks/a", "../a", "tracks/../a", "a/.."] {
        let error = validate_relative_path(path, false).unwrap_err();
        assert_eq!(error.kind, ErrorKind::InvalidData);
        assert_eq!(error.failure.text(), sentence);
    }
    let wrong = invalid_data("wrong".to_owned());
    assert_eq!((wrong.kind, wrong.failure.text()), (ErrorKind::InvalidData, "wrong"));
}

#[test]
fn tracks_must_be_numbered_upwards() {
    let mut manifest = TrackManifest::new("session-123".to_owned(), two_tracks());
    manifest.tracks.swap(0, 1);
    assert!(manifest.validate(false).is_err());
    manifest.tracks.swap(0, 1);
    manifest.tracks[0].discord_user_id = "x".to_owned();
    assert!(manifest.validate(false).is_err());
    let mut manifest = TrackManifest::new(String::new(), vec![]);
    assert!(manifest.validate(false).is_err());
    manifest.session_id = "s".to_owned();
    assert!(manifest.validate(false).is_ok());
    manifest.format = 9;
    let error = manifest.validate(false).unwrap_err();
    assert_eq!(error.kind, ErrorKind::InvalidData);
    assert_eq!(error.failure.text(), "unsupported track manifest format 9; expected 1 or 2");
}

#[test]
fn manifests_are_read_or_refused() {
    let manifest = TrackManifest::new("session-123".to_owned(), two_tracks());
    let read = TrackManifest::read(Ok(manifest), false).unwrap();
    assert_eq!(read.tracks.len(), 2);

    let unparsed = TrackManifest::read(Err(Failure::from_text("no document")), false).unwrap_err();
    assert_eq!((unparsed.kind, unparsed.failure.text()), (ErrorKind::Other, "no document"));

    let unnamed = TrackManifest::new(String::new(), vec![]);
    let invalid = TrackManifest::read(Ok(unnamed), false).unwrap_err();
    assert_eq!(invalid.kind, ErrorKind::InvalidData);
    assert_eq!(invalid.failure.text(), "track manifest session_id must not be empty");
}

fn complete(user: u64, length_samples: u64) -> TrackDescription {
    TrackDescription::new(
        user,
        "Name".to_owned(),
        "player".to_owned(),
        None,
        format!("tracks/user-{user}.flac"),
        TrackState::Complete,
        length_samples,
        vec![100],
        None,
    )
}

fn verification(tracks: Vec<TrackDescription>) -> Verification {
    let locations = tracks.iter().map(|track| format!("/s/{}", track.path)).collect();
    verify_complete_manifest(
        TrackManifest { format: 1, session_id: "s".to_owned(), tracks },
        locations,
    )
}

const FORMAT: StreamFormat =
    StreamFormat { sample_rate: 48_000, channels: 1, bits_per_sample: 16 };

#[test]
fn tracks_are_decoded_in_full() {
    let mut verifying = verification(vec![complete(11, 2_880), complete(22, 0)]);
    assert_eq!((verifying.step(), verifying.position()), (Step::DecodeVerify, 0));
    assert!(verifying.observe(Event::Decoded(Integrity::Match)).is_none());
    assert_eq!(verifying.step(), Step::Open);
    assert!(verifying.observe(Event::Opened(FORMAT)).is_none());
    assert!(verifying.observe(Event::Samples(2_000)).is_none());
    assert!(verifying.observe(Event::Samples(880)).is_none());
    assert_eq!(
        verifying.observe(Event::Samples(0)).unwrap(),
        "Verified routine FLAC for Discord user 11: 2880 samples, PCM MD5 matched."
    );
    assert_eq!((verifying.step(), verifying.position()), (Step::DecodeVerify, 1));
    verifying.observe(Event::Decoded(Integrity::Match));
    verifying.observe(Event::Opened(FORMAT));
    assert!(verifying.observe(Event::Samples(0)).is_some());
    assert_eq!(verifying.step(), Step::Finished);
    assert_eq!(verifying.conclude().unwrap(), 2);
    assert_eq!(
        verified_report(2, "session-1"),
        "Verified 2 routine FLAC track(s) for session session-1."
    );
}

fn refusal(events: Vec<Event>) -> String {
    let mut verifying = verification(vec![complete(11, 10)]);
    for event in events {
        verifying.observe(event);
    }
    assert_eq!(verifying.step(), Step::Stopped);
    verifying.conclude().unwrap_err().message
}

#[test]
fn damaged_tracks_are_refused() {
    let matched = || Event::Decoded(Integrity::Match);
    let lost = || Event::Failed(Failure::from_text("gone"));
    assert_eq!(refusal(vec![lost()]), "failed to decode-verify /s/tracks/user-11.flac: gone");
    assert_eq!(
        refusal(vec![Event::Decoded(Integrity::Mismatch)]),
        "FLAC PCM MD5 verification failed for /s/tracks/user-11.flac"
    );
    assert_eq!(
        refusal(vec![Event::Decoded(Integrity::Missing)]),
        "FLAC has no PCM MD5 for /s/tracks/user-11.flac"
    );
    assert_eq!(
        refusal(vec![matched(), lost()]),
        "failed to open /s/tracks/user-11.flac: gone"
    );
    for wrong in [
        StreamFormat { sample_rate: 44_100, ..FORMAT },
        StreamFormat { channels: 2, ..FORMAT },
        StreamFormat { bits_per_sample: 65_552, ..FORMAT },
    ] {
        assert_eq!(
            refusal(vec![matched(), Event::Opened(wrong)]),
            "FLAC stream format does not match tracks.json for /s/tracks/user-11.flac"
        );
    }
    assert_eq!(
        refusal(vec![matched(), Event::Opened(FORMAT), lost()]),
        "failed while decoding /s/tracks/user-11.flac: gone"
    );
    assert_eq!(
        refusal(vec![matched(), Event::Opened(FORMAT), Event::Samples(9), Event::Samples(0)]),
        "decoded 9 samples from /s/tracks/user-11.flac, but tracks.json records 10"
    );
    assert_eq!(
        refusal(vec![
            matched(),
            Event::Opened(FORMAT),
            Event::Samples(u64::MAX),
            Event::Samples(1)
        ]),
        "decoded sample count overflow"
    );
}

#[test]
fn incomplete_recordings_are_not_verified() {
    let mut tracks = two_tracks();
    tracks.sort_by_key(|track| track.discord_user_id.clone());
    let mut verifying = verification(tracks);
    verifying.observe(Event::Decoded(Integrity::Match));
    verifying.observe(Event::Opened(FORMAT));
    verifying.observe(Event::Samples(2_880));
    assert!(verifying.observe(Event::Samples(0)).is_some());
    assert_eq!(
        verifying.conclude().unwrap_err().text(),
        "cannot verify an incomplete recording: tracks for Discord users 22 require recovery"
    );

    let file = |path: &str| FileDescription { path: path.to_owned(), format: 1 };
    let record = SessionRecord {
        format: 4,
        session_id: "mine".to_owned(),
        state: WorkflowState::Complete,
        files: SessionFiles {
            packets: file("packets.dat"),
            playout: file("playout.dat"),
            events: file("events.ndjson"),
            participants: file("participants.toml"),
            tracks: file("tracks.json"),
            work_items: None,
            results: None,
            transcript: None,
        },
        checkpoints: vec![],
        failures: vec![],
    };
    let manifest = TrackManifest::new("other".to_owned(), vec![]);
    assert_eq!(
        verify_tracks::run(&record, manifest, vec![]).unwrap_err().text(),
        "track manifest session ID \"other\" does not match session record \"mine\""
    );
    let manifest = TrackManifest::new("mine".to_owned(), vec![]);
    assert_eq!(verify_tracks::run(&record, manifest, vec![]).unwrap().conclude().unwrap(), 0);
}

fn root() -> GenerationRoot {
    GenerationRoot {
        location: "/s/transcription/retranscriptions".to_owned(),
        resolved: "/elsewhere".to_owned(),
        real_directory: true,
        below_session: true,
    }
}

fn names(values: &[&str]) -> Vec<Option<String>> {
    values.iter().map(|value| Some((*value).to_owned())).collect()
}

#[test]
fn generations_are_numbered_upwards() {
    assert_eq!(
        next_generation_directory(&root(), &vec![]).unwrap(),
        "000001"
    );
    let mut existing = names(&["000002", "notes", "41", "000007"]);
    existing.push(None);
    assert_eq!(
        next_generation_directory(&root(), &existing).unwrap(),
        "000042"
    );
    assert_eq!(
        next_generation_directory(&root(), &names(&["1234567"])).unwrap(),
        "1234568"
    );
    assert_eq!(
        next_generation_directory(&root(), &names(&["18446744073709551615"])).unwrap_err().text(),
        "retranscription generation number overflow"
    );
    let linked = GenerationRoot { real_directory: false, ..root() };
    assert_eq!(
        next_generation_directory(&linked, &vec![]).unwrap_err().text(),
        "retranscription generation root /s/transcription/retranscriptions is not a real directory"
    );
    let escaped = GenerationRoot { below_session: false, ..root() };
    assert_eq!(
        next_generation_directory(&escaped, &vec![]).unwrap_err().text(),
        "retranscription generation root /elsewhere escapes the session directory"
    );
}

#[test]
fn staged_files_are_named_from_their_session() {
    assert_eq!(
        relative_path("/s", "/s/a", StagedPath::Below("a".to_owned())).unwrap(),
        "a"
    );
    assert_eq!(
        relative_path("/s", "/t/a", StagedPath::Outside).unwrap_err().text(),
        "staged path /t/a is outside session /s"
    );
    assert_eq!(
        relative_path("/s", "/s/?", StagedPath::NotText).unwrap_err().text(),
        "staged path is not valid UTF-8"
    );
}

fn chosen(generation: &str) -> retranscription::Event {
    retranscription::Event::Chosen {
        generation: generation.to_owned(),
        partial_transcript: format!("{generation}/transcript.partial.txt"),
    }
}

#[test]
fn replacements_are_published_by_their_last_action() {
    let mut run = retranscription::run("/s");
    run.observe(retranscription::Event::Loaded("session-1".to_owned()));
    run.observe(retranscription::Event::Done);
    run.observe(retranscription::Event::Built(3));
    run.observe(chosen("/s/t/000001"));
    let mut steps = Vec::new();
    while run.step() != retranscription::Step::Finished {
        steps.push(run.step());
        run.observe(retranscription::Event::Done);
    }
    assert_eq!(steps.last(), Some(&retranscription::Step::Publish));
    assert_eq!(steps.len(), 9);
    assert_eq!(
        run.conclude().unwrap(),
        "Retranscription completed for session session-1; published 3 work item(s) from /s/t/000001."
    );
}

#[test]
fn failed_replacements_keep_the_previous_transcription() {
    let outer =
        "retranscription failed; the previous complete transcription remains authoritative: ";
    let lost = || retranscription::Event::Failed(Failure::from_text("gone"));
    let mut run = retranscription::run("/s");
    run.observe(lost());
    assert_eq!(
        run.conclude().unwrap_err().text(),
        format!("{outer}failed to load workflow state from /s: gone")
    );
    for (done, sentence) in [
        (0usize, "failed to create retranscription generation /s/g: gone"),
        (3, "gone"),
        (5, "failed to remove completed staging transcript /s/g/transcript.partial.txt: gone"),
        (
            8,
            "staged retranscription was complete but session authority was not replaced: gone",
        ),
    ] {
        let mut run = retranscription::run("/s");
        run.observe(retranscription::Event::Loaded("session-1".to_owned()));
        run.observe(retranscription::Event::Done);
        run.observe(retranscription::Event::Built(3));
        run.observe(chosen("/s/g"));
        for _ in 0..done {
            run.observe(retranscription::Event::Done);
        }
        run.observe(lost());
        assert_eq!(run.conclude().unwrap_err().text(), format!("{outer}{sentence}"));
    }
}

fn person(user_id: u64, bot: bool) -> Option<Member> {
    Some(Member {
        user_id,
        bot,
        nick: None,
        global_name: Some("Global".to_owned()),
        name: "name".to_owned(),
    })
}

fn seat(user_id: u64, channel_id: Option<u64>, member: Option<Member>) -> VoiceState {
    VoiceState { user_id, guild_id: Some(1), channel_id, member }
}

#[test]
fn departures_are_reported_once() {
    let mut roster = Roster::new(1, 2);
    let arrived = roster.voice_state_update(&None, &seat(7, Some(2), person(7, false)));
    assert!(arrived.departed.is_empty());
    assert_eq!(arrived.identities.len(), 1);
    assert_eq!(arrived.identities[0].global_name.as_deref(), Some("Global"));

    let left = roster.voice_state_update(&None, &seat(7, Some(3), person(7, false)));
    assert_eq!(left.departed, vec![7]);
    assert!(left.identities.is_empty());
    let again = roster.voice_state_update(&None, &seat(7, None, person(7, false)));
    assert!(again.departed.is_empty());
}

#[test]
fn strangers_and_bots_are_not_observed() {
    let mut roster = Roster::new(1, 2);
    roster.voice_state_update(&None, &seat(7, Some(2), person(7, true)));
    let mut elsewhere = seat(8, Some(2), person(8, false));
    elsewhere.guild_id = Some(9);
    roster.voice_state_update(&None, &elsewhere);
    let earlier = Some(seat(9, Some(2), person(9, true)));
    roster.voice_state_update(&earlier, &seat(9, Some(2), None));
    for user in [7, 8, 9] {
        let gone = roster.voice_state_update(&None, &seat(user, None, None));
        assert!(gone.departed.is_empty());
    }
}

#[test]
fn guild_snapshots_replace_the_roster() {
    let mut roster = Roster::new(1, 2);
    for user in [5, 6] {
        roster.voice_state_update(&None, &seat(user, Some(2), person(user, false)));
    }
    let ignored = roster.guild_create(9, &vec![]);
    assert!(ignored.departed.is_empty());

    let states = vec![
        seat(6, Some(2), person(6, false)),
        seat(7, Some(2), person(7, false)),
        seat(8, Some(3), person(8, false)),
        seat(9, Some(2), person(9, true)),
        seat(10, Some(2), None),
    ];
    let evidence = roster.guild_create(1, &states);
    assert_eq!(evidence.departed, vec![5]);
    let named: Vec<u64> =
        evidence.identities.iter().map(|identity| identity.user_id).collect();
    assert_eq!(named, vec![6, 7]);

    let mut everyone = roster.guild_create(1, &vec![]).departed;
    everyone.sort_unstable();
    assert_eq!(everyone, vec![6, 7]);
}
