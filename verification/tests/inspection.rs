//! Inspection of recorded sessions.

use echoscribe::event_inspection::{
    inspect_events, validate_event_record_format, validate_format_two_event, ParsedEvent,
    SessionEvent, SpeakerMapping,
};
use echoscribe::failure::Failure;
use echoscribe::inspect::{
    conclude, manifest_of_format, read_manifest, report_events, report_manifest, report_mapping,
    report_packets, report_playout, run, tail_description, validate_event_description,
    validate_file_description, validate_manifest, validate_playout_description, CurrentManifest,
    DiscordSession, LegacyManifest, ParsedManifest,
};
use echoscribe::packet_inspection::{inspect_packets, PacketRecord, PacketStream};
use echoscribe::playout_inspection::{
    inspect_playout, PlayoutDecision, PlayoutRecord, PlayoutStream,
};
use echoscribe::session::{
    FileDescription, SessionFiles, SessionRecord, WorkflowState, LEGACY_EVENT_FORMAT_VERSION,
    LEGACY_SESSION_FORMAT_VERSION,
};

fn file(path: &str, format: u16) -> FileDescription {
    FileDescription { path: path.to_owned(), format }
}

fn discord() -> DiscordSession {
    DiscordSession { guild_id: "123".to_owned(), channel_id: "456".to_owned() }
}

fn absent() -> Failure {
    Failure::from_text("missing field")
}

fn nothing() -> ParsedManifest {
    ParsedManifest { legacy: Err(absent()), current: Err(absent()) }
}

fn described(value: &serde_json::Value) -> FileDescription {
    file(
        value["path"].as_str().unwrap(),
        u16::try_from(value["format"].as_u64().unwrap()).unwrap(),
    )
}

#[test]
fn format_two_session_manifest_remains_readable() {
    let document = concat_lines(&[
        "{",
        "  \"format\": 2,",
        "  \"session_id\": \"session-1000\",",
        "  \"discord\": {\"guild_id\": \"123\", \"channel_id\": \"456\"},",
        "  \"files\": {",
        "    \"packets\": {\"path\": \"packets.dat\", \"format\": 1},",
        "    \"playout\": {\"path\": \"playout.dat\", \"format\": 2},",
        "    \"events\": {\"path\": \"events.ndjson\", \"format\": 1}",
        "  }",
        "}",
    ]);
    let value: serde_json::Value = serde_json::from_slice(&document).unwrap();
    let parsed = ParsedManifest {
        legacy: Ok(LegacyManifest {
            format: u16::try_from(value["format"].as_u64().unwrap()).unwrap(),
            session_id: value["session_id"].as_str().unwrap().to_owned(),
            discord: DiscordSession {
                guild_id: value["discord"]["guild_id"].as_str().unwrap().to_owned(),
                channel_id: value["discord"]["channel_id"].as_str().unwrap().to_owned(),
            },
            packets: described(&value["files"]["packets"]),
            playout: described(&value["files"]["playout"]),
            events: described(&value["files"]["events"]),
        }),
        current: Err(absent()),
    };

    let manifest = read_manifest(&document, "session.json", parsed).unwrap();
    validate_manifest(&manifest).unwrap();
    assert_eq!(manifest.format, LEGACY_SESSION_FORMAT_VERSION);
    assert_eq!(manifest.state, None);
}

fn concat_lines(lines: &[&str]) -> Vec<u8> {
    let mut document = Vec::new();
    for line in lines {
        document.extend_from_slice(line.as_bytes());
        document.push(b'\n');
    }
    document
}

#[test]
fn unsupported_session_format_has_clear_error() {
    let error = read_manifest(&b"{\"format\":99}\n".to_vec(), "session.json", nothing())
        .err()
        .expect("unsupported session format should fail");
    assert!(error.text().contains("unsupported session manifest format 99"));
}

#[test]
fn unreadable_manifests_are_refused() {
    let path = "/s/session.json";
    let broken = read_manifest(&b"{\"format\":".to_vec(), path, nothing()).unwrap_err();
    assert_eq!(
        broken.text(),
        "failed to parse session manifest /s/session.json: \
         EOF while parsing a value at line 1 column 10"
    );
    assert_eq!(
        manifest_of_format(Some(2), path, nothing()).unwrap_err().text(),
        "failed to parse legacy session manifest /s/session.json: missing field"
    );
    assert_eq!(
        manifest_of_format(Some(4), path, nothing()).unwrap_err().text(),
        "failed to parse session manifest /s/session.json: missing field"
    );
    assert!(manifest_of_format(None, path, nothing()).is_err());
}

fn current_manifest(format: u16) -> ParsedManifest {
    ParsedManifest {
        legacy: Err(absent()),
        current: Ok(CurrentManifest {
            record: SessionRecord {
                format,
                session_id: "session-9".to_owned(),
                state: WorkflowState::Complete,
                files: SessionFiles {
                    packets: file("packets.dat", 1),
                    playout: file("playout.dat", 2),
                    events: file("events.ndjson", 2),
                    participants: file("participants.toml", 1),
                    tracks: file("tracks.json", 1),
                    work_items: None,
                    results: None,
                    transcript: None,
                },
                checkpoints: vec![],
                failures: vec![],
            },
            discord: discord(),
        }),
    }
}

#[test]
fn current_manifests_carry_their_state() {
    for format in [3u64, 4, 5] {
        let document = format!("{{\"format\":{format}}}").into_bytes();
        let parsed = current_manifest(u16::try_from(format).unwrap());
        let manifest = read_manifest(&document, "session.json", parsed).unwrap();
        assert_eq!(manifest.state, Some(WorkflowState::Complete));
        validate_manifest(&manifest).unwrap();
        assert!(report_manifest(&manifest).contains("session-9"));
    }
}

#[test]
fn undeclared_artefacts_are_refused() {
    assert!(validate_file_description("packets", &file("packets.dat", 1), "packets.dat", 1).is_ok());
    assert!(validate_file_description("packets", &file("p.dat", 1), "packets.dat", 1).is_err());
    assert!(
        validate_file_description("packets", &file("packets.dat", 2), "packets.dat", 1).is_err()
    );
    assert!(validate_playout_description(&file("playout.dat", 1)).is_ok());
    assert!(validate_playout_description(&file("playout.dat", 2)).is_ok());
    assert!(validate_playout_description(&file("playout.dat", 3)).is_err());
    assert!(validate_event_description(&file("events.ndjson", 1)).is_ok());
    assert!(validate_event_description(&file("events.ndjson", 2)).is_ok());
    assert!(validate_event_description(&file("../events.ndjson", 2)).is_err());
}

fn mapping() -> SpeakerMapping {
    SpeakerMapping {
        elapsed_nanos: 123,
        ssrc: 4326,
        user_id: Some("881203221593464864".to_owned()),
        speaking_bits: 1,
    }
}

#[test]
fn format_one_events_remain_inspectable() {
    let line = "{\"event\":\"speaker_mapping\",\"format\":1,\"elapsed_nanos\":123,\
                \"ssrc\":4326,\"user_id\":\"881203221593464864\",\"speaking_bits\":1}\n";
    let value: serde_json::Value = serde_json::from_str(line).unwrap();
    let event = SessionEvent::SpeakerMapping {
        format: u16::try_from(value["format"].as_u64().unwrap()).unwrap(),
        mapping: SpeakerMapping {
            elapsed_nanos: value["elapsed_nanos"].as_u64().unwrap(),
            ssrc: u32::try_from(value["ssrc"].as_u64().unwrap()).unwrap(),
            user_id: value["user_id"].as_str().map(str::to_owned),
            speaking_bits: u8::try_from(value["speaking_bits"].as_u64().unwrap()).unwrap(),
        },
    };

    let inspection = inspect_events(
        &line.as_bytes().to_vec(),
        vec![ParsedEvent::Event(event)],
        LEGACY_EVENT_FORMAT_VERSION,
        "events.ndjson",
    )
    .unwrap();

    assert_eq!(inspection.records, 1);
    assert_eq!(inspection.mappings.len(), 1);
    assert_eq!(inspection.identity_updates, 0);
    assert_eq!(inspection.user_disconnections, 0);
    assert_eq!(inspection.unresolved_abandonments, 0);
}

#[test]
fn cut_off_event_tails_are_noted_and_malformed_ones_refused() {
    let bytes = b"{}\n{}\n{\"eve".to_vec();
    let events = |tail: ParsedEvent| {
        vec![
            ParsedEvent::Event(SessionEvent::UserIdentity { format: 2 }),
            ParsedEvent::Event(SessionEvent::UserDisconnected { format: 2 }),
            tail,
        ]
    };
    let inspection =
        inspect_events(&bytes, events(ParsedEvent::CutOff(absent())), 2, "events.ndjson").unwrap();
    assert!(inspection.truncated_tail);
    assert_eq!(inspection.records, 2);
    assert_eq!(inspection.identity_updates, 1);
    assert_eq!(inspection.user_disconnections, 1);

    let closed = b"{}\n{}\n{\"eve\n".to_vec();
    for tail in [ParsedEvent::Malformed(absent()), ParsedEvent::CutOff(absent())] {
        let mut parsed = events(tail);
        parsed.push(ParsedEvent::CutOff(absent()));
        assert_eq!(
            inspect_events(&closed, parsed, 2, "events.ndjson").unwrap_err().text(),
            "invalid event journal record 3 in events.ndjson: missing field"
        );
    }

    assert!(validate_event_record_format(2, 1, 0, "e").unwrap_err().text().contains("line 1"));
    assert!(validate_event_record_format(1, 1, 0, "e").is_ok());
    assert!(validate_format_two_event(1, 3, "e").unwrap_err().text().contains("line 4"));
    assert!(validate_format_two_event(2, 3, "e").is_ok());
}

#[test]
fn packet_streams_count_gaps_duplicates_and_reordering() {
    let mut stream = PacketStream::new(65_534);
    for sequence in [65_535u16, 0, 3, 3, 1] {
        stream.observe(sequence);
    }
    assert_eq!(stream.packets(), 6);

    let records: Vec<PacketRecord> = [65_534u16, 65_535, 0, 3, 3, 1]
        .into_iter()
        .map(|sequence| PacketRecord { ssrc: 7, sequence, timestamp: u32::from(sequence) })
        .collect();
    let packets = inspect_packets(&records, true);
    assert_eq!(packets.records(), 6);
    assert_eq!(packets.sources(), vec![7]);
    assert!(packets.truncated_tail());
    assert!(packets.holds(7, 3, 3));
    assert!(!packets.holds(7, 2, 2));
    assert!(!packets.holds(8, 3, 3));
    let lines = report_packets(&packets);
    assert!(lines[0].contains('6'));
    assert!(lines.iter().any(|line| line.contains('7')));
}

#[test]
fn playout_decisions_are_held_against_packets() {
    let packets = inspect_packets(
        &vec![PacketRecord { ssrc: 7, sequence: 1, timestamp: 960 }],
        false,
    );
    let record = |tick: u64, decision: PlayoutDecision| PlayoutRecord {
        tick,
        ssrc: 7,
        decision,
        decoded_samples: 960,
    };
    let records = vec![
        record(1, PlayoutDecision::Packet { sequence: 1, timestamp: 960 }),
        record(2, PlayoutDecision::Packet { sequence: 2, timestamp: 1_920 }),
        record(3, PlayoutDecision::Loss),
    ];
    let playout = inspect_playout(2, 2, &records, false, &packets).unwrap();
    assert_eq!(playout.records(), 3);
    assert_eq!(playout.packet_decisions(), 2);
    assert_eq!(playout.loss_decisions(), 1);
    assert_eq!(playout.unmatched_packets(), 1);
    assert!(!report_playout(&playout).is_empty());
    assert!(inspect_playout(1, 2, &records, false, &packets).is_err());

    let mut stream = PlayoutStream::empty();
    stream.observe_tick(5);
    stream.observe_tick(9);
    assert_eq!((stream.first_tick, stream.last_tick, stream.decisions), (Some(5), Some(9), 2));
}

#[test]
fn inspections_conclude_with_one_line() {
    assert_ne!(tail_description(true), tail_description(false));
    let packets = inspect_packets(&vec![], false);
    let cut = inspect_packets(&vec![], true);
    let playout = inspect_playout(2, 2, &vec![], false, &packets).unwrap();
    let events = inspect_events(&vec![], vec![], 2, "events.ndjson").unwrap();
    assert_ne!(conclude(&packets, &playout, &events), conclude(&cut, &playout, &events));

    let line = b"{}\n".to_vec();
    let heard = inspect_events(
        &line,
        vec![ParsedEvent::Event(SessionEvent::SpeakerMapping { format: 2, mapping: mapping() })],
        2,
        "events.ndjson",
    )
    .unwrap();
    assert!(report_events(&heard).contains('1'));
    let document = b"{\"format\":4}".to_vec();
    let manifest = read_manifest(&document, "session.json", current_manifest(4)).unwrap();
    let lines = run("/s", &manifest, &packets, &playout, &heard, &vec!["0.000".to_owned()]);
    let reported = report_mapping("0.000", &mapping());
    assert!(reported.contains("4326") && reported.contains("881203221593464864"));
    assert!(lines.contains(&reported));
    assert_eq!(lines.last().unwrap(), conclude(&packets, &playout, &heard));
}
