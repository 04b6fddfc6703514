//! Participant context and the snapshots made of it.

use echoscribe::artifacts::PARTICIPANT_SNAPSHOT_FORMAT_VERSION;
use echoscribe::failure::Failure;
use echoscribe::participant_policy;
use echoscribe::participants::{
    default_current_role, default_transcribe, parse_discord_user_id, snapshot_layout,
    validate_optional_text, validate_required_text, CurrentFileParticipant,
    LegacyFileParticipant, LegacyParticipantRole, ParticipantContext, SnapshotLayout,
    TranscriptNameSource,
};
use echoscribe::session::{
    FileDescription, SessionFiles, SessionRecord, WorkflowState, SESSION_FORMAT_VERSION,
};

fn text_of(entry: &toml::Table, field: &str) -> Option<String> {
    entry.get(field).map(|value| value.as_str().unwrap().to_owned())
}

/// Read a participant document into the entries that the library files.
fn from_toml(document: &str, path: &str) -> Result<ParticipantContext, Failure> {
    let table: toml::Table = document.parse().unwrap();
    let version = u32::try_from(table["version"].as_integer().unwrap()).unwrap();
    let layout = snapshot_layout(version)?;
    let nobody = toml::Table::new();
    let listed = match table.get("participants") {
        Some(value) => value.as_table().unwrap(),
        None => &nobody,
    };
    match layout {
        SnapshotLayout::Legacy => {
            let mut entries = Vec::new();
            for (id, value) in listed {
                let entry = value.as_table().unwrap();
                let role = match text_of(entry, "role") {
                    Some(role) => LegacyParticipantRole::parse(&role).unwrap(),
                    None => LegacyParticipantRole::Player,
                };
                let transcribe = match entry.get("transcribe") {
                    Some(value) => value.as_bool().unwrap(),
                    None => default_transcribe(),
                };
                let character = text_of(entry, "character");
                entries.push((id.clone(), LegacyFileParticipant { character, role, transcribe }));
            }
            ParticipantContext::from_legacy_file(entries, path.to_owned())
        }
        SnapshotLayout::Current => {
            let source = match text_of(&table, "transcript_name_source").as_deref() {
                Some("name") => TranscriptNameSource::Name,
                _ => TranscriptNameSource::Discord,
            };
            let mut entries = Vec::new();
            for (id, value) in listed {
                let entry = value.as_table().unwrap();
                let transcribe = match entry.get("transcribe") {
                    Some(value) => value.as_bool().unwrap(),
                    None => default_transcribe(),
                };
                let role = text_of(entry, "role").unwrap_or_else(default_current_role);
                let name = text_of(entry, "name");
                entries.push((id.clone(), CurrentFileParticipant { name, role, transcribe }));
            }
            ParticipantContext::from_current_file(source, entries, path.to_owned())
        }
    }
}

#[test]
fn omitted_role_defaults_to_player_and_missing_mapping_is_nonfatal() {
    let context = from_toml(
        "version = 1\n\
         [participants.\"881203221593464864\"]\n\
         character = \"Example Character\"\n",
        "participants.toml",
    )
    .unwrap();

    let participant = context.get(881203221593464864).unwrap();
    assert_eq!(participant.role, "player");
    assert!(participant.transcribe);
    assert_eq!(participant.character.as_deref(), Some("Example Character"));
    assert!(context.get(123456789012345678).is_none());
}

#[test]
fn accepts_multiple_gms() {
    let context = from_toml(
        "version = 1\n\
         [participants.\"111\"]\n\
         role = \"gm\"\n\
         [participants.\"222\"]\n\
         role = \"gm\"\n",
        "participants.toml",
    )
    .unwrap();

    assert_eq!(context.len(), 2);
    assert_eq!(context.get(111).unwrap().role, "gm");
    assert_eq!(context.get(222).unwrap().role, "gm");
}

#[test]
fn roles_are_ascii_case_insensitive_and_snapshots_are_lowercase() {
    let context = from_toml(
        "version = 1\n\
         [participants.\"111\"]\n\
         role = \"GM\"\n\
         [participants.\"222\"]\n\
         role = \"PlAyEr\"\n",
        "participants.toml",
    )
    .unwrap();

    assert_eq!(context.get(111).unwrap().role, "gm");
    assert_eq!(context.get(222).unwrap().role, "player");
    let snapshot = context.canonical_toml().unwrap();
    assert!(snapshot.contains("role = \"gm\""));
    assert!(snapshot.contains("role = \"player\""));
    assert!(!snapshot.contains("role = \"GM\""));
}

#[test]
fn canonical_snapshot_is_numeric_id_ordered_and_materialises_roles() {
    let context = from_toml(
        "version = 1\n\
         [participants.\"222\"]\n\
         character = \"Second\"\n\
         [participants.\"11\"]\n\
         role = \"gm\"\n",
        "participants.toml",
    )
    .unwrap();

    let snapshot = context.canonical_toml().unwrap();
    assert!(
        snapshot.find("[participants.\"11\"]").unwrap()
            < snapshot.find("[participants.\"222\"]").unwrap()
    );
    assert!(snapshot.contains("[participants.\"11\"]\nrole = \"gm\"\ntranscribe = true"));
    assert!(snapshot.contains(
        "[participants.\"222\"]\ncharacter = \"Second\"\nrole = \"player\"\ntranscribe = true"
    ));

    let reloaded = from_toml(&snapshot, "session/participants.toml").unwrap();
    assert_eq!(reloaded.get(222).unwrap().role, "player");
    assert!(reloaded.get(222).unwrap().transcribe);
}

#[test]
fn explicit_transcription_exclusion_is_parsed_and_materialised() {
    let context = from_toml(
        "version = 1\n\
         [participants.\"111\"]\n\
         transcribe = false\n",
        "participants.toml",
    )
    .unwrap();

    assert!(!context.get(111).unwrap().transcribe);
    assert!(context
        .canonical_toml()
        .unwrap()
        .contains("[participants.\"111\"]\nrole = \"player\"\ntranscribe = false"));
}

#[test]
fn older_snapshot_without_transcribe_remains_compatible() {
    let context = from_toml(
        "version = 1\n\
         [participants.\"111\"]\n\
         role = \"gm\"\n",
        "session/participants.toml",
    )
    .unwrap();

    assert!(context.get(111).unwrap().transcribe);
}

#[test]
fn rejects_invalid_version() {
    let error = from_toml("version = 3\n", "participants.toml")
        .err()
        .expect("unsupported version should fail");

    assert!(error.text().contains("unsupported participant context version"));
}

#[test]
fn rejects_invalid_discord_user_id() {
    let error = from_toml(
        "version = 1\n\
         [participants.\"not-an-id\"]\n\
         role = \"player\"\n",
        "participants.toml",
    )
    .err()
    .expect("invalid Discord ID should fail");

    assert!(error.text().contains("must be an unsigned Discord user ID"));
}

#[test]
fn current_format_accepts_names_arbitrary_roles_and_name_attribution() {
    let context = from_toml(
        "version = 2\n\
         transcript_name_source = \"name\"\n\
         [participants.\"111\"]\n\
         name = \" Professor Jane Smith \"\n\
         role = \"session chair\"\n\
         [participants.\"222\"]\n",
        "participants.toml",
    )
    .unwrap();

    assert_eq!(context.format_version(), PARTICIPANT_SNAPSHOT_FORMAT_VERSION);
    assert_eq!(context.transcript_name_source(), TranscriptNameSource::Name);
    assert_eq!(context.get(111).unwrap().name.as_deref(), Some("Professor Jane Smith"));
    assert_eq!(context.get(111).unwrap().role, "session chair");
    assert_eq!(context.get(222).unwrap().role, "participant");
    assert!(context.get(222).unwrap().transcribe);

    let snapshot = context.canonical_toml().unwrap();
    assert!(snapshot.starts_with("version = 2\ntranscript_name_source = \"name\"\n"));
    assert!(snapshot.contains("name = \"Professor Jane Smith\""));
    assert!(!snapshot.contains("character"));
}

#[test]
fn current_format_defaults_to_discord_attribution_and_rejects_character() {
    let context =
        from_toml("version = 2\n[participants.\"111\"]\n", "participants.toml").unwrap();
    assert_eq!(context.transcript_name_source(), TranscriptNameSource::Discord);

    // An entry of this format has no place for a character.
    assert_eq!(context.get(111).unwrap().character, None);
    assert_eq!(
        context.canonical_toml().unwrap(),
        "version = 2\ntranscript_name_source = \"discord\"\n\n\
         [participants.\"111\"]\nrole = \"participant\"\ntranscribe = true\n"
    );
}

#[test]
fn snapshots_read_back() {
    for document in [
        "version = 1\n[participants.\"222\"]\ncharacter = \" The \\\"Second\\\" \"\n\
         [participants.\"11\"]\nrole = \"GM\"\ntranscribe = false\n",
        "version = 2\ntranscript_name_source = \"name\"\n\
         [participants.\"222\"]\nname = \" Jane \"\nrole = \" chair \"\n[participants.\"11\"]\n",
    ] {
        let mut context = from_toml(document, "participants.toml").unwrap();
        context.set_transcribe(7, false);
        let snapshot = context.canonical_toml().unwrap();

        let read = from_toml(&snapshot, "session/participants.toml").unwrap();

        assert_eq!(read.format_version(), context.format_version());
        assert_eq!(read.transcript_name_source(), context.transcript_name_source());
        assert_eq!(read.discord_user_ids(), [7, 11, 222]);
        for id in [7u64, 11, 222] {
            assert_eq!(format!("{:?}", read.get(id)), format!("{:?}", context.get(id)));
        }
        assert_eq!(read.canonical_toml().unwrap(), snapshot);
    }
}

#[test]
fn snapshots_tell_contexts_apart() {
    let texts = [
        "Jane", "Jane\tSmith", "Jane\\tSmith", "\"", "'", "\\", "\"'", "\\\"", "\\'", "\\\"'",
        "\"\"", "''", "\"\"\"", "'''", "\"\"\"'''", "\\\"\"\"'''", "\u{1}", "\\u0001", "\u{7f}",
        "\u{1}\"", "a\" b", "a' b", "role = \"x\"", "[participants.\"1\"]", "J\u{e9}r\u{f4}me",
        "a\u{2028}b", "a\u{b}b",
    ];
    let mut snapshots = Vec::new();
    for source in [TranscriptNameSource::Discord, TranscriptNameSource::Name] {
        for id in ["1", "12"] {
            for transcribe in [true, false] {
                for text in texts {
                    for (name, role) in [(Some(text), "guest"), (None, text)] {
                        let entry = CurrentFileParticipant {
                            name: name.map(str::to_owned),
                            role: role.to_owned(),
                            transcribe,
                        };
                        let context = ParticipantContext::from_current_file(
                            source,
                            vec![(id.to_owned(), entry)],
                            "participants.toml".to_owned(),
                        )
                        .unwrap();
                        let snapshot = context.canonical_toml().unwrap();
                        let read = from_toml(&snapshot, "participants.toml").unwrap();
                        assert_eq!(format!("{read:?}"), format!("{context:?}"));
                        assert!(!snapshots.contains(&snapshot));
                        snapshots.push(snapshot);
                    }
                }
            }
        }
    }
}

fn complete_record(state: WorkflowState) -> SessionRecord {
    let file = |path: &str| FileDescription { path: path.to_owned(), format: 1 };
    SessionRecord {
        format: SESSION_FORMAT_VERSION,
        session_id: "session-policy".to_owned(),
        state,
        files: SessionFiles {
            packets: file("packets.dat"),
            playout: file("playout.dat"),
            events: file("events.ndjson"),
            participants: file("participants.toml"),
            tracks: file("tracks.json"),
            work_items: Some(file("transcription/work-items.jsonl")),
            results: Some(file("transcription/results.jsonl")),
            transcript: None,
        },
        checkpoints: vec![],
        failures: vec![],
    }
}

#[test]
fn completed_session_policy_migration_preserves_context() {
    let source = "version = 1\n\
                  [participants.\"11\"]\n\
                  character = \"A Character\"\n\
                  role = \"gm\"\n";
    let record = complete_record(WorkflowState::Complete);
    let loaded = from_toml(source, "source.toml");
    let once = participant_policy::run(&record, "participants.toml", loaded, 11, false).unwrap();
    let written = once.canonical_toml().unwrap();
    let loaded = from_toml(&written, "participants.toml");
    let twice = participant_policy::run(&record, "participants.toml", loaded, 22, false).unwrap();
    let snapshot = from_toml(&twice.canonical_toml().unwrap(), "participants.toml").unwrap();

    let existing = snapshot.get(11).unwrap();
    assert_eq!(existing.character.as_deref(), Some("A Character"));
    assert_eq!(existing.role, "gm");
    assert!(!existing.transcribe);
    let added = snapshot.get(22).unwrap();
    assert_eq!(added.role, "player");
    assert_eq!(added.character, None);
    assert!(!added.transcribe);
}

#[test]
fn policy_migration_needs_a_complete_session_and_a_readable_snapshot() {
    let waiting = complete_record(WorkflowState::AwaitingOperator);
    let context = || Ok(ParticipantContext::empty_for_test());
    assert_eq!(
        participant_policy::run(&waiting, "p.toml", context(), 11, true).unwrap_err().text(),
        "set-transcription-policy requires session state complete; found awaiting_operator"
    );
    let complete = complete_record(WorkflowState::Complete);
    let unreadable = Err(Failure::from_text("no such file"));
    assert_eq!(
        participant_policy::run(&complete, "p.toml", unreadable, 11, true).unwrap_err().text(),
        "failed to validate participant snapshot p.toml: no such file"
    );
    assert_eq!(
        participant_policy::judge_publication("s", "p.toml", 11, true, Ok(())).unwrap(),
        "Session s participant 11 transcription policy set to true."
    );
    assert_eq!(
        participant_policy::judge_publication("s", "p.toml", 11, false, Ok(())).unwrap(),
        "Session s participant 11 transcription policy set to false."
    );
    let unpublished = Err(Failure::from_text("disk full"));
    assert_eq!(
        participant_policy::judge_publication("s", "p.toml", 11, true, unpublished)
            .unwrap_err()
            .text(),
        "failed to publish participant transcription policy in p.toml: disk full"
    );
}

#[test]
fn names_are_quoted_in_snapshots() {
    let context = ParticipantContext::from_current_file(
        TranscriptNameSource::Discord,
        vec![(
            "7".to_owned(),
            CurrentFileParticipant {
                name: Some("A \"quoted\" \\ name".to_owned()),
                role: "participant".to_owned(),
                transcribe: true,
            },
        )],
        "participants.toml".to_owned(),
    )
    .unwrap();
    let snapshot = context.canonical_toml().unwrap();
    let table: toml::Table = snapshot.parse().unwrap();
    assert_eq!(
        table["participants"]["7"]["name"].as_str(),
        Some("A \"quoted\" \\ name")
    );
    let reloaded = from_toml(&snapshot, "participants.toml").unwrap();
    assert_eq!(reloaded.get(7).unwrap().name.as_deref(), Some("A \"quoted\" \\ name"));
}

#[test]
fn equal_content_gives_equal_snapshots() {
    let entry = |id: &str| {
        (
            id.to_owned(),
            LegacyFileParticipant {
                character: None,
                role: LegacyParticipantRole::Player,
                transcribe: true,
            },
        )
    };
    let forwards =
        ParticipantContext::from_legacy_file(vec![entry("9"), entry("10")], "a".to_owned())
            .unwrap();
    let backwards =
        ParticipantContext::from_legacy_file(vec![entry("10"), entry("9")], "b".to_owned())
            .unwrap();
    assert_eq!(forwards.canonical_toml().unwrap(), backwards.canonical_toml().unwrap());
    assert_eq!(forwards.discord_user_ids(), vec![9, 10]);
    assert_eq!(forwards.source_path(), "a");
    assert_eq!(forwards.default_role(), "player");
}

#[test]
fn participant_entries_are_validated() {
    assert_eq!(parse_discord_user_id("42").unwrap(), 42);
    assert!(parse_discord_user_id("0").is_err());
    assert!(parse_discord_user_id("").is_err());
    assert!(parse_discord_user_id("-1").is_err());
    assert!(parse_discord_user_id("18446744073709551616").is_err());
    for (key, reason) in [
        ("", "cannot parse integer from empty string"),
        ("-1", "invalid digit found in string"),
        ("eleven", "invalid digit found in string"),
        ("18446744073709551616", "number too large to fit in target type"),
    ] {
        assert_eq!(
            parse_discord_user_id(key).unwrap_err().text(),
            format!("participant key {key:?} must be an unsigned Discord user ID: {reason}")
        );
    }
    assert_eq!(
        validate_required_text("1", "role", "  chair ".to_owned()).unwrap(),
        "chair"
    );
    assert!(validate_required_text("1", "role", " \t ".to_owned()).is_err());
    assert_eq!(validate_optional_text("1", "name", None).unwrap(), None);
    assert!(validate_optional_text("1", "name", Some("".to_owned())).is_err());
    assert!(LegacyParticipantRole::parse("dungeon master").is_none());
    let twice = ParticipantContext::from_legacy_file(
        vec![
            (
                "5".to_owned(),
                LegacyFileParticipant {
                    character: None,
                    role: LegacyParticipantRole::Player,
                    transcribe: true,
                },
            ),
            (
                "05".to_owned(),
                LegacyFileParticipant {
                    character: None,
                    role: LegacyParticipantRole::Gm,
                    transcribe: true,
                },
            ),
        ],
        "p".to_owned(),
    );
    let twice = twice.unwrap();
    assert_eq!(twice.len(), 1);
    assert_eq!(twice.get(5).unwrap().role, "gm");
}
