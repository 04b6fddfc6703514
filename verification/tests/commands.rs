//! The command line, and what a recording hands on.

use echoscribe::command::{
    parse_command_args, Argument, Command, ConfigPath, Operation, DEFAULT_CONFIG_PATH,
};
use echoscribe::failure::Failure;
use echoscribe::recording::{
    finish, require_clean_recording, stop_capture, RecordingEnd, RecordingOutcome,
};

fn argument(value: &str) -> Argument<String> {
    Argument {
        text: Some(value.to_owned()),
        lossy: value.to_owned(),
        quoted: format!("{value:?}"),
        path: value.to_owned(),
    }
}

fn parse(values: &[&str]) -> Result<Command<String>, Failure> {
    parse_command_args(values.iter().map(|value| argument(value)).collect())
}

fn chosen(path: ConfigPath<String>) -> String {
    match path {
        ConfigPath::Standard => DEFAULT_CONFIG_PATH.to_owned(),
        ConfigPath::Chosen(path) => path,
    }
}

#[test]
fn no_arguments_uses_default_config() {
    let command = parse(&[]).unwrap();
    let Command::Normal { config_path } = command else {
        panic!("expected normal command");
    };
    assert_eq!(chosen(config_path), "echoscribe.toml");
}

#[test]
fn recording_fault_refuses_post_recording_pipeline() {
    let error = require_clean_recording(&RecordingOutcome::AwaitingOperator {
        incomplete_users: vec![11, 22],
    })
    .unwrap_err();

    assert!(error.text().contains("awaiting operator action"));
    assert!(error.text().contains("11, 22"));
}

#[test]
fn one_path_argument_selects_normal_config() {
    let command = parse(&["other.toml"]).unwrap();
    let Command::Normal { config_path } = command else {
        panic!("expected normal command");
    };
    assert_eq!(chosen(config_path), "other.toml");
}

#[test]
fn record_command_is_explicitly_recording_only() {
    let default = parse(&["record"]).unwrap();
    let Command::RecordOnly { config_path } = default else {
        panic!("expected recording-only command");
    };
    assert_eq!(chosen(config_path), "echoscribe.toml");

    let selected = parse(&["record", "other.toml"]).unwrap();
    let Command::RecordOnly { config_path } = selected else {
        panic!("expected recording-only command");
    };
    assert_eq!(chosen(config_path), "other.toml");
}

#[test]
fn inspect_argument_selects_session_directory() {
    let command = parse(&["inspect", "recordings/session-123"]).unwrap();
    let Command::Inspect { session_directory } = command else {
        panic!("expected inspect command");
    };
    assert_eq!(session_directory, "recordings/session-123");
}

#[test]
fn inspect_requires_exactly_one_session_directory() {
    let missing = parse(&["inspect"]).unwrap_err();
    assert!(missing.text().contains("requires a session directory"));

    let extra = parse(&["inspect", "session", "extra"]).unwrap_err();
    assert!(extra.text().contains("unexpected argument"));
}

#[test]
fn recover_argument_selects_session_directory() {
    let command = parse(&["recover", "recordings/session-123"]).unwrap();
    let Command::Recover { session_directory, user_ids } = command else {
        panic!("expected recover command");
    };
    assert_eq!(session_directory, "recordings/session-123");
    assert!(user_ids.is_empty());
}

#[test]
fn recover_accepts_and_normalises_explicit_user_ids() {
    let command = parse(&["recover", "recordings/session-123", "22", "11", "22"]).unwrap();
    let Command::Recover { user_ids, .. } = command else {
        panic!("expected recover command");
    };
    assert_eq!(user_ids, [11, 22]);
}

#[test]
fn diagnostic_recovery_has_an_explicit_wav_command() {
    let command = parse(&["recover-wav", "recordings/session-123"]).unwrap();
    let Command::RecoverWav { session_directory } = command else {
        panic!("expected recover-wav command");
    };
    assert_eq!(session_directory, "recordings/session-123");
}

#[test]
fn continue_selects_one_session_directory() {
    let command = parse(&["continue", "recordings/session-123"]).unwrap();
    let Command::Continue { session_directory, config_path } = command else {
        panic!("expected continue command");
    };
    assert_eq!(session_directory, "recordings/session-123");
    assert_eq!(config_path, None);
}

#[test]
fn transcription_continue_selects_session_and_config_paths() {
    let command = parse(&["continue", "recordings/session-123", "echoscribe.toml"]).unwrap();
    let Command::Continue { session_directory, config_path } = command else {
        panic!("expected continue command");
    };
    assert_eq!(session_directory, "recordings/session-123");
    assert_eq!(config_path.as_deref(), Some("echoscribe.toml"));
}

#[test]
fn continue_rejects_more_than_session_and_optional_config() {
    let error = parse(&["continue", "recordings/session-123", "echoscribe.toml", "unexpected"])
        .unwrap_err();

    assert!(error.text().contains("unexpected argument"));
}

#[test]
fn build_work_items_selects_session_and_config_paths() {
    let command =
        parse(&["build-work-items", "recordings/session-123", "echoscribe.toml"]).unwrap();
    let Command::BuildWorkItems { session_directory, config_path } = command else {
        panic!("expected build-work-items command");
    };
    assert_eq!(session_directory, "recordings/session-123");
    assert_eq!(config_path, "echoscribe.toml");
}

#[test]
fn build_work_items_requires_exactly_two_paths() {
    let missing_session = parse(&["build-work-items"]).unwrap_err();
    assert!(missing_session.text().contains("requires a session directory"));

    let missing_config = parse(&["build-work-items", "recordings/session-123"]).unwrap_err();
    assert!(missing_config.text().contains("requires a config path"));
}

#[test]
fn transcribe_selects_session_and_config_paths() {
    let command = parse(&["transcribe", "recordings/session-123", "echoscribe.toml"]).unwrap();
    let Command::Transcribe { session_directory, config_path } = command else {
        panic!("expected transcribe command");
    };
    assert_eq!(session_directory, "recordings/session-123");
    assert_eq!(config_path, "echoscribe.toml");
}

#[test]
fn transcribe_requires_exactly_two_paths() {
    let missing_session = parse(&["transcribe"]).unwrap_err();
    assert!(missing_session.text().contains("requires a session directory"));

    let missing_config = parse(&["transcribe", "recordings/session-123"]).unwrap_err();
    assert!(missing_config.text().contains("requires a config path"));

    let extra = parse(&["transcribe", "recordings/session-123", "echoscribe.toml", "extra"])
        .unwrap_err();
    assert!(extra.text().contains("unexpected argument"));
}

#[test]
fn rebuild_transcript_selects_exactly_one_session() {
    let command = parse(&["rebuild-transcript", "recordings/session-123"]).unwrap();
    let Command::RebuildTranscript { session_directory } = command else {
        panic!("expected rebuild-transcript command");
    };
    assert_eq!(session_directory, "recordings/session-123");

    let extra = parse(&["rebuild-transcript", "recordings/session-123", "extra"]).unwrap_err();
    assert!(extra.text().contains("unexpected argument"));
}

#[test]
fn export_argument_selects_session_directory() {
    let command = parse(&["export", "recordings/session-123"]).unwrap();
    let Command::Export { session_directory } = command else {
        panic!("expected export command");
    };
    assert_eq!(session_directory, "recordings/session-123");
}

#[test]
fn verify_argument_selects_session_directory() {
    let command = parse(&["verify", "recordings/session-123"]).unwrap();
    let Command::Verify { session_directory } = command else {
        panic!("expected verify command");
    };
    assert_eq!(session_directory, "recordings/session-123");
}

#[test]
fn refusals_name_what_is_wrong() {
    assert_eq!(
        parse(&["recover-wav"]).unwrap_err().text(),
        "recover-wav requires a session directory"
    );
    assert_eq!(
        parse(&["build-work-items", "s"]).unwrap_err().text(),
        "build-work-items requires a config path"
    );
    assert_eq!(
        parse(&["transcribe", "s"]).unwrap_err().text(),
        "transcribe requires a config path"
    );
    assert_eq!(
        parse(&["other.toml", "more"]).unwrap_err().text(),
        "unexpected argument \"more\""
    );
    assert_eq!(
        parse(&["record", "a.toml", "b\"c"]).unwrap_err().text(),
        "unexpected argument \"b\\\"c\""
    );
    assert_eq!(
        parse(&["recover", "s", "11", "ze\nro"]).unwrap_err().text(),
        "recover user ID \"ze\\nro\" must be a non-zero unsigned Discord ID"
    );
    assert_eq!(
        parse(&["recover", "s", "0", "x"]).unwrap_err().text(),
        "recover user ID \"0\" must be a non-zero unsigned Discord ID"
    );
}

#[test]
fn arguments_that_are_no_text_are_paths() {
    let opaque = Argument {
        text: None,
        lossy: "inspect".to_owned(),
        quoted: "\"\\xFF\"".to_owned(),
        path: vec![0xffu8],
    };
    let Command::Normal { config_path: ConfigPath::Chosen(path) } =
        parse_command_args(vec![opaque]).unwrap()
    else {
        panic!("expected normal command");
    };
    assert_eq!(path, vec![0xff]);
}

#[test]
fn every_operation_is_selected_by_its_name() {
    for operation in [
        Operation::Inspect,
        Operation::Recover,
        Operation::RecoverWav,
        Operation::Continue,
        Operation::BuildWorkItems,
        Operation::Transcribe,
        Operation::RebuildTranscript,
        Operation::Export,
        Operation::Verify,
    ] {
        assert_eq!(Operation::named(operation.as_str()), Some(operation));
    }
    assert_eq!(Operation::named("record"), None);
}

#[test]
fn recordings_end_in_one_of_three_ways() {
    assert_eq!(
        require_clean_recording(&RecordingOutcome::ReadyForTranscription).unwrap(),
        "Recording finalised cleanly and is ready for transcription."
    );
    let fault = RecordingOutcome::AwaitingOperator { incomplete_users: vec![] };
    assert_eq!(
        require_clean_recording(&fault).unwrap_err().text(),
        "recording stopped with an integrity fault; session is awaiting operator action"
    );

    assert!(stop_capture(&RecordingEnd::Requested).is_none());
    assert_eq!(
        stop_capture(&RecordingEnd::SignalLost(Failure::from_text("no handler"))).unwrap(),
        ("shutdown_signal", "failed to listen for Ctrl-C: no handler".to_owned())
    );
    assert_eq!(
        stop_capture(&RecordingEnd::GatewayEnded(Ok(()))).unwrap(),
        (
            "gateway_terminated",
            "Discord gateway terminated before an explicit stop".to_owned()
        )
    );
    assert_eq!(
        stop_capture(&RecordingEnd::GatewayEnded(Err(Failure::from_text("closed")))).unwrap(),
        ("gateway_terminated", "Discord gateway client stopped with an error".to_owned())
    );
}

#[test]
fn only_a_clean_recording_reaches_the_pipeline() {
    let clean = || Ok(RecordingOutcome::ReadyForTranscription);
    let (report, result) = finish(&clean(), &RecordingEnd::Requested);
    assert!(report.is_some() && result.is_ok());

    let lost = RecordingEnd::GatewayEnded(Err(Failure::from_text("closed")));
    let (report, result) = finish(&clean(), &lost);
    assert!(report.is_some());
    assert_eq!(
        result.unwrap_err().text(),
        "Discord gateway client stopped with an error: closed"
    );

    let unfinished = Err(Failure::from_text("disk full"));
    let (report, result) = finish(&unfinished, &RecordingEnd::Requested);
    assert!(report.is_none());
    assert_eq!(result.unwrap_err().text(), "recording finalisation failed: disk full");

    let incomplete = Ok(RecordingOutcome::AwaitingOperator { incomplete_users: vec![7] });
    let (report, result) = finish(&incomplete, &lost);
    assert!(report.is_none());
    assert_eq!(
        result.unwrap_err().text(),
        "recording stopped with incomplete tracks for Discord users 7; session is awaiting operator action"
    );
}
