//! What a live recording hands to the stages behind it.

use vstd::prelude::*;

use crate::failure;
use crate::failure::Failure;
use crate::work_items;

verus! {

/// How a recording was finalised.
#[derive(Debug)]
pub enum RecordingOutcome {
    ReadyForTranscription,
    AwaitingOperator { incomplete_users: Vec<u64> },
}

/// What is reported of a recording that may be transcribed.
pub const CLEAN_RECORDING: &'static str = "Recording finalised cleanly and is ready for transcription.";

/// The report of a recording that may be transcribed, or why it may not be.
pub open spec fn clean_recording(outcome: RecordingOutcome) -> Result<Seq<char>, Seq<char>> {
    match outcome {
        RecordingOutcome::ReadyForTranscription => Ok(
            "Recording finalised cleanly and is ready for transcription."@,
        ),
        RecordingOutcome::AwaitingOperator { incomplete_users } => if incomplete_users@.len() == 0 {
            Err("recording stopped with an integrity fault; session is awaiting operator action"@)
        } else {
            Err(
                "recording stopped with incomplete tracks for Discord users "@
                    + work_items::comma_joined(incomplete_users@)
                    + "; session is awaiting operator action"@,
            )
        },
    }
}

/// Refuse a recording that waits for its operator.
pub fn require_clean_recording(recording_outcome: &RecordingOutcome) -> (report: Result<
    String,
    Failure,
>)
    ensures
        failure::outcome(report) == clean_recording(*recording_outcome),
{
    match recording_outcome {
        RecordingOutcome::ReadyForTranscription => Ok(CLEAN_RECORDING.to_owned()),
        RecordingOutcome::AwaitingOperator { incomplete_users } => {
            if incomplete_users.len() == 0 {
                Err(
                    Failure::from_text(
                        "recording stopped with an integrity fault; session is awaiting operator action",
                    ),
                )
            } else {
                Err(
                    Failure::new(
                        "recording stopped with incomplete tracks for Discord users ".to_owned().concat(
                        work_items::comma_join(incomplete_users).as_str()).concat(
                            "; session is awaiting operator action",
                        ),
                    ),
                )
            }
        },
    }
}

/// What ended a live recording.
#[derive(Debug)]
pub enum RecordingEnd {
    /// The operator asked for it.
    Requested,
    /// The operator could not have asked for it.
    SignalLost(Failure),
    /// The connection to Discord ended, well or not.
    GatewayEnded(Result<(), Failure>),
}

/// The fault under which capture is stopped, where the operator did not ask for
/// it.
pub open spec fn capture_fault(end: RecordingEnd) -> Option<(Seq<char>, Seq<char>)> {
    match end {
        RecordingEnd::Requested => None,
        RecordingEnd::SignalLost(cause) => Some(
            ("shutdown_signal"@, "failed to listen for Ctrl-C: "@ + cause@),
        ),
        RecordingEnd::GatewayEnded(result) => Some(
            (
                "gateway_terminated"@,
                match result {
                    Ok(_) => "Discord gateway terminated before an explicit stop"@,
                    Err(_) => "Discord gateway client stopped with an error"@,
                },
            ),
        ),
    }
}

/// The kind and the message of the fault under which capture is stopped.
pub fn stop_capture(end: &RecordingEnd) -> (failure: Option<(&'static str, String)>)
    ensures
        match capture_fault(*end) {
            None => failure is None,
            Some((kind, message)) => failure matches Some((filed, words)) && filed@ == kind
                && words@ == message,
        },
{
    match end {
        RecordingEnd::Requested => None,
        RecordingEnd::SignalLost(cause) => Some(
            ("shutdown_signal", "failed to listen for Ctrl-C: ".to_owned().concat(cause.text())),
        ),
        RecordingEnd::GatewayEnded(result) => Some(
            (
                "gateway_terminated",
                match result {
                    Ok(_) => "Discord gateway terminated before an explicit stop".to_owned(),
                    Err(_) => "Discord gateway client stopped with an error".to_owned(),
                },
            ),
        ),
    }
}

/// The failure with which the live part of a run ends, where it ends with one.
pub open spec fn gateway_fault(end: RecordingEnd) -> Option<Seq<char>> {
    match end {
        RecordingEnd::Requested => None,
        RecordingEnd::SignalLost(cause) => Some(
            failure::because("failed to listen for Ctrl-C"@, cause@),
        ),
        RecordingEnd::GatewayEnded(result) => match result {
            Ok(_) => None,
            Err(cause) => Some(
                failure::because("Discord gateway client stopped with an error"@, cause@),
            ),
        },
    }
}

/// Whether the stages behind a recording may run: the first of its
/// finalisation, its tracks and its connection that failed refuses them.
pub open spec fn finished(
    finalised: Result<RecordingOutcome, Failure>,
    end: RecordingEnd,
) -> Result<(), Seq<char>> {
    match finalised {
        Err(cause) => Err(failure::because("recording finalisation failed"@, cause@)),
        Ok(outcome) => match clean_recording(outcome) {
            Err(fault) => Err(fault),
            Ok(_) => match gateway_fault(end) {
                Some(fault) => Err(fault),
                None => Ok(()),
            },
        },
    }
}

/// The report of a recording whose tracks are complete, however its connection
/// ended.
pub open spec fn reported(finalised: Result<RecordingOutcome, Failure>) -> Option<Seq<char>> {
    match finalised {
        Ok(outcome) => match clean_recording(outcome) {
            Ok(report) => Some(report),
            Err(_) => None,
        },
        Err(_) => None,
    }
}

/// Report a finalised recording, where it is clean, and decide whether the
/// stages behind it may run.
pub fn finish(finalised: &Result<RecordingOutcome, Failure>, end: &RecordingEnd) -> (conclusion: (
    Option<String>,
    Result<(), Failure>,
))
    ensures
        conclusion.0.deep_view() == reported(*finalised),
        failure::outcome(conclusion.1) == finished(*finalised, *end),
{
    let outcome = match finalised {
        Err(cause) => {
            return (
                None,
                Err(Failure::caused("recording finalisation failed".to_owned(), cause)),
            );
        },
        Ok(outcome) => outcome,
    };
    let report = match require_clean_recording(outcome) {
        Err(fault) => {
            return (None, Err(fault));
        },
        Ok(report) => report,
    };
    let gateway = match end {
        RecordingEnd::Requested => Ok(()),
        RecordingEnd::SignalLost(cause) => Err(
            Failure::caused("failed to listen for Ctrl-C".to_owned(), cause),
        ),
        RecordingEnd::GatewayEnded(result) => match result {
            Ok(_) => Ok(()),
            Err(cause) => Err(
                Failure::caused("Discord gateway client stopped with an error".to_owned(), cause),
            ),
        },
    };
    (Some(report), gateway)
}

/// The stages behind a recording run only when every track is complete: a fault
/// met while recording refuses them.
pub proof fn recording_faults_refuse_the_pipeline(
    finalised: Result<RecordingOutcome, Failure>,
    end: RecordingEnd,
)
    ensures
        finished(finalised, end) is Ok <==> finalised == Ok::<RecordingOutcome, Failure>(
            RecordingOutcome::ReadyForTranscription,
        ) && gateway_fault(end) is None,
{
}

} // verus!
