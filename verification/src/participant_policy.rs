//! Explicit migration of transcription policy in a completed session snapshot.
//!
//! Routine processing never refreshes immutable participant context from the
//! operator's mutable source file. This is the narrow route for changing only
//! the transcription admission of one participant of a historical session.

use vstd::prelude::*;

use crate::failure;
use crate::failure::Failure;
use crate::participants::{ContextView, ParticipantContext};
use crate::session::{SessionRecord, SessionView, WorkflowState};
use crate::text;
use crate::worker;

verus! {

/// The snapshot with which a migration replaces the one that was loaded, or why
/// there is none.
pub open spec fn migrated(
    record: SessionView,
    snapshot_path: Seq<char>,
    loaded: Result<ContextView, Seq<char>>,
    discord_user_id: u64,
    transcribe: bool,
) -> Result<ContextView, Seq<char>> {
    if record.state != WorkflowState::Complete {
        Err(
            "set-transcription-policy requires session state complete; found "@
                + record.state.name(),
        )
    } else {
        match loaded {
            Err(cause) => Err(
                failure::because(
                    "failed to validate participant snapshot "@ + snapshot_path,
                    cause,
                ),
            ),
            Ok(context) => Ok(context.with_transcribe(discord_user_id, transcribe)),
        }
    }
}

/// Set the policy of one participant in the snapshot of a complete session.
pub fn run(
    record: &SessionRecord,
    snapshot_path: &str,
    loaded: Result<ParticipantContext, Failure>,
    discord_user_id: u64,
    transcribe: bool,
) -> (snapshot: Result<ParticipantContext, Failure>)
    requires
        loaded matches Ok(context) ==> context.deep_view().wf(),
    ensures
        failure::outcome(snapshot) == migrated(
            record.deep_view(),
            snapshot_path@,
            failure::outcome(loaded),
            discord_user_id,
            transcribe,
        ),
        snapshot matches Ok(context) ==> context.deep_view().wf(),
{
    if record.state != WorkflowState::Complete {
        return Err(
            Failure::new(
                "set-transcription-policy requires session state complete; found ".to_owned().concat(
                record.state.as_str()),
            ),
        );
    }
    match loaded {
        Err(cause) => Err(
            Failure::caused(
                "failed to validate participant snapshot ".to_owned().concat(snapshot_path),
                &cause,
            ),
        ),
        Ok(context) => {
            let mut context = context;
            context.set_transcribe(discord_user_id, transcribe);
            Ok(context)
        },
    }
}

/// What publishing a migrated snapshot came to.
pub open spec fn publication(
    session_id: Seq<char>,
    snapshot_path: Seq<char>,
    discord_user_id: u64,
    transcribe: bool,
    replaced: Result<(), Seq<char>>,
) -> Result<Seq<char>, Seq<char>> {
    match replaced {
        Err(cause) => Err(
            failure::because(
                "failed to publish participant transcription policy in "@ + snapshot_path,
                cause,
            ),
        ),
        Ok(_) => Ok(
            "Session "@ + session_id + " participant "@ + text::decimal(discord_user_id as nat)
                + " transcription policy set to "@ + worker::truth(transcribe) + "."@,
        ),
    }
}

/// Report the migration of a policy.
pub fn judge_publication(
    session_id: &str,
    snapshot_path: &str,
    discord_user_id: u64,
    transcribe: bool,
    replaced: Result<(), Failure>,
) -> (report: Result<String, Failure>)
    ensures
        failure::outcome(report) == publication(
            session_id@,
            snapshot_path@,
            discord_user_id,
            transcribe,
            failure::outcome(replaced),
        ),
{
    match replaced {
        Err(cause) => Err(
            Failure::caused(
                "failed to publish participant transcription policy in ".to_owned().concat(
                    snapshot_path,
                ),
                &cause,
            ),
        ),
        Ok(_) => Ok(
            "Session ".to_owned().concat(session_id).concat(" participant ").concat(
                text::decimal_text(discord_user_id).as_str(),
            ).concat(" transcription policy set to ").concat(
                if transcribe {
                    "true"
                } else {
                    "false"
                },
            ).concat("."),
        ),
    }
}

} // verus!
