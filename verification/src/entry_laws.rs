//! Which sessions each operation admits, and where it takes them.

use vstd::prelude::*;

use crate::authority_laws;
use crate::continuation;
use crate::orchestration;
use crate::orchestration::EventView;
use crate::orchestration::PipelineView;
use crate::orchestration::Step;
use crate::records;
use crate::results;
use crate::results::ResultAuthorityFailure;
use crate::results::ResultView;
use crate::results::TranscriptionResult;
use crate::retranscription;
use crate::retranscription::GenerationRoot;
use crate::session::SessionView;
use crate::session::WorkflowState;
use crate::text;
use crate::transcription;
use crate::transcription::RecordFile;
use crate::transcription::SessionArtifacts;
use crate::work_items::WorkItem;
use crate::work_items::WorkItemView;
use crate::worker;
use crate::worker::WorkerOutcome;

verus! {

/// A transcription starts on a session of format 4 that is ready, with work and
/// without results; it restarts on one of format 5 that was being transcribed,
/// with both; and on no other.
pub proof fn transcription_enters_ready_or_interrupted_sessions(record: SessionView)
    ensures
        transcription::entry_fault(record) is None <==> {
            ||| record.format == 4 && record.state == WorkflowState::ReadyForTranscription
                && record.files.work_items is Some && record.files.results is None
            ||| record.format == 5 && record.state == WorkflowState::Transcribing
                && record.files.work_items is Some && record.files.results is Some
        },
{
}

/// A transcription is continued on a session of format 5 with work and results
/// that waits or has failed, and only where a failed attempt of the worker is
/// on record.
pub proof fn continuation_needs_a_recorded_failure(record: SessionView)
    ensures
        transcription::continuation_fault(record) is None <==> {
            &&& record.format == 5
            &&& record.files.work_items is Some
            &&& record.files.results is Some
            &&& record.state == WorkflowState::AwaitingOperator || record.state
                == WorkflowState::TranscriptionFailed
            &&& exists|i: int|
                0 <= i < record.failures.len() && (#[trigger] record.failures[i]).kind
                    == "transcription_worker"@ && record.failures[i].state
                    == WorkflowState::Transcribing
        },
{
}

/// A transcript is rebuilt of a complete session of format 5 with work and
/// results, and of no other.
pub proof fn complete_sessions_are_rebuilt(record: SessionView)
    ensures
        transcription::rebuild_fault(record) is None <==> record.format == 5 && record.state
            == WorkflowState::Complete && record.files.work_items is Some
            && record.files.results is Some,
{
}

/// A recording is continued on a waiting session of format 3 or 4 without
/// results, and on no other.
pub proof fn waiting_recordings_are_continued(record: SessionView)
    ensures
        continuation::gate_fault(record) is None <==> (record.format == 3 || record.format == 4)
            && record.state == WorkflowState::AwaitingOperator && record.files.results is None,
{
}

/// No session is admitted by two of the operations.
pub proof fn sessions_are_admitted_once(record: SessionView)
    ensures
        transcription::entry_fault(record) is None ==> transcription::continuation_fault(record)
            is Some && transcription::rebuild_fault(record) is Some && continuation::gate_fault(
            record,
        ) is Some,
        transcription::continuation_fault(record) is None ==> transcription::rebuild_fault(record)
            is Some && continuation::gate_fault(record) is Some,
        transcription::rebuild_fault(record) is None ==> continuation::gate_fault(record) is Some,
{
}

/// Where a session is continued: a waiting recording is validated, a ready one
/// admitted, an interrupted transcription restarted and a failed one continued.
/// A session that is none of these is taken nowhere.
pub proof fn sessions_are_routed_by_their_record(record: SessionView)
    ensures
        ({
            let step = orchestration::route(record);
            let recorded = (record.format == 3 || record.format == 4) && record.files.results
                is None;
            let transcribed = record.format == 5 && record.files.work_items is Some
                && record.files.results is Some;
            let stopped = record.state == WorkflowState::AwaitingOperator || record.state
                == WorkflowState::TranscriptionFailed;
            &&& step == Some(Step::ValidateRecording) <==> recorded && record.state
                == WorkflowState::AwaitingOperator
            &&& step == Some(Step::AdmitReady) <==> recorded && record.state
                == WorkflowState::ReadyForTranscription
            &&& step == Some(Step::Transcribe) <==> transcribed && record.state
                == WorkflowState::Transcribing
            &&& step == Some(Step::ContinueTranscription) <==> transcribed && stopped
            &&& step is Some ==> step->0 == Step::ValidateRecording || step->0 == Step::AdmitReady
                || step->0 == Step::Transcribe || step->0 == Step::ContinueTranscription
        }),
{
}

/// Where a route leads, the session is admitted: to a continuation where a
/// failed attempt is on record too.
pub proof fn routes_lead_where_sessions_are_admitted(record: SessionView)
    ensures
        orchestration::route(record) == Some(Step::ValidateRecording) <==> continuation::gate_fault(
            record,
        ) is None,
        orchestration::route(record) == Some(Step::Transcribe) ==> transcription::entry_fault(
            record,
        ) is None,
        transcription::continuation_fault(record) is None <==> orchestration::route(record)
            == Some(Step::ContinueTranscription) && transcription::attempt_failed(record),
{
}

/// What a pipeline does with the record that it has loaded: each step goes on
/// with exactly the sessions meant for it.
pub proof fn pipelines_admit_by_the_loaded_record(pipeline: PipelineView, record: SessionView)
    ensures
        ({
            let next = pipeline.after(EventView::Loaded(Ok(record))).step;
            let ready = record.state == WorkflowState::ReadyForTranscription
                && record.files.results is None;
            &&& pipeline.step == Step::AdmitRecording ==> next == (if ready && record.format
                == 4 {
                Step::AdmitReady
            } else {
                Step::Stopped
            })
            &&& pipeline.step == Step::AdmitReady ==> next == (if !ready || record.format > 4 {
                Step::Stopped
            } else if record.files.work_items is None {
                Step::BuildWorkItems
            } else {
                Step::AdmitTranscription
            })
            &&& pipeline.step == Step::AdmitTranscription ==> next == (if ready
                && record.files.work_items is Some {
                Step::Transcribe
            } else {
                Step::ReloadAuthority
            })
            &&& pipeline.step == Step::ConfirmCompletion ==> next == (if record.state
                == WorkflowState::Complete {
                Step::Finished
            } else {
                Step::ReloadAuthority
            })
            &&& pipeline.step == Step::ReloadAuthority ==> next == (match record.state {
                WorkflowState::ReadyForTranscription => Step::PublishFailure,
                WorkflowState::Transcribing => Step::PublishTranscriptionFailure,
                _ => Step::Stopped,
            })
        }),
{
}

/// What a pipeline does next where an action has gone well.
pub proof fn pipelines_advance_in_order(pipeline: PipelineView)
    ensures
        ({
            let next = pipeline.after(EventView::Done).step;
            &&& pipeline.step == Step::ValidateRecording ==> next == Step::AdmitReady
            &&& pipeline.step == Step::BuildWorkItems ==> next == Step::AdmitTranscription
            &&& pipeline.step == Step::Transcribe || pipeline.step == Step::ContinueTranscription
                ==> next == Step::ConfirmCompletion
            &&& pipeline.step == Step::PublishTranscriptionFailure ==> next == Step::AwaitOperator
            &&& pipeline.step == Step::PublishFailure || pipeline.step == Step::AwaitOperator
                ==> next == Step::Stopped
        }),
{
}

/// The failure that a pipeline records of an interrupted transcription names
/// the stage and keeps the cause; of a ready session it is the cause itself.
pub proof fn recorded_failures_keep_their_cause(
    stage: orchestration::StageName,
    source: Seq<char>,
    state: WorkflowState,
)
    ensures
        ({
            let recording = orchestration::recording_of(stage, source, Ok(state));
            let named = match stage {
                orchestration::StageName::WorkManifestBuild => "work_manifest_build"@,
                orchestration::StageName::Transcription => "transcription_orchestration"@,
            };
            &&& state == WorkflowState::ReadyForTranscription ==> recording == Ok::<
                orchestration::FailureRecordingView,
                Seq<char>,
            >(orchestration::FailureRecordingView::Orchestration(source))
            &&& state == WorkflowState::Transcribing ==> recording == Ok::<
                orchestration::FailureRecordingView,
                Seq<char>,
            >(
                orchestration::FailureRecordingView::Transcription(
                    "process=orchestration_failure; stage="@ + named + "; error="@ + source,
                ),
            )
            &&& recording == Ok::<orchestration::FailureRecordingView, Seq<char>>(
                orchestration::FailureRecordingView::AlreadyRecorded,
            ) <==> state == WorkflowState::AwaitingOperator || state
                == WorkflowState::TranscriptionFailed
        }),
{
}

/// The artefacts of a session can be used exactly if each of the five files is
/// a regular one, the snapshot and the manifest were read, and the tracks are
/// ready; and then by that manifest.
pub proof fn artifacts_are_usable_when_in_place(
    session_id: Seq<char>,
    artifacts: SessionArtifacts,
)
    ensures
        ({
            let usable = transcription::usable_artifacts(session_id, artifacts);
            let manifest = artifacts.track_manifest->Ok_0.deep_view();
            &&& usable is Ok <==> {
                &&& artifacts.packets.kind is Regular
                &&& artifacts.playout.kind is Regular
                &&& artifacts.events.kind is Regular
                &&& artifacts.participants.kind is Regular
                &&& artifacts.tracks.kind is Regular
                &&& artifacts.participant_snapshot is Ok
                &&& artifacts.track_manifest is Ok
                &&& manifest.session_id == session_id
                &&& forall|i: int|
                    0 <= i < manifest.tracks.len() ==> authority_laws::in_place(
                        #[trigger] manifest.tracks[i],
                        artifacts.track_files@[i],
                    )
            }
            &&& usable is Ok ==> usable->Ok_0 == manifest
        }),
{
    if artifacts.track_manifest is Ok {
        authority_laws::ready_tracks_are_complete_and_in_place(
            session_id,
            artifacts.track_manifest->Ok_0.deep_view(),
            artifacts.track_files@,
            transcription::INCOMPLETE_FOR_TRANSCRIPTION@,
        );
    }
}

/// A number among the names of generations.
pub open spec fn names_generation(names: Seq<Option<Seq<char>>>, number: u64, index: int) -> bool {
    &&& 0 <= index < names.len()
    &&& names[index] is Some
    &&& text::parsed_u64(names[index]->0) == Some(number)
}

proof fn lemma_largest_generation(names: Seq<Option<Seq<char>>>)
    ensures
        forall|number: u64, index: int| #[trigger]
            names_generation(names, number, index) ==> number
                <= retranscription::largest_generation(names),
        retranscription::largest_generation(names) == 0 || exists|index: int| #[trigger]
            names_generation(names, retranscription::largest_generation(names), index),
    decreases names.len(),
{
    if names.len() > 0 {
        let n = names.len() as int;
        let fewer = names.drop_last();
        lemma_largest_generation(fewer);
        let before = retranscription::largest_generation(fewer);
        let largest = retranscription::largest_generation(names);
        assert forall|number: u64, index: int| #[trigger]
            names_generation(names, number, index) implies number <= largest by {
            if index < n - 1 {
                assert(names_generation(fewer, number, index));
            } else {
                assert(names.last() == names[index]);
            }
        }
        if largest != 0 {
            if largest == before {
                let index = choose|index: int| #[trigger] names_generation(fewer, before, index);
                assert(names_generation(names, largest, index));
            } else {
                assert(names_generation(names, largest, n - 1));
            }
        }
    }
}

/// A generation is named by the number behind the largest one there is, or by
/// one where there is none, in six digits or more; and it is named exactly if
/// the directory is a real one below the session and there is such a number.
pub proof fn generations_are_numbered_consecutively(
    root: GenerationRoot,
    names: Seq<Option<Seq<char>>>,
)
    ensures
        ({
            let next = retranscription::next_generation(root, names);
            &&& next is Ok <==> root.real_directory && root.below_session && !(exists|index: int|
             #[trigger]
                names_generation(names, u64::MAX, index))
            &&& next is Ok ==> {
                let name = next->Ok_0;
                let number = text::parsed_u64(name);
                &&& number is Some
                &&& number->0 > 0
                &&& name.len() >= 6
                &&& text::all_digits(name)
                &&& name.len() > 6 ==> name[0] != '0'
                &&& forall|other: u64, index: int| #[trigger]
                    names_generation(names, other, index) ==> other < number->0
                &&& number->0 == 1 || exists|index: int| #[trigger]
                    names_generation(names, (number->0 - 1) as u64, index)
            }
        }),
{
    lemma_largest_generation(names);
    let largest = retranscription::largest_generation(names);
    let next = retranscription::next_generation(root, names);
    if largest == u64::MAX {
        let index = choose|index: int| #[trigger] names_generation(names, largest, index);
        assert(names_generation(names, u64::MAX, index));
    }
    if next is Ok {
        let number = (largest + 1) as u64;
        retranscription::lemma_padded_reads_back(number, 6);
        let plain = text::decimal(number as nat);
        text::lemma_decimal_is_digits(number as nat);
        let name = next->Ok_0;
        assert(text::parsed_u64(name) == Some(number));
        assert forall|i: int| 0 <= i < name.len() implies text::is_digit(#[trigger] name[i]) by {
            if plain.len() < 6 {
                if i >= 6 - plain.len() {
                    assert(name[i] == plain[i - (6 - plain.len())]);
                }
            }
        }
        if name.len() > 6 {
            lemma_no_leading_zero(number as nat);
            assert(name == plain);
        }
        assert(name.len() >= 6);
        assert((number - 1) as u64 == largest);
        if number != 1 {
            let index = choose|index: int| #[trigger] names_generation(names, largest, index);
            assert(names_generation(names, (number - 1) as u64, index));
        }
    }
}

proof fn lemma_no_leading_zero(value: nat)
    requires
        value > 0,
    ensures
        text::decimal(value).len() > 0,
        text::decimal(value)[0] != '0',
    decreases value,
{
    if value >= 10 {
        lemma_no_leading_zero(value / 10);
    }
}

/// A transcript is rebuilt exactly if the work manifest is accepted, the
/// results end with a closed record, every one of them is accepted and there is
/// one for each work item; and then of those results.
pub proof fn transcripts_need_every_result(
    session_id: Seq<char>,
    manifest: RecordFile<WorkItem>,
    results: RecordFile<TranscriptionResult>,
    windows: bool,
)
    ensures
        ({
            let transcript = transcription::complete_transcript(
                session_id,
                manifest,
                results,
                windows,
            );
            let items = transcription::manifest_file_items(manifest, session_id, windows);
            let bytes = results.read->Ok_0@;
            let authority = results::result_authority(
                Ok(bytes),
                results::read_results(results.parsed@),
                results.path@,
                items->Ok_0,
            );
            &&& transcript is Ok <==> {
                &&& items is Ok
                &&& results.read is Ok
                &&& bytes.len() == 0 || bytes.last() == 10
                &&& authority is Ok
                &&& authority->Ok_0.len() == items->Ok_0.len()
            }
            &&& transcript is Ok ==> transcript->Ok_0 == results::transcript_of(authority->Ok_0)
        }),
{
}

/// A transcription may be replaced exactly if the session is complete, declares
/// work and results, and a transcript can be rendered of them.
pub proof fn complete_transcriptions_are_replaced(
    record: SessionView,
    manifest: RecordFile<WorkItem>,
    results: RecordFile<TranscriptionResult>,
    windows: bool,
)
    ensures
        retranscription::complete_authority(record, manifest, results, windows) is Ok <==> {
            &&& record.state == WorkflowState::Complete
            &&& record.files.work_items is Some
            &&& record.files.results is Some
            &&& transcription::complete_transcript(record.session_id, manifest, results, windows)
                is Ok
        },
{
}

/// The failure of an accepted stage is filed under that stage, whether the stage
/// reported it or the session record shows it, and with its cause.
pub proof fn failures_are_filed_under_their_stage(
    pipeline: PipelineView,
    source: Seq<char>,
    cause: Seq<char>,
)
    ensures
        ({
            let failed = pipeline.after(EventView::StageFailed { accepted: true, source });
            let unread = pipeline.after(EventView::Loaded(Err(cause)));
            let told = "failed to load workflow state from "@ + pipeline.directory + ": "@ + cause;
            &&& failed.step == Step::ReloadAuthority
            &&& failed.source == source
            &&& pipeline.step == Step::BuildWorkItems ==> failed.stage
                == orchestration::StageName::WorkManifestBuild
            &&& pipeline.step == Step::Transcribe || pipeline.step == Step::ContinueTranscription
                ==> failed.stage == orchestration::StageName::Transcription
            &&& pipeline.step == Step::AdmitTranscription ==> unread.step == Step::ReloadAuthority
                && unread.stage == orchestration::StageName::WorkManifestBuild && unread.source
                == told
            &&& pipeline.step == Step::ConfirmCompletion ==> unread.step == Step::ReloadAuthority
                && unread.stage == orchestration::StageName::Transcription && unread.source == told
            &&& pipeline.step == Step::AdmitRecording || pipeline.step == Step::Route
                || pipeline.step == Step::AdmitReady ==> unread.step == Step::Stopped
                && unread.report == told
        }),
{
}

/// A pipeline that waits for its operator says so, with the cause of the failed
/// stage; one that could not record the failure says that instead.
pub proof fn stopped_pipelines_tell_their_cause(pipeline: PipelineView, cause: Seq<char>)
    ensures
        ({
            let done = pipeline.after(EventView::Done);
            let failed = pipeline.after(EventView::Failed(cause));
            &&& pipeline.step == Step::PublishFailure || pipeline.step == Step::AwaitOperator
                ==> done.report
                == "one-stop workflow stopped at a safe boundary; session is awaiting operator action"@
                + ": "@ + pipeline.source
            &&& failed.step == Step::Stopped
            &&& pipeline.step == Step::ValidateRecording ==> failed.report == cause
            &&& pipeline.step == Step::PublishFailure ==> failed.report
                == "stage failed and durable awaiting_operator publication also failed"@ + ": "@
                + cause
            &&& pipeline.step == Step::PublishTranscriptionFailure ==> failed.report
                == "stage failed and durable transcription failure publication also failed"@ + ": "@
                + cause
            &&& pipeline.step == Step::AwaitOperator ==> failed.report
                == "transcription failure is durable but awaiting_operator publication failed"@
                + ": "@ + cause
        }),
{
}

/// Results that could not be read leave no result safe; those that could are
/// accepted as far as they are committed, or are at fault behind the sound ones.
pub proof fn unread_results_leave_nothing_safe(
    read: Result<Seq<u8>, Seq<char>>,
    parsed: Seq<Result<ResultView, Seq<char>>>,
    path: Seq<char>,
    items: Seq<WorkItemView>,
)
    ensures
        ({
            let authority = results::result_authority(read, parsed, path, items);
            let committed = results::committed_results(
                records::records(results::committed_bytes(read->Ok_0)),
                parsed,
                path,
                items,
            );
            &&& read is Err ==> authority is Err && {
                let fault = authority->Err_0;
                &&& fault.safely_validated_prefix_length == 0
                &&& fault.earliest_unsafe_sequence == 1
                &&& items.len() > 0 ==> fault.earliest_unsafe_work_item_id == items[0].id
                &&& fault.message == "failed to read results "@ + path + ": "@ + read->Err_0
            }
            &&& read is Ok ==> (authority is Ok <==> committed is Ok)
            &&& read is Ok && authority is Ok ==> authority->Ok_0 == committed->Ok_0
            &&& read is Ok && authority is Err ==> {
                let fault = authority->Err_0;
                &&& fault.safely_validated_prefix_length == committed->Err_0.1
                &&& fault.message == committed->Err_0.0
            }
        }),
{
}

/// A replacement starts at the first work item: an attempt at one that fell
/// short is told as one from sequence 1, and staged results that are damaged are
/// told as such.
pub proof fn replacements_start_at_the_first_item(
    outcome: WorkerOutcome,
    authority: Result<Vec<TranscriptionResult>, ResultAuthorityFailure>,
    items: Seq<WorkItemView>,
)
    ensures
        ({
            let accepted = retranscription::accepted_results(outcome, authority, items);
            let staged = authority->Ok_0.deep_view();
            &&& authority is Err ==> accepted == Err::<Seq<ResultView>, Seq<char>>(
                "staged result validation failed"@ + ": "@
                    + authority->Err_0.deep_view().text(),
            )
            &&& authority is Ok && !outcome.succeeded() ==> accepted is Err && (worker::worker_failure(
                items,
                staged.len(),
                1,
                outcome.diagnostic(),
            ) matches Ok(message) ==> accepted->Err_0 == message)
            &&& accepted is Ok ==> accepted->Ok_0 == staged
        }),
{
}

} // verus!
