//! How runs of the stages go on, step by step.

use vstd::prelude::*;

use crate::clock;
use crate::failure::Failure;
use crate::operation_lease;
use crate::operation_lease::DecisionView;
use crate::operation_lease::LockAttempt;
use crate::orchestration;
use crate::recording;
use crate::recording::RecordingEnd;
use crate::recording::RecordingOutcome;
use crate::resume;
use crate::resume::ResumePlan;
use crate::retranscription;
use crate::retranscription::RetranscriptionView;
use crate::session::WorkflowState;
use crate::text;
use crate::track_manifest::TrackState;
use crate::track_manifest::TrackView;
use crate::transcription_flow;
use crate::transcription_flow::FlowView;
use crate::verify_tracks;
use crate::verify_tracks::Integrity;
use crate::verify_tracks::VerificationView;
use crate::voice::IdentityView;
use crate::voice::RosterView;
use crate::voice::VoiceState;
use crate::work_items::WorkItemView;
use crate::worker;
use crate::worker::ExplicitInterpreter;
use crate::worker::InterpreterView;
use crate::worker::WorkerArgumentView;
use crate::worker::WorkerOutcome;
use crate::worker::WorkerSettingsView;

verus! {

/// A run starts at the result behind those that are committed, a continued run
/// at its boundary; and where it starts is decided once.
pub proof fn runs_start_behind_the_committed_results(
    flow: FlowView,
    event: transcription_flow::EventView,
    state: WorkflowState,
    plan: ResumePlan,
)
    requires
        flow.answers(event),
    ensures
        event matches transcription_flow::EventView::Committed(count) ==> flow.after(
            event,
        ).start_sequence == count + 1,
        !(event is Committed) ==> flow.after(event).start_sequence == flow.start_sequence,
        flow.after(event).resume == flow.resume,
        transcription_flow::continued(state, plan).start_sequence == plan.sequence,
        transcription_flow::continued(state, plan).resume == Some(plan),
        transcription_flow::begun(state).resume is None,
{
}

/// Where a run of the transcription stage starts.
pub proof fn runs_start_by_the_session_state(state: WorkflowState, plan: ResumePlan)
    ensures
        transcription_flow::begun(state).step == transcription_flow::Step::PrepareResults <==> state
            == WorkflowState::ReadyForTranscription,
        transcription_flow::begun(state).step == transcription_flow::Step::ReadCommitted <==> state
            != WorkflowState::ReadyForTranscription,
        ({
            let step = transcription_flow::continued(state, plan).step;
            &&& step == transcription_flow::Step::EnterWaiting <==> state
                == WorkflowState::TranscriptionFailed
            &&& step == transcription_flow::Step::RecordBoundary <==> state
                != WorkflowState::TranscriptionFailed && !plan.previously_prepared
            &&& step == transcription_flow::Step::RewindResults <==> state
                != WorkflowState::TranscriptionFailed && plan.previously_prepared
        }),
{
}

/// What a run of the transcription stage does next where an action has gone
/// well, and that it stops wherever one has failed.
pub proof fn runs_advance_in_order(flow: FlowView, cause: Seq<char>)
    ensures
        ({
            let next = flow.after(transcription_flow::EventView::Done).step;
            &&& flow.step == transcription_flow::Step::PrepareResults ==> next
                == transcription_flow::Step::PublishStart
            &&& flow.step == transcription_flow::Step::PublishStart ==> next
                == transcription_flow::Step::ReadCommitted
            &&& flow.step == transcription_flow::Step::RecordBoundary ==> next
                == transcription_flow::Step::RewindResults
            &&& flow.step == transcription_flow::Step::RewindResults ==> next
                == transcription_flow::Step::RenderKept
            &&& flow.step == transcription_flow::Step::RenderKept ==> next == (if flow.resume
                is Some {
                transcription_flow::Step::ApplyBoundary
            } else {
                transcription_flow::Step::RunWorker
            })
            &&& flow.step == transcription_flow::Step::ApplyBoundary ==> next
                == transcription_flow::Step::RunWorker
            &&& flow.step == transcription_flow::Step::RenderAll ==> next
                == transcription_flow::Step::PublishTranscript
            &&& flow.step == transcription_flow::Step::PublishTranscript ==> next
                == transcription_flow::Step::PublishCompletion
            &&& flow.step == transcription_flow::Step::PublishCompletion ==> next
                == transcription_flow::Step::Finished
            &&& flow.step == transcription_flow::Step::PublishFailure ==> next
                == transcription_flow::Step::AwaitOperator
            &&& flow.step == transcription_flow::Step::AwaitOperator ==> next
                == transcription_flow::Step::Stopped
            &&& flow.step == transcription_flow::Step::EnterWaiting && flow.resume is Some ==> next
                == (if flow.resume->0.previously_prepared {
                transcription_flow::Step::RewindResults
            } else {
                transcription_flow::Step::RecordBoundary
            })
        }),
        flow.after(transcription_flow::EventView::Failed(cause)).step
            == transcription_flow::Step::Stopped,
        flow.after(transcription_flow::EventView::NoClock(cause)).step
            == transcription_flow::Step::Stopped,
        flow.after(transcription_flow::EventView::NoClock(cause)).report == cause,
        flow.after(
            transcription_flow::EventView::Judged(worker::VerdictView::Complete),
        ).step == transcription_flow::Step::RenderAll,
{
}

/// What a retranscription does next where an action has gone well.
pub proof fn retranscriptions_advance_in_order(run: RetranscriptionView)
    ensures
        ({
            let next = run.after(retranscription::EventView::Done).step;
            &&& run.step == retranscription::Step::ValidateAuthority ==> next
                == retranscription::Step::BuildItems
            &&& run.step == retranscription::Step::CreateGeneration ==> next
                == retranscription::Step::SynchroniseParents
            &&& run.step == retranscription::Step::SynchroniseParents ==> next
                == retranscription::Step::WriteManifest
            &&& run.step == retranscription::Step::WriteManifest ==> next
                == retranscription::Step::Transcribe
            &&& run.step == retranscription::Step::Transcribe ==> next
                == retranscription::Step::WriteTranscript
            &&& run.step == retranscription::Step::WriteTranscript ==> next
                == retranscription::Step::RemovePartial
            &&& run.step == retranscription::Step::RemovePartial ==> next
                == retranscription::Step::SynchroniseGeneration
            &&& run.step == retranscription::Step::SynchroniseGeneration ==> next
                == retranscription::Step::NameFiles
            &&& run.step == retranscription::Step::NameFiles ==> next
                == retranscription::Step::Publish
            &&& run.step == retranscription::Step::Publish ==> next
                == retranscription::Step::Finished
        }),
{
}

/// What a retranscription learns it keeps: the session, how many work items
/// there are, and where the generation lies.
pub proof fn retranscriptions_remember_what_they_learn(
    run: RetranscriptionView,
    event: retranscription::EventView,
)
    requires
        run.answers(event),
    ensures
        run.after(event).session_id == (match event {
            retranscription::EventView::Loaded(session_id) => session_id,
            _ => run.session_id,
        }),
        run.after(event).work_items == (match event {
            retranscription::EventView::Built(count) => count,
            _ => run.work_items,
        }),
        run.after(event).generation == (match event {
            retranscription::EventView::Chosen { generation, .. } => generation,
            _ => run.generation,
        }),
        run.after(event).session_directory == run.session_directory,
        event is Loaded ==> run.after(event).step == retranscription::Step::ValidateAuthority,
        event is Built ==> run.after(event).step == retranscription::Step::ChooseGeneration,
        event is Chosen ==> run.after(event).step == retranscription::Step::CreateGeneration,
{
}

/// Samples are added up as they are decoded, and those of a track start from
/// none; a count out of range ends the verification.
pub proof fn decoded_samples_are_added_up(
    verification: VerificationView,
    count: u64,
    format: verify_tracks::StreamFormat,
)
    requires
        count > 0,
    ensures
        ({
            let counted = verification.after(verify_tracks::EventView::Samples(count));
            if verification.decoded_samples + count <= u64::MAX {
                &&& counted.decoded_samples == verification.decoded_samples + count
                &&& counted.step == verification.step
                &&& counted.position == verification.position
                &&& counted.verified_tracks == verification.verified_tracks
            } else {
                counted.step == verify_tracks::Step::Stopped
            }
        }),
        ({
            let opened = verification.after(verify_tracks::EventView::Opened(format));
            let track = verification.tracks[verification.position as int];
            if format.sample_rate == track.sample_rate && format.channels as int == track.channels
                && format.bits_per_sample as int == track.bits_per_sample {
                opened.step == verify_tracks::Step::Read && opened.decoded_samples == 0
            } else {
                opened.step == verify_tracks::Step::Stopped
            }
        }),
        verification.after(verify_tracks::EventView::Decoded(Integrity::Match)).step
            == verify_tracks::Step::Open,
        verification.after(verify_tracks::EventView::Decoded(Integrity::Mismatch)).step
            == verify_tracks::Step::Stopped,
        verification.after(verify_tracks::EventView::Decoded(Integrity::Missing)).step
            == verify_tracks::Step::Stopped,
{
}

proof fn lemma_sought(verification: VerificationView)
    requires
        verification.position <= verification.tracks.len(),
    ensures
        ({
            let next = verification.sought();
            &&& next.tracks == verification.tracks
            &&& verification.position <= next.position <= verification.tracks.len()
            &&& forall|i: int|
                verification.position <= i < next.position ==> (
                #[trigger] verification.tracks[i]).state == TrackState::Incomplete
            &&& next.position < verification.tracks.len() ==> verification.tracks[next.position as int].state
                == TrackState::Complete && next.step == verify_tracks::Step::DecodeVerify
            &&& next.position == verification.tracks.len() ==> next.step == (
            if verification.incomplete_users.len() > 0 || next.position > verification.position {
                verify_tracks::Step::Stopped
            } else {
                verify_tracks::Step::Finished
            })
            &&& next.verified_tracks == verification.verified_tracks
            &&& next.incomplete_users.len() == verification.incomplete_users.len() + (next.position
                - verification.position)
        }),
    decreases verification.tracks.len() - verification.position,
{
    if verification.position < verification.tracks.len() && verification.track().state
        == TrackState::Incomplete {
        let passed = VerificationView {
            position: verification.position + 1,
            incomplete_users: verification.incomplete_users.push(
                verification.track().discord_user_id,
            ),
            ..verification
        };
        lemma_sought(passed);
    }
}

/// Where a file has ended, its track is verified exactly if as many samples were
/// decoded as are on record. The verification turns to the next complete track,
/// passing over incomplete ones; where there is none left, it has succeeded
/// exactly if none was passed over.
pub proof fn verified_tracks_make_way_for_the_next(verification: VerificationView)
    requires
        verification.position < verification.tracks.len(),
    ensures
        ({
            let next = verification.after(verify_tracks::EventView::Samples(0));
            let track = verification.tracks[verification.position as int];
            if verification.decoded_samples != track.length_samples {
                &&& next.step == verify_tracks::Step::Stopped
                &&& next.verified_tracks == verification.verified_tracks
            } else {
                &&& next.verified_tracks == verification.verified_tracks + 1
                &&& verification.position < next.position <= verification.tracks.len()
                &&& forall|i: int|
                    verification.position < i < next.position ==> (
                    #[trigger] verification.tracks[i]).state == TrackState::Incomplete
                &&& next.position < verification.tracks.len()
                    ==> verification.tracks[next.position as int].state == TrackState::Complete
                    && next.step == verify_tracks::Step::DecodeVerify
                &&& next.position == verification.tracks.len() ==> next.step == (
                if verification.incomplete_users.len() > 0 || next.position
                    > verification.position + 1 {
                    verify_tracks::Step::Stopped
                } else {
                    verify_tracks::Step::Finished
                })
            }
        }),
{
    lemma_sought(
        VerificationView {
            position: verification.position + 1,
            verified_tracks: verification.verified_tracks + 1,
            ..verification
        },
    );
}

/// A verification starts with no track verified, at the first complete one, and
/// only on a manifest of the session.
pub proof fn verifications_start_at_the_first_complete_track(
    session_id: Seq<char>,
    manifest_session_id: Seq<char>,
    tracks: Seq<TrackView>,
    locations: Seq<Seq<char>>,
)
    ensures
        ({
            let started = verify_tracks::begun(session_id, manifest_session_id, tracks, locations);
            &&& started is Ok <==> session_id == manifest_session_id
            &&& started matches Ok(first) ==> {
                &&& first.tracks == tracks
                &&& first.verified_tracks == 0
                &&& forall|i: int|
                    0 <= i < first.position ==> (#[trigger] tracks[i]).state
                        == TrackState::Incomplete
                &&& first.position < tracks.len() ==> tracks[first.position as int].state
                    == TrackState::Complete
                &&& tracks.len() == 0 ==> first.step == verify_tracks::Step::Finished
            }
        }),
{
    lemma_sought(verify_tracks::at_start(tracks, locations));
}

/// A lock that is held is tried once more, after five milliseconds, and a lock
/// that fails otherwise is not.
pub proof fn held_locks_are_tried_once_more(
    attempt: nat,
    outcome: LockAttempt,
    session_directory: Seq<char>,
    lease_path: Seq<char>,
)
    ensures
        ({
            let decision = operation_lease::decision(
                attempt,
                outcome,
                session_directory,
                lease_path,
            );
            &&& decision == DecisionView::Retry <==> outcome is WouldBlock && attempt == 0
            &&& decision == DecisionView::Acquired <==> outcome is Locked
            &&& decision is Refused <==> outcome is Error || (outcome is WouldBlock && attempt > 0)
        }),
        operation_lease::TRANSIENT_LOCK_RETRY_MILLIS == 5,
        operation_lease::OPERATION_LEASE_FILE_NAME@ == "worker.lock"@,
{
}

/// The stages behind a recording run exactly if it was finalised with every
/// track complete and was ended by the operator or by a connection that closed
/// well. Capture is stopped without a fault only where the operator asked.
pub proof fn recordings_are_followed_when_clean(
    finalised: Result<RecordingOutcome, Failure>,
    end: RecordingEnd,
)
    ensures
        recording::finished(finalised, end) is Ok <==> {
            &&& finalised is Ok
            &&& finalised->Ok_0 is ReadyForTranscription
            &&& end is Requested || (end matches RecordingEnd::GatewayEnded(result) && result is Ok)
        },
        recording::reported(finalised) is Some <==> finalised is Ok
            && finalised->Ok_0 is ReadyForTranscription,
        recording::capture_fault(end) is None <==> end is Requested,
        recording::capture_fault(end) matches Some((kind, _)) ==> kind == (if end is SignalLost {
            "shutdown_signal"@
        } else {
            "gateway_terminated"@
        }),
{
}

/// A timestamp is the time on the clock, wherever it fits.
pub proof fn timestamps_are_the_time_on_the_clock(since_epoch: Result<u128, Failure>)
    ensures
        clock::unix_millis(since_epoch) is Ok <==> since_epoch is Ok && since_epoch->Ok_0
            <= u64::MAX,
        clock::unix_millis(since_epoch) is Ok ==> clock::unix_millis(since_epoch)->Ok_0
            == since_epoch->Ok_0,
        orchestration::unix_millis(since_epoch) is Ok <==> clock::unix_millis(since_epoch) is Ok,
        orchestration::unix_millis(since_epoch) is Ok ==> orchestration::unix_millis(
            since_epoch,
        )->Ok_0 == since_epoch->Ok_0,
{
}

/// What an attempt that stopped short is filed with: where it started, the
/// sequence behind the committed results and the work item of that sequence.
pub proof fn short_attempts_name_the_next_item(
    items: Seq<WorkItemView>,
    committed: nat,
    start: u64,
    diagnostic: Seq<char>,
)
    ensures
        worker::worker_failure(items, committed, start, diagnostic) is Ok <==> committed
            < u64::MAX,
        worker::worker_failure(items, committed, start, diagnostic) matches Ok(message)
            ==> message == "attempted_start_sequence="@ + text::decimal(start as nat)
            + "; next_uncommitted_sequence="@ + text::decimal(committed + 1)
            + "; next_work_item_id="@ + (if committed < items.len() {
            items[committed as int].id
        } else {
            "none"@
        }) + "; process="@ + diagnostic,
{
}

/// Which Python runs the worker: the one that was named; else that of the
/// virtual environment, where there is one; else that of the platform.
pub proof fn interpreters_are_chosen_in_order(
    explicit: ExplicitInterpreter,
    windows: bool,
    present: bool,
)
    ensures
        ({
            let chosen = worker::chosen_interpreter(explicit, windows, present);
            &&& chosen is Err <==> explicit == ExplicitInterpreter::Empty
            &&& (chosen is Ok && chosen->Ok_0 is Explicit) <==> explicit
                == ExplicitInterpreter::Named
            &&& (chosen is Ok && chosen->Ok_0 is VirtualEnvironment) <==> explicit
                == ExplicitInterpreter::Unset && present
            &&& (chosen is Ok && chosen->Ok_0 is Platform) <==> explicit
                == ExplicitInterpreter::Unset && !present
            &&& chosen matches Ok(InterpreterView::Platform(name)) ==> name == (if windows {
                "python"@
            } else {
                "python3"@
            })
            &&& chosen matches Ok(InterpreterView::VirtualEnvironment(names)) ==> names.len() == 3
                && names[0] == ".venv"@ && names[1] == (if windows {
                "Scripts"@
            } else {
                "bin"@
            }) && names[2] == (if windows {
                "python.exe"@
            } else {
                "python"@
            })
        }),
{
}

/// The flag and the phrase of one hotword stand where they belong.
pub open spec fn hotword_passed(
    arguments: Seq<WorkerArgumentView>,
    hotwords: Seq<Seq<char>>,
    i: int,
) -> bool {
    &&& arguments[2 * i] == WorkerArgumentView::Text("--hotword"@)
    &&& arguments[2 * i + 1] == WorkerArgumentView::Text(hotwords[i])
}

/// Every hotword reaches the worker, in order, each behind a flag of its own.
pub proof fn hotwords_are_passed_on(hotwords: Seq<Seq<char>>)
    ensures
        worker::hotword_arguments(hotwords).len() == 2 * hotwords.len(),
        forall|i: int|
            0 <= i < hotwords.len() ==> #[trigger] hotword_passed(
                worker::hotword_arguments(hotwords),
                hotwords,
                i,
            ),
    decreases hotwords.len(),
{
    if hotwords.len() > 0 {
        let fewer = hotwords.drop_last();
        hotwords_are_passed_on(fewer);
        let before = worker::hotword_arguments(fewer);
        let arguments = worker::hotword_arguments(hotwords);
        assert forall|i: int| 0 <= i < hotwords.len() implies #[trigger] hotword_passed(
            arguments,
            hotwords,
            i,
        ) by {
            if i < hotwords.len() - 1 {
                assert(hotword_passed(before, fewer, i));
                assert(fewer[i] == hotwords[i]);
            }
        }
    }
}

/// An argument stands behind its flag on the worker's command line.
pub open spec fn passes(
    arguments: Seq<WorkerArgumentView>,
    flag: Seq<char>,
    value: WorkerArgumentView,
) -> bool {
    exists|i: int|
        0 <= i && i + 1 < arguments.len() && #[trigger] arguments[i] == WorkerArgumentView::Text(
            flag,
        ) && arguments[i + 1] == value
}

/// The worker is told, each behind its flag, where its files are, where to
/// start, and every setting.
pub proof fn settings_are_passed_on(next_sequence: u64, settings: WorkerSettingsView)
    ensures
        ({
            let arguments = worker::fixed_arguments(next_sequence, settings);
            &&& arguments[0] == WorkerArgumentView::WorkerScript
            &&& passes(arguments, "--config"@, WorkerArgumentView::ConfigPath)
            &&& passes(arguments, "--session"@, WorkerArgumentView::SessionDirectory)
            &&& passes(arguments, "--manifest"@, WorkerArgumentView::ManifestPath)
            &&& passes(arguments, "--results"@, WorkerArgumentView::ResultsPath)
            &&& passes(arguments, "--transcript"@, WorkerArgumentView::TranscriptPath)
            &&& passes(
                arguments,
                "--start-sequence"@,
                WorkerArgumentView::Text(text::decimal(next_sequence as nat)),
            )
            &&& passes(arguments, "--model"@, WorkerArgumentView::Text(settings.model))
            &&& passes(arguments, "--language"@, WorkerArgumentView::Text(settings.language))
            &&& passes(arguments, "--device"@, WorkerArgumentView::Text(settings.device))
            &&& passes(
                arguments,
                "--compute-type"@,
                WorkerArgumentView::Text(settings.compute_type),
            )
            &&& passes(
                arguments,
                "--beam-size"@,
                WorkerArgumentView::Text(text::decimal(settings.beam_size as nat)),
            )
            &&& passes(
                arguments,
                "--vad-enabled"@,
                WorkerArgumentView::Text(
                    if settings.vad_enabled {
                        "true"@
                    } else {
                        "false"@
                    },
                ),
            )
        }),
{
    let arguments = worker::fixed_arguments(next_sequence, settings);
    assert(arguments[1] == WorkerArgumentView::Text("--config"@));
    assert(arguments[3] == WorkerArgumentView::Text("--session"@));
    assert(arguments[5] == WorkerArgumentView::Text("--manifest"@));
    assert(arguments[7] == WorkerArgumentView::Text("--results"@));
    assert(arguments[9] == WorkerArgumentView::Text("--transcript"@));
    assert(arguments[11] == WorkerArgumentView::Text("--start-sequence"@));
    assert(arguments[13] == WorkerArgumentView::Text("--model"@));
    assert(arguments[15] == WorkerArgumentView::Text("--language"@));
    assert(arguments[17] == WorkerArgumentView::Text("--device"@));
    assert(arguments[19] == WorkerArgumentView::Text("--compute-type"@));
    assert(arguments[21] == WorkerArgumentView::Text("--beam-size"@));
    assert(arguments[23] == WorkerArgumentView::Text("--vad-enabled"@));
}

/// How a worker ended is told apart: that it did not start, ended well, ended
/// with a status, or was ended.
pub proof fn worker_endings_are_told_apart(outcome: WorkerOutcome)
    ensures
        outcome.succeeded() <==> outcome is Exited && outcome->Exited_0.success,
        outcome matches WorkerOutcome::NotLaunched(cause) ==> outcome.diagnostic()
            == "launch_failure: "@ + cause@,
        outcome matches WorkerOutcome::Exited(exit) ==> outcome.diagnostic() == (if exit.success {
            "zero_exit"@
        } else if exit.code is Some {
            "non_zero_exit: status "@ + text::signed_decimal(exit.code->0 as int)
        } else {
            "signal_termination: worker terminated without an exit status"@
        }),
{
}

/// A person of the recorded guild is on the roster behind an update exactly if
/// the update shows them in the recorded channel; and their names are filed
/// exactly where it also names them.
pub proof fn rosters_follow_the_channel(
    roster: RosterView,
    earlier: Option<VoiceState>,
    new: VoiceState,
)
    requires
        new.member matches Some(member) ==> !member.bot,
        new.member is None ==> (earlier matches Some(before) ==> (before.member matches Some(member)
            ==> !member.bot)),
    ensures
        ({
            let of_guild = new.guild_id == Some(roster.guild_id) || (earlier is Some
                && earlier->0.guild_id == Some(roster.guild_id));
            let in_channel = new.channel_id == Some(roster.channel_id);
            &&& of_guild ==> (roster.updated(earlier, new).contains(new.user_id) <==> in_channel)
            &&& !of_guild ==> roster.updated(earlier, new) == roster.users
            &&& roster.departures(earlier, new).len() == (if of_guild && !in_channel
                && roster.users.contains(new.user_id) {
                1int
            } else {
                0int
            })
            &&& roster.named(earlier, new).len() == (if of_guild && in_channel && new.member
                is Some {
                1int
            } else {
                0int
            })
            &&& roster.named(earlier, new).len() == 1 ==> {
                let filed: IdentityView = roster.named(earlier, new)[0];
                let member = new.member->0;
                &&& filed.user_id == member.user_id
                &&& filed.name == member.name@
                &&& filed.nick == member.nick.deep_view()
                &&& filed.global_name == member.global_name.deep_view()
            }
        }),
{
}

/// A snapshot of the guild seats exactly the persons whom some state shows in
/// the recorded channel, bots left out.
pub proof fn snapshots_seat_the_persons_in_the_channel(
    roster: RosterView,
    states: Seq<VoiceState>,
    user: u64,
)
    ensures
        roster.seated(states).contains(user) <==> (exists|i: int|
            0 <= i < states.len() && (#[trigger] states[i]).channel_id == Some(roster.channel_id)
                && states[i].member is Some && !states[i].member->0.bot && states[i].user_id
                == user),
        roster.introduced(states).len() == roster.seated(states).len(),
    decreases states.len(),
{
    if states.len() > 0 {
        let n = states.len() as int;
        let fewer = states.drop_last();
        snapshots_seat_the_persons_in_the_channel(roster, fewer, user);
        let before = roster.seated(fewer);
        let seated = roster.seated(states);
        assert(states[n - 1] == states.last());
        if seated.contains(user) {
            let k = choose|k: int| 0 <= k < seated.len() && seated[k] == user;
            if k < before.len() {
                assert(before[k] == user);
                let i = choose|i: int|
                    0 <= i < fewer.len() && (#[trigger] fewer[i]).channel_id == Some(
                        roster.channel_id,
                    ) && fewer[i].member is Some && !fewer[i].member->0.bot && fewer[i].user_id
                        == user;
                assert(states[i] == fewer[i]);
            }
        }
        if exists|i: int|
            0 <= i < states.len() && (#[trigger] states[i]).channel_id == Some(roster.channel_id)
                && states[i].member is Some && !states[i].member->0.bot && states[i].user_id
                == user {
            let i = choose|i: int|
                0 <= i < states.len() && (#[trigger] states[i]).channel_id == Some(
                    roster.channel_id,
                ) && states[i].member is Some && !states[i].member->0.bot && states[i].user_id
                    == user;
            if i < n - 1 {
                assert(fewer[i] == states[i]);
                let k = choose|k: int| 0 <= k < before.len() && before[k] == user;
                assert(seated[k] == user);
            } else {
                assert(seated[before.len() as int] == user);
            }
        }
    }
}

/// The sequence behind so many results is the next number, wherever there is
/// one; and a boundary is recorded under a number other than zero.
pub proof fn sequences_count_from_one(count: nat, value: Seq<char>)
    ensures
        resume::next_sequence_after(count) is Ok <==> count < u64::MAX,
        resume::next_sequence_after(count) matches Ok(next) ==> next == count + 1,
        resume::resume_sequence_of(value) is Ok <==> text::parsed_u64(value) is Some
            && text::parsed_u64(value)->0 != 0,
        resume::resume_sequence_of(value) matches Ok(sequence) ==> text::parsed_u64(value) == Some(
            sequence,
        ),
{
}

/// A track is reported when it is verified, with its user and its samples, and
/// at no other time; and a failure is told with what was being done to which
/// file.
pub proof fn verified_tracks_are_told(
    verification: VerificationView,
    event: verify_tracks::EventView,
    cause: Seq<char>,
)
    requires
        verification.position < verification.tracks.len(),
        verification.answers(event),
    ensures
        ({
            let track = verification.tracks[verification.position as int];
            let told = verification.line(event);
            &&& told is Some <==> verification.after(event).verified_tracks
                == verification.verified_tracks + 1
            &&& told is Some ==> told->0 == "Verified routine FLAC for Discord user "@
                + track.discord_user_id + ": "@ + text::decimal(track.length_samples as nat)
                + " samples, PCM MD5 matched."@
        }),
        ({
            let failed = verification.after(verify_tracks::EventView::Failed(cause));
            let file = verification.locations[verification.position as int];
            &&& failed.step == verify_tracks::Step::Stopped
            &&& verification.step == verify_tracks::Step::DecodeVerify ==> failed.report
                == "failed to decode-verify "@ + file + ": "@ + cause
            &&& verification.step == verify_tracks::Step::Open ==> failed.report
                == "failed to open "@ + file + ": "@ + cause
            &&& verification.step == verify_tracks::Step::Read ==> failed.report
                == "failed while decoding "@ + file + ": "@ + cause
        }),
{
    verified_tracks_make_way_for_the_next(verification);
}

} // verus!
