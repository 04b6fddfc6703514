//! What command lines select and what reports tell.

use vstd::prelude::*;

use crate::artifacts;
use crate::command;
use crate::command::Argument;
use crate::command::CommandView;
use crate::command::ConfigPath;
use crate::command::Operation;
use crate::continuation;
use crate::event_inspection::EventsView;
use crate::event_inspection::MappingView;
use crate::failure;
use crate::inspect;
use crate::order;
use crate::packet_inspection;
use crate::packet_inspection::PacketsView;
use crate::packet_inspection::StreamView;
use crate::participant_policy;
use crate::participants::ContextView;
use crate::playout_inspection;
use crate::playout_inspection::PlayoutStream;
use crate::playout_inspection::PlayoutView;
use crate::results::AuthorityFailureView;
use crate::results::ResultView;
use crate::resume;
use crate::resume::ResumeCheckpoint;
use crate::retranscription;
use crate::session::SessionView;
use crate::session::WorkflowState;
use crate::stage;
use crate::text;
use crate::text_laws;
use crate::work_items;
use crate::work_items::WorkItemView;
use crate::worker;

verus! {

proof fn lemma_names_differ()
    ensures
        Operation::spec_named("record"@) is None,
{
    reveal_strlit("record");
    reveal_strlit("inspect");
    reveal_strlit("recover");
    reveal_strlit("recover-wav");
    reveal_strlit("continue");
    reveal_strlit("build-work-items");
    reveal_strlit("transcribe");
    reveal_strlit("rebuild-transcript");
    reveal_strlit("export");
    reveal_strlit("verify");
    assert("record"@.len() == 6);
    assert("record"@[0] == 'r');
    assert("inspect"@.len() == 7);
    assert("recover"@.len() == 7);
    assert("recover-wav"@.len() == 11);
    assert("continue"@.len() == 8);
    assert("build-work-items"@.len() == 16);
    assert("transcribe"@.len() == 10);
    assert("rebuild-transcript"@.len() == 18);
    assert("export"@[0] == 'e');
    assert("verify"@[0] == 'v');
}

/// The operations have these names, and no other word names one.
pub proof fn operations_have_their_names(name: Seq<char>)
    ensures
        Operation::Inspect.name() == "inspect"@,
        Operation::Recover.name() == "recover"@,
        Operation::RecoverWav.name() == "recover-wav"@,
        Operation::Continue.name() == "continue"@,
        Operation::BuildWorkItems.name() == "build-work-items"@,
        Operation::Transcribe.name() == "transcribe"@,
        Operation::RebuildTranscript.name() == "rebuild-transcript"@,
        Operation::Export.name() == "export"@,
        Operation::Verify.name() == "verify"@,
        Operation::spec_named(name) matches Some(operation) ==> operation.name() == name,
{
}

/// Without arguments, and with one that names no operation, the program records
/// and transcribes; behind `record` it only records. Either reads the
/// configuration that is named, or else the standard one, and takes no further
/// argument.
pub proof fn recordings_take_a_configuration<P>(args: Seq<Argument<P>>)
    ensures
        ({
            let selected = command::command_of(args);
            let name = args[0].text.deep_view();
            &&& args.len() == 0 ==> selected == Ok::<CommandView<P>, Seq<char>>(
                CommandView::Normal { config_path: ConfigPath::Standard },
            )
            &&& args.len() > 0 && name == Some("record"@) ==> selected == (if args.len() == 1 {
                Ok(CommandView::RecordOnly { config_path: ConfigPath::Standard })
            } else if args.len() == 2 {
                Ok(CommandView::RecordOnly { config_path: ConfigPath::Chosen(args[1].path) })
            } else {
                Err::<CommandView<P>, Seq<char>>("unexpected argument "@ + args[2].quoted@)
            })
            &&& args.len() > 0 && name != Some("record"@) && (name is None || Operation::spec_named(
                name->0,
            ) is None) ==> selected == (if args.len() == 1 {
                Ok(CommandView::Normal { config_path: ConfigPath::Chosen(args[0].path) })
            } else {
                Err::<CommandView<P>, Seq<char>>("unexpected argument "@ + args[1].quoted@)
            })
        }),
{
}

/// An operation takes its session first. Building work items and transcribing
/// take a configuration behind it, continuing may take one, recovering takes
/// any number of users, and the others take nothing.
pub proof fn operations_take_their_arguments<P>(args: Seq<Argument<P>>, operation: Operation)
    requires
        args.len() > 0,
        args[0].text.deep_view() == Some(operation.name()),
    ensures
        ({
            let selected = command::command_of(args);
            let session = args[1].path;
            let config = args[2].path;
            let alone = args.len() == 2;
            let configured = args.len() == 3;
            &&& args.len() == 1 ==> selected == Err::<CommandView<P>, Seq<char>>(
                operation.name() + " requires a session directory"@,
            )
            &&& operation == Operation::Inspect && alone ==> selected == Ok::<
                CommandView<P>,
                Seq<char>,
            >(CommandView::Inspect { session_directory: session })
            &&& operation == Operation::RecoverWav && alone ==> selected == Ok::<
                CommandView<P>,
                Seq<char>,
            >(CommandView::RecoverWav { session_directory: session })
            &&& operation == Operation::RebuildTranscript && alone ==> selected == Ok::<
                CommandView<P>,
                Seq<char>,
            >(CommandView::RebuildTranscript { session_directory: session })
            &&& operation == Operation::Export && alone ==> selected == Ok::<
                CommandView<P>,
                Seq<char>,
            >(CommandView::Export { session_directory: session })
            &&& operation == Operation::Verify && alone ==> selected == Ok::<
                CommandView<P>,
                Seq<char>,
            >(CommandView::Verify { session_directory: session })
            &&& operation == Operation::Continue && alone ==> selected == Ok::<
                CommandView<P>,
                Seq<char>,
            >(CommandView::Continue { session_directory: session, config_path: None })
            &&& operation == Operation::Continue && configured ==> selected == Ok::<
                CommandView<P>,
                Seq<char>,
            >(CommandView::Continue { session_directory: session, config_path: Some(config) })
            &&& operation == Operation::BuildWorkItems && configured ==> selected == Ok::<
                CommandView<P>,
                Seq<char>,
            >(CommandView::BuildWorkItems { session_directory: session, config_path: config })
            &&& operation == Operation::Transcribe && configured ==> selected == Ok::<
                CommandView<P>,
                Seq<char>,
            >(CommandView::Transcribe { session_directory: session, config_path: config })
            &&& (operation == Operation::BuildWorkItems || operation == Operation::Transcribe)
                && alone ==> selected == Err::<CommandView<P>, Seq<char>>(
                operation.name() + " requires a config path"@,
            )
            &&& (operation == Operation::Continue || operation == Operation::BuildWorkItems
                || operation == Operation::Transcribe) && args.len() > 3 ==> selected == Err::<
                CommandView<P>,
                Seq<char>,
            >("unexpected argument "@ + args[3].quoted@)
            &&& operation != Operation::Recover && operation != Operation::Continue && operation
                != Operation::BuildWorkItems && operation != Operation::Transcribe && args.len()
                > 2 ==> selected == Err::<CommandView<P>, Seq<char>>(
                "unexpected argument "@ + args[2].quoted@,
            )
        }),
{
    command::operations_answer_to_their_names(operation);
    lemma_names_differ();
    assert(operation.name() != "record"@);
    if args.len() > 1 {
        let rest = args.skip(2);
        assert(rest.len() == args.len() - 2);
        if args.len() > 2 {
            assert(rest[0] == args[2]);
        }
        if args.len() > 3 {
            assert(rest[1] == args[3]);
        }
    }
}

/// Users are recovered exactly if each argument names one by a number other than
/// zero, and then those users, once each and in order.
pub proof fn users_to_recover_are_named_by_number<P>(args: Seq<Argument<P>>)
    ensures
        ({
            let named = command::recovered_users(args);
            &&& named is Ok <==> (forall|i: int|
                0 <= i < args.len() ==> text::parsed_u64((#[trigger] args[i]).lossy@) is Some
                    && text::parsed_u64(args[i].lossy@)->0 != 0)
            &&& named matches Ok(users) ==> {
                &&& users.len() == args.len()
                &&& forall|i: int|
                    0 <= i < args.len() ==> Some(#[trigger] users[i]) == text::parsed_u64(
                        args[i].lossy@,
                    )
            }
        }),
    decreases args.len(),
{
    if args.len() > 0 {
        let n = args.len() as int;
        let fewer = args.drop_last();
        users_to_recover_are_named_by_number(fewer);
        assert(args[n - 1] == args.last());
        let before = command::recovered_users(fewer);
        let named = command::recovered_users(args);
        if before is Err {
            let i = choose|i: int|
                0 <= i < fewer.len() && !(text::parsed_u64((#[trigger] fewer[i]).lossy@) is Some
                    && text::parsed_u64(fewer[i].lossy@)->0 != 0);
            assert(args[i] == fewer[i]);
        } else {
            assert forall|i: int| 0 <= i < n - 1 implies text::parsed_u64(
                (#[trigger] args[i]).lossy@,
            ) is Some && text::parsed_u64(args[i].lossy@)->0 != 0 by {
                assert(fewer[i] == args[i]);
            }
            if named is Ok {
                assert forall|i: int| 0 <= i < args.len() implies Some(
                    #[trigger] named->Ok_0[i],
                ) == text::parsed_u64(args[i].lossy@) by {
                    if i < n - 1 {
                        assert(named->Ok_0[i] == before->Ok_0[i]);
                        assert(fewer[i] == args[i]);
                    }
                }
            }
        }
    }
}

/// The policy of a participant is set only in a complete session whose snapshot
/// could be read, and then for that participant.
pub proof fn policies_are_set_in_complete_sessions(
    record: SessionView,
    snapshot_path: Seq<char>,
    loaded: Result<ContextView, Seq<char>>,
    user: u64,
    transcribe: bool,
)
    ensures
        ({
            let set = participant_policy::migrated(record, snapshot_path, loaded, user, transcribe);
            &&& set is Ok <==> record.state == WorkflowState::Complete && loaded is Ok
            &&& set matches Ok(context) ==> context.admits(user) == transcribe
                && context.format_version == loaded->Ok_0.format_version
                && context.transcript_name_source == loaded->Ok_0.transcript_name_source
        }),
{
}

/// The counts of journals are told under their own names.
pub proof fn totals_are_told_under_their_names(
    packets: PacketsView,
    playout: PlayoutView,
    events: EventsView,
)
    ensures
        ({
            let ending = |broken: bool|
                if broken {
                    "recoverable truncated tail"@
                } else {
                    "clean tail"@
                };
            &&& inspect::packets_line(packets) == "packets.dat: "@ + text::decimal(packets.records)
                + " records, "@ + ending(packets.truncated_tail) + "."@
            &&& inspect::playout_line(playout) == "playout.dat: "@ + text::decimal(playout.records)
                + " decisions ("@ + text::decimal(playout.packet_decisions) + " packets, "@
                + text::decimal(playout.loss_decisions) + " losses), "@ + ending(
                playout.truncated_tail,
            ) + ", "@ + text::decimal(playout.unmatched_packets)
                + " unmatched packet decisions."@
            &&& inspect::events_line(events) == "events.ndjson: "@ + text::decimal(events.records)
                + " records, "@ + ending(events.truncated_tail) + ", "@ + text::decimal(
                events.mappings.len(),
            ) + " speaker mappings, "@ + text::decimal(events.identity_updates)
                + " identity updates, "@ + text::decimal(events.user_disconnections)
                + " user disconnections, "@ + text::decimal(events.unresolved_abandonments)
                + " unresolved-SSRC abandonments."@
        }),
{
}

/// The counts of streams and the speaker mappings are told under their own
/// names, and the report of a manifest tells its format, session, guild, channel
/// and state.
pub proof fn streams_are_told_under_their_names(
    ssrc: u64,
    packets: StreamView,
    playout: PlayoutStream,
    seconds: Seq<char>,
    mapping: MappingView,
    manifest: inspect::ManifestView,
)
    ensures
        packet_inspection::stream_line(ssrc, packets) == "  SSRC "@ + text::decimal(ssrc as nat)
            + ": "@ + text::decimal(packets.packets) + " packets, sequences "@ + text::decimal(
            packets.first_sequence as nat,
        ) + ".."@ + text::decimal(packets.latest_sequence as nat) + ", "@ + text::decimal(
            packets.forward_gap_events,
        ) + " forward gap events ("@ + text::decimal(packets.missing_slots_observed)
            + " missing slots), "@ + text::decimal(packets.duplicates) + " duplicates, "@
            + text::decimal(packets.out_of_order) + " late/out-of-order."@,
        playout.first_tick is Some && playout.last_tick is Some ==> playout_inspection::stream_line(
            ssrc,
            playout,
        ) == "  SSRC "@ + text::decimal(ssrc as nat) + ": "@ + text::decimal(
            playout.decisions as nat,
        ) + " decisions across ticks "@ + (text::decimal(playout.first_tick->0 as nat) + ".."@
            + text::decimal(playout.last_tick->0 as nat)) + ", "@ + text::decimal(
            playout.packet_decisions as nat,
        ) + " packets, "@ + text::decimal(playout.loss_decisions as nat) + " losses, "@
            + text::decimal(playout.decoded_decisions as nat) + " decoded, "@ + text::decimal(
            playout.nonstandard_decoded_frames as nat,
        ) + " non-"@ + text::decimal(960) + "-sample decoded frames."@,
        inspect::mapping_line(seconds, mapping) == "  "@ + seconds + "s: SSRC "@ + text::decimal(
            mapping.ssrc as nat,
        ) + " -> user "@ + (if mapping.user_id is Some {
            mapping.user_id->0
        } else {
            "unknown"@
        }) + " (speaking bits "@ + text::decimal(mapping.speaking_bits as nat) + ")."@,
        inspect::manifest_line(manifest) == "Manifest: format "@ + text::decimal(
            manifest.format as nat,
        ) + ", session "@ + manifest.session_id + ", guild "@ + manifest.guild_id + ", channel "@
            + manifest.channel_id + ", state "@ + (if manifest.state is Some {
            manifest.state->0.name()
        } else {
            "legacy_untracked"@
        }) + "."@,
{
}

/// A report has one line for each packet stream, smallest source first, and one
/// for each playout stream in the same order.
pub proof fn streams_are_told_in_order(
    packets: Map<u64, StreamView>,
    playout: Map<u64, PlayoutStream>,
)
    requires
        packets.dom().finite(),
        playout.dom().finite(),
    ensures
        exists|sources: Seq<u64>|
            {
                &&& #[trigger] order::strictly_increasing(sources)
                &&& sources.to_set() == packets.dom()
                &&& packet_inspection::stream_lines(packets).len() == sources.len()
                &&& forall|i: int|
                    0 <= i < sources.len() ==> #[trigger] packet_inspection::stream_lines(packets)[i]
                        == packet_inspection::stream_line(sources[i], packets[sources[i]])
            },
        exists|sources: Seq<u64>|
            {
                &&& #[trigger] order::strictly_increasing(sources)
                &&& sources.to_set() == playout.dom()
                &&& playout_inspection::stream_lines(playout).len() == sources.len()
                &&& forall|i: int|
                    0 <= i < sources.len() ==> #[trigger] playout_inspection::stream_lines(
                        playout,
                    )[i] == playout_inspection::stream_line(sources[i], playout[sources[i]])
            },
{
    order::ascending_lists_the_set(packets.dom());
    order::ascending_lists_the_set(playout.dom());
    assert(order::strictly_increasing(order::ascending(packets.dom())));
    assert(order::strictly_increasing(order::ascending(playout.dom())));
}

/// A report goes from the session and its manifest over the packets, the playout
/// and the events, each followed by its details, to the conclusion.
pub proof fn reports_are_laid_out_in_order(
    directory: Seq<char>,
    manifest: inspect::ManifestView,
    packets: PacketsView,
    playout: PlayoutView,
    events: EventsView,
    seconds: Seq<Seq<char>>,
)
    ensures
        ({
            let report = inspect::report_of(directory, manifest, packets, playout, events, seconds);
            let p = packet_inspection::stream_lines(packets.streams).len() as int;
            let q = playout_inspection::stream_lines(playout.streams).len() as int;
            let m = events.mappings.len() as int;
            &&& report.len() == 6 + p + q + m
            &&& report[0] == "Session inspection: "@ + directory + "."@
            &&& report[1] == inspect::manifest_line(manifest)
            &&& report[2] == inspect::packets_line(packets)
            &&& report.subrange(3, 3 + p) == packet_inspection::stream_lines(packets.streams)
            &&& report[3 + p] == inspect::playout_line(playout)
            &&& report.subrange(4 + p, 4 + p + q) == playout_inspection::stream_lines(
                playout.streams,
            )
            &&& report[4 + p + q] == inspect::events_line(events)
            &&& forall|i: int|
                0 <= i < m ==> report[5 + p + q + i] == inspect::mapping_line(
                    seconds[i],
                    #[trigger] events.mappings[i],
                )
            &&& report.last() == inspect::conclusion_of(packets, playout, events)
        }),
{
    let report = inspect::report_of(directory, manifest, packets, playout, events, seconds);
    let p = packet_inspection::stream_lines(packets.streams);
    let q = playout_inspection::stream_lines(playout.streams);
    let n = p.len() as int;
    let k = q.len() as int;
    assert(report.subrange(3, 3 + n) =~= p);
    assert(report.subrange(4 + n, 4 + n + k) =~= q);
    let told = inspect::mapping_lines(seconds, events.mappings);
    assert forall|i: int| 0 <= i < events.mappings.len() implies report[5 + n + k + i]
        == inspect::mapping_line(seconds[i], #[trigger] events.mappings[i]) by {
        assert(report[5 + n + k + i] == told[i]);
    }
}

/// The workflow states have these names.
pub proof fn states_have_their_names()
    ensures
        WorkflowState::Recording.name() == "recording"@,
        WorkflowState::RecordedClean.name() == "recorded_clean"@,
        WorkflowState::RecordedIncomplete.name() == "recorded_incomplete"@,
        WorkflowState::ReadyForTranscription.name() == "ready_for_transcription"@,
        WorkflowState::AwaitingOperator.name() == "awaiting_operator"@,
        WorkflowState::Transcribing.name() == "transcribing"@,
        WorkflowState::TranscriptionFailed.name() == "transcription_failed"@,
        WorkflowState::Complete.name() == "complete"@,
{
}

/// A failure is told with its cause behind it.
pub proof fn causes_follow_what_they_caused(message: Seq<char>, cause: Seq<char>)
    ensures
        failure::because(message, cause) == message + ": "@ + cause,
{
}

/// A continued recording is reported with its tracks and its session exactly if
/// the session record could be written.
pub proof fn continuations_are_published_with_the_record(
    tracks: u64,
    session_id: Seq<char>,
    transitioned: Result<(), Seq<char>>,
)
    ensures
        continuation::publication(tracks, session_id, transitioned) is Ok <==> transitioned is Ok,
        transitioned is Ok ==> continuation::publication(tracks, session_id, transitioned)->Ok_0
            == "Validated "@ + text::decimal(tracks as nat) + " routine track(s); session "@
            + session_id + " is ready for transcription."@,
{
}

/// Numbers are listed in decimal with a comma and a space between each two.
pub proof fn numbers_are_listed_with_commas(left: Seq<u64>, right: Seq<u64>, value: u64)
    ensures
        work_items::comma_joined(seq![value]) == text::decimal(value as nat),
        work_items::comma_joined(Seq::empty()).len() == 0,
        left.len() > 0 && right.len() > 0 ==> work_items::comma_joined(left + right)
            == work_items::comma_joined(left) + ", "@ + work_items::comma_joined(right),
{
    let shown = |value: u64| text::decimal(value as nat);
    assert((left + right).map_values(shown) =~= left.map_values(shown) + right.map_values(shown));
    text_laws::joining_puts_separators_between(
        left.map_values(shown),
        right.map_values(shown),
        ", "@,
    );
    assert(seq![value].map_values(shown) =~= seq![text::decimal(value as nat)]);
    assert(Seq::<u64>::empty().map_values(shown) =~= Seq::<Seq<char>>::empty());
}

/// A listing holds each member once, a smaller one always before a larger one.
pub proof fn listings_go_from_small_to_large(members: Set<u64>, i: int, j: int)
    requires
        members.finite(),
        0 <= i < j < order::ascending(members).len(),
    ensures
        order::ascending(members)[i] < order::ascending(members)[j],
        members.contains(order::ascending(members)[i]),
        members.contains(order::ascending(members)[j]),
        order::ascending(members).len() == members.len(),
{
    order::ascending_lists_the_set(members);
    let listing = order::ascending(members);
    assert(listing.to_set().contains(listing[i]));
    assert(listing.to_set().contains(listing[j]));
    assert(listing.no_duplicates());
    listing.unique_seq_to_set();
}

/// A boundary is recorded under one of two words and its sequence, and read back
/// from no other stage.
pub proof fn boundaries_are_recorded_by_two_words(stage: Seq<char>, sequence: u64)
    requires
        sequence > 0,
    ensures
        resume::resume_stage("transcription_resume_prepared_"@ + text::decimal(sequence as nat))
            == Some(
            Ok::<ResumeCheckpoint, Seq<char>>(ResumeCheckpoint::Prepared(sequence)),
        ),
        resume::resume_stage("transcription_resume_applied_"@ + text::decimal(sequence as nat))
            == Some(Ok::<ResumeCheckpoint, Seq<char>>(ResumeCheckpoint::Applied(sequence))),
        resume::resume_stage(stage) matches Some(Ok(ResumeCheckpoint::Prepared(found)))
            ==> exists|digits: Seq<char>|
            stage == #[trigger] ("transcription_resume_prepared_"@ + digits) && text::parsed_u64(
                digits,
            ) == Some(found),
        resume::resume_stage(stage) matches Some(Ok(ResumeCheckpoint::Applied(found)))
            ==> exists|digits: Seq<char>|
            stage == #[trigger] ("transcription_resume_applied_"@ + digits) && text::parsed_u64(
                digits,
            ) == Some(found),
{
    let prepared = "transcription_resume_prepared_"@;
    let applied = "transcription_resume_applied_"@;
    let digits = text::decimal(sequence as nat);
    text::decimal_reads_back(sequence);
    assert((prepared + digits).take(prepared.len() as int) =~= prepared);
    assert((prepared + digits).skip(prepared.len() as int) =~= digits);
    assert((applied + digits).take(applied.len() as int) =~= applied);
    assert((applied + digits).skip(applied.len() as int) =~= digits);
    reveal_strlit("transcription_resume_prepared_");
    reveal_strlit("transcription_resume_applied_");
    assert(prepared[21] == 'p');
    assert(applied[21] == 'a');
    if prepared.len() <= (applied + digits).len() && (applied + digits).take(prepared.len() as int)
        == prepared {
        assert((applied + digits).take(prepared.len() as int)[21] == applied[21]);
    }
    if let Some(rest) = text::after_prefix(stage, prepared) {
        assert(stage =~= prepared + rest);
    }
    if let Some(rest) = text::after_prefix(stage, applied) {
        assert(stage =~= applied + rest);
    }
}

/// A worker that ended well without all results failed, and is filed with how
/// many it left; one that ended otherwise is filed with how it ended.
pub proof fn short_work_is_a_failure(
    outcome: worker::WorkerOutcome,
    committed: Seq<ResultView>,
    items: Seq<WorkItemView>,
    start: u64,
)
    requires
        committed.len() < u64::MAX,
    ensures
        ({
            let verdict = worker::verdict(outcome, Ok(committed), items, start);
            let filed = verdict->Ok_0;
            &&& verdict is Ok
            &&& filed is Complete <==> outcome.succeeded() && committed.len() == items.len()
            &&& filed matches worker::VerdictView::Failed { message, diagnostic } ==> {
                &&& diagnostic == (if outcome.succeeded() {
                    "incomplete_zero_exit: committed "@ + text::decimal(committed.len()) + " of "@
                        + text::decimal(items.len()) + " work items"@
                } else {
                    outcome.diagnostic()
                })
                &&& worker::worker_failure(items, committed.len(), start, diagnostic) == Ok::<
                    Seq<char>,
                    Seq<char>,
                >(message)
            }
        }),
{
}

/// What damaged results are filed with: where the attempt started, how the
/// worker ended, what is wrong, how many results are sound and what comes next.
pub proof fn damaged_results_are_filed(
    outcome: worker::WorkerOutcome,
    integrity: AuthorityFailureView,
    items: Seq<WorkItemView>,
    start: u64,
)
    ensures
        worker::verdict(outcome, Err(integrity), items, start) == Ok::<
            worker::VerdictView,
            Seq<char>,
        >(
            worker::VerdictView::Failed {
                message: "attempted_start_sequence="@ + text::decimal(start as nat)
                    + "; process="@ + outcome.diagnostic() + "; result_integrity_error="@
                    + integrity.message + "; safely_validated_prefix_length="@ + text::decimal(
                    integrity.safely_validated_prefix_length,
                ) + "; earliest_unsafe_sequence="@ + text::decimal(
                    integrity.earliest_unsafe_sequence as nat,
                ) + "; earliest_unsafe_work_item_id="@ + integrity.earliest_unsafe_work_item_id,
                diagnostic: outcome.diagnostic(),
            },
        ),
{
}

/// The artefacts of a session have these names.
pub proof fn artefacts_have_their_names()
    ensures
        artifacts::PACKET_JOURNAL_FILE_NAME@ == "packets.dat"@,
        artifacts::PLAYOUT_JOURNAL_FILE_NAME@ == "playout.dat"@,
        artifacts::EVENT_JOURNAL_FILE_NAME@ == "events.ndjson"@,
        artifacts::PARTICIPANT_SNAPSHOT_FILE_NAME@ == "participants.toml"@,
        artifacts::TRACK_MANIFEST_FILE_NAME@ == "tracks.json"@,
        artifacts::TRACK_DIRECTORY_NAME@ == "tracks"@,
        artifacts::TRANSCRIPTION_DIRECTORY_NAME@ == "transcription"@,
        artifacts::WORK_ITEM_MANIFEST_FILE_NAME@ == "work-items.jsonl"@,
        artifacts::WORK_ITEM_MANIFEST_PATH@ == "transcription/work-items.jsonl"@,
        artifacts::TRANSCRIPTION_RESULTS_FILE_NAME@ == "results.jsonl"@,
        artifacts::TRANSCRIPTION_RESULTS_PATH@ == "transcription/results.jsonl"@,
        artifacts::PARTIAL_TRANSCRIPT_FILE_NAME@ == "transcript.partial.txt"@,
        artifacts::FINAL_TRANSCRIPT_PATH@ == "transcription/transcript.txt"@,
        retranscription::RETRANSCRIPTION_DIRECTORY@ == "transcription/retranscriptions"@,
        retranscription::FINAL_TRANSCRIPT_FILE_NAME@ == "transcript.txt"@,
        continuation::CONTINUATION_CHECKPOINT@ == "recording_continuation_validated"@,
        continuation::CONTINUATION_FAILURE_KIND@ == "recording_continuation"@,
{
}

/// A policy that was published is told with its session, its participant and
/// whether they are transcribed.
pub proof fn published_policies_are_told(
    session_id: Seq<char>,
    snapshot_path: Seq<char>,
    user: u64,
    transcribe: bool,
    replaced: Result<(), Seq<char>>,
)
    ensures
        ({
            let told = participant_policy::publication(
                session_id,
                snapshot_path,
                user,
                transcribe,
                replaced,
            );
            &&& told is Ok <==> replaced is Ok
            &&& told is Ok ==> told->Ok_0 == "Session "@ + session_id + " participant "@
                + text::decimal(user as nat) + " transcription policy set to "@ + (if transcribe {
                "true"@
            } else {
                "false"@
            }) + "."@
            &&& told is Err ==> told->Err_0
                == "failed to publish participant transcription policy in "@ + snapshot_path
                + ": "@ + replaced->Err_0
        }),
{
}

/// The arguments of `recover` behind its session select exactly the users they
/// name, once each, a smaller number first.
pub proof fn recovered_users_are_selected<P>(args: Seq<Argument<P>>)
    requires
        args.len() > 1,
        args[0].text.deep_view() == Some("recover"@),
    ensures
        ({
            let selected = command::command_of(args);
            let named = command::recovered_users(args.skip(2));
            &&& selected is Ok <==> named is Ok
            &&& named matches Ok(users) ==> selected == Ok::<CommandView<P>, Seq<char>>(
                CommandView::Recover {
                    session_directory: args[1].path,
                    user_ids: order::ascending(users.to_set()),
                },
            )
            &&& named matches Err(fault) ==> selected == Err::<CommandView<P>, Seq<char>>(fault)
        }),
{
    command::operations_answer_to_their_names(Operation::Recover);
    lemma_names_differ();
}

/// What a stage refuses before it starts is no failure of an accepted stage.
pub proof fn refusals_are_not_accepted<V>(result: Result<V, Seq<char>>)
    ensures
        stage::as_refused(result) == (match result {
            Ok(value) => Ok::<V, (bool, Seq<char>)>(value),
            Err(refusal) => Err((false, refusal)),
        }),
{
}

} // verus!
