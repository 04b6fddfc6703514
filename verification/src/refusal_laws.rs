//! Which of several objections is reported, whom it lists, and what work is
//! accepted and built where there is none.

use vstd::prelude::*;

use crate::candidate_ranges;
use crate::candidate_ranges::AttributedFrame;
use crate::candidate_ranges::CandidateRange;
use crate::continuation;
use crate::failure;
use crate::failure::Failure;
use crate::journal_laws;
use crate::order;
use crate::session::InspectedFile;
use crate::session::SessionView;
use crate::text;
use crate::track_manifest::ManifestView;
use crate::track_manifest::TrackState;
use crate::track_manifest::TrackView;
use crate::transcription;
use crate::transcription::Entry;
use crate::transcription::RecordFile;
use crate::transcription::SessionArtifacts;
use crate::work_authority;
use crate::work_authority::Activity;
use crate::work_authority::ActivityReplay;
use crate::work_authority::AuthorityEvidence;
use crate::work_items;
use crate::work_items::WorkItem;
use crate::work_items::WorkItemView;
use crate::worker;

verus! {

pub open spec fn is_incomplete() -> spec_fn(TrackView) -> bool {
    |track: TrackView| track.state == TrackState::Incomplete
}

pub open spec fn shown_id() -> spec_fn(TrackView) -> Seq<char> {
    |track: TrackView| track.discord_user_id
}

/// Tracks under a number that is none of some users.
pub open spec fn of_another(users: Set<u64>) -> spec_fn(TrackView) -> bool {
    |track: TrackView|
        text::parsed_u64(track.discord_user_id) is Some && !users.contains(
            text::parsed_u64(track.discord_user_id)->0,
        )
}

pub open spec fn numbered_id() -> spec_fn(TrackView) -> u64 {
    |track: TrackView| text::parsed_u64(track.discord_user_id)->0
}

proof fn lemma_map_step<A, B>(items: Seq<A>, last: A, shown: spec_fn(A) -> B)
    ensures
        items.push(last).map_values(shown) == items.map_values(shown).push(shown(last)),
{
    assert(items.push(last).map_values(shown) =~= items.map_values(shown).push(shown(last)));
}

/// The users that a refusal lists as incomplete are those of the incomplete
/// tracks, in the order of the tracks.
pub proof fn incomplete_tracks_are_listed(tracks: Seq<TrackView>)
    ensures
        work_authority::incomplete_users(tracks) == tracks.filter(is_incomplete()).map_values(
            shown_id(),
        ),
    decreases tracks.len(),
{
    journal_laws::lemma_filter_none::<TrackView>(is_incomplete());
    if tracks.len() == 0 {
        assert(tracks =~= Seq::<TrackView>::empty());
        assert(tracks.filter(is_incomplete()).map_values(shown_id()) =~= Seq::<Seq<char>>::empty());
    } else {
        let fewer = tracks.drop_last();
        incomplete_tracks_are_listed(fewer);
        journal_laws::lemma_filter_step(tracks, is_incomplete());
        lemma_map_step(fewer.filter(is_incomplete()), tracks.last(), shown_id());
    }
}

/// The users that a refusal lists as not recovered are those of the tracks whose
/// recovery was not completed, in the order of the tracks; and those listed as
/// idle are those of the tracks without activity.
pub proof fn other_tracks_are_listed(tracks: Seq<TrackView>, users: Set<u64>, active: Seq<u64>)
    ensures
        continuation::unrecovered(tracks, users) == tracks.filter(of_another(users)).map_values(
            numbered_id(),
        ),
        work_items::idle_users(tracks, active) == tracks.filter(
            of_another(active.to_set()),
        ).map_values(numbered_id()),
    decreases tracks.len(),
{
    let idle = of_another(active.to_set());
    journal_laws::lemma_filter_none::<TrackView>(of_another(users));
    journal_laws::lemma_filter_none::<TrackView>(idle);
    if tracks.len() == 0 {
        assert(tracks =~= Seq::<TrackView>::empty());
        assert(tracks.filter(of_another(users)).map_values(numbered_id()) =~= Seq::<u64>::empty());
        assert(tracks.filter(idle).map_values(numbered_id()) =~= Seq::<u64>::empty());
    } else {
        let fewer = tracks.drop_last();
        let last = tracks.last();
        other_tracks_are_listed(fewer, users, active);
        journal_laws::lemma_filter_step(tracks, of_another(users));
        journal_laws::lemma_filter_step(tracks, idle);
        lemma_map_step(fewer.filter(of_another(users)), last, numbered_id());
        lemma_map_step(fewer.filter(idle), last, numbered_id());
        let user = text::parsed_u64(last.discord_user_id)->0;
        assert(active.to_set().contains(user) == active.contains(user));
    }
}

/// A user who spoke and has no complete track is listed as missing, and no other
/// user is.
pub proof fn speakers_without_tracks_are_listed(
    activities: Seq<Activity>,
    complete: Seq<u64>,
    user: u64,
)
    ensures
        continuation::missing_users(activities, complete).contains(user) <==> (exists|i: int|
            0 <= i < activities.len() && (#[trigger] activities[i]).discord_user_id == Some(user))
            && !complete.contains(user),
    decreases activities.len(),
{
    if activities.len() > 0 {
        let n = activities.len() as int;
        let fewer = activities.drop_last();
        speakers_without_tracks_are_listed(fewer, complete, user);
        assert(activities[n - 1] == activities.last());
        let before = continuation::missing_users(fewer, complete);
        let missing = continuation::missing_users(activities, complete);
        if missing.contains(user) {
            let k = choose|k: int| 0 <= k < missing.len() && missing[k] == user;
            if k < before.len() {
                assert(before[k] == user);
                let i = choose|i: int|
                    0 <= i < fewer.len() && (#[trigger] fewer[i]).discord_user_id == Some(user);
                assert(activities[i] == fewer[i]);
            }
        }
        if (exists|i: int|
            0 <= i < activities.len() && (#[trigger] activities[i]).discord_user_id == Some(user))
            && !complete.contains(user) {
            let i = choose|i: int|
                0 <= i < activities.len() && (#[trigger] activities[i]).discord_user_id == Some(
                    user,
                );
            if i < n - 1 {
                assert(fewer[i] == activities[i]);
                let k = choose|k: int| 0 <= k < before.len() && before[k] == user;
                assert(missing[k] == user);
            } else {
                assert(missing[before.len() as int] == user);
            }
        }
    }
}

/// The first objection to the tracks of a session: that the manifest is not its
/// own; else that the file of a complete track is not in place; else the users
/// of the tracks that are not complete.
pub proof fn foreign_manifests_are_refused_first(
    session_id: Seq<char>,
    manifest: ManifestView,
    files: Seq<InspectedFile>,
    refusal: Seq<char>,
)
    ensures
        ({
            let objection = work_authority::tracks_unready(session_id, manifest, files, refusal);
            let missing = exists|i: int|
                0 <= i < manifest.tracks.len() && (#[trigger] manifest.tracks[i]).state
                    == TrackState::Complete && !(files[i].kind is Regular);
            let listed = manifest.tracks.filter(is_incomplete()).map_values(shown_id());
            &&& manifest.session_id != session_id ==> objection == Some(
                "track manifest session ID "@ + text::debug_form(manifest.session_id)
                    + " does not match session.json ID "@ + text::debug_form(session_id),
            )
            &&& manifest.session_id == session_id && missing ==> objection is Some && objection
                == work_authority::track_files_fault(manifest.tracks, files)
            &&& manifest.session_id == session_id && !missing && listed.len() > 0 ==> objection
                == Some(refusal + text::joined(listed, ", "@))
        }),
{
    incomplete_tracks_are_listed(manifest.tracks);
    lemma_files_fault(manifest.tracks, files);
}

proof fn lemma_files_fault(tracks: Seq<TrackView>, files: Seq<InspectedFile>)
    ensures
        work_authority::track_files_fault(tracks, files) is Some <==> (exists|i: int|
            0 <= i < tracks.len() && (#[trigger] tracks[i]).state == TrackState::Complete && !(
            files[i].kind is Regular)),
    decreases tracks.len(),
{
    if tracks.len() > 0 {
        let n = tracks.len() as int;
        let fewer = tracks.drop_last();
        lemma_files_fault(fewer, files);
        assert(tracks[n - 1] == tracks.last());
        if work_authority::track_files_fault(fewer, files) is Some {
            let i = choose|i: int|
                0 <= i < fewer.len() && (#[trigger] fewer[i]).state == TrackState::Complete && !(
                files[i].kind is Regular);
            assert(tracks[i] == fewer[i]);
        } else {
            assert forall|i: int| 0 <= i < n - 1 implies !((#[trigger] tracks[i]).state
                == TrackState::Complete && !(files[i].kind is Regular)) by {
                assert(fewer[i] == tracks[i]);
            }
        }
    }
}

/// The first objection to a replay: a journal that breaks off; else decisions
/// that were not decoded, with their number; else the sources of activity
/// without a user, once each and in order.
pub proof fn broken_journals_are_refused_first(replay: ActivityReplay, tracks: Seq<TrackView>)
    ensures
        ({
            let broken = replay.truncated_packet_tail || replay.truncated_playout_tail;
            let undecoded = replay.skipped_undecoded > 0;
            let left = work_authority::unattributed(replay.activities@);
            let building = work_authority::replay_fault(replay);
            let continuing = continuation::replay_fault(replay, tracks);
            &&& broken ==> building == Some(
                "cannot build work items with a truncated authoritative journal tail"@,
            ) && continuing == Some("cannot continue with a truncated authoritative journal tail"@)
            &&& !broken && undecoded ==> building == Some(
                "cannot build work items: "@ + text::decimal(replay.skipped_undecoded as nat)
                    + " playout decisions lack decoded-sample evidence"@,
            ) && continuing == Some(
                "cannot continue: "@ + text::decimal(replay.skipped_undecoded as nat)
                    + " playout decisions lack decoded-sample evidence"@,
            )
            &&& !broken && !undecoded && left.len() > 0 ==> building == Some(
                "cannot build work items: decoded PCM cannot be attributed safely for SSRCs "@
                    + work_items::comma_joined(order::ascending(left.to_set())),
            ) && continuing == Some(
                "cannot continue: decoded PCM cannot be attributed safely for SSRCs "@
                    + work_items::comma_joined(order::ascending(left.to_set())),
            )
        }),
{
}

/// The first objection to evidence for work: the snapshot that was not read or
/// is of another format than declared; else the manifest likewise; else the
/// tracks; else the sources that are unresolved; else the replay.
pub proof fn evidence_is_weighed_in_order(
    record: SessionView,
    evidence: AuthorityEvidence,
    merge_gap_ms: u64,
)
    ensures
        ({
            let supported = work_authority::supported_ranges(record, evidence, merge_gap_ms);
            let fault = supported->Err_0;
            let snapshot = evidence.participants is Ok
                && evidence.participants->Ok_0.deep_view().format_version
                == record.files.participants.format;
            let manifest = evidence.tracks is Ok && evidence.tracks->Ok_0.format
                == record.files.tracks.format;
            let unready = work_authority::tracks_unready(
                record.session_id,
                evidence.tracks->Ok_0.deep_view(),
                evidence.track_files@,
                "cannot build work items with incomplete tracks for Discord users "@,
            );
            &&& evidence.participants is Err ==> supported is Err && fault
                == evidence.participants->Err_0@
            &&& evidence.participants is Ok && !snapshot ==> supported is Err && fault
                == "participant snapshot format does not match session.json"@
            &&& snapshot && evidence.tracks is Err ==> supported is Err && fault
                == evidence.tracks->Err_0@
            &&& snapshot && evidence.tracks is Ok && !manifest ==> supported is Err && fault
                == "track manifest format does not match session.json"@
            &&& snapshot && manifest && unready is Some ==> supported is Err && fault == unready->0
            &&& snapshot && manifest && unready is None && evidence.unresolved_ssrcs is Err
                ==> supported is Err && fault == evidence.unresolved_ssrcs->Err_0@
            &&& snapshot && manifest && unready is None && evidence.unresolved_ssrcs is Ok
                && evidence.unresolved_ssrcs->Ok_0@.len() > 0 ==> supported is Err && fault
                == "cannot build work items while SSRC mapping evidence remains unresolved for "@
                + work_items::comma_joined(
                order::ascending(evidence.unresolved_ssrcs->Ok_0@.to_set()),
            )
        }),
{
}

/// A merge gap is refused, before any frame is looked at, exactly if it is more
/// samples, at 48 a millisecond, than can be counted. A frame that does not come
/// behind the frames of its user is refused with both ticks.
pub proof fn frames_are_refused_for_their_ticks(
    frames: Seq<AttributedFrame>,
    frame: AttributedFrame,
    merge_gap_ms: u64,
)
    ensures
        merge_gap_ms * 48 > u64::MAX <==> candidate_ranges::candidate_ranges(
            Seq::<AttributedFrame>::empty(),
            merge_gap_ms,
        ) is Err,
        merge_gap_ms * 48 > u64::MAX ==> candidate_ranges::candidate_ranges(frames, merge_gap_ms)
            == Err::<Seq<CandidateRange>, Seq<char>>("segmentation.merge_gap_ms is too large"@),
        ({
            let own = candidate_ranges::frames_of(frames, frame.discord_user_id);
            own.len() > 0 && frame.tick <= own.last().tick ==> candidate_ranges::frame_fault(
                frames,
                frame,
            ) == Some(
                "playout tick "@ + text::decimal(frame.tick as nat) + " for Discord user "@
                    + text::decimal(frame.discord_user_id as nat) + " follows tick "@
                    + text::decimal(own.last().tick as nat),
            )
        }),
{
    assert(candidate_ranges::speakers(Seq::<AttributedFrame>::empty()) =~= Seq::<u64>::empty());
}

/// What is wrong with a range, looked for in the session first.
pub proof fn empty_ranges_are_refused(range: CandidateRange, length: u64)
    ensures
        range.start_sample >= range.end_sample || range.source_start_sample
            >= range.source_end_sample || range.source_end_sample > length
            <==> work_items::range_fault(range, length) is Some,
{
}

/// All items can be cut from the tracks exactly if each can.
pub proof fn every_item_is_cut_within_its_track(items: Seq<WorkItemView>, tracks: Seq<TrackView>)
    ensures
        transcription::sources_fault(items, tracks) is None <==> (forall|i: int|
            0 <= i < items.len() ==> transcription::source_fault(#[trigger] items[i], tracks)
                is None),
    decreases items.len(),
{
    if items.len() > 0 {
        let n = items.len() as int;
        let fewer = items.drop_last();
        every_item_is_cut_within_its_track(fewer, tracks);
        assert(items[n - 1] == items.last());
        if transcription::sources_fault(fewer, tracks) is None {
            assert forall|i: int| 0 <= i < n - 1 implies transcription::source_fault(
                #[trigger] items[i],
                tracks,
            ) is None by {
                assert(fewer[i] == items[i]);
            }
        } else {
            let i = choose|i: int|
                0 <= i < fewer.len() && transcription::source_fault(#[trigger] fewer[i], tracks)
                    is Some;
            assert(items[i] == fewer[i]);
        }
    }
}

/// Work is accepted exactly if the session may enter the stage, its artefacts
/// are in place, its manifest was read, ends with a closed record and holds
/// items in order, and each item can be cut from the tracks; and then as it is.
pub proof fn work_is_accepted_in_full(
    entry: Entry,
    record: SessionView,
    artifacts: SessionArtifacts,
    manifest: RecordFile<WorkItem>,
    windows: bool,
)
    ensures
        ({
            let accepted = transcription::accepted_work(
                entry,
                record,
                artifacts,
                manifest,
                windows,
            );
            let objection = match entry {
                Entry::Run => transcription::entry_fault(record),
                Entry::Continue => transcription::continuation_fault(record),
            };
            let tracks = transcription::usable_artifacts(record.session_id, artifacts);
            let bytes = manifest.read->Ok_0@;
            let items = transcription::manifest_of(
                bytes,
                transcription::read_items(manifest.parsed@),
                manifest.path@,
                record.session_id,
                windows,
            );
            &&& accepted is Ok <==> {
                &&& objection is None
                &&& tracks is Ok
                &&& manifest.read is Ok
                &&& bytes.len() == 0 || bytes.last() == 10
                &&& items is Ok
                &&& forall|i: int|
                    0 <= i < items->Ok_0.len() ==> transcription::source_fault(
                        #[trigger] items->Ok_0[i],
                        tracks->Ok_0.tracks,
                    ) is None
            }
            &&& accepted is Ok ==> accepted == items
            &&& objection matches Some(fault) ==> accepted == Err::<
                Seq<WorkItemView>,
                Seq<char>,
            >(fault)
        }),
{
    let tracks = transcription::usable_artifacts(record.session_id, artifacts);
    let items = transcription::manifest_of(
        manifest.read->Ok_0@,
        transcription::read_items(manifest.parsed@),
        manifest.path@,
        record.session_id,
        windows,
    );
    if items is Ok && tracks is Ok {
        every_item_is_cut_within_its_track(items->Ok_0, tracks->Ok_0.tracks);
    }
}

/// Each work item of a session stands for a range that its evidence supports,
/// and is numbered by its place.
pub proof fn items_stand_for_supported_ranges(
    record: SessionView,
    evidence: AuthorityEvidence,
    merge_gap_ms: u64,
    items: Result<Vec<WorkItem>, Failure>,
    i: int,
)
    requires
        work_authority::items_unrefined(record, evidence, merge_gap_ms, items),
        items is Ok,
        work_authority::supported_ranges(record, evidence, merge_gap_ms) matches Ok(ranges)
            && ranges.len() <= u64::MAX,
        0 <= i < items->Ok_0.deep_view().len(),
    ensures
        ({
            let ranges = work_authority::supported_ranges(record, evidence, merge_gap_ms)->Ok_0;
            let item = items->Ok_0.deep_view()[i];
            &&& item.sequence == i + 1
            &&& exists|k: int|
                0 <= k < ranges.len() && work_items::stands_for(
                    item,
                    #[trigger] ranges[k],
                    evidence.tracks->Ok_0.deep_view().tracks,
                    evidence.participants->Ok_0.deep_view(),
                )
        }),
{
    let ranges = work_authority::supported_ranges(record, evidence, merge_gap_ms)->Ok_0;
    let tracks = evidence.tracks->Ok_0.deep_view().tracks;
    let participants = evidence.participants->Ok_0.deep_view();
    let sorted = choose|sorted: Seq<CandidateRange>| #[trigger]
        order::orders(sorted, ranges) && failure::outcome(items) == work_items::materialised(
            record.session_id,
            sorted,
            tracks,
            participants,
        );
    assert(sorted.len() == ranges.len()) by {
        sorted.to_multiset_ensures();
        ranges.to_multiset_ensures();
    }
    work_items::lemma_item_from_range(record.session_id, sorted, tracks, participants, i);
    let k = choose|k: int|
        0 <= k < sorted.len() && work_items::stands_for(
            items->Ok_0.deep_view()[i],
            #[trigger] sorted[k],
            tracks,
            participants,
        );
    assert(ranges.contains(sorted[k])) by {
        assert(sorted.contains(sorted[k]));
        vstd::seq_lib::to_multiset_contains(sorted, sorted[k]);
        vstd::seq_lib::to_multiset_contains(ranges, sorted[k]);
    }
    let m = choose|m: int| 0 <= m < ranges.len() && ranges[m] == sorted[k];
    assert(work_items::stands_for(items->Ok_0.deep_view()[i], ranges[m], tracks, participants));
}

/// A work manifest is published exactly if it was written and then recorded; a
/// failure of either is one of an accepted stage, and the first one counts.
pub proof fn manifests_are_published_in_two_steps(
    count: nat,
    session_id: Seq<char>,
    written: Result<(), Failure>,
    recorded: Result<(), Failure>,
)
    ensures
        ({
            let published = work_authority::publication(count, session_id, written, recorded);
            &&& published is Ok <==> written is Ok && recorded is Ok
            &&& published matches Err((accepted, _)) ==> accepted
            &&& written matches Err(cause) ==> (published matches Err((_, told)) ==> told
                == cause@)
            &&& published matches Ok(told) ==> told == "Published "@ + text::decimal(count)
                + " chronological work item(s) for session "@ + session_id + "."@
        }),
{
}

/// What is told of an attempt that failed: that its failure could not be
/// recorded; else that the session could not be told to wait; else that it
/// waits.
pub proof fn failed_attempts_are_told(
    diagnostic: Seq<char>,
    recorded: Result<(), Seq<char>>,
    waiting: Result<(), Seq<char>>,
)
    ensures
        ({
            let told = worker::failure_report(diagnostic, recorded, waiting);
            &&& recorded matches Err(cause) ==> told
                == "failed to publish durable transcription failure: "@ + cause
            &&& recorded is Ok && waiting is Ok ==> told == "transcription worker failed ("@
                + diagnostic + "); session is awaiting operator action"@
            &&& recorded is Ok && waiting is Err ==> told == "transcription worker failed ("@
                + diagnostic
                + "); failure is durable but the session remains transcription_failed because awaiting_operator publication failed: "@
                + waiting->Err_0
        }),
{
    reveal_strlit("failed to publish durable transcription failure");
    reveal_strlit("failed to publish durable transcription failure: ");
    reveal_strlit(": ");
    assert("failed to publish durable transcription failure: "@
        =~= "failed to publish durable transcription failure"@ + ": "@);
    if let Err(cause) = recorded {
        assert("failed to publish durable transcription failure"@ + ": "@ + cause
            =~= "failed to publish durable transcription failure: "@ + cause);
    }
}

/// Where the evidence gives no ranges, or what refines them refuses, there are no
/// items, and the objection is passed on as it is.
pub proof fn objections_are_passed_on(
    record: SessionView,
    evidence: AuthorityEvidence,
    merge_gap_ms: u64,
    refined: Result<Vec<CandidateRange>, Failure>,
    items: Result<Vec<WorkItem>, Failure>,
)
    ensures
        work_authority::items_unrefined(record, evidence, merge_gap_ms, items)
            && work_authority::supported_ranges(record, evidence, merge_gap_ms) is Err ==> items
            is Err && items->Err_0@ == work_authority::supported_ranges(
            record,
            evidence,
            merge_gap_ms,
        )->Err_0,
        work_authority::items_of_refinement(record, evidence, refined, items) && refined is Err
            ==> items is Err && items->Err_0@ == refined->Err_0@,
{
}

} // verus!
