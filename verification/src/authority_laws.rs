//! On what evidence work is built and results are accepted.

use vstd::prelude::*;

use crate::candidate_ranges;
use crate::candidate_ranges::CandidateRange;
use crate::paths;
use crate::results;
use crate::results::AuthorityFailureView;
use crate::results::ResultView;
use crate::session::InspectedFile;
use crate::session::SessionView;
use crate::text;
use crate::track_manifest::ManifestView;
use crate::track_manifest::TrackState;
use crate::track_manifest::TrackView;
use crate::transcription;
use crate::work_authority;
use crate::work_authority::Activity;
use crate::work_authority::AuthorityEvidence;
use crate::work_items;
use crate::work_items::WorkItemView;

verus! {

/// Where every activity has its user, each becomes a frame of that user, at its
/// tick and with its samples; and the sources left over are exactly those of
/// activity without a user.
pub proof fn attribution_keeps_every_frame(activities: Seq<Activity>)
    ensures
        forall|source: u64|
            work_authority::unattributed(activities).contains(source) <==> (exists|i: int|
                0 <= i < activities.len() && (#[trigger] activities[i]).discord_user_id is None
                    && activities[i].ssrc == source),
        work_authority::unattributed(activities).len() == 0 <==> (forall|i: int|
            0 <= i < activities.len() ==> (#[trigger] activities[i]).discord_user_id is Some),
        work_authority::unattributed(activities).len() == 0 ==> {
            let frames = work_authority::attributed(activities);
            &&& frames.len() == activities.len()
            &&& forall|i: int|
                0 <= i < frames.len() ==> {
                    &&& (#[trigger] frames[i]).discord_user_id
                        == activities[i].discord_user_id->0
                    &&& frames[i].tick == activities[i].tick
                    &&& frames[i].samples == activities[i].decoded_samples
                }
        },
    decreases activities.len(),
{
    if activities.len() > 0 {
        let n = activities.len() as int;
        let earlier = activities.drop_last();
        let last = activities.last();
        attribution_keeps_every_frame(earlier);
        let fewer = work_authority::unattributed(earlier);
        let left = work_authority::unattributed(activities);
        assert(activities[n - 1] == last);
        assert forall|source: u64|
            left.contains(source) <==> (exists|i: int|
                0 <= i < activities.len() && (#[trigger] activities[i]).discord_user_id is None
                    && activities[i].ssrc == source) by {
            if left.contains(source) {
                let k = choose|k: int| 0 <= k < left.len() && left[k] == source;
                if k < fewer.len() {
                    assert(fewer[k] == source);
                    assert(fewer.contains(source));
                    let i = choose|i: int|
                        0 <= i < earlier.len() && (#[trigger] earlier[i]).discord_user_id is None
                            && earlier[i].ssrc == source;
                    assert(activities[i].ssrc == source);
                } else {
                    assert(activities[n - 1].ssrc == source);
                }
            }
            if exists|i: int|
                0 <= i < activities.len() && (#[trigger] activities[i]).discord_user_id is None
                    && activities[i].ssrc == source {
                let i = choose|i: int|
                    0 <= i < activities.len() && (#[trigger] activities[i]).discord_user_id is None
                        && activities[i].ssrc == source;
                if i < n - 1 {
                    assert(earlier[i].ssrc == source);
                    assert(fewer.contains(source));
                    let k = choose|k: int| 0 <= k < fewer.len() && fewer[k] == source;
                    assert(left[k] == source);
                } else {
                    assert(left[fewer.len() as int] == source);
                }
            }
        }
        if left.len() == 0 {
            assert forall|i: int| 0 <= i < activities.len() implies (
            #[trigger] activities[i]).discord_user_id is Some by {
                if i < n - 1 {
                    assert(earlier[i] == activities[i]);
                }
            }
        } else if fewer.len() > 0 {
            assert(fewer.contains(fewer[0]));
            let i = choose|i: int|
                0 <= i < earlier.len() && (#[trigger] earlier[i]).discord_user_id is None
                    && earlier[i].ssrc == fewer[0];
            assert(activities[i].discord_user_id is None);
        }
    }
}

/// The ranges of a user reach into the user's track exactly so far.
pub open spec fn reach_exactly(ranges: Seq<CandidateRange>, user: u64, length: u64) -> bool {
    &&& forall|i: int|
        0 <= i < ranges.len() && (#[trigger] ranges[i]).discord_user_id == user
            ==> ranges[i].source_end_sample <= length
    &&& exists|i: int|
        0 <= i < ranges.len() && (#[trigger] ranges[i]).discord_user_id == user
            && ranges[i].source_end_sample == length
}

proof fn lemma_source_length(ranges: Seq<CandidateRange>, user: u64)
    requires
        exists|i: int| 0 <= i < ranges.len() && (#[trigger] ranges[i]).discord_user_id == user,
    ensures
        reach_exactly(ranges, user, work_items::source_length(ranges, user)),
    decreases ranges.len(),
{
    let n = ranges.len() as int;
    let earlier = ranges.drop_last();
    let last = ranges.last();
    let length = work_items::source_length(ranges, user);
    assert(ranges[n - 1] == last);
    if exists|i: int| 0 <= i < earlier.len() && (#[trigger] earlier[i]).discord_user_id == user {
        lemma_source_length(earlier, user);
        let before = work_items::source_length(earlier, user);
        let k = choose|k: int|
            0 <= k < earlier.len() && (#[trigger] earlier[k]).discord_user_id == user
                && earlier[k].source_end_sample == before;
        assert(ranges[k] == earlier[k]);
        assert forall|i: int| 0 <= i < ranges.len() && (#[trigger] ranges[i]).discord_user_id
            == user implies ranges[i].source_end_sample <= length by {
            if i < n - 1 {
                assert(earlier[i] == ranges[i]);
            }
        }
        if length == last.source_end_sample && last.discord_user_id == user {
            assert(ranges[n - 1].source_end_sample == length);
        } else {
            assert(ranges[k].source_end_sample == length);
        }
    } else {
        lemma_source_length_of_none(earlier, user);
        let i = choose|i: int| 0 <= i < ranges.len() && (#[trigger] ranges[i]).discord_user_id
            == user;
        if i < n - 1 {
            assert(earlier[i].discord_user_id == user);
        }
        assert(ranges[n - 1].source_end_sample == length);
        assert forall|i: int| 0 <= i < ranges.len() && (#[trigger] ranges[i]).discord_user_id
            == user implies ranges[i].source_end_sample <= length by {
            if i < n - 1 {
                assert(earlier[i].discord_user_id == user);
            }
        }
    }
}

proof fn lemma_source_length_of_none(ranges: Seq<CandidateRange>, user: u64)
    requires
        forall|i: int| 0 <= i < ranges.len() ==> (#[trigger] ranges[i]).discord_user_id != user,
    ensures
        work_items::source_length(ranges, user) == 0,
    decreases ranges.len(),
{
    if ranges.len() > 0 {
        let earlier = ranges.drop_last();
        assert forall|i: int| 0 <= i < earlier.len() implies (
        #[trigger] earlier[i]).discord_user_id != user by {
            assert(earlier[i] == ranges[i]);
        }
        assert(ranges[ranges.len() - 1].discord_user_id != user);
        lemma_source_length_of_none(earlier, user);
    }
}

proof fn lemma_active_users(ranges: Seq<CandidateRange>, user: u64)
    ensures
        work_items::active_users(ranges).contains(user) <==> (exists|i: int|
            0 <= i < ranges.len() && (#[trigger] ranges[i]).discord_user_id == user),
    decreases ranges.len(),
{
    if ranges.len() > 0 {
        let n = ranges.len() as int;
        let earlier = ranges.drop_last();
        lemma_active_users(earlier, user);
        let fewer = work_items::active_users(earlier);
        let all = work_items::active_users(ranges);
        if all.contains(user) {
            let k = choose|k: int| 0 <= k < all.len() && all[k] == user;
            if k < fewer.len() {
                assert(fewer[k] == user);
                let i = choose|i: int|
                    0 <= i < earlier.len() && (#[trigger] earlier[i]).discord_user_id == user;
                assert(ranges[i].discord_user_id == user);
            } else {
                assert(ranges[n - 1].discord_user_id == user);
            }
        }
        if exists|i: int| 0 <= i < ranges.len() && (#[trigger] ranges[i]).discord_user_id == user {
            let i = choose|i: int|
                0 <= i < ranges.len() && (#[trigger] ranges[i]).discord_user_id == user;
            if i < n - 1 {
                assert(earlier[i].discord_user_id == user);
                let k = choose|k: int| 0 <= k < fewer.len() && fewer[k] == user;
                assert(all[k] == user);
            } else if !fewer.contains(user) {
                assert(all[fewer.len() as int] == user);
            }
        }
    }
}

/// The activity of a range's user fits the track recorded for that user.
pub open spec fn fits_its_track(ranges: Seq<CandidateRange>, tracks: Seq<TrackView>, user: u64) -> bool {
    exists|t: int| #[trigger]
        work_items::records_user(tracks, user, t) && reach_exactly(
            ranges,
            user,
            tracks[t].length_samples,
        )
}

proof fn lemma_user_alignment(ranges: Seq<CandidateRange>, tracks: Seq<TrackView>, user: u64)
    requires
        exists|i: int| 0 <= i < ranges.len() && (#[trigger] ranges[i]).discord_user_id == user,
    ensures
        work_items::user_alignment_fault(
            tracks,
            user,
            work_items::source_length(ranges, user),
        ) is None <==> fits_its_track(ranges, tracks, user),
{
    lemma_source_length(ranges, user);
    work_items::lemma_track_of(tracks, user);
    let length = work_items::source_length(ranges, user);
    let i = choose|i: int|
        0 <= i < ranges.len() && (#[trigger] ranges[i]).discord_user_id == user
            && ranges[i].source_end_sample == length;
    if let Some(track) = work_items::track_of(tracks, user) {
        let t = choose|t: int| #[trigger]
            work_items::records_user(tracks, user, t) && tracks[t] == track;
        if fits_its_track(ranges, tracks, user) {
            let u = choose|u: int| #[trigger]
                work_items::records_user(tracks, user, u) && reach_exactly(
                    ranges,
                    user,
                    tracks[u].length_samples,
                );
            if u < t {
                assert(text::parsed_u64(tracks[t].discord_user_id) != Some(user));
            }
            if t < u {
                assert(text::parsed_u64(tracks[u].discord_user_id) != Some(user));
            }
            let j = choose|j: int|
                0 <= j < ranges.len() && (#[trigger] ranges[j]).discord_user_id == user
                    && ranges[j].source_end_sample == tracks[u].length_samples;
            assert(ranges[j].source_end_sample <= length);
            assert(ranges[i].source_end_sample <= tracks[u].length_samples);
        }
    }
}

proof fn lemma_users_alignment(
    ranges: Seq<CandidateRange>,
    tracks: Seq<TrackView>,
    users: Seq<u64>,
)
    requires
        forall|k: int|
            0 <= k < users.len() ==> exists|i: int|
                0 <= i < ranges.len() && (#[trigger] ranges[i]).discord_user_id
                    == #[trigger] users[k],
    ensures
        work_items::users_alignment_fault(ranges, tracks, users) is None <==> (forall|k: int|
            0 <= k < users.len() ==> fits_its_track(ranges, tracks, #[trigger] users[k])),
    decreases users.len(),
{
    if users.len() > 0 {
        let fewer = users.drop_last();
        assert forall|k: int| 0 <= k < fewer.len() implies exists|i: int|
            0 <= i < ranges.len() && (#[trigger] ranges[i]).discord_user_id
                == #[trigger] fewer[k] by {
            assert(fewer[k] == users[k]);
        }
        lemma_users_alignment(ranges, tracks, fewer);
        assert(users.last() == users[users.len() - 1]);
        lemma_user_alignment(ranges, tracks, users.last());
        if work_items::users_alignment_fault(ranges, tracks, fewer) is None {
            assert forall|k: int| 0 <= k < fewer.len() implies fits_its_track(
                ranges,
                tracks,
                #[trigger] users[k],
            ) by {
                assert(fewer[k] == users[k]);
            }
        } else {
            let k = choose|k: int|
                0 <= k < fewer.len() && !fits_its_track(ranges, tracks, #[trigger] fewer[k]);
            assert(users[k] == fewer[k]);
        }
    }
}

proof fn lemma_idle_users(tracks: Seq<TrackView>, active: Seq<u64>)
    ensures
        work_items::idle_users(tracks, active).len() == 0 <==> (forall|t: int|
            0 <= t < tracks.len() && text::parsed_u64((#[trigger] tracks[t]).discord_user_id)
                is Some ==> active.contains(text::parsed_u64(tracks[t].discord_user_id)->0)),
    decreases tracks.len(),
{
    if tracks.len() > 0 {
        let n = tracks.len() as int;
        let fewer = tracks.drop_last();
        lemma_idle_users(fewer, active);
        assert(tracks[n - 1] == tracks.last());
        if work_items::idle_users(fewer, active).len() == 0 {
            assert forall|t: int| 0 <= t < n - 1 && text::parsed_u64(
                (#[trigger] tracks[t]).discord_user_id,
            ) is Some implies active.contains(
                text::parsed_u64(tracks[t].discord_user_id)->0,
            ) by {
                assert(fewer[t] == tracks[t]);
            }
        } else {
            let t = choose|t: int|
                0 <= t < fewer.len() && text::parsed_u64((#[trigger] fewer[t]).discord_user_id)
                    is Some && !active.contains(text::parsed_u64(fewer[t].discord_user_id)->0);
            assert(tracks[t] == fewer[t]);
        }
    }
}

/// Reconstructed activity agrees with the recorded tracks exactly if the ranges
/// of every user end with the last sample of the track recorded for that user,
/// and every track is of a user with ranges.
pub proof fn alignment_means_equal_lengths(ranges: Seq<CandidateRange>, tracks: Seq<TrackView>)
    ensures
        work_items::alignment_fault(ranges, tracks) is None <==> {
            &&& forall|i: int|
                0 <= i < ranges.len() ==> fits_its_track(
                    ranges,
                    tracks,
                    (#[trigger] ranges[i]).discord_user_id,
                )
            &&& forall|t: int|
                0 <= t < tracks.len() && text::parsed_u64((#[trigger] tracks[t]).discord_user_id)
                    is Some ==> exists|i: int|
                    0 <= i < ranges.len() && Some((#[trigger] ranges[i]).discord_user_id)
                        == text::parsed_u64(tracks[t].discord_user_id)
        },
{
    let active = work_items::active_users(ranges);
    assert forall|k: int| 0 <= k < active.len() implies exists|i: int|
        0 <= i < ranges.len() && (#[trigger] ranges[i]).discord_user_id
            == #[trigger] active[k] by {
        assert(active.contains(active[k]));
        lemma_active_users(ranges, active[k]);
    }
    lemma_users_alignment(ranges, tracks, active);
    lemma_idle_users(tracks, active);
    let fit = forall|i: int|
        0 <= i < ranges.len() ==> fits_its_track(
            ranges,
            tracks,
            (#[trigger] ranges[i]).discord_user_id,
        );
    let heard = forall|t: int|
        0 <= t < tracks.len() && text::parsed_u64((#[trigger] tracks[t]).discord_user_id)
            is Some ==> exists|i: int|
            0 <= i < ranges.len() && Some((#[trigger] ranges[i]).discord_user_id)
                == text::parsed_u64(tracks[t].discord_user_id);
    assert(fit <==> (forall|k: int|
        0 <= k < active.len() ==> fits_its_track(ranges, tracks, #[trigger] active[k]))) by {
        if fit {
            assert forall|k: int| 0 <= k < active.len() implies fits_its_track(
                ranges,
                tracks,
                #[trigger] active[k],
            ) by {
                let i = choose|i: int|
                    0 <= i < ranges.len() && (#[trigger] ranges[i]).discord_user_id == active[k];
                assert(fits_its_track(ranges, tracks, ranges[i].discord_user_id));
            }
        }
        if forall|k: int|
            0 <= k < active.len() ==> fits_its_track(ranges, tracks, #[trigger] active[k]) {
            assert forall|i: int| 0 <= i < ranges.len() implies fits_its_track(
                ranges,
                tracks,
                (#[trigger] ranges[i]).discord_user_id,
            ) by {
                lemma_active_users(ranges, ranges[i].discord_user_id);
                let k = choose|k: int|
                    0 <= k < active.len() && active[k] == ranges[i].discord_user_id;
                assert(fits_its_track(ranges, tracks, active[k]));
            }
        }
    }
    assert(heard <==> (forall|t: int|
        0 <= t < tracks.len() && text::parsed_u64((#[trigger] tracks[t]).discord_user_id)
            is Some ==> active.contains(text::parsed_u64(tracks[t].discord_user_id)->0))) by {
        assert forall|t: int|
            0 <= t < tracks.len() && text::parsed_u64((#[trigger] tracks[t]).discord_user_id)
                is Some implies (active.contains(text::parsed_u64(tracks[t].discord_user_id)->0)
            <==> exists|i: int|
            0 <= i < ranges.len() && Some((#[trigger] ranges[i]).discord_user_id)
                == text::parsed_u64(tracks[t].discord_user_id)) by {
            let user = text::parsed_u64(tracks[t].discord_user_id)->0;
            lemma_active_users(ranges, user);
            if active.contains(user) {
                let i = choose|i: int|
                    0 <= i < ranges.len() && (#[trigger] ranges[i]).discord_user_id == user;
                assert(Some(ranges[i].discord_user_id) == text::parsed_u64(
                    tracks[t].discord_user_id,
                ));
            }
        }
    }
}

/// A range can be cut from a track exactly if it is not empty, in the session
/// and in the track, and does not reach beyond the track.
pub proof fn ranges_lie_within_their_track(range: CandidateRange, length_samples: u64)
    ensures
        work_items::range_fault(range, length_samples) is None <==> range.start_sample
            < range.end_sample && range.source_start_sample < range.source_end_sample
            <= length_samples,
{
}

/// A track is complete and its file in place.
pub open spec fn in_place(track: TrackView, file: InspectedFile) -> bool {
    track.state == TrackState::Complete && file.kind is Regular
}

proof fn lemma_tracks_ready(tracks: Seq<TrackView>, files: Seq<InspectedFile>)
    ensures
        work_authority::track_files_fault(tracks, files) is None
            && work_authority::incomplete_users(tracks).len() == 0 <==> (forall|i: int|
            0 <= i < tracks.len() ==> in_place(#[trigger] tracks[i], files[i])),
    decreases tracks.len(),
{
    if tracks.len() > 0 {
        let n = tracks.len() as int;
        let fewer = tracks.drop_last();
        lemma_tracks_ready(fewer, files);
        assert(tracks[n - 1] == tracks.last());
        if forall|i: int| 0 <= i < fewer.len() ==> in_place(#[trigger] fewer[i], files[i]) {
            assert forall|i: int| 0 <= i < n - 1 implies in_place(
                #[trigger] tracks[i],
                files[i],
            ) by {
                assert(fewer[i] == tracks[i]);
            }
        } else {
            let i = choose|i: int|
                0 <= i < fewer.len() && !in_place(#[trigger] fewer[i], files[i]);
            assert(tracks[i] == fewer[i]);
        }
    }
}

/// The tracks of a session are ready exactly if the manifest is its own and
/// every track is complete, with a regular file in its place.
pub proof fn ready_tracks_are_complete_and_in_place(
    session_id: Seq<char>,
    manifest: ManifestView,
    files: Seq<InspectedFile>,
    refusal: Seq<char>,
)
    ensures
        work_authority::tracks_unready(session_id, manifest, files, refusal) is None <==> {
            &&& manifest.session_id == session_id
            &&& forall|i: int|
                0 <= i < manifest.tracks.len() ==> in_place(
                    #[trigger] manifest.tracks[i],
                    files[i],
                )
        },
{
    lemma_tracks_ready(manifest.tracks, files);
}

/// Evidence from which work may be built: a snapshot and a manifest of the
/// declared formats, all tracks ready, no source unresolved, journals that were
/// replayed to their ends with every decision decoded, and every activity
/// attributed.
pub open spec fn sound_evidence(record: SessionView, evidence: AuthorityEvidence) -> bool {
    &&& evidence.participants is Ok
    &&& evidence.participants->Ok_0.deep_view().format_version == record.files.participants.format
    &&& evidence.tracks is Ok
    &&& evidence.tracks->Ok_0.format == record.files.tracks.format
    &&& evidence.tracks->Ok_0.session_id@ == record.session_id
    &&& forall|i: int|
        0 <= i < evidence.tracks->Ok_0.deep_view().tracks.len() ==> in_place(
            #[trigger] evidence.tracks->Ok_0.deep_view().tracks[i],
            evidence.track_files@[i],
        )
    &&& evidence.unresolved_ssrcs is Ok
    &&& evidence.unresolved_ssrcs->Ok_0@.len() == 0
    &&& evidence.replay is Ok
    &&& !evidence.replay->Ok_0.truncated_packet_tail
    &&& !evidence.replay->Ok_0.truncated_playout_tail
    &&& evidence.replay->Ok_0.skipped_undecoded == 0
    &&& forall|i: int|
        0 <= i < evidence.replay->Ok_0.activities@.len() ==> (
        #[trigger] evidence.replay->Ok_0.activities@[i]).discord_user_id is Some
}

/// Work is built exactly on sound evidence whose activity makes up ranges that
/// agree with the recorded tracks, and then on those ranges.
pub proof fn work_is_built_on_sound_evidence(
    record: SessionView,
    evidence: AuthorityEvidence,
    merge_gap_ms: u64,
)
    ensures
        ({
            let supported = work_authority::supported_ranges(record, evidence, merge_gap_ms);
            let ranges = candidate_ranges::candidate_ranges(
                work_authority::attributed(evidence.replay->Ok_0.activities@),
                merge_gap_ms,
            );
            &&& supported is Ok <==> sound_evidence(record, evidence) && ranges is Ok
                && work_items::alignment_fault(
                ranges->Ok_0,
                evidence.tracks->Ok_0.deep_view().tracks,
            ) is None
            &&& supported is Ok ==> supported == ranges
        }),
{
    if evidence.tracks is Ok {
        ready_tracks_are_complete_and_in_place(
            record.session_id,
            evidence.tracks->Ok_0.deep_view(),
            evidence.track_files@,
            work_authority::INCOMPLETE_FOR_WORK@,
        );
    }
    if evidence.replay is Ok {
        attribution_keeps_every_frame(evidence.replay->Ok_0.activities@);
    }
}

/// A result agrees with its work item in everything they share.
pub open spec fn agrees(result: ResultView, item: WorkItemView) -> bool {
    &&& result.format == 2
    &&& result.status == "complete"@
    &&& (
        result.work_item_id,
        result.session_id,
        result.sequence,
        result.discord_user_id,
        result.speaker,
        result.role,
        result.character,
    ) == (
        item.id,
        item.session_id,
        item.sequence,
        item.discord_user_id,
        item.speaker,
        item.role,
        item.character,
    )
    &&& (
        result.start_ms,
        result.end_ms,
        result.source,
        result.source_start_ms,
        result.source_end_ms,
    ) == (item.start_ms, item.end_ms, item.source, item.source_start_ms, item.source_end_ms)
    &&& !result.text.contains('\n') && !result.text.contains('\r')
}

proof fn lemma_agrees(result: ResultView, item: WorkItemView)
    ensures
        results::result_matches(result, item) == agrees(result, item),
{
    if text::single_line(result.text) {
        assert(!result.text.contains('\n') && !result.text.contains('\r'));
    } else {
        let i = choose|i: int|
            0 <= i < result.text.len() && !(#[trigger] result.text[i] != '\n' && result.text[i]
                != '\r');
        assert(result.text.contains(result.text[i]));
    }
}

/// The record at a place is the result of the work item at that place.
pub open spec fn sound_result(
    records: Seq<Seq<u8>>,
    parsed: Seq<Result<ResultView, Seq<char>>>,
    items: Seq<WorkItemView>,
    i: int,
) -> bool {
    &&& records[i].len() > 0
    &&& parsed[i] is Ok
    &&& i < items.len()
    &&& agrees(parsed[i]->Ok_0, items[i])
}

/// Results are accepted exactly if every record is the result of the work item
/// at its place, and then as they were read. Otherwise the fault is that of the
/// first record which is not, and so many results before it are sound.
pub proof fn results_are_accepted_record_by_record(
    records: Seq<Seq<u8>>,
    parsed: Seq<Result<ResultView, Seq<char>>>,
    path: Seq<char>,
    items: Seq<WorkItemView>,
)
    ensures
        ({
            let accepted = results::committed_results(records, parsed, path, items);
            &&& accepted is Ok <==> (forall|i: int|
                0 <= i < records.len() ==> #[trigger] sound_result(records, parsed, items, i))
            &&& accepted is Ok ==> {
                &&& accepted->Ok_0.len() == records.len()
                &&& forall|i: int|
                    0 <= i < records.len() ==> #[trigger] accepted->Ok_0[i] == parsed[i]->Ok_0
            }
            &&& accepted is Err ==> {
                let sound = accepted->Err_0.1 as int;
                &&& 0 <= sound < records.len()
                &&& !sound_result(records, parsed, items, sound)
                &&& forall|i: int|
                    0 <= i < sound ==> #[trigger] sound_result(records, parsed, items, i)
            }
        }),
    decreases records.len(),
{
    if records.len() > 0 {
        let n = records.len() as int;
        let fewer = records.drop_last();
        results_are_accepted_record_by_record(fewer, parsed, path, items);
        assert forall|i: int| 0 <= i < n - 1 implies #[trigger] sound_result(
            records,
            parsed,
            items,
            i,
        ) == sound_result(fewer, parsed, items, i) by {
            assert(fewer[i] == records[i]);
        }
        let before = results::committed_results(fewer, parsed, path, items);
        if before is Ok {
            if n - 1 < items.len() && parsed[n - 1] is Ok {
                lemma_agrees(parsed[n - 1]->Ok_0, items[n - 1]);
            }
            let accepted = results::committed_results(records, parsed, path, items);
            assert(accepted is Ok <==> sound_result(records, parsed, items, n - 1));
            if accepted is Ok {
                assert forall|i: int| 0 <= i < records.len() implies #[trigger] accepted->Ok_0[i]
                    == parsed[i]->Ok_0 by {
                    if i < n - 1 {
                        assert(accepted->Ok_0[i] == before->Ok_0[i]);
                    }
                }
            }
        } else {
            assert(!sound_result(records, parsed, items, before->Err_0.1 as int));
        }
    }
}

/// A fault behind a number of sound results names the next sequence and the
/// work item that stands there.
pub proof fn faults_name_the_next_item(
    message: Seq<char>,
    sound: nat,
    items: Seq<WorkItemView>,
)
    ensures
        ({
            let fault: AuthorityFailureView = results::authority_fault(message, sound, items);
            &&& fault.message == message
            &&& fault.safely_validated_prefix_length == sound
            &&& sound < u64::MAX ==> fault.earliest_unsafe_sequence == sound + 1
            &&& sound < items.len() ==> fault.earliest_unsafe_work_item_id
                == items[sound as int].id
            &&& sound >= items.len() ==> fault.earliest_unsafe_work_item_id == "none"@
        }),
{
}

/// The record at a place is a work item that may stand there.
pub open spec fn sound_item(
    records: Seq<Seq<u8>>,
    parsed: Seq<Result<WorkItemView, Seq<char>>>,
    session_id: Seq<char>,
    windows: bool,
    i: int,
) -> bool {
    let item = parsed[i]->Ok_0;
    &&& records[i].len() > 0
    &&& parsed[i] is Ok
    &&& item.format == 2
    &&& item.session_id == session_id
    &&& item.sequence == i + 1
    &&& item.id == session_id + ":"@ + text::zero_padded((i + 1) as nat, 6)
    &&& item.start_ms < item.end_ms
    &&& item.source_start_ms < item.source_end_ms
    &&& !text::blank(item.speaker)
    &&& item.role == "player"@ || item.role == "gm"@
    &&& text::parsed_u64(item.discord_user_id) is Some
    &&& text::parsed_u64(item.discord_user_id) != Some(0u64)
    &&& paths::contained(item.source, windows)
    &&& i > 0 ==> parsed[i - 1]->Ok_0.start_ms <= item.start_ms
}

/// A work manifest is accepted exactly if every record is a work item of the
/// session that bears the number of its place, starts no earlier than the one
/// before it, and is otherwise sound; and then as it was read.
pub proof fn manifests_are_accepted_record_by_record(
    records: Seq<Seq<u8>>,
    parsed: Seq<Result<WorkItemView, Seq<char>>>,
    path: Seq<char>,
    session_id: Seq<char>,
    windows: bool,
)
    requires
        records.len() < u64::MAX,
    ensures
        ({
            let accepted = transcription::manifest_items(
                records,
                parsed,
                path,
                session_id,
                windows,
            );
            &&& accepted is Ok <==> (forall|i: int|
                0 <= i < records.len() ==> #[trigger] sound_item(
                    records,
                    parsed,
                    session_id,
                    windows,
                    i,
                ))
            &&& accepted is Ok ==> {
                &&& accepted->Ok_0.len() == records.len()
                &&& forall|i: int|
                    0 <= i < records.len() ==> #[trigger] accepted->Ok_0[i] == parsed[i]->Ok_0
            }
        }),
    decreases records.len(),
{
    if records.len() > 0 {
        let n = records.len() as int;
        let fewer = records.drop_last();
        manifests_are_accepted_record_by_record(fewer, parsed, path, session_id, windows);
        assert forall|i: int| 0 <= i < n - 1 implies #[trigger] sound_item(
            records,
            parsed,
            session_id,
            windows,
            i,
        ) == sound_item(fewer, parsed, session_id, windows, i) by {
            assert(fewer[i] == records[i]);
        }
        let before = transcription::manifest_items(fewer, parsed, path, session_id, windows);
        let accepted = transcription::manifest_items(records, parsed, path, session_id, windows);
        if before is Ok {
            if n > 1 {
                assert(sound_item(fewer, parsed, session_id, windows, n - 2));
                assert(before->Ok_0[n - 2] == parsed[n - 2]->Ok_0);
            }
            assert(accepted is Ok <==> sound_item(records, parsed, session_id, windows, n - 1));
            if accepted is Ok {
                assert forall|i: int| 0 <= i < records.len() implies #[trigger] accepted->Ok_0[i]
                    == parsed[i]->Ok_0 by {
                    if i < n - 1 {
                        assert(accepted->Ok_0[i] == before->Ok_0[i]);
                    }
                }
            }
        } else {
            let i = choose|i: int|
                0 <= i < fewer.len() && !#[trigger] sound_item(
                    fewer,
                    parsed,
                    session_id,
                    windows,
                    i,
                );
            assert(!sound_item(records, parsed, session_id, windows, i));
        }
    }
}

/// A track is the last one listed under a Discord ID.
pub open spec fn listed_last(tracks: Seq<TrackView>, discord_user_id: Seq<char>, t: int) -> bool {
    &&& 0 <= t < tracks.len()
    &&& tracks[t].discord_user_id == discord_user_id
    &&& forall|later: int|
        t < later < tracks.len() ==> (#[trigger] tracks[later]).discord_user_id != discord_user_id
}

proof fn lemma_track_named(tracks: Seq<TrackView>, discord_user_id: Seq<char>)
    ensures
        transcription::track_named(tracks, discord_user_id) matches Some(track) ==> exists|t: int|
         #[trigger]
            listed_last(tracks, discord_user_id, t) && tracks[t] == track,
        transcription::track_named(tracks, discord_user_id) is None ==> forall|t: int|
            !#[trigger] listed_last(tracks, discord_user_id, t),
    decreases tracks.len(),
{
    if tracks.len() > 0 {
        let n = tracks.len() as int;
        let fewer = tracks.drop_last();
        lemma_track_named(fewer, discord_user_id);
        if tracks.last().discord_user_id == discord_user_id {
            assert(listed_last(tracks, discord_user_id, n - 1));
        } else if let Some(track) = transcription::track_named(fewer, discord_user_id) {
            let t = choose|t: int| #[trigger]
                listed_last(fewer, discord_user_id, t) && fewer[t] == track;
            assert(listed_last(tracks, discord_user_id, t)) by {
                assert forall|later: int| t < later < n implies (
                #[trigger] tracks[later]).discord_user_id != discord_user_id by {
                    if later < n - 1 {
                        assert(fewer[later] == tracks[later]);
                    }
                }
            }
        } else {
            assert forall|t: int| !#[trigger] listed_last(tracks, discord_user_id, t) by {
                if listed_last(tracks, discord_user_id, t) {
                    assert(t < n - 1);
                    assert(listed_last(fewer, discord_user_id, t)) by {
                        assert forall|later: int| t < later < n - 1 implies (
                        #[trigger] fewer[later]).discord_user_id != discord_user_id by {
                            assert(fewer[later] == tracks[later]);
                        }
                    }
                }
            }
        }
    }
}

/// A work item can be cut from the tracks exactly if the track listed last under
/// its user is its source and the item ends no later than the millisecond, 48
/// samples long, in which that track ends.
pub proof fn items_are_cut_within_their_track(item: WorkItemView, tracks: Seq<TrackView>)
    ensures
        transcription::source_fault(item, tracks) is None <==> (exists|t: int| #[trigger]
            listed_last(tracks, item.discord_user_id, t) && item.source == tracks[t].path
                && tracks[t].length_samples + 47 <= u64::MAX && item.source_end_ms * 48
                < tracks[t].length_samples + 48),
{
    let user = item.discord_user_id;
    lemma_track_named(tracks, user);
    if let Some(track) = transcription::track_named(tracks, user) {
        let t = choose|t: int| #[trigger] listed_last(tracks, user, t) && tracks[t] == track;
        assert forall|u: int| #[trigger] listed_last(tracks, user, u) implies u == t by {
            if u < t {
                assert(tracks[t].discord_user_id != user);
            }
            if t < u {
                assert(tracks[u].discord_user_id != user);
            }
        }
    }
}

} // verus!
