//! The authority from which a session's work items are built.
//!
//! Everything before publication is validation or deterministic planning: a
//! refusal here must not turn an operator mistake or damaged input into a new
//! workflow failure record.

use vstd::prelude::*;

use crate::candidate_ranges;
use crate::candidate_ranges::AttributedFrame;
use crate::candidate_ranges::CandidateRange;
use crate::failure;
use crate::failure::Failure;
use crate::order;
use crate::participants::ParticipantContext;
use crate::session::FileKind;
use crate::session::InspectedFile;
use crate::session::SessionRecord;
use crate::session::SessionView;
use crate::session::WorkflowState;
use crate::stage;
use crate::stage::StageError;
use crate::text;
use crate::track_manifest::ManifestView;
use crate::track_manifest::TrackManifest;
use crate::track_manifest::TrackState;
use crate::track_manifest::TrackView;
use crate::work_items;
use crate::work_items::WorkItem;
use crate::work_items::WorkItemView;

verus! {

/// Composable boundary for adjusting, splitting, or rejecting ranges before
/// they become work items.
pub trait RangeRefiner: Sized {
    fn refine(&self, candidates: Vec<CandidateRange>) -> (refined: Result<
        Vec<CandidateRange>,
        Failure,
    >);
}

/// The refiner that leaves every range as it is.
pub struct NoopRefiner;

impl RangeRefiner for NoopRefiner {
    fn refine(&self, candidates: Vec<CandidateRange>) -> (refined: Result<
        Vec<CandidateRange>,
        Failure,
    >)
        ensures
            refined == Ok::<Vec<CandidateRange>, Failure>(candidates),
    {
        Ok(candidates)
    }
}

/// One decoded playout decision of a replay, and the user to whom the mapping
/// timeline assigns it, if it does.
#[derive(Clone, Copy, Debug, PartialEq, Eq, Structural)]
pub struct Activity {
    pub ssrc: u32,
    pub tick: u64,
    pub decoded_samples: u32,
    pub discord_user_id: Option<u64>,
}

/// What replaying the authoritative journals gave.
#[derive(Debug)]
pub struct ActivityReplay {
    pub activities: Vec<Activity>,
    pub truncated_packet_tail: bool,
    pub truncated_playout_tail: bool,
    pub skipped_undecoded: u64,
}

/// The evidence from which the work items of a session are built. A part that
/// could not be read holds the refusal to report.
#[derive(Debug)]
pub struct AuthorityEvidence {
    pub participants: Result<ParticipantContext, Failure>,
    pub tracks: Result<TrackManifest, Failure>,
    /// One entry for each track of the manifest, in order.
    pub track_files: Vec<InspectedFile>,
    pub unresolved_ssrcs: Result<Vec<u64>, Failure>,
    pub replay: Result<ActivityReplay, Failure>,
}

/// The frames of activity that a user is known for.
pub open spec fn attributed(activities: Seq<Activity>) -> Seq<AttributedFrame>
    decreases activities.len(),
{
    if activities.len() == 0 {
        Seq::empty()
    } else {
        let earlier = attributed(activities.drop_last());
        let last = activities.last();
        match last.discord_user_id {
            Some(user) => earlier.push(
                AttributedFrame {
                    discord_user_id: user,
                    tick: last.tick,
                    samples: last.decoded_samples as u64,
                },
            ),
            None => earlier,
        }
    }
}

/// The transport sources of activity that no user is known for.
pub open spec fn unattributed(activities: Seq<Activity>) -> Seq<u64>
    decreases activities.len(),
{
    if activities.len() == 0 {
        Seq::empty()
    } else {
        let earlier = unattributed(activities.drop_last());
        let last = activities.last();
        match last.discord_user_id {
            Some(_) => earlier,
            None => earlier.push(last.ssrc as u64),
        }
    }
}

/// Part activity into attributed frames and the sources left over.
pub fn attribute(activities: &Vec<Activity>) -> (parts: (Vec<AttributedFrame>, Vec<u64>))
    ensures
        parts.0@ == attributed(activities@),
        parts.1@ == unattributed(activities@),
{
    let mut frames: Vec<AttributedFrame> = Vec::new();
    let mut left_over: Vec<u64> = Vec::new();
    let mut index: usize = 0;
    assert(activities@.take(0) =~= Seq::<Activity>::empty());
    while index < activities.len()
        invariant
            index <= activities.len(),
            frames@ == attributed(activities@.take(index as int)),
            left_over@ == unattributed(activities@.take(index as int)),
        decreases activities.len() - index,
    {
        let activity = activities[index];
        proof {
            let longer = activities@.take(index + 1);
            assert(longer.drop_last() =~= activities@.take(index as int));
            assert(longer.last() == activity);
        }
        match activity.discord_user_id {
            Some(discord_user_id) => {
                frames.push(
                    AttributedFrame {
                        discord_user_id,
                        tick: activity.tick,
                        samples: activity.decoded_samples as u64,
                    },
                );
            },
            None => {
                left_over.push(activity.ssrc as u64);
            },
        }
        index = index + 1;
    }
    assert(activities@.take(activities@.len() as int) =~= activities@);
    (frames, left_over)
}

/// The users of tracks that are not complete, in order.
pub open spec fn incomplete_users(tracks: Seq<TrackView>) -> Seq<Seq<char>>
    decreases tracks.len(),
{
    if tracks.len() == 0 {
        Seq::empty()
    } else if tracks.last().state == TrackState::Complete {
        incomplete_users(tracks.drop_last())
    } else {
        incomplete_users(tracks.drop_last()).push(tracks.last().discord_user_id)
    }
}

/// Why the file of a complete track cannot be used.
pub open spec fn track_file_fault(track: TrackView, file: InspectedFile) -> Option<Seq<char>> {
    if track.state != TrackState::Complete {
        None
    } else {
        match file.kind {
            FileKind::Regular => None,
            FileKind::Other => Some(
                "routine track "@ + file.location@ + " is not a regular file"@,
            ),
            FileKind::Unreadable(cause) => Some(
                failure::because("failed to inspect routine track "@ + file.location@, cause@),
            ),
        }
    }
}

pub open spec fn track_files_fault(tracks: Seq<TrackView>, files: Seq<InspectedFile>) -> Option<
    Seq<char>,
>
    decreases tracks.len(),
{
    if tracks.len() == 0 {
        None
    } else {
        match track_files_fault(tracks.drop_last(), files) {
            Some(fault) => Some(fault),
            None => track_file_fault(tracks.last(), files[tracks.len() - 1]),
        }
    }
}

/// Why a manifest is not that of the session with every track complete and in
/// place.
pub open spec fn tracks_unready(
    session_id: Seq<char>,
    manifest: ManifestView,
    files: Seq<InspectedFile>,
    refusal: Seq<char>,
) -> Option<Seq<char>> {
    if manifest.session_id != session_id {
        Some(
            "track manifest session ID "@ + text::debug_form(manifest.session_id)
                + " does not match session.json ID "@ + text::debug_form(session_id),
        )
    } else if track_files_fault(manifest.tracks, files) is Some {
        track_files_fault(manifest.tracks, files)
    } else if incomplete_users(manifest.tracks).len() > 0 {
        Some(refusal + text::joined(incomplete_users(manifest.tracks), ", "@))
    } else {
        None
    }
}

proof fn lemma_track_files_stop(tracks: Seq<TrackView>, files: Seq<InspectedFile>, count: int)
    requires
        0 <= count <= tracks.len(),
        track_files_fault(tracks.take(count), files) is Some,
    ensures
        track_files_fault(tracks, files) == track_files_fault(tracks.take(count), files),
    decreases tracks.len(),
{
    if count == tracks.len() {
        assert(tracks.take(count) =~= tracks);
    } else {
        assert(tracks.drop_last().take(count) =~= tracks.take(count));
        lemma_track_files_stop(tracks.drop_last(), files, count);
    }
}

/// The refusal of incomplete tracks where work items are built.
pub const INCOMPLETE_FOR_WORK: &'static str = "cannot build work items with incomplete tracks for Discord users ";

/// Require the manifest of the session, with every track complete and in
/// place, before work items are built.
pub fn validate_tracks(session_id: &str, manifest: &TrackManifest, files: &Vec<InspectedFile>) -> (result:
    Result<(), Failure>)
    requires
        files@.len() == manifest.tracks@.len(),
    ensures
        failure::outcome(result) == (match tracks_unready(
            session_id@,
            manifest.deep_view(),
            files@,
            INCOMPLETE_FOR_WORK@,
        ) {
            Some(fault) => Err::<(), Seq<char>>(fault),
            None => Ok(()),
        }),
{
    require_ready_tracks(session_id, manifest, files, INCOMPLETE_FOR_WORK)
}

/// Require the manifest of the session, with every track complete and in
/// place, and refuse incomplete tracks in the words given.
pub fn require_ready_tracks(
    session_id: &str,
    manifest: &TrackManifest,
    files: &Vec<InspectedFile>,
    refusal: &str,
) -> (result: Result<(), Failure>)
    requires
        files@.len() == manifest.tracks@.len(),
    ensures
        failure::outcome(result) == (match tracks_unready(
            session_id@,
            manifest.deep_view(),
            files@,
            refusal@,
        ) {
            Some(fault) => Err::<(), Seq<char>>(fault),
            None => Ok(()),
        }),
{
    if !text::same_text(manifest.session_id.as_str(), session_id) {
        return Err(
            Failure::new(
                "track manifest session ID ".to_owned().concat(
                    text::debug_text(manifest.session_id.as_str()).as_str(),
                ).concat(" does not match session.json ID ").concat(
                    text::debug_text(session_id).as_str(),
                ),
            ),
        );
    }
    let ghost tracks = manifest.deep_view().tracks;
    let mut incomplete: Vec<String> = Vec::new();
    let mut index: usize = 0;
    assert(tracks.take(0) =~= Seq::<TrackView>::empty());
    assert(incomplete.deep_view() =~= Seq::<Seq<char>>::empty());
    while index < manifest.tracks.len()
        invariant
            index <= manifest.tracks.len(),
            files@.len() == manifest.tracks@.len(),
            manifest.session_id@ == session_id@,
            tracks == manifest.deep_view().tracks,
            track_files_fault(tracks.take(index as int), files@) is None,
            incomplete.deep_view() == incomplete_users(tracks.take(index as int)),
        decreases manifest.tracks.len() - index,
    {
        let track = &manifest.tracks[index];
        let file = &files[index];
        let ghost before = incomplete.deep_view();
        proof {
            let longer = tracks.take(index + 1);
            assert(longer.drop_last() =~= tracks.take(index as int));
            assert(longer.last() == track.deep_view());
            if track_file_fault(track.deep_view(), *file) is Some {
                lemma_track_files_stop(tracks, files@, index + 1);
            }
        }
        if track.state != TrackState::Complete {
            incomplete.push(track.discord_user_id.clone());
            assert(incomplete.deep_view() =~= before.push(track.discord_user_id@));
        } else {
            match &file.kind {
                FileKind::Regular => {},
                FileKind::Other => {
                    return Err(
                        Failure::new(
                            "routine track ".to_owned().concat(file.location.as_str()).concat(
                                " is not a regular file",
                            ),
                        ),
                    );
                },
                FileKind::Unreadable(cause) => {
                    return Err(
                        Failure::caused(
                            "failed to inspect routine track ".to_owned().concat(
                                file.location.as_str(),
                            ),
                            cause,
                        ),
                    );
                },
            }
        }
        index = index + 1;
    }
    assert(tracks.take(tracks.len() as int) =~= tracks);
    if incomplete.len() > 0 {
        return Err(
            Failure::new(refusal.to_owned().concat(text::join(&incomplete, ", ").as_str())),
        );
    }
    Ok(())
}

/// Why a replay is no ground for work items.
pub open spec fn replay_fault(replay: ActivityReplay) -> Option<Seq<char>> {
    if replay.truncated_packet_tail || replay.truncated_playout_tail {
        Some("cannot build work items with a truncated authoritative journal tail"@)
    } else if replay.skipped_undecoded > 0 {
        Some(
            "cannot build work items: "@ + text::decimal(replay.skipped_undecoded as nat)
                + " playout decisions lack decoded-sample evidence"@,
        )
    } else if unattributed(replay.activities@).len() > 0 {
        Some(
            "cannot build work items: decoded PCM cannot be attributed safely for SSRCs "@
                + work_items::comma_joined(
                order::ascending(unattributed(replay.activities@).to_set()),
            ),
        )
    } else {
        None
    }
}

/// The candidate ranges of a replay that agrees with the recorded tracks.
pub open spec fn replayed_ranges(
    replay: ActivityReplay,
    manifest: ManifestView,
    merge_gap_ms: u64,
) -> Result<Seq<CandidateRange>, Seq<char>> {
    match replay_fault(replay) {
        Some(fault) => Err(fault),
        None => match candidate_ranges::candidate_ranges(
            attributed(replay.activities@),
            merge_gap_ms,
        ) {
            Err(fault) => Err(fault),
            Ok(ranges) => match work_items::alignment_fault(ranges, manifest.tracks) {
                Some(fault) => Err(fault),
                None => Ok(ranges),
            },
        },
    }
}

/// The candidate ranges that the evidence supports, or the first objection to
/// it.
pub open spec fn supported_ranges(
    record: SessionView,
    evidence: AuthorityEvidence,
    merge_gap_ms: u64,
) -> Result<Seq<CandidateRange>, Seq<char>> {
    match (evidence.participants, evidence.tracks) {
        (Err(refusal), _) => Err(refusal@),
        (Ok(participants), _) if participants.deep_view().format_version
            != record.files.participants.format => Err(
            "participant snapshot format does not match session.json"@,
        ),
        (Ok(_), Err(refusal)) => Err(refusal@),
        (Ok(_), Ok(tracks)) => if tracks.format != record.files.tracks.format {
            Err("track manifest format does not match session.json"@)
        } else {
            match tracks_unready(
                record.session_id,
                tracks.deep_view(),
                evidence.track_files@,
                INCOMPLETE_FOR_WORK@,
            ) {
                Some(fault) => Err(fault),
                None => match evidence.unresolved_ssrcs {
                    Err(refusal) => Err(refusal@),
                    Ok(unresolved) => if unresolved@.len() > 0 {
                        Err(
                            "cannot build work items while SSRC mapping evidence remains unresolved for "@
                                + work_items::comma_joined(
                                order::ascending(unresolved@.to_set()),
                            ),
                        )
                    } else {
                        match evidence.replay {
                            Err(refusal) => Err(refusal@),
                            Ok(replay) => replayed_ranges(
                                replay,
                                tracks.deep_view(),
                                merge_gap_ms,
                            ),
                        }
                    },
                },
            }
        },
    }
}

impl AuthorityEvidence {
    /// Where a manifest was read, its tracks are numbered and each has its
    /// file entry.
    pub open spec fn wf(self) -> bool {
        self.tracks matches Ok(tracks) ==> work_items::numeric(tracks.deep_view())
            && self.track_files@.len() == tracks.tracks@.len()
    }
}

fn copy_failure(refusal: &Failure) -> (copy: Failure)
    ensures
        copy@ == refusal@,
{
    Failure::from_text(refusal.text())
}

fn ranges_from_replay(replay: &ActivityReplay, manifest: &TrackManifest, merge_gap_ms: u64) -> (ranges:
    Result<Vec<CandidateRange>, Failure>)
    requires
        work_items::numeric(manifest.deep_view()),
    ensures
        failure::listing(ranges) == replayed_ranges(*replay, manifest.deep_view(), merge_gap_ms),
{
    if replay.truncated_packet_tail || replay.truncated_playout_tail {
        return Err(
            Failure::from_text("cannot build work items with a truncated authoritative journal tail"),
        );
    }
    if replay.skipped_undecoded > 0 {
        return Err(
            Failure::new(
                "cannot build work items: ".to_owned().concat(
                    text::decimal_text(replay.skipped_undecoded).as_str(),
                ).concat(" playout decisions lack decoded-sample evidence"),
            ),
        );
    }
    let (frames, left_over) = attribute(&replay.activities);
    if left_over.len() > 0 {
        let listing = order::distinct_ascending(&left_over);
        return Err(
            Failure::new(
                "cannot build work items: decoded PCM cannot be attributed safely for SSRCs ".to_owned().concat(
                work_items::comma_join(&listing).as_str()),
            ),
        );
    }
    let ranges = match candidate_ranges::build_candidate_ranges(frames, merge_gap_ms) {
        Err(fault) => {
            return Err(fault);
        },
        Ok(ranges) => ranges,
    };
    match work_items::validate_source_alignment(&ranges, manifest) {
        Err(fault) => Err(fault),
        Ok(_) => Ok(ranges),
    }
}

/// Candidate ranges with the manifest and snapshot that support them.
#[derive(Debug)]
pub struct SupportedRanges<'a> {
    pub ranges: Vec<CandidateRange>,
    pub tracks: &'a TrackManifest,
    pub participants: &'a ParticipantContext,
}

/// Check the evidence in order and reconstruct the candidate ranges.
pub fn ranges_from_authority<'a>(
    record: &SessionRecord,
    evidence: &'a AuthorityEvidence,
    merge_gap_ms: u64,
) -> (supported: Result<SupportedRanges<'a>, Failure>)
    requires
        evidence.wf(),
    ensures
        match supported {
            Ok(supported) => {
                &&& supported_ranges(record.deep_view(), *evidence, merge_gap_ms) == Ok::<
                    Seq<CandidateRange>,
                    Seq<char>,
                >(supported.ranges@)
                &&& evidence.tracks matches Ok(tracks) && tracks == *supported.tracks
                &&& evidence.participants matches Ok(participants) && participants
                    == *supported.participants
            },
            Err(refusal) => supported_ranges(record.deep_view(), *evidence, merge_gap_ms) == Err::<
                Seq<CandidateRange>,
                Seq<char>,
            >(refusal@),
        },
{
    let participants = match &evidence.participants {
        Err(refusal) => {
            return Err(copy_failure(refusal));
        },
        Ok(participants) => participants,
    };
    if participants.format_version() != record.files.participants.format {
        return Err(Failure::from_text("participant snapshot format does not match session.json"));
    }
    let tracks = match &evidence.tracks {
        Err(refusal) => {
            return Err(copy_failure(refusal));
        },
        Ok(tracks) => tracks,
    };
    if tracks.format != record.files.tracks.format {
        return Err(Failure::from_text("track manifest format does not match session.json"));
    }
    match validate_tracks(record.session_id.as_str(), tracks, &evidence.track_files) {
        Err(fault) => {
            return Err(fault);
        },
        Ok(_) => {},
    }
    match &evidence.unresolved_ssrcs {
        Err(refusal) => {
            return Err(copy_failure(refusal));
        },
        Ok(unresolved) => {
            if unresolved.len() > 0 {
                let listing = order::distinct_ascending(unresolved);
                return Err(
                    Failure::new(
                        "cannot build work items while SSRC mapping evidence remains unresolved for ".to_owned().concat(
                        work_items::comma_join(&listing).as_str()),
                    ),
                );
            }
        },
    }
    match &evidence.replay {
        Err(refusal) => Err(copy_failure(refusal)),
        Ok(replay) => match ranges_from_replay(replay, tracks, merge_gap_ms) {
            Err(fault) => Err(fault),
            Ok(ranges) => Ok(SupportedRanges { ranges, tracks, participants }),
        },
    }
}

/// What items come of refined ranges: those of the ranges in global order.
pub open spec fn items_of_ranges(
    record: SessionView,
    evidence: AuthorityEvidence,
    ranges: Seq<CandidateRange>,
    items: Result<Vec<WorkItem>, Failure>,
) -> bool {
    exists|sorted: Seq<CandidateRange>| #[trigger]
        order::orders(sorted, ranges) && failure::outcome(items) == work_items::materialised(
            record.session_id,
            sorted,
            evidence.tracks->Ok_0.deep_view().tracks,
            evidence.participants->Ok_0.deep_view(),
        )
}

/// What items come of what a refiner made of the candidates.
pub open spec fn items_of_refinement(
    record: SessionView,
    evidence: AuthorityEvidence,
    refined: Result<Vec<CandidateRange>, Failure>,
    items: Result<Vec<WorkItem>, Failure>,
) -> bool {
    match refined {
        Err(refusal) => failure::outcome(items) == Err::<Seq<WorkItemView>, Seq<char>>(refusal@),
        Ok(ranges) => items_of_ranges(record, evidence, ranges@, items),
    }
}

/// Build the work items of a session from its authority, passing the
/// candidate ranges through a refiner.
pub fn build_items_from_authority<R: RangeRefiner>(
    record: &SessionRecord,
    evidence: &AuthorityEvidence,
    merge_gap_ms: u64,
    refiner: &R,
) -> (items: Result<Vec<WorkItem>, Failure>)
    requires
        evidence.wf(),
    ensures
        match supported_ranges(record.deep_view(), *evidence, merge_gap_ms) {
            Err(message) => failure::outcome(items) == Err::<Seq<WorkItemView>, Seq<char>>(message),
            Ok(ranges) => exists|
                candidates: Vec<CandidateRange>,
                refined: Result<Vec<CandidateRange>, Failure>,
            |
                candidates@ == ranges && #[trigger] call_ensures(
                    R::refine,
                    (refiner, candidates),
                    refined,
                ) && items_of_refinement(record.deep_view(), *evidence, refined, items),
        },
{
    let supported = match ranges_from_authority(record, evidence, merge_gap_ms) {
        Err(fault) => {
            return Err(fault);
        },
        Ok(supported) => supported,
    };
    match refiner.refine(supported.ranges) {
        Err(refusal) => Err(refusal),
        Ok(ranges) => work_items::materialise_work_items(
            record.session_id.as_str(),
            ranges,
            supported.tracks,
            supported.participants,
        ),
    }
}

/// What items a session has whose ranges are left as they are.
pub open spec fn items_unrefined(
    record: SessionView,
    evidence: AuthorityEvidence,
    merge_gap_ms: u64,
    items: Result<Vec<WorkItem>, Failure>,
) -> bool {
    match supported_ranges(record, evidence, merge_gap_ms) {
        Err(message) => failure::outcome(items) == Err::<Seq<WorkItemView>, Seq<char>>(message),
        Ok(ranges) => items_of_ranges(record, evidence, ranges, items),
    }
}

/// Build the work items of a session anew for another transcription.
pub fn build_retranscription_items(
    record: &SessionRecord,
    evidence: &AuthorityEvidence,
    merge_gap_ms: u64,
) -> (items: Result<Vec<WorkItem>, Failure>)
    requires
        evidence.wf(),
    ensures
        items_unrefined(record.deep_view(), *evidence, merge_gap_ms, items),
{
    build_items_from_authority(record, evidence, merge_gap_ms, &NoopRefiner)
}

pub open spec fn not_ready(state: WorkflowState) -> Seq<char> {
    "build-work-items requires session state ready_for_transcription; found "@ + state.name()
}

fn refuse_unready(record: &SessionRecord) -> (result: Result<(), Failure>)
    ensures
        failure::outcome(result) == (if record.state == WorkflowState::ReadyForTranscription {
            Ok::<(), Seq<char>>(())
        } else {
            Err(not_ready(record.state))
        }),
{
    if record.state != WorkflowState::ReadyForTranscription {
        Err(
            Failure::new(
                "build-work-items requires session state ready_for_transcription; found ".to_owned().concat(
                record.state.as_str()),
            ),
        )
    } else {
        Ok(())
    }
}

/// Plan the work items of a session that stands ready for transcription. A
/// failure here is a refusal: nothing has been published.
pub fn run_with_refiner<R: RangeRefiner>(
    record: &SessionRecord,
    evidence: &AuthorityEvidence,
    merge_gap_ms: u64,
    refiner: &R,
) -> (items: Result<Vec<WorkItem>, StageError<Failure>>)
    requires
        evidence.wf(),
    ensures
        items matches Err(error) ==> !error.spec_accepted(),
        record.state != WorkflowState::ReadyForTranscription ==> stage::staged(items) == Err::<
            Seq<WorkItemView>,
            (bool, Seq<char>),
        >((false, not_ready(record.state))),
        record.state == WorkflowState::ReadyForTranscription ==> match supported_ranges(
            record.deep_view(),
            *evidence,
            merge_gap_ms,
        ) {
            Err(message) => stage::staged(items) == Err::<Seq<WorkItemView>, (bool, Seq<char>)>(
                (false, message),
            ),
            Ok(ranges) => exists|
                candidates: Vec<CandidateRange>,
                refined: Result<Vec<CandidateRange>, Failure>,
                built: Result<Vec<WorkItem>, Failure>,
            |
                candidates@ == ranges && #[trigger] call_ensures(
                    R::refine,
                    (refiner, candidates),
                    refined,
                ) && #[trigger] items_of_refinement(
                    record.deep_view(),
                    *evidence,
                    refined,
                    built,
                ) && stage::staged(items) == stage::as_refused(failure::outcome(built)),
        },
{
    match refuse_unready(record) {
        Err(refusal) => {
            return Err(StageError::refused(refusal));
        },
        Ok(_) => {},
    }
    let built = build_items_from_authority(record, evidence, merge_gap_ms, refiner);
    match built {
        Ok(items) => Ok(items),
        Err(refusal) => Err(StageError::refused(refusal)),
    }
}

/// What publishing a work manifest came to: the first of its two steps that
/// failed, or the sentence that reports it.
pub open spec fn publication(
    count: nat,
    session_id: Seq<char>,
    manifest_written: Result<(), Failure>,
    session_recorded: Result<(), Failure>,
) -> Result<Seq<char>, (bool, Seq<char>)> {
    match manifest_written {
        Err(refusal) => Err((true, refusal@)),
        Ok(_) => match session_recorded {
            Err(cause) => Err(
                (
                    true,
                    failure::because(
                        "work manifest was published but session.json could not record it"@,
                        cause@,
                    ),
                ),
            ),
            Ok(_) => Ok(
                "Published "@ + text::decimal(count)
                    + " chronological work item(s) for session "@ + session_id + "."@,
            ),
        },
    }
}

/// Judge the publication of a work manifest. From here on a failure is a
/// durable workflow fault.
pub fn judge_publication(
    items: &Vec<WorkItem>,
    session_id: &str,
    manifest_written: Result<(), Failure>,
    session_recorded: Result<(), Failure>,
) -> (report: Result<String, StageError<Failure>>)
    ensures
        stage::staged(report) == publication(
            items@.len(),
            session_id@,
            manifest_written,
            session_recorded,
        ),
{
    match manifest_written {
        Err(refusal) => {
            return Err(StageError::accepted(refusal));
        },
        Ok(_) => {},
    }
    match session_recorded {
        Err(cause) => Err(
            StageError::accepted(
                Failure::caused(
                    "work manifest was published but session.json could not record it".to_owned(),
                    &cause,
                ),
            ),
        ),
        Ok(_) => Ok(
            "Published ".to_owned().concat(text::decimal_text(items.len() as u64).as_str()).concat(
                " chronological work item(s) for session ",
            ).concat(session_id).concat("."),
        ),
    }
}

} // verus!
