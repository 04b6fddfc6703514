//! Validation gate for explicit workflow continuation after operator action.
//!
//! Historical failures remain evidence. This gate asks whether their present
//! consequences have been repaired and whether authoritative evidence is still
//! healthy; it does not erase old records.

use std::collections::BTreeSet;

use vstd::prelude::*;

use crate::failure;
use crate::failure::Failure;
use crate::order;
use crate::session::CheckpointView;
use crate::session::FailureRecord;
use crate::session::FailureView;
use crate::session::SessionRecord;
use crate::session::SessionView;
use crate::session::WorkflowState;
use crate::session::PREVIOUS_SESSION_FORMAT_VERSION;
use crate::session::RECORDING_SESSION_FORMAT_VERSION;
use crate::text;
use crate::track_manifest::ManifestView;
use crate::track_manifest::TrackManifest;
use crate::track_manifest::TrackState;
use crate::track_manifest::TrackView;
use crate::work_authority;
use crate::work_authority::Activity;
use crate::work_authority::ActivityReplay;
use crate::work_items;

verus! {

broadcast use vstd::std_specs::btree::group_btree_axioms;

/// The users whose tracks were begun to be recovered, and those whose recovery
/// was completed.
#[derive(Debug)]
pub struct RecoveryEvidence {
    started_users: BTreeSet<u64>,
    completed_users: BTreeSet<u64>,
}

pub struct RecoveryView {
    pub started: Set<u64>,
    pub completed: Set<u64>,
}

impl DeepView for RecoveryEvidence {
    type V = RecoveryView;

    closed spec fn deep_view(&self) -> RecoveryView {
        RecoveryView { started: self.started_users@, completed: self.completed_users@ }
    }
}

pub open spec fn checkpoint_user(value: Seq<char>) -> Result<u64, Seq<char>> {
    match text::parsed_u64(value) {
        Some(id) if id != 0 => Ok(id),
        _ => Err(
            "invalid recovery checkpoint Discord user ID "@ + text::debug_form(value),
        ),
    }
}

/// Read the user of a recovery checkpoint.
pub fn parse_checkpoint_user(value: &str) -> (user: Result<u64, Failure>)
    ensures
        failure::outcome(user) == checkpoint_user(value@),
{
    match text::parse_u64(value) {
        Some(id) if id != 0 => Ok(id),
        _ => Err(
            Failure::new(
                "invalid recovery checkpoint Discord user ID ".to_owned().concat(
                    text::debug_text(value).as_str(),
                ),
            ),
        ),
    }
}

/// A set of users with the user that a checkpoint stage names behind a prefix,
/// if it does.
pub open spec fn with_stage_user(users: Set<u64>, stage: Seq<char>, prefix: Seq<char>) -> Result<
    Set<u64>,
    Seq<char>,
> {
    match text::after_prefix(stage, prefix) {
        None => Ok(users),
        Some(value) => match checkpoint_user(value) {
            Ok(user) => Ok(users.insert(user)),
            Err(message) => Err(message),
        },
    }
}

/// The recovery evidence of checkpoints, or the first malformed one.
pub open spec fn recovery_of(
    checkpoints: Seq<CheckpointView>,
    started_prefix: Seq<char>,
    completed_prefix: Seq<char>,
) -> Result<RecoveryView, Seq<char>>
    decreases checkpoints.len(),
{
    if checkpoints.len() == 0 {
        Ok(RecoveryView { started: Set::empty(), completed: Set::empty() })
    } else {
        match recovery_of(checkpoints.drop_last(), started_prefix, completed_prefix) {
            Err(message) => Err(message),
            Ok(evidence) => {
                let stage = checkpoints.last().stage;
                match with_stage_user(evidence.started, stage, started_prefix) {
                    Err(message) => Err(message),
                    Ok(started) => match with_stage_user(
                        evidence.completed,
                        stage,
                        completed_prefix,
                    ) {
                        Err(message) => Err(message),
                        Ok(completed) => Ok(RecoveryView { started, completed }),
                    },
                }
            },
        }
    }
}

proof fn lemma_recovery_stops(
    checkpoints: Seq<CheckpointView>,
    started_prefix: Seq<char>,
    completed_prefix: Seq<char>,
    count: int,
)
    requires
        0 <= count <= checkpoints.len(),
        recovery_of(checkpoints.take(count), started_prefix, completed_prefix) is Err,
    ensures
        recovery_of(checkpoints, started_prefix, completed_prefix) == recovery_of(
            checkpoints.take(count),
            started_prefix,
            completed_prefix,
        ),
    decreases checkpoints.len(),
{
    if count == checkpoints.len() {
        assert(checkpoints.take(count) =~= checkpoints);
    } else {
        assert(checkpoints.drop_last().take(count) =~= checkpoints.take(count));
        lemma_recovery_stops(checkpoints.drop_last(), started_prefix, completed_prefix, count);
    }
}

fn note_stage_user(users: &mut BTreeSet<u64>, stage: &str, prefix: &str) -> (result: Result<
    (),
    Failure,
>)
    ensures
        match with_stage_user(old(users)@, stage@, prefix@) {
            Ok(expected) => result is Ok && final(users)@ == expected,
            Err(message) => failure::outcome(result) == Err::<(), Seq<char>>(message),
        },
{
    match text::strip_prefix(stage, prefix) {
        None => Ok(()),
        Some(value) => match parse_checkpoint_user(value) {
            Err(refusal) => Err(refusal),
            Ok(user) => {
                users.insert(user);
                Ok(())
            },
        },
    }
}

pub open spec fn unfinished_recovery(evidence: RecoveryView) -> Option<Seq<char>> {
    let unfinished = evidence.started.difference(evidence.completed);
    if unfinished.len() > 0 {
        Some(
            "recovery has no durable successful result for Discord users "@
                + work_items::comma_joined(order::ascending(unfinished)),
        )
    } else {
        None
    }
}

impl RecoveryEvidence {
    /// What the checkpoints of a session say of recovered users.
    pub fn from_session(record: &SessionRecord, started_prefix: &str, completed_prefix: &str) -> (evidence:
        Result<RecoveryEvidence, Failure>)
        ensures
            failure::outcome(evidence) == recovery_of(
                record.deep_view().checkpoints,
                started_prefix@,
                completed_prefix@,
            ),
    {
        let ghost checkpoints = record.deep_view().checkpoints;
        let mut started_users: BTreeSet<u64> = BTreeSet::new();
        let mut completed_users: BTreeSet<u64> = BTreeSet::new();
        let mut index: usize = 0;
        assert(checkpoints.take(0) =~= Seq::<CheckpointView>::empty());
        while index < record.checkpoints.len()
            invariant
                index <= record.checkpoints.len(),
                checkpoints == record.deep_view().checkpoints,
                recovery_of(
                    checkpoints.take(index as int),
                    started_prefix@,
                    completed_prefix@,
                ) == Ok::<RecoveryView, Seq<char>>(
                    RecoveryView { started: started_users@, completed: completed_users@ },
                ),
            decreases record.checkpoints.len() - index,
        {
            let stage = record.checkpoints[index].stage.as_str();
            proof {
                let longer = checkpoints.take(index + 1);
                assert(longer.drop_last() =~= checkpoints.take(index as int));
                assert(longer.last() == record.checkpoints@[index as int].deep_view());
                if recovery_of(longer, started_prefix@, completed_prefix@) is Err {
                    lemma_recovery_stops(
                        checkpoints,
                        started_prefix@,
                        completed_prefix@,
                        index + 1,
                    );
                }
            }
            match note_stage_user(&mut started_users, stage, started_prefix) {
                Err(refusal) => {
                    return Err(refusal);
                },
                Ok(_) => {},
            }
            match note_stage_user(&mut completed_users, stage, completed_prefix) {
                Err(refusal) => {
                    return Err(refusal);
                },
                Ok(_) => {},
            }
            index = index + 1;
        }
        assert(checkpoints.take(checkpoints.len() as int) =~= checkpoints);
        Ok(RecoveryEvidence { started_users, completed_users })
    }

    /// Whether the recovery of a user was completed.
    pub fn completed(&self, user: u64) -> (result: bool)
        ensures
            result == self.deep_view().completed.contains(user),
    {
        self.completed_users.contains(&user)
    }

    /// Whether no recovery was completed.
    pub fn nothing_completed(&self) -> (result: bool)
        ensures
            result == (self.deep_view().completed == Set::<u64>::empty()),
    {
        let completed = order::ascending_members(&self.completed_users);
        proof {
            if completed@.len() > 0 {
                assert(completed@.to_set().contains(completed@[0]));
            } else {
                assert(completed@.to_set() =~= Set::<u64>::empty());
            }
        }
        completed.len() == 0
    }

    /// Require every recovery that was begun to have been completed.
    pub fn validate_complete_attempts(&self) -> (result: Result<(), Failure>)
        ensures
            failure::outcome(result) == (match unfinished_recovery(self.deep_view()) {
                Some(fault) => Err::<(), Seq<char>>(fault),
                None => Ok(()),
            }),
    {
        let started = order::ascending_members(&self.started_users);
        let mut unfinished: Vec<u64> = Vec::new();
        let mut index: usize = 0;
        while index < started.len()
            invariant
                index <= started.len(),
                started@.to_set() == self.deep_view().started,
                forall|n: u64|
                    unfinished@.contains(n) <==> (started@.take(index as int).contains(n)
                        && !self.deep_view().completed.contains(n)),
            decreases started.len() - index,
        {
            let user: u64 = started[index];
            let ghost before = unfinished@;
            let ghost earlier = started@.take(index as int);
            let ghost longer = started@.take(index + 1);
            assert(longer =~= earlier.push(user));
            let recovered = self.completed(user);
            if !recovered {
                unfinished.push(user);
            }
            proof {
                assert forall|n: u64|
                    unfinished@.contains(n) <==> (longer.contains(n)
                        && !self.deep_view().completed.contains(n)) by {
                    lemma_push_contains(earlier, user, n);
                    lemma_push_contains(before, user, n);
                }
            }
            index = index + 1;
        }
        assert(started@.take(started@.len() as int) =~= started@);
        let ghost expected = self.deep_view().started.difference(self.deep_view().completed);
        proof {
            assert forall|n: u64| unfinished@.to_set().contains(n) == expected.contains(n) by {
                assert(started@.to_set().contains(n) == started@.contains(n));
            }
            assert(unfinished@.to_set() =~= expected);
            vstd::seq_lib::seq_to_set_is_finite(unfinished@);
            if unfinished@.len() > 0 {
                assert(unfinished@.to_set().contains(unfinished@[0]));
                assert(expected.len() > 0) by {
                    if expected.len() == 0 {
                        assert(expected =~= Set::<u64>::empty());
                    }
                }
            } else {
                assert(expected =~= Set::<u64>::empty());
            }
        }
        if unfinished.len() > 0 {
            let listing = order::distinct_ascending(&unfinished);
            return Err(
                Failure::new(
                    "recovery has no durable successful result for Discord users ".to_owned().concat(
                    work_items::comma_join(&listing).as_str()),
                ),
            );
        }
        Ok(())
    }
}

proof fn lemma_push_contains(items: Seq<u64>, added: u64, wanted: u64)
    ensures
        items.push(added).contains(wanted) == (items.contains(wanted) || wanted == added),
{
    if items.contains(wanted) {
        let i = choose|i: int| 0 <= i < items.len() && items[i] == wanted;
        assert(items.push(added)[i] == wanted);
    }
    if wanted == added {
        assert(items.push(added)[items.len() as int] == wanted);
    }
    if items.push(added).contains(wanted) && wanted != added {
        let i = choose|i: int| 0 <= i < items.push(added).len() && items.push(added)[i] == wanted;
        assert(items[i] == wanted);
    }
}

/// The counts of one aggregate sentence: how many records were rejected, and
/// how many of those were decoded audio.
pub open spec fn drop_counts(message: Seq<char>) -> Option<(u64, u64)> {
    match text::after_prefix(message, "capture queue rejected "@) {
        None => None,
        Some(rejected) => match text::parted(rejected, " records while full and "@) {
            None => None,
            Some((full, after_full)) => match text::parted(
                after_full,
                " records after closure, including "@,
            ) {
                None => None,
                Some((closed, after_closed)) => match text::parted(
                    after_closed,
                    " decoded-audio records"@,
                ) {
                    None => None,
                    Some((audio, rest)) => if rest.len() != 0 {
                        None
                    } else {
                        match (
                            text::parsed_u64(full),
                            text::parsed_u64(closed),
                            text::parsed_u64(audio),
                        ) {
                            (Some(full), Some(closed), Some(audio)) => if full + closed
                                <= u64::MAX {
                                Some(((full + closed) as u64, audio))
                            } else {
                                None
                            },
                            _ => None,
                        }
                    },
                },
            },
        },
    }
}

/// Read the aggregate sentence of older recordings on rejected records.
pub fn legacy_capture_drop_counts(message: &str) -> (counts: Option<(u64, u64)>)
    ensures
        counts == drop_counts(message@),
{
    let after_rejected = match text::strip_prefix(message, "capture queue rejected ") {
        Some(rest) => rest,
        None => {
            return None;
        },
    };
    let (full, after_full) = match text::split_once(after_rejected, " records while full and ") {
        Some(parts) => parts,
        None => {
            return None;
        },
    };
    let (closed, after_closed) = match text::split_once(
        after_full,
        " records after closure, including ",
    ) {
        Some(parts) => parts,
        None => {
            return None;
        },
    };
    let (audio, suffix) = match text::split_once(after_closed, " decoded-audio records") {
        Some(parts) => parts,
        None => {
            return None;
        },
    };
    if !suffix.is_empty() {
        return None;
    }
    match (text::parse_u64(full), text::parse_u64(closed), text::parse_u64(audio)) {
        (Some(full), Some(closed), Some(audio)) => match full.checked_add(closed) {
            Some(total) => Some((total, audio)),
            None => None,
        },
        _ => None,
    }
}

/// What recorded failures ask of the tracks.
#[derive(Clone, Copy, Debug, PartialEq, Eq, Structural)]
pub struct Consequences {
    /// Some track was damaged while it was derived.
    pub derived_track_fault: bool,
    /// Decoded audio was lost, so every track must be recovered.
    pub all_tracks_must_be_recovered: bool,
}

/// What one failure asks, beside what is asked already; or why it cannot be
/// repaired by recovering tracks.
pub open spec fn consequence(fault: FailureView, earlier: Consequences) -> Result<
    Consequences,
    Seq<char>,
> {
    let audio_lost = Consequences { derived_track_fault: true, all_tracks_must_be_recovered: true };
    if fault.kind == "capture_consumer"@ || fault.kind == "capture_consumer_task"@ || fault.kind
        == "capture_authoritative_drop"@ {
        Err("authoritative recording fault remains unresolved: "@ + fault.message)
    } else if fault.kind == "capture_queue_drop"@ {
        match drop_counts(fault.message) {
            Some((total, audio)) if total == audio && audio > 0 => Ok(audio_lost),
            _ => Err(
                "capture queue loss may include authoritative records and remains unresolved: "@
                    + fault.message,
            ),
        }
    } else if fault.kind == "capture_audio_drop"@ {
        Ok(audio_lost)
    } else if fault.kind == "live_flac_encoder"@ || fault.kind == "live_flac_queue_full"@
        || fault.kind == "live_flac_queue_closed"@ || fault.kind == "live_flac_finalization"@
        || fault.kind == "live_track_incomplete"@ || fault.kind == "unresolved_ssrc"@ {
        Ok(Consequences { derived_track_fault: true, ..earlier })
    } else {
        Ok(earlier)
    }
}

pub open spec fn consequences(failures: Seq<FailureView>) -> Result<Consequences, Seq<char>>
    decreases failures.len(),
{
    if failures.len() == 0 {
        Ok(Consequences { derived_track_fault: false, all_tracks_must_be_recovered: false })
    } else {
        match consequences(failures.drop_last()) {
            Err(message) => Err(message),
            Ok(earlier) => consequence(failures.last(), earlier),
        }
    }
}

proof fn lemma_consequences_stop(failures: Seq<FailureView>, count: int)
    requires
        0 <= count <= failures.len(),
        consequences(failures.take(count)) is Err,
    ensures
        consequences(failures) == consequences(failures.take(count)),
    decreases failures.len(),
{
    if count == failures.len() {
        assert(failures.take(count) =~= failures);
    } else {
        assert(failures.drop_last().take(count) =~= failures.take(count));
        lemma_consequences_stop(failures.drop_last(), count);
    }
}

/// The users of tracks whose recovery was not completed, in order.
pub open spec fn unrecovered(tracks: Seq<TrackView>, completed: Set<u64>) -> Seq<u64>
    decreases tracks.len(),
{
    if tracks.len() == 0 {
        Seq::empty()
    } else {
        let earlier = unrecovered(tracks.drop_last(), completed);
        match tracks.last().numeric_id() {
            Some(user) => if completed.contains(user) {
                earlier
            } else {
                earlier.push(user)
            },
            None => earlier,
        }
    }
}

/// Why recorded failures still stand in the way.
pub open spec fn historical_fault(
    failures: Seq<FailureView>,
    tracks: Seq<TrackView>,
    recovery: RecoveryView,
) -> Option<Seq<char>> {
    match consequences(failures) {
        Err(message) => Some(message),
        Ok(asked) => if asked.derived_track_fault && recovery.completed == Set::<u64>::empty() {
            Some("derived track failures remain without a durable successful recovery result"@)
        } else if asked.all_tracks_must_be_recovered && unrecovered(
            tracks,
            recovery.completed,
        ).len() > 0 {
            Some(
                "decoded-audio ingress loss requires recovery of every routine track; missing users "@
                    + work_items::comma_joined(unrecovered(tracks, recovery.completed)),
            )
        } else {
            None
        },
    }
}

fn is_derived_track_fault(kind: &str) -> (result: bool)
    ensures
        result == (kind@ == "live_flac_encoder"@ || kind@ == "live_flac_queue_full"@ || kind@
            == "live_flac_queue_closed"@ || kind@ == "live_flac_finalization"@ || kind@
            == "live_track_incomplete"@ || kind@ == "unresolved_ssrc"@),
{
    text::same_text(kind, "live_flac_encoder") || text::same_text(kind, "live_flac_queue_full")
        || text::same_text(kind, "live_flac_queue_closed") || text::same_text(
        kind,
        "live_flac_finalization",
    ) || text::same_text(kind, "live_track_incomplete") || text::same_text(kind, "unresolved_ssrc")
}

fn weigh_failure(fault: &FailureRecord, earlier: Consequences) -> (result: Result<
    Consequences,
    Failure,
>)
    ensures
        match consequence(fault.deep_view(), earlier) {
            Ok(asked) => result == Ok::<Consequences, Failure>(asked),
            Err(message) => result matches Err(refusal) && refusal@ == message,
        },
{
    let kind = fault.kind.as_str();
    let audio_lost = Consequences { derived_track_fault: true, all_tracks_must_be_recovered: true };
    if text::same_text(kind, "capture_consumer") || text::same_text(kind, "capture_consumer_task")
        || text::same_text(kind, "capture_authoritative_drop") {
        return Err(
            Failure::new(
                "authoritative recording fault remains unresolved: ".to_owned().concat(
                    fault.message.as_str(),
                ),
            ),
        );
    }
    if text::same_text(kind, "capture_queue_drop") {
        return match legacy_capture_drop_counts(fault.message.as_str()) {
            Some((total, audio)) if total == audio && audio > 0 => Ok(audio_lost),
            _ => Err(
                Failure::new(
                    "capture queue loss may include authoritative records and remains unresolved: ".to_owned().concat(
                    fault.message.as_str()),
                ),
            ),
        };
    }
    if text::same_text(kind, "capture_audio_drop") {
        return Ok(audio_lost);
    }
    if is_derived_track_fault(kind) {
        return Ok(
            Consequences {
                derived_track_fault: true,
                all_tracks_must_be_recovered: earlier.all_tracks_must_be_recovered,
            },
        );
    }
    Ok(earlier)
}

fn find_unrecovered(manifest: &TrackManifest, recovery: &RecoveryEvidence) -> (users: Vec<u64>)
    ensures
        users@ == unrecovered(manifest.deep_view().tracks, recovery.deep_view().completed),
{
    let ghost tracks = manifest.deep_view().tracks;
    let ghost completed = recovery.deep_view().completed;
    let mut users: Vec<u64> = Vec::new();
    let mut index: usize = 0;
    assert(tracks.take(0) =~= Seq::<TrackView>::empty());
    while index < manifest.tracks.len()
        invariant
            index <= manifest.tracks.len(),
            tracks == manifest.deep_view().tracks,
            completed == recovery.deep_view().completed,
            users@ == unrecovered(tracks.take(index as int), completed),
        decreases manifest.tracks.len() - index,
    {
        let track = &manifest.tracks[index];
        proof {
            let longer = tracks.take(index + 1);
            assert(longer.drop_last() =~= tracks.take(index as int));
            assert(longer.last() == track.deep_view());
        }
        match text::parse_u64(track.discord_user_id.as_str()) {
            Some(user) => {
                if !recovery.completed(user) {
                    users.push(user);
                }
            },
            None => {},
        }
        index = index + 1;
    }
    assert(tracks.take(tracks.len() as int) =~= tracks);
    users
}

/// Require every recorded failure to have been repaired as far as recovering
/// tracks can repair it.
pub fn validate_historical_failures(
    failures: &Vec<FailureRecord>,
    manifest: &TrackManifest,
    recovery: &RecoveryEvidence,
) -> (result: Result<(), Failure>)
    requires
        work_items::numeric(manifest.deep_view()),
    ensures
        failure::outcome(result) == (match historical_fault(
            failures.deep_view(),
            manifest.deep_view().tracks,
            recovery.deep_view(),
        ) {
            Some(fault) => Err::<(), Seq<char>>(fault),
            None => Ok(()),
        }),
{
    let ghost views = failures.deep_view();
    let mut asked = Consequences {
        derived_track_fault: false,
        all_tracks_must_be_recovered: false,
    };
    let mut index: usize = 0;
    assert(views.take(0) =~= Seq::<FailureView>::empty());
    while index < failures.len()
        invariant
            index <= failures.len(),
            views == failures.deep_view(),
            consequences(views.take(index as int)) == Ok::<Consequences, Seq<char>>(asked),
        decreases failures.len() - index,
    {
        let fault = &failures[index];
        proof {
            let longer = views.take(index + 1);
            assert(longer.drop_last() =~= views.take(index as int));
            assert(longer.last() == fault.deep_view());
            if consequences(longer) is Err {
                lemma_consequences_stop(views, index + 1);
            }
        }
        match weigh_failure(fault, asked) {
            Err(refusal) => {
                return Err(refusal);
            },
            Ok(more) => {
                asked = more;
            },
        }
        index = index + 1;
    }
    assert(views.take(views.len() as int) =~= views);
    if asked.derived_track_fault && recovery.nothing_completed() {
        return Err(
            Failure::from_text(
                "derived track failures remain without a durable successful recovery result",
            ),
        );
    }
    if asked.all_tracks_must_be_recovered {
        let users = find_unrecovered(manifest, recovery);
        if users.len() > 0 {
            return Err(
                Failure::new(
                    "decoded-audio ingress loss requires recovery of every routine track; missing users ".to_owned().concat(
                    work_items::comma_join(&users).as_str()),
                ),
            );
        }
    }
    Ok(())
}

/// The evidence on which a recording is continued. A part that could not be
/// read holds the refusal to report.
#[derive(Debug)]
pub struct ContinuationEvidence {
    pub participants: Result<(), Failure>,
    pub tracks: Result<TrackManifest, Failure>,
    pub unresolved_ssrcs: Result<Vec<u64>, Failure>,
    pub replay: Result<ActivityReplay, Failure>,
}

impl ContinuationEvidence {
    /// Where a manifest was read, its tracks are numbered.
    pub open spec fn wf(self) -> bool {
        self.tracks matches Ok(tracks) ==> work_items::numeric(tracks.deep_view())
    }
}

/// Refuse a session that does not wait for its operator with its recording.
pub open spec fn gate_fault(record: SessionView) -> Option<Seq<char>> {
    if record.state != WorkflowState::AwaitingOperator || (record.format
        != PREVIOUS_SESSION_FORMAT_VERSION && record.format != RECORDING_SESSION_FORMAT_VERSION)
        || record.files.results is Some {
        Some(
            "continue <session> requires a format-3 or format-4 awaiting_operator session without transcription results; found format "@
                + text::decimal(record.format as nat) + " state "@ + record.state.name(),
        )
    } else {
        None
    }
}

/// The users of complete tracks, in order.
pub open spec fn complete_users(tracks: Seq<TrackView>) -> Seq<u64>
    decreases tracks.len(),
{
    if tracks.len() == 0 {
        Seq::empty()
    } else {
        let earlier = complete_users(tracks.drop_last());
        match tracks.last().numeric_id() {
            Some(user) if tracks.last().state == TrackState::Complete => earlier.push(user),
            _ => earlier,
        }
    }
}

/// The users of activity who have no complete track, in order of activity.
pub open spec fn missing_users(activities: Seq<Activity>, complete: Seq<u64>) -> Seq<u64>
    decreases activities.len(),
{
    if activities.len() == 0 {
        Seq::empty()
    } else {
        let earlier = missing_users(activities.drop_last(), complete);
        match activities.last().discord_user_id {
            Some(user) if !complete.contains(user) => earlier.push(user),
            _ => earlier,
        }
    }
}

/// Why a replay and the recorded tracks do not support continuing.
pub open spec fn replay_fault(replay: ActivityReplay, tracks: Seq<TrackView>) -> Option<Seq<char>> {
    let left_over = work_authority::unattributed(replay.activities@);
    let missing = missing_users(replay.activities@, complete_users(tracks));
    if replay.truncated_packet_tail || replay.truncated_playout_tail {
        Some("cannot continue with a truncated authoritative journal tail"@)
    } else if replay.skipped_undecoded > 0 {
        Some(
            "cannot continue: "@ + text::decimal(replay.skipped_undecoded as nat)
                + " playout decisions lack decoded-sample evidence"@,
        )
    } else if left_over.len() > 0 {
        Some(
            "cannot continue: decoded PCM cannot be attributed safely for SSRCs "@
                + work_items::comma_joined(order::ascending(left_over.to_set())),
        )
    } else if missing.len() > 0 {
        Some(
            "cannot continue: attributable PCM has no complete routine track for Discord users "@
                + work_items::comma_joined(order::ascending(missing.to_set())),
        )
    } else {
        None
    }
}

/// The first objection to what is known of a recording with its manifest and
/// recovery evidence.
pub open spec fn recording_fault(
    record: SessionView,
    manifest: ManifestView,
    recovery: RecoveryView,
    unresolved: Result<Seq<u64>, Seq<char>>,
    replay: Result<ActivityReplay, Failure>,
) -> Option<Seq<char>> {
    match unfinished_recovery(recovery) {
        Some(fault) => Some(fault),
        None => match unresolved {
            Err(message) => Some(message),
            Ok(unresolved) => if unresolved.len() > 0 {
                Some(
                    "cannot continue while SSRC mapping evidence remains unresolved for "@
                        + work_items::comma_joined(order::ascending(unresolved.to_set())),
                )
            } else {
                match replay {
                    Err(refusal) => Some(refusal@),
                    Ok(replay) => match replay_fault(replay, manifest.tracks) {
                        Some(fault) => Some(fault),
                        None => historical_fault(record.failures, manifest.tracks, recovery),
                    },
                }
            },
        },
    }
}

/// The first objection to continuing a recording.
pub open spec fn continuation_objection(
    record: SessionView,
    evidence: ContinuationEvidence,
    started_prefix: Seq<char>,
    completed_prefix: Seq<char>,
) -> Option<Seq<char>> {
    match gate_fault(record) {
        Some(fault) => Some(fault),
        None => match (evidence.participants, evidence.tracks) {
            (Err(refusal), _) => Some(refusal@),
            (Ok(_), Err(refusal)) => Some(refusal@),
            (Ok(_), Ok(manifest)) => if manifest.session_id@ != record.session_id {
                Some(
                    "track manifest session ID "@ + text::debug_form(manifest.session_id@)
                        + " does not match session.json ID "@ + text::debug_form(
                        record.session_id,
                    ),
                )
            } else {
                match recovery_of(record.checkpoints, started_prefix, completed_prefix) {
                    Err(message) => Some(message),
                    Ok(recovery) => recording_fault(
                        record,
                        manifest.deep_view(),
                        recovery,
                        failure::listing(evidence.unresolved_ssrcs),
                        evidence.replay,
                    ),
                }
            },
        },
    }
}

fn find_complete_users(manifest: &TrackManifest) -> (users: Vec<u64>)
    ensures
        users@ == complete_users(manifest.deep_view().tracks),
{
    let ghost tracks = manifest.deep_view().tracks;
    let mut users: Vec<u64> = Vec::new();
    let mut index: usize = 0;
    assert(tracks.take(0) =~= Seq::<TrackView>::empty());
    while index < manifest.tracks.len()
        invariant
            index <= manifest.tracks.len(),
            tracks == manifest.deep_view().tracks,
            users@ == complete_users(tracks.take(index as int)),
        decreases manifest.tracks.len() - index,
    {
        let track = &manifest.tracks[index];
        proof {
            let longer = tracks.take(index + 1);
            assert(longer.drop_last() =~= tracks.take(index as int));
            assert(longer.last() == track.deep_view());
        }
        match text::parse_u64(track.discord_user_id.as_str()) {
            Some(user) => {
                if track.state == TrackState::Complete {
                    users.push(user);
                }
            },
            None => {},
        }
        index = index + 1;
    }
    assert(tracks.take(tracks.len() as int) =~= tracks);
    users
}

fn holds(users: &Vec<u64>, wanted: u64) -> (result: bool)
    ensures
        result == users@.contains(wanted),
{
    let mut index: usize = 0;
    while index < users.len()
        invariant
            index <= users.len(),
            forall|i: int| 0 <= i < index ==> users@[i] != wanted,
        decreases users.len() - index,
    {
        if users[index] == wanted {
            return true;
        }
        index = index + 1;
    }
    false
}

fn find_missing_users(activities: &Vec<Activity>, complete: &Vec<u64>) -> (users: Vec<u64>)
    ensures
        users@ == missing_users(activities@, complete@),
{
    let mut users: Vec<u64> = Vec::new();
    let mut index: usize = 0;
    assert(activities@.take(0) =~= Seq::<Activity>::empty());
    while index < activities.len()
        invariant
            index <= activities.len(),
            users@ == missing_users(activities@.take(index as int), complete@),
        decreases activities.len() - index,
    {
        proof {
            let longer = activities@.take(index + 1);
            assert(longer.drop_last() =~= activities@.take(index as int));
            assert(longer.last() == activities@[index as int]);
        }
        match activities[index].discord_user_id {
            Some(user) => {
                if !holds(complete, user) {
                    users.push(user);
                }
            },
            None => {},
        }
        index = index + 1;
    }
    assert(activities@.take(activities@.len() as int) =~= activities@);
    users
}

fn validate_replay(replay: &ActivityReplay, manifest: &TrackManifest) -> (result: Result<
    (),
    Failure,
>)
    ensures
        failure::outcome(result) == (match replay_fault(*replay, manifest.deep_view().tracks) {
            Some(fault) => Err::<(), Seq<char>>(fault),
            None => Ok(()),
        }),
{
    if replay.truncated_packet_tail || replay.truncated_playout_tail {
        return Err(
            Failure::from_text("cannot continue with a truncated authoritative journal tail"),
        );
    }
    if replay.skipped_undecoded > 0 {
        return Err(
            Failure::new(
                "cannot continue: ".to_owned().concat(
                    text::decimal_text(replay.skipped_undecoded).as_str(),
                ).concat(" playout decisions lack decoded-sample evidence"),
            ),
        );
    }
    let (_, left_over) = work_authority::attribute(&replay.activities);
    if left_over.len() > 0 {
        let listing = order::distinct_ascending(&left_over);
        return Err(
            Failure::new(
                "cannot continue: decoded PCM cannot be attributed safely for SSRCs ".to_owned().concat(
                work_items::comma_join(&listing).as_str()),
            ),
        );
    }
    let complete = find_complete_users(manifest);
    let missing = find_missing_users(&replay.activities, &complete);
    if missing.len() > 0 {
        let listing = order::distinct_ascending(&missing);
        return Err(
            Failure::new(
                "cannot continue: attributable PCM has no complete routine track for Discord users ".to_owned().concat(
                work_items::comma_join(&listing).as_str()),
            ),
        );
    }
    Ok(())
}

/// Decide whether a recording that waits for its operator may be continued. An
/// accepted recording still has its tracks decoded and verified.
pub fn run(
    record: &SessionRecord,
    evidence: &ContinuationEvidence,
    started_prefix: &str,
    completed_prefix: &str,
) -> (result: Result<(), Failure>)
    requires
        evidence.wf(),
    ensures
        failure::outcome(result) == (match continuation_objection(
            record.deep_view(),
            *evidence,
            started_prefix@,
            completed_prefix@,
        ) {
            Some(fault) => Err::<(), Seq<char>>(fault),
            None => Ok(()),
        }),
{
    if record.state != WorkflowState::AwaitingOperator || (record.format
        != PREVIOUS_SESSION_FORMAT_VERSION && record.format != RECORDING_SESSION_FORMAT_VERSION)
        || record.files.results.is_some() {
        return Err(
            Failure::new(
                "continue <session> requires a format-3 or format-4 awaiting_operator session without transcription results; found format ".to_owned().concat(
                text::decimal_text(record.format as u64).as_str()).concat(" state ").concat(
                    record.state.as_str(),
                ),
            ),
        );
    }
    match &evidence.participants {
        Err(refusal) => {
            return Err(Failure::from_text(refusal.text()));
        },
        Ok(_) => {},
    }
    let manifest = match &evidence.tracks {
        Err(refusal) => {
            return Err(Failure::from_text(refusal.text()));
        },
        Ok(manifest) => manifest,
    };
    if manifest.session_id != record.session_id {
        return Err(
            Failure::new(
                "track manifest session ID ".to_owned().concat(
                    text::debug_text(manifest.session_id.as_str()).as_str(),
                ).concat(" does not match session.json ID ").concat(
                    text::debug_text(record.session_id.as_str()).as_str(),
                ),
            ),
        );
    }
    let recovery = match RecoveryEvidence::from_session(
        record,
        started_prefix,
        completed_prefix,
    ) {
        Err(refusal) => {
            return Err(refusal);
        },
        Ok(recovery) => recovery,
    };
    match recovery.validate_complete_attempts() {
        Err(refusal) => {
            return Err(refusal);
        },
        Ok(_) => {},
    }
    match &evidence.unresolved_ssrcs {
        Err(refusal) => {
            return Err(Failure::from_text(refusal.text()));
        },
        Ok(unresolved) => {
            if unresolved.len() > 0 {
                let listing = order::distinct_ascending(unresolved);
                return Err(
                    Failure::new(
                        "cannot continue while SSRC mapping evidence remains unresolved for ".to_owned().concat(
                        work_items::comma_join(&listing).as_str()),
                    ),
                );
            }
        },
    }
    match &evidence.replay {
        Err(refusal) => {
            return Err(Failure::from_text(refusal.text()));
        },
        Ok(replay) => match validate_replay(replay, manifest) {
            Err(refusal) => {
                return Err(refusal);
            },
            Ok(_) => {},
        },
    }
    validate_historical_failures(&record.failures, manifest, &recovery)
}

/// The checkpoint that records a validated continuation.
pub const CONTINUATION_CHECKPOINT: &'static str = "recording_continuation_validated";

/// The kind of the failure recorded when a validated continuation could not be
/// published.
pub const CONTINUATION_FAILURE_KIND: &'static str = "recording_continuation";

/// What publishing a validated continuation came to: the sentence that reports
/// it, or the one that is recorded and reported.
pub open spec fn publication(
    verified_tracks: u64,
    session_id: Seq<char>,
    transitioned: Result<(), Seq<char>>,
) -> Result<Seq<char>, Seq<char>> {
    match transitioned {
        Err(cause) => Err(
            "failed to publish ready_for_transcription after validation: "@ + cause,
        ),
        Ok(_) => Ok(
            "Validated "@ + text::decimal(verified_tracks as nat)
                + " routine track(s); session "@ + session_id
                + " is ready for transcription."@,
        ),
    }
}

/// Judge the publication of a validated continuation.
pub fn judge_publication(
    verified_tracks: u64,
    session_id: &str,
    transitioned: &Result<(), Failure>,
) -> (report: Result<String, Failure>)
    ensures
        failure::outcome(report) == publication(
            verified_tracks,
            session_id@,
            failure::outcome(*transitioned),
        ),
{
    match transitioned {
        Err(cause) => Err(
            Failure::new(
                "failed to publish ready_for_transcription after validation: ".to_owned().concat(
                    cause.text(),
                ),
            ),
        ),
        Ok(_) => Ok(
            "Validated ".to_owned().concat(text::decimal_text(verified_tracks).as_str()).concat(
                " routine track(s); session ",
            ).concat(session_id).concat(" is ready for transcription."),
        ),
    }
}

/// A loss that touched anything but decoded audio is never repaired by
/// recovering tracks, whatever was recovered.
pub proof fn authoritative_loss_always_blocks(
    failures: Seq<FailureView>,
    index: int,
    tracks: Seq<TrackView>,
    recovery: RecoveryView,
)
    requires
        0 <= index < failures.len(),
        failures[index].kind == "capture_consumer"@ || failures[index].kind
            == "capture_consumer_task"@ || failures[index].kind == "capture_authoritative_drop"@
            || (failures[index].kind == "capture_queue_drop"@ && !(drop_counts(
            failures[index].message,
        ) matches Some((total, audio)) && total == audio && audio > 0)),
    ensures
        historical_fault(failures, tracks, recovery) is Some,
{
    assert(consequences(failures) is Err) by {
        lemma_blocking_failure(failures, index);
    }
}

proof fn lemma_blocking_failure(failures: Seq<FailureView>, index: int)
    requires
        0 <= index < failures.len(),
        forall|earlier: Consequences| consequence(failures[index], earlier) is Err,
    ensures
        consequences(failures) is Err,
    decreases failures.len(),
{
    if index < failures.len() - 1 {
        assert(failures.drop_last()[index] == failures[index]);
        lemma_blocking_failure(failures.drop_last(), index);
    }
}

/// After decoded audio was lost, every track of the manifest must have been
/// recovered.
pub proof fn audio_loss_needs_every_track(
    failures: Seq<FailureView>,
    tracks: Seq<TrackView>,
    recovery: RecoveryView,
    track: int,
)
    requires
        0 <= track < tracks.len(),
        tracks[track].numeric_id() is Some,
        consequences(failures) matches Ok(asked) && asked.all_tracks_must_be_recovered,
        historical_fault(failures, tracks, recovery) is None,
    ensures
        recovery.completed.contains(tracks[track].numeric_id()->0),
{
    lemma_unrecovered_listed(tracks, recovery.completed, track);
}

proof fn lemma_unrecovered_listed(tracks: Seq<TrackView>, completed: Set<u64>, track: int)
    requires
        0 <= track < tracks.len(),
        tracks[track].numeric_id() is Some,
        unrecovered(tracks, completed).len() == 0,
    ensures
        completed.contains(tracks[track].numeric_id()->0),
    decreases tracks.len(),
{
    if track < tracks.len() - 1 {
        assert(tracks.drop_last()[track] == tracks[track]);
        lemma_unrecovered_listed(tracks.drop_last(), completed, track);
    }
}

} // verus!
