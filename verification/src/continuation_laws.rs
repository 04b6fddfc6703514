//! What continuing a recording asks of its checkpoints, failures and replay.

use vstd::prelude::*;

use crate::authority_laws;
use crate::continuation;
use crate::continuation::ContinuationEvidence;
use crate::continuation::RecoveryView;
use crate::failure;
use crate::session::CheckpointView;
use crate::session::FailureView;
use crate::session::SessionView;
use crate::session::WorkflowState;
use crate::text;
use crate::text_laws;
use crate::track_manifest::TrackState;
use crate::track_manifest::TrackView;
use crate::work_authority::Activity;
use crate::work_authority::ActivityReplay;

verus! {

/// A checkpoint is one of a recovery: its stage starts with the prefix.
pub open spec fn marks_recovery(checkpoint: CheckpointView, prefix: Seq<char>) -> bool {
    exists|rest: Seq<char>| checkpoint.stage == #[trigger] (prefix + rest)
}

/// A checkpoint is of the recovery of a user: its stage is the prefix and the
/// user's number.
pub open spec fn marks_user(checkpoint: CheckpointView, prefix: Seq<char>, user: u64) -> bool {
    exists|rest: Seq<char>|
        checkpoint.stage == #[trigger] (prefix + rest) && text::parsed_u64(rest) == Some(user)
}

/// Some checkpoint is of the recovery of a user.
pub open spec fn recovery_marked(
    checkpoints: Seq<CheckpointView>,
    prefix: Seq<char>,
    user: u64,
) -> bool {
    exists|i: int| 0 <= i < checkpoints.len() && marks_user(#[trigger] checkpoints[i], prefix, user)
}

/// Every checkpoint of a recovery names a user, who is never zero.
pub open spec fn recoveries_named(checkpoints: Seq<CheckpointView>, prefix: Seq<char>) -> bool {
    forall|i: int|
        0 <= i < checkpoints.len() && marks_recovery(#[trigger] checkpoints[i], prefix)
            ==> exists|user: u64| user != 0 && #[trigger] marks_user(checkpoints[i], prefix, user)
}

proof fn lemma_marked(checkpoint: CheckpointView, prefix: Seq<char>)
    ensures
        text::after_prefix(checkpoint.stage, prefix) is Some <==> marks_recovery(
            checkpoint,
            prefix,
        ),
        text::after_prefix(checkpoint.stage, prefix) matches Some(rest) ==> forall|user: u64|
            #[trigger] marks_user(checkpoint, prefix, user) <==> text::parsed_u64(rest) == Some(
                user,
            ),
        text::after_prefix(checkpoint.stage, prefix) is None ==> forall|user: u64| !#[trigger]
            marks_user(checkpoint, prefix, user),
{
    let stage = checkpoint.stage;
    if let Some(rest) = text::after_prefix(stage, prefix) {
        assert(stage =~= prefix + rest);
    }
    assert forall|rest: Seq<char>| stage == #[trigger] (prefix + rest) implies text::after_prefix(
        stage,
        prefix,
    ) == Some(rest) by {
        assert(stage.take(prefix.len() as int) =~= prefix);
        assert(stage.skip(prefix.len() as int) =~= rest);
    }
}

proof fn lemma_stage_user(
    checkpoints: Seq<CheckpointView>,
    prefix: Seq<char>,
    users: Set<u64>,
)
    requires
        checkpoints.len() > 0,
        users.finite(),
        recoveries_named(checkpoints.drop_last(), prefix),
        forall|user: u64| #[trigger]
            users.contains(user) <==> recovery_marked(checkpoints.drop_last(), prefix, user),
    ensures
        ({
            let added = continuation::with_stage_user(users, checkpoints.last().stage, prefix);
            &&& added is Ok <==> recoveries_named(checkpoints, prefix)
            &&& added matches Ok(more) ==> {
                &&& more.finite()
                &&& forall|user: u64| #[trigger]
                    more.contains(user) <==> recovery_marked(checkpoints, prefix, user)
            }
        }),
{
    let n = checkpoints.len() as int;
    let fewer = checkpoints.drop_last();
    let last = checkpoints.last();
    assert(checkpoints[n - 1] == last);
    lemma_marked(last, prefix);
    let added = continuation::with_stage_user(users, last.stage, prefix);
    assert forall|user: u64|
        recovery_marked(checkpoints, prefix, user) <==> #[trigger] recovery_marked(
            fewer,
            prefix,
            user,
        ) || marks_user(last, prefix, user) by {
        if recovery_marked(checkpoints, prefix, user) {
            let i = choose|i: int|
                0 <= i < checkpoints.len() && marks_user(#[trigger] checkpoints[i], prefix, user);
            if i < n - 1 {
                assert(fewer[i] == checkpoints[i]);
            }
        }
        if recovery_marked(fewer, prefix, user) {
            let i = choose|i: int|
                0 <= i < fewer.len() && marks_user(#[trigger] fewer[i], prefix, user);
            assert(checkpoints[i] == fewer[i]);
        }
    }
    if added is Ok {
        assert forall|i: int|
            0 <= i < checkpoints.len() && marks_recovery(
                #[trigger] checkpoints[i],
                prefix,
            ) implies exists|user: u64| user != 0 && #[trigger] marks_user(
            checkpoints[i],
            prefix,
            user,
        ) by {
            if i < n - 1 {
                assert(fewer[i] == checkpoints[i]);
            } else {
                let rest = text::after_prefix(last.stage, prefix)->0;
                assert(marks_user(last, prefix, text::parsed_u64(rest)->0));
            }
        }
        assert forall|user: u64| #[trigger]
            added->Ok_0.contains(user) <==> recovery_marked(checkpoints, prefix, user) by {
            assert(users.contains(user) <==> recovery_marked(fewer, prefix, user));
        }
    } else {
        assert(marks_recovery(checkpoints[n - 1], prefix));
        if recoveries_named(checkpoints, prefix) {
            let user = choose|user: u64| user != 0 && #[trigger] marks_user(last, prefix, user);
            assert(marks_user(last, prefix, user));
        }
    }
}

/// The evidence of recoveries is read exactly if every checkpoint of one names a
/// user, and then a recovery counts as begun, or as completed, for exactly the
/// users whom some checkpoint names.
pub proof fn recoveries_are_read_from_checkpoints(
    checkpoints: Seq<CheckpointView>,
    started_prefix: Seq<char>,
    completed_prefix: Seq<char>,
)
    ensures
        ({
            let recovery = continuation::recovery_of(checkpoints, started_prefix, completed_prefix);
            &&& recovery is Ok <==> recoveries_named(checkpoints, started_prefix)
                && recoveries_named(checkpoints, completed_prefix)
            &&& recovery matches Ok(evidence) ==> {
                &&& evidence.started.finite() && evidence.completed.finite()
                &&& forall|user: u64| #[trigger]
                    evidence.started.contains(user) <==> recovery_marked(
                        checkpoints,
                        started_prefix,
                        user,
                    )
                &&& forall|user: u64| #[trigger]
                    evidence.completed.contains(user) <==> recovery_marked(
                        checkpoints,
                        completed_prefix,
                        user,
                    )
            }
        }),
    decreases checkpoints.len(),
{
    if checkpoints.len() > 0 {
        let fewer = checkpoints.drop_last();
        recoveries_are_read_from_checkpoints(fewer, started_prefix, completed_prefix);
        let before = continuation::recovery_of(fewer, started_prefix, completed_prefix);
        if before is Ok {
            lemma_stage_user(checkpoints, started_prefix, before->Ok_0.started);
            lemma_stage_user(checkpoints, completed_prefix, before->Ok_0.completed);
        } else if recoveries_named(checkpoints, started_prefix) && recoveries_named(
            checkpoints,
            completed_prefix,
        ) {
            lemma_fewer_named(checkpoints, started_prefix);
            lemma_fewer_named(checkpoints, completed_prefix);
        }
    }
}

proof fn lemma_fewer_named(checkpoints: Seq<CheckpointView>, prefix: Seq<char>)
    requires
        checkpoints.len() > 0,
        recoveries_named(checkpoints, prefix),
    ensures
        recoveries_named(checkpoints.drop_last(), prefix),
{
    let fewer = checkpoints.drop_last();
    assert forall|i: int|
        0 <= i < fewer.len() && marks_recovery(#[trigger] fewer[i], prefix) implies exists|
        user: u64,
    | user != 0 && #[trigger] marks_user(fewer[i], prefix, user) by {
        assert(checkpoints[i] == fewer[i]);
        let user = choose|user: u64| user != 0 && #[trigger]
            marks_user(checkpoints[i], prefix, user);
        assert(marks_user(fewer[i], prefix, user));
    }
}

/// Recoveries are finished exactly if each that was begun was completed.
pub proof fn begun_recoveries_must_be_completed(evidence: RecoveryView)
    requires
        evidence.started.finite(),
    ensures
        continuation::unfinished_recovery(evidence) is None <==> (forall|user: u64| #[trigger]
            evidence.started.contains(user) ==> evidence.completed.contains(user)),
{
    let unfinished = evidence.started.difference(evidence.completed);
    if unfinished.len() == 0 {
        assert(unfinished =~= Set::<u64>::empty());
        assert forall|user: u64| #[trigger]
            evidence.started.contains(user) implies evidence.completed.contains(user) by {
            assert(!unfinished.contains(user));
        }
    } else if forall|user: u64| #[trigger]
        evidence.started.contains(user) ==> evidence.completed.contains(user) {
        assert(unfinished =~= Set::<u64>::empty());
    }
}

/// A queue lost nothing but decoded audio, and some of that.
pub open spec fn lost_audio_only(message: Seq<char>) -> bool {
    continuation::drop_counts(message) matches Some((total, audio)) && total == audio && audio > 0
}

/// A failure that recovering tracks cannot repair.
pub open spec fn blocks(fault: FailureView) -> bool {
    ||| fault.kind == "capture_consumer"@
    ||| fault.kind == "capture_consumer_task"@
    ||| fault.kind == "capture_authoritative_drop"@
    ||| fault.kind == "capture_queue_drop"@ && !lost_audio_only(fault.message)
}

/// A failure that lost decoded audio, and nothing else.
pub open spec fn loses_audio(fault: FailureView) -> bool {
    ||| fault.kind == "capture_audio_drop"@
    ||| fault.kind == "capture_queue_drop"@ && lost_audio_only(fault.message)
}

/// A failure that damaged a track.
pub open spec fn harms_tracks(fault: FailureView) -> bool {
    ||| loses_audio(fault)
    ||| fault.kind == "live_flac_encoder"@
    ||| fault.kind == "live_flac_queue_full"@
    ||| fault.kind == "live_flac_queue_closed"@
    ||| fault.kind == "live_flac_finalization"@
    ||| fault.kind == "live_track_incomplete"@
    ||| fault.kind == "unresolved_ssrc"@
}

proof fn lemma_kinds_differ()
    ensures
        "capture_audio_drop"@ != "capture_consumer"@,
        "capture_audio_drop"@ != "capture_consumer_task"@,
        "capture_audio_drop"@ != "capture_authoritative_drop"@,
        "capture_audio_drop"@ != "capture_queue_drop"@,
        "capture_queue_drop"@ != "capture_consumer"@,
        "capture_queue_drop"@ != "capture_consumer_task"@,
        "capture_queue_drop"@ != "capture_authoritative_drop"@,
        ({
            let other = |kind: Seq<char>|
                kind[0] != 'c' && kind.len() > 0;
            &&& "capture_consumer"@[0] == 'c'
            &&& "capture_consumer_task"@[0] == 'c'
            &&& "capture_authoritative_drop"@[0] == 'c'
            &&& "capture_queue_drop"@[0] == 'c'
            &&& "capture_audio_drop"@[0] == 'c'
            &&& other("live_flac_encoder"@)
            &&& other("live_flac_queue_full"@)
            &&& other("live_flac_queue_closed"@)
            &&& other("live_flac_finalization"@)
            &&& other("live_track_incomplete"@)
            &&& other("unresolved_ssrc"@)
        }),
{
    reveal_strlit("capture_consumer");
    reveal_strlit("capture_consumer_task");
    reveal_strlit("capture_authoritative_drop");
    reveal_strlit("capture_queue_drop");
    reveal_strlit("capture_audio_drop");
    reveal_strlit("live_flac_encoder");
    reveal_strlit("live_flac_queue_full");
    reveal_strlit("live_flac_queue_closed");
    reveal_strlit("live_flac_finalization");
    reveal_strlit("live_track_incomplete");
    reveal_strlit("unresolved_ssrc");
    assert("capture_audio_drop"@.len() == 18);
    assert("capture_queue_drop"@.len() == 18);
    assert("capture_audio_drop"@[8] == 'a');
    assert("capture_queue_drop"@[8] == 'q');
    assert("capture_consumer"@.len() == 16);
    assert("capture_consumer_task"@.len() == 21);
    assert("capture_authoritative_drop"@.len() == 26);
}

/// Recorded failures ask for a recovered track exactly where one damaged a
/// track, and for every track exactly where decoded audio was lost; they ask
/// nothing, and are refused, exactly where one of them cannot be repaired.
pub proof fn failures_ask_for_what_they_damaged(failures: Seq<FailureView>)
    ensures
        ({
            let asked = continuation::consequences(failures);
            &&& asked is Err <==> (exists|i: int|
                0 <= i < failures.len() && blocks(#[trigger] failures[i]))
            &&& asked is Ok ==> (asked->Ok_0.derived_track_fault <==> (exists|i: int|
                0 <= i < failures.len() && harms_tracks(#[trigger] failures[i])))
            &&& asked is Ok ==> (asked->Ok_0.all_tracks_must_be_recovered <==> (exists|i: int|
                0 <= i < failures.len() && loses_audio(#[trigger] failures[i])))
        }),
    decreases failures.len(),
{
    if failures.len() > 0 {
        let n = failures.len() as int;
        let fewer = failures.drop_last();
        let last = failures.last();
        failures_ask_for_what_they_damaged(fewer);
        lemma_kinds_differ();
        assert(failures[n - 1] == last);
        assert forall|i: int| 0 <= i < n - 1 implies #[trigger] failures[i] == fewer[i] by {}
        assert forall|i: int| 0 <= i < fewer.len() implies #[trigger] fewer[i] == failures[i] by {}
        let before = continuation::consequences(fewer);
        let asked = continuation::consequences(failures);
        if before is Err {
            let i = choose|i: int| 0 <= i < fewer.len() && blocks(#[trigger] fewer[i]);
            assert(blocks(failures[i]));
        } else {
            assert(asked is Err <==> blocks(last));
            if asked is Ok {
                assert(asked->Ok_0.derived_track_fault <==> before->Ok_0.derived_track_fault
                    || harms_tracks(last));
                assert(asked->Ok_0.all_tracks_must_be_recovered
                    <==> before->Ok_0.all_tracks_must_be_recovered || loses_audio(last));
                if before->Ok_0.derived_track_fault {
                    let i = choose|i: int| 0 <= i < fewer.len() && harms_tracks(#[trigger] fewer[i]);
                    assert(harms_tracks(failures[i]));
                }
                if before->Ok_0.all_tracks_must_be_recovered {
                    let i = choose|i: int| 0 <= i < fewer.len() && loses_audio(#[trigger] fewer[i]);
                    assert(loses_audio(failures[i]));
                }
            }
        }
    }
}

proof fn lemma_unrecovered(tracks: Seq<TrackView>, completed: Set<u64>)
    ensures
        continuation::unrecovered(tracks, completed).len() == 0 <==> (forall|t: int|
            0 <= t < tracks.len() && text::parsed_u64((#[trigger] tracks[t]).discord_user_id)
                is Some ==> completed.contains(
                text::parsed_u64(tracks[t].discord_user_id)->0,
            )),
    decreases tracks.len(),
{
    if tracks.len() > 0 {
        let n = tracks.len() as int;
        let fewer = tracks.drop_last();
        lemma_unrecovered(fewer, completed);
        assert(tracks[n - 1] == tracks.last());
        if continuation::unrecovered(fewer, completed).len() == 0 {
            assert forall|t: int| 0 <= t < n - 1 && text::parsed_u64(
                (#[trigger] tracks[t]).discord_user_id,
            ) is Some implies completed.contains(
                text::parsed_u64(tracks[t].discord_user_id)->0,
            ) by {
                assert(fewer[t] == tracks[t]);
            }
        } else {
            let t = choose|t: int|
                0 <= t < fewer.len() && text::parsed_u64((#[trigger] fewer[t]).discord_user_id)
                    is Some && !completed.contains(text::parsed_u64(fewer[t].discord_user_id)->0);
            assert(tracks[t] == fewer[t]);
        }
    }
}

/// Recorded failures stand no longer in the way exactly if none is beyond
/// repair, a track was recovered where one was damaged, and every track was
/// where decoded audio was lost.
pub proof fn failures_are_repaired_by_recovery(
    failures: Seq<FailureView>,
    tracks: Seq<TrackView>,
    recovery: RecoveryView,
)
    ensures
        continuation::historical_fault(failures, tracks, recovery) is None <==> {
            &&& forall|i: int| 0 <= i < failures.len() ==> !blocks(#[trigger] failures[i])
            &&& (exists|i: int| 0 <= i < failures.len() && harms_tracks(#[trigger] failures[i]))
                ==> exists|user: u64| #[trigger] recovery.completed.contains(user)
            &&& (exists|i: int| 0 <= i < failures.len() && loses_audio(#[trigger] failures[i]))
                ==> forall|t: int|
                0 <= t < tracks.len() && text::parsed_u64((#[trigger] tracks[t]).discord_user_id)
                    is Some ==> recovery.completed.contains(
                    text::parsed_u64(tracks[t].discord_user_id)->0,
                )
        },
{
    failures_ask_for_what_they_damaged(failures);
    lemma_unrecovered(tracks, recovery.completed);
    if recovery.completed != Set::<u64>::empty() {
        assert(exists|user: u64| #[trigger] recovery.completed.contains(user)) by {
            if forall|user: u64| !#[trigger] recovery.completed.contains(user) {
                assert(recovery.completed =~= Set::<u64>::empty());
            }
        }
    }
}

/// The sentence that tells three counts.
pub open spec fn told(full: Seq<char>, closed: Seq<char>, audio: Seq<char>) -> Seq<char> {
    "capture queue rejected "@ + full + " records while full and "@ + closed
        + " records after closure, including "@ + audio + " decoded-audio records"@
}

proof fn lemma_spaces()
    ensures
        " records while full and "@.len() > 0,
        " records while full and "@[0] == ' ',
        " records after closure, including "@.len() > 0,
        " records after closure, including "@[0] == ' ',
        " decoded-audio records"@.len() > 0,
        " decoded-audio records"@[0] == ' ',
{
    reveal_strlit(" records while full and ");
    reveal_strlit(" records after closure, including ");
    reveal_strlit(" decoded-audio records");
}

proof fn lemma_no_space(value: u64)
    ensures
        !text::decimal(value as nat).contains(' '),
{
    text::lemma_decimal_is_digits(value as nat);
    let written = text::decimal(value as nat);
    if written.contains(' ') {
        let i = choose|i: int| 0 <= i < written.len() && written[i] == ' ';
        assert(text::is_digit(written[i]));
    }
}

/// The counts in the sentence are read back: the records rejected while the
/// queue was full and after it was closed are added up, and those that were
/// audio kept apart. Counts whose sum is out of range are not read.
pub proof fn rejected_records_are_counted(full: u64, closed: u64, audio: u64)
    ensures
        continuation::drop_counts(
            told(
                text::decimal(full as nat),
                text::decimal(closed as nat),
                text::decimal(audio as nat),
            ),
        ) == (if full + closed <= u64::MAX {
            Some(((full + closed) as u64, audio))
        } else {
            None
        }),
{
    let opening = "capture queue rejected "@;
    let first = " records while full and "@;
    let second = " records after closure, including "@;
    let third = " decoded-audio records"@;
    let f = text::decimal(full as nat);
    let c = text::decimal(closed as nat);
    let a = text::decimal(audio as nat);
    let message = told(f, c, a);
    let after_closed = a + third;
    let after_full = c + second + after_closed;
    let rejected = f + first + after_full;
    assert(message =~= opening + rejected);
    assert(message.take(opening.len() as int) =~= opening);
    assert(message.skip(opening.len() as int) =~= rejected);
    lemma_spaces();
    lemma_no_space(full);
    lemma_no_space(closed);
    lemma_no_space(audio);
    text_laws::texts_are_parted_at_the_separator(f, first, after_full);
    text_laws::texts_are_parted_at_the_separator(c, second, after_closed);
    assert(after_closed =~= a + third + Seq::<char>::empty());
    text_laws::texts_are_parted_at_the_separator(a, third, Seq::<char>::empty());
    text::decimal_reads_back(full);
    text::decimal_reads_back(closed);
    text::decimal_reads_back(audio);
}

/// Counts are read from no other sentence.
pub proof fn counts_are_read_from_the_sentence(message: Seq<char>)
    ensures
        continuation::drop_counts(message) matches Some((total, audio)) ==> exists|
            full: Seq<char>,
            closed: Seq<char>,
            heard: Seq<char>,
        |
            message == #[trigger] told(full, closed, heard) && text::parsed_u64(full) is Some
                && text::parsed_u64(closed) is Some && text::parsed_u64(heard) == Some(audio)
                && total == text::parsed_u64(full)->0 + text::parsed_u64(closed)->0,
{
    if continuation::drop_counts(message) is Some {
        let opening = "capture queue rejected "@;
        let first = " records while full and "@;
        let second = " records after closure, including "@;
        let third = " decoded-audio records"@;
        let rejected = text::after_prefix(message, opening)->0;
        assert(message =~= opening + rejected);
        let (full, after_full) = text::parted(rejected, first)->0;
        text_laws::parts_join_again(rejected, first);
        let (closed, after_closed) = text::parted(after_full, second)->0;
        text_laws::parts_join_again(after_full, second);
        let (heard, rest) = text::parted(after_closed, third)->0;
        text_laws::parts_join_again(after_closed, third);
        assert(rest =~= Seq::<char>::empty());
        assert(message =~= told(full, closed, heard));
    }
}

/// A user has a complete track.
pub open spec fn has_complete_track(tracks: Seq<TrackView>, user: u64) -> bool {
    exists|t: int|
        0 <= t < tracks.len() && (#[trigger] tracks[t]).state == TrackState::Complete
            && text::parsed_u64(tracks[t].discord_user_id) == Some(user)
}

proof fn lemma_complete_users(tracks: Seq<TrackView>, user: u64)
    ensures
        continuation::complete_users(tracks).contains(user) <==> has_complete_track(tracks, user),
    decreases tracks.len(),
{
    if tracks.len() > 0 {
        let n = tracks.len() as int;
        let fewer = tracks.drop_last();
        lemma_complete_users(fewer, user);
        assert(tracks[n - 1] == tracks.last());
        let before = continuation::complete_users(fewer);
        let users = continuation::complete_users(tracks);
        if users.contains(user) {
            let k = choose|k: int| 0 <= k < users.len() && users[k] == user;
            if k < before.len() {
                assert(before[k] == user);
                let t = choose|t: int|
                    0 <= t < fewer.len() && (#[trigger] fewer[t]).state == TrackState::Complete
                        && text::parsed_u64(fewer[t].discord_user_id) == Some(user);
                assert(tracks[t] == fewer[t]);
            }
        }
        if has_complete_track(tracks, user) {
            let t = choose|t: int|
                0 <= t < tracks.len() && (#[trigger] tracks[t]).state == TrackState::Complete
                    && text::parsed_u64(tracks[t].discord_user_id) == Some(user);
            if t < n - 1 {
                assert(fewer[t] == tracks[t]);
                let k = choose|k: int| 0 <= k < before.len() && before[k] == user;
                assert(users[k] == user);
            } else {
                assert(users[before.len() as int] == user);
            }
        }
    }
}

proof fn lemma_missing_users(activities: Seq<Activity>, complete: Seq<u64>)
    ensures
        continuation::missing_users(activities, complete).len() == 0 <==> (forall|i: int|
            0 <= i < activities.len() ==> ((
            #[trigger] activities[i]).discord_user_id matches Some(user) ==> complete.contains(
                user,
            ))),
    decreases activities.len(),
{
    if activities.len() > 0 {
        let n = activities.len() as int;
        let fewer = activities.drop_last();
        lemma_missing_users(fewer, complete);
        assert(activities[n - 1] == activities.last());
        if continuation::missing_users(fewer, complete).len() == 0 {
            assert forall|i: int| 0 <= i < n - 1 implies ((
            #[trigger] activities[i]).discord_user_id matches Some(user) ==> complete.contains(
                user,
            )) by {
                assert(fewer[i] == activities[i]);
            }
        } else {
            let i = choose|i: int|
                0 <= i < fewer.len() && (#[trigger] fewer[i]).discord_user_id is Some
                    && !complete.contains(fewer[i].discord_user_id->0);
            assert(activities[i] == fewer[i]);
        }
    }
}

/// A replay supports continuing exactly if neither journal was cut short, every
/// decision was decoded, and all activity is of users with a complete track.
pub open spec fn supports(replay: ActivityReplay, tracks: Seq<TrackView>) -> bool {
    &&& !replay.truncated_packet_tail
    &&& !replay.truncated_playout_tail
    &&& replay.skipped_undecoded == 0
    &&& forall|i: int|
        0 <= i < replay.activities@.len() ==> ((
        #[trigger] replay.activities@[i]).discord_user_id matches Some(user)
            && has_complete_track(tracks, user))
}

proof fn lemma_replay(replay: ActivityReplay, tracks: Seq<TrackView>)
    ensures
        continuation::replay_fault(replay, tracks) is None <==> supports(replay, tracks),
{
    let activities = replay.activities@;
    let complete = continuation::complete_users(tracks);
    authority_laws::attribution_keeps_every_frame(activities);
    lemma_missing_users(activities, complete);
    assert forall|user: u64| #[trigger]
        complete.contains(user) <==> has_complete_track(tracks, user) by {
        lemma_complete_users(tracks, user);
    }
}

/// A recording is continued exactly if the session waits, without results, in
/// format 3 or 4; its snapshot and its manifest were read, the manifest its
/// own; every recovery that was begun was completed; no source is unresolved;
/// the replay supports it; and its failures are repaired.
pub proof fn recordings_are_continued_when_repaired(
    record: SessionView,
    evidence: ContinuationEvidence,
    started_prefix: Seq<char>,
    completed_prefix: Seq<char>,
)
    ensures
        ({
            let objection = continuation::continuation_objection(
                record,
                evidence,
                started_prefix,
                completed_prefix,
            );
            let recovery = continuation::recovery_of(
                record.checkpoints,
                started_prefix,
                completed_prefix,
            );
            let tracks = evidence.tracks->Ok_0.deep_view().tracks;
            objection is None <==> {
                &&& record.format == 3 || record.format == 4
                &&& record.state == WorkflowState::AwaitingOperator
                &&& record.files.results is None
                &&& evidence.participants is Ok
                &&& evidence.tracks is Ok
                &&& evidence.tracks->Ok_0.session_id@ == record.session_id
                &&& recoveries_named(record.checkpoints, started_prefix)
                &&& recoveries_named(record.checkpoints, completed_prefix)
                &&& forall|user: u64|
                    recovery_marked(record.checkpoints, started_prefix, user) ==> #[trigger]
                    recovery_marked(record.checkpoints, completed_prefix, user)
                &&& evidence.unresolved_ssrcs is Ok
                &&& evidence.unresolved_ssrcs->Ok_0@.len() == 0
                &&& evidence.replay is Ok
                &&& supports(evidence.replay->Ok_0, tracks)
                &&& continuation::historical_fault(record.failures, tracks, recovery->Ok_0) is None
            }
        }),
{
    recoveries_are_read_from_checkpoints(record.checkpoints, started_prefix, completed_prefix);
    let recovery = continuation::recovery_of(record.checkpoints, started_prefix, completed_prefix);
    if recovery is Ok {
        let known = recovery->Ok_0;
        begun_recoveries_must_be_completed(known);
        if forall|user: u64| #[trigger]
            known.started.contains(user) ==> known.completed.contains(user) {
            assert forall|user: u64|
                recovery_marked(record.checkpoints, started_prefix, user) implies #[trigger]
            recovery_marked(record.checkpoints, completed_prefix, user) by {
                assert(known.started.contains(user));
                assert(known.completed.contains(user));
            }
        } else {
            let user = choose|user: u64| #[trigger]
                known.started.contains(user) && !known.completed.contains(user);
            assert(recovery_marked(record.checkpoints, started_prefix, user));
            assert(!recovery_marked(record.checkpoints, completed_prefix, user));
        }
    }
    if evidence.tracks is Ok && evidence.replay is Ok {
        lemma_replay(evidence.replay->Ok_0, evidence.tracks->Ok_0.deep_view().tracks);
    }
}

} // verus!
