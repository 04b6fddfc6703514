//! What the candidate ranges of a session tell of its frames.
//!
//! A playout tick is 20 milliseconds of session time, or 960 samples; a
//! millisecond is 48 samples.

use vstd::prelude::*;

use crate::candidate_ranges;
use crate::candidate_ranges::AttributedFrame;
use crate::candidate_ranges::CandidateRange;

verus! {

/// A range of a frame's user reaches over the frame's session time.
pub open spec fn holds_frame(range: CandidateRange, frame: AttributedFrame) -> bool {
    &&& range.discord_user_id == frame.discord_user_id
    &&& range.start_sample <= frame.tick * 960
    &&& frame.tick * 960 + frame.samples <= range.end_sample
}

/// One of several ranges reaches over both of two frames.
pub open spec fn in_one_range(
    ranges: Seq<CandidateRange>,
    left: AttributedFrame,
    right: AttributedFrame,
) -> bool {
    exists|r: int|
        0 <= r < ranges.len() && holds_frame(#[trigger] ranges[r], left) && holds_frame(
            ranges[r],
            right,
        )
}

/// At most a number of milliseconds lie between the end of some earlier frame
/// of the same user and the start of a frame.
pub open spec fn within_reach(frames: Seq<AttributedFrame>, at: int, millis: u64) -> bool {
    exists|m: int|
        0 <= m < at && (#[trigger] frames[m]).discord_user_id == frames[at].discord_user_id
            && frames[at].tick * 960 <= frames[m].tick * 960 + frames[m].samples + millis * 48
}

/// By how many samples a user's frames exceed one tick each, or fall short of
/// it.
pub open spec fn surplus(frames: Seq<AttributedFrame>, user: u64) -> int
    decreases frames.len(),
{
    if frames.len() == 0 {
        0
    } else if frames.last().discord_user_id == user {
        surplus(frames.drop_last(), user) + frames.last().samples - 960
    } else {
        surplus(frames.drop_last(), user)
    }
}

/// Which of the joined ranges a range went into.
#[verifier::opaque]
spec fn group(ranges: Seq<CandidateRange>, gap: nat, k: int) -> int {
    candidate_ranges::merged(ranges.take(k + 1), gap).len() - 1
}

spec fn reached(ranges: Seq<CandidateRange>, gap: nat, k: int) -> bool {
    exists|m: int| 0 <= m < k && ranges[k].start_sample <= (#[trigger] ranges[m]).end_sample + gap
}

spec fn opened(ranges: Seq<CandidateRange>, gap: nat, g: int) -> bool {
    exists|k: int|
        0 <= k < ranges.len() && #[trigger] group(ranges, gap, k) == g
            && candidate_ranges::merged(ranges, gap)[g].start_sample == ranges[k].start_sample
            && candidate_ranges::merged(ranges, gap)[g].source_start_sample
            == ranges[k].source_start_sample && candidate_ranges::merged(
            ranges,
            gap,
        )[g].discord_user_id == ranges[k].discord_user_id
}

spec fn closed_at(ranges: Seq<CandidateRange>, gap: nat, g: int) -> bool {
    exists|k: int|
        0 <= k < ranges.len() && #[trigger] group(ranges, gap, k) == g
            && candidate_ranges::merged(ranges, gap)[g].end_sample == ranges[k].end_sample
}

spec fn last_of(ranges: Seq<CandidateRange>, gap: nat, g: int, k: int) -> bool {
    &&& 0 <= k < ranges.len()
    &&& group(ranges, gap, k) == g
    &&& candidate_ranges::merged(ranges, gap)[g].source_end_sample == ranges[k].source_end_sample
    &&& forall|j: int| k < j < ranges.len() ==> #[trigger] group(ranges, gap, j) > g
}

spec fn source_closed_at(ranges: Seq<CandidateRange>, gap: nat, g: int) -> bool {
    exists|k: int| #[trigger] last_of(ranges, gap, g, k)
}

proof fn lemma_fewer_advance(ranges: Seq<CandidateRange>)
    requires
        ranges.len() > 0,
        candidate_ranges::advancing(ranges),
    ensures
        candidate_ranges::advancing(ranges.drop_last()),
{
    let earlier = ranges.drop_last();
    assert forall|i: int, j: int| 0 <= i <= j < earlier.len() implies (
    #[trigger] earlier[i]).start_sample <= (#[trigger] earlier[j]).start_sample
        && earlier[i].source_start_sample <= earlier[j].source_start_sample
        && earlier[i].source_end_sample <= earlier[j].source_end_sample
        && earlier[i].discord_user_id == earlier[j].discord_user_id by {
        assert(earlier[i] == ranges[i] && earlier[j] == ranges[j]);
    }
    assert forall|i: int| 0 <= i < earlier.len() implies (#[trigger] earlier[i]).start_sample
        <= earlier[i].end_sample && earlier[i].source_start_sample
        <= earlier[i].source_end_sample by {
        assert(earlier[i] == ranges[i]);
    }
}

proof fn lemma_group_step(ranges: Seq<CandidateRange>, gap: nat)
    requires
        ranges.len() > 0,
    ensures
        group(ranges, gap, ranges.len() - 1) == candidate_ranges::merged(ranges, gap).len() - 1,
        forall|k: int|
            0 <= k < ranges.len() - 1 ==> #[trigger] group(ranges, gap, k) == group(
                ranges.drop_last(),
                gap,
                k,
            ),
{
    reveal(group);
    let n = ranges.len() as int;
    assert(ranges.take(n) =~= ranges);
    assert forall|k: int| 0 <= k < n - 1 implies #[trigger] group(ranges, gap, k) == group(
        ranges.drop_last(),
        gap,
        k,
    ) by {
        assert(ranges.take(k + 1) =~= ranges.drop_last().take(k + 1));
    }
}

proof fn lemma_groups_cover(ranges: Seq<CandidateRange>, gap: nat)
    requires
        candidate_ranges::advancing(ranges),
    ensures
        ranges.len() > 0 ==> group(ranges, gap, ranges.len() - 1) == candidate_ranges::merged(
            ranges,
            gap,
        ).len() - 1,
        forall|k: int|
            0 <= k < ranges.len() ==> 0 <= #[trigger] group(ranges, gap, k)
                < candidate_ranges::merged(ranges, gap).len() && candidate_ranges::covers(
                candidate_ranges::merged(ranges, gap)[group(ranges, gap, k)],
                ranges[k],
            ),
        forall|i: int, k: int|
            0 <= i <= k < ranges.len() ==> #[trigger] group(ranges, gap, i) <= #[trigger] group(
                ranges,
                gap,
                k,
            ),
    decreases ranges.len(),
{
    let n = ranges.len() as int;
    if n > 0 {
        let earlier = ranges.drop_last();
        let next = ranges.last();
        lemma_fewer_advance(ranges);
        lemma_groups_cover(earlier, gap);
        lemma_group_step(ranges, gap);
        let before = candidate_ranges::merged(earlier, gap);
        let done = candidate_ranges::merged(ranges, gap);
        let joins = before.len() > 0 && next.start_sample <= before.last().end_sample + gap;
        candidate_ranges::lemma_merged(earlier, gap);
        if n > 1 {
            assert(earlier.last() == ranges[n - 2]);
            assert(ranges[n - 2].start_sample <= ranges[n - 1].start_sample);
        }
        assert forall|k: int| 0 <= k < n implies 0 <= #[trigger] group(ranges, gap, k) < done.len()
            && candidate_ranges::covers(done[group(ranges, gap, k)], ranges[k]) by {
            if k < n - 1 {
                let g = group(earlier, gap, k);
                assert(group(ranges, gap, k) == g);
                assert(candidate_ranges::covers(before[g], earlier[k]));
                assert(earlier[k] == ranges[k]);
            }
        }
        assert forall|i: int, k: int| 0 <= i <= k < n implies #[trigger] group(ranges, gap, i)
            <= #[trigger] group(ranges, gap, k) by {
            if k < n - 1 {
                assert(group(earlier, gap, i) <= group(earlier, gap, k));
            } else if i < n - 1 {
                assert(group(earlier, gap, i) < before.len());
            }
        }
    }
}

proof fn lemma_groups_open(ranges: Seq<CandidateRange>, gap: nat)
    requires
        candidate_ranges::advancing(ranges),
    ensures
        forall|g: int|
            0 <= g < candidate_ranges::merged(ranges, gap).len() ==> #[trigger] opened(
                ranges,
                gap,
                g,
            ),
    decreases ranges.len(),
{
    let n = ranges.len() as int;
    if n > 0 {
        let earlier = ranges.drop_last();
        let next = ranges.last();
        lemma_fewer_advance(ranges);
        lemma_groups_open(earlier, gap);
        lemma_group_step(ranges, gap);
        let before = candidate_ranges::merged(earlier, gap);
        let done = candidate_ranges::merged(ranges, gap);
        let joins = before.len() > 0 && next.start_sample <= before.last().end_sample + gap;
        assert forall|g: int| 0 <= g < done.len() implies #[trigger] opened(ranges, gap, g) by {
            if g < before.len() {
                assert(opened(earlier, gap, g));
                let k = choose|k: int|
                    0 <= k < earlier.len() && #[trigger] group(earlier, gap, k) == g
                        && before[g].start_sample == earlier[k].start_sample
                        && before[g].source_start_sample == earlier[k].source_start_sample
                        && before[g].discord_user_id == earlier[k].discord_user_id;
                assert(group(ranges, gap, k) == g);
                assert(earlier[k] == ranges[k]);
            } else {
                assert(group(ranges, gap, n - 1) == g);
            }
        }
    }
}

proof fn lemma_groups_close(ranges: Seq<CandidateRange>, gap: nat)
    requires
        candidate_ranges::advancing(ranges),
    ensures
        forall|g: int|
            0 <= g < candidate_ranges::merged(ranges, gap).len() ==> #[trigger] closed_at(
                ranges,
                gap,
                g,
            ),
    decreases ranges.len(),
{
    let n = ranges.len() as int;
    if n > 0 {
        let earlier = ranges.drop_last();
        let next = ranges.last();
        lemma_fewer_advance(ranges);
        lemma_groups_close(earlier, gap);
        lemma_group_step(ranges, gap);
        let before = candidate_ranges::merged(earlier, gap);
        let done = candidate_ranges::merged(ranges, gap);
        let joins = before.len() > 0 && next.start_sample <= before.last().end_sample + gap;
        assert forall|g: int| 0 <= g < done.len() implies #[trigger] closed_at(ranges, gap, g) by {
            if g < before.len() && !(g == done.len() - 1 && joins && next.end_sample
                > before[g].end_sample) {
                assert(closed_at(earlier, gap, g));
                let k = choose|k: int|
                    0 <= k < earlier.len() && #[trigger] group(earlier, gap, k) == g
                        && before[g].end_sample == earlier[k].end_sample;
                assert(group(ranges, gap, k) == g);
                assert(earlier[k] == ranges[k]);
            } else {
                assert(group(ranges, gap, n - 1) == g);
            }
        }
    }
}

proof fn lemma_groups_close_in_source(ranges: Seq<CandidateRange>, gap: nat)
    requires
        candidate_ranges::advancing(ranges),
    ensures
        forall|g: int|
            0 <= g < candidate_ranges::merged(ranges, gap).len() ==> #[trigger] source_closed_at(
                ranges,
                gap,
                g,
            ),
    decreases ranges.len(),
{
    let n = ranges.len() as int;
    if n > 0 {
        let earlier = ranges.drop_last();
        let next = ranges.last();
        lemma_fewer_advance(ranges);
        lemma_groups_close_in_source(earlier, gap);
        lemma_group_step(ranges, gap);
        let before = candidate_ranges::merged(earlier, gap);
        let done = candidate_ranges::merged(ranges, gap);
        let joins = before.len() > 0 && next.start_sample <= before.last().end_sample + gap;
        candidate_ranges::lemma_merged(earlier, gap);
        assert forall|g: int| 0 <= g < done.len() implies #[trigger] source_closed_at(
            ranges,
            gap,
            g,
        ) by {
            if g < done.len() - 1 {
                assert(source_closed_at(earlier, gap, g));
                let k = choose|k: int| #[trigger] last_of(earlier, gap, g, k);
                assert(group(ranges, gap, k) == g);
                assert(earlier[k] == ranges[k]);
                assert(last_of(ranges, gap, g, k)) by {
                    assert forall|j: int| k < j < n implies #[trigger] group(ranges, gap, j)
                        > g by {
                        if j < n - 1 {
                            assert(group(earlier, gap, j) > g);
                        }
                    }
                }
            } else {
                if joins {
                    assert(earlier.last() == ranges[n - 2]);
                    assert(before.last().source_end_sample == earlier.last().source_end_sample);
                    assert(ranges[n - 2].source_end_sample <= ranges[n - 1].source_end_sample);
                }
                assert(last_of(ranges, gap, g, n - 1));
            }
        }
    }
}

proof fn lemma_groups_reach(ranges: Seq<CandidateRange>, gap: nat)
    requires
        candidate_ranges::advancing(ranges),
    ensures
        forall|k: int|
            0 < k < ranges.len() ==> (#[trigger] group(ranges, gap, k) == group(
                ranges,
                gap,
                k - 1,
            ) <==> reached(ranges, gap, k)),
    decreases ranges.len(),
{
    let n = ranges.len() as int;
    if n > 0 {
        let earlier = ranges.drop_last();
        let next = ranges.last();
        lemma_fewer_advance(ranges);
        lemma_groups_reach(earlier, gap);
        lemma_group_step(ranges, gap);
        let before = candidate_ranges::merged(earlier, gap);
        let done = candidate_ranges::merged(ranges, gap);
        let joins = before.len() > 0 && next.start_sample <= before.last().end_sample + gap;
        lemma_groups_cover(earlier, gap);
        lemma_groups_close(earlier, gap);
        candidate_ranges::lemma_merged(earlier, gap);
        assert forall|k: int| 0 < k < n implies (#[trigger] group(ranges, gap, k) == group(
            ranges,
            gap,
            k - 1,
        ) <==> reached(ranges, gap, k)) by {
            if k < n - 1 {
                assert(group(ranges, gap, k) == group(earlier, gap, k));
                assert(group(ranges, gap, k - 1) == group(earlier, gap, k - 1));
                lemma_reached_early(ranges, gap, k);
            } else {
                assert(group(ranges, gap, n - 2) == before.len() - 1);
                if joins {
                    assert(closed_at(earlier, gap, before.len() - 1));
                    let m = choose|m: int|
                        0 <= m < earlier.len() && #[trigger] group(earlier, gap, m) == before.len()
                            - 1 && before[before.len() - 1].end_sample == earlier[m].end_sample;
                    assert(ranges[m] == earlier[m]);
                    assert(reached(ranges, gap, k));
                }
                if reached(ranges, gap, k) {
                    let m = choose|m: int|
                        0 <= m < k && ranges[k].start_sample <= (
                        #[trigger] ranges[m]).end_sample + gap;
                    let g = group(earlier, gap, m);
                    assert(earlier[m] == ranges[m]);
                    assert(candidate_ranges::covers(before[g], earlier[m]));
                    if g < before.len() - 1 {
                        assert(before[g].end_sample + gap < before[before.len()
                            - 1].start_sample);
                        assert(before[before.len() - 1].start_sample <= before[before.len()
                            - 1].end_sample);
                    }
                    assert(joins);
                }
            }
        }
    }
}

proof fn lemma_reached_early(ranges: Seq<CandidateRange>, gap: nat, k: int)
    requires
        0 < k < ranges.len() - 1,
    ensures
        reached(ranges, gap, k) == reached(ranges.drop_last(), gap, k),
{
    let earlier = ranges.drop_last();
    if reached(ranges, gap, k) {
        let m = choose|m: int|
            0 <= m < k && ranges[k].start_sample <= (#[trigger] ranges[m]).end_sample + gap;
        assert(earlier[m] == ranges[m]);
    }
    if reached(earlier, gap, k) {
        let m = choose|m: int|
            0 <= m < k && earlier[k].start_sample <= (#[trigger] earlier[m]).end_sample + gap;
        assert(earlier[m] == ranges[m]);
    }
}

proof fn lemma_groups(ranges: Seq<CandidateRange>, gap: nat)
    requires
        candidate_ranges::advancing(ranges),
    ensures
        ranges.len() > 0 ==> group(ranges, gap, ranges.len() - 1) == candidate_ranges::merged(
            ranges,
            gap,
        ).len() - 1,
        forall|k: int|
            0 <= k < ranges.len() ==> 0 <= #[trigger] group(ranges, gap, k)
                < candidate_ranges::merged(ranges, gap).len() && candidate_ranges::covers(
                candidate_ranges::merged(ranges, gap)[group(ranges, gap, k)],
                ranges[k],
            ),
        forall|i: int, k: int|
            0 <= i <= k < ranges.len() ==> #[trigger] group(ranges, gap, i) <= #[trigger] group(
                ranges,
                gap,
                k,
            ),
        forall|k: int|
            0 < k < ranges.len() ==> (#[trigger] group(ranges, gap, k) == group(
                ranges,
                gap,
                k - 1,
            ) <==> reached(ranges, gap, k)),
        forall|g: int|
            0 <= g < candidate_ranges::merged(ranges, gap).len() ==> #[trigger] opened(
                ranges,
                gap,
                g,
            ),
        forall|g: int|
            0 <= g < candidate_ranges::merged(ranges, gap).len() ==> #[trigger] closed_at(
                ranges,
                gap,
                g,
            ),
        forall|g: int|
            0 <= g < candidate_ranges::merged(ranges, gap).len() ==> #[trigger] source_closed_at(
                ranges,
                gap,
                g,
            ),
{
    lemma_groups_cover(ranges, gap);
    lemma_groups_reach(ranges, gap);
    lemma_groups_open(ranges, gap);
    lemma_groups_close(ranges, gap);
    lemma_groups_close_in_source(ranges, gap);
}

proof fn lemma_one_group(ranges: Seq<CandidateRange>, gap: nat, i: int, j: int)
    requires
        candidate_ranges::advancing(ranges),
        0 <= i <= j < ranges.len(),
    ensures
        group(ranges, gap, i) == group(ranges, gap, j) <==> (forall|k: int|
            i < k <= j ==> #[trigger] reached(ranges, gap, k)),
    decreases j - i,
{
    lemma_groups(ranges, gap);
    if i < j {
        lemma_one_group(ranges, gap, i, j - 1);
        assert(group(ranges, gap, i) <= group(ranges, gap, j - 1));
        assert(group(ranges, gap, j - 1) <= group(ranges, gap, j));
        assert(group(ranges, gap, j) == group(ranges, gap, j - 1) <==> reached(ranges, gap, j));
    }
}

/// How many frames of a user stand before a place.
#[verifier::opaque]
spec fn place(frames: Seq<AttributedFrame>, user: u64, i: int) -> int {
    candidate_ranges::frames_of(frames.take(i), user).len() as int
}

spec fn placed(frames: Seq<AttributedFrame>, user: u64, p: int) -> bool {
    exists|i: int|
        0 <= i < frames.len() && frames[i].discord_user_id == user && #[trigger] place(
            frames,
            user,
            i,
        ) == p
}

proof fn lemma_places(frames: Seq<AttributedFrame>, user: u64)
    ensures
        forall|i: int|
            0 <= i < frames.len() && frames[i].discord_user_id == user ==> {
                let own = candidate_ranges::frames_of(frames, user);
                let p = #[trigger] place(frames, user, i);
                &&& 0 <= p < own.len()
                &&& own[p] == frames[i]
                &&& own.take(p) == candidate_ranges::frames_of(frames.take(i), user)
            },
        forall|i: int, j: int|
            0 <= i < j < frames.len() && frames[i].discord_user_id == user ==> #[trigger] place(
                frames,
                user,
                i,
            ) < #[trigger] place(frames, user, j),
        forall|p: int|
            0 <= p < candidate_ranges::frames_of(frames, user).len() ==> #[trigger] placed(
                frames,
                user,
                p,
            ),
    decreases frames.len(),
{
    reveal(place);
    let n = frames.len() as int;
    if n > 0 {
        let earlier = frames.drop_last();
        lemma_places(earlier, user);
        let own = candidate_ranges::frames_of(frames, user);
        let fewer = candidate_ranges::frames_of(earlier, user);
        assert forall|i: int| 0 <= i < n implies #[trigger] place(frames, user, i) == (if i < n
            - 1 {
            place(earlier, user, i)
        } else {
            fewer.len() as int
        }) by {
            if i < n - 1 {
                assert(frames.take(i) =~= earlier.take(i));
            } else {
                assert(frames.take(i) =~= earlier);
            }
        }
        assert forall|i: int| 0 <= i < n && frames[i].discord_user_id == user implies {
            let p = #[trigger] place(frames, user, i);
            &&& 0 <= p < own.len()
            &&& own[p] == frames[i]
            &&& own.take(p) == candidate_ranges::frames_of(frames.take(i), user)
        } by {
            let p = place(frames, user, i);
            if i < n - 1 {
                assert(earlier[i] == frames[i]);
                assert(place(earlier, user, i) == p);
                assert(frames.take(i) =~= earlier.take(i));
                assert(own.take(p) =~= fewer.take(p));
            } else {
                assert(frames.take(i) =~= earlier);
                assert(own.take(p) =~= fewer);
            }
        }
        assert forall|i: int, j: int|
            0 <= i < j < n && frames[i].discord_user_id == user implies #[trigger] place(
            frames,
            user,
            i,
        ) < #[trigger] place(frames, user, j) by {
            assert(earlier[i] == frames[i]);
            assert(place(earlier, user, i) < fewer.len());
            if j < n - 1 {
                assert(place(earlier, user, i) < place(earlier, user, j));
            }
        }
        assert forall|p: int| 0 <= p < own.len() implies #[trigger] placed(frames, user, p) by {
            if p < fewer.len() {
                assert(placed(earlier, user, p));
                let i = choose|i: int|
                    0 <= i < earlier.len() && earlier[i].discord_user_id == user
                        && #[trigger] place(earlier, user, i) == p;
                assert(frames[i] == earlier[i]);
                assert(place(frames, user, i) == p);
            } else {
                assert(place(frames, user, n - 1) == p);
            }
        }
    }
}

proof fn lemma_surplus(frames: Seq<AttributedFrame>, user: u64)
    ensures
        candidate_ranges::aligned_length(candidate_ranges::frames_of(frames, user))
            - candidate_ranges::next_tick(candidate_ranges::frames_of(frames, user)) * 960
            == surplus(frames, user),
    decreases frames.len(),
{
    if frames.len() > 0 {
        lemma_surplus(frames.drop_last(), user);
        let fewer = candidate_ranges::frames_of(frames.drop_last(), user);
        if frames.last().discord_user_id == user {
            assert(fewer.push(frames.last()).drop_last() =~= fewer);
        }
    }
}

/// What is known of a user's frames and of the ranges made of them.
proof fn lemma_user(frames: Seq<AttributedFrame>, user: u64, gap: nat)
    requires
        candidate_ranges::frames_fault(frames) is None,
    ensures
        ({
            let own = candidate_ranges::frames_of(frames, user);
            let parts = candidate_ranges::located_frames(own);
            let ranges = candidate_ranges::user_ranges(frames, user, gap);
            &&& candidate_ranges::advancing(parts)
            &&& parts.len() == own.len()
            &&& forall|i: int|
                0 <= i < frames.len() && frames[i].discord_user_id == user ==> {
                    let part = parts[#[trigger] place(frames, user, i)];
                    &&& 0 <= place(frames, user, i) < parts.len()
                    &&& part.discord_user_id == user
                    &&& part.start_sample == frames[i].tick * 960
                    &&& part.end_sample == frames[i].tick * 960 + frames[i].samples
                    &&& part.source_start_sample == frames[i].tick * 960 + surplus(
                        frames.take(i),
                        user,
                    )
                    &&& part.source_end_sample == part.source_start_sample + frames[i].samples
                }
            &&& forall|g: int|
                0 <= g < ranges.len() ==> (#[trigger] ranges[g]).discord_user_id == user
            &&& forall|g: int, h: int|
                0 <= g < h < ranges.len() ==> (#[trigger] ranges[g]).end_sample + gap < (
                #[trigger] ranges[h]).start_sample
            &&& forall|g: int|
                0 <= g < ranges.len() ==> (#[trigger] ranges[g]).start_sample
                    <= ranges[g].end_sample
        }),
{
    let own = candidate_ranges::frames_of(frames, user);
    let parts = candidate_ranges::located_frames(own);
    candidate_ranges::lemma_own_frames_are_sound(frames, user);
    candidate_ranges::lemma_located_frames_advance(own, user);
    candidate_ranges::lemma_located_frames(own);
    candidate_ranges::lemma_merged(parts, gap);
    lemma_groups(parts, gap);
    lemma_places(frames, user);
    assert forall|i: int| 0 <= i < frames.len() && frames[i].discord_user_id == user implies {
        let part = parts[#[trigger] place(frames, user, i)];
        &&& 0 <= place(frames, user, i) < parts.len()
        &&& part.discord_user_id == user
        &&& part.start_sample == frames[i].tick * 960
        &&& part.end_sample == frames[i].tick * 960 + frames[i].samples
        &&& part.source_start_sample == frames[i].tick * 960 + surplus(frames.take(i), user)
        &&& part.source_end_sample == part.source_start_sample + frames[i].samples
    } by {
        let p = place(frames, user, i);
        assert(parts[p] == candidate_ranges::located(own.take(p), own[p]));
        lemma_surplus(frames.take(i), user);
        lemma_sound_prefix(own, p);
    }
    let ranges = candidate_ranges::user_ranges(frames, user, gap);
    assert forall|g: int| 0 <= g < ranges.len() implies (#[trigger] ranges[g]).discord_user_id
        == user by {
        assert(opened(parts, gap, g));
        let k = choose|k: int|
            0 <= k < parts.len() && #[trigger] group(parts, gap, k) == g
                && ranges[g].start_sample == parts[k].start_sample
                && ranges[g].source_start_sample == parts[k].source_start_sample
                && ranges[g].discord_user_id == parts[k].discord_user_id;
        assert(own[k].discord_user_id == user);
    }
}

proof fn lemma_sound_prefix(own: Seq<AttributedFrame>, p: int)
    requires
        candidate_ranges::sound(own),
        0 <= p < own.len(),
    ensures
        0 <= candidate_ranges::source_start(own.take(p), own[p]),
        candidate_ranges::source_start(own.take(p), own[p]) + own[p].samples <= u64::MAX,
        candidate_ranges::next_tick(own.take(p)) <= own[p].tick,
    decreases own.len(),
{
    if p < own.len() - 1 {
        lemma_sound_prefix(own.drop_last(), p);
        assert(own.drop_last().take(p) =~= own.take(p));
    } else {
        assert(own.take(p) =~= own.drop_last());
    }
}

/// A frame lies in exactly the range that it went into.
proof fn lemma_held_by_own_group(
    frames: Seq<AttributedFrame>,
    user: u64,
    gap: nat,
    i: int,
    g: int,
)
    requires
        candidate_ranges::frames_fault(frames) is None,
        0 <= i < frames.len(),
        frames[i].discord_user_id == user,
        0 <= g < candidate_ranges::user_ranges(frames, user, gap).len(),
    ensures
        holds_frame(candidate_ranges::user_ranges(frames, user, gap)[g], frames[i]) <==> group(
            candidate_ranges::located_frames(candidate_ranges::frames_of(frames, user)),
            gap,
            place(frames, user, i),
        ) == g,
{
    let parts = candidate_ranges::located_frames(candidate_ranges::frames_of(frames, user));
    let ranges = candidate_ranges::user_ranges(frames, user, gap);
    lemma_user(frames, user, gap);
    lemma_groups(parts, gap);
    let p = place(frames, user, i);
    let h = group(parts, gap, p);
    assert(candidate_ranges::covers(ranges[h], parts[p]));
    assert(holds_frame(ranges[h], frames[i]));
    if g < h {
        assert(ranges[g].end_sample + gap < ranges[h].start_sample);
    } else if h < g {
        assert(ranges[h].end_sample + gap < ranges[g].start_sample);
    }
}

/// Where the ranges of one of several users stand among those of all.
spec fn offset(frames: Seq<AttributedFrame>, users: Seq<u64>, gap: nat, at: int) -> int {
    candidate_ranges::ranges_of_users(frames, users.take(at), gap).len() as int
}

spec fn stands(frames: Seq<AttributedFrame>, users: Seq<u64>, gap: nat, r: int) -> bool {
    exists|at: int|
        0 <= at < users.len() && (#[trigger] offset(frames, users, gap, at)) <= r < offset(
            frames,
            users,
            gap,
            at,
        ) + candidate_ranges::user_ranges(frames, users[at], gap).len()
}

spec fn stands_at(
    frames: Seq<AttributedFrame>,
    users: Seq<u64>,
    gap: nat,
    at: int,
    g: int,
) -> bool {
    let all = candidate_ranges::ranges_of_users(frames, users, gap);
    let mine = candidate_ranges::user_ranges(frames, users[at], gap);
    let r = offset(frames, users, gap, at) + g;
    r < all.len() && all[r] == mine[g]
}

proof fn lemma_offsets(frames: Seq<AttributedFrame>, users: Seq<u64>, gap: nat)
    ensures
        forall|at: int, g: int|
            0 <= at < users.len() && 0 <= g < candidate_ranges::user_ranges(
                frames,
                users[at],
                gap,
            ).len() ==> #[trigger] stands_at(frames, users, gap, at, g),
        forall|r: int|
            0 <= r < candidate_ranges::ranges_of_users(frames, users, gap).len()
                ==> #[trigger] stands(frames, users, gap, r),
    decreases users.len(),
{
    let n = users.len() as int;
    if n > 0 {
        let fewer = users.drop_last();
        lemma_offsets(frames, fewer, gap);
        let all = candidate_ranges::ranges_of_users(frames, users, gap);
        let before = candidate_ranges::ranges_of_users(frames, fewer, gap);
        assert(users.take(n - 1) =~= fewer);
        assert forall|at: int| 0 <= at < n - 1 implies #[trigger] offset(frames, users, gap, at)
            == offset(frames, fewer, gap, at) by {
            assert(users.take(at) =~= fewer.take(at));
        }
        assert forall|at: int, g: int|
            0 <= at < n && 0 <= g < candidate_ranges::user_ranges(
                frames,
                users[at],
                gap,
            ).len() implies #[trigger] stands_at(frames, users, gap, at, g) by {
            if at < n - 1 {
                assert(fewer[at] == users[at]);
                assert(stands_at(frames, fewer, gap, at, g));
                assert(offset(frames, users, gap, at) == offset(frames, fewer, gap, at));
            } else {
                assert(offset(frames, users, gap, at) == before.len());
            }
        }
        assert forall|r: int| 0 <= r < all.len() implies #[trigger] stands(
            frames,
            users,
            gap,
            r,
        ) by {
            if r < before.len() {
                assert(stands(frames, fewer, gap, r));
                let at = choose|at: int|
                    0 <= at < fewer.len() && (#[trigger] offset(frames, fewer, gap, at)) <= r
                        < offset(frames, fewer, gap, at) + candidate_ranges::user_ranges(
                        frames,
                        fewer[at],
                        gap,
                    ).len();
                assert(fewer[at] == users[at]);
                assert(offset(frames, users, gap, at) == offset(frames, fewer, gap, at));
            } else {
                assert(offset(frames, users, gap, n - 1) == before.len());
            }
        }
    }
}

/// The place of a user among the speakers.
proof fn lemma_is_speaker(frames: Seq<AttributedFrame>, i: int)
    requires
        0 <= i < frames.len(),
    ensures
        candidate_ranges::speakers(frames).contains(frames[i].discord_user_id),
{
    let user = frames[i].discord_user_id;
    if !candidate_ranges::speakers(frames).contains(user) {
        candidate_ranges::lemma_unheard(frames, user);
        lemma_places(frames, user);
        assert(place(frames, user, i) < candidate_ranges::frames_of(frames, user).len());
    }
}

/// The range at a place is one of the ranges of its user, and the ranges of a
/// user stand at distinct places.
proof fn lemma_range_of_user(frames: Seq<AttributedFrame>, gap: nat, r: int) -> (found: (int, int))
    requires
        candidate_ranges::frames_fault(frames) is None,
        0 <= r < candidate_ranges::ranges_of_users(
            frames,
            candidate_ranges::speakers(frames),
            gap,
        ).len(),
    ensures
        ({
            let users = candidate_ranges::speakers(frames);
            let range = candidate_ranges::ranges_of_users(frames, users, gap)[r];
            let (at, g) = found;
            &&& 0 <= at < users.len()
            &&& users[at] == range.discord_user_id
            &&& 0 <= g < candidate_ranges::user_ranges(frames, range.discord_user_id, gap).len()
            &&& range == candidate_ranges::user_ranges(frames, range.discord_user_id, gap)[g]
            &&& r == offset(frames, users, gap, at) + g
        }),
{
    let users = candidate_ranges::speakers(frames);
    lemma_offsets(frames, users, gap);
    assert(stands(frames, users, gap, r));
    let at = choose|at: int|
        0 <= at < users.len() && (#[trigger] offset(frames, users, gap, at)) <= r < offset(
            frames,
            users,
            gap,
            at,
        ) + candidate_ranges::user_ranges(frames, users[at], gap).len();
    let g = r - offset(frames, users, gap, at);
    let mine = candidate_ranges::user_ranges(frames, users[at], gap);
    lemma_user(frames, users[at], gap);
    assert(stands_at(frames, users, gap, at, g));
    assert(mine[g].discord_user_id == users[at]);
    (at, g)
}

proof fn lemma_user_has_place(
    frames: Seq<AttributedFrame>,
    gap: nat,
    i: int,
    g: int,
) -> (r: int)
    requires
        candidate_ranges::frames_fault(frames) is None,
        0 <= i < frames.len(),
        0 <= g < candidate_ranges::user_ranges(frames, frames[i].discord_user_id, gap).len(),
    ensures
        0 <= r < candidate_ranges::ranges_of_users(
            frames,
            candidate_ranges::speakers(frames),
            gap,
        ).len(),
        candidate_ranges::ranges_of_users(frames, candidate_ranges::speakers(frames), gap)[r]
            == candidate_ranges::user_ranges(frames, frames[i].discord_user_id, gap)[g],
{
    let users = candidate_ranges::speakers(frames);
    lemma_is_speaker(frames, i);
    lemma_offsets(frames, users, gap);
    let at = choose|at: int|
        0 <= at < users.len() && users[at] == frames[i].discord_user_id;
    let mine = candidate_ranges::user_ranges(frames, users[at], gap);
    let r = offset(frames, users, gap, at) + g;
    assert(stands_at(frames, users, gap, at, g));
    r
}

proof fn lemma_reach(frames: Seq<AttributedFrame>, merge_gap_ms: u64, k: int)
    requires
        candidate_ranges::frames_fault(frames) is None,
        0 <= k < frames.len(),
    ensures
        within_reach(frames, k, merge_gap_ms) == reached(
            candidate_ranges::located_frames(
                candidate_ranges::frames_of(frames, frames[k].discord_user_id),
            ),
            (merge_gap_ms * 48) as nat,
            place(frames, frames[k].discord_user_id, k),
        ),
{
    let gap = (merge_gap_ms * 48) as nat;
    let user = frames[k].discord_user_id;
    let parts = candidate_ranges::located_frames(candidate_ranges::frames_of(frames, user));
    lemma_user(frames, user, gap);
    lemma_places(frames, user);
    let at = place(frames, user, k);
    if within_reach(frames, k, merge_gap_ms) {
        let m = choose|m: int|
            0 <= m < k && (#[trigger] frames[m]).discord_user_id == frames[k].discord_user_id
                && frames[k].tick * 960 <= frames[m].tick * 960 + frames[m].samples
                + merge_gap_ms * 48;
        let pm = place(frames, user, m);
        assert(pm < at);
        assert(parts[at].start_sample <= parts[pm].end_sample + gap);
    }
    if reached(parts, gap, at) {
        let pm = choose|m: int|
            0 <= m < at && parts[at].start_sample <= (#[trigger] parts[m]).end_sample + gap;
        let m = lemma_frame_at(frames, user, pm);
        if m > k {
            assert(place(frames, user, k) < place(frames, user, m));
        }
        assert(frames[m].discord_user_id == user);
    }
}

proof fn lemma_frame_at(frames: Seq<AttributedFrame>, user: u64, p: int) -> (i: int)
    requires
        0 <= p < candidate_ranges::frames_of(frames, user).len(),
    ensures
        0 <= i < frames.len(),
        frames[i].discord_user_id == user,
        place(frames, user, i) == p,
{
    lemma_places(frames, user);
    assert(placed(frames, user, p));
    choose|i: int|
        0 <= i < frames.len() && frames[i].discord_user_id == user && #[trigger] place(
            frames,
            user,
            i,
        ) == p
}

/// Every frame lies in a range of its user.
pub proof fn frames_lie_in_ranges(frames: Seq<AttributedFrame>, merge_gap_ms: u64, i: int)
    requires
        candidate_ranges::candidate_ranges(frames, merge_gap_ms) is Ok,
        0 <= i < frames.len(),
    ensures
        in_one_range(
            candidate_ranges::candidate_ranges(frames, merge_gap_ms)->Ok_0,
            frames[i],
            frames[i],
        ),
{
    let gap = (merge_gap_ms * 48) as nat;
    let user = frames[i].discord_user_id;
    let parts = candidate_ranges::located_frames(candidate_ranges::frames_of(frames, user));
    lemma_user(frames, user, gap);
    lemma_groups(parts, gap);
    let g = group(parts, gap, place(frames, user, i));
    lemma_held_by_own_group(frames, user, gap, i, g);
    let r = lemma_user_has_place(frames, gap, i, g);
}

/// Speech is joined across a pause of no more than the merge gap, and parted by
/// a longer one: two frames of a user are in one range exactly when no frame
/// from behind the first up to the second starts more than `merge_gap_ms`
/// milliseconds, 48 samples each, behind the end of all the user's frames
/// before it.
pub proof fn pauses_up_to_the_merge_gap_are_joined(
    frames: Seq<AttributedFrame>,
    merge_gap_ms: u64,
    i: int,
    j: int,
)
    requires
        candidate_ranges::candidate_ranges(frames, merge_gap_ms) is Ok,
        0 <= i < j < frames.len(),
        frames[i].discord_user_id == frames[j].discord_user_id,
    ensures
        in_one_range(
            candidate_ranges::candidate_ranges(frames, merge_gap_ms)->Ok_0,
            frames[i],
            frames[j],
        ) <==> (forall|k: int|
            i < k <= j && frames[k].discord_user_id == frames[i].discord_user_id
                ==> #[trigger] within_reach(frames, k, merge_gap_ms)),
{
    let gap = (merge_gap_ms * 48) as nat;
    let user = frames[i].discord_user_id;
    let all = candidate_ranges::candidate_ranges(frames, merge_gap_ms)->Ok_0;
    let parts = candidate_ranges::located_frames(candidate_ranges::frames_of(frames, user));
    lemma_user(frames, user, gap);
    lemma_groups(parts, gap);
    lemma_places(frames, user);
    let p = place(frames, user, i);
    let q = place(frames, user, j);
    lemma_one_group(parts, gap, p, q);
    if group(parts, gap, p) == group(parts, gap, q) {
        assert forall|k: int| i < k <= j && frames[k].discord_user_id == user implies
            #[trigger] within_reach(frames, k, merge_gap_ms) by {
            lemma_reach(frames, merge_gap_ms, k);
            let at = place(frames, user, k);
            assert(p < at);
            if k < j {
                assert(at < q);
            }
            assert(reached(parts, gap, at));
        }
        let g = group(parts, gap, p);
        lemma_held_by_own_group(frames, user, gap, i, g);
        lemma_held_by_own_group(frames, user, gap, j, g);
        let r = lemma_user_has_place(frames, gap, i, g);
        assert(holds_frame(all[r], frames[i]));
    } else {
        let at = choose|k: int| p < k <= q && !#[trigger] reached(parts, gap, k);
        let k = lemma_frame_at(frames, user, at);
        if k <= i {
            if k < i {
                assert(place(frames, user, k) < place(frames, user, i));
            }
        }
        if k > j {
            assert(place(frames, user, j) < place(frames, user, k));
        }
        lemma_reach(frames, merge_gap_ms, k);
        assert(!within_reach(frames, k, merge_gap_ms));
        if in_one_range(all, frames[i], frames[j]) {
            let r = choose|r: int|
                0 <= r < all.len() && holds_frame(#[trigger] all[r], frames[i]) && holds_frame(
                    all[r],
                    frames[j],
                );
            let (place_of, g) = lemma_range_of_user(frames, gap, r);
            lemma_held_by_own_group(frames, user, gap, i, g);
            lemma_held_by_own_group(frames, user, gap, j, g);
        }
    }
}

/// Two frames of a user that follow one another are in one range exactly when
/// the pause between them is no longer than the merge gap, unless a frame
/// before them outlasts the first.
pub proof fn consecutive_frames_are_joined_by_their_pause(
    frames: Seq<AttributedFrame>,
    merge_gap_ms: u64,
    i: int,
    j: int,
)
    requires
        candidate_ranges::candidate_ranges(frames, merge_gap_ms) is Ok,
        0 <= i < j < frames.len(),
        frames[i].discord_user_id == frames[j].discord_user_id,
        forall|k: int|
            i < k < j ==> (#[trigger] frames[k]).discord_user_id != frames[i].discord_user_id,
        forall|m: int|
            0 <= m < i && (#[trigger] frames[m]).discord_user_id == frames[i].discord_user_id
                ==> frames[m].tick * 960 + frames[m].samples <= frames[i].tick * 960
                + frames[i].samples,
    ensures
        in_one_range(
            candidate_ranges::candidate_ranges(frames, merge_gap_ms)->Ok_0,
            frames[i],
            frames[j],
        ) <==> frames[j].tick * 960 - (frames[i].tick * 960 + frames[i].samples) <= merge_gap_ms
            * 48,
{
    pauses_up_to_the_merge_gap_are_joined(frames, merge_gap_ms, i, j);
    let user = frames[i].discord_user_id;
    let joined = frames[j].tick * 960 - (frames[i].tick * 960 + frames[i].samples) <= merge_gap_ms
        * 48;
    assert(within_reach(frames, j, merge_gap_ms) == joined) by {
        if joined {
            assert(frames[i].discord_user_id == user);
        }
        if within_reach(frames, j, merge_gap_ms) {
            let m = choose|m: int|
                0 <= m < j && (#[trigger] frames[m]).discord_user_id == frames[j].discord_user_id
                    && frames[j].tick * 960 <= frames[m].tick * 960 + frames[m].samples
                    + merge_gap_ms * 48;
            assert(m <= i);
        }
    }
    assert((forall|k: int|
        i < k <= j && frames[k].discord_user_id == user ==> #[trigger] within_reach(
            frames,
            k,
            merge_gap_ms,
        )) <==> joined) by {
        if joined {
            assert forall|k: int| i < k <= j && frames[k].discord_user_id == user implies
                #[trigger] within_reach(frames, k, merge_gap_ms) by {
                assert(k == j);
            }
        }
    }
}

/// Two ranges of one user lie more than the merge gap apart.
pub proof fn ranges_of_a_user_are_parted(
    frames: Seq<AttributedFrame>,
    merge_gap_ms: u64,
    left: int,
    right: int,
)
    requires
        candidate_ranges::candidate_ranges(frames, merge_gap_ms) is Ok,
        0 <= left < candidate_ranges::candidate_ranges(frames, merge_gap_ms)->Ok_0.len(),
        0 <= right < candidate_ranges::candidate_ranges(frames, merge_gap_ms)->Ok_0.len(),
        left != right,
        candidate_ranges::candidate_ranges(frames, merge_gap_ms)->Ok_0[left].discord_user_id
            == candidate_ranges::candidate_ranges(
            frames,
            merge_gap_ms,
        )->Ok_0[right].discord_user_id,
    ensures
        ({
            let ranges = candidate_ranges::candidate_ranges(frames, merge_gap_ms)->Ok_0;
            ||| ranges[left].end_sample + merge_gap_ms * 48 < ranges[right].start_sample
            ||| ranges[right].end_sample + merge_gap_ms * 48 < ranges[left].start_sample
        }),
{
    let gap = (merge_gap_ms * 48) as nat;
    let ranges = candidate_ranges::candidate_ranges(frames, merge_gap_ms)->Ok_0;
    let users = candidate_ranges::speakers(frames);
    let user = ranges[left].discord_user_id;
    let (at, g) = lemma_range_of_user(frames, gap, left);
    let (there, h) = lemma_range_of_user(frames, gap, right);
    candidate_ranges::lemma_speakers_distinct(frames);
    assert(at == there);
    lemma_user(frames, user, gap);
    let mine = candidate_ranges::user_ranges(frames, user, gap);
    if g < h {
        assert(mine[g].end_sample + gap < mine[h].start_sample);
    } else {
        assert(mine[h].end_sample + gap < mine[g].start_sample);
    }
}

/// A range starts with a frame that it holds.
pub open spec fn starts_with_frame(
    frames: Seq<AttributedFrame>,
    range: CandidateRange,
    i: int,
) -> bool {
    &&& 0 <= i < frames.len()
    &&& holds_frame(range, frames[i])
    &&& range.start_sample == frames[i].tick * 960
    &&& range.source_start_sample == frames[i].tick * 960 + surplus(
        frames.take(i),
        range.discord_user_id,
    )
}

/// A range reaches in the session to the end of a frame that it holds.
pub open spec fn ends_with_frame(
    frames: Seq<AttributedFrame>,
    range: CandidateRange,
    i: int,
) -> bool {
    &&& 0 <= i < frames.len()
    &&& holds_frame(range, frames[i])
    &&& range.end_sample == frames[i].tick * 960 + frames[i].samples
}

/// A range reaches in the track to the end of the last frame that it holds.
pub open spec fn source_ends_with_frame(
    frames: Seq<AttributedFrame>,
    range: CandidateRange,
    i: int,
) -> bool {
    &&& 0 <= i < frames.len()
    &&& holds_frame(range, frames[i])
    &&& range.source_end_sample == frames[i].tick * 960 + frames[i].samples + surplus(
        frames.take(i),
        range.discord_user_id,
    )
    &&& forall|k: int| i < k < frames.len() ==> !holds_frame(range, #[trigger] frames[k])
}

proof fn lemma_range_start(
    frames: Seq<AttributedFrame>,
    user: u64,
    gap: nat,
    g: int,
) -> (i: int)
    requires
        candidate_ranges::frames_fault(frames) is None,
        0 <= g < candidate_ranges::user_ranges(frames, user, gap).len(),
    ensures
        starts_with_frame(frames, candidate_ranges::user_ranges(frames, user, gap)[g], i),
{
    let range = candidate_ranges::user_ranges(frames, user, gap)[g];
    let parts = candidate_ranges::located_frames(candidate_ranges::frames_of(frames, user));
    lemma_user(frames, user, gap);
    lemma_groups(parts, gap);
    assert(range.discord_user_id == user);
    assert(opened(parts, gap, g));
    let first = choose|k: int|
        0 <= k < parts.len() && #[trigger] group(parts, gap, k) == g && range.start_sample
            == parts[k].start_sample && range.source_start_sample == parts[k].source_start_sample
            && range.discord_user_id == parts[k].discord_user_id;
    let i = lemma_frame_at(frames, user, first);
    lemma_held_by_own_group(frames, user, gap, i, g);
    i
}

proof fn lemma_range_end(
    frames: Seq<AttributedFrame>,
    user: u64,
    gap: nat,
    g: int,
) -> (i: int)
    requires
        candidate_ranges::frames_fault(frames) is None,
        0 <= g < candidate_ranges::user_ranges(frames, user, gap).len(),
    ensures
        ends_with_frame(frames, candidate_ranges::user_ranges(frames, user, gap)[g], i),
{
    let range = candidate_ranges::user_ranges(frames, user, gap)[g];
    let parts = candidate_ranges::located_frames(candidate_ranges::frames_of(frames, user));
    lemma_user(frames, user, gap);
    lemma_groups(parts, gap);
    assert(range.discord_user_id == user);
    assert(closed_at(parts, gap, g));
    let end = choose|k: int|
        0 <= k < parts.len() && #[trigger] group(parts, gap, k) == g && range.end_sample
            == parts[k].end_sample;
    let i = lemma_frame_at(frames, user, end);
    lemma_held_by_own_group(frames, user, gap, i, g);
    i
}

proof fn lemma_range_source_end(
    frames: Seq<AttributedFrame>,
    user: u64,
    gap: nat,
    g: int,
) -> (i: int)
    requires
        candidate_ranges::frames_fault(frames) is None,
        0 <= g < candidate_ranges::user_ranges(frames, user, gap).len(),
    ensures
        source_ends_with_frame(frames, candidate_ranges::user_ranges(frames, user, gap)[g], i),
{
    let range = candidate_ranges::user_ranges(frames, user, gap)[g];
    let parts = candidate_ranges::located_frames(candidate_ranges::frames_of(frames, user));
    lemma_user(frames, user, gap);
    lemma_groups(parts, gap);
    assert(range.discord_user_id == user);
    assert(source_closed_at(parts, gap, g));
    let last = choose|k: int| #[trigger] last_of(parts, gap, g, k);
    let i = lemma_frame_at(frames, user, last);
    lemma_places(frames, user);
    lemma_held_by_own_group(frames, user, gap, i, g);
    assert forall|k: int| i < k < frames.len() implies !holds_frame(range, #[trigger] frames[k]) by {
        if frames[k].discord_user_id == user {
            assert(place(frames, user, i) < place(frames, user, k));
            assert(group(parts, gap, place(frames, user, k)) > g);
            lemma_held_by_own_group(frames, user, gap, k, g);
        }
    }
    i
}

/// A range reaches exactly as far as its frames do. In the track, where a frame
/// stands behind all earlier frames of its user and the silence for ticks
/// without one, it lies as many samples further than in the session as those
/// frames exceed one tick each.
pub proof fn ranges_reach_as_far_as_their_frames(
    frames: Seq<AttributedFrame>,
    merge_gap_ms: u64,
    r: int,
)
    requires
        candidate_ranges::candidate_ranges(frames, merge_gap_ms) is Ok,
        0 <= r < candidate_ranges::candidate_ranges(frames, merge_gap_ms)->Ok_0.len(),
    ensures
        ({
            let range = candidate_ranges::candidate_ranges(frames, merge_gap_ms)->Ok_0[r];
            &&& exists|i: int| #[trigger] starts_with_frame(frames, range, i)
            &&& exists|i: int| #[trigger] ends_with_frame(frames, range, i)
            &&& exists|i: int| #[trigger] source_ends_with_frame(frames, range, i)
        }),
{
    let gap = (merge_gap_ms * 48) as nat;
    let range = candidate_ranges::candidate_ranges(frames, merge_gap_ms)->Ok_0[r];
    let user = range.discord_user_id;
    let (at, g) = lemma_range_of_user(frames, gap, r);
    let i = lemma_range_start(frames, user, gap, g);
    let e = lemma_range_end(frames, user, gap, g);
    let l = lemma_range_source_end(frames, user, gap, g);
    assert(starts_with_frame(frames, range, i));
    assert(ends_with_frame(frames, range, e));
    assert(source_ends_with_frame(frames, range, l));
}

/// A frame follows all earlier frames of its user, and its samples can be
/// counted in the session and in the track.
pub open spec fn follows(frames: Seq<AttributedFrame>, i: int) -> bool {
    &&& forall|m: int|
        0 <= m < i && (#[trigger] frames[m]).discord_user_id == frames[i].discord_user_id
            ==> frames[m].tick < frames[i].tick
    &&& frames[i].tick * 960 + frames[i].samples <= u64::MAX
    &&& frames[i].tick * 960 + frames[i].samples + surplus(
        frames.take(i),
        frames[i].discord_user_id,
    ) <= u64::MAX
}

proof fn lemma_ticks_increase(own: Seq<AttributedFrame>)
    requires
        candidate_ranges::sound(own),
    ensures
        forall|p: int|
            0 <= p < own.len() ==> (#[trigger] own[p]).tick < candidate_ranges::next_tick(own),
    decreases own.len(),
{
    if own.len() > 0 {
        lemma_ticks_increase(own.drop_last());
        assert forall|p: int| 0 <= p < own.len() implies (#[trigger] own[p]).tick
            < candidate_ranges::next_tick(own) by {
            if p < own.len() - 1 {
                assert(own.drop_last()[p] == own[p]);
            }
        }
    }
}

proof fn lemma_no_fault_means_following(frames: Seq<AttributedFrame>)
    ensures
        candidate_ranges::frames_fault(frames) is None <==> (forall|i: int|
            0 <= i < frames.len() ==> #[trigger] follows(frames, i)),
    decreases frames.len(),
{
    let n = frames.len() as int;
    if n > 0 {
        let earlier = frames.drop_last();
        let last = frames.last();
        lemma_no_fault_means_following(earlier);
        assert forall|i: int| 0 <= i < n - 1 implies #[trigger] follows(frames, i) == follows(
            earlier,
            i,
        ) by {
            assert(earlier[i] == frames[i]);
            assert(earlier.take(i) =~= frames.take(i));
            assert(forall|m: int| 0 <= m < i ==> #[trigger] earlier[m] == frames[m]);
            if follows(earlier, i) {
                assert forall|m: int|
                    0 <= m < i && (#[trigger] frames[m]).discord_user_id
                        == frames[i].discord_user_id implies frames[m].tick < frames[i].tick by {
                    assert(earlier[m] == frames[m]);
                }
            }
        }
        if candidate_ranges::frames_fault(earlier) is None {
            let user = last.discord_user_id;
            let own = candidate_ranges::frames_of(earlier, user);
            candidate_ranges::lemma_own_frames_are_sound(earlier, user);
            lemma_ticks_increase(own);
            lemma_places(earlier, user);
            lemma_surplus(earlier, user);
            assert(frames.take(n - 1) =~= earlier);
            assert(candidate_ranges::source_start(own, last) == last.tick * 960 + surplus(
                earlier,
                user,
            ));
            if candidate_ranges::next_tick(own) <= last.tick {
                assert forall|m: int|
                    0 <= m < n - 1 && (#[trigger] frames[m]).discord_user_id == user implies
                    frames[m].tick < last.tick by {
                    assert(earlier[m] == frames[m]);
                    assert(own[place(earlier, user, m)] == earlier[m]);
                }
            } else {
                let p = own.len() - 1;
                assert(placed(earlier, user, p));
                let m = choose|i: int|
                    0 <= i < earlier.len() && earlier[i].discord_user_id == user
                        && #[trigger] place(earlier, user, i) == p;
                assert(frames[m] == earlier[m]);
                assert(own[p] == frames[m]);
                assert(!follows(frames, n - 1));
            }
            assert(candidate_ranges::frame_fault(earlier, last) is None <==> follows(
                frames,
                n - 1,
            ));
        } else {
            let i = choose|i: int| 0 <= i < earlier.len() && !#[trigger] follows(earlier, i);
            assert(!follows(frames, i));
        }
    }
}

/// Ranges are owed exactly when the merge gap can be counted in samples and
/// every frame follows those of its user before it.
pub proof fn ranges_are_owed_to_ordered_frames(frames: Seq<AttributedFrame>, merge_gap_ms: u64)
    ensures
        candidate_ranges::candidate_ranges(frames, merge_gap_ms) is Ok <==> merge_gap_ms * 48
            <= u64::MAX && (forall|i: int|
            0 <= i < frames.len() ==> #[trigger] follows(frames, i)),
{
    lemma_no_fault_means_following(frames);
}

} // verus!
