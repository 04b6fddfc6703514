//! Candidate speech ranges reconstructed from attributed playout activity.
//!
//! Replay order matches the order in which the live writer received frames.
//! Simulating its silence insertion keeps source offsets exact even after
//! frames of unusual size.

use std::collections::HashMap;

use vstd::prelude::*;

use crate::audio::SAMPLES_PER_MILLISECOND;
use crate::audio::SAMPLES_PER_TICK;
use crate::failure;
use crate::failure::Failure;
use crate::text;

verus! {

broadcast use vstd::std_specs::hash::group_hash_axioms;

/// Candidate boundary of one user's speech: where it lies in the session and
/// where in the user's aligned track.
#[derive(Clone, Copy, Debug, PartialEq, Eq, Structural)]
pub struct CandidateRange {
    pub discord_user_id: u64,
    pub start_sample: u64,
    pub end_sample: u64,
    pub source_start_sample: u64,
    pub source_end_sample: u64,
}

/// A decoded frame whose speaker is known.
#[derive(Clone, Copy, Debug, PartialEq, Eq, Structural)]
pub struct AttributedFrame {
    pub discord_user_id: u64,
    pub tick: u64,
    pub samples: u64,
}

/// The frames of one user, in order.
pub open spec fn frames_of(frames: Seq<AttributedFrame>, user: u64) -> Seq<AttributedFrame>
    decreases frames.len(),
{
    if frames.len() == 0 {
        Seq::empty()
    } else if frames.last().discord_user_id == user {
        frames_of(frames.drop_last(), user).push(frames.last())
    } else {
        frames_of(frames.drop_last(), user)
    }
}

/// The first tick at which a user's next frame may stand.
pub open spec fn next_tick(own: Seq<AttributedFrame>) -> nat {
    if own.len() == 0 {
        0
    } else {
        own.last().tick as nat + 1
    }
}

/// Where a frame starts in the track of a user with earlier frames: behind
/// what was written, with silence for every tick left out.
pub open spec fn source_start(own: Seq<AttributedFrame>, frame: AttributedFrame) -> int {
    aligned_length(own) + (frame.tick - next_tick(own)) * SAMPLES_PER_TICK
}

/// The length of the track that a user's frames make up.
pub open spec fn aligned_length(own: Seq<AttributedFrame>) -> int
    decreases own.len(),
{
    if own.len() == 0 {
        0
    } else {
        aligned_length(own.drop_last()) + (own.last().tick - next_tick(own.drop_last()))
            * SAMPLES_PER_TICK + own.last().samples
    }
}

/// The range of one frame behind a user's earlier frames.
pub open spec fn located(own: Seq<AttributedFrame>, frame: AttributedFrame) -> CandidateRange {
    CandidateRange {
        discord_user_id: frame.discord_user_id,
        start_sample: (frame.tick * SAMPLES_PER_TICK) as u64,
        end_sample: (frame.tick * SAMPLES_PER_TICK + frame.samples) as u64,
        source_start_sample: source_start(own, frame) as u64,
        source_end_sample: (source_start(own, frame) + frame.samples) as u64,
    }
}

/// What keeps a frame from following earlier frames.
pub open spec fn frame_fault(earlier: Seq<AttributedFrame>, frame: AttributedFrame) -> Option<
    Seq<char>,
> {
    let own = frames_of(earlier, frame.discord_user_id);
    if frame.tick < next_tick(own) {
        Some(
            "playout tick "@ + text::decimal(frame.tick as nat) + " for Discord user "@
                + text::decimal(frame.discord_user_id as nat) + " follows tick "@ + text::decimal(
                (next_tick(own) - 1) as nat,
            ),
        )
    } else if source_start(own, frame) > u64::MAX {
        Some("aligned source offset overflow"@)
    } else if source_start(own, frame) + frame.samples > u64::MAX {
        Some("aligned source range overflow"@)
    } else if frame.tick * SAMPLES_PER_TICK > u64::MAX {
        Some("session range offset overflow"@)
    } else if frame.tick * SAMPLES_PER_TICK + frame.samples > u64::MAX {
        Some("session range overflow"@)
    } else {
        None
    }
}

/// The first fault among frames, in order.
pub open spec fn frames_fault(frames: Seq<AttributedFrame>) -> Option<Seq<char>>
    decreases frames.len(),
{
    if frames.len() == 0 {
        None
    } else {
        match frames_fault(frames.drop_last()) {
            Some(fault) => Some(fault),
            None => frame_fault(frames.drop_last(), frames.last()),
        }
    }
}

/// One range for each frame of a user, in order.
pub open spec fn located_frames(own: Seq<AttributedFrame>) -> Seq<CandidateRange>
    decreases own.len(),
{
    if own.len() == 0 {
        Seq::empty()
    } else {
        located_frames(own.drop_last()).push(located(own.drop_last(), own.last()))
    }
}

/// Two ranges as one that reaches as far as either.
pub open spec fn extended(range: CandidateRange, next: CandidateRange) -> CandidateRange {
    CandidateRange {
        end_sample: if next.end_sample > range.end_sample {
            next.end_sample
        } else {
            range.end_sample
        },
        source_end_sample: if next.source_end_sample > range.source_end_sample {
            next.source_end_sample
        } else {
            range.source_end_sample
        },
        ..range
    }
}

/// Ranges of one user, joined wherever no more than a gap parts them.
pub open spec fn merged(ranges: Seq<CandidateRange>, gap: nat) -> Seq<CandidateRange>
    decreases ranges.len(),
{
    if ranges.len() == 0 {
        Seq::empty()
    } else {
        let done = merged(ranges.drop_last(), gap);
        let next = ranges.last();
        if done.len() > 0 && next.start_sample <= done.last().end_sample + gap {
            done.update(done.len() - 1, extended(done.last(), next))
        } else {
            done.push(next)
        }
    }
}

/// The users heard, in the order in which they are first heard.
pub open spec fn speakers(frames: Seq<AttributedFrame>) -> Seq<u64>
    decreases frames.len(),
{
    if frames.len() == 0 {
        Seq::empty()
    } else {
        let earlier = speakers(frames.drop_last());
        let user = frames.last().discord_user_id;
        if earlier.contains(user) {
            earlier
        } else {
            earlier.push(user)
        }
    }
}

/// The speech ranges of one user.
pub open spec fn user_ranges(frames: Seq<AttributedFrame>, user: u64, gap: nat) -> Seq<
    CandidateRange,
> {
    merged(located_frames(frames_of(frames, user)), gap)
}

/// The speech ranges of some users, user by user.
pub open spec fn ranges_of_users(frames: Seq<AttributedFrame>, users: Seq<u64>, gap: nat) -> Seq<
    CandidateRange,
>
    decreases users.len(),
{
    if users.len() == 0 {
        Seq::empty()
    } else {
        ranges_of_users(frames, users.drop_last(), gap) + user_ranges(frames, users.last(), gap)
    }
}

/// The candidate ranges of a replayed session, or why there are none.
pub open spec fn candidate_ranges(frames: Seq<AttributedFrame>, merge_gap_ms: u64) -> Result<
    Seq<CandidateRange>,
    Seq<char>,
> {
    let gap = (merge_gap_ms * SAMPLES_PER_MILLISECOND) as nat;
    if gap > u64::MAX {
        Err("segmentation.merge_gap_ms is too large"@)
    } else {
        match frames_fault(frames) {
            Some(fault) => Err(fault),
            None => Ok(ranges_of_users(frames, speakers(frames), gap)),
        }
    }
}

struct UserAlignment {
    discord_user_id: u64,
    next_tick: u64,
    output_samples: u64,
    ranges: Vec<CandidateRange>,
}

impl UserAlignment {
    spec fn describes(self, own: Seq<AttributedFrame>, gap: nat) -> bool {
        &&& self.next_tick == next_tick(own)
        &&& self.output_samples == aligned_length(own)
        &&& self.ranges@ == merged(located_frames(own), gap)
    }
}

/// Place a user's next frame and join it to the user's last range where the
/// gap allows.
fn follow(
    alignment: &mut UserAlignment,
    frame: AttributedFrame,
    merge_gap_samples: u64,
    Ghost(earlier): Ghost<Seq<AttributedFrame>>,
) -> (result: Result<(), Failure>)
    requires
        old(alignment).discord_user_id == frame.discord_user_id,
        old(alignment).describes(
            frames_of(earlier, frame.discord_user_id),
            merge_gap_samples as nat,
        ),
    ensures
        failure::outcome(result) == (match frame_fault(earlier, frame) {
            Some(fault) => Err::<(), Seq<char>>(fault),
            None => Ok(()),
        }),
        result is Ok ==> final(alignment).discord_user_id == frame.discord_user_id && final(alignment).describes(
            frames_of(earlier, frame.discord_user_id).push(frame),
            merge_gap_samples as nat,
        ),
{
    let ghost own = frames_of(earlier, frame.discord_user_id);
    if frame.tick < alignment.next_tick {
        return Err(
            Failure::new(
                "playout tick ".to_owned().concat(text::decimal_text(frame.tick).as_str()).concat(
                    " for Discord user ",
                ).concat(text::decimal_text(frame.discord_user_id).as_str()).concat(
                    " follows tick ",
                ).concat(text::decimal_text(alignment.next_tick - 1).as_str()),
            ),
        );
    }
    let missing_ticks: u64 = frame.tick - alignment.next_tick;
    assert(aligned_length(own) >= 0);
    let inserted_silence: u64 = match missing_ticks.checked_mul(SAMPLES_PER_TICK) {
        Some(value) => value,
        None => {
            return Err(Failure::from_text("aligned source offset overflow"));
        },
    };
    let source_start_sample: u64 = match alignment.output_samples.checked_add(inserted_silence) {
        Some(value) => value,
        None => {
            return Err(Failure::from_text("aligned source offset overflow"));
        },
    };
    let source_end_sample: u64 = match source_start_sample.checked_add(frame.samples) {
        Some(value) => value,
        None => {
            return Err(Failure::from_text("aligned source range overflow"));
        },
    };
    let start_sample: u64 = match frame.tick.checked_mul(SAMPLES_PER_TICK) {
        Some(value) => value,
        None => {
            return Err(Failure::from_text("session range offset overflow"));
        },
    };
    let end_sample: u64 = match start_sample.checked_add(frame.samples) {
        Some(value) => value,
        None => {
            return Err(Failure::from_text("session range overflow"));
        },
    };
    let range = CandidateRange {
        discord_user_id: frame.discord_user_id,
        start_sample,
        end_sample,
        source_start_sample,
        source_end_sample,
    };
    proof {
        assert(own.push(frame).drop_last() =~= own);
        assert(located_frames(own.push(frame)) =~= located_frames(own).push(range));
        assert(located_frames(own).push(range).drop_last() =~= located_frames(own));
    }
    join_range(&mut alignment.ranges, range, merge_gap_samples);
    alignment.next_tick = frame.tick + 1;
    alignment.output_samples = source_end_sample;
    Ok(())
}

/// Add a range behind a user's ranges, joined to the last one where the gap
/// allows.
fn join_range(ranges: &mut Vec<CandidateRange>, next: CandidateRange, gap: u64)
    ensures
        final(ranges)@ == (if old(ranges)@.len() > 0 && next.start_sample <= old(ranges)@.last().end_sample + gap {
            old(ranges)@.update(
                old(ranges)@.len() - 1,
                extended(old(ranges)@.last(), next),
            )
        } else {
            old(ranges)@.push(next)
        }),
{
    let count: usize = ranges.len();
    if count > 0 {
        let last = ranges[count - 1];
        let reach: u64 = match last.end_sample.checked_add(gap) {
            Some(value) => value,
            None => u64::MAX,
        };
        if next.start_sample <= reach {
            let end_sample: u64 = if next.end_sample > last.end_sample {
                next.end_sample
            } else {
                last.end_sample
            };
            let source_end_sample: u64 = if next.source_end_sample > last.source_end_sample {
                next.source_end_sample
            } else {
                last.source_end_sample
            };
            ranges.set(
                count - 1,
                CandidateRange {
                    discord_user_id: last.discord_user_id,
                    start_sample: last.start_sample,
                    end_sample,
                    source_start_sample: last.source_start_sample,
                    source_end_sample,
                },
            );
            return ;
        }
    }
    ranges.push(next);
}

spec fn aligned(
    alignments: Seq<UserAlignment>,
    places: Map<u64, usize>,
    frames: Seq<AttributedFrame>,
    gap: nat,
) -> bool {
    &&& alignments.len() == speakers(frames).len()
    &&& forall|i: int|
        #![trigger alignments[i]]
        0 <= i < alignments.len() ==> alignments[i].discord_user_id == speakers(frames)[i]
            && alignments[i].describes(frames_of(frames, speakers(frames)[i]), gap)
    &&& forall|user: u64|
        #![trigger places.contains_key(user)]
        places.contains_key(user) == speakers(frames).contains(user)
    &&& forall|user: u64|
        #![trigger places[user]]
        places.contains_key(user) ==> places[user] < alignments.len() && speakers(
            frames,
        )[places[user] as int] == user
}

pub proof fn lemma_unheard(frames: Seq<AttributedFrame>, user: u64)
    requires
        !speakers(frames).contains(user),
    ensures
        frames_of(frames, user) == Seq::<AttributedFrame>::empty(),
    decreases frames.len(),
{
    if frames.len() > 0 {
        let earlier = speakers(frames.drop_last());
        let last = frames.last().discord_user_id;
        assert(!earlier.contains(user)) by {
            if earlier.contains(user) {
                let i = choose|i: int| 0 <= i < earlier.len() && earlier[i] == user;
                assert(speakers(frames)[i] == user);
            }
        }
        assert(last != user) by {
            if last == user {
                assert(speakers(frames)[earlier.len() as int] == user);
            }
        }
        lemma_unheard(frames.drop_last(), user);
    }
}

pub proof fn lemma_speakers_distinct(frames: Seq<AttributedFrame>)
    ensures
        speakers(frames).no_duplicates(),
    decreases frames.len(),
{
    if frames.len() > 0 {
        lemma_speakers_distinct(frames.drop_last());
    }
}

proof fn lemma_frames_fault_stops(frames: Seq<AttributedFrame>, count: int)
    requires
        0 <= count <= frames.len(),
        frames_fault(frames.take(count)) is Some,
    ensures
        frames_fault(frames) == frames_fault(frames.take(count)),
    decreases frames.len(),
{
    if count == frames.len() {
        assert(frames.take(count) =~= frames);
    } else {
        assert(frames.drop_last().take(count) =~= frames.take(count));
        lemma_frames_fault_stops(frames.drop_last(), count);
    }
}

/// Reconstruct the speech ranges of every user from attributed frames in
/// replay order.
pub fn build_candidate_ranges(frames: Vec<AttributedFrame>, merge_gap_ms: u64) -> (ranges: Result<
    Vec<CandidateRange>,
    Failure,
>)
    ensures
        failure::listing(ranges) == candidate_ranges(frames@, merge_gap_ms),
{
    let merge_gap_samples: u64 = match merge_gap_ms.checked_mul(SAMPLES_PER_MILLISECOND) {
        Some(value) => value,
        None => {
            return Err(Failure::from_text("segmentation.merge_gap_ms is too large"));
        },
    };
    let ghost gap = merge_gap_samples as nat;
    let mut alignments: Vec<UserAlignment> = Vec::new();
    let mut places: HashMap<u64, usize> = HashMap::new();
    let mut index: usize = 0;
    assert(frames@.take(0) =~= Seq::<AttributedFrame>::empty());
    while index < frames.len()
        invariant
            index <= frames.len(),
            gap == merge_gap_samples as nat,
            gap == merge_gap_ms * SAMPLES_PER_MILLISECOND,
            frames_fault(frames@.take(index as int)) is None,
            aligned(alignments@, places@, frames@.take(index as int), gap),
        decreases frames.len() - index,
    {
        let frame = frames[index];
        let user: u64 = frame.discord_user_id;
        let ghost earlier = frames@.take(index as int);
        let ghost longer = frames@.take(index + 1);
        assert(longer.drop_last() =~= earlier);
        assert(longer.last() == frame);
        let known = places.get(&user);
        let place: usize = match known {
            Some(place) => *place,
            None => {
                proof {
                    lemma_unheard(earlier, user);
                }
                let place: usize = alignments.len();
                alignments.push(
                    UserAlignment {
                        discord_user_id: user,
                        next_tick: 0,
                        output_samples: 0,
                        ranges: Vec::new(),
                    },
                );
                places.insert(user, place);
                place
            },
        };
        let ghost before = alignments@;
        proof {
            lemma_speakers_distinct(longer);
            assert(speakers(longer)[place as int] == user);
            assert(before[place as int].describes(frames_of(earlier, user), gap));
        }
        let mut alignment = alignments.remove(place);
        match follow(&mut alignment, frame, merge_gap_samples, Ghost(earlier)) {
            Err(fault) => {
                proof {
                    lemma_frames_fault_stops(frames@, index + 1);
                }
                return Err(fault);
            },
            Ok(_) => {},
        }
        let ghost placed = alignment;
        alignments.insert(place, alignment);
        proof {
            assert(alignments@ =~= before.update(place as int, placed));
            assert forall|i: int| #![trigger alignments@[i]] 0 <= i < alignments@.len() implies
                alignments@[i].discord_user_id == speakers(longer)[i] && alignments@[i].describes(
                frames_of(longer, speakers(longer)[i]),
                gap,
            ) by {
                if i != place {
                    assert(speakers(longer)[i] != user);
                    assert(alignments@[i] == before[i]);
                }
            }
            assert forall|other: u64| #![trigger places@.contains_key(other)]
                places@.contains_key(other) == speakers(longer).contains(other) by {
                if speakers(earlier).contains(other) {
                    let i = choose|i: int|
                        0 <= i < speakers(earlier).len() && speakers(earlier)[i] == other;
                    assert(speakers(longer)[i] == other);
                }
                if speakers(longer).contains(other) && other != user {
                    let i = choose|i: int|
                        0 <= i < speakers(longer).len() && speakers(longer)[i] == other;
                    assert(speakers(earlier)[i] == other);
                }
            }
            assert forall|other: u64| #![trigger places@[other]]
                places@.contains_key(other) implies places@[other] < alignments@.len() && speakers(
                longer,
            )[places@[other] as int] == other by {
                if other != user {
                    assert(speakers(earlier).contains(other));
                    assert(speakers(earlier)[places@[other] as int] == other);
                }
            }
        }
        index = index + 1;
    }
    assert(frames@.take(frames@.len() as int) =~= frames@);
    let mut ranges: Vec<CandidateRange> = Vec::new();
    let ghost users = speakers(frames@);
    let mut place: usize = 0;
    assert(users.take(0) =~= Seq::<u64>::empty());
    while place < alignments.len()
        invariant
            place <= alignments.len(),
            users == speakers(frames@),
            aligned(alignments@, places@, frames@, gap),
            ranges@ == ranges_of_users(frames@, users.take(place as int), gap),
        decreases alignments.len() - place,
    {
        let ghost before = ranges@;
        append_ranges(&mut ranges, &alignments[place].ranges);
        proof {
            let longer = users.take(place + 1);
            assert(longer.drop_last() =~= users.take(place as int));
            assert(longer.last() == users[place as int]);
            assert(alignments@[place as int].describes(
                frames_of(frames@, users[place as int]),
                gap,
            ));
        }
        place = place + 1;
    }
    assert(users.take(users.len() as int) =~= users);
    Ok(ranges)
}

fn append_ranges(ranges: &mut Vec<CandidateRange>, more: &Vec<CandidateRange>)
    ensures
        final(ranges)@ == old(ranges)@ + more@,
{
    let ghost before = ranges@;
    let mut index: usize = 0;
    assert(ranges@ =~= before + more@.take(0));
    while index < more.len()
        invariant
            index <= more.len(),
            ranges@ == before + more@.take(index as int),
        decreases more.len() - index,
    {
        ranges.push(more[index]);
        assert(more@.take(index + 1) =~= more@.take(index as int).push(more@[index as int]));
        assert(ranges@ =~= before + more@.take(index + 1));
        index = index + 1;
    }
    assert(more@.take(more@.len() as int) =~= more@);
}

/// One user's frames follow one another, and every offset fits.
pub open spec fn sound(own: Seq<AttributedFrame>) -> bool
    decreases own.len(),
{
    own.len() > 0 ==> {
        let earlier = own.drop_last();
        let frame = own.last();
        &&& sound(earlier)
        &&& frame.tick >= next_tick(earlier)
        &&& 0 <= source_start(earlier, frame)
        &&& source_start(earlier, frame) + frame.samples <= u64::MAX
        &&& frame.tick * SAMPLES_PER_TICK + frame.samples <= u64::MAX
    }
}

pub proof fn lemma_own_frames_are_sound(frames: Seq<AttributedFrame>, user: u64)
    requires
        frames_fault(frames) is None,
    ensures
        sound(frames_of(frames, user)),
        aligned_length(frames_of(frames, user)) >= 0,
        forall|i: int|
            0 <= i < frames_of(frames, user).len() ==> (#[trigger] frames_of(
                frames,
                user,
            )[i]).discord_user_id == user,
    decreases frames.len(),
{
    if frames.len() > 0 {
        lemma_own_frames_are_sound(frames.drop_last(), user);
        let earlier = frames_of(frames.drop_last(), user);
        if frames.last().discord_user_id == user {
            assert(earlier.push(frames.last()).drop_last() =~= earlier);
        }
    }
}

/// A range reaches over another, in the session and in the track.
pub open spec fn covers(range: CandidateRange, part: CandidateRange) -> bool {
    &&& range.discord_user_id == part.discord_user_id
    &&& range.start_sample <= part.start_sample
    &&& part.end_sample <= range.end_sample
    &&& range.source_start_sample <= part.source_start_sample
    &&& part.source_end_sample <= range.source_end_sample
}

pub proof fn lemma_located_frames(own: Seq<AttributedFrame>)
    requires
        sound(own),
    ensures
        located_frames(own).len() == own.len(),
        forall|i: int|
            0 <= i < own.len() ==> {
                let range = #[trigger] located_frames(own)[i];
                &&& range == located(own.take(i), own[i])
                &&& range.discord_user_id == own[i].discord_user_id
                &&& range.start_sample == own[i].tick * SAMPLES_PER_TICK
                &&& range.end_sample == range.start_sample + own[i].samples
                &&& range.source_end_sample == range.source_start_sample + own[i].samples
                &&& range.source_end_sample <= aligned_length(own)
            },
        own.len() > 0 ==> located_frames(own).last().source_end_sample == aligned_length(own),
    decreases own.len(),
{
    if own.len() > 0 {
        let earlier = own.drop_last();
        lemma_located_frames(earlier);
        assert(own.take(own.len() - 1) =~= earlier);
        assert forall|i: int| 0 <= i < own.len() implies {
            let range = #[trigger] located_frames(own)[i];
            &&& range == located(own.take(i), own[i])
            &&& range.discord_user_id == own[i].discord_user_id
            &&& range.start_sample == own[i].tick * SAMPLES_PER_TICK
            &&& range.end_sample == range.start_sample + own[i].samples
            &&& range.source_end_sample == range.source_start_sample + own[i].samples
            &&& range.source_end_sample <= aligned_length(own)
        } by {
            if i < earlier.len() {
                assert(located_frames(own)[i] == located_frames(earlier)[i]);
                assert(earlier.take(i) =~= own.take(i));
            }
        }
    }
}

/// One of several ranges reaches over a range.
pub open spec fn covered(ranges: Seq<CandidateRange>, part: CandidateRange) -> bool {
    exists|i: int| 0 <= i < ranges.len() && covers(#[trigger] ranges[i], part)
}

/// Ranges of one user in the order of their starts.
pub open spec fn advancing(ranges: Seq<CandidateRange>) -> bool {
    &&& forall|i: int|
        0 <= i < ranges.len() ==> (#[trigger] ranges[i]).start_sample <= ranges[i].end_sample
            && ranges[i].source_start_sample <= ranges[i].source_end_sample
    &&& forall|i: int, j: int|
        0 <= i <= j < ranges.len() ==> (#[trigger] ranges[i]).start_sample <= (
        #[trigger] ranges[j]).start_sample && ranges[i].source_start_sample
            <= ranges[j].source_start_sample && ranges[i].source_end_sample
            <= ranges[j].source_end_sample && ranges[i].discord_user_id
            == ranges[j].discord_user_id
}

pub proof fn lemma_located_frames_advance(own: Seq<AttributedFrame>, user: u64)
    requires
        sound(own),
        forall|i: int| 0 <= i < own.len() ==> (#[trigger] own[i]).discord_user_id == user,
    ensures
        advancing(located_frames(own)),
    decreases own.len(),
{
    lemma_located_frames(own);
    if own.len() > 0 {
        let earlier = own.drop_last();
        assert forall|i: int| 0 <= i < earlier.len() implies (
        #[trigger] earlier[i]).discord_user_id == user by {
            assert(earlier[i] == own[i]);
        }
        lemma_located_frames_advance(earlier, user);
        lemma_located_frames(earlier);
        let ranges = located_frames(own);
        assert forall|i: int, j: int| 0 <= i <= j < ranges.len() implies (
        #[trigger] ranges[i]).start_sample <= (#[trigger] ranges[j]).start_sample
            && ranges[i].source_start_sample <= ranges[j].source_start_sample
            && ranges[i].source_end_sample <= ranges[j].source_end_sample
            && ranges[i].discord_user_id == ranges[j].discord_user_id by {
            if j < earlier.len() {
                assert(ranges[i] == located_frames(earlier)[i]);
                assert(ranges[j] == located_frames(earlier)[j]);
            } else if i < j {
                let last = earlier.len() - 1;
                assert(ranges[i] == located_frames(earlier)[i]);
                assert(ranges[last] == located_frames(earlier)[last]);
                assert(located_frames(earlier)[i].start_sample
                    <= located_frames(earlier)[last].start_sample);
                assert(earlier[last] == own[last]);
                assert(own[last].tick < own[j].tick);
            }
        }
    }
}

/// Joining leaves every range covered, in order, and the ranges apart.
pub proof fn lemma_merged(ranges: Seq<CandidateRange>, gap: nat)
    requires
        advancing(ranges),
    ensures
        ranges.len() > 0 ==> {
            &&& merged(ranges, gap).len() > 0
            &&& merged(ranges, gap).last().start_sample <= ranges.last().start_sample
            &&& merged(ranges, gap).last().source_start_sample <= ranges.last().source_start_sample
            &&& merged(ranges, gap).last().source_end_sample == ranges.last().source_end_sample
            &&& merged(ranges, gap).last().discord_user_id == ranges.last().discord_user_id
        },
        forall|i: int|
            0 <= i < merged(ranges, gap).len() ==> (#[trigger] merged(ranges, gap)[i]).start_sample
                <= merged(ranges, gap)[i].end_sample && merged(ranges, gap)[i].source_end_sample
                <= ranges.last().source_end_sample,
        forall|i: int, j: int|
            0 <= i < j < merged(ranges, gap).len() ==> (#[trigger] merged(
                ranges,
                gap,
            )[i]).end_sample + gap < (#[trigger] merged(ranges, gap)[j]).start_sample,
        forall|k: int|
            0 <= k < ranges.len() ==> covered(merged(ranges, gap), #[trigger] ranges[k]),
    decreases ranges.len(),
{
    if ranges.len() > 0 {
        let earlier = ranges.drop_last();
        let next = ranges.last();
        let count = ranges.len() - 1;
        assert(advancing(earlier)) by {
            assert forall|i: int, j: int| 0 <= i <= j < earlier.len() implies (
            #[trigger] earlier[i]).start_sample <= (#[trigger] earlier[j]).start_sample
                && earlier[i].source_start_sample <= earlier[j].source_start_sample
                && earlier[i].source_end_sample <= earlier[j].source_end_sample
                && earlier[i].discord_user_id == earlier[j].discord_user_id by {
                assert(earlier[i] == ranges[i] && earlier[j] == ranges[j]);
            }
            assert forall|i: int| 0 <= i < earlier.len() implies (
            #[trigger] earlier[i]).start_sample <= earlier[i].end_sample
                && earlier[i].source_start_sample <= earlier[i].source_end_sample by {
                assert(earlier[i] == ranges[i]);
            }
        }
        lemma_merged(earlier, gap);
        let before = merged(earlier, gap);
        let done = merged(ranges, gap);
        if earlier.len() > 0 {
            assert(earlier.last() == ranges[count - 1]);
            assert(ranges[count - 1].start_sample <= ranges[count].start_sample);
        }
        let last = done.len() - 1;
        assert(covers(done[last], next));
        assert forall|k: int| 0 <= k < ranges.len() implies covered(done, #[trigger] ranges[k]) by {
            if k < earlier.len() {
                assert(covered(before, earlier[k]));
                let i = choose|i: int|
                    0 <= i < before.len() && covers(#[trigger] before[i], earlier[k]);
                assert(covers(done[i], ranges[k]));
            }
        }
        assert forall|i: int, j: int| 0 <= i < j < done.len() implies (
        #[trigger] done[i]).end_sample + gap < (#[trigger] done[j]).start_sample by {
            assert(done[i] == before[i]);
            if j < before.len() {
                assert(done[j].start_sample == before[j].start_sample);
            } else {
                assert(before[i].start_sample <= before[i].end_sample);
                if i < before.len() - 1 {
                    assert(before[i].end_sample + gap < before[before.len() - 1].start_sample);
                }
                assert(before[before.len() - 1].start_sample <= before[before.len()
                    - 1].end_sample);
            }
        }
        assert forall|i: int| 0 <= i < done.len() implies (#[trigger] done[i]).start_sample
            <= done[i].end_sample && done[i].source_end_sample <= next.source_end_sample by {
            if i < before.len() {
                assert(before[i].start_sample <= before[i].end_sample);
                assert(before[i].source_end_sample <= earlier.last().source_end_sample);
            }
        }
    }
}

/// No two ranges of a user touch: where one ends, more than the merge gap
/// passes before the next begins.
pub proof fn long_gaps_part_ranges(frames: Seq<AttributedFrame>, user: u64, gap: nat)
    requires
        frames_fault(frames) is None,
    ensures
        forall|i: int, j: int|
            0 <= i < j < user_ranges(frames, user, gap).len() ==> (#[trigger] user_ranges(
                frames,
                user,
                gap,
            )[i]).end_sample + gap < (#[trigger] user_ranges(frames, user, gap)[j]).start_sample,
{
    let own = frames_of(frames, user);
    lemma_own_frames_are_sound(frames, user);
    lemma_located_frames_advance(own, user);
    lemma_merged(located_frames(own), gap);
}

/// Every frame of a user, however short, lies within one of the user's ranges,
/// in the session and in the track.
pub proof fn every_frame_is_retained(
    frames: Seq<AttributedFrame>,
    user: u64,
    gap: nat,
    index: int,
)
    requires
        frames_fault(frames) is None,
        0 <= index < frames_of(frames, user).len(),
    ensures
        covered(
            user_ranges(frames, user, gap),
            located(frames_of(frames, user).take(index), frames_of(frames, user)[index]),
        ),
{
    let own = frames_of(frames, user);
    lemma_own_frames_are_sound(frames, user);
    lemma_located_frames_advance(own, user);
    lemma_located_frames(own);
    lemma_merged(located_frames(own), gap);
    assert(located_frames(own)[index] == located(own.take(index), own[index]));
}

/// The ranges of a user reach exactly to the end of the track that the user's
/// frames make up.
pub proof fn ranges_end_with_the_track(frames: Seq<AttributedFrame>, user: u64, gap: nat)
    requires
        frames_fault(frames) is None,
        frames_of(frames, user).len() > 0,
    ensures
        user_ranges(frames, user, gap).len() > 0,
        user_ranges(frames, user, gap).last().source_end_sample == aligned_length(
            frames_of(frames, user),
        ),
        forall|i: int|
            0 <= i < user_ranges(frames, user, gap).len() ==> (#[trigger] user_ranges(
                frames,
                user,
                gap,
            )[i]).source_end_sample <= aligned_length(frames_of(frames, user)),
{
    let own = frames_of(frames, user);
    lemma_own_frames_are_sound(frames, user);
    lemma_located_frames_advance(own, user);
    lemma_located_frames(own);
    lemma_merged(located_frames(own), gap);
}

} // verus!
