//! What the inspection of a packet journal tells of its packets.
//!
//! Sequence numbers count up to 65535 and then start over. A number lies ahead
//! of another if it is reached in fewer than 32768 steps. A stream remembers
//! the last 4096 numbers that it took in.

use vstd::prelude::*;

use crate::packet_inspection;
use crate::packet_inspection::PacketRecord;
use crate::packet_inspection::StreamView;

verus! {

/// The stream of a source, as a journal shows it.
pub open spec fn stream(records: Seq<PacketRecord>, ssrc: u32) -> StreamView {
    packet_inspection::packets_of(records).streams[ssrc as u64]
}

/// Packets of one source whose sequence numbers count a series of places.
pub open spec fn counts(records: Seq<PacketRecord>, ssrc: u32, places: Seq<nat>) -> bool {
    &&& records.len() == places.len()
    &&& forall|i: int|
        0 <= i < records.len() ==> (#[trigger] records[i]).ssrc == ssrc && records[i].sequence
            == places[i] % 65_536
}

/// Places that only move forward, each fewer than 32768 steps ahead of the one
/// before, with no sequence number repeated within 4096 packets.
pub open spec fn moves_forward(places: Seq<nat>) -> bool {
    &&& forall|i: int|
        0 < i < places.len() ==> places[i - 1] < #[trigger] places[i] < places[i - 1] + 32_768
    &&& forall|i: int, j: int|
        0 <= i < j < places.len() && j - i <= 4_096 ==> (#[trigger] places[i]) % 65_536 != (
        #[trigger] places[j]) % 65_536
}

/// How many places are not the next one after the place before.
pub open spec fn jumps(places: Seq<nat>) -> nat
    decreases places.len(),
{
    if places.len() < 2 {
        0
    } else if places.last() > places[places.len() - 2] + 1 {
        jumps(places.drop_last()) + 1
    } else {
        jumps(places.drop_last())
    }
}

spec fn remembers(view: StreamView, places: Seq<nat>) -> bool {
    &&& view.recent.len() == if places.len() < 4_096 {
        places.len()
    } else {
        4_096
    }
    &&& forall|k: int|
        0 <= k < view.recent.len() ==> #[trigger] view.recent[k] == places[places.len()
            - view.recent.len() + k] % 65_536
}

proof fn lemma_forward_prefix(places: Seq<nat>)
    requires
        places.len() > 0,
        moves_forward(places),
    ensures
        moves_forward(places.drop_last()),
{
    let fewer = places.drop_last();
    assert forall|i: int| 0 < i < fewer.len() implies fewer[i - 1] < #[trigger] fewer[i]
        < fewer[i - 1] + 32_768 by {
        assert(places[i - 1] < places[i] < places[i - 1] + 32_768);
    }
    assert forall|i: int, j: int| 0 <= i < j < fewer.len() && j - i <= 4_096 implies (
    #[trigger] fewer[i]) % 65_536 != (#[trigger] fewer[j]) % 65_536 by {
        assert(fewer[i] == places[i] && fewer[j] == places[j]);
    }
}

proof fn lemma_steps_ahead(from: nat, to: nat)
    requires
        from < to < from + 32_768,
    ensures
        packet_inspection::distance((from % 65_536) as u16, (to % 65_536) as u16) == to - from,
{
}

proof fn lemma_forward(records: Seq<PacketRecord>, ssrc: u32, places: Seq<nat>)
    requires
        records.len() > 0,
        counts(records, ssrc, places),
        moves_forward(places),
    ensures
        packet_inspection::packets_of(records).streams.contains_key(ssrc as u64),
        remembers(stream(records, ssrc), places),
        ({
            let view = stream(records, ssrc);
            &&& view.packets == records.len()
            &&& view.packets + view.missing_slots_observed == places.last() - places[0] + 1
            &&& view.forward_gap_events == jumps(places)
            &&& view.duplicates == 0
            &&& view.out_of_order == 0
            &&& view.first_sequence == places[0] % 65_536
            &&& view.latest_sequence == places.last() % 65_536
        }),
    decreases records.len(),
{
    let n = records.len() as int;
    let last = records.last();
    assert(records[n - 1] == last);
    if n == 1 {
        assert(packet_inspection::packets_of(records.drop_last())
            == packet_inspection::no_packets());
        assert(remembers(stream(records, ssrc), places));
    } else {
        let earlier = records.drop_last();
        let fewer = places.drop_last();
        lemma_forward_prefix(places);
        assert forall|i: int| 0 <= i < earlier.len() implies (#[trigger] earlier[i]).ssrc == ssrc
            && earlier[i].sequence == fewer[i] % 65_536 by {
            assert(earlier[i] == records[i]);
        }
        lemma_forward(earlier, ssrc, fewer);
        let before = stream(earlier, ssrc);
        let after = stream(records, ssrc);
        assert(after == before.with_packet(last.sequence));
        assert(places[n - 2] < places[n - 1] < places[n - 2] + 32_768);
        assert(fewer.last() == places[n - 2]);
        lemma_steps_ahead(places[n - 2], places[n - 1]);
        assert(!before.recent.contains(last.sequence)) by {
            if before.recent.contains(last.sequence) {
                let k = choose|k: int|
                    0 <= k < before.recent.len() && before.recent[k] == last.sequence;
                let i = fewer.len() - before.recent.len() + k;
                assert(before.recent[k] == fewer[i] % 65_536);
                assert(places[i] % 65_536 != places[n - 1] % 65_536);
            }
        }
        assert(remembers(after, places)) by {
            assert forall|k: int| 0 <= k < after.recent.len() implies #[trigger] after.recent[k]
                == places[n - after.recent.len() + k] % 65_536 by {
                if k < after.recent.len() - 1 {
                    let shift: int = if before.recent.len() == 4_096 {
                        1
                    } else {
                        0
                    };
                    assert(after.recent[k] == before.recent[k + shift]);
                    assert(before.recent[k + shift] == fewer[n - 1 - before.recent.len() + k
                        + shift] % 65_536);
                }
            }
        }
    }
}

/// In a stream that only moves forward every number is either received or
/// counted as missing, once: packets and missing slots together make up the
/// whole stretch from the first number to the latest, also where the numbers
/// start over. Each jump is one gap event, and nothing counts as repeated or
/// late.
pub proof fn skipped_numbers_are_counted_once(
    records: Seq<PacketRecord>,
    ssrc: u32,
    places: Seq<nat>,
)
    requires
        records.len() > 0,
        counts(records, ssrc, places),
        moves_forward(places),
    ensures
        packet_inspection::packets_of(records).streams.contains_key(ssrc as u64),
        ({
            let view = stream(records, ssrc);
            &&& view.packets == records.len()
            &&& view.packets + view.missing_slots_observed == places.last() - places[0] + 1
            &&& view.forward_gap_events == jumps(places)
            &&& view.duplicates == 0
            &&& view.out_of_order == 0
            &&& view.first_sequence == places[0] % 65_536
            &&& view.latest_sequence == places.last() % 65_536
        }),
{
    lemma_forward(records, ssrc, places);
}

/// A packet of one source leaves the streams of all others as they are, and
/// brings forth its own where it is the first.
pub proof fn streams_are_kept_apart(records: Seq<PacketRecord>, record: PacketRecord, ssrc: u32)
    ensures
        packet_inspection::packets_of(records.push(record)).records == records.len() + 1,
        packet_inspection::packets_of(records.push(record)).streams.contains_key(
            record.ssrc as u64,
        ),
        ssrc != record.ssrc ==> {
            &&& packet_inspection::packets_of(records.push(record)).streams.contains_key(
                ssrc as u64,
            ) == packet_inspection::packets_of(records).streams.contains_key(ssrc as u64)
            &&& packet_inspection::packets_of(records).streams.contains_key(ssrc as u64)
                ==> stream(records.push(record), ssrc) == stream(records, ssrc)
        },
        packet_inspection::packets_of(records).streams.contains_key(ssrc as u64) <==> (exists|
            i: int,
        |
            0 <= i < records.len() && (#[trigger] records[i]).ssrc == ssrc),
{
    assert(records.push(record).drop_last() =~= records);
    lemma_known_sources(records, ssrc);
}

proof fn lemma_known_sources(records: Seq<PacketRecord>, ssrc: u32)
    ensures
        packet_inspection::packets_of(records).records == records.len(),
        packet_inspection::packets_of(records).streams.contains_key(ssrc as u64) <==> (exists|
            i: int,
        |
            0 <= i < records.len() && (#[trigger] records[i]).ssrc == ssrc),
    decreases records.len(),
{
    if records.len() > 0 {
        let earlier = records.drop_last();
        lemma_known_sources(earlier, ssrc);
        if packet_inspection::packets_of(earlier).streams.contains_key(ssrc as u64) {
            let i = choose|i: int| 0 <= i < earlier.len() && (#[trigger] earlier[i]).ssrc == ssrc;
            assert(records[i].ssrc == ssrc);
        }
        if records.last().ssrc == ssrc {
            assert(records[records.len() - 1].ssrc == ssrc);
        }
        if exists|i: int| 0 <= i < records.len() && (#[trigger] records[i]).ssrc == ssrc {
            let i = choose|i: int| 0 <= i < records.len() && (#[trigger] records[i]).ssrc == ssrc;
            if i < earlier.len() {
                assert(earlier[i].ssrc == ssrc);
            }
        }
    }
}

/// A number that a stream did not yet show is not among those it remembers.
proof fn lemma_unseen(records: Seq<PacketRecord>, ssrc: u32, sequence: u16)
    requires
        packet_inspection::packets_of(records).streams.contains_key(ssrc as u64),
        forall|i: int|
            0 <= i < records.len() && (#[trigger] records[i]).ssrc == ssrc ==> records[i].sequence
                != sequence,
    ensures
        !stream(records, ssrc).recent.contains(sequence),
        stream(records, ssrc).latest_sequence != sequence,
    decreases records.len(),
{
    let earlier = records.drop_last();
    let last = records.last();
    assert(records.len() > 0);
    assert forall|i: int| 0 <= i < earlier.len() && (#[trigger] earlier[i]).ssrc == ssrc implies
        earlier[i].sequence != sequence by {
        assert(earlier[i] == records[i]);
    }
    assert(records[records.len() - 1] == last);
    let known = packet_inspection::packets_of(earlier).streams.contains_key(ssrc as u64);
    let after = stream(records, ssrc);
    if known {
        lemma_unseen(earlier, ssrc, sequence);
    }
    if after.recent.contains(sequence) {
        let k = choose|k: int| 0 <= k < after.recent.len() && after.recent[k] == sequence;
        if last.ssrc == ssrc && known {
            let before = stream(earlier, ssrc);
            if after.recent == before.recent {
                assert(before.recent[k] == sequence);
            } else if before.recent.len() == 4_096 {
                if k < after.recent.len() - 1 {
                    assert(before.recent[k + 1] == sequence);
                }
            } else if k < after.recent.len() - 1 {
                assert(before.recent[k] == sequence);
            }
        }
    }
}

spec fn remembered_since(view: StreamView, sequence: u16, count: int) -> bool {
    exists|k: int|
        0 <= k < view.recent.len() && view.recent.len() - count <= k && #[trigger] view.recent[k]
            == sequence
}

proof fn lemma_still_remembered(view: StreamView, sequence: u16, count: int, next: u16)
    requires
        remembered_since(view, sequence, count),
        count < 4_096,
        view.recent.len() <= 4_096,
    ensures
        remembered_since(view.with_packet(next), sequence, count + 1),
        view.with_packet(next).recent.len() <= 4_096,
{
    let after = view.with_packet(next);
    let k = choose|k: int|
        0 <= k < view.recent.len() && view.recent.len() - count <= k && #[trigger] view.recent[k]
            == sequence;
    if after.recent == view.recent {
        assert(after.recent[k] == sequence);
    } else if view.recent.len() == 4_096 {
        assert(after.recent[k - 1] == sequence);
    } else {
        assert(after.recent[k] == sequence);
    }
}

/// A number is still remembered as long as few packets followed the first one
/// that bore it.
proof fn lemma_remembered(records: Seq<PacketRecord>, ssrc: u32, i: int)
    requires
        0 <= i < records.len(),
        records[i].ssrc == ssrc,
        records.len() - i <= 4_096,
        forall|m: int|
            0 <= m < i && (#[trigger] records[m]).ssrc == ssrc ==> records[m].sequence
                != records[i].sequence,
    ensures
        packet_inspection::packets_of(records).streams.contains_key(ssrc as u64),
        stream(records, ssrc).recent.len() <= 4_096,
        remembered_since(stream(records, ssrc), records[i].sequence, records.len() - i),
    decreases records.len(),
{
    let n = records.len() as int;
    let earlier = records.drop_last();
    let last = records.last();
    let sequence = records[i].sequence;
    lemma_known_sources(records, ssrc);
    lemma_known_sources(earlier, ssrc);
    lemma_few_remembered(records, ssrc);
    let after = stream(records, ssrc);
    if i < n - 1 {
        assert(earlier[i] == records[i]);
        assert forall|m: int| 0 <= m < i && (#[trigger] earlier[m]).ssrc == ssrc implies
            earlier[m].sequence != sequence by {
            assert(earlier[m] == records[m]);
        }
        lemma_remembered(earlier, ssrc, i);
        let before = stream(earlier, ssrc);
        if last.ssrc == ssrc {
            lemma_still_remembered(before, sequence, n - 1 - i, last.sequence);
        } else {
            assert(after == before);
            let k = choose|k: int|
                0 <= k < before.recent.len() && before.recent.len() - (n - 1 - i) <= k
                    && #[trigger] before.recent[k] == sequence;
            assert(after.recent[k] == sequence);
        }
    } else {
        if packet_inspection::packets_of(earlier).streams.contains_key(ssrc as u64) {
            assert forall|m: int| 0 <= m < earlier.len() && (#[trigger] earlier[m]).ssrc
                == ssrc implies earlier[m].sequence != sequence by {
                assert(earlier[m] == records[m]);
            }
            lemma_unseen(earlier, ssrc, sequence);
            let before = stream(earlier, ssrc);
            assert(after == before.with_packet(sequence));
        }
        assert(after.recent[after.recent.len() - 1] == sequence);
    }
}

proof fn lemma_few_remembered(records: Seq<PacketRecord>, ssrc: u32)
    requires
        packet_inspection::packets_of(records).streams.contains_key(ssrc as u64),
    ensures
        1 <= stream(records, ssrc).recent.len() <= 4_096,
    decreases records.len(),
{
    assert(records.len() > 0);
    let earlier = records.drop_last();
    if packet_inspection::packets_of(earlier).streams.contains_key(ssrc as u64) {
        lemma_few_remembered(earlier, ssrc);
    }
}

/// A number that is shown again, before 4096 packets followed the first one that
/// bore it, is a duplicate and nothing else.
pub proof fn repeated_numbers_are_duplicates(
    records: Seq<PacketRecord>,
    record: PacketRecord,
    i: int,
)
    requires
        0 <= i < records.len(),
        records.len() - i <= 4_096,
        records[i].ssrc == record.ssrc,
        records[i].sequence == record.sequence,
        forall|m: int|
            0 <= m < i && (#[trigger] records[m]).ssrc == record.ssrc ==> records[m].sequence
                != record.sequence,
    ensures
        ({
            let before = stream(records, record.ssrc);
            let after = stream(records.push(record), record.ssrc);
            &&& after.packets == before.packets + 1
            &&& after.duplicates == before.duplicates + 1
            &&& after.out_of_order == before.out_of_order
            &&& after.forward_gap_events == before.forward_gap_events
            &&& after.missing_slots_observed == before.missing_slots_observed
            &&& after.first_sequence == before.first_sequence
            &&& after.latest_sequence == before.latest_sequence
        }),
{
    lemma_remembered(records, record.ssrc, i);
    let before = stream(records, record.ssrc);
    let k = choose|k: int|
        0 <= k < before.recent.len() && before.recent.len() - (records.len() - i) <= k
            && #[trigger] before.recent[k] == record.sequence;
    assert(before.recent.contains(record.sequence));
    assert(records.push(record).drop_last() =~= records);
}

/// A number that a stream did not show yet moves it forward if it lies fewer
/// than 32768 steps ahead of the latest one: the numbers between are missing,
/// and if there are any, that is one gap event. Otherwise it came late, and the
/// stream stays where it is.
pub proof fn new_numbers_are_ahead_or_late(
    records: Seq<PacketRecord>,
    record: PacketRecord,
    steps: nat,
)
    requires
        exists|i: int| 0 <= i < records.len() && (#[trigger] records[i]).ssrc == record.ssrc,
        forall|i: int|
            0 <= i < records.len() && (#[trigger] records[i]).ssrc == record.ssrc
                ==> records[i].sequence != record.sequence,
        0 < steps < 65_536,
        record.sequence == (stream(records, record.ssrc).latest_sequence + steps) % 65_536,
    ensures
        ({
            let before = stream(records, record.ssrc);
            let after = stream(records.push(record), record.ssrc);
            &&& after.packets == before.packets + 1
            &&& after.duplicates == before.duplicates
            &&& after.first_sequence == before.first_sequence
            &&& steps < 32_768 ==> {
                &&& after.latest_sequence == record.sequence
                &&& after.missing_slots_observed == before.missing_slots_observed + steps - 1
                &&& after.forward_gap_events == before.forward_gap_events + if steps > 1 {
                    1nat
                } else {
                    0nat
                }
                &&& after.out_of_order == before.out_of_order
            }
            &&& steps >= 32_768 ==> {
                &&& after.latest_sequence == before.latest_sequence
                &&& after.missing_slots_observed == before.missing_slots_observed
                &&& after.forward_gap_events == before.forward_gap_events
                &&& after.out_of_order == before.out_of_order + 1
            }
        }),
{
    lemma_known_sources(records, record.ssrc);
    lemma_unseen(records, record.ssrc, record.sequence);
    assert(records.push(record).drop_last() =~= records);
    let before = stream(records, record.ssrc);
    assert(packet_inspection::distance(before.latest_sequence, record.sequence) == steps);
}

/// The first packet of a source opens its stream.
pub proof fn first_packets_open_streams(records: Seq<PacketRecord>, record: PacketRecord)
    requires
        forall|i: int| 0 <= i < records.len() ==> (#[trigger] records[i]).ssrc != record.ssrc,
    ensures
        ({
            let view = stream(records.push(record), record.ssrc);
            &&& view.packets == 1
            &&& view.first_sequence == record.sequence
            &&& view.latest_sequence == record.sequence
            &&& view.missing_slots_observed == 0
            &&& view.forward_gap_events == 0
            &&& view.duplicates == 0
            &&& view.out_of_order == 0
        }),
{
    lemma_known_sources(records, record.ssrc);
    assert(records.push(record).drop_last() =~= records);
}

/// A journal holds a packet exactly if one of its records is that packet.
pub proof fn journals_hold_their_packets(records: Seq<PacketRecord>, packet: PacketRecord)
    ensures
        packet_inspection::packets_of(records).packet_keys.contains(
            packet_inspection::packet_key(packet.ssrc, packet.sequence, packet.timestamp),
        ) <==> records.contains(packet),
    decreases records.len(),
{
    if records.len() > 0 {
        let earlier = records.drop_last();
        let last = records.last();
        journals_hold_their_packets(earlier, packet);
        if packet_inspection::packet_key(packet.ssrc, packet.sequence, packet.timestamp)
            == packet_inspection::packet_key(last.ssrc, last.sequence, last.timestamp) {
            packet_inspection::packet_keys_are_distinct(packet, last);
        }
        if earlier.contains(packet) {
            let i = choose|i: int| 0 <= i < earlier.len() && earlier[i] == packet;
            assert(records[i] == packet);
        }
        if records.contains(packet) {
            let i = choose|i: int| 0 <= i < records.len() && records[i] == packet;
            if i < earlier.len() {
                assert(earlier[i] == packet);
            }
        }
        if packet == last {
            assert(records[records.len() - 1] == packet);
        }
    }
}

} // verus!
