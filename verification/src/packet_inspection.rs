//! Continuity of recorded transport streams and of their playout.

use std::collections::BTreeMap;
use std::collections::HashSet;
use std::collections::VecDeque;

use vstd::prelude::*;

use crate::order;
use crate::text;

verus! {

broadcast use {
    vstd::std_specs::hash::group_hash_axioms,
    vstd::std_specs::btree::group_btree_axioms,
};

/// How many sequence numbers of a stream are remembered.
pub const RECENT_SEQUENCES: usize = 4096;

/// The forward half of the sequence number range.
pub const HALF_RANGE: u16 = 32_768;

/// Continuity of one transport stream.
#[derive(Debug)]
pub struct PacketStream {
    packets: u64,
    first_sequence: u16,
    latest_sequence: u16,
    forward_gap_events: u64,
    missing_slots_observed: u64,
    duplicates: u64,
    out_of_order: u64,
    recent_sequence_order: VecDeque<u16>,
    recent_sequences: HashSet<u16>,
}

pub struct StreamView {
    pub packets: nat,
    pub first_sequence: u16,
    pub latest_sequence: u16,
    pub forward_gap_events: nat,
    pub missing_slots_observed: nat,
    pub duplicates: nat,
    pub out_of_order: nat,
    /// The sequence numbers last taken in, oldest first.
    pub recent: Seq<u16>,
}

impl DeepView for PacketStream {
    type V = StreamView;

    closed spec fn deep_view(&self) -> StreamView {
        StreamView {
            packets: self.packets as nat,
            first_sequence: self.first_sequence,
            latest_sequence: self.latest_sequence,
            forward_gap_events: self.forward_gap_events as nat,
            missing_slots_observed: self.missing_slots_observed as nat,
            duplicates: self.duplicates as nat,
            out_of_order: self.out_of_order as nat,
            recent: self.recent_sequence_order@,
        }
    }
}

/// How far a sequence number lies ahead of another, around the range.
pub open spec fn distance(from: u16, to: u16) -> int {
    if to >= from {
        to - from
    } else {
        to - from + 65_536
    }
}

/// A stream of which one packet was seen.
pub open spec fn stream_of(sequence: u16) -> StreamView {
    StreamView {
        packets: 1,
        first_sequence: sequence,
        latest_sequence: sequence,
        forward_gap_events: 0,
        missing_slots_observed: 0,
        duplicates: 0,
        out_of_order: 0,
        recent: seq![sequence],
    }
}

impl StreamView {
    /// The remembered sequence numbers, with one more.
    pub open spec fn remembered(self, sequence: u16) -> Seq<u16> {
        if self.recent.len() == RECENT_SEQUENCES {
            self.recent.skip(1).push(sequence)
        } else {
            self.recent.push(sequence)
        }
    }

    /// The stream with one more packet. A remembered number is a duplicate; a
    /// number up to half the range ahead moves the stream forward, over the
    /// slots between; any other came late.
    pub open spec fn with_packet(self, sequence: u16) -> StreamView {
        let counted = StreamView { packets: self.packets + 1, ..self };
        let ahead = distance(self.latest_sequence, sequence);
        if self.recent.contains(sequence) {
            StreamView { duplicates: self.duplicates + 1, ..counted }
        } else if ahead == 0 {
            StreamView {
                duplicates: self.duplicates + 1,
                recent: self.remembered(sequence),
                ..counted
            }
        } else if ahead < HALF_RANGE {
            StreamView {
                latest_sequence: sequence,
                forward_gap_events: if ahead > 1 {
                    self.forward_gap_events + 1
                } else {
                    self.forward_gap_events
                },
                missing_slots_observed: (self.missing_slots_observed + ahead - 1) as nat,
                recent: self.remembered(sequence),
                ..counted
            }
        } else {
            StreamView {
                out_of_order: self.out_of_order + 1,
                recent: self.remembered(sequence),
                ..counted
            }
        }
    }

    /// What holds of every stream: counts add up, and remembered numbers are
    /// few and distinct.
    pub open spec fn wf(self) -> bool {
        &&& self.packets >= 1
        &&& self.duplicates + self.out_of_order + self.forward_gap_events < self.packets
        &&& self.missing_slots_observed <= (self.packets - 1) * (HALF_RANGE - 2)
        &&& self.recent.no_duplicates()
        &&& 1 <= self.recent.len() <= RECENT_SEQUENCES
    }

    /// The packets and the missing slots of the stream are few enough to be
    /// counted.
    pub open spec fn countable(self) -> bool {
        self.packets <= u64::MAX && self.missing_slots_observed <= u64::MAX
    }
}

proof fn lemma_stream_stays_wf(stream: StreamView, sequence: u16)
    requires
        stream.wf(),
    ensures
        stream.with_packet(sequence).wf(),
{
    let after = stream.with_packet(sequence);
    if !stream.recent.contains(sequence) {
        let kept = if stream.recent.len() == RECENT_SEQUENCES {
            stream.recent.skip(1)
        } else {
            stream.recent
        };
        assert(kept.no_duplicates()) by {
            assert forall|i: int, j: int|
                0 <= i < kept.len() && 0 <= j < kept.len() && i != j implies kept[i] != kept[j] by {
                if stream.recent.len() == RECENT_SEQUENCES {
                    assert(kept[i] == stream.recent[i + 1] && kept[j] == stream.recent[j + 1]);
                }
            }
        }
        assert(!kept.contains(sequence)) by {
            if kept.contains(sequence) {
                let i = choose|i: int| 0 <= i < kept.len() && kept[i] == sequence;
                if stream.recent.len() == RECENT_SEQUENCES {
                    assert(stream.recent[i + 1] == sequence);
                } else {
                    assert(stream.recent[i] == sequence);
                }
            }
        }
        assert(after.recent == kept.push(sequence));
        assert forall|i: int, j: int|
            0 <= i < after.recent.len() && 0 <= j < after.recent.len() && i
                != j implies after.recent[i] != after.recent[j] by {
            if i < kept.len() && j < kept.len() {
                assert(kept[i] != kept[j]);
            } else if i < kept.len() {
                assert(kept.contains(kept[i]));
            } else {
                assert(kept.contains(kept[j]));
            }
        }
    }
    assert((stream.packets - 1) * (HALF_RANGE - 2) + (HALF_RANGE - 2) == stream.packets * (
    HALF_RANGE - 2)) by (nonlinear_arith);
}

impl PacketStream {
    pub closed spec fn wf(&self) -> bool {
        &&& self.deep_view().wf()
        &&& self.recent_sequences@ == self.recent_sequence_order@.to_set()
    }

    /// Start a stream at its first packet.
    pub fn new(sequence: u16) -> (stream: PacketStream)
        ensures
            stream.wf(),
            stream.deep_view() == stream_of(sequence),
    {
        let mut recent_sequence_order: VecDeque<u16> = VecDeque::new();
        let mut recent_sequences: HashSet<u16> = HashSet::new();
        recent_sequence_order.push_back(sequence);
        recent_sequences.insert(sequence);
        let stream = PacketStream {
            packets: 1,
            first_sequence: sequence,
            latest_sequence: sequence,
            forward_gap_events: 0,
            missing_slots_observed: 0,
            duplicates: 0,
            out_of_order: 0,
            recent_sequence_order,
            recent_sequences,
        };
        proof {
            assert(stream.deep_view().recent =~= seq![sequence]);
            assert(stream.recent_sequence_order@[0] == sequence);
            assert(stream.recent_sequences@ =~= stream.recent_sequence_order@.to_set());
        }
        stream
    }

    /// Take in one more packet.
    pub fn observe(&mut self, sequence: u16)
        requires
            old(self).wf(),
            old(self).deep_view().with_packet(sequence).countable(),
        ensures
            final(self).wf(),
            final(self).deep_view() == old(self).deep_view().with_packet(sequence),
    {
        let ghost before = self.deep_view();
        proof {
            lemma_stream_stays_wf(before, sequence);
        }
        self.packets = self.packets + 1;
        if self.recent_sequences.contains(&sequence) {
            self.duplicates = self.duplicates + 1;
            assert(before.recent.contains(sequence));
            return ;
        }
        assert(!before.recent.contains(sequence)) by {
            if before.recent.contains(sequence) {
                assert(before.recent.to_set().contains(sequence));
            }
        }
        let ahead: u16 = sequence.wrapping_sub(self.latest_sequence);
        assert(ahead == distance(before.latest_sequence, sequence));
        if ahead == 0 {
            self.duplicates = self.duplicates + 1;
        } else if ahead < HALF_RANGE {
            if ahead > 1 {
                self.forward_gap_events = self.forward_gap_events + 1;
                self.missing_slots_observed = self.missing_slots_observed + (ahead - 1) as u64;
            }
            self.latest_sequence = sequence;
        } else {
            self.out_of_order = self.out_of_order + 1;
        }
        let ghost mut kept = self.recent_sequence_order@;
        if self.recent_sequence_order.len() == RECENT_SEQUENCES {
            let ghost order = self.recent_sequence_order@;
            match self.recent_sequence_order.pop_front() {
                Some(expired) => {
                    self.recent_sequences.remove(&expired);
                    proof {
                        kept = self.recent_sequence_order@;
                        assert(kept =~= order.skip(1));
                        assert(order.to_set().remove(expired) =~= kept.to_set()) by {
                            assert forall|n: u16|
                                order.to_set().remove(expired).contains(n)
                                    == kept.to_set().contains(n) by {
                                if order.to_set().remove(expired).contains(n) {
                                    let i = choose|i: int| 0 <= i < order.len() && order[i] == n;
                                    assert(kept[i - 1] == n);
                                }
                                if kept.to_set().contains(n) {
                                    let i = choose|i: int| 0 <= i < kept.len() && kept[i] == n;
                                    assert(order[i + 1] == n);
                                    assert(order[0] != order[i + 1]);
                                }
                            }
                        }
                    }
                },
                None => {},
            }
        }
        self.recent_sequence_order.push_back(sequence);
        self.recent_sequences.insert(sequence);
        proof {
            let grown = kept.push(sequence);
            assert(self.recent_sequence_order@ == grown);
            assert(kept.to_set().insert(sequence) =~= grown.to_set()) by {
                assert forall|n: u16|
                    kept.to_set().insert(sequence).contains(n) == grown.to_set().contains(n) by {
                    if kept.to_set().contains(n) {
                        let i = choose|i: int| 0 <= i < kept.len() && kept[i] == n;
                        assert(grown[i] == n);
                    }
                    if n == sequence {
                        assert(grown[kept.len() as int] == n);
                    }
                }
            }
        }
    }

    pub fn packets(&self) -> (count: u64)
        ensures
            count == self.deep_view().packets,
    {
        self.packets
    }
}

/// The sequence number behind another, around the range.
pub open spec fn successor(sequence: u16) -> u16 {
    if sequence == 65_535 {
        0
    } else {
        (sequence + 1) as u16
    }
}

/// A stream in which every packet followed the one before it.
pub open spec fn unbroken(stream: StreamView) -> bool {
    &&& stream.wf()
    &&& stream.duplicates == 0
    &&& stream.out_of_order == 0
    &&& stream.forward_gap_events == 0
    &&& stream.missing_slots_observed == 0
    &&& forall|i: int|
        0 <= i < stream.recent.len() ==> distance(
            #[trigger] stream.recent[i],
            stream.latest_sequence,
        ) == stream.recent.len() - 1 - i
}

/// A stream whose packets follow one another shows no fault, also where the
/// sequence numbers wrap around.
pub proof fn unbroken_streams_show_no_fault(stream: StreamView)
    requires
        unbroken(stream),
    ensures
        unbroken(stream.with_packet(successor(stream.latest_sequence))),
        stream.with_packet(successor(stream.latest_sequence)).packets == stream.packets + 1,
{
    let next = successor(stream.latest_sequence);
    assert(!stream.recent.contains(next)) by {
        if stream.recent.contains(next) {
            let i = choose|i: int| 0 <= i < stream.recent.len() && stream.recent[i] == next;
            assert(distance(stream.recent[i], stream.latest_sequence) == 65_535);
        }
    }
    lemma_stream_stays_wf(stream, next);
    let after = stream.with_packet(next);
    let shift: int = if stream.recent.len() == RECENT_SEQUENCES {
        1
    } else {
        0
    };
    assert forall|i: int| 0 <= i < after.recent.len() implies distance(
        #[trigger] after.recent[i],
        after.latest_sequence,
    ) == after.recent.len() - 1 - i by {
        if i < after.recent.len() - 1 {
            assert(after.recent[i] == stream.recent[i + shift]);
        }
    }
}

/// A packet of the journal, as far as continuity goes.
#[derive(Clone, Copy, Debug, PartialEq, Eq, Structural)]
pub struct PacketRecord {
    pub ssrc: u32,
    pub sequence: u16,
    pub timestamp: u32,
}

/// One number for each packet.
pub open spec fn packet_key(ssrc: u32, sequence: u16, timestamp: u32) -> u128 {
    (ssrc * 0x1_0000_0000_0000 + sequence * 0x1_0000_0000 + timestamp) as u128
}

/// Packets that differ in source, sequence number or timestamp have different
/// keys.
pub proof fn packet_keys_are_distinct(left: PacketRecord, right: PacketRecord)
    requires
        packet_key(left.ssrc, left.sequence, left.timestamp) == packet_key(
            right.ssrc,
            right.sequence,
            right.timestamp,
        ),
    ensures
        left == right,
{
}

fn key_of(ssrc: u32, sequence: u16, timestamp: u32) -> (key: u128)
    ensures
        key == packet_key(ssrc, sequence, timestamp),
{
    ssrc as u128 * 0x1_0000_0000_0000 + sequence as u128 * 0x1_0000_0000 + timestamp as u128
}

/// Aggregate packet-journal health plus per-transport continuity.
#[derive(Debug)]
pub struct PacketInspection {
    records: u64,
    truncated_tail: bool,
    streams: BTreeMap<u64, PacketStream>,
    packet_keys: HashSet<u128>,
}

pub struct PacketsView {
    pub records: nat,
    pub truncated_tail: bool,
    pub streams: Map<u64, StreamView>,
    pub packet_keys: Set<u128>,
}

impl DeepView for PacketInspection {
    type V = PacketsView;

    closed spec fn deep_view(&self) -> PacketsView {
        PacketsView {
            records: self.records as nat,
            truncated_tail: self.truncated_tail,
            streams: self.streams@.map_values(|stream: PacketStream| stream.deep_view()),
            packet_keys: self.packet_keys@,
        }
    }
}

pub open spec fn no_packets() -> PacketsView {
    PacketsView {
        records: 0,
        truncated_tail: false,
        streams: Map::empty(),
        packet_keys: Set::empty(),
    }
}

impl PacketsView {
    /// The journal with one more packet.
    pub open spec fn with_record(self, record: PacketRecord) -> PacketsView {
        let ssrc = record.ssrc as u64;
        PacketsView {
            records: self.records + 1,
            streams: self.streams.insert(
                ssrc,
                if self.streams.contains_key(ssrc) {
                    self.streams[ssrc].with_packet(record.sequence)
                } else {
                    stream_of(record.sequence)
                },
            ),
            packet_keys: self.packet_keys.insert(
                packet_key(record.ssrc, record.sequence, record.timestamp),
            ),
            ..self
        }
    }

    /// The packets of the journal, and the packets and the missing slots of
    /// each stream, are few enough to be counted.
    pub open spec fn countable(self) -> bool {
        &&& self.records <= u64::MAX
        &&& forall|ssrc: u64| #[trigger]
            self.streams.contains_key(ssrc) ==> self.streams[ssrc].countable()
    }
}

/// The health of a packet journal.
pub open spec fn packets_of(records: Seq<PacketRecord>) -> PacketsView
    decreases records.len(),
{
    if records.len() == 0 {
        no_packets()
    } else {
        packets_of(records.drop_last()).with_record(records.last())
    }
}

impl PacketInspection {
    /// Every stream is sound and has no more packets than the journal.
    pub closed spec fn wf(&self) -> bool {
        &&& forall|ssrc: u64| #[trigger]
            self.streams@.contains_key(ssrc) ==> self.streams@[ssrc].wf()
                && self.streams@[ssrc].deep_view().packets <= self.records
        &&& self.deep_view().streams.dom() == self.streams@.dom()
        &&& self.streams@.dom().finite()
    }

    pub fn new() -> (inspection: PacketInspection)
        ensures
            inspection.wf(),
            inspection.deep_view() == no_packets(),
    {
        let inspection = PacketInspection {
            records: 0,
            truncated_tail: false,
            streams: BTreeMap::new(),
            packet_keys: HashSet::new(),
        };
        assert(inspection.deep_view().streams =~= Map::empty());
        assert(inspection.deep_view().streams.dom() =~= inspection.streams@.dom());
        inspection
    }

    /// Take in one more packet.
    pub fn observe(&mut self, record: PacketRecord)
        requires
            old(self).wf(),
            old(self).deep_view().with_record(record).countable(),
        ensures
            final(self).wf(),
            final(self).deep_view() == old(self).deep_view().with_record(record),
    {
        let ghost before = *self;
        let ssrc: u64 = record.ssrc as u64;
        assert(before.deep_view().with_record(record).streams.contains_key(ssrc));
        self.records = self.records + 1;
        self.packet_keys.insert(key_of(record.ssrc, record.sequence, record.timestamp));
        let stream = match self.streams.remove(&ssrc) {
            Some(mut stream) => {
                assert(before.streams@.contains_key(ssrc));
                assert(before.deep_view().streams[ssrc] == stream.deep_view());
                stream.observe(record.sequence);
                stream
            },
            None => PacketStream::new(record.sequence),
        };
        let ghost placed = stream;
        self.streams.insert(ssrc, stream);
        proof {
            assert(self.deep_view().streams =~= before.deep_view().streams.insert(
                ssrc,
                placed.deep_view(),
            ));
            assert(self.deep_view().streams.dom() =~= self.streams@.dom());
            assert forall|other: u64| #[trigger] self.streams@.contains_key(other) implies
                self.streams@[other].wf() && self.streams@[other].deep_view().packets
                <= self.records by {
                if other != ssrc {
                    assert(before.streams@.contains_key(other));
                }
            }
        }
    }

    /// Note that the journal breaks off within a record.
    pub fn note_truncated_tail(&mut self)
        requires
            old(self).wf(),
        ensures
            final(self).wf(),
            final(self).deep_view() == (PacketsView {
                truncated_tail: true,
                ..old(self).deep_view()
            }),
    {
        self.truncated_tail = true;
        assert(self.deep_view().streams =~= old(self).deep_view().streams);
    }

    /// Whether the journal holds a packet.
    pub fn holds(&self, ssrc: u32, sequence: u16, timestamp: u32) -> (result: bool)
        ensures
            result == self.deep_view().packet_keys.contains(
                packet_key(ssrc, sequence, timestamp),
            ),
    {
        self.packet_keys.contains(&key_of(ssrc, sequence, timestamp))
    }

    pub fn truncated_tail(&self) -> (result: bool)
        ensures
            result == self.deep_view().truncated_tail,
    {
        self.truncated_tail
    }

    pub fn records(&self) -> (count: u64)
        ensures
            count == self.deep_view().records,
    {
        self.records
    }
}

proof fn lemma_prefix_is_countable(records: Seq<PacketRecord>, count: int)
    requires
        0 <= count <= records.len(),
        packets_of(records).countable(),
    ensures
        packets_of(records.take(count)).countable(),
    decreases records.len(),
{
    if count == records.len() {
        assert(records.take(count) =~= records);
    } else {
        let before = packets_of(records.drop_last());
        let after = packets_of(records);
        assert forall|ssrc: u64| #[trigger] before.streams.contains_key(
            ssrc,
        ) implies before.streams[ssrc].countable() by {
            assert(after.streams.contains_key(ssrc));
        }
        lemma_prefix_is_countable(records.drop_last(), count);
        assert(records.drop_last().take(count) =~= records.take(count));
    }
}

proof fn lemma_streams_are_sound(records: Seq<PacketRecord>)
    ensures
        packets_of(records).records == records.len(),
        forall|ssrc: u64| #[trigger]
            packets_of(records).streams.contains_key(ssrc) ==> packets_of(
                records,
            ).streams[ssrc].wf() && packets_of(records).streams[ssrc].packets <= records.len(),
    decreases records.len(),
{
    if records.len() > 0 {
        lemma_streams_are_sound(records.drop_last());
        let before = packets_of(records.drop_last());
        let after = packets_of(records);
        let last = records.last();
        assert forall|ssrc: u64| #[trigger] after.streams.contains_key(
            ssrc,
        ) implies after.streams[ssrc].wf() && after.streams[ssrc].packets <= records.len() by {
            if before.streams.contains_key(ssrc) {
                lemma_stream_stays_wf(before.streams[ssrc], last.sequence);
            }
        }
    }
}

/// A packet can leave no more than half the range of sequence numbers behind
/// it, so a journal of so many packets can always be counted.
pub proof fn moderate_journals_are_countable(records: Seq<PacketRecord>)
    requires
        records.len() * HALF_RANGE <= u64::MAX,
    ensures
        packets_of(records).countable(),
{
    lemma_streams_are_sound(records);
    let journal = packets_of(records);
    assert forall|ssrc: u64| #[trigger] journal.streams.contains_key(
        ssrc,
    ) implies journal.streams[ssrc].countable() by {
        let stream = journal.streams[ssrc];
        assert((stream.packets - 1) * (HALF_RANGE - 2) <= records.len() * HALF_RANGE)
            by (nonlinear_arith)
            requires
                1 <= stream.packets <= records.len(),
                HALF_RANGE == 32_768,
        ;
    }
}

/// Inspect a packet journal from its records, in order, and from whether it
/// breaks off within one.
pub fn inspect_packets(records: &Vec<PacketRecord>, truncated_tail: bool) -> (inspection:
    PacketInspection)
    requires
        packets_of(records@).countable(),
    ensures
        inspection.wf(),
        inspection.deep_view() == (PacketsView { truncated_tail, ..packets_of(records@) }),
{
    let mut inspection = PacketInspection::new();
    let mut index: usize = 0;
    assert(records@.take(0) =~= Seq::<PacketRecord>::empty());
    while index < records.len()
        invariant
            index <= records.len(),
            packets_of(records@).countable(),
            inspection.wf(),
            inspection.deep_view() == packets_of(records@.take(index as int)),
        decreases records.len() - index,
    {
        proof {
            let longer = records@.take(index + 1);
            assert(longer.drop_last() =~= records@.take(index as int));
            assert(longer.last() == records@[index as int]);
            lemma_prefix_is_countable(records@, index + 1);
        }
        inspection.observe(records[index]);
        index = index + 1;
    }
    assert(records@.take(records@.len() as int) =~= records@);
    proof {
        lemma_packets_untruncated(records@);
    }
    if truncated_tail {
        inspection.note_truncated_tail();
    }
    inspection
}

proof fn lemma_packets_untruncated(records: Seq<PacketRecord>)
    ensures
        !packets_of(records).truncated_tail,
    decreases records.len(),
{
    if records.len() > 0 {
        lemma_packets_untruncated(records.drop_last());
    }
}

/// The line that reports a stream.
pub open spec fn stream_line(ssrc: u64, stream: StreamView) -> Seq<char> {
    "  SSRC "@ + text::decimal(ssrc as nat) + ": "@ + text::decimal(stream.packets)
        + " packets, sequences "@ + text::decimal(stream.first_sequence as nat) + ".."@
        + text::decimal(stream.latest_sequence as nat) + ", "@ + text::decimal(
        stream.forward_gap_events,
    ) + " forward gap events ("@ + text::decimal(stream.missing_slots_observed)
        + " missing slots), "@ + text::decimal(stream.duplicates) + " duplicates, "@
        + text::decimal(stream.out_of_order) + " late/out-of-order."@
}

/// One line for each stream, smallest source first.
pub open spec fn stream_lines(streams: Map<u64, StreamView>) -> Seq<Seq<char>> {
    order::ascending(streams.dom()).map_values(|ssrc: u64| stream_line(ssrc, streams[ssrc]))
}

impl PacketStream {
    fn line(&self, ssrc: u64) -> (line: String)
        ensures
            line@ == stream_line(ssrc, self.deep_view()),
    {
        "  SSRC ".to_owned().concat(text::decimal_text(ssrc).as_str()).concat(": ").concat(
            text::decimal_text(self.packets).as_str(),
        ).concat(" packets, sequences ").concat(
            text::decimal_text(self.first_sequence as u64).as_str(),
        ).concat("..").concat(text::decimal_text(self.latest_sequence as u64).as_str()).concat(
            ", ",
        ).concat(text::decimal_text(self.forward_gap_events).as_str()).concat(
            " forward gap events (",
        ).concat(text::decimal_text(self.missing_slots_observed).as_str()).concat(
            " missing slots), ",
        ).concat(text::decimal_text(self.duplicates).as_str()).concat(" duplicates, ").concat(
            text::decimal_text(self.out_of_order).as_str(),
        ).concat(" late/out-of-order.")
    }
}

impl PacketInspection {
    /// The streams, smallest source first.
    pub fn sources(&self) -> (sources: Vec<u64>)
        requires
            self.wf(),
        ensures
            sources@ == order::ascending(self.deep_view().streams.dom()),
            sources@.to_set() == self.deep_view().streams.dom(),
    {
        let mut sources: Vec<u64> = Vec::new();
        let ghost keys = vstd::std_specs::iter::IteratorSpec::remaining(
            &vstd::std_specs::btree::spec_keys_iter(&self.streams),
        );
        proof {
            order::lemma_keys_increase(keys);
        }
        for source in it: self.streams.keys()
            invariant
                it.seq() == keys,
                sources@ == keys.unref().take(it.index()),
        {
            sources.push(*source);
            assert(keys.unref().take(it.index() + 1) =~= keys.unref().take(it.index()).push(
                *source,
            ));
        }
        proof {
            assert(sources@ =~= keys.unref());
            order::ascending_is_unique(sources@);
        }
        sources
    }

    /// One line for each stream, smallest source first.
    pub fn report_streams(&self) -> (lines: Vec<String>)
        requires
            self.wf(),
        ensures
            lines.deep_view() == stream_lines(self.deep_view().streams),
    {
        let sources = self.sources();
        let ghost streams = self.deep_view().streams;
        let mut lines: Vec<String> = Vec::new();
        let mut index: usize = 0;
        while index < sources.len()
            invariant
                index <= sources.len(),
                streams == self.deep_view().streams,
                sources@.to_set() == streams.dom(),
                lines@.len() == index,
                forall|i: int|
                    0 <= i < index ==> (#[trigger] lines@[i])@ == stream_line(
                        sources@[i],
                        streams[sources@[i]],
                    ),
            decreases sources.len() - index,
        {
            let source: u64 = sources[index];
            assert(sources@.to_set().contains(source));
            match self.streams.get(&source) {
                Some(stream) => {
                    lines.push(stream.line(source));
                },
                None => {
                    assert(!streams.contains_key(source));
                },
            }
            index = index + 1;
        }
        assert(lines.deep_view() =~= stream_lines(streams));
        lines
    }
}

} // verus!
