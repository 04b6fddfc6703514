//! Recorded playout decisions and their links back to packets.

use std::collections::BTreeMap;

use vstd::prelude::*;

use crate::audio::SAMPLES_PER_TICK;
use crate::failure::Failure;
use crate::order;
use crate::packet_inspection;
use crate::packet_inspection::PacketInspection;
use crate::packet_inspection::PacketsView;
use crate::text;

verus! {

broadcast use vstd::std_specs::btree::group_btree_axioms;

/// What was played at a tick of a stream.
#[derive(Clone, Copy, Debug, PartialEq, Eq, Structural)]
pub enum PlayoutDecision {
    Loss,
    Packet { sequence: u16, timestamp: u32 },
}

/// A playout decision of the journal.
#[derive(Clone, Copy, Debug, PartialEq, Eq, Structural)]
pub struct PlayoutRecord {
    pub tick: u64,
    pub ssrc: u32,
    pub decision: PlayoutDecision,
    pub decoded_samples: u32,
}

/// Playout of one stream.
#[derive(Clone, Copy, Debug, PartialEq, Eq, Structural)]
pub struct PlayoutStream {
    pub decisions: u64,
    pub packet_decisions: u64,
    pub loss_decisions: u64,
    pub decoded_decisions: u64,
    pub nonstandard_decoded_frames: u64,
    pub first_tick: Option<u64>,
    pub last_tick: Option<u64>,
}

pub open spec fn no_playout() -> PlayoutStream {
    PlayoutStream {
        decisions: 0,
        packet_decisions: 0,
        loss_decisions: 0,
        decoded_decisions: 0,
        nonstandard_decoded_frames: 0,
        first_tick: None,
        last_tick: None,
    }
}

impl PlayoutStream {
    /// The stream with a decision at one more tick.
    pub open spec fn with_tick(self, tick: u64) -> PlayoutStream {
        PlayoutStream {
            decisions: (self.decisions + 1) as u64,
            first_tick: match self.first_tick {
                Some(first) => Some(first),
                None => Some(tick),
            },
            last_tick: Some(tick),
            ..self
        }
    }

    /// The stream with one more decision.
    pub open spec fn with_record(self, record: PlayoutRecord) -> PlayoutStream {
        let ticked = self.with_tick(record.tick);
        let decoded = PlayoutStream {
            decoded_decisions: if record.decoded_samples > 0 {
                (self.decoded_decisions + 1) as u64
            } else {
                self.decoded_decisions
            },
            nonstandard_decoded_frames: if record.decoded_samples > 0 && record.decoded_samples
                != SAMPLES_PER_TICK {
                (self.nonstandard_decoded_frames + 1) as u64
            } else {
                self.nonstandard_decoded_frames
            },
            ..ticked
        };
        match record.decision {
            PlayoutDecision::Loss => PlayoutStream {
                loss_decisions: (self.loss_decisions + 1) as u64,
                ..decoded
            },
            PlayoutDecision::Packet { .. } => PlayoutStream {
                packet_decisions: (self.packet_decisions + 1) as u64,
                ..decoded
            },
        }
    }

    /// Every decision is counted once as packet or loss, and no count exceeds
    /// the number of decisions.
    pub open spec fn wf(self) -> bool {
        &&& self.packet_decisions + self.loss_decisions == self.decisions
        &&& self.nonstandard_decoded_frames <= self.decoded_decisions <= self.decisions
        &&& self.decisions > 0 ==> self.first_tick is Some && self.last_tick is Some
    }

    pub fn empty() -> (stream: PlayoutStream)
        ensures
            stream == no_playout(),
    {
        PlayoutStream {
            decisions: 0,
            packet_decisions: 0,
            loss_decisions: 0,
            decoded_decisions: 0,
            nonstandard_decoded_frames: 0,
            first_tick: None,
            last_tick: None,
        }
    }

    /// Count a decision and remember where the stream begins and ends.
    pub fn observe_tick(&mut self, tick: u64)
        requires
            old(self).decisions < u64::MAX,
        ensures
            *final(self) == old(self).with_tick(tick),
    {
        self.decisions = self.decisions + 1;
        if self.first_tick.is_none() {
            self.first_tick = Some(tick);
        }
        self.last_tick = Some(tick);
    }

    fn observe(&mut self, record: PlayoutRecord)
        requires
            old(self).wf(),
            old(self).decisions < u64::MAX,
        ensures
            final(self).wf(),
            *final(self) == old(self).with_record(record),
    {
        self.observe_tick(record.tick);
        if record.decoded_samples > 0 {
            self.decoded_decisions = self.decoded_decisions + 1;
            if record.decoded_samples as u64 != SAMPLES_PER_TICK {
                self.nonstandard_decoded_frames = self.nonstandard_decoded_frames + 1;
            }
        }
        match record.decision {
            PlayoutDecision::Loss => {
                self.loss_decisions = self.loss_decisions + 1;
            },
            PlayoutDecision::Packet { .. } => {
                self.packet_decisions = self.packet_decisions + 1;
            },
        }
    }

    fn line(&self, ssrc: u64) -> (line: String)
        ensures
            line@ == stream_line(ssrc, *self),
    {
        let ticks = match (self.first_tick, self.last_tick) {
            (Some(first), Some(last)) => text::decimal_text(first).concat("..").concat(
                text::decimal_text(last).as_str(),
            ),
            _ => "none".to_owned(),
        };
        "  SSRC ".to_owned().concat(text::decimal_text(ssrc).as_str()).concat(": ").concat(
            text::decimal_text(self.decisions).as_str(),
        ).concat(" decisions across ticks ").concat(ticks.as_str()).concat(", ").concat(
            text::decimal_text(self.packet_decisions).as_str(),
        ).concat(" packets, ").concat(text::decimal_text(self.loss_decisions).as_str()).concat(
            " losses, ",
        ).concat(text::decimal_text(self.decoded_decisions).as_str()).concat(
            " decoded, ",
        ).concat(text::decimal_text(self.nonstandard_decoded_frames).as_str()).concat(
            " non-",
        ).concat(text::decimal_text(SAMPLES_PER_TICK).as_str()).concat("-sample decoded frames.")
    }
}

/// The line that reports a stream.
pub open spec fn stream_line(ssrc: u64, stream: PlayoutStream) -> Seq<char> {
    "  SSRC "@ + text::decimal(ssrc as nat) + ": "@ + text::decimal(stream.decisions as nat)
        + " decisions across ticks "@ + (match (stream.first_tick, stream.last_tick) {
        (Some(first), Some(last)) => text::decimal(first as nat) + ".."@ + text::decimal(
            last as nat,
        ),
        _ => "none"@,
    }) + ", "@ + text::decimal(stream.packet_decisions as nat) + " packets, "@ + text::decimal(
        stream.loss_decisions as nat,
    ) + " losses, "@ + text::decimal(stream.decoded_decisions as nat) + " decoded, "@
        + text::decimal(stream.nonstandard_decoded_frames as nat) + " non-"@ + text::decimal(
        SAMPLES_PER_TICK as nat,
    ) + "-sample decoded frames."@
}

pub open spec fn stream_lines(streams: Map<u64, PlayoutStream>) -> Seq<Seq<char>> {
    order::ascending(streams.dom()).map_values(|ssrc: u64| stream_line(ssrc, streams[ssrc]))
}

/// Aggregate playout evidence, including links back to packet decisions.
#[derive(Debug)]
pub struct PlayoutInspection {
    records: u64,
    packet_decisions: u64,
    loss_decisions: u64,
    unmatched_packets: u64,
    truncated_tail: bool,
    streams: BTreeMap<u64, PlayoutStream>,
}

pub struct PlayoutView {
    pub records: nat,
    pub packet_decisions: nat,
    pub loss_decisions: nat,
    pub unmatched_packets: nat,
    pub truncated_tail: bool,
    pub streams: Map<u64, PlayoutStream>,
}

impl DeepView for PlayoutInspection {
    type V = PlayoutView;

    closed spec fn deep_view(&self) -> PlayoutView {
        PlayoutView {
            records: self.records as nat,
            packet_decisions: self.packet_decisions as nat,
            loss_decisions: self.loss_decisions as nat,
            unmatched_packets: self.unmatched_packets as nat,
            truncated_tail: self.truncated_tail,
            streams: self.streams@,
        }
    }
}

pub open spec fn no_decisions() -> PlayoutView {
    PlayoutView {
        records: 0,
        packet_decisions: 0,
        loss_decisions: 0,
        unmatched_packets: 0,
        truncated_tail: false,
        streams: Map::empty(),
    }
}

/// Whether a decision names a packet that the packet journal does not hold.
pub open spec fn unmatched(record: PlayoutRecord, packets: PacketsView) -> bool {
    match record.decision {
        PlayoutDecision::Loss => false,
        PlayoutDecision::Packet { sequence, timestamp } => !packets.packet_keys.contains(
            packet_inspection::packet_key(record.ssrc, sequence, timestamp),
        ),
    }
}

impl PlayoutView {
    pub open spec fn with_record(self, record: PlayoutRecord, packets: PacketsView) -> PlayoutView {
        let ssrc = record.ssrc as u64;
        let before = if self.streams.contains_key(ssrc) {
            self.streams[ssrc]
        } else {
            no_playout()
        };
        PlayoutView {
            records: self.records + 1,
            packet_decisions: if record.decision is Packet {
                self.packet_decisions + 1
            } else {
                self.packet_decisions
            },
            loss_decisions: if record.decision is Loss {
                self.loss_decisions + 1
            } else {
                self.loss_decisions
            },
            unmatched_packets: if unmatched(record, packets) {
                self.unmatched_packets + 1
            } else {
                self.unmatched_packets
            },
            streams: self.streams.insert(ssrc, before.with_record(record)),
            ..self
        }
    }
}

pub open spec fn playout_of(records: Seq<PlayoutRecord>, packets: PacketsView) -> PlayoutView
    decreases records.len(),
{
    if records.len() == 0 {
        no_decisions()
    } else {
        playout_of(records.drop_last(), packets).with_record(records.last(), packets)
    }
}

impl PlayoutInspection {
    /// Counts add up, and no stream has more decisions than the journal.
    pub closed spec fn wf(&self) -> bool {
        &&& self.packet_decisions + self.loss_decisions == self.records
        &&& self.unmatched_packets <= self.packet_decisions
        &&& forall|ssrc: u64| #[trigger]
            self.streams@.contains_key(ssrc) ==> self.streams@[ssrc].wf()
                && self.streams@[ssrc].decisions <= self.records
    }

    pub fn new() -> (inspection: PlayoutInspection)
        ensures
            inspection.wf(),
            inspection.deep_view() == no_decisions(),
    {
        PlayoutInspection {
            records: 0,
            packet_decisions: 0,
            loss_decisions: 0,
            unmatched_packets: 0,
            truncated_tail: false,
            streams: BTreeMap::new(),
        }
    }

    /// Take in one more decision.
    pub fn observe(&mut self, record: PlayoutRecord, packets: &PacketInspection)
        requires
            old(self).wf(),
            old(self).deep_view().records < u64::MAX,
        ensures
            final(self).wf(),
            final(self).deep_view() == old(self).deep_view().with_record(
                record,
                packets.deep_view(),
            ),
    {
        let ghost before = *self;
        let ssrc: u64 = record.ssrc as u64;
        self.records = self.records + 1;
        let mut stream = match self.streams.get(&ssrc) {
            Some(stream) => *stream,
            None => PlayoutStream::empty(),
        };
        stream.observe(record);
        let ghost placed = stream;
        self.streams.insert(ssrc, stream);
        match record.decision {
            PlayoutDecision::Loss => {
                self.loss_decisions = self.loss_decisions + 1;
            },
            PlayoutDecision::Packet { sequence, timestamp } => {
                self.packet_decisions = self.packet_decisions + 1;
                if !packets.holds(record.ssrc, sequence, timestamp) {
                    self.unmatched_packets = self.unmatched_packets + 1;
                }
            },
        }
        assert forall|other: u64| #[trigger] self.streams@.contains_key(other) implies
            self.streams@[other].wf() && self.streams@[other].decisions <= self.records by {
            if other != ssrc {
                assert(before.streams@.contains_key(other));
            }
        }
    }

    pub fn note_truncated_tail(&mut self)
        requires
            old(self).wf(),
        ensures
            final(self).wf(),
            final(self).deep_view() == (PlayoutView {
                truncated_tail: true,
                ..old(self).deep_view()
            }),
    {
        self.truncated_tail = true;
    }

    pub fn truncated_tail(&self) -> (result: bool)
        ensures
            result == self.deep_view().truncated_tail,
    {
        self.truncated_tail
    }

    pub fn unmatched_packets(&self) -> (count: u64)
        ensures
            count == self.deep_view().unmatched_packets,
    {
        self.unmatched_packets
    }

    pub fn records(&self) -> (count: u64)
        ensures
            count == self.deep_view().records,
    {
        self.records
    }

    pub fn packet_decisions(&self) -> (count: u64)
        ensures
            count == self.deep_view().packet_decisions,
    {
        self.packet_decisions
    }

    pub fn loss_decisions(&self) -> (count: u64)
        ensures
            count == self.deep_view().loss_decisions,
    {
        self.loss_decisions
    }

    /// One line for each stream, smallest source first.
    pub fn report_streams(&self) -> (lines: Vec<String>)
        ensures
            lines.deep_view() == stream_lines(self.deep_view().streams),
    {
        let ghost streams = self.streams@;
        let ghost keys = vstd::std_specs::iter::IteratorSpec::remaining(
            &vstd::std_specs::btree::spec_keys_iter(&self.streams),
        );
        let ghost sources = keys.unref();
        proof {
            order::lemma_keys_increase(keys);
            order::ascending_is_unique(sources);
        }
        let mut lines: Vec<String> = Vec::new();
        for source in it: self.streams.keys()
            invariant
                it.seq() == keys,
                sources == keys.unref(),
                streams == self.streams@,
                sources.to_set() == streams.dom(),
                lines@.len() == it.index(),
                forall|i: int|
                    0 <= i < lines@.len() ==> (#[trigger] lines@[i])@ == stream_line(
                        sources[i],
                        streams[sources[i]],
                    ),
        {
            proof {
                assert(sources[it.index() as int] == *source);
                assert(sources.to_set().contains(*source));
            }
            match self.streams.get(source) {
                Some(stream) => {
                    lines.push(stream.line(*source));
                },
                None => {
                    assert(!streams.contains_key(*source));
                },
            }
        }
        assert(lines.deep_view() =~= stream_lines(streams));
        lines
    }
}

proof fn lemma_playout_counted(records: Seq<PlayoutRecord>, packets: PacketsView)
    ensures
        playout_of(records, packets).records == records.len(),
        !playout_of(records, packets).truncated_tail,
    decreases records.len(),
{
    if records.len() > 0 {
        lemma_playout_counted(records.drop_last(), packets);
    }
}

pub open spec fn format_mismatch(found: u16, expected: u16) -> Seq<char> {
    "playout journal format "@ + text::decimal(found as nat) + " does not match manifest format "@
        + text::decimal(expected as nat)
}

/// Inspect a playout journal from its format and records, in order, and from
/// whether it breaks off within one.
pub fn inspect_playout(
    format_version: u16,
    expected_format_version: u16,
    records: &Vec<PlayoutRecord>,
    truncated_tail: bool,
    packets: &PacketInspection,
) -> (inspection: Result<PlayoutInspection, Failure>)
    requires
        records@.len() <= u64::MAX,
    ensures
        match inspection {
            Err(refusal) => format_version != expected_format_version && refusal@
                == format_mismatch(format_version, expected_format_version),
            Ok(inspection) => {
                &&& format_version == expected_format_version
                &&& inspection.wf()
                &&& inspection.deep_view() == (PlayoutView {
                    truncated_tail,
                    ..playout_of(records@, packets.deep_view())
                })
            },
        },
{
    if format_version != expected_format_version {
        return Err(
            Failure::new(
                "playout journal format ".to_owned().concat(
                    text::decimal_text(format_version as u64).as_str(),
                ).concat(" does not match manifest format ").concat(
                    text::decimal_text(expected_format_version as u64).as_str(),
                ),
            ),
        );
    }
    let ghost packet_view = packets.deep_view();
    let mut inspection = PlayoutInspection::new();
    let mut index: usize = 0;
    assert(records@.take(0) =~= Seq::<PlayoutRecord>::empty());
    while index < records.len()
        invariant
            index <= records.len(),
            records@.len() <= u64::MAX,
            packet_view == packets.deep_view(),
            inspection.wf(),
            inspection.deep_view() == playout_of(records@.take(index as int), packet_view),
        decreases records.len() - index,
    {
        proof {
            let longer = records@.take(index + 1);
            assert(longer.drop_last() =~= records@.take(index as int));
            assert(longer.last() == records@[index as int]);
            lemma_playout_counted(records@.take(index as int), packet_view);
        }
        inspection.observe(records[index], packets);
        index = index + 1;
    }
    assert(records@.take(records@.len() as int) =~= records@);
    proof {
        lemma_playout_counted(records@, packet_view);
    }
    if truncated_tail {
        inspection.note_truncated_tail();
    }
    Ok(inspection)
}

} // verus!
