//! What the inspection of a session tells of its journals and its manifest.

use vstd::prelude::*;

use crate::event_inspection;
use crate::event_inspection::EventView;
use crate::event_inspection::EventsView;
use crate::event_inspection::MappingView;
use crate::event_inspection::ParsedEventView;
use crate::inspect;
use crate::packet_inspection;
use crate::packet_inspection::PacketRecord;
use crate::packet_inspection::PacketsView;
use crate::playout_inspection;
use crate::playout_inspection::PlayoutDecision;
use crate::playout_inspection::PlayoutRecord;
use crate::playout_inspection::PlayoutView;
use crate::records;
use crate::stream_laws;

verus! {

pub proof fn lemma_filter_step<T>(items: Seq<T>, wanted: spec_fn(T) -> bool)
    requires
        items.len() > 0,
    ensures
        items.filter(wanted) == (if wanted(items.last()) {
            items.drop_last().filter(wanted).push(items.last())
        } else {
            items.drop_last().filter(wanted)
        }),
{
    reveal(Seq::filter);
}

pub proof fn lemma_filter_none<T>(wanted: spec_fn(T) -> bool)
    ensures
        Seq::<T>::empty().filter(wanted) == Seq::<T>::empty(),
{
    reveal(Seq::filter);
}

pub open spec fn of_source(ssrc: u32) -> spec_fn(PlayoutRecord) -> bool {
    |record: PlayoutRecord| record.ssrc == ssrc
}

pub open spec fn lost() -> spec_fn(PlayoutRecord) -> bool {
    |record: PlayoutRecord| record.decision == PlayoutDecision::Loss
}

/// Decisions for a packet that is none of some packets.
pub open spec fn without_packet(packets: Seq<PacketRecord>) -> spec_fn(PlayoutRecord) -> bool {
    |record: PlayoutRecord|
        match record.decision {
            PlayoutDecision::Loss => false,
            PlayoutDecision::Packet { sequence, timestamp } => !packets.contains(
                PacketRecord { ssrc: record.ssrc, sequence, timestamp },
            ),
        }
}

pub open spec fn decoded() -> spec_fn(PlayoutRecord) -> bool {
    |record: PlayoutRecord| record.decoded_samples > 0
}

/// Decoded frames that do not fill a tick of 960 samples exactly.
pub open spec fn odd_sized() -> spec_fn(PlayoutRecord) -> bool {
    |record: PlayoutRecord| record.decoded_samples > 0 && record.decoded_samples != 960
}

/// Every playout decision is counted once, in the journal and in the stream of
/// its source: as a loss or as a packet, as unmatched if the packet journal
/// holds no such packet, as decoded if it has samples, and as nonstandard if
/// those are not 960. A stream spans the ticks of its first and last decision.
pub proof fn playout_decisions_are_counted(
    records: Seq<PlayoutRecord>,
    packets: Seq<PacketRecord>,
    ssrc: u32,
)
    requires
        records.len() <= u64::MAX,
    ensures
        ({
            let playout = playout_inspection::playout_of(
                records,
                packet_inspection::packets_of(packets),
            );
            let own = records.filter(of_source(ssrc));
            let stream = playout.streams[ssrc as u64];
            &&& playout.records == records.len()
            &&& playout.loss_decisions == records.filter(lost()).len()
            &&& playout.packet_decisions + playout.loss_decisions == records.len()
            &&& playout.unmatched_packets == records.filter(without_packet(packets)).len()
            &&& playout.streams.contains_key(ssrc as u64) <==> own.len() > 0
            &&& own.len() <= records.len()
            &&& own.len() > 0 ==> {
                &&& stream.decisions == own.len()
                &&& stream.loss_decisions == own.filter(lost()).len()
                &&& stream.packet_decisions + stream.loss_decisions == own.len()
                &&& stream.decoded_decisions == own.filter(decoded()).len()
                &&& stream.nonstandard_decoded_frames == own.filter(odd_sized()).len()
                &&& stream.first_tick == Some(own[0].tick)
                &&& stream.last_tick == Some(own.last().tick)
            }
        }),
    decreases records.len(),
{
    lemma_filter_none::<PlayoutRecord>(of_source(ssrc));
    lemma_filter_none::<PlayoutRecord>(lost());
    lemma_filter_none::<PlayoutRecord>(without_packet(packets));
    lemma_filter_none::<PlayoutRecord>(decoded());
    lemma_filter_none::<PlayoutRecord>(odd_sized());
    if records.len() == 0 {
        assert(records =~= Seq::<PlayoutRecord>::empty());
    } else {
        let earlier = records.drop_last();
        let last = records.last();
        playout_decisions_are_counted(earlier, packets, ssrc);
        lemma_filter_step(records, of_source(ssrc));
        lemma_filter_step(records, lost());
        lemma_filter_step(records, without_packet(packets));
        if let PlayoutDecision::Packet { sequence, timestamp } = last.decision {
            stream_laws::journals_hold_their_packets(
                packets,
                PacketRecord { ssrc: last.ssrc, sequence, timestamp },
            );
        }
        let fewer = earlier.filter(of_source(ssrc));
        let own = records.filter(of_source(ssrc));
        if last.ssrc == ssrc {
            lemma_filter_step(own, lost());
            lemma_filter_step(own, decoded());
            lemma_filter_step(own, odd_sized());
            assert(own.drop_last() =~= fewer);
            lemma_filter_is_shorter(fewer, lost());
            lemma_filter_is_shorter(fewer, decoded());
            lemma_filter_is_shorter(fewer, odd_sized());
            if fewer.len() == 0 {
                assert(fewer =~= Seq::<PlayoutRecord>::empty());
            }
        }
    }
}

proof fn lemma_filter_is_shorter<T>(items: Seq<T>, wanted: spec_fn(T) -> bool)
    ensures
        items.filter(wanted).len() <= items.len(),
    decreases items.len(),
{
    if items.len() == 0 {
        assert(items =~= Seq::<T>::empty());
        lemma_filter_none::<T>(wanted);
    } else {
        lemma_filter_step(items, wanted);
        lemma_filter_is_shorter(items.drop_last(), wanted);
    }
}

/// The events of a journal: what its lines that are not empty were read as, in
/// order.
pub open spec fn read_events(lines: Seq<Seq<u8>>, parsed: Seq<ParsedEventView>) -> Seq<EventView>
    decreases lines.len(),
{
    if lines.len() == 0 {
        Seq::empty()
    } else {
        let earlier = read_events(lines.drop_last(), parsed);
        match parsed[lines.len() - 1] {
            ParsedEventView::Event(event) if lines.last().len() > 0 => earlier.push(event),
            _ => earlier,
        }
    }
}

pub open spec fn event_format(event: EventView) -> u16 {
    match event {
        EventView::SpeakerMapping { format, .. } => format,
        EventView::UserIdentity { format } => format,
        EventView::UserDisconnected { format } => format,
        EventView::UnresolvedSsrcAbandoned { format } => format,
    }
}

pub open spec fn is_mapping() -> spec_fn(EventView) -> bool {
    |event: EventView| event is SpeakerMapping
}

pub open spec fn is_identity() -> spec_fn(EventView) -> bool {
    |event: EventView| event is UserIdentity
}

pub open spec fn is_disconnection() -> spec_fn(EventView) -> bool {
    |event: EventView| event is UserDisconnected
}

pub open spec fn is_abandonment() -> spec_fn(EventView) -> bool {
    |event: EventView| event is UnresolvedSsrcAbandoned
}

pub open spec fn mapping_of() -> spec_fn(EventView) -> MappingView {
    |event: EventView| event->mapping
}

/// A line may stand in a journal of `total` lines: it is empty, or an event of
/// the declared format, which must be 2 for anything but a speaker mapping, or
/// the last line and cut off.
pub open spec fn may_stand(
    lines: Seq<Seq<u8>>,
    parsed: Seq<ParsedEventView>,
    total: nat,
    expected: u16,
    i: int,
) -> bool {
    ||| lines[i].len() == 0
    ||| (parsed[i] is Event && event_format(parsed[i]->Event_0) == expected && (
    parsed[i]->Event_0 is SpeakerMapping || expected == 2))
    ||| (parsed[i] is CutOff && i + 1 == total)
}

/// An event journal is accepted exactly if every line may stand in it. Then
/// every event is counted once, under its type; the speaker mappings are kept
/// in order; and the tail counts as cut off exactly if the last line is.
pub proof fn events_are_counted(
    lines: Seq<Seq<u8>>,
    parsed: Seq<ParsedEventView>,
    total: nat,
    expected: u16,
    path: Seq<char>,
)
    requires
        lines.len() <= total,
    ensures
        ({
            let inspected = event_inspection::events_of(lines, parsed, total, expected, path);
            let events = inspected->Ok_0;
            let read = read_events(lines, parsed);
            &&& inspected is Ok <==> (forall|i: int|
                0 <= i < lines.len() ==> #[trigger] may_stand(lines, parsed, total, expected, i))
            &&& inspected is Ok ==> {
                &&& events.records == read.len()
                &&& events.mappings == read.filter(is_mapping()).map_values(mapping_of())
                &&& events.identity_updates == read.filter(is_identity()).len()
                &&& events.user_disconnections == read.filter(is_disconnection()).len()
                &&& events.unresolved_abandonments == read.filter(is_abandonment()).len()
                &&& events.truncated_tail <==> lines.len() > 0 && lines.len() == total
                    && lines.last().len() > 0 && parsed[total - 1] is CutOff
            }
        }),
    decreases lines.len(),
{
    lemma_filter_none::<EventView>(is_mapping());
    lemma_filter_none::<EventView>(is_identity());
    lemma_filter_none::<EventView>(is_disconnection());
    lemma_filter_none::<EventView>(is_abandonment());
    if lines.len() == 0 {
        assert(Seq::<EventView>::empty().map_values(mapping_of()) =~= Seq::<MappingView>::empty());
    } else {
        let n = lines.len() as int;
        let earlier = lines.drop_last();
        events_are_counted(earlier, parsed, total, expected, path);
        let before = event_inspection::events_of(earlier, parsed, total, expected, path);
        let inspected = event_inspection::events_of(lines, parsed, total, expected, path);
        assert forall|i: int| 0 <= i < n - 1 implies #[trigger] may_stand(
            lines,
            parsed,
            total,
            expected,
            i,
        ) == may_stand(earlier, parsed, total, expected, i) by {
            assert(earlier[i] == lines[i]);
        }
        if before is Ok {
            assert(inspected is Ok <==> may_stand(lines, parsed, total, expected, n - 1));
        } else {
            let i = choose|i: int|
                0 <= i < earlier.len() && !#[trigger] may_stand(
                    earlier,
                    parsed,
                    total,
                    expected,
                    i,
                );
            assert(!may_stand(lines, parsed, total, expected, i));
        }
        if inspected is Ok {
            let read = read_events(lines, parsed);
            let fewer = read_events(earlier, parsed);
            if lines.last().len() > 0 && parsed[n - 1] is Event {
                assert(read.drop_last() =~= fewer);
                lemma_filter_step(read, is_mapping());
                lemma_filter_step(read, is_identity());
                lemma_filter_step(read, is_disconnection());
                lemma_filter_step(read, is_abandonment());
                assert(inspected->Ok_0.mappings =~= read.filter(is_mapping()).map_values(
                    mapping_of(),
                ));
            }
        }
    }
}

/// A manifest is accepted exactly if it is of one of the formats 2 to 5 and
/// names `packets.dat` of format 1, `playout.dat` of format 1 or 2 and
/// `events.ndjson` of format 1 or 2.
pub proof fn manifests_declare_known_journals(manifest: inspect::ManifestView)
    ensures
        inspect::manifest_fault(manifest) is None <==> {
            &&& 2 <= manifest.format <= 5
            &&& manifest.packets.path == "packets.dat"@
            &&& manifest.packets.format == 1
            &&& manifest.playout.path == "playout.dat"@
            &&& manifest.playout.format == 1 || manifest.playout.format == 2
            &&& manifest.events.path == "events.ndjson"@
            &&& manifest.events.format == 1 || manifest.events.format == 2
        },
{
}

/// A document of format 2 is read in the layout that has no workflow state, one
/// of the formats 3 to 5 in the current layout, and any other is refused.
pub proof fn manifests_are_read_by_their_format(
    format: Option<u64>,
    path: Seq<char>,
    parsed: inspect::ParsedManifest,
)
    ensures
        ({
            let manifest = inspect::manifest_for(format, path, parsed);
            &&& manifest is Ok <==> {
                ||| format == Some(2u64) && parsed.legacy is Ok
                ||| format is Some && 3 <= format->0 <= 5 && parsed.current is Ok
            }
            &&& manifest is Ok && format == Some(2u64) ==> {
                let read = parsed.legacy->Ok_0;
                &&& manifest->Ok_0.state is None
                &&& manifest->Ok_0.format == read.format
                &&& manifest->Ok_0.session_id == read.session_id@
                &&& manifest->Ok_0.guild_id == read.discord.guild_id@
                &&& manifest->Ok_0.channel_id == read.discord.channel_id@
                &&& manifest->Ok_0.packets == read.packets.deep_view()
                &&& manifest->Ok_0.playout == read.playout.deep_view()
                &&& manifest->Ok_0.events == read.events.deep_view()
            }
            &&& manifest is Ok && format != Some(2u64) ==> {
                let read = parsed.current->Ok_0;
                &&& manifest->Ok_0.state == Some(read.record.state)
                &&& manifest->Ok_0.format == read.record.format
                &&& manifest->Ok_0.session_id == read.record.session_id@
                &&& manifest->Ok_0.guild_id == read.discord.guild_id@
                &&& manifest->Ok_0.channel_id == read.discord.channel_id@
                &&& manifest->Ok_0.packets == read.record.files.packets.deep_view()
                &&& manifest->Ok_0.playout == read.record.files.playout.deep_view()
                &&& manifest->Ok_0.events == read.record.files.events.deep_view()
            }
        }),
{
}

/// An inspection is concluded as clean exactly if no journal breaks off within a
/// record and every packet that was played is in the packet journal; a journal
/// that breaks off is told of first.
pub proof fn clean_inspections_have_no_fault(
    packets: PacketsView,
    playout: PlayoutView,
    events: EventsView,
)
    ensures
        ({
            let line = inspect::conclusion_of(packets, playout, events);
            let broken = packets.truncated_tail || playout.truncated_tail
                || events.truncated_tail;
            &&& line == "Inspection completed cleanly."@ <==> !broken
                && playout.unmatched_packets == 0
            &&& line == "Inspection completed with one or more recoverable truncated tails."@
                <==> broken
            &&& line == "Inspection completed with unmatched playout packet decisions."@
                <==> !broken && playout.unmatched_packets > 0
        }),
{
    reveal_strlit("Inspection completed cleanly.");
    reveal_strlit("Inspection completed with one or more recoverable truncated tails.");
    reveal_strlit("Inspection completed with unmatched playout packet decisions.");
    assert("Inspection completed cleanly."@.len() == 29);
    assert("Inspection completed with one or more recoverable truncated tails."@.len() == 66);
    assert("Inspection completed with unmatched playout packet decisions."@.len() == 61);
}

/// Pieces with a newline, byte 10, between each two.
pub open spec fn parted_by_newlines(pieces: Seq<Seq<u8>>) -> Seq<u8>
    decreases pieces.len(),
{
    if pieces.len() == 0 {
        Seq::empty()
    } else if pieces.len() == 1 {
        pieces[0]
    } else {
        parted_by_newlines(pieces.drop_last()).push(10) + pieces.last()
    }
}

pub open spec fn holds_newline(piece: Seq<u8>) -> bool {
    exists|i: int| 0 <= i < piece.len() && piece[i] == 10
}

/// The lines of some bytes, parted by newlines, are those bytes, and none of
/// them holds a newline.
pub proof fn lines_make_up_the_bytes(bytes: Seq<u8>)
    ensures
        records::lines(bytes).len() > 0,
        parted_by_newlines(records::lines(bytes)) == bytes,
        forall|i: int|
            0 <= i < records::lines(bytes).len() ==> !holds_newline(
                #[trigger] records::lines(bytes)[i],
            ),
    decreases bytes.len(),
{
    if bytes.len() == 0 {
        assert(records::lines(bytes)[0] =~= bytes);
    } else {
        let earlier = bytes.drop_last();
        lines_make_up_the_bytes(earlier);
        let fewer = records::lines(earlier);
        let all = records::lines(bytes);
        if bytes.last() == 10 {
            assert(all.drop_last() =~= fewer);
            assert(all.last() =~= Seq::<u8>::empty());
            assert(parted_by_newlines(all) =~= earlier.push(10));
            assert(earlier.push(10) =~= bytes);
        } else {
            assert(all.drop_last() =~= fewer.drop_last());
            assert(all.last() == fewer.last().push(bytes.last()));
            assert(fewer.last() == fewer[fewer.len() - 1]);
            assert(parted_by_newlines(all) =~= parted_by_newlines(fewer).push(bytes.last()));
            assert(earlier.push(bytes.last()) =~= bytes);
            assert forall|i: int| 0 <= i < all.len() implies !holds_newline(
                #[trigger] all[i],
            ) by {
                if i < all.len() - 1 {
                    assert(all[i] == fewer[i]);
                } else if holds_newline(all[i]) {
                    let k = choose|k: int| 0 <= k < all[i].len() && all[i][k] == 10;
                    assert(fewer[i][k] == 10);
                }
            }
        }
    }
}

/// The records of bytes that close with a newline make up those bytes, each
/// closed by a newline of its own.
pub proof fn records_make_up_closed_bytes(bytes: Seq<u8>)
    requires
        bytes.len() > 1,
        bytes.last() == 10,
    ensures
        parted_by_newlines(records::records(bytes)).push(10) == bytes,
        forall|i: int|
            0 <= i < records::records(bytes).len() ==> !holds_newline(
                #[trigger] records::records(bytes)[i],
            ),
{
    lines_make_up_the_bytes(bytes.drop_last());
    assert(bytes.drop_last().push(10) =~= bytes);
}

/// What counts as committed reaches to the last newline and no further.
pub proof fn committed_bytes_end_with_the_last_newline(bytes: Seq<u8>)
    ensures
        records::committed_length(bytes) <= bytes.len(),
        records::committed_length(bytes) > 0 ==> bytes[records::committed_length(bytes) - 1]
            == 10,
        forall|i: int|
            records::committed_length(bytes) <= i < bytes.len() ==> #[trigger] bytes[i] != 10,
        records::closed(bytes) <==> records::committed_length(bytes) == bytes.len(),
    decreases bytes.len(),
{
    if bytes.len() > 0 && bytes.last() != 10 {
        let earlier = bytes.drop_last();
        committed_bytes_end_with_the_last_newline(earlier);
        assert forall|i: int|
            records::committed_length(bytes) <= i < bytes.len() implies #[trigger] bytes[i]
            != 10 by {
            if i < earlier.len() {
                assert(earlier[i] == bytes[i]);
            }
        }
    }
}

/// Bytes that do not close with a newline have their lines for records; a newline
/// that closes them opens no further record.
pub proof fn closing_newlines_open_no_record(bytes: Seq<u8>)
    ensures
        bytes.len() > 0 && bytes.last() != 10 ==> records::records(bytes) == records::lines(bytes),
        bytes.len() > 0 && bytes.last() != 10 ==> records::records(bytes.push(10))
            == records::records(bytes),
        records::records(Seq::<u8>::empty()).len() == 0,
{
    assert(bytes.push(10).drop_last() =~= bytes);
    assert(bytes.push(10).last() == 10);
}

} // verus!
