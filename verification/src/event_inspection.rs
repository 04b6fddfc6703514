//! The event journal: identity evidence and the speaker mapping timeline.

use vstd::prelude::*;

use crate::failure;
use crate::failure::Failure;
use crate::records;
use crate::session::EVENT_FORMAT_VERSION;
use crate::text;

verus! {

/// An event of the journal, as far as inspection goes.
#[derive(Debug)]
pub enum SessionEvent {
    SpeakerMapping { format: u16, mapping: SpeakerMapping },
    UserIdentity { format: u16 },
    UserDisconnected { format: u16 },
    UnresolvedSsrcAbandoned { format: u16 },
}

/// A transport source assigned to a user, or to none, from a point in time.
#[derive(Debug)]
pub struct SpeakerMapping {
    pub elapsed_nanos: u64,
    pub ssrc: u32,
    pub user_id: Option<String>,
    pub speaking_bits: u8,
}

pub struct MappingView {
    pub elapsed_nanos: u64,
    pub ssrc: u32,
    pub user_id: Option<Seq<char>>,
    pub speaking_bits: u8,
}

impl DeepView for SpeakerMapping {
    type V = MappingView;

    open spec fn deep_view(&self) -> MappingView {
        MappingView {
            elapsed_nanos: self.elapsed_nanos,
            ssrc: self.ssrc,
            user_id: self.user_id.deep_view(),
            speaking_bits: self.speaking_bits,
        }
    }
}

pub enum EventView {
    SpeakerMapping { format: u16, mapping: MappingView },
    UserIdentity { format: u16 },
    UserDisconnected { format: u16 },
    UnresolvedSsrcAbandoned { format: u16 },
}

impl DeepView for SessionEvent {
    type V = EventView;

    open spec fn deep_view(&self) -> EventView {
        match self {
            SessionEvent::SpeakerMapping { format, mapping } => EventView::SpeakerMapping {
                format: *format,
                mapping: mapping.deep_view(),
            },
            SessionEvent::UserIdentity { format } => EventView::UserIdentity { format: *format },
            SessionEvent::UserDisconnected { format } => EventView::UserDisconnected {
                format: *format,
            },
            SessionEvent::UnresolvedSsrcAbandoned {
                format,
            } => EventView::UnresolvedSsrcAbandoned { format: *format },
        }
    }
}

/// What a line of the journal was read as.
#[derive(Debug)]
pub enum ParsedEvent {
    Event(SessionEvent),
    /// The line ends before its event does.
    CutOff(Failure),
    Malformed(Failure),
}

pub enum ParsedEventView {
    Event(EventView),
    CutOff(Seq<char>),
    Malformed(Seq<char>),
}

impl DeepView for ParsedEvent {
    type V = ParsedEventView;

    open spec fn deep_view(&self) -> ParsedEventView {
        match self {
            ParsedEvent::Event(event) => ParsedEventView::Event(event.deep_view()),
            ParsedEvent::CutOff(cause) => ParsedEventView::CutOff(cause@),
            ParsedEvent::Malformed(cause) => ParsedEventView::Malformed(cause@),
        }
    }
}

/// Identity and event counts and the mapping timeline useful to an operator.
#[derive(Debug)]
pub struct EventInspection {
    pub records: u64,
    pub truncated_tail: bool,
    pub mappings: Vec<SpeakerMapping>,
    pub identity_updates: u64,
    pub user_disconnections: u64,
    pub unresolved_abandonments: u64,
}

pub struct EventsView {
    pub records: nat,
    pub truncated_tail: bool,
    pub mappings: Seq<MappingView>,
    pub identity_updates: nat,
    pub user_disconnections: nat,
    pub unresolved_abandonments: nat,
}

impl DeepView for EventInspection {
    type V = EventsView;

    open spec fn deep_view(&self) -> EventsView {
        EventsView {
            records: self.records as nat,
            truncated_tail: self.truncated_tail,
            mappings: self.mappings.deep_view(),
            identity_updates: self.identity_updates as nat,
            user_disconnections: self.user_disconnections as nat,
            unresolved_abandonments: self.unresolved_abandonments as nat,
        }
    }
}

pub open spec fn no_events() -> EventsView {
    EventsView {
        records: 0,
        truncated_tail: false,
        mappings: Seq::empty(),
        identity_updates: 0,
        user_disconnections: 0,
        unresolved_abandonments: 0,
    }
}

/// Why an event of a format cannot stand in the journal. Line numbers start at
/// one.
pub open spec fn record_format_fault(actual: u16, expected: u16, line: nat, path: Seq<char>) -> Option<
    Seq<char>,
> {
    if actual != expected {
        Some(
            "event format "@ + text::decimal(actual as nat) + " on line "@ + text::decimal(line)
                + " in "@ + path + " does not match manifest format "@ + text::decimal(
                expected as nat,
            ),
        )
    } else {
        None
    }
}

pub open spec fn format_two_fault(actual: u16, line: nat, path: Seq<char>) -> Option<Seq<char>> {
    if actual != EVENT_FORMAT_VERSION {
        Some(
            "event type on line "@ + text::decimal(line) + " in "@ + path + " requires format "@
                + text::decimal(EVENT_FORMAT_VERSION as nat),
        )
    } else {
        None
    }
}

/// Require an event of the format that the manifest declares.
pub fn validate_event_record_format(actual: u16, expected: u16, line_index: usize, path: &str) -> (result:
    Result<(), Failure>)
    requires
        line_index < usize::MAX,
    ensures
        failure::outcome(result) == (match record_format_fault(
            actual,
            expected,
            (line_index + 1) as nat,
            path@,
        ) {
            Some(fault) => Err::<(), Seq<char>>(fault),
            None => Ok(()),
        }),
{
    if actual != expected {
        return Err(
            Failure::new(
                "event format ".to_owned().concat(
                    text::decimal_text(actual as u64).as_str(),
                ).concat(" on line ").concat(
                    text::decimal_text(line_index as u64 + 1).as_str(),
                ).concat(" in ").concat(path).concat(" does not match manifest format ").concat(
                    text::decimal_text(expected as u64).as_str(),
                ),
            ),
        );
    }
    Ok(())
}

/// Require the current format of an event that older journals do not know.
pub fn validate_format_two_event(actual: u16, line_index: usize, path: &str) -> (result: Result<
    (),
    Failure,
>)
    requires
        line_index < usize::MAX,
    ensures
        failure::outcome(result) == (match format_two_fault(
            actual,
            (line_index + 1) as nat,
            path@,
        ) {
            Some(fault) => Err::<(), Seq<char>>(fault),
            None => Ok(()),
        }),
{
    if actual != EVENT_FORMAT_VERSION {
        return Err(
            Failure::new(
                "event type on line ".to_owned().concat(
                    text::decimal_text(line_index as u64 + 1).as_str(),
                ).concat(" in ").concat(path).concat(" requires format ").concat(
                    text::decimal_text(EVENT_FORMAT_VERSION as u64).as_str(),
                ),
            ),
        );
    }
    Ok(())
}

/// The journal with one more event, or why the event cannot stand in it.
pub open spec fn with_event(
    events: EventsView,
    event: EventView,
    expected: u16,
    line: nat,
    path: Seq<char>,
) -> Result<EventsView, Seq<char>> {
    let format = match event {
        EventView::SpeakerMapping { format, .. } => format,
        EventView::UserIdentity { format } => format,
        EventView::UserDisconnected { format } => format,
        EventView::UnresolvedSsrcAbandoned { format } => format,
    };
    let counted = EventsView { records: events.records + 1, ..events };
    if record_format_fault(format, expected, line, path) is Some {
        Err(record_format_fault(format, expected, line, path)->0)
    } else if event !is SpeakerMapping && format_two_fault(format, line, path) is Some {
        Err(format_two_fault(format, line, path)->0)
    } else {
        Ok(
            match event {
                EventView::SpeakerMapping { mapping, .. } => EventsView {
                    mappings: events.mappings.push(mapping),
                    ..counted
                },
                EventView::UserIdentity { .. } => EventsView {
                    identity_updates: events.identity_updates + 1,
                    ..counted
                },
                EventView::UserDisconnected { .. } => EventsView {
                    user_disconnections: events.user_disconnections + 1,
                    ..counted
                },
                EventView::UnresolvedSsrcAbandoned { .. } => EventsView {
                    unresolved_abandonments: events.unresolved_abandonments + 1,
                    ..counted
                },
            },
        )
    }
}

pub open spec fn invalid_event(line: nat, path: Seq<char>, cause: Seq<char>) -> Seq<char> {
    failure::because(
        "invalid event journal record "@ + text::decimal(line) + " in "@ + path,
        cause,
    )
}

fn invalid_record(index: usize, path: &str, cause: &Failure) -> (fault: Failure)
    requires
        index < usize::MAX,
    ensures
        fault@ == invalid_event((index + 1) as nat, path@, cause@),
{
    Failure::caused(
        "invalid event journal record ".to_owned().concat(
            text::decimal_text(index as u64 + 1).as_str(),
        ).concat(" in ").concat(path),
        cause,
    )
}

/// The events of the first lines of a journal of `total` lines, or the first
/// fault. Empty lines are passed over; only the last line, which no newline
/// closes, may be cut off.
pub open spec fn events_of(
    lines: Seq<Seq<u8>>,
    parsed: Seq<ParsedEventView>,
    total: nat,
    expected: u16,
    path: Seq<char>,
) -> Result<EventsView, Seq<char>>
    decreases lines.len(),
{
    if lines.len() == 0 {
        Ok(no_events())
    } else {
        match events_of(lines.drop_last(), parsed, total, expected, path) {
            Err(fault) => Err(fault),
            Ok(events) => if lines.last().len() == 0 {
                Ok(events)
            } else {
                match parsed[lines.len() - 1] {
                    ParsedEventView::Event(event) => with_event(
                        events,
                        event,
                        expected,
                        lines.len(),
                        path,
                    ),
                    ParsedEventView::CutOff(cause) => if lines.len() == total {
                        Ok(EventsView { truncated_tail: true, ..events })
                    } else {
                        Err(invalid_event(lines.len(), path, cause))
                    },
                    ParsedEventView::Malformed(cause) => Err(
                        invalid_event(lines.len(), path, cause),
                    ),
                }
            },
        }
    }
}

proof fn lemma_events_stop(
    lines: Seq<Seq<u8>>,
    parsed: Seq<ParsedEventView>,
    total: nat,
    expected: u16,
    path: Seq<char>,
    count: int,
)
    requires
        0 <= count <= lines.len(),
        events_of(lines.take(count), parsed, total, expected, path) is Err,
    ensures
        events_of(lines, parsed, total, expected, path) == events_of(
            lines.take(count),
            parsed,
            total,
            expected,
            path,
        ),
    decreases lines.len(),
{
    if count == lines.len() {
        assert(lines.take(count) =~= lines);
    } else {
        assert(lines.drop_last().take(count) =~= lines.take(count));
        lemma_events_stop(lines.drop_last(), parsed, total, expected, path, count);
    }
}

/// Take in one event of the journal.
fn accept_event(
    inspection: &mut EventInspection,
    event: SessionEvent,
    expected_format: u16,
    line_index: usize,
    path: &str,
) -> (result: Result<(), Failure>)
    requires
        line_index < usize::MAX,
        old(inspection).records <= line_index,
        old(inspection).identity_updates <= old(inspection).records,
        old(inspection).user_disconnections <= old(inspection).records,
        old(inspection).unresolved_abandonments <= old(inspection).records,
    ensures
        match with_event(
            old(inspection).deep_view(),
            event.deep_view(),
            expected_format,
            (line_index + 1) as nat,
            path@,
        ) {
            Err(fault) => failure::outcome(result) == Err::<(), Seq<char>>(fault),
            Ok(events) => result is Ok && final(inspection).deep_view() == events,
        },
        result is Ok ==> final(inspection).identity_updates <= final(inspection).records
            && final(inspection).user_disconnections <= final(inspection).records && final(
            inspection).unresolved_abandonments <= final(inspection).records,
{
    let ghost before = inspection.deep_view();
    let (format, is_mapping) = match &event {
        SessionEvent::SpeakerMapping { format, .. } => (*format, true),
        SessionEvent::UserIdentity { format } => (*format, false),
        SessionEvent::UserDisconnected { format } => (*format, false),
        SessionEvent::UnresolvedSsrcAbandoned { format } => (*format, false),
    };
    match validate_event_record_format(format, expected_format, line_index, path) {
        Err(fault) => {
            return Err(fault);
        },
        Ok(_) => {},
    }
    if !is_mapping {
        match validate_format_two_event(format, line_index, path) {
            Err(fault) => {
                return Err(fault);
            },
            Ok(_) => {},
        }
    }
    inspection.records = inspection.records + 1;
    match event {
        SessionEvent::SpeakerMapping { mapping, .. } => {
            let ghost added = mapping;
            inspection.mappings.push(mapping);
            assert(inspection.mappings.deep_view() =~= before.mappings.push(added.deep_view()));
        },
        SessionEvent::UserIdentity { .. } => {
            inspection.identity_updates = inspection.identity_updates + 1;
        },
        SessionEvent::UserDisconnected { .. } => {
            inspection.user_disconnections = inspection.user_disconnections + 1;
        },
        SessionEvent::UnresolvedSsrcAbandoned { .. } => {
            inspection.unresolved_abandonments = inspection.unresolved_abandonments + 1;
        },
    }
    assert(inspection.mappings.deep_view() =~= inspection.deep_view().mappings);
    Ok(())
}

/// So many of the lines were read: each of them, but that the empty piece
/// behind a last newline may have been left out.
pub open spec fn lines_read(lines: Seq<Seq<u8>>, parsed: nat) -> bool {
    parsed == lines.len() || (parsed + 1 == lines.len() && lines.last().len() == 0)
}

/// Inspect an event journal from its bytes and from what each of its lines
/// parses as.
pub fn inspect_events(
    bytes: &Vec<u8>,
    parsed: Vec<ParsedEvent>,
    expected_format: u16,
    path: &str,
) -> (inspection: Result<EventInspection, Failure>)
    requires
        lines_read(records::lines(bytes@), parsed@.len()),
    ensures
        failure::outcome(inspection) == events_of(
            records::lines(bytes@),
            parsed.deep_view(),
            records::lines(bytes@).len(),
            expected_format,
            path@,
        ),
{
    let all = records::split_lines(bytes, bytes.len());
    assert(bytes@.take(bytes@.len() as int) =~= bytes@);
    let ghost lines = records::lines(bytes@);
    let ghost reads = parsed.deep_view();
    let count: usize = all.len();
    let mut inspection = EventInspection {
        records: 0,
        truncated_tail: false,
        mappings: Vec::new(),
        identity_updates: 0,
        user_disconnections: 0,
        unresolved_abandonments: 0,
    };
    assert(inspection.deep_view().mappings =~= Seq::<MappingView>::empty());
    assert(lines.take(0) =~= Seq::<Seq<u8>>::empty());
    let mut index: usize = 0;
    for entry in it: parsed
        invariant
            it.seq() == parsed@,
            it.index() == index,
            lines_read(lines, parsed@.len()),
            count == lines.len(),
            all.deep_view() == lines,
            reads == parsed.deep_view(),
            inspection.records <= index,
            inspection.identity_updates <= inspection.records,
            inspection.user_disconnections <= inspection.records,
            inspection.unresolved_abandonments <= inspection.records,
            events_of(lines.take(index as int), reads, lines.len(), expected_format, path@) == Ok::<
                EventsView,
                Seq<char>,
            >(inspection.deep_view()),
            lines == records::lines(bytes@),
    {
        let ghost longer = lines.take(index + 1);
        let ghost before = inspection.deep_view();
        proof {
            assert(longer.drop_last() =~= lines.take(index as int));
            assert(longer.last() == lines[index as int]);
            assert(lines[index as int] == all@[index as int].deep_view());
            assert(reads[index as int] == entry.deep_view());
            if events_of(longer, reads, lines.len(), expected_format, path@) is Err {
                lemma_events_stop(lines, reads, lines.len(), expected_format, path@, index + 1);
            }
        }
        if all[index].len() > 0 {
            match entry {
                ParsedEvent::Event(event) => {
                    match accept_event(&mut inspection, event, expected_format, index, path) {
                        Err(fault) => {
                            return Err(fault);
                        },
                        Ok(_) => {},
                    }
                },
                ParsedEvent::CutOff(cause) => {
                    if index + 1 != count {
                        return Err(invalid_record(index, path, &cause));
                    }
                    inspection.truncated_tail = true;
                    assert(inspection.deep_view().mappings =~= before.mappings);
                },
                ParsedEvent::Malformed(cause) => {
                    return Err(invalid_record(index, path, &cause));
                },
            }
        }
        index = index + 1;
    }
    proof {
        assert(lines.take(lines.len() as int) =~= lines);
        if index < lines.len() {
            assert(lines.drop_last() =~= lines.take(index as int));
        }
    }
    Ok(inspection)
}

} // verus!
