//! Read-only inspection of session manifests and authoritative journals.
//!
//! Inspection consumes the paths and format versions that the session record
//! declares and reports clean or recoverably truncated tails without modifying
//! a session.

use vstd::prelude::*;

use crate::artifacts::EVENT_JOURNAL_FILE_NAME;
use crate::artifacts::PACKET_JOURNAL_FILE_NAME;
use crate::artifacts::PLAYOUT_JOURNAL_FILE_NAME;
use crate::event_inspection::EventInspection;
use crate::event_inspection::EventsView;
use crate::event_inspection::MappingView;
use crate::event_inspection::SpeakerMapping;
use crate::failure;
use crate::failure::Failure;
use crate::json;
use crate::packet_inspection;
use crate::packet_inspection::PacketInspection;
use crate::packet_inspection::PacketsView;
use crate::playout_inspection;
use crate::playout_inspection::PlayoutInspection;
use crate::playout_inspection::PlayoutView;
use crate::session::FileDescription;
use crate::session::FileView;
use crate::session::SessionRecord;
use crate::session::WorkflowState;
use crate::session::EVENT_FORMAT_VERSION;
use crate::session::LEGACY_EVENT_FORMAT_VERSION;
use crate::session::LEGACY_PLAYOUT_JOURNAL_FORMAT_VERSION;
use crate::session::LEGACY_SESSION_FORMAT_VERSION;
use crate::session::PACKET_JOURNAL_FORMAT_VERSION;
use crate::session::PLAYOUT_JOURNAL_FORMAT_VERSION;
use crate::session::PREVIOUS_SESSION_FORMAT_VERSION;
use crate::session::RECORDING_SESSION_FORMAT_VERSION;
use crate::session::SESSION_FORMAT_VERSION;
use crate::text;

verus! {

/// The guild and channel a session was recorded in.
#[derive(Debug)]
pub struct DiscordSession {
    pub guild_id: String,
    pub channel_id: String,
}

/// Minimal manifest projection shared by current and supported legacy
/// sessions. Legacy sessions track no workflow state.
#[derive(Debug)]
pub struct SessionManifest {
    pub format: u16,
    pub session_id: String,
    pub state: Option<WorkflowState>,
    pub discord: DiscordSession,
    pub packets: FileDescription,
    pub playout: FileDescription,
    pub events: FileDescription,
}

pub struct ManifestView {
    pub format: u16,
    pub session_id: Seq<char>,
    pub state: Option<WorkflowState>,
    pub guild_id: Seq<char>,
    pub channel_id: Seq<char>,
    pub packets: FileView,
    pub playout: FileView,
    pub events: FileView,
}

impl DeepView for SessionManifest {
    type V = ManifestView;

    open spec fn deep_view(&self) -> ManifestView {
        ManifestView {
            format: self.format,
            session_id: self.session_id@,
            state: self.state,
            guild_id: self.discord.guild_id@,
            channel_id: self.discord.channel_id@,
            packets: self.packets.deep_view(),
            playout: self.playout.deep_view(),
            events: self.events.deep_view(),
        }
    }
}

/// A format-2 session record, which has no workflow state.
#[derive(Debug)]
pub struct LegacyManifest {
    pub format: u16,
    pub session_id: String,
    pub discord: DiscordSession,
    pub packets: FileDescription,
    pub playout: FileDescription,
    pub events: FileDescription,
}

/// A session record with its workflow state.
#[derive(Debug)]
pub struct CurrentManifest {
    pub record: SessionRecord,
    pub discord: DiscordSession,
}

/// What a session document parses as in each layout, or why it does not.
#[derive(Debug)]
pub struct ParsedManifest {
    pub legacy: Result<LegacyManifest, Failure>,
    pub current: Result<CurrentManifest, Failure>,
}

pub open spec fn legacy_view(legacy: LegacyManifest) -> ManifestView {
    ManifestView {
        format: legacy.format,
        session_id: legacy.session_id@,
        state: None,
        guild_id: legacy.discord.guild_id@,
        channel_id: legacy.discord.channel_id@,
        packets: legacy.packets.deep_view(),
        playout: legacy.playout.deep_view(),
        events: legacy.events.deep_view(),
    }
}

pub open spec fn current_view(current: CurrentManifest) -> ManifestView {
    ManifestView {
        format: current.record.format,
        session_id: current.record.session_id@,
        state: Some(current.record.state),
        guild_id: current.discord.guild_id@,
        channel_id: current.discord.channel_id@,
        packets: current.record.files.packets.deep_view(),
        playout: current.record.files.playout.deep_view(),
        events: current.record.files.events.deep_view(),
    }
}

pub open spec fn unsupported_format(format: nat) -> Seq<char> {
    "unsupported session manifest format "@ + text::decimal(format) + "; expected "@
        + text::decimal(LEGACY_SESSION_FORMAT_VERSION as nat) + ", "@ + text::decimal(
        PREVIOUS_SESSION_FORMAT_VERSION as nat,
    ) + ", "@ + text::decimal(RECORDING_SESSION_FORMAT_VERSION as nat) + ", or "@ + text::decimal(
        SESSION_FORMAT_VERSION as nat,
    )
}

fn unsupported_format_text(format: u64) -> (message: String)
    ensures
        message@ == unsupported_format(format as nat),
{
    "unsupported session manifest format ".to_owned().concat(
        text::decimal_text(format).as_str(),
    ).concat("; expected ").concat(
        text::decimal_text(LEGACY_SESSION_FORMAT_VERSION as u64).as_str(),
    ).concat(", ").concat(
        text::decimal_text(PREVIOUS_SESSION_FORMAT_VERSION as u64).as_str(),
    ).concat(", ").concat(
        text::decimal_text(RECORDING_SESSION_FORMAT_VERSION as u64).as_str(),
    ).concat(", or ").concat(text::decimal_text(SESSION_FORMAT_VERSION as u64).as_str())
}

/// The manifest of a document whose format field holds a number, or nothing
/// that reads as one.
pub open spec fn manifest_for(
    format: Option<u64>,
    path: Seq<char>,
    parsed: ParsedManifest,
) -> Result<ManifestView, Seq<char>> {
    match format {
        None => Err("session manifest has no valid format number"@),
        Some(format) => if format == LEGACY_SESSION_FORMAT_VERSION {
            match parsed.legacy {
                Ok(legacy) => Ok(legacy_view(legacy)),
                Err(cause) => Err(
                    failure::because("failed to parse legacy session manifest "@ + path, cause@),
                ),
            }
        } else if format == PREVIOUS_SESSION_FORMAT_VERSION || format
            == RECORDING_SESSION_FORMAT_VERSION || format == SESSION_FORMAT_VERSION {
            match parsed.current {
                Ok(current) => Ok(current_view(current)),
                Err(cause) => Err(
                    failure::because("failed to parse session manifest "@ + path, cause@),
                ),
            }
        } else {
            Err(unsupported_format(format as nat))
        },
    }
}

/// Choose the layout that a format calls for.
pub fn manifest_of_format(format: Option<u64>, path: &str, parsed: ParsedManifest) -> (manifest:
    Result<SessionManifest, Failure>)
    ensures
        failure::outcome(manifest) == manifest_for(format, path@, parsed),
{
    let format: u64 = match format {
        None => {
            return Err(Failure::from_text("session manifest has no valid format number"));
        },
        Some(format) => format,
    };
    if format == LEGACY_SESSION_FORMAT_VERSION as u64 {
        match parsed.legacy {
            Ok(legacy) => Ok(
                SessionManifest {
                    format: legacy.format,
                    session_id: legacy.session_id,
                    state: None,
                    discord: legacy.discord,
                    packets: legacy.packets,
                    playout: legacy.playout,
                    events: legacy.events,
                },
            ),
            Err(cause) => Err(
                Failure::caused(
                    "failed to parse legacy session manifest ".to_owned().concat(path),
                    &cause,
                ),
            ),
        }
    } else if format == PREVIOUS_SESSION_FORMAT_VERSION as u64 || format
        == RECORDING_SESSION_FORMAT_VERSION as u64 || format == SESSION_FORMAT_VERSION as u64 {
        match parsed.current {
            Ok(current) => Ok(
                SessionManifest {
                    format: current.record.format,
                    session_id: current.record.session_id,
                    state: Some(current.record.state),
                    discord: current.discord,
                    packets: current.record.files.packets,
                    playout: current.record.files.playout,
                    events: current.record.files.events,
                },
            ),
            Err(cause) => Err(
                Failure::caused("failed to parse session manifest ".to_owned().concat(path), &cause),
            ),
        }
    } else {
        Err(Failure::new(unsupported_format_text(format)))
    }
}

/// Read the manifest of a session from its document and from what the document
/// parses as in each layout. The document's own format number decides.
pub fn read_manifest(document: &Vec<u8>, path: &str, parsed: ParsedManifest) -> (manifest: Result<
    SessionManifest,
    Failure,
>)
    ensures
        failure::outcome(manifest) == (match json::number_field(document@, "format"@) {
            Err(refusal) => Err(
                failure::because("failed to parse session manifest "@ + path@, refusal),
            ),
            Ok(format) => manifest_for(format, path@, parsed),
        }),
{
    match json::read_number_field(document, "format") {
        Err(refusal) => Err(
            Failure::caused(
                "failed to parse session manifest ".to_owned().concat(path),
                &Failure::new(refusal),
            ),
        ),
        Ok(format) => manifest_of_format(format, path, parsed),
    }
}

/// Why a declared file is not the one expected.
pub open spec fn file_fault(
    name: Seq<char>,
    file: FileView,
    expected_path: Seq<char>,
    expected_format: u16,
) -> Option<Seq<char>> {
    if file.path != expected_path {
        Some(path_fault(name, file.path, expected_path))
    } else if file.format != expected_format {
        Some(
            "session manifest "@ + name + " format is "@ + text::decimal(file.format as nat)
                + "; expected "@ + text::decimal(expected_format as nat),
        )
    } else {
        None
    }
}

pub open spec fn path_fault(name: Seq<char>, path: Seq<char>, expected: Seq<char>) -> Seq<char> {
    "session manifest "@ + name + " path is "@ + text::debug_form(path) + "; expected "@
        + text::debug_form(expected)
}

fn path_fault_text(name: &str, path: &str, expected: &str) -> (message: String)
    ensures
        message@ == path_fault(name@, path@, expected@),
{
    "session manifest ".to_owned().concat(name).concat(" path is ").concat(
        text::debug_text(path).as_str(),
    ).concat("; expected ").concat(text::debug_text(expected).as_str())
}

/// Require a declared file to have its fixed name and format.
pub fn validate_file_description(
    name: &str,
    description: &FileDescription,
    expected_path: &str,
    expected_format: u16,
) -> (result: Result<(), Failure>)
    ensures
        failure::outcome(result) == (match file_fault(
            name@,
            description.deep_view(),
            expected_path@,
            expected_format,
        ) {
            Some(fault) => Err::<(), Seq<char>>(fault),
            None => Ok(()),
        }),
{
    if !text::same_text(description.path.as_str(), expected_path) {
        return Err(
            Failure::new(path_fault_text(name, description.path.as_str(), expected_path)),
        );
    }
    if description.format != expected_format {
        return Err(
            Failure::new(
                "session manifest ".to_owned().concat(name).concat(" format is ").concat(
                    text::decimal_text(description.format as u64).as_str(),
                ).concat("; expected ").concat(text::decimal_text(expected_format as u64).as_str()),
            ),
        );
    }
    Ok(())
}

pub open spec fn playout_file_fault(file: FileView) -> Option<Seq<char>> {
    if file.path != PLAYOUT_JOURNAL_FILE_NAME@ {
        Some(path_fault("playout"@, file.path, PLAYOUT_JOURNAL_FILE_NAME@))
    } else if file.format != LEGACY_PLAYOUT_JOURNAL_FORMAT_VERSION && file.format
        != PLAYOUT_JOURNAL_FORMAT_VERSION {
        Some(
            "session manifest playout format is "@ + text::decimal(file.format as nat)
                + "; expected 1 or "@ + text::decimal(PLAYOUT_JOURNAL_FORMAT_VERSION as nat),
        )
    } else {
        None
    }
}

pub fn validate_playout_description(description: &FileDescription) -> (result: Result<(), Failure>)
    ensures
        failure::outcome(result) == (match playout_file_fault(description.deep_view()) {
            Some(fault) => Err::<(), Seq<char>>(fault),
            None => Ok(()),
        }),
{
    if !text::same_text(description.path.as_str(), PLAYOUT_JOURNAL_FILE_NAME) {
        return Err(
            Failure::new(
                path_fault_text("playout", description.path.as_str(), PLAYOUT_JOURNAL_FILE_NAME),
            ),
        );
    }
    if description.format != LEGACY_PLAYOUT_JOURNAL_FORMAT_VERSION && description.format
        != PLAYOUT_JOURNAL_FORMAT_VERSION {
        return Err(
            Failure::new(
                "session manifest playout format is ".to_owned().concat(
                    text::decimal_text(description.format as u64).as_str(),
                ).concat("; expected 1 or ").concat(
                    text::decimal_text(PLAYOUT_JOURNAL_FORMAT_VERSION as u64).as_str(),
                ),
            ),
        );
    }
    Ok(())
}

pub open spec fn event_file_fault(file: FileView) -> Option<Seq<char>> {
    if file.path != EVENT_JOURNAL_FILE_NAME@ {
        Some(path_fault("events"@, file.path, EVENT_JOURNAL_FILE_NAME@))
    } else if file.format != LEGACY_EVENT_FORMAT_VERSION && file.format != EVENT_FORMAT_VERSION {
        Some(
            "session manifest events format is "@ + text::decimal(file.format as nat)
                + "; expected "@ + text::decimal(LEGACY_EVENT_FORMAT_VERSION as nat) + " or "@
                + text::decimal(EVENT_FORMAT_VERSION as nat),
        )
    } else {
        None
    }
}

pub fn validate_event_description(description: &FileDescription) -> (result: Result<(), Failure>)
    ensures
        failure::outcome(result) == (match event_file_fault(description.deep_view()) {
            Some(fault) => Err::<(), Seq<char>>(fault),
            None => Ok(()),
        }),
{
    if !text::same_text(description.path.as_str(), EVENT_JOURNAL_FILE_NAME) {
        return Err(
            Failure::new(
                path_fault_text("events", description.path.as_str(), EVENT_JOURNAL_FILE_NAME),
            ),
        );
    }
    if description.format != LEGACY_EVENT_FORMAT_VERSION && description.format
        != EVENT_FORMAT_VERSION {
        return Err(
            Failure::new(
                "session manifest events format is ".to_owned().concat(
                    text::decimal_text(description.format as u64).as_str(),
                ).concat("; expected ").concat(
                    text::decimal_text(LEGACY_EVENT_FORMAT_VERSION as u64).as_str(),
                ).concat(" or ").concat(text::decimal_text(EVENT_FORMAT_VERSION as u64).as_str()),
            ),
        );
    }
    Ok(())
}

/// The first objection to a manifest.
pub open spec fn manifest_fault(manifest: ManifestView) -> Option<Seq<char>> {
    if manifest.format != LEGACY_SESSION_FORMAT_VERSION && manifest.format
        != PREVIOUS_SESSION_FORMAT_VERSION && manifest.format != RECORDING_SESSION_FORMAT_VERSION
        && manifest.format != SESSION_FORMAT_VERSION {
        Some(unsupported_format(manifest.format as nat))
    } else if file_fault(
        "packets"@,
        manifest.packets,
        PACKET_JOURNAL_FILE_NAME@,
        PACKET_JOURNAL_FORMAT_VERSION,
    ) is Some {
        file_fault(
            "packets"@,
            manifest.packets,
            PACKET_JOURNAL_FILE_NAME@,
            PACKET_JOURNAL_FORMAT_VERSION,
        )
    } else if playout_file_fault(manifest.playout) is Some {
        playout_file_fault(manifest.playout)
    } else {
        event_file_fault(manifest.events)
    }
}

/// Require a supported manifest whose journals have their fixed names and
/// known formats, before any recorded path is joined to the session directory.
pub fn validate_manifest(manifest: &SessionManifest) -> (result: Result<(), Failure>)
    ensures
        failure::outcome(result) == (match manifest_fault(manifest.deep_view()) {
            Some(fault) => Err::<(), Seq<char>>(fault),
            None => Ok(()),
        }),
{
    if manifest.format != LEGACY_SESSION_FORMAT_VERSION && manifest.format
        != PREVIOUS_SESSION_FORMAT_VERSION && manifest.format != RECORDING_SESSION_FORMAT_VERSION
        && manifest.format != SESSION_FORMAT_VERSION {
        return Err(Failure::new(unsupported_format_text(manifest.format as u64)));
    }
    match validate_file_description(
        "packets",
        &manifest.packets,
        PACKET_JOURNAL_FILE_NAME,
        PACKET_JOURNAL_FORMAT_VERSION,
    ) {
        Err(fault) => {
            return Err(fault);
        },
        Ok(_) => {},
    }
    match validate_playout_description(&manifest.playout) {
        Err(fault) => {
            return Err(fault);
        },
        Ok(_) => {},
    }
    validate_event_description(&manifest.events)
}

/// An accepted manifest declares every journal under its fixed name, so no
/// recorded path can leave the session directory.
pub proof fn accepted_manifests_use_fixed_names(manifest: ManifestView)
    requires
        manifest_fault(manifest) is None,
    ensures
        manifest.packets.path == PACKET_JOURNAL_FILE_NAME@,
        manifest.playout.path == PLAYOUT_JOURNAL_FILE_NAME@,
        manifest.events.path == EVENT_JOURNAL_FILE_NAME@,
{
}

pub open spec fn tail(truncated: bool) -> Seq<char> {
    if truncated {
        "recoverable truncated tail"@
    } else {
        "clean tail"@
    }
}

pub fn tail_description(truncated: bool) -> (description: &'static str)
    ensures
        description@ == tail(truncated),
{
    if truncated {
        "recoverable truncated tail"
    } else {
        "clean tail"
    }
}

pub open spec fn manifest_line(manifest: ManifestView) -> Seq<char> {
    "Manifest: format "@ + text::decimal(manifest.format as nat) + ", session "@
        + manifest.session_id + ", guild "@ + manifest.guild_id + ", channel "@
        + manifest.channel_id + ", state "@ + (match manifest.state {
        Some(state) => state.name(),
        None => "legacy_untracked"@,
    }) + "."@
}

/// The line that reports a manifest.
pub fn report_manifest(manifest: &SessionManifest) -> (line: String)
    ensures
        line@ == manifest_line(manifest.deep_view()),
{
    let state = match manifest.state {
        Some(state) => state.as_str(),
        None => "legacy_untracked",
    };
    "Manifest: format ".to_owned().concat(
        text::decimal_text(manifest.format as u64).as_str(),
    ).concat(", session ").concat(manifest.session_id.as_str()).concat(", guild ").concat(
        manifest.discord.guild_id.as_str(),
    ).concat(", channel ").concat(manifest.discord.channel_id.as_str()).concat(
        ", state ",
    ).concat(state).concat(".")
}

pub open spec fn packets_line(packets: PacketsView) -> Seq<char> {
    "packets.dat: "@ + text::decimal(packets.records) + " records, "@ + tail(
        packets.truncated_tail,
    ) + "."@
}

/// The lines that report a packet journal: its totals, then its streams.
pub fn report_packets(packets: &PacketInspection) -> (lines: Vec<String>)
    requires
        packets.wf(),
    ensures
        lines.deep_view() == seq![packets_line(packets.deep_view())]
            + packet_inspection::stream_lines(packets.deep_view().streams),
{
    let total = "packets.dat: ".to_owned().concat(
        text::decimal_text(packets.records()).as_str(),
    ).concat(" records, ").concat(tail_description(packets.truncated_tail())).concat(".");
    with_first_line(total, packets.report_streams())
}

fn with_first_line(first: String, rest: Vec<String>) -> (lines: Vec<String>)
    ensures
        lines.deep_view() == seq![first@] + rest.deep_view(),
{
    let mut lines = rest;
    let ghost head = first@;
    lines.insert(0, first);
    assert(lines.deep_view() =~= seq![head] + rest.deep_view());
    lines
}

pub open spec fn playout_line(playout: PlayoutView) -> Seq<char> {
    "playout.dat: "@ + text::decimal(playout.records) + " decisions ("@ + text::decimal(
        playout.packet_decisions,
    ) + " packets, "@ + text::decimal(playout.loss_decisions) + " losses), "@ + tail(
        playout.truncated_tail,
    ) + ", "@ + text::decimal(playout.unmatched_packets) + " unmatched packet decisions."@
}

/// The lines that report a playout journal: its totals, then its streams.
pub fn report_playout(playout: &PlayoutInspection) -> (lines: Vec<String>)
    ensures
        lines.deep_view() == seq![playout_line(playout.deep_view())]
            + playout_inspection::stream_lines(playout.deep_view().streams),
{
    let total = "playout.dat: ".to_owned().concat(
        text::decimal_text(playout.records()).as_str(),
    ).concat(" decisions (").concat(
        text::decimal_text(playout.packet_decisions()).as_str(),
    ).concat(" packets, ").concat(text::decimal_text(playout.loss_decisions()).as_str()).concat(
        " losses), ",
    ).concat(tail_description(playout.truncated_tail())).concat(", ").concat(
        text::decimal_text(playout.unmatched_packets()).as_str(),
    ).concat(" unmatched packet decisions.");
    with_first_line(total, playout.report_streams())
}

pub open spec fn events_line(events: EventsView) -> Seq<char> {
    "events.ndjson: "@ + text::decimal(events.records) + " records, "@ + tail(
        events.truncated_tail,
    ) + ", "@ + text::decimal(events.mappings.len()) + " speaker mappings, "@ + text::decimal(
        events.identity_updates,
    ) + " identity updates, "@ + text::decimal(events.user_disconnections)
        + " user disconnections, "@ + text::decimal(events.unresolved_abandonments)
        + " unresolved-SSRC abandonments."@
}

/// The line that reports the totals of an event journal.
pub fn report_events(events: &EventInspection) -> (line: String)
    ensures
        line@ == events_line(events.deep_view()),
{
    "events.ndjson: ".to_owned().concat(text::decimal_text(events.records).as_str()).concat(
        " records, ",
    ).concat(tail_description(events.truncated_tail)).concat(", ").concat(
        text::decimal_text(events.mappings.len() as u64).as_str(),
    ).concat(" speaker mappings, ").concat(
        text::decimal_text(events.identity_updates).as_str(),
    ).concat(" identity updates, ").concat(
        text::decimal_text(events.user_disconnections).as_str(),
    ).concat(" user disconnections, ").concat(
        text::decimal_text(events.unresolved_abandonments).as_str(),
    ).concat(" unresolved-SSRC abandonments.")
}

pub open spec fn mapping_line(seconds: Seq<char>, mapping: MappingView) -> Seq<char> {
    "  "@ + seconds + "s: SSRC "@ + text::decimal(mapping.ssrc as nat) + " -> user "@ + (
    match mapping.user_id {
        Some(user) => user,
        None => "unknown"@,
    }) + " (speaking bits "@ + text::decimal(mapping.speaking_bits as nat) + ")."@
}

/// The line that reports a speaker mapping, its time given in seconds.
pub fn report_mapping(seconds: &str, mapping: &SpeakerMapping) -> (line: String)
    ensures
        line@ == mapping_line(seconds@, mapping.deep_view()),
{
    let user = match &mapping.user_id {
        Some(user) => user.as_str(),
        None => "unknown",
    };
    "  ".to_owned().concat(seconds).concat("s: SSRC ").concat(
        text::decimal_text(mapping.ssrc as u64).as_str(),
    ).concat(" -> user ").concat(user).concat(" (speaking bits ").concat(
        text::decimal_text(mapping.speaking_bits as u64).as_str(),
    ).concat(").")
}

pub open spec fn conclusion_of(
    packets: PacketsView,
    playout: PlayoutView,
    events: EventsView,
) -> Seq<char> {
    if packets.truncated_tail || playout.truncated_tail || events.truncated_tail {
        "Inspection completed with one or more recoverable truncated tails."@
    } else if playout.unmatched_packets > 0 {
        "Inspection completed with unmatched playout packet decisions."@
    } else {
        "Inspection completed cleanly."@
    }
}

/// The line that closes a report.
pub fn conclude(
    packets: &PacketInspection,
    playout: &PlayoutInspection,
    events: &EventInspection,
) -> (line: &'static str)
    ensures
        line@ == conclusion_of(packets.deep_view(), playout.deep_view(), events.deep_view()),
{
    if packets.truncated_tail() || playout.truncated_tail() || events.truncated_tail {
        "Inspection completed with one or more recoverable truncated tails."
    } else if playout.unmatched_packets() > 0 {
        "Inspection completed with unmatched playout packet decisions."
    } else {
        "Inspection completed cleanly."
    }
}

/// One line for each speaker mapping, in order.
pub open spec fn mapping_lines(seconds: Seq<Seq<char>>, mappings: Seq<MappingView>) -> Seq<
    Seq<char>,
> {
    Seq::new(mappings.len(), |i: int| mapping_line(seconds[i], mappings[i]))
}

/// The whole report of an inspection.
pub open spec fn report_of(
    directory: Seq<char>,
    manifest: ManifestView,
    packets: PacketsView,
    playout: PlayoutView,
    events: EventsView,
    seconds: Seq<Seq<char>>,
) -> Seq<Seq<char>> {
    seq!["Session inspection: "@ + directory + "."@, manifest_line(manifest)] + (seq![
        packets_line(packets),
    ] + packet_inspection::stream_lines(packets.streams)) + (seq![playout_line(playout)]
        + playout_inspection::stream_lines(playout.streams)) + seq![events_line(events)]
        + mapping_lines(seconds, events.mappings) + seq![conclusion_of(packets, playout, events)]
}

fn append_lines(lines: &mut Vec<String>, more: Vec<String>)
    ensures
        final(lines).deep_view() == old(lines).deep_view() + more.deep_view(),
{
    let ghost before = lines.deep_view();
    let ghost all = more.deep_view();
    assert(lines.deep_view() =~= before + all.take(0));
    for line in it: more
        invariant
            it.seq() == more@,
            all == more.deep_view(),
            lines.deep_view() == before + all.take(it.index()),
    {
        let ghost earlier = lines.deep_view();
        let ghost added = line@;
        lines.push(line);
        assert(lines.deep_view() =~= earlier.push(added));
        assert(all.take(it.index() + 1) =~= all.take(it.index()).push(all[it.index() as int]));
        assert(lines.deep_view() =~= before + all.take(it.index() + 1));
    }
    assert(all.take(all.len() as int) =~= all);
}

/// Report an inspected session, line by line. The time of each speaker mapping
/// is given in seconds.
pub fn run(
    directory: &str,
    manifest: &SessionManifest,
    packets: &PacketInspection,
    playout: &PlayoutInspection,
    events: &EventInspection,
    seconds: &Vec<String>,
) -> (lines: Vec<String>)
    requires
        packets.wf(),
        seconds@.len() == events.mappings@.len(),
    ensures
        lines.deep_view() == report_of(
            directory@,
            manifest.deep_view(),
            packets.deep_view(),
            playout.deep_view(),
            events.deep_view(),
            seconds.deep_view(),
        ),
{
    let mut lines: Vec<String> = Vec::new();
    lines.push("Session inspection: ".to_owned().concat(directory).concat("."));
    lines.push(report_manifest(manifest));
    let ghost head = seq![
        "Session inspection: "@ + directory@ + "."@,
        manifest_line(manifest.deep_view()),
    ];
    assert(lines.deep_view() =~= head);
    append_lines(&mut lines, report_packets(packets));
    append_lines(&mut lines, report_playout(playout));
    let ghost journals = lines.deep_view();
    lines.push(report_events(events));
    let ghost counted = journals + seq![events_line(events.deep_view())];
    assert(lines.deep_view() =~= counted);
    let ghost reported = mapping_lines(seconds.deep_view(), events.deep_view().mappings);
    let mut index: usize = 0;
    assert(lines.deep_view() =~= counted + reported.take(0));
    while index < events.mappings.len()
        invariant
            index <= events.mappings.len(),
            seconds@.len() == events.mappings@.len(),
            reported == mapping_lines(seconds.deep_view(), events.deep_view().mappings),
            lines.deep_view() == counted + reported.take(index as int),
        decreases events.mappings.len() - index,
    {
        let ghost earlier = lines.deep_view();
        let line = report_mapping(seconds[index].as_str(), &events.mappings[index]);
        let ghost added = line@;
        lines.push(line);
        assert(lines.deep_view() =~= earlier.push(added));
        assert(reported[index as int] == added);
        assert(reported.take(index + 1) =~= reported.take(index as int).push(added));
        assert(lines.deep_view() =~= counted + reported.take(index + 1));
        index = index + 1;
    }
    assert(reported.take(reported.len() as int) =~= reported);
    let ghost mapped = lines.deep_view();
    let last = conclude(packets, playout, events).to_owned();
    let ghost closing = last@;
    lines.push(last);
    assert(lines.deep_view() =~= mapped + seq![closing]);
    lines
}

} // verus!
