//! Where transcription may start or continue, and the work manifest it reads.

use vstd::prelude::*;

use crate::artifacts::WORK_ITEM_MANIFEST_FORMAT_VERSION;
use crate::candidate_ranges::CandidateRange;
use crate::failure;
use crate::failure::Failure;
use crate::order;
use crate::participants::ContextView;
use crate::paths;
use crate::records;
use crate::results;
use crate::results::ResultAuthorityFailure;
use crate::results::TranscriptionResult;
use crate::resume;
use crate::resume::ResumePlan;
use crate::session::FileKind;
use crate::session::InspectedFile;
use crate::session::SessionRecord;
use crate::session::SessionView;
use crate::session::WorkflowState;
use crate::session::RECORDING_SESSION_FORMAT_VERSION;
use crate::session::SESSION_FORMAT_VERSION;
use crate::stage;
use crate::stage::StageError;
use crate::text;
use crate::track_manifest;
use crate::track_manifest::ManifestView;
use crate::track_manifest::TrackDescription;
use crate::track_manifest::TrackManifest;
use crate::track_manifest::TrackView;
use crate::work_authority;
use crate::work_items;
use crate::work_items::WorkItem;
use crate::work_items::WorkItemView;

verus! {

/// Refuse to transcribe a session that does not stand at its start or in the
/// middle of a controlled run.
pub open spec fn entry_fault(record: SessionView) -> Option<Seq<char>> {
    match record.state {
        WorkflowState::ReadyForTranscription => if record.format
            != RECORDING_SESSION_FORMAT_VERSION || record.files.work_items is None
            || record.files.results is Some {
            Some(
                "first transcription invocation requires a format-4 ready_for_transcription session with work_items and without results"@,
            )
        } else {
            None
        },
        WorkflowState::Transcribing => if record.format != SESSION_FORMAT_VERSION
            || record.files.work_items is None || record.files.results is None {
            Some(
                "controlled transcription restart requires a valid format-5 transcribing session"@,
            )
        } else {
            None
        },
        state => Some(
            "transcribe requires session state ready_for_transcription or transcribing; found "@
                + state.name(),
        ),
    }
}

pub fn validate_entry_state(record: &SessionRecord) -> (result: Result<(), Failure>)
    ensures
        failure::outcome(result) == (match entry_fault(record.deep_view()) {
            Some(fault) => Err::<(), Seq<char>>(fault),
            None => Ok(()),
        }),
{
    match record.state {
        WorkflowState::ReadyForTranscription => {
            if record.format != RECORDING_SESSION_FORMAT_VERSION
                || record.files.work_items.is_none() || record.files.results.is_some() {
                return Err(
                    Failure::from_text(
                        "first transcription invocation requires a format-4 ready_for_transcription session with work_items and without results",
                    ),
                );
            }
        },
        WorkflowState::Transcribing => {
            if record.format != SESSION_FORMAT_VERSION || record.files.work_items.is_none()
                || record.files.results.is_none() {
                return Err(
                    Failure::from_text(
                        "controlled transcription restart requires a valid format-5 transcribing session",
                    ),
                );
            }
        },
        state => {
            return Err(
                Failure::new(
                    "transcribe requires session state ready_for_transcription or transcribing; found ".to_owned().concat(
                    state.as_str()),
                ),
            );
        },
    }
    Ok(())
}

/// Durable evidence that a transcription attempt failed.
pub open spec fn attempt_failed(record: SessionView) -> bool {
    exists|i: int|
        0 <= i < record.failures.len() && (#[trigger] record.failures[i]).kind
            == "transcription_worker"@ && record.failures[i].state == WorkflowState::Transcribing
}

/// Refuse to continue a transcription that did not stop on a recorded fault.
pub open spec fn continuation_fault(record: SessionView) -> Option<Seq<char>> {
    if record.format != SESSION_FORMAT_VERSION || record.files.work_items is None
        || record.files.results is None || (record.state != WorkflowState::AwaitingOperator
        && record.state != WorkflowState::TranscriptionFailed) {
        Some(
            "continue <session> <config> requires a format-5 awaiting_operator or transcription_failed session with work_items and results; found format "@
                + text::decimal(record.format as nat) + " state "@ + record.state.name(),
        )
    } else if !attempt_failed(record) {
        Some("transcription continuation requires durable transcription-failure evidence"@)
    } else {
        None
    }
}

fn has_failed_attempt(record: &SessionRecord) -> (result: bool)
    ensures
        result == attempt_failed(record.deep_view()),
{
    let ghost failures = record.deep_view().failures;
    let mut index: usize = 0;
    while index < record.failures.len()
        invariant
            index <= record.failures.len(),
            failures == record.deep_view().failures,
            forall|i: int|
                0 <= i < index ==> !((#[trigger] failures[i]).kind == "transcription_worker"@
                    && failures[i].state == WorkflowState::Transcribing),
        decreases record.failures.len() - index,
    {
        let fault = &record.failures[index];
        assert(failures[index as int] == fault.deep_view());
        if text::same_text(fault.kind.as_str(), "transcription_worker") && fault.state
            == WorkflowState::Transcribing {
            return true;
        }
        index = index + 1;
    }
    false
}

pub fn validate_transcription_continuation_entry(record: &SessionRecord) -> (result: Result<
    (),
    Failure,
>)
    ensures
        failure::outcome(result) == (match continuation_fault(record.deep_view()) {
            Some(fault) => Err::<(), Seq<char>>(fault),
            None => Ok(()),
        }),
{
    if record.format != SESSION_FORMAT_VERSION || record.files.work_items.is_none()
        || record.files.results.is_none() || (record.state != WorkflowState::AwaitingOperator
        && record.state != WorkflowState::TranscriptionFailed) {
        return Err(
            Failure::new(
                "continue <session> <config> requires a format-5 awaiting_operator or transcription_failed session with work_items and results; found format ".to_owned().concat(
                text::decimal_text(record.format as u64).as_str()).concat(" state ").concat(
                    record.state.as_str(),
                ),
            ),
        );
    }
    if !has_failed_attempt(record) {
        return Err(
            Failure::from_text(
                "transcription continuation requires durable transcription-failure evidence",
            ),
        );
    }
    Ok(())
}

/// Whether a recorded source path stays within the session directory.
pub fn is_safe_relative_path(value: &str, windows: bool) -> (result: bool)
    ensures
        result == paths::contained(value@, windows),
{
    paths::is_contained(value, windows)
}

/// An item stands in its place in the manifest of a session.
pub open spec fn item_in_place(
    item: WorkItemView,
    session_id: Seq<char>,
    previous: Option<WorkItemView>,
    windows: bool,
) -> bool {
    &&& item.format == WORK_ITEM_MANIFEST_FORMAT_VERSION
    &&& item.session_id == session_id
    &&& item.sequence == (match previous {
        Some(earlier) => earlier.sequence + 1,
        None => 1,
    })
    &&& item.id == work_items::canonical_id(session_id, item.sequence)
    &&& item.start_ms < item.end_ms
    &&& item.source_start_ms < item.source_end_ms
    &&& !text::blank(item.speaker)
    &&& item.role == "player"@ || item.role == "gm"@
    &&& text::parsed_u64(item.discord_user_id) matches Some(id) && id != 0
    &&& paths::contained(item.source, windows)
}

/// Why an item cannot follow another in the manifest of a session.
pub open spec fn session_item_fault(
    item: WorkItemView,
    session_id: Seq<char>,
    previous: Option<WorkItemView>,
    windows: bool,
) -> Option<Seq<char>> {
    if !item_in_place(item, session_id, previous, windows) {
        Some("invalid or out-of-order work item "@ + text::debug_form(item.id))
    } else if previous matches Some(earlier) && item.start_ms < earlier.start_ms {
        Some("work manifest is not in deterministic chronological order"@)
    } else {
        None
    }
}

/// Hold an item against the session and the item before it. Sequence, not a
/// tie-break on rounded times, orders items that start together.
pub fn validate_work_item_for_session(
    item: &WorkItem,
    record: &SessionRecord,
    previous: Option<&WorkItem>,
    windows: bool,
) -> (result: Result<(), Failure>)
    requires
        previous matches Some(earlier) ==> earlier.sequence < u64::MAX,
    ensures
        failure::outcome(result) == (match session_item_fault(
            item.deep_view(),
            record.session_id@,
            previous.deep_view(),
            windows,
        ) {
            Some(fault) => Err::<(), Seq<char>>(fault),
            None => Ok(()),
        }),
{
    let expected_sequence: u64 = match previous {
        Some(earlier) => earlier.sequence + 1,
        None => 1,
    };
    let user_is_known = match text::parse_u64(item.discord_user_id.as_str()) {
        Some(id) => id != 0,
        None => false,
    };
    let expected_id = work_items::canonical_id_text(record.session_id.as_str(), item.sequence);
    if item.format != WORK_ITEM_MANIFEST_FORMAT_VERSION || item.session_id != record.session_id
        || item.sequence != expected_sequence || item.id != expected_id || item.start_ms
        >= item.end_ms || item.source_start_ms >= item.source_end_ms || text::is_blank(
        item.speaker.as_str(),
    ) || !(text::same_text(item.role.as_str(), "player") || text::same_text(
        item.role.as_str(),
        "gm",
    )) || !user_is_known || !is_safe_relative_path(item.source.as_str(), windows) {
        return Err(
            Failure::new(
                "invalid or out-of-order work item ".to_owned().concat(
                    text::debug_text(item.id.as_str()).as_str(),
                ),
            ),
        );
    }
    match previous {
        Some(earlier) => {
            if item.start_ms < earlier.start_ms {
                return Err(
                    Failure::from_text("work manifest is not in deterministic chronological order"),
                );
            }
        },
        None => {},
    }
    Ok(())
}

/// What each record was read as: an item, or nothing where it is malformed.
pub open spec fn read_items(parsed: Seq<Result<WorkItem, Failure>>) -> Seq<
    Result<WorkItemView, Seq<char>>,
> {
    parsed.map_values(|entry: Result<WorkItem, Failure>| failure::outcome(entry))
}

pub open spec fn last_of<T>(items: Seq<T>) -> Option<T> {
    if items.len() > 0 {
        Some(items.last())
    } else {
        None
    }
}

/// The items of manifest records, or the first record at fault.
pub open spec fn manifest_items(
    records: Seq<Seq<u8>>,
    parsed: Seq<Result<WorkItemView, Seq<char>>>,
    path: Seq<char>,
    session_id: Seq<char>,
    windows: bool,
) -> Result<Seq<WorkItemView>, Seq<char>>
    decreases records.len(),
{
    if records.len() == 0 {
        Ok(Seq::empty())
    } else {
        match manifest_items(records.drop_last(), parsed, path, session_id, windows) {
            Err(message) => Err(message),
            Ok(items) => if records.last().len() == 0 {
                Err(
                    "blank work manifest record at line "@ + text::decimal(records.len())
                        + " in "@ + path,
                )
            } else {
                match parsed[records.len() - 1] {
                    Err(cause) => Err(
                        failure::because(
                            "malformed work manifest record at line "@ + text::decimal(
                                records.len(),
                            ) + " in "@ + path,
                            cause,
                        ),
                    ),
                    Ok(item) => match session_item_fault(
                        item,
                        session_id,
                        last_of(items),
                        windows,
                    ) {
                        Some(fault) => Err(fault),
                        None => Ok(items.push(item)),
                    },
                }
            },
        }
    }
}

/// The items of a whole manifest.
pub open spec fn manifest_of(
    bytes: Seq<u8>,
    parsed: Seq<Result<WorkItemView, Seq<char>>>,
    path: Seq<char>,
    session_id: Seq<char>,
    windows: bool,
) -> Result<Seq<WorkItemView>, Seq<char>> {
    if !records::closed(bytes) {
        Err("work manifest "@ + path + " has a truncated final record"@)
    } else {
        manifest_items(records::records(bytes), parsed, path, session_id, windows)
    }
}

proof fn lemma_manifest_stops(
    records: Seq<Seq<u8>>,
    parsed: Seq<Result<WorkItemView, Seq<char>>>,
    path: Seq<char>,
    session_id: Seq<char>,
    count: int,
    windows: bool,
)
    requires
        0 <= count <= records.len(),
        manifest_items(records.take(count), parsed, path, session_id, windows) is Err,
    ensures
        manifest_items(records, parsed, path, session_id, windows) == manifest_items(
            records.take(count),
            parsed,
            path,
            session_id,
            windows,
        ),
    decreases records.len(),
{
    if count == records.len() {
        assert(records.take(count) =~= records);
    } else {
        assert(records.drop_last().take(count) =~= records.take(count));
        lemma_manifest_stops(records.drop_last(), parsed, path, session_id, count, windows);
    }
}

/// The items of an accepted manifest are numbered from one without a gap and
/// start in chronological order, each in its place.
pub proof fn manifest_items_are_in_place(
    records: Seq<Seq<u8>>,
    parsed: Seq<Result<WorkItemView, Seq<char>>>,
    path: Seq<char>,
    session_id: Seq<char>,
    windows: bool,
)
    requires
        manifest_items(records, parsed, path, session_id, windows) is Ok,
    ensures
        ({
            let items = manifest_items(records, parsed, path, session_id, windows)->Ok_0;
            &&& items.len() == records.len()
            &&& forall|i: int|
                0 <= i < items.len() ==> (#[trigger] items[i]).sequence == i + 1 && items[i].id
                    == work_items::canonical_id(session_id, items[i].sequence)
                    && items[i].session_id == session_id && paths::contained(
                    items[i].source,
                    windows,
                )
                    && parsed[i] == Ok::<WorkItemView, Seq<char>>(items[i])
            &&& forall|i: int, j: int|
                0 <= i < j < items.len() ==> (#[trigger] items[i]).start_ms <= (
                #[trigger] items[j]).start_ms
        }),
    decreases records.len(),
{
    if records.len() > 0 {
        manifest_items_are_in_place(records.drop_last(), parsed, path, session_id, windows);
        let fewer = manifest_items(records.drop_last(), parsed, path, session_id, windows)->Ok_0;
        let items = manifest_items(records, parsed, path, session_id, windows)->Ok_0;
        assert forall|i: int, j: int| 0 <= i < j < items.len() implies (
        #[trigger] items[i]).start_ms <= (#[trigger] items[j]).start_ms by {
            if j == fewer.len() {
                assert(items[i] == fewer[i]);
                if i < fewer.len() - 1 {
                    assert(fewer[i].start_ms <= fewer[fewer.len() - 1].start_ms);
                }
            } else {
                assert(items[i] == fewer[i] && items[j] == fewer[j]);
            }
        }
    }
}

/// Read the items of a work manifest from its bytes and from what each of its
/// records parses as.
pub fn read_work_manifest_authority(
    bytes: &Vec<u8>,
    parsed: Vec<Result<WorkItem, Failure>>,
    path: &str,
    record: &SessionRecord,
    windows: bool,
) -> (items: Result<Vec<WorkItem>, Failure>)
    requires
        records::closed(bytes@) ==> parsed@.len() == records::records(bytes@).len(),
    ensures
        failure::outcome(items) == manifest_of(
            bytes@,
            read_items(parsed@),
            path@,
            record.session_id@,
            windows,
        ),
{
    if !records::is_closed(bytes) {
        return Err(
            Failure::new(
                "work manifest ".to_owned().concat(path).concat(" has a truncated final record"),
            ),
        );
    }
    let all = records::split_records(bytes, bytes.len());
    assert(bytes@.take(bytes@.len() as int) =~= bytes@);
    let ghost lines = records::records(bytes@);
    let ghost reads = read_items(parsed@);
    let ghost session_id = record.session_id@;
    let mut items: Vec<WorkItem> = Vec::new();
    assert(lines.take(0) =~= Seq::<Seq<u8>>::empty());
    assert(items.deep_view() =~= Seq::<WorkItemView>::empty());
    let count: usize = all.len();
    let mut index: usize = 0;
    for entry in it: parsed
        invariant
            it.seq() == parsed@,
            it.index() == index,
            parsed@.len() == lines.len(),
            count == lines.len(),
            all.deep_view() == lines,
            lines == records::records(bytes@),
            records::closed(bytes@),
            reads == read_items(parsed@),
            session_id == record.session_id@,
            items@.len() == index,
            manifest_items(lines.take(index as int), reads, path@, session_id, windows) == Ok::<
                Seq<WorkItemView>,
                Seq<char>,
            >(items.deep_view()),
    {
        let ghost before = items.deep_view();
        let ghost longer = lines.take(index + 1);
        proof {
            assert(longer.drop_last() =~= lines.take(index as int));
            assert(longer.last() == lines[index as int]);
            assert(lines[index as int] == all@[index as int].deep_view());
            assert(reads[index as int] == failure::outcome(entry));
            manifest_items_are_in_place(
                lines.take(index as int),
                reads,
                path@,
                session_id,
                windows,
            );
            if manifest_items(longer, reads, path@, session_id, windows) is Err {
                lemma_manifest_stops(lines, reads, path@, session_id, index + 1, windows);
            }
        }
        if all[index].len() == 0 {
            return Err(
                Failure::new(
                    "blank work manifest record at line ".to_owned().concat(
                        text::decimal_text(index as u64 + 1).as_str(),
                    ).concat(" in ").concat(path),
                ),
            );
        }
        let item = match entry {
            Err(cause) => {
                return Err(
                    Failure::caused(
                        "malformed work manifest record at line ".to_owned().concat(
                            text::decimal_text(index as u64 + 1).as_str(),
                        ).concat(" in ").concat(path),
                        &cause,
                    ),
                );
            },
            Ok(item) => item,
        };
        let previous = if items.len() > 0 {
            Some(&items[items.len() - 1])
        } else {
            None
        };
        assert(previous.deep_view() == last_of(before));
        match validate_work_item_for_session(&item, record, previous, windows) {
            Err(fault) => {
                return Err(fault);
            },
            Ok(_) => {},
        }
        let ghost added = item;
        items.push(item);
        assert(items.deep_view() =~= before.push(added.deep_view()));
        index = index + 1;
    }
    assert(lines.take(lines.len() as int) =~= lines);
    Ok(items)
}

/// The track listed last under a Discord ID.
pub open spec fn track_named(tracks: Seq<TrackView>, discord_user_id: Seq<char>) -> Option<
    TrackView,
>
    decreases tracks.len(),
{
    if tracks.len() == 0 {
        None
    } else if tracks.last().discord_user_id == discord_user_id {
        Some(tracks.last())
    } else {
        track_named(tracks.drop_last(), discord_user_id)
    }
}

fn find_track_named<'a>(tracks: &'a TrackManifest, discord_user_id: &str) -> (track: Option<
    &'a TrackDescription,
>)
    ensures
        track.deep_view() == track_named(tracks.deep_view().tracks, discord_user_id@),
{
    let ghost views = tracks.deep_view().tracks;
    let mut count: usize = tracks.tracks.len();
    assert(views.take(count as int) =~= views);
    while count > 0
        invariant
            count <= tracks.tracks.len(),
            views == tracks.deep_view().tracks,
            track_named(views, discord_user_id@) == track_named(
                views.take(count as int),
                discord_user_id@,
            ),
        decreases count,
    {
        let track = &tracks.tracks[count - 1];
        proof {
            assert(views.take(count as int).last() == track.deep_view());
            assert(views.take(count as int).drop_last() =~= views.take(count - 1));
        }
        if text::same_text(track.discord_user_id.as_str(), discord_user_id) {
            return Some(track);
        }
        count = count - 1;
    }
    None
}

/// Why an item cannot be cut from the routine tracks.
pub open spec fn source_fault(item: WorkItemView, tracks: Seq<TrackView>) -> Option<Seq<char>> {
    match track_named(tracks, item.discord_user_id) {
        None => Some(
            "work item "@ + item.id + " has no complete routine track for Discord user "@
                + item.discord_user_id,
        ),
        Some(track) => if item.source != track.path {
            Some(
                "work item "@ + item.id + " source "@ + text::debug_form(item.source)
                    + " does not match routine track "@ + text::debug_form(track.path),
            )
        } else {
            match work_items::millis_ceil(track.length_samples) {
                Err(_) => Some("routine track duration overflow"@),
                Ok(end_ms) => if item.source_end_ms > end_ms {
                    Some(
                        "work item "@ + item.id
                            + " source range ends beyond its routine track"@,
                    )
                } else {
                    None
                },
            }
        },
    }
}

/// Hold an item against the routine track it is to be cut from.
pub fn validate_work_item_source(item: &WorkItem, tracks: &TrackManifest) -> (result: Result<
    (),
    Failure,
>)
    ensures
        failure::outcome(result) == (match source_fault(
            item.deep_view(),
            tracks.deep_view().tracks,
        ) {
            Some(fault) => Err::<(), Seq<char>>(fault),
            None => Ok(()),
        }),
{
    let track = match find_track_named(tracks, item.discord_user_id.as_str()) {
        Some(track) => track,
        None => {
            return Err(
                Failure::new(
                    "work item ".to_owned().concat(item.id.as_str()).concat(
                        " has no complete routine track for Discord user ",
                    ).concat(item.discord_user_id.as_str()),
                ),
            );
        },
    };
    if item.source != track.path {
        return Err(
            Failure::new(
                "work item ".to_owned().concat(item.id.as_str()).concat(" source ").concat(
                    text::debug_text(item.source.as_str()).as_str(),
                ).concat(" does not match routine track ").concat(
                    text::debug_text(track.path.as_str()).as_str(),
                ),
            ),
        );
    }
    let track_end_ms: u64 = match work_items::samples_to_millis_ceil(track.length_samples) {
        Ok(value) => value,
        Err(_) => {
            return Err(Failure::from_text("routine track duration overflow"));
        },
    };
    if item.source_end_ms > track_end_ms {
        return Err(
            Failure::new(
                "work item ".to_owned().concat(item.id.as_str()).concat(
                    " source range ends beyond its routine track",
                ),
            ),
        );
    }
    Ok(())
}

/// The first of some items that cannot be cut from the routine tracks.
pub open spec fn sources_fault(items: Seq<WorkItemView>, tracks: Seq<TrackView>) -> Option<
    Seq<char>,
>
    decreases items.len(),
{
    if items.len() == 0 {
        None
    } else {
        match sources_fault(items.drop_last(), tracks) {
            Some(fault) => Some(fault),
            None => source_fault(items.last(), tracks),
        }
    }
}

/// The items of a manifest whose sources all exist.
pub open spec fn usable_manifest(
    bytes: Seq<u8>,
    parsed: Seq<Result<WorkItemView, Seq<char>>>,
    path: Seq<char>,
    session_id: Seq<char>,
    tracks: Seq<TrackView>,
    windows: bool,
) -> Result<Seq<WorkItemView>, Seq<char>> {
    match manifest_of(bytes, parsed, path, session_id, windows) {
        Err(message) => Err(message),
        Ok(items) => match sources_fault(items, tracks) {
            Some(fault) => Err(fault),
            None => Ok(items),
        },
    }
}

proof fn lemma_sources_stop(items: Seq<WorkItemView>, tracks: Seq<TrackView>, count: int)
    requires
        0 <= count <= items.len(),
        sources_fault(items.take(count), tracks) is Some,
    ensures
        sources_fault(items, tracks) == sources_fault(items.take(count), tracks),
    decreases items.len(),
{
    if count == items.len() {
        assert(items.take(count) =~= items);
    } else {
        assert(items.drop_last().take(count) =~= items.take(count));
        lemma_sources_stop(items.drop_last(), tracks, count);
    }
}

/// Read a work manifest and hold every item against its routine track.
pub fn read_work_manifest(
    bytes: &Vec<u8>,
    parsed: Vec<Result<WorkItem, Failure>>,
    path: &str,
    record: &SessionRecord,
    tracks: &TrackManifest,
    windows: bool,
) -> (items: Result<Vec<WorkItem>, Failure>)
    requires
        records::closed(bytes@) ==> parsed@.len() == records::records(bytes@).len(),
    ensures
        failure::outcome(items) == usable_manifest(
            bytes@,
            read_items(parsed@),
            path@,
            record.session_id@,
            tracks.deep_view().tracks,
            windows,
        ),
{
    let items = match read_work_manifest_authority(bytes, parsed, path, record, windows) {
        Err(fault) => {
            return Err(fault);
        },
        Ok(items) => items,
    };
    let ghost views = items.deep_view();
    let ghost track_views = tracks.deep_view().tracks;
    let mut index: usize = 0;
    assert(views.take(0) =~= Seq::<WorkItemView>::empty());
    while index < items.len()
        invariant
            index <= items.len(),
            views == items.deep_view(),
            track_views == tracks.deep_view().tracks,
            manifest_of(bytes@, read_items(parsed@), path@, record.session_id@, windows) == Ok::<
                Seq<WorkItemView>,
                Seq<char>,
            >(views),
            sources_fault(views.take(index as int), track_views) is None,
        decreases items.len() - index,
    {
        let item = &items[index];
        proof {
            let longer = views.take(index + 1);
            assert(longer.drop_last() =~= views.take(index as int));
            assert(longer.last() == item.deep_view());
            if source_fault(item.deep_view(), track_views) is Some {
                lemma_sources_stop(views, track_views, index + 1);
            }
        }
        match validate_work_item_source(item, tracks) {
            Err(fault) => {
                return Err(fault);
            },
            Ok(_) => {},
        }
        index = index + 1;
    }
    assert(views.take(views.len() as int) =~= views);
    Ok(items)
}

/// The refusal of incomplete tracks where a session is transcribed.
pub const INCOMPLETE_FOR_TRANSCRIPTION: &'static str = "cannot transcribe with incomplete routine tracks for Discord users ";

/// The artefacts of a session as they were found. A part that could not be
/// read holds the refusal to report.
#[derive(Debug)]
pub struct SessionArtifacts {
    pub packets: InspectedFile,
    pub playout: InspectedFile,
    pub events: InspectedFile,
    pub participants: InspectedFile,
    pub tracks: InspectedFile,
    pub participant_snapshot: Result<(), Failure>,
    pub track_manifest: Result<TrackManifest, Failure>,
    /// One entry for each track of the manifest, in order.
    pub track_files: Vec<InspectedFile>,
}

impl SessionArtifacts {
    pub open spec fn wf(self) -> bool {
        self.track_manifest matches Ok(manifest) ==> self.track_files@.len()
            == manifest.tracks@.len()
    }
}

/// Why a named artefact cannot be used.
pub open spec fn artifact_fault(name: Seq<char>, file: InspectedFile) -> Option<Seq<char>> {
    match file.kind {
        FileKind::Regular => None,
        FileKind::Other => Some(name + " "@ + file.location@ + " is not a regular file"@),
        FileKind::Unreadable(cause) => Some(
            failure::because("failed to inspect "@ + name + " "@ + file.location@, cause@),
        ),
    }
}

fn require_regular(name: &str, file: &InspectedFile) -> (result: Result<(), Failure>)
    ensures
        failure::outcome(result) == (match artifact_fault(name@, *file) {
            Some(fault) => Err::<(), Seq<char>>(fault),
            None => Ok(()),
        }),
{
    match &file.kind {
        FileKind::Regular => Ok(()),
        FileKind::Other => Err(
            Failure::new(
                name.to_owned().concat(" ").concat(file.location.as_str()).concat(
                    " is not a regular file",
                ),
            ),
        ),
        FileKind::Unreadable(cause) => Err(
            Failure::caused(
                "failed to inspect ".to_owned().concat(name).concat(" ").concat(
                    file.location.as_str(),
                ),
                cause,
            ),
        ),
    }
}

/// The first named artefact that cannot be used.
pub open spec fn artifacts_fault(artifacts: SessionArtifacts) -> Option<Seq<char>> {
    if artifact_fault("packet journal"@, artifacts.packets) is Some {
        artifact_fault("packet journal"@, artifacts.packets)
    } else if artifact_fault("playout journal"@, artifacts.playout) is Some {
        artifact_fault("playout journal"@, artifacts.playout)
    } else if artifact_fault("event journal"@, artifacts.events) is Some {
        artifact_fault("event journal"@, artifacts.events)
    } else if artifact_fault("participant snapshot"@, artifacts.participants) is Some {
        artifact_fault("participant snapshot"@, artifacts.participants)
    } else {
        artifact_fault("track manifest"@, artifacts.tracks)
    }
}

/// The manifest of a session whose artefacts are all in place, or the first
/// objection.
pub open spec fn usable_artifacts(session_id: Seq<char>, artifacts: SessionArtifacts) -> Result<
    ManifestView,
    Seq<char>,
> {
    match artifacts_fault(artifacts) {
        Some(fault) => Err(fault),
        None => match (artifacts.participant_snapshot, artifacts.track_manifest) {
            (Err(refusal), _) => Err(refusal@),
            (Ok(_), Err(refusal)) => Err(refusal@),
            (Ok(_), Ok(manifest)) => match work_authority::tracks_unready(
                session_id,
                manifest.deep_view(),
                artifacts.track_files@,
                INCOMPLETE_FOR_TRANSCRIPTION@,
            ) {
                Some(fault) => Err(fault),
                None => Ok(manifest.deep_view()),
            },
        },
    }
}

/// Require every artefact of a session before it is transcribed.
pub fn validate_session_artifacts<'a>(
    record: &SessionRecord,
    artifacts: &'a SessionArtifacts,
) -> (manifest: Result<&'a TrackManifest, Failure>)
    requires
        artifacts.wf(),
    ensures
        failure::outcome(manifest) == usable_artifacts(record.session_id@, *artifacts),
        manifest matches Ok(manifest) ==> artifacts.track_manifest == Ok::<TrackManifest, Failure>(
            *manifest,
        ),
{
    match require_regular("packet journal", &artifacts.packets) {
        Err(fault) => {
            return Err(fault);
        },
        Ok(_) => {},
    }
    match require_regular("playout journal", &artifacts.playout) {
        Err(fault) => {
            return Err(fault);
        },
        Ok(_) => {},
    }
    match require_regular("event journal", &artifacts.events) {
        Err(fault) => {
            return Err(fault);
        },
        Ok(_) => {},
    }
    match require_regular("participant snapshot", &artifacts.participants) {
        Err(fault) => {
            return Err(fault);
        },
        Ok(_) => {},
    }
    match require_regular("track manifest", &artifacts.tracks) {
        Err(fault) => {
            return Err(fault);
        },
        Ok(_) => {},
    }
    match &artifacts.participant_snapshot {
        Err(refusal) => {
            return Err(Failure::from_text(refusal.text()));
        },
        Ok(_) => {},
    }
    let manifest = match &artifacts.track_manifest {
        Err(refusal) => {
            return Err(Failure::from_text(refusal.text()));
        },
        Ok(manifest) => manifest,
    };
    match work_authority::require_ready_tracks(
        record.session_id.as_str(),
        manifest,
        &artifacts.track_files,
        INCOMPLETE_FOR_TRANSCRIPTION,
    ) {
        Err(fault) => Err(fault),
        Ok(_) => Ok(manifest),
    }
}

/// A results or manifest file as it was read: where it lies, its bytes, and
/// what each of its closed records parses as.
#[derive(Debug)]
pub struct RecordFile<T> {
    pub path: String,
    pub read: Result<Vec<u8>, Failure>,
    pub parsed: Vec<Result<T, Failure>>,
}

impl<T> RecordFile<T> {
    /// One parse for each closed record.
    pub open spec fn wf(self) -> bool {
        self.read matches Ok(bytes) ==> self.parsed@.len() == records::records(
            results::committed_bytes(bytes@),
        ).len()
    }
}

/// The items of a manifest file.
pub open spec fn manifest_file_items(
    file: RecordFile<WorkItem>,
    session_id: Seq<char>,
    windows: bool,
) -> Result<
    Seq<WorkItemView>,
    Seq<char>,
> {
    match file.read {
        Err(cause) => Err(failure::because("failed to read work manifest "@ + file.path@, cause@)),
        Ok(bytes) => manifest_of(bytes@, read_items(file.parsed@), file.path@, session_id, windows),
    }
}

/// How a session enters the transcription stage.
#[derive(Clone, Copy, Debug, PartialEq, Eq, Structural)]
pub enum Entry {
    /// A first run, or a controlled restart of an interrupted one.
    Run,
    /// A run continued by its operator.
    Continue,
}

/// The work of a session that may enter the stage, or the first objection.
pub open spec fn accepted_work(
    entry: Entry,
    record: SessionView,
    artifacts: SessionArtifacts,
    manifest: RecordFile<WorkItem>,
    windows: bool,
) -> Result<Seq<WorkItemView>, Seq<char>> {
    let objection = match entry {
        Entry::Run => entry_fault(record),
        Entry::Continue => continuation_fault(record),
    };
    match objection {
        Some(fault) => Err(fault),
        None => match usable_artifacts(record.session_id, artifacts) {
            Err(fault) => Err(fault),
            Ok(tracks) => match manifest.read {
                Err(cause) => Err(
                    failure::because("failed to read work manifest "@ + manifest.path@, cause@),
                ),
                Ok(bytes) => usable_manifest(
                    bytes@,
                    read_items(manifest.parsed@),
                    manifest.path@,
                    record.session_id,
                    tracks.tracks,
                    windows,
                ),
            },
        },
    }
}

/// Decide whether a session may enter the stage, and with which work. A
/// refusal leaves the workflow record untouched.
pub fn accept_work(
    entry: Entry,
    record: &SessionRecord,
    artifacts: &SessionArtifacts,
    manifest: RecordFile<WorkItem>,
    windows: bool,
) -> (items: Result<Vec<WorkItem>, StageError<Failure>>)
    requires
        artifacts.wf(),
        manifest.wf(),
    ensures
        stage::staged(items) == stage::as_refused(
            accepted_work(entry, record.deep_view(), *artifacts, manifest, windows),
        ),
{
    let objection = match entry {
        Entry::Run => validate_entry_state(record),
        Entry::Continue => validate_transcription_continuation_entry(record),
    };
    match objection {
        Err(fault) => {
            return Err(StageError::refused(fault));
        },
        Ok(_) => {},
    }
    let tracks = match validate_session_artifacts(record, artifacts) {
        Err(fault) => {
            return Err(StageError::refused(fault));
        },
        Ok(tracks) => tracks,
    };
    let bytes = match &manifest.read {
        Err(cause) => {
            return Err(
                StageError::refused(
                    Failure::caused(
                        "failed to read work manifest ".to_owned().concat(manifest.path.as_str()),
                        cause,
                    ),
                ),
            );
        },
        Ok(bytes) => bytes,
    };
    proof {
        if records::closed(bytes@) {
            records::lemma_closed_is_committed(bytes@);
        }
    }
    match read_work_manifest(
        bytes,
        manifest.parsed,
        manifest.path.as_str(),
        record,
        tracks,
        windows,
    ) {
        Err(fault) => Err(StageError::refused(fault)),
        Ok(items) => Ok(items),
    }
}

/// The committed results of a continued run and the plan to resume behind
/// them.
#[derive(Debug)]
pub struct Continuation {
    pub committed: Vec<TranscriptionResult>,
    pub plan: ResumePlan,
}

/// Plan how an accepted session is continued. A refusal leaves the workflow
/// record untouched.
pub fn plan_continuation(
    record: &SessionRecord,
    authority: Result<Vec<TranscriptionResult>, ResultAuthorityFailure>,
    work_items: &Vec<WorkItem>,
    rewind_seconds: u64,
) -> (continuation: Result<Continuation, StageError<Failure>>)
    ensures
        match authority {
            Err(fault) => continuation matches Err(error) && !error.spec_accepted()
                && error.spec_source()@ == fault.deep_view().text(),
            Ok(committed) => match resume::resume_plan(
                record.deep_view().checkpoints,
                committed.deep_view(),
                work_items@.len(),
                rewind_seconds,
            ) {
                Err(message) => continuation matches Err(error) && !error.spec_accepted()
                    && error.spec_source()@ == message,
                Ok(plan) => continuation matches Ok(planned) && planned.plan == plan
                    && planned.committed == committed,
            },
        },
{
    let committed = match results::validate_and_repair_result_prefix(authority) {
        Err(refusal) => {
            return Err(StageError::refused(refusal));
        },
        Ok(committed) => committed,
    };
    match resume::select_resume_plan(record, &committed, work_items, rewind_seconds) {
        Err(refusal) => Err(StageError::refused(refusal)),
        Ok(plan) => Ok(Continuation { committed, plan }),
    }
}

/// Refuse to rebuild the transcript of a session without complete structured
/// results.
pub open spec fn rebuild_fault(record: SessionView) -> Option<Seq<char>> {
    if record.format != SESSION_FORMAT_VERSION || record.state != WorkflowState::Complete
        || record.files.work_items is None || record.files.results is None {
        Some(
            "rebuild-transcript requires a complete format-5 session with work and result authority; found format "@
                + text::decimal(record.format as nat) + " state "@ + record.state.name(),
        )
    } else {
        None
    }
}

/// The transcript that complete structured results give, or why they do not.
pub open spec fn complete_transcript(
    session_id: Seq<char>,
    manifest: RecordFile<WorkItem>,
    results: RecordFile<TranscriptionResult>,
    windows: bool,
) -> Result<Seq<char>, Seq<char>> {
    match manifest_file_items(manifest, session_id, windows) {
        Err(message) => Err(message),
        Ok(items) => match results.read {
            Err(cause) => Err(
                failure::because("failed to read results "@ + results.path@, cause@),
            ),
            Ok(bytes) => if !records::closed(bytes@) {
                Err(
                    "cannot rebuild transcript from a truncated final result record in "@
                        + results.path@,
                )
            } else {
                match results::result_authority(
                    Ok(bytes@),
                    results::read_results(results.parsed@),
                    results.path@,
                    items,
                ) {
                    Err(fault) => Err(fault.text()),
                    Ok(committed) => if committed.len() != items.len() {
                        Err(
                            "cannot rebuild transcript: committed "@ + text::decimal(
                                committed.len(),
                            ) + " of "@ + text::decimal(items.len()) + " work items"@,
                        )
                    } else {
                        Ok(results::transcript_of(committed))
                    },
                }
            },
        },
    }
}

/// The transcript of a session that may be rebuilt.
pub open spec fn rebuilt(
    record: SessionView,
    manifest: RecordFile<WorkItem>,
    results: RecordFile<TranscriptionResult>,
    windows: bool,
) -> Result<Seq<char>, Seq<char>> {
    match rebuild_fault(record) {
        Some(fault) => Err(fault),
        None => complete_transcript(record.session_id, manifest, results, windows),
    }
}

/// Render the transcript of complete structured results.
pub fn render_complete_transcript(
    record: &SessionRecord,
    manifest: RecordFile<WorkItem>,
    results: RecordFile<TranscriptionResult>,
    windows: bool,
) -> (transcript: Result<String, Failure>)
    requires
        manifest.wf(),
        results.wf(),
    ensures
        failure::outcome(transcript) == complete_transcript(
            record.deep_view().session_id,
            manifest,
            results,
            windows,
        ),
{
    let manifest_bytes = match &manifest.read {
        Err(cause) => {
            return Err(
                Failure::caused(
                    "failed to read work manifest ".to_owned().concat(manifest.path.as_str()),
                    cause,
                ),
            );
        },
        Ok(bytes) => bytes,
    };
    proof {
        if records::closed(manifest_bytes@) {
            records::lemma_closed_is_committed(manifest_bytes@);
        }
    }
    let items = match read_work_manifest_authority(
        manifest_bytes,
        manifest.parsed,
        manifest.path.as_str(),
        record,
        windows,
    ) {
        Err(fault) => {
            return Err(fault);
        },
        Ok(items) => items,
    };
    match &results.read {
        Err(cause) => {
            return Err(
                Failure::caused(
                    "failed to read results ".to_owned().concat(results.path.as_str()),
                    cause,
                ),
            );
        },
        Ok(bytes) => {
            if !records::is_closed(bytes) {
                return Err(
                    Failure::new(
                        "cannot rebuild transcript from a truncated final result record in ".to_owned().concat(
                        results.path.as_str()),
                    ),
                );
            }
        },
    }
    match results::validate_and_repair_result_prefix_detailed(
        &results.read,
        results.parsed,
        results.path.as_str(),
        &items,
    ) {
        Err(fault) => Err(Failure::new(fault.text())),
        Ok(prefix) => {
            let committed = prefix.results;
            if committed.len() != items.len() {
                Err(
                    Failure::new(
                        "cannot rebuild transcript: committed ".to_owned().concat(
                            text::decimal_text(committed.len() as u64).as_str(),
                        ).concat(" of ").concat(
                            text::decimal_text(items.len() as u64).as_str(),
                        ).concat(" work items"),
                    ),
                )
            } else {
                Ok(results::render_transcript(&committed))
            }
        },
    }
}

/// Render the final transcript anew from complete structured results. Neither
/// journals nor audio are read.
pub fn rebuild_transcript(
    record: &SessionRecord,
    manifest: RecordFile<WorkItem>,
    results: RecordFile<TranscriptionResult>,
    windows: bool,
) -> (transcript: Result<String, Failure>)
    requires
        manifest.wf(),
        results.wf(),
    ensures
        failure::outcome(transcript) == rebuilt(record.deep_view(), manifest, results, windows),
{
    if record.format != SESSION_FORMAT_VERSION || record.state != WorkflowState::Complete
        || record.files.work_items.is_none() || record.files.results.is_none() {
        return Err(
            Failure::new(
                "rebuild-transcript requires a complete format-5 session with work and result authority; found format ".to_owned().concat(
                text::decimal_text(record.format as u64).as_str()).concat(" state ").concat(
                    record.state.as_str(),
                ),
            ),
        );
    }
    render_complete_transcript(record, manifest, results, windows)
}

proof fn lemma_track_of_is_listed(tracks: Seq<TrackView>, user: u64)
    ensures
        work_items::track_of(tracks, user) matches Some(track) ==> tracks.contains(track),
    decreases tracks.len(),
{
    if tracks.len() > 0 {
        if tracks.last().numeric_id() == Some(user) {
            assert(tracks[tracks.len() - 1] == tracks.last());
        } else {
            lemma_track_of_is_listed(tracks.drop_last(), user);
            if let Some(track) = work_items::track_of(tracks.drop_last(), user) {
                let i = choose|i: int|
                    0 <= i < tracks.drop_last().len() && tracks.drop_last()[i] == track;
                assert(tracks[i] == track);
            }
        }
    }
}

/// Every track is filed under its number in plain decimal.
pub open spec fn plainly_numbered(tracks: Seq<TrackView>) -> bool {
    forall|i: int|
        0 <= i < tracks.len() ==> (#[trigger] tracks[i]).numeric_id() is Some
            && tracks[i].discord_user_id == text::decimal(tracks[i].numeric_id()->0 as nat)
}

proof fn lemma_names_are_numbers(tracks: Seq<TrackView>, user: u64)
    requires
        plainly_numbered(tracks),
    ensures
        track_named(tracks, text::decimal(user as nat)) == work_items::track_of(tracks, user),
    decreases tracks.len(),
{
    if tracks.len() > 0 {
        let shorter = tracks.drop_last();
        assert forall|i: int| 0 <= i < shorter.len() implies (
        #[trigger] shorter[i]).numeric_id() is Some && shorter[i].discord_user_id
            == text::decimal(shorter[i].numeric_id()->0 as nat) by {
            assert(tracks[i] == shorter[i]);
        }
        lemma_names_are_numbers(shorter, user);
        let last = tracks[tracks.len() - 1];
        assert(last.discord_user_id == text::decimal(last.numeric_id()->0 as nat));
        text::decimal_reads_back(user);
    }
}

/// What transcription asks of the work items that were built for a session
/// beyond what building them does.
pub open spec fn transcribable(items: Seq<WorkItemView>, tracks: Seq<TrackView>) -> bool {
    &&& forall|i: int|
        0 <= i < items.len() ==> (#[trigger] items[i]).format == WORK_ITEM_MANIFEST_FORMAT_VERSION
            && (items[i].role == "player"@ || items[i].role == "gm"@)
    &&& plainly_numbered(tracks)
    &&& forall|i: int|
        0 <= i < tracks.len() ==> work_items::millis_ceil(
            (#[trigger] tracks[i]).length_samples,
        ) is Ok
}

proof fn lemma_built_item_is_accepted(
    session_id: Seq<char>,
    sorted: Seq<CandidateRange>,
    manifest: ManifestView,
    participants: ContextView,
    index: int,
    windows: bool,
)
    requires
        order::in_order(sorted),
        sorted.len() <= u64::MAX,
        manifest.valid(windows),
        work_items::materialised(session_id, sorted, manifest.tracks, participants) is Ok,
        transcribable(
            work_items::materialised(session_id, sorted, manifest.tracks, participants)->Ok_0,
            manifest.tracks,
        ),
        0 <= index < work_items::materialised(
            session_id,
            sorted,
            manifest.tracks,
            participants,
        )->Ok_0.len(),
    ensures
        ({
            let items = work_items::materialised(
                session_id,
                sorted,
                manifest.tracks,
                participants,
            )->Ok_0;
            &&& session_item_fault(
                items[index],
                session_id,
                last_of(items.take(index)),
                windows,
            ) is None
            &&& source_fault(items[index], manifest.tracks) is None
        }),
{
    let tracks = manifest.tracks;
    let items = work_items::materialised(session_id, sorted, tracks, participants)->Ok_0;
    let kept = work_items::admitted(sorted, participants);
    work_items::lemma_admitted(sorted, participants);
    work_items::lemma_numbered_items(session_id, kept, tracks, participants);
    work_items::items_are_sequenced_chronologically(session_id, sorted, tracks, participants);
    track_manifest::valid_manifest_is_numbered(manifest, windows);
    let range = kept[index];
    let user = range.discord_user_id;
    assert(work_items::work_item(session_id, (index + 1) as u64, range, tracks, participants)
        == Ok::<WorkItemView, Seq<char>>(items[index]));
    let track = work_items::track_of(tracks, user)->0;
    lemma_track_of_is_listed(tracks, user);
    let place = choose|place: int| 0 <= place < tracks.len() && tracks[place] == track;
    assert(paths::contained(tracks[place].path, windows));
    assert(work_items::millis_ceil(tracks[place].length_samples) is Ok);
    lemma_names_are_numbers(tracks, user);
    assert(items[index].valid());
    assert(items[index].sequence == index + 1);
    if index > 0 {
        assert(items.take(index).last() == items[index - 1]);
        assert(items[index - 1].sequence == index);
        assert(items[index - 1].start_ms <= items[index].start_ms);
    }
}

/// What building work items publishes, transcription accepts: a manifest that
/// holds the items of a session, one to a record, reads as those items, each
/// in its place and within its routine track.
pub proof fn built_work_is_accepted(
    session_id: Seq<char>,
    sorted: Seq<CandidateRange>,
    manifest: ManifestView,
    participants: ContextView,
    records: Seq<Seq<u8>>,
    path: Seq<char>,
    windows: bool,
)
    requires
        order::in_order(sorted),
        sorted.len() <= u64::MAX,
        manifest.valid(windows),
        work_items::materialised(session_id, sorted, manifest.tracks, participants) is Ok,
        transcribable(
            work_items::materialised(session_id, sorted, manifest.tracks, participants)->Ok_0,
            manifest.tracks,
        ),
        records.len() == work_items::materialised(
            session_id,
            sorted,
            manifest.tracks,
            participants,
        )->Ok_0.len(),
        forall|i: int| 0 <= i < records.len() ==> (#[trigger] records[i]).len() > 0,
    ensures
        ({
            let items = work_items::materialised(
                session_id,
                sorted,
                manifest.tracks,
                participants,
            )->Ok_0;
            &&& manifest_items(
                records,
                items.map_values(|item: WorkItemView| Ok::<WorkItemView, Seq<char>>(item)),
                path,
                session_id,
                windows,
            ) == Ok::<Seq<WorkItemView>, Seq<char>>(items)
            &&& sources_fault(items, manifest.tracks) is None
        }),
{
    let items = work_items::materialised(
        session_id,
        sorted,
        manifest.tracks,
        participants,
    )->Ok_0;
    lemma_built_prefix_is_accepted(
        session_id,
        sorted,
        manifest,
        participants,
        records,
        path,
        items.len() as int,
        windows,
    );
    assert(items.take(items.len() as int) =~= items);
    assert(records.take(items.len() as int) =~= records);
}

proof fn lemma_built_prefix_is_accepted(
    session_id: Seq<char>,
    sorted: Seq<CandidateRange>,
    manifest: ManifestView,
    participants: ContextView,
    records: Seq<Seq<u8>>,
    path: Seq<char>,
    count: int,
    windows: bool,
)
    requires
        order::in_order(sorted),
        sorted.len() <= u64::MAX,
        manifest.valid(windows),
        work_items::materialised(session_id, sorted, manifest.tracks, participants) is Ok,
        transcribable(
            work_items::materialised(session_id, sorted, manifest.tracks, participants)->Ok_0,
            manifest.tracks,
        ),
        records.len() == work_items::materialised(
            session_id,
            sorted,
            manifest.tracks,
            participants,
        )->Ok_0.len(),
        forall|i: int| 0 <= i < records.len() ==> (#[trigger] records[i]).len() > 0,
        0 <= count <= records.len(),
    ensures
        ({
            let items = work_items::materialised(
                session_id,
                sorted,
                manifest.tracks,
                participants,
            )->Ok_0;
            &&& manifest_items(
                records.take(count),
                items.map_values(|item: WorkItemView| Ok::<WorkItemView, Seq<char>>(item)),
                path,
                session_id,
                windows,
            ) == Ok::<Seq<WorkItemView>, Seq<char>>(items.take(count))
            &&& sources_fault(items.take(count), manifest.tracks) is None
        }),
    decreases count,
{
    let items = work_items::materialised(
        session_id,
        sorted,
        manifest.tracks,
        participants,
    )->Ok_0;
    if count == 0 {
        assert(items.take(0) =~= Seq::<WorkItemView>::empty());
    } else {
        lemma_built_prefix_is_accepted(
            session_id,
            sorted,
            manifest,
            participants,
            records,
            path,
            count - 1,
            windows,
        );
        lemma_built_item_is_accepted(
            session_id,
            sorted,
            manifest,
            participants,
            count - 1,
            windows,
        );
        assert(records.take(count).drop_last() =~= records.take(count - 1));
        assert(records.take(count).last() == records[count - 1]);
        assert(items.take(count).drop_last() =~= items.take(count - 1));
        assert(items.take(count).last() == items[count - 1]);
        assert(items.take(count - 1).push(items[count - 1]) =~= items.take(count));
    }
}

/// A transcript is chronological: of the committed results that it renders in
/// order, none starts before an earlier one, and each is numbered by its place.
pub proof fn transcripts_are_chronological(
    work: Seq<Seq<u8>>,
    items: Seq<Result<WorkItemView, Seq<char>>>,
    work_path: Seq<char>,
    session_id: Seq<char>,
    committed: Seq<Seq<u8>>,
    results: Seq<Result<results::ResultView, Seq<char>>>,
    results_path: Seq<char>,
    earlier: int,
    later: int,
    windows: bool,
)
    requires
        manifest_items(work, items, work_path, session_id, windows) is Ok,
        results::committed_results(
            committed,
            results,
            results_path,
            manifest_items(work, items, work_path, session_id, windows)->Ok_0,
        ) is Ok,
        0 <= earlier < later < committed.len(),
    ensures
        ({
            let rendered = results::committed_results(
                committed,
                results,
                results_path,
                manifest_items(work, items, work_path, session_id, windows)->Ok_0,
            )->Ok_0;
            &&& rendered.len() == committed.len()
            &&& rendered[earlier].start_ms <= rendered[later].start_ms
            &&& rendered[earlier].sequence == earlier + 1
            &&& rendered[later].sequence == later + 1
        }),
{
    manifest_items_are_in_place(work, items, work_path, session_id, windows);
    results::committed_results_match_the_work(
        committed,
        results,
        results_path,
        manifest_items(work, items, work_path, session_id, windows)->Ok_0,
    );
}

} // verus!
