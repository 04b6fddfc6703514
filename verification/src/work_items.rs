//! Retained transcription work items.
//!
//! Replay supplies activity and mapping evidence, while the track manifest
//! supplies the observed speaker name and aligned source file. Participant
//! naming, role, and transcription policy always come from the immutable
//! session-local snapshot.

use vstd::prelude::*;

use crate::artifacts::LEGACY_WORK_ITEM_MANIFEST_FORMAT_VERSION;
use crate::artifacts::WORK_ITEM_MANIFEST_FORMAT_VERSION;
use crate::audio::SAMPLES_PER_MILLISECOND;
use crate::candidate_ranges::CandidateRange;
use crate::failure;
use crate::failure::Failure;
use crate::json;
use crate::order;
use crate::order::Ranked;
use crate::participants::ContextView;
use crate::participants::ParticipantContext;
use crate::participants::TranscriptNameSource;
use crate::text;
use crate::track_manifest::ManifestView;
use crate::track_manifest::TrackDescription;
use crate::track_manifest::TrackManifest;
use crate::track_manifest::TrackView;

verus! {

/// One stretch of one user's speech, to be transcribed as a unit.
#[derive(Debug)]
pub struct WorkItem {
    pub format: u16,
    pub id: String,
    pub session_id: String,
    pub sequence: u64,
    pub discord_user_id: String,
    pub discord_name: String,
    pub name: Option<String>,
    pub speaker: String,
    pub role: String,
    pub character: Option<String>,
    pub start_ms: u64,
    pub end_ms: u64,
    pub source: String,
    pub source_start_ms: u64,
    pub source_end_ms: u64,
}

pub struct WorkItemView {
    pub format: u16,
    pub id: Seq<char>,
    pub session_id: Seq<char>,
    pub sequence: u64,
    pub discord_user_id: Seq<char>,
    pub discord_name: Seq<char>,
    pub name: Option<Seq<char>>,
    pub speaker: Seq<char>,
    pub role: Seq<char>,
    pub character: Option<Seq<char>>,
    pub start_ms: u64,
    pub end_ms: u64,
    pub source: Seq<char>,
    pub source_start_ms: u64,
    pub source_end_ms: u64,
}

impl DeepView for WorkItem {
    type V = WorkItemView;

    open spec fn deep_view(&self) -> WorkItemView {
        WorkItemView {
            format: self.format,
            id: self.id@,
            session_id: self.session_id@,
            sequence: self.sequence,
            discord_user_id: self.discord_user_id@,
            discord_name: self.discord_name@,
            name: self.name.deep_view(),
            speaker: self.speaker@,
            role: self.role@,
            character: self.character.deep_view(),
            start_ms: self.start_ms,
            end_ms: self.end_ms,
            source: self.source@,
            source_start_ms: self.source_start_ms,
            source_end_ms: self.source_end_ms,
        }
    }
}

/// Samples as whole milliseconds, rounded down.
pub fn samples_to_millis_floor(samples: u64) -> (millis: u64)
    ensures
        millis == samples / SAMPLES_PER_MILLISECOND,
{
    samples / SAMPLES_PER_MILLISECOND
}

pub open spec fn millis_ceil(samples: u64) -> Result<u64, Seq<char>> {
    if samples + (SAMPLES_PER_MILLISECOND - 1) > u64::MAX {
        Err("millisecond range conversion overflow"@)
    } else {
        Ok(((samples + (SAMPLES_PER_MILLISECOND - 1)) / (SAMPLES_PER_MILLISECOND as int)) as u64)
    }
}

/// Samples as whole milliseconds, rounded up.
pub fn samples_to_millis_ceil(samples: u64) -> (millis: Result<u64, Failure>)
    ensures
        failure::outcome(millis) == millis_ceil(samples),
{
    match samples.checked_add(SAMPLES_PER_MILLISECOND - 1) {
        Some(value) => Ok(value / SAMPLES_PER_MILLISECOND),
        None => Err(Failure::from_text("millisecond range conversion overflow")),
    }
}

/// A millisecond range taken from samples holds every one of them and less
/// than a millisecond more at either end.
pub proof fn millisecond_ranges_hold_their_samples(start: u64, end: u64)
    requires
        start < end,
        millis_ceil(end) is Ok,
    ensures
        start / SAMPLES_PER_MILLISECOND < millis_ceil(end)->Ok_0,
        (start / SAMPLES_PER_MILLISECOND) * SAMPLES_PER_MILLISECOND <= start,
        start < (start / SAMPLES_PER_MILLISECOND) * SAMPLES_PER_MILLISECOND
            + SAMPLES_PER_MILLISECOND,
        end <= millis_ceil(end)->Ok_0 * SAMPLES_PER_MILLISECOND,
        millis_ceil(end)->Ok_0 * SAMPLES_PER_MILLISECOND < end + SAMPLES_PER_MILLISECOND,
{
}

pub open spec fn comma_joined(values: Seq<u64>) -> Seq<char> {
    text::joined(values.map_values(|value: u64| text::decimal(value as nat)), ", "@)
}

/// Numbers in decimal, separated by commas.
pub fn comma_join(values: &Vec<u64>) -> (text: String)
    ensures
        text@ == comma_joined(values@),
{
    let mut parts: Vec<String> = Vec::new();
    let mut index: usize = 0;
    while index < values.len()
        invariant
            index <= values.len(),
            parts@.len() == index,
            forall|i: int|
                0 <= i < index ==> (#[trigger] parts@[i])@ == text::decimal(values@[i] as nat),
        decreases values.len() - index,
    {
        parts.push(text::decimal_text(values[index]));
        index = index + 1;
    }
    assert(parts.deep_view() =~= values@.map_values(|value: u64| text::decimal(value as nat)));
    text::join(&parts, ", ")
}

/// The track of a user: the last one listed under the user's number.
pub open spec fn track_of(tracks: Seq<TrackView>, user: u64) -> Option<TrackView>
    decreases tracks.len(),
{
    if tracks.len() == 0 {
        None
    } else if tracks.last().numeric_id() == Some(user) {
        Some(tracks.last())
    } else {
        track_of(tracks.drop_last(), user)
    }
}

fn find_track(manifest: &TrackManifest, user: u64) -> (track: Option<&TrackDescription>)
    ensures
        track.deep_view() == track_of(manifest.deep_view().tracks, user),
{
    let ghost tracks = manifest.deep_view().tracks;
    let mut count: usize = manifest.tracks.len();
    assert(tracks.take(count as int) =~= tracks);
    while count > 0
        invariant
            count <= manifest.tracks.len(),
            tracks == manifest.deep_view().tracks,
            track_of(tracks, user) == track_of(tracks.take(count as int), user),
        decreases count,
    {
        let track = &manifest.tracks[count - 1];
        proof {
            assert(tracks.take(count as int).last() == track.deep_view());
            assert(tracks.take(count as int).drop_last() =~= tracks.take(count - 1));
        }
        match text::parse_u64(track.discord_user_id.as_str()) {
            Some(id) => {
                if id == user {
                    return Some(track);
                }
            },
            None => {},
        }
        count = count - 1;
    }
    None
}

/// Whether every track is filed under a number.
pub open spec fn numeric(manifest: ManifestView) -> bool {
    forall|i: int|
        0 <= i < manifest.tracks.len() ==> (#[trigger] manifest.tracks[i]).numeric_id() is Some
}

/// The users with ranges, in the order of their first ranges.
pub open spec fn active_users(ranges: Seq<CandidateRange>) -> Seq<u64>
    decreases ranges.len(),
{
    if ranges.len() == 0 {
        Seq::empty()
    } else {
        let earlier = active_users(ranges.drop_last());
        let user = ranges.last().discord_user_id;
        if earlier.contains(user) {
            earlier
        } else {
            earlier.push(user)
        }
    }
}

/// How far the ranges of a user reach into the user's track.
pub open spec fn source_length(ranges: Seq<CandidateRange>, user: u64) -> u64
    decreases ranges.len(),
{
    if ranges.len() == 0 {
        0
    } else {
        let earlier = source_length(ranges.drop_last(), user);
        let last = ranges.last();
        if last.discord_user_id == user && last.source_end_sample > earlier {
            last.source_end_sample
        } else {
            earlier
        }
    }
}

pub open spec fn untracked(user: u64) -> Seq<char> {
    "playout activity for Discord user "@ + text::decimal(user as nat) + " has no routine track"@
}

fn untracked_text(user: u64) -> (message: String)
    ensures
        message@ == untracked(user),
{
    "playout activity for Discord user ".to_owned().concat(
        text::decimal_text(user).as_str(),
    ).concat(" has no routine track")
}

/// Why the activity of a user does not fit the user's track.
pub open spec fn user_alignment_fault(
    tracks: Seq<TrackView>,
    user: u64,
    length: u64,
) -> Option<Seq<char>> {
    match track_of(tracks, user) {
        None => Some(untracked(user)),
        Some(track) => if length != track.length_samples {
            Some(
                "playout activity reconstructs "@ + text::decimal(length as nat)
                    + " aligned samples for Discord user "@ + text::decimal(user as nat)
                    + ", but tracks.json records "@ + text::decimal(track.length_samples as nat),
            )
        } else {
            None
        },
    }
}

/// The first of some users whose activity does not fit.
pub open spec fn users_alignment_fault(
    ranges: Seq<CandidateRange>,
    tracks: Seq<TrackView>,
    users: Seq<u64>,
) -> Option<Seq<char>>
    decreases users.len(),
{
    if users.len() == 0 {
        None
    } else {
        match users_alignment_fault(ranges, tracks, users.drop_last()) {
            Some(fault) => Some(fault),
            None => user_alignment_fault(tracks, users.last(), source_length(ranges, users.last())),
        }
    }
}

/// The users of tracks that no activity belongs to.
pub open spec fn idle_users(tracks: Seq<TrackView>, active: Seq<u64>) -> Seq<u64>
    decreases tracks.len(),
{
    if tracks.len() == 0 {
        Seq::empty()
    } else {
        let earlier = idle_users(tracks.drop_last(), active);
        match tracks.last().numeric_id() {
            Some(id) => if active.contains(id) {
                earlier
            } else {
                earlier.push(id)
            },
            None => earlier,
        }
    }
}

/// Why reconstructed activity and recorded tracks do not agree.
pub open spec fn alignment_fault(ranges: Seq<CandidateRange>, tracks: Seq<TrackView>) -> Option<
    Seq<char>,
> {
    let active = active_users(ranges);
    match users_alignment_fault(ranges, tracks, active) {
        Some(fault) => Some(fault),
        None => {
            let idle = idle_users(tracks, active);
            if idle.len() > 0 {
                Some(
                    "complete routine tracks have no attributable playout activity for Discord users "@
                        + comma_joined(order::ascending(idle.to_set())),
                )
            } else {
                None
            }
        },
    }
}

fn position_of(values: &Vec<u64>, wanted: u64) -> (position: Option<usize>)
    ensures
        match position {
            Some(i) => i < values@.len() && values@[i as int] == wanted,
            None => !values@.contains(wanted),
        },
{
    let mut index: usize = 0;
    while index < values.len()
        invariant
            index <= values.len(),
            forall|i: int| 0 <= i < index ==> values@[i] != wanted,
        decreases values.len() - index,
    {
        if values[index] == wanted {
            return Some(index);
        }
        index = index + 1;
    }
    None
}

proof fn lemma_source_length_of_inactive(ranges: Seq<CandidateRange>, user: u64)
    requires
        !active_users(ranges).contains(user),
    ensures
        source_length(ranges, user) == 0,
    decreases ranges.len(),
{
    if ranges.len() > 0 {
        let earlier = active_users(ranges.drop_last());
        assert(!earlier.contains(user)) by {
            if earlier.contains(user) {
                let i = choose|i: int| 0 <= i < earlier.len() && earlier[i] == user;
                assert(active_users(ranges)[i] == user);
            }
        }
        assert(ranges.last().discord_user_id != user) by {
            if ranges.last().discord_user_id == user {
                assert(active_users(ranges)[earlier.len() as int] == user);
            }
        }
        lemma_source_length_of_inactive(ranges.drop_last(), user);
    }
}

proof fn lemma_active_users_distinct(ranges: Seq<CandidateRange>)
    ensures
        active_users(ranges).no_duplicates(),
    decreases ranges.len(),
{
    if ranges.len() > 0 {
        lemma_active_users_distinct(ranges.drop_last());
    }
}

/// The users with ranges and how far each reaches.
fn source_lengths(ranges: &Vec<CandidateRange>) -> (lengths: (Vec<u64>, Vec<u64>))
    ensures
        lengths.0@ == active_users(ranges@),
        lengths.1@.len() == lengths.0@.len(),
        forall|i: int|
            0 <= i < lengths.0@.len() ==> #[trigger] lengths.1@[i] == source_length(
                ranges@,
                lengths.0@[i],
            ),
{
    let mut users: Vec<u64> = Vec::new();
    let mut lengths: Vec<u64> = Vec::new();
    let mut index: usize = 0;
    assert(ranges@.take(0) =~= Seq::<CandidateRange>::empty());
    while index < ranges.len()
        invariant
            index <= ranges.len(),
            users@ == active_users(ranges@.take(index as int)),
            lengths@.len() == users@.len(),
            forall|i: int|
                0 <= i < users@.len() ==> #[trigger] lengths@[i] == source_length(
                    ranges@.take(index as int),
                    users@[i],
                ),
        decreases ranges.len() - index,
    {
        let range = ranges[index];
        let ghost earlier = ranges@.take(index as int);
        let ghost longer = ranges@.take(index + 1);
        proof {
            assert(longer.drop_last() =~= earlier);
            assert(longer.last() == range);
            lemma_active_users_distinct(earlier);
        }
        match position_of(&users, range.discord_user_id) {
            Some(place) => {
                if range.source_end_sample > lengths[place] {
                    lengths.set(place, range.source_end_sample);
                }
                assert forall|i: int| 0 <= i < users@.len() implies #[trigger] lengths@[i]
                    == source_length(longer, users@[i]) by {
                    if i != place {
                        assert(users@[i] != users@[place as int]);
                    }
                }
            },
            None => {
                proof {
                    lemma_source_length_of_inactive(earlier, range.discord_user_id);
                }
                users.push(range.discord_user_id);
                lengths.push(range.source_end_sample);
                assert forall|i: int| 0 <= i < users@.len() implies #[trigger] lengths@[i]
                    == source_length(longer, users@[i]) by {
                    if i < users@.len() - 1 {
                        assert(active_users(earlier)[i] == users@[i]);
                        assert(users@[i] != range.discord_user_id);
                    }
                }
            },
        }
        index = index + 1;
    }
    assert(ranges@.take(ranges@.len() as int) =~= ranges@);
    (users, lengths)
}

proof fn lemma_users_alignment_stops(
    ranges: Seq<CandidateRange>,
    tracks: Seq<TrackView>,
    users: Seq<u64>,
    count: int,
)
    requires
        0 <= count <= users.len(),
        users_alignment_fault(ranges, tracks, users.take(count)) is Some,
    ensures
        users_alignment_fault(ranges, tracks, users) == users_alignment_fault(
            ranges,
            tracks,
            users.take(count),
        ),
    decreases users.len(),
{
    if count == users.len() {
        assert(users.take(count) =~= users);
    } else {
        assert(users.drop_last().take(count) =~= users.take(count));
        lemma_users_alignment_stops(ranges, tracks, users.drop_last(), count);
    }
}

/// Hold reconstructed activity against the recorded track lengths.
pub fn validate_source_alignment(ranges: &Vec<CandidateRange>, manifest: &TrackManifest) -> (result:
    Result<(), Failure>)
    requires
        numeric(manifest.deep_view()),
    ensures
        failure::outcome(result) == (match alignment_fault(
            ranges@,
            manifest.deep_view().tracks,
        ) {
            Some(fault) => Err::<(), Seq<char>>(fault),
            None => Ok(()),
        }),
{
    let ghost tracks = manifest.deep_view().tracks;
    let (users, lengths) = source_lengths(ranges);
    let mut index: usize = 0;
    assert(users@.take(0) =~= Seq::<u64>::empty());
    while index < users.len()
        invariant
            index <= users.len(),
            tracks == manifest.deep_view().tracks,
            users@ == active_users(ranges@),
            lengths@.len() == users@.len(),
            forall|i: int|
                0 <= i < users@.len() ==> #[trigger] lengths@[i] == source_length(
                    ranges@,
                    users@[i],
                ),
            users_alignment_fault(ranges@, tracks, users@.take(index as int)) is None,
        decreases users.len() - index,
    {
        let user: u64 = users[index];
        let length: u64 = lengths[index];
        proof {
            let longer = users@.take(index + 1);
            assert(longer.drop_last() =~= users@.take(index as int));
            assert(longer.last() == user);
            if user_alignment_fault(tracks, user, length) is Some {
                lemma_users_alignment_stops(ranges@, tracks, users@, index + 1);
            }
        }
        match find_track(manifest, user) {
            None => {
                return Err(Failure::new(untracked_text(user)));
            },
            Some(track) => {
                if length != track.length_samples {
                    return Err(
                        Failure::new(
                            "playout activity reconstructs ".to_owned().concat(
                                text::decimal_text(length).as_str(),
                            ).concat(" aligned samples for Discord user ").concat(
                                text::decimal_text(user).as_str(),
                            ).concat(", but tracks.json records ").concat(
                                text::decimal_text(track.length_samples).as_str(),
                            ),
                        ),
                    );
                }
            },
        }
        index = index + 1;
    }
    assert(users@.take(users@.len() as int) =~= users@);
    let idle = find_idle_users(manifest, &users);
    if idle.len() > 0 {
        let listing = order::distinct_ascending(&idle);
        return Err(
            Failure::new(
                "complete routine tracks have no attributable playout activity for Discord users ".to_owned().concat(
                comma_join(&listing).as_str()),
            ),
        );
    }
    Ok(())
}

fn find_idle_users(manifest: &TrackManifest, active: &Vec<u64>) -> (idle: Vec<u64>)
    ensures
        idle@ == idle_users(manifest.deep_view().tracks, active@),
{
    let ghost tracks = manifest.deep_view().tracks;
    let mut idle: Vec<u64> = Vec::new();
    let mut index: usize = 0;
    assert(tracks.take(0) =~= Seq::<TrackView>::empty());
    while index < manifest.tracks.len()
        invariant
            index <= manifest.tracks.len(),
            tracks == manifest.deep_view().tracks,
            idle@ == idle_users(tracks.take(index as int), active@),
        decreases manifest.tracks.len() - index,
    {
        let track = &manifest.tracks[index];
        proof {
            let longer = tracks.take(index + 1);
            assert(longer.drop_last() =~= tracks.take(index as int));
            assert(longer.last() == track.deep_view());
        }
        match text::parse_u64(track.discord_user_id.as_str()) {
            Some(id) => {
                match position_of(active, id) {
                    Some(_) => {},
                    None => {
                        idle.push(id);
                    },
                }
            },
            None => {},
        }
        index = index + 1;
    }
    assert(tracks.take(tracks.len() as int) =~= tracks);
    idle
}

impl Ranked for CandidateRange {
    /// Session time first, then user, then the further boundaries.
    open spec fn precedes(self, other: CandidateRange) -> bool {
        if self.start_sample != other.start_sample {
            self.start_sample < other.start_sample
        } else if self.discord_user_id != other.discord_user_id {
            self.discord_user_id < other.discord_user_id
        } else if self.end_sample != other.end_sample {
            self.end_sample < other.end_sample
        } else {
            self.source_start_sample <= other.source_start_sample
        }
    }

    proof fn precedes_is_total(left: CandidateRange, right: CandidateRange) {
    }

    proof fn precedes_is_transitive(
        first: CandidateRange,
        second: CandidateRange,
        third: CandidateRange,
    ) {
    }

    fn may_precede(&self, other: &CandidateRange) -> (result: bool) {
        if self.start_sample != other.start_sample {
            self.start_sample < other.start_sample
        } else if self.discord_user_id != other.discord_user_id {
            self.discord_user_id < other.discord_user_id
        } else if self.end_sample != other.end_sample {
            self.end_sample < other.end_sample
        } else {
            self.source_start_sample <= other.source_start_sample
        }
    }
}

/// Why a range cannot be cut from a track.
pub open spec fn range_fault(range: CandidateRange, length_samples: u64) -> Option<Seq<char>> {
    if range.start_sample >= range.end_sample || range.source_start_sample
        >= range.source_end_sample {
        Some(
            "range refiner produced an empty or reversed range for Discord user "@ + text::decimal(
                range.discord_user_id as nat,
            ),
        )
    } else if range.source_end_sample > length_samples {
        Some(
            "source range for Discord user "@ + text::decimal(range.discord_user_id as nat)
                + " ends at sample "@ + text::decimal(range.source_end_sample as nat)
                + ", beyond track length "@ + text::decimal(length_samples as nat),
        )
    } else {
        None
    }
}

/// Hold a refined range against its track.
pub fn validate_range(range: &CandidateRange, track: &TrackDescription) -> (result: Result<
    (),
    Failure,
>)
    ensures
        failure::outcome(result) == (match range_fault(*range, track.length_samples) {
            Some(fault) => Err::<(), Seq<char>>(fault),
            None => Ok(()),
        }),
{
    if range.start_sample >= range.end_sample || range.source_start_sample
        >= range.source_end_sample {
        return Err(
            Failure::new(
                "range refiner produced an empty or reversed range for Discord user ".to_owned().concat(
                text::decimal_text(range.discord_user_id).as_str()),
            ),
        );
    }
    if range.source_end_sample > track.length_samples {
        return Err(
            Failure::new(
                "source range for Discord user ".to_owned().concat(
                    text::decimal_text(range.discord_user_id).as_str(),
                ).concat(" ends at sample ").concat(
                    text::decimal_text(range.source_end_sample).as_str(),
                ).concat(", beyond track length ").concat(
                    text::decimal_text(track.length_samples).as_str(),
                ),
            ),
        );
    }
    Ok(())
}

/// Non-empty text on one line.
pub open spec fn plain_text(value: Seq<char>) -> bool {
    !text::blank(value) && text::single_line(value)
}

impl WorkItemView {
    /// The attribution of an item is what its format allows.
    pub open spec fn attribution_valid(self) -> bool {
        if self.format == LEGACY_WORK_ITEM_MANIFEST_FORMAT_VERSION {
            &&& self.role == "player"@ || self.role == "gm"@
            &&& self.discord_name == self.speaker
            &&& self.name is None
        } else if self.format == WORK_ITEM_MANIFEST_FORMAT_VERSION {
            &&& plain_text(self.discord_name)
            &&& self.name matches Some(name) ==> plain_text(name)
            &&& plain_text(self.role)
            &&& self.character is None
            &&& self.speaker == self.discord_name || self.name == Some(self.speaker)
        } else {
            false
        }
    }

    pub open spec fn valid(self) -> bool {
        &&& self.attribution_valid()
        &&& self.sequence != 0
        &&& !text::blank(self.id)
        &&& !text::blank(self.session_id)
        &&& text::parsed_u64(self.discord_user_id) matches Some(id) && id != 0
        &&& plain_text(self.speaker)
        &&& self.start_ms < self.end_ms
        &&& self.source_start_ms < self.source_end_ms
    }
}

pub open spec fn invalid_item(id: Seq<char>) -> Seq<char> {
    "invalid transcription work item "@ + id
}

fn is_plain_text(value: &str) -> (result: bool)
    ensures
        result == plain_text(value@),
{
    !text::is_blank(value) && text::is_single_line(value)
}

fn has_valid_attribution(item: &WorkItem) -> (result: bool)
    ensures
        result == item.deep_view().attribution_valid(),
{
    if item.format == LEGACY_WORK_ITEM_MANIFEST_FORMAT_VERSION {
        (text::same_text(item.role.as_str(), "player") || text::same_text(
            item.role.as_str(),
            "gm",
        )) && item.discord_name == item.speaker && item.name.is_none()
    } else if item.format == WORK_ITEM_MANIFEST_FORMAT_VERSION {
        let name_is_plain = match &item.name {
            Some(name) => is_plain_text(name.as_str()),
            None => true,
        };
        let name_is_speaker = match &item.name {
            Some(name) => *name == item.speaker,
            None => false,
        };
        is_plain_text(item.discord_name.as_str()) && name_is_plain && is_plain_text(
            item.role.as_str(),
        ) && item.character.is_none() && (item.speaker == item.discord_name || name_is_speaker)
    } else {
        false
    }
}

/// Check an item before it is published and after it is read.
pub fn validate_work_item(item: &WorkItem) -> (result: Result<(), Failure>)
    ensures
        failure::outcome(result) == (if item.deep_view().valid() {
            Ok::<(), Seq<char>>(())
        } else {
            Err(invalid_item(item.id@))
        }),
{
    let user_is_known = match text::parse_u64(item.discord_user_id.as_str()) {
        Some(id) => id != 0,
        None => false,
    };
    if !has_valid_attribution(item) || item.sequence == 0 || text::is_blank(item.id.as_str())
        || text::is_blank(item.session_id.as_str()) || !user_is_known || !is_plain_text(
        item.speaker.as_str(),
    ) || item.start_ms >= item.end_ms || item.source_start_ms >= item.source_end_ms {
        return Err(
            Failure::new(
                "invalid transcription work item ".to_owned().concat(item.id.as_str()),
            ),
        );
    }
    Ok(())
}

/// The ID of the item at a place in the global order of a session.
pub open spec fn canonical_id(session_id: Seq<char>, sequence: u64) -> Seq<char> {
    session_id + ":"@ + text::zero_padded(sequence as nat, 6)
}

pub fn canonical_id_text(session_id: &str, sequence: u64) -> (id: String)
    ensures
        id@ == canonical_id(session_id@, sequence),
{
    session_id.to_owned().concat(":").concat(text::zero_padded_text(sequence, 6).as_str())
}

/// The name a transcript shows for a speaker.
pub open spec fn shown_name(
    source: TranscriptNameSource,
    discord_name: Seq<char>,
    name: Option<Seq<char>>,
) -> Seq<char> {
    match source {
        TranscriptNameSource::Name => match name {
            Some(name) => name,
            None => discord_name,
        },
        TranscriptNameSource::Discord => discord_name,
    }
}

/// The item for a range of a user with a track, attributed by the snapshot.
pub open spec fn item_of(
    session_id: Seq<char>,
    sequence: u64,
    range: CandidateRange,
    track: TrackView,
    participants: ContextView,
) -> WorkItemView {
    let participant = participants.lookup(range.discord_user_id);
    let name = match participant {
        Some(participant) => participant.name,
        None => None,
    };
    WorkItemView {
        format: participants.format_version,
        id: canonical_id(session_id, sequence),
        session_id,
        sequence,
        discord_user_id: text::decimal(range.discord_user_id as nat),
        discord_name: track.display_name,
        name,
        speaker: shown_name(participants.transcript_name_source, track.display_name, name),
        role: match participant {
            Some(participant) => participant.role,
            None => participants.default_role(),
        },
        character: match participant {
            Some(participant) => participant.character,
            None => None,
        },
        start_ms: range.start_sample / SAMPLES_PER_MILLISECOND,
        end_ms: millis_ceil(range.end_sample)->Ok_0,
        source: track.path,
        source_start_ms: range.source_start_sample / SAMPLES_PER_MILLISECOND,
        source_end_ms: millis_ceil(range.source_end_sample)->Ok_0,
    }
}

/// The item at a place in the global order, or why there is none.
pub open spec fn work_item(
    session_id: Seq<char>,
    sequence: u64,
    range: CandidateRange,
    tracks: Seq<TrackView>,
    participants: ContextView,
) -> Result<WorkItemView, Seq<char>> {
    match track_of(tracks, range.discord_user_id) {
        None => Err(untracked(range.discord_user_id)),
        Some(track) => {
            let item = item_of(session_id, sequence, range, track, participants);
            if range_fault(range, track.length_samples) is Some {
                Err(range_fault(range, track.length_samples)->0)
            } else if millis_ceil(range.end_sample) is Err {
                Err(millis_ceil(range.end_sample)->Err_0)
            } else if millis_ceil(range.source_end_sample) is Err {
                Err(millis_ceil(range.source_end_sample)->Err_0)
            } else if !item.valid() {
                Err(invalid_item(item.id))
            } else {
                Ok(item)
            }
        },
    }
}

/// The ranges of users whose speech is to be transcribed.
pub open spec fn admitted(ranges: Seq<CandidateRange>, participants: ContextView) -> Seq<
    CandidateRange,
>
    decreases ranges.len(),
{
    if ranges.len() == 0 {
        Seq::empty()
    } else if participants.admits(ranges.last().discord_user_id) {
        admitted(ranges.drop_last(), participants).push(ranges.last())
    } else {
        admitted(ranges.drop_last(), participants)
    }
}

/// One item for each range, numbered from one in order, or why one is
/// missing.
pub open spec fn numbered_items(
    session_id: Seq<char>,
    ranges: Seq<CandidateRange>,
    tracks: Seq<TrackView>,
    participants: ContextView,
) -> Result<Seq<WorkItemView>, Seq<char>>
    decreases ranges.len(),
{
    if ranges.len() == 0 {
        Ok(Seq::empty())
    } else {
        match numbered_items(session_id, ranges.drop_last(), tracks, participants) {
            Err(message) => Err(message),
            Ok(items) => match work_item(
                session_id,
                ranges.len() as u64,
                ranges.last(),
                tracks,
                participants,
            ) {
                Err(message) => Err(message),
                Ok(item) => Ok(items.push(item)),
            },
        }
    }
}

/// The items of a session whose ranges are given in global order.
pub open spec fn materialised(
    session_id: Seq<char>,
    ranges: Seq<CandidateRange>,
    tracks: Seq<TrackView>,
    participants: ContextView,
) -> Result<Seq<WorkItemView>, Seq<char>> {
    numbered_items(session_id, admitted(ranges, participants), tracks, participants)
}

proof fn lemma_materialised_stops(
    session_id: Seq<char>,
    ranges: Seq<CandidateRange>,
    tracks: Seq<TrackView>,
    participants: ContextView,
    count: int,
)
    requires
        0 <= count <= ranges.len(),
        materialised(session_id, ranges.take(count), tracks, participants) is Err,
    ensures
        materialised(session_id, ranges, tracks, participants) == materialised(
            session_id,
            ranges.take(count),
            tracks,
            participants,
        ),
    decreases ranges.len(),
{
    if count == ranges.len() {
        assert(ranges.take(count) =~= ranges);
    } else {
        assert(ranges.drop_last().take(count) =~= ranges.take(count));
        lemma_materialised_stops(session_id, ranges.drop_last(), tracks, participants, count);
        let shorter = admitted(ranges.drop_last(), participants);
        if participants.admits(ranges.last().discord_user_id) {
            assert(admitted(ranges, participants).drop_last() =~= shorter);
        }
    }
}

fn materialise_item(
    session_id: &str,
    sequence: u64,
    range: &CandidateRange,
    manifest: &TrackManifest,
    participants: &ParticipantContext,
) -> (item: Result<WorkItem, Failure>)
    ensures
        failure::outcome(item) == work_item(
            session_id@,
            sequence,
            *range,
            manifest.deep_view().tracks,
            participants.deep_view(),
        ),
{
    let track = match find_track(manifest, range.discord_user_id) {
        Some(track) => track,
        None => {
            return Err(Failure::new(untracked_text(range.discord_user_id)));
        },
    };
    match validate_range(range, track) {
        Err(fault) => {
            return Err(fault);
        },
        Ok(_) => {},
    }
    let end_ms: u64 = match samples_to_millis_ceil(range.end_sample) {
        Ok(value) => value,
        Err(fault) => {
            return Err(fault);
        },
    };
    let source_end_ms: u64 = match samples_to_millis_ceil(range.source_end_sample) {
        Ok(value) => value,
        Err(fault) => {
            return Err(fault);
        },
    };
    let participant = participants.get(range.discord_user_id);
    let (name, role, character) = match participant {
        Some(participant) => (
            text::copy_optional(&participant.name),
            participant.role.clone(),
            text::copy_optional(&participant.character),
        ),
        None => (None, participants.default_role().to_owned(), None),
    };
    let discord_name = track.display_name.clone();
    let speaker = match participants.transcript_name_source() {
        TranscriptNameSource::Name => match &name {
            Some(name) => name.clone(),
            None => discord_name.clone(),
        },
        TranscriptNameSource::Discord => discord_name.clone(),
    };
    let item = WorkItem {
        format: participants.format_version(),
        id: canonical_id_text(session_id, sequence),
        session_id: session_id.to_owned(),
        sequence,
        discord_user_id: text::decimal_text(range.discord_user_id),
        discord_name,
        name,
        speaker,
        role,
        character,
        start_ms: samples_to_millis_floor(range.start_sample),
        end_ms,
        source: track.path.clone(),
        source_start_ms: samples_to_millis_floor(range.source_start_sample),
        source_end_ms,
    };
    match validate_work_item(&item) {
        Err(fault) => Err(fault),
        Ok(_) => Ok(item),
    }
}

/// Put ranges in global order, drop those of excluded users, and number the
/// rest as work items. Ranges that agree in start, user, end and source start
/// may come in either order.
pub fn materialise_work_items(
    session_id: &str,
    ranges: Vec<CandidateRange>,
    manifest: &TrackManifest,
    participants: &ParticipantContext,
) -> (items: Result<Vec<WorkItem>, Failure>)
    requires
        numeric(manifest.deep_view()),
    ensures
        exists|sorted: Seq<CandidateRange>| #[trigger]
            order::orders(sorted, ranges@) && failure::outcome(items) == materialised(
                session_id@,
                sorted,
                manifest.deep_view().tracks,
                participants.deep_view(),
            ),
{
    let sorted = order::sort(ranges);
    let ghost tracks = manifest.deep_view().tracks;
    let ghost context = participants.deep_view();
    let mut items: Vec<WorkItem> = Vec::new();
    let mut index: usize = 0;
    assert(sorted@.take(0) =~= Seq::<CandidateRange>::empty());
    assert(items.deep_view() =~= Seq::<WorkItemView>::empty());
    while index < sorted.len()
        invariant
            index <= sorted.len(),
            order::orders(sorted@, ranges@),
            tracks == manifest.deep_view().tracks,
            context == participants.deep_view(),
            items@.len() == admitted(sorted@.take(index as int), context).len(),
            items@.len() <= index,
            materialised(session_id@, sorted@.take(index as int), tracks, context) == Ok::<
                Seq<WorkItemView>,
                Seq<char>,
            >(items.deep_view()),
        decreases sorted.len() - index,
    {
        let range = &sorted[index];
        let ghost earlier = sorted@.take(index as int);
        let ghost longer = sorted@.take(index + 1);
        let ghost before = items.deep_view();
        assert(longer.drop_last() =~= earlier);
        assert(longer.last() == *range);
        let transcribed = match participants.get(range.discord_user_id) {
            Some(participant) => participant.transcribe,
            None => true,
        };
        if transcribed {
            let sequence: u64 = items.len() as u64 + 1;
            assert(admitted(longer, context).drop_last() =~= admitted(earlier, context));
            match materialise_item(session_id, sequence, range, manifest, participants) {
                Err(fault) => {
                    proof {
                        lemma_materialised_stops(
                            session_id@,
                            sorted@,
                            tracks,
                            context,
                            index + 1,
                        );
                    }
                    return Err(fault);
                },
                Ok(item) => {
                    let ghost added = item;
                    items.push(item);
                    assert(items.deep_view() =~= before.push(added.deep_view()));
                },
            }
        }
        index = index + 1;
    }
    assert(sorted@.take(sorted@.len() as int) =~= sorted@);
    Ok(items)
}

pub proof fn lemma_numbered_items(
    session_id: Seq<char>,
    ranges: Seq<CandidateRange>,
    tracks: Seq<TrackView>,
    participants: ContextView,
)
    requires
        numbered_items(session_id, ranges, tracks, participants) is Ok,
        ranges.len() <= u64::MAX,
    ensures
        numbered_items(session_id, ranges, tracks, participants)->Ok_0.len() == ranges.len(),
        forall|i: int|
            0 <= i < ranges.len() ==> work_item(
                session_id,
                (i + 1) as u64,
                #[trigger] ranges[i],
                tracks,
                participants,
            ) == Ok::<WorkItemView, Seq<char>>(
                numbered_items(session_id, ranges, tracks, participants)->Ok_0[i],
            ),
    decreases ranges.len(),
{
    if ranges.len() > 0 {
        let shorter = ranges.drop_last();
        lemma_numbered_items(session_id, shorter, tracks, participants);
        let items = numbered_items(session_id, ranges, tracks, participants)->Ok_0;
        let fewer = numbered_items(session_id, shorter, tracks, participants)->Ok_0;
        assert forall|i: int| 0 <= i < ranges.len() implies work_item(
            session_id,
            (i + 1) as u64,
            #[trigger] ranges[i],
            tracks,
            participants,
        ) == Ok::<WorkItemView, Seq<char>>(items[i]) by {
            if i < shorter.len() {
                assert(shorter[i] == ranges[i]);
                assert(items[i] == fewer[i]);
            }
        }
    }
}

pub proof fn lemma_admitted(ranges: Seq<CandidateRange>, participants: ContextView)
    ensures
        admitted(ranges, participants).len() <= ranges.len(),
        forall|i: int|
            0 <= i < admitted(ranges, participants).len() ==> participants.admits(
                (#[trigger] admitted(ranges, participants)[i]).discord_user_id,
            ) && ranges.contains(admitted(ranges, participants)[i]),
        forall|k: int|
            0 <= k < ranges.len() && participants.admits((#[trigger] ranges[k]).discord_user_id)
                ==> admitted(ranges, participants).contains(ranges[k]),
        order::in_order(ranges) ==> order::in_order(admitted(ranges, participants)),
    decreases ranges.len(),
{
    if ranges.len() > 0 {
        let shorter = ranges.drop_last();
        let last = ranges.last();
        lemma_admitted(shorter, participants);
        let kept = admitted(ranges, participants);
        let fewer = admitted(shorter, participants);
        assert forall|i: int| 0 <= i < kept.len() implies participants.admits(
            (#[trigger] kept[i]).discord_user_id,
        ) && ranges.contains(kept[i]) by {
            if i < fewer.len() {
                assert(kept[i] == fewer[i]);
                let k = choose|k: int| 0 <= k < shorter.len() && shorter[k] == fewer[i];
                assert(ranges[k] == kept[i]);
            } else {
                assert(ranges[ranges.len() - 1] == kept[i]);
            }
        }
        assert forall|k: int|
            0 <= k < ranges.len() && participants.admits(
                (#[trigger] ranges[k]).discord_user_id,
            ) implies kept.contains(ranges[k]) by {
            if k < shorter.len() {
                assert(shorter[k] == ranges[k]);
                let i = choose|i: int| 0 <= i < fewer.len() && fewer[i] == shorter[k];
                assert(kept[i] == ranges[k]);
            } else {
                assert(kept[kept.len() - 1] == ranges[k]);
            }
        }
        if order::in_order(ranges) {
            assert(order::in_order(shorter)) by {
                assert forall|i: int, j: int| 0 <= i < j < shorter.len() implies shorter[i].precedes(
                    shorter[j],
                ) by {
                    assert(ranges[i].precedes(ranges[j]));
                }
            }
            assert forall|i: int, j: int| 0 <= i < j < kept.len() implies kept[i].precedes(
                kept[j],
            ) by {
                if j < fewer.len() {
                    assert(fewer[i].precedes(fewer[j]));
                } else {
                    assert(kept[i] == fewer[i]);
                    let k = choose|k: int| 0 <= k < shorter.len() && shorter[k] == fewer[i];
                    assert(ranges[k].precedes(ranges[ranges.len() - 1]));
                }
            }
        }
    }
}

/// Work items are numbered from one without a gap, carry the IDs that their
/// numbers give, are valid, and start in chronological order.
pub proof fn items_are_sequenced_chronologically(
    session_id: Seq<char>,
    sorted: Seq<CandidateRange>,
    tracks: Seq<TrackView>,
    participants: ContextView,
)
    requires
        order::in_order(sorted),
        sorted.len() <= u64::MAX,
        materialised(session_id, sorted, tracks, participants) is Ok,
    ensures
        ({
            let items = materialised(session_id, sorted, tracks, participants)->Ok_0;
            &&& forall|i: int|
                0 <= i < items.len() ==> (#[trigger] items[i]).sequence == i + 1 && items[i].id
                    == canonical_id(session_id, (i + 1) as u64) && items[i].session_id
                    == session_id && items[i].valid()
            &&& forall|i: int, j: int|
                0 <= i < j < items.len() ==> (#[trigger] items[i]).start_ms <= (
                #[trigger] items[j]).start_ms
        }),
{
    let kept = admitted(sorted, participants);
    lemma_admitted(sorted, participants);
    lemma_numbered_items(session_id, kept, tracks, participants);
    let items = materialised(session_id, sorted, tracks, participants)->Ok_0;
    assert forall|i: int| 0 <= i < items.len() implies (#[trigger] items[i]).sequence == i + 1
        && items[i].id == canonical_id(session_id, (i + 1) as u64) && items[i].session_id
        == session_id && items[i].valid() && items[i].start_ms == kept[i].start_sample
        / SAMPLES_PER_MILLISECOND by {
        assert(work_item(session_id, (i + 1) as u64, kept[i], tracks, participants) is Ok);
    }
    assert forall|i: int, j: int| 0 <= i < j < items.len() implies (#[trigger] items[i]).start_ms
        <= (#[trigger] items[j]).start_ms by {
        assert(kept[i].precedes(kept[j]));
    }
}

/// Excluded users are removed before items are numbered: exactly the ranges
/// of admitted users become items, one each.
pub proof fn excluded_users_have_no_items(
    session_id: Seq<char>,
    sorted: Seq<CandidateRange>,
    tracks: Seq<TrackView>,
    participants: ContextView,
)
    requires
        sorted.len() <= u64::MAX,
        materialised(session_id, sorted, tracks, participants) is Ok,
    ensures
        ({
            let items = materialised(session_id, sorted, tracks, participants)->Ok_0;
            &&& items.len() == admitted(sorted, participants).len()
            &&& forall|i: int|
                0 <= i < items.len() ==> exists|user: u64| #[trigger]
                    participants.admits(user) && (#[trigger] items[i]).discord_user_id
                        == text::decimal(user as nat)
            &&& forall|k: int|
                0 <= k < sorted.len() && participants.admits(
                    (#[trigger] sorted[k]).discord_user_id,
                ) ==> admitted(sorted, participants).contains(sorted[k])
        }),
{
    let kept = admitted(sorted, participants);
    lemma_admitted(sorted, participants);
    lemma_numbered_items(session_id, kept, tracks, participants);
    let items = materialised(session_id, sorted, tracks, participants)->Ok_0;
    assert forall|i: int| 0 <= i < items.len() implies exists|user: u64| #[trigger]
        participants.admits(user) && (#[trigger] items[i]).discord_user_id == text::decimal(
            user as nat,
        ) by {
        assert(work_item(session_id, (i + 1) as u64, kept[i], tracks, participants) is Ok);
        assert(participants.admits(kept[i].discord_user_id));
    }
}

/// A track is the last one recorded for a user.
pub open spec fn records_user(tracks: Seq<TrackView>, user: u64, t: int) -> bool {
    &&& 0 <= t < tracks.len()
    &&& text::parsed_u64(tracks[t].discord_user_id) == Some(user)
    &&& forall|later: int|
        t < later < tracks.len() ==> text::parsed_u64(
            (#[trigger] tracks[later]).discord_user_id,
        ) != Some(user)
}

pub proof fn lemma_track_of(tracks: Seq<TrackView>, user: u64)
    ensures
        track_of(tracks, user) matches Some(track) ==> exists|t: int| #[trigger]
            records_user(tracks, user, t) && tracks[t] == track,
        track_of(tracks, user) is None ==> forall|t: int|
            0 <= t < tracks.len() ==> text::parsed_u64((#[trigger] tracks[t]).discord_user_id)
                != Some(user),
    decreases tracks.len(),
{
    if tracks.len() > 0 {
        let fewer = tracks.drop_last();
        lemma_track_of(fewer, user);
        if tracks.last().numeric_id() == Some(user) {
            assert(records_user(tracks, user, tracks.len() - 1));
        } else if track_of(tracks, user) is Some {
            let t = choose|t: int| #[trigger]
                records_user(fewer, user, t) && fewer[t] == track_of(fewer, user)->0;
            assert(records_user(tracks, user, t)) by {
                assert forall|later: int| t < later < tracks.len() implies text::parsed_u64(
                    (#[trigger] tracks[later]).discord_user_id,
                ) != Some(user) by {
                    if later < fewer.len() {
                        assert(fewer[later] == tracks[later]);
                    }
                }
            }
        } else {
            assert forall|t: int| 0 <= t < tracks.len() implies text::parsed_u64(
                (#[trigger] tracks[t]).discord_user_id,
            ) != Some(user) by {
                if t < fewer.len() {
                    assert(fewer[t] == tracks[t]);
                }
            }
        }
    }
}

/// An item carries the name and the file of a track and what a snapshot says of
/// the track's user. Under `discord` the transcript shows the display name of
/// the track; under `name` it shows the configured name, where there is one.
pub open spec fn attributed(
    item: WorkItemView,
    user: u64,
    track: TrackView,
    participants: ContextView,
) -> bool {
    let listed = participants.participants.contains_key(user);
    let entry = participants.participants[user];
    &&& text::parsed_u64(item.discord_user_id) == Some(user)
    &&& item.format == participants.format_version
    &&& item.discord_name == track.display_name
    &&& item.source == track.path
    &&& participants.transcript_name_source == TranscriptNameSource::Discord ==> item.speaker
        == track.display_name
    &&& participants.transcript_name_source == TranscriptNameSource::Name && listed
        && entry.name is Some ==> item.speaker == entry.name->0
    &&& participants.transcript_name_source == TranscriptNameSource::Name && !(listed
        && entry.name is Some) ==> item.speaker == track.display_name
    &&& listed ==> item.name == entry.name && item.role == entry.role && item.character
        == entry.character
    &&& !listed ==> item.name is None && item.character is None
    &&& !listed && participants.format_version == 1 ==> item.role == "player"@
    &&& !listed && participants.format_version != 1 ==> item.role == "participant"@
}

/// An item spans a range to the millisecond, 48 samples each: it begins in the
/// millisecond in which the range begins and ends with the one in which it
/// ends, in the session and in the track.
pub open spec fn spans(item: WorkItemView, range: CandidateRange) -> bool {
    &&& item.start_ms * 48 <= range.start_sample < (item.start_ms + 1) * 48
    &&& (item.end_ms - 1) * 48 < range.end_sample <= item.end_ms * 48
    &&& item.source_start_ms * 48 <= range.source_start_sample < (item.source_start_ms + 1) * 48
    &&& (item.source_end_ms - 1) * 48 < range.source_end_sample <= item.source_end_ms * 48
}

/// An item stands for a range of a user with a track.
pub open spec fn stands_for(
    item: WorkItemView,
    range: CandidateRange,
    tracks: Seq<TrackView>,
    participants: ContextView,
) -> bool {
    &&& spans(item, range)
    &&& exists|t: int| #[trigger]
        records_user(tracks, range.discord_user_id, t) && attributed(
            item,
            range.discord_user_id,
            tracks[t],
            participants,
        ) && range.source_end_sample <= tracks[t].length_samples
}

/// The snapshot keeps a user out of the transcript.
pub open spec fn keeps_out(participants: ContextView, user: u64) -> bool {
    participants.participants.contains_key(user) && !participants.participants[user].transcribe
}

/// How many of some ranges belong to users that the snapshot does not keep out.
pub open spec fn admitted_count(ranges: Seq<CandidateRange>, participants: ContextView) -> nat
    decreases ranges.len(),
{
    if ranges.len() == 0 {
        0
    } else {
        admitted_count(ranges.drop_last(), participants) + if keeps_out(
            participants,
            ranges.last().discord_user_id,
        ) {
            0nat
        } else {
            1nat
        }
    }
}

proof fn lemma_admitted_places(ranges: Seq<CandidateRange>, participants: ContextView)
    ensures
        admitted(ranges, participants).len() == admitted_count(ranges, participants),
        forall|k: int|
            0 <= k < ranges.len() && !keeps_out(
                participants,
                (#[trigger] ranges[k]).discord_user_id,
            ) ==> {
                let i = admitted_count(ranges.take(k), participants);
                i < admitted(ranges, participants).len() && admitted(
                    ranges,
                    participants,
                )[i as int] == ranges[k]
            },
    decreases ranges.len(),
{
    if ranges.len() > 0 {
        let fewer = ranges.drop_last();
        lemma_admitted_places(fewer, participants);
        let all = admitted(ranges, participants);
        assert forall|k: int|
            0 <= k < ranges.len() && !keeps_out(
                participants,
                (#[trigger] ranges[k]).discord_user_id,
            ) implies {
            let i = admitted_count(ranges.take(k), participants);
            i < all.len() && all[i as int] == ranges[k]
        } by {
            if k < fewer.len() {
                assert(fewer[k] == ranges[k]);
                assert(fewer.take(k) =~= ranges.take(k));
            } else {
                assert(ranges.take(k) =~= fewer);
            }
        }
    }
}

proof fn lemma_item_stands_for(
    session_id: Seq<char>,
    sequence: u64,
    range: CandidateRange,
    tracks: Seq<TrackView>,
    participants: ContextView,
)
    requires
        work_item(session_id, sequence, range, tracks, participants) is Ok,
    ensures
        stands_for(
            work_item(session_id, sequence, range, tracks, participants)->Ok_0,
            range,
            tracks,
            participants,
        ),
{
    let user = range.discord_user_id;
    lemma_track_of(tracks, user);
    text::decimal_reads_back(user);
    let item = work_item(session_id, sequence, range, tracks, participants)->Ok_0;
    let t = choose|t: int| #[trigger]
        records_user(tracks, user, t) && tracks[t] == track_of(tracks, user)->0;
    assert(attributed(item, user, tracks[t], participants));
}

proof fn lemma_admitted_count(ranges: Seq<CandidateRange>, participants: ContextView)
    ensures
        admitted_count(ranges, participants) <= ranges.len(),
    decreases ranges.len(),
{
    if ranges.len() > 0 {
        lemma_admitted_count(ranges.drop_last(), participants);
    }
}

proof fn lemma_numbered_item(
    session_id: Seq<char>,
    ranges: Seq<CandidateRange>,
    tracks: Seq<TrackView>,
    participants: ContextView,
    i: int,
)
    requires
        numbered_items(session_id, ranges, tracks, participants) is Ok,
        ranges.len() <= u64::MAX,
        0 <= i < ranges.len(),
    ensures
        numbered_items(session_id, ranges, tracks, participants)->Ok_0.len() == ranges.len(),
        work_item(session_id, (i + 1) as u64, ranges[i], tracks, participants) == Ok::<
            WorkItemView,
            Seq<char>,
        >(numbered_items(session_id, ranges, tracks, participants)->Ok_0[i]),
{
    lemma_numbered_items(session_id, ranges, tracks, participants);
}

proof fn lemma_place(ranges: Seq<CandidateRange>, participants: ContextView, k: int)
    requires
        0 <= k < ranges.len(),
        !keeps_out(participants, ranges[k].discord_user_id),
    ensures
        admitted_count(ranges.take(k), participants) < admitted(ranges, participants).len(),
        admitted(ranges, participants)[admitted_count(ranges.take(k), participants) as int]
            == ranges[k],
        admitted(ranges, participants).len() <= ranges.len(),
{
    lemma_admitted_places(ranges, participants);
    lemma_admitted_count(ranges, participants);
}

/// Every item stands for one of the ranges and is numbered by its place.
pub proof fn lemma_item_from_range(
    session_id: Seq<char>,
    sorted: Seq<CandidateRange>,
    tracks: Seq<TrackView>,
    participants: ContextView,
    i: int,
)
    requires
        sorted.len() <= u64::MAX,
        materialised(session_id, sorted, tracks, participants) is Ok,
        0 <= i < materialised(session_id, sorted, tracks, participants)->Ok_0.len(),
    ensures
        materialised(session_id, sorted, tracks, participants)->Ok_0[i].sequence == i + 1,
        exists|k: int|
            0 <= k < sorted.len() && stands_for(
                materialised(session_id, sorted, tracks, participants)->Ok_0[i],
                #[trigger] sorted[k],
                tracks,
                participants,
            ),
{
    let kept = admitted(sorted, participants);
    assert(kept.len() <= sorted.len() && materialised(
        session_id,
        sorted,
        tracks,
        participants,
    )->Ok_0.len() == kept.len()) by {
        lemma_admitted_places(sorted, participants);
        lemma_admitted_count(sorted, participants);
        lemma_numbered_items(session_id, kept, tracks, participants);
    }
    lemma_numbered_item(session_id, kept, tracks, participants, i);
    lemma_item_stands_for(session_id, (i + 1) as u64, kept[i], tracks, participants);
    assert(sorted.contains(kept[i])) by {
        lemma_admitted(sorted, participants);
    }
}

/// The item of a range stands at the place of the range among those that are
/// not kept out.
pub open spec fn item_at_its_place(
    items: Seq<WorkItemView>,
    sorted: Seq<CandidateRange>,
    tracks: Seq<TrackView>,
    participants: ContextView,
    k: int,
) -> bool {
    let i = admitted_count(sorted.take(k), participants);
    &&& i < items.len()
    &&& items[i as int].sequence == i + 1
    &&& stands_for(items[i as int], sorted[k], tracks, participants)
}

proof fn lemma_item_at_its_place(
    session_id: Seq<char>,
    sorted: Seq<CandidateRange>,
    tracks: Seq<TrackView>,
    participants: ContextView,
    k: int,
)
    requires
        sorted.len() <= u64::MAX,
        materialised(session_id, sorted, tracks, participants) is Ok,
        0 <= k < sorted.len(),
        !keeps_out(participants, sorted[k].discord_user_id),
    ensures
        item_at_its_place(
            materialised(session_id, sorted, tracks, participants)->Ok_0,
            sorted,
            tracks,
            participants,
            k,
        ),
{
    let kept = admitted(sorted, participants);
    let i = admitted_count(sorted.take(k), participants);
    lemma_place(sorted, participants, k);
    lemma_numbered_item(session_id, kept, tracks, participants, i as int);
    lemma_item_stands_for(session_id, (i + 1) as u64, sorted[k], tracks, participants);
}

/// Each range of a user that the snapshot does not keep out becomes one item,
/// numbered by how many such ranges stand before it, and no other item is made.
/// The item spans its range and is attributed by the track and the snapshot.
#[verifier::spinoff_prover]
pub proof fn items_stand_for_the_admitted_ranges(
    session_id: Seq<char>,
    sorted: Seq<CandidateRange>,
    tracks: Seq<TrackView>,
    participants: ContextView,
)
    requires
        sorted.len() <= u64::MAX,
        materialised(session_id, sorted, tracks, participants) is Ok,
    ensures
        materialised(session_id, sorted, tracks, participants)->Ok_0.len() == admitted_count(
            sorted,
            participants,
        ),
        forall|k: int|
            0 <= k < sorted.len() && !keeps_out(
                participants,
                sorted[k].discord_user_id,
            ) ==> #[trigger] item_at_its_place(
                materialised(session_id, sorted, tracks, participants)->Ok_0,
                sorted,
                tracks,
                participants,
                k,
            ),
{
    let kept = admitted(sorted, participants);
    let items = materialised(session_id, sorted, tracks, participants)->Ok_0;
    assert(items.len() == admitted_count(sorted, participants)) by {
        lemma_admitted_count(sorted, participants);
        lemma_admitted_places(sorted, participants);
        lemma_numbered_items(session_id, kept, tracks, participants);
    }
    assert forall|k: int|
        0 <= k < sorted.len() && !keeps_out(
            participants,
            sorted[k].discord_user_id,
        ) implies #[trigger] item_at_its_place(items, sorted, tracks, participants, k) by {
        lemma_item_at_its_place(session_id, sorted, tracks, participants, k);
    }
}

/// The layout of a format-1 line of the work manifest.
#[derive(Debug)]
pub struct LegacyWorkItem {
    pub format: u16,
    pub id: String,
    pub session_id: String,
    pub sequence: u64,
    pub discord_user_id: String,
    pub speaker: String,
    pub role: String,
    pub character: Option<String>,
    pub start_ms: u64,
    pub end_ms: u64,
    pub source: String,
    pub source_start_ms: u64,
    pub source_end_ms: u64,
}

/// The layout of a current line of the work manifest.
#[derive(Debug)]
pub struct CurrentWorkItem {
    pub format: u16,
    pub id: String,
    pub session_id: String,
    pub sequence: u64,
    pub discord_user_id: String,
    pub discord_name: String,
    pub name: Option<String>,
    pub speaker: String,
    pub role: String,
    pub start_ms: u64,
    pub end_ms: u64,
    pub source: String,
    pub source_start_ms: u64,
    pub source_end_ms: u64,
}

/// A line of the work manifest, in the layout its format gives it.
#[derive(Debug)]
pub enum WorkItemLine {
    Legacy(LegacyWorkItem),
    Current(CurrentWorkItem),
}

/// The two layouts of a work manifest line.
#[derive(Clone, Copy, Debug, PartialEq, Eq, Structural)]
pub enum LineLayout {
    Legacy,
    Current,
}

impl DeepView for LineLayout {
    type V = LineLayout;

    open spec fn deep_view(&self) -> LineLayout {
        *self
    }
}

/// The layout of a line whose format field holds a number, or nothing that
/// reads as one.
pub open spec fn layout_for(format: Option<u64>) -> Result<LineLayout, Seq<char>> {
    match format {
        None => Err("work item format must be an integer"@),
        Some(format) => if format == LEGACY_WORK_ITEM_MANIFEST_FORMAT_VERSION {
            Ok(LineLayout::Legacy)
        } else {
            Ok(LineLayout::Current)
        },
    }
}

/// Choose the layout in which to read a line from what its format field
/// holds.
pub fn layout_of_format(format: Option<u64>) -> (layout: Result<LineLayout, Failure>)
    ensures
        failure::outcome(layout) == layout_for(format),
{
    match format {
        None => Err(Failure::from_text("work item format must be an integer")),
        Some(format) => {
            if format == LEGACY_WORK_ITEM_MANIFEST_FORMAT_VERSION as u64 {
                Ok(LineLayout::Legacy)
            } else {
                Ok(LineLayout::Current)
            }
        },
    }
}

/// Choose the layout in which to read a line of the work manifest. A line
/// that starts with no JSON value is refused in the words of the JSON reader;
/// what stands behind the value is not looked at.
pub fn line_layout(line: &Vec<u8>) -> (layout: Result<LineLayout, Failure>)
    ensures
        failure::outcome(layout) == (match json::leading_number_field(line@, "format"@) {
            Err(refusal) => Err(refusal),
            Ok(format) => layout_for(format),
        }),
{
    match json::read_leading_number_field(line, "format") {
        Err(refusal) => Err(Failure::new(refusal)),
        Ok(format) => layout_of_format(format),
    }
}

impl WorkItemLine {
    /// The item that a line describes. A format-1 line has no Discord name of
    /// its own and no configured name; a current line has no character.
    pub open spec fn described(self) -> WorkItemView {
        match self {
            WorkItemLine::Legacy(line) => WorkItemView {
                format: line.format,
                id: line.id@,
                session_id: line.session_id@,
                sequence: line.sequence,
                discord_user_id: line.discord_user_id@,
                discord_name: line.speaker@,
                name: None,
                speaker: line.speaker@,
                role: line.role@,
                character: line.character.deep_view(),
                start_ms: line.start_ms,
                end_ms: line.end_ms,
                source: line.source@,
                source_start_ms: line.source_start_ms,
                source_end_ms: line.source_end_ms,
            },
            WorkItemLine::Current(line) => WorkItemView {
                format: line.format,
                id: line.id@,
                session_id: line.session_id@,
                sequence: line.sequence,
                discord_user_id: line.discord_user_id@,
                discord_name: line.discord_name@,
                name: line.name.deep_view(),
                speaker: line.speaker@,
                role: line.role@,
                character: None,
                start_ms: line.start_ms,
                end_ms: line.end_ms,
                source: line.source@,
                source_start_ms: line.source_start_ms,
                source_end_ms: line.source_end_ms,
            },
        }
    }

    /// Read a line as an item.
    pub fn into_item(self) -> (item: WorkItem)
        ensures
            item.deep_view() == self.described(),
    {
        match self {
            WorkItemLine::Legacy(line) => WorkItem {
                format: line.format,
                id: line.id,
                session_id: line.session_id,
                sequence: line.sequence,
                discord_user_id: line.discord_user_id,
                discord_name: line.speaker.clone(),
                name: None,
                speaker: line.speaker,
                role: line.role,
                character: line.character,
                start_ms: line.start_ms,
                end_ms: line.end_ms,
                source: line.source,
                source_start_ms: line.source_start_ms,
                source_end_ms: line.source_end_ms,
            },
            WorkItemLine::Current(line) => WorkItem {
                format: line.format,
                id: line.id,
                session_id: line.session_id,
                sequence: line.sequence,
                discord_user_id: line.discord_user_id,
                discord_name: line.discord_name,
                name: line.name,
                speaker: line.speaker,
                role: line.role,
                character: None,
                start_ms: line.start_ms,
                end_ms: line.end_ms,
                source: line.source,
                source_start_ms: line.source_start_ms,
                source_end_ms: line.source_end_ms,
            },
        }
    }
}

impl WorkItemView {
    /// What reading an item back from its line gives: a format-1 line keeps
    /// neither Discord name nor configured name, a current line no character.
    pub open spec fn as_recorded(self) -> WorkItemView {
        if self.format == LEGACY_WORK_ITEM_MANIFEST_FORMAT_VERSION {
            WorkItemView { discord_name: self.speaker, name: None, ..self }
        } else {
            WorkItemView { character: None, ..self }
        }
    }
}

impl WorkItem {
    /// Write an item as a line, in the layout its format gives it.
    pub fn to_line(&self) -> (line: WorkItemLine)
        ensures
            line is Legacy <==> self.format == LEGACY_WORK_ITEM_MANIFEST_FORMAT_VERSION,
            line.described() == self.deep_view().as_recorded(),
    {
        if self.format == LEGACY_WORK_ITEM_MANIFEST_FORMAT_VERSION {
            WorkItemLine::Legacy(
                LegacyWorkItem {
                    format: self.format,
                    id: self.id.clone(),
                    session_id: self.session_id.clone(),
                    sequence: self.sequence,
                    discord_user_id: self.discord_user_id.clone(),
                    speaker: self.speaker.clone(),
                    role: self.role.clone(),
                    character: text::copy_optional(&self.character),
                    start_ms: self.start_ms,
                    end_ms: self.end_ms,
                    source: self.source.clone(),
                    source_start_ms: self.source_start_ms,
                    source_end_ms: self.source_end_ms,
                },
            )
        } else {
            WorkItemLine::Current(
                CurrentWorkItem {
                    format: self.format,
                    id: self.id.clone(),
                    session_id: self.session_id.clone(),
                    sequence: self.sequence,
                    discord_user_id: self.discord_user_id.clone(),
                    discord_name: self.discord_name.clone(),
                    name: text::copy_optional(&self.name),
                    speaker: self.speaker.clone(),
                    role: self.role.clone(),
                    start_ms: self.start_ms,
                    end_ms: self.end_ms,
                    source: self.source.clone(),
                    source_start_ms: self.source_start_ms,
                    source_end_ms: self.source_end_ms,
                },
            )
        }
    }
}

/// A valid item reads back from its line as itself.
pub proof fn valid_items_survive_the_manifest(item: WorkItemView)
    requires
        item.valid(),
    ensures
        item.as_recorded() == item,
{
}

} // verus!
