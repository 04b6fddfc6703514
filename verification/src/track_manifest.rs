//! Durable manifest for routine Discord-user tracks.
//!
//! The manifest describes both usable routine tracks and incomplete tracks
//! which require operator-controlled recovery.

use vstd::prelude::*;

use crate::artifacts::LEGACY_TRACK_MANIFEST_FORMAT_VERSION;
use crate::artifacts::TRACK_MANIFEST_FORMAT_VERSION;
use crate::audio::BITS_PER_SAMPLE;
use crate::audio::CHANNELS;
use crate::audio::SAMPLE_RATE;
use crate::failure::Failure;
use crate::order;
use crate::order::Ranked;
use crate::paths;
use crate::text;

verus! {

/// What kind of error a manifest was refused with.
#[derive(Clone, Copy, Debug, PartialEq, Eq, Structural)]
pub enum ErrorKind {
    /// It says something that no manifest may say.
    InvalidData,
    /// It could not be read as a manifest at all.
    Other,
}

/// A refused manifest.
#[derive(Debug)]
pub struct ManifestError {
    pub kind: ErrorKind,
    pub failure: Failure,
}

impl View for ManifestError {
    type V = (ErrorKind, Seq<char>);

    open spec fn view(&self) -> (ErrorKind, Seq<char>) {
        (self.kind, self.failure@)
    }
}

/// What a check came to: the mathematical value it returned, or the kind and
/// the sentence of its refusal.
pub open spec fn checked<T: DeepView>(result: Result<T, ManifestError>) -> Result<
    T::V,
    (ErrorKind, Seq<char>),
> {
    match result {
        Ok(value) => Ok(value.deep_view()),
        Err(error) => Err(error@),
    }
}

/// What a check for a fault comes to: whatever is wrong is invalid data.
pub open spec fn unless_faulty<T>(value: T, fault: Option<Seq<char>>) -> Result<
    T,
    (ErrorKind, Seq<char>),
> {
    match fault {
        Some(message) => Err((ErrorKind::InvalidData, message)),
        None => Ok(value),
    }
}

#[derive(Clone, Copy, Debug, PartialEq, Eq, Structural)]
pub enum TrackState {
    Complete,
    Incomplete,
}

impl DeepView for TrackState {
    type V = TrackState;

    open spec fn deep_view(&self) -> TrackState {
        *self
    }
}

/// One user's routine track.
#[derive(Debug)]
pub struct TrackDescription {
    pub discord_user_id: String,
    pub display_name: String,
    pub role: String,
    pub character: Option<String>,
    pub path: String,
    pub state: TrackState,
    pub sample_rate: u32,
    pub channels: u16,
    pub bits_per_sample: u16,
    pub start_sample: u64,
    pub length_samples: u64,
    pub source_ssrcs: Vec<u32>,
    pub abandonment_reason: Option<String>,
    pub last_contiguous_sample: Option<u64>,
}

pub struct TrackView {
    pub discord_user_id: Seq<char>,
    pub display_name: Seq<char>,
    pub role: Seq<char>,
    pub character: Option<Seq<char>>,
    pub path: Seq<char>,
    pub state: TrackState,
    pub sample_rate: u32,
    pub channels: u16,
    pub bits_per_sample: u16,
    pub start_sample: u64,
    pub length_samples: u64,
    pub source_ssrcs: Seq<u32>,
    pub abandonment_reason: Option<Seq<char>>,
    pub last_contiguous_sample: Option<u64>,
}

impl DeepView for TrackDescription {
    type V = TrackView;

    open spec fn deep_view(&self) -> TrackView {
        TrackView {
            discord_user_id: self.discord_user_id@,
            display_name: self.display_name@,
            role: self.role@,
            character: self.character.deep_view(),
            path: self.path@,
            state: self.state,
            sample_rate: self.sample_rate,
            channels: self.channels,
            bits_per_sample: self.bits_per_sample,
            start_sample: self.start_sample,
            length_samples: self.length_samples,
            source_ssrcs: self.source_ssrcs@,
            abandonment_reason: self.abandonment_reason.deep_view(),
            last_contiguous_sample: self.last_contiguous_sample,
        }
    }
}

impl TrackView {
    /// The Discord ID as a number, where it is one.
    pub open spec fn numeric_id(self) -> Option<u64> {
        text::parsed_u64(self.discord_user_id)
    }
}

impl TrackDescription {
    /// Describe a finished track in the routine audio format.
    pub fn new(
        discord_user_id: u64,
        display_name: String,
        role: String,
        character: Option<String>,
        path: String,
        state: TrackState,
        length_samples: u64,
        source_ssrcs: Vec<u32>,
        abandonment_reason: Option<String>,
    ) -> (track: TrackDescription)
        ensures
            track.deep_view() == (TrackView {
                discord_user_id: text::decimal(discord_user_id as nat),
                display_name: display_name@,
                role: role@,
                character: character.deep_view(),
                path: path@,
                state,
                sample_rate: SAMPLE_RATE,
                channels: CHANNELS,
                bits_per_sample: BITS_PER_SAMPLE,
                start_sample: 0,
                length_samples,
                source_ssrcs: source_ssrcs@,
                abandonment_reason: abandonment_reason.deep_view(),
                last_contiguous_sample: if state == TrackState::Incomplete {
                    Some(length_samples)
                } else {
                    None
                },
            }),
            track.deep_view().numeric_id() == Some(discord_user_id),
    {
        proof {
            text::decimal_reads_back(discord_user_id);
        }
        let last_contiguous_sample = if state == TrackState::Incomplete {
            Some(length_samples)
        } else {
            None
        };
        TrackDescription {
            discord_user_id: text::decimal_text(discord_user_id),
            display_name,
            role,
            character,
            path,
            state,
            sample_rate: SAMPLE_RATE,
            channels: CHANNELS,
            bits_per_sample: BITS_PER_SAMPLE,
            start_sample: 0,
            length_samples,
            source_ssrcs,
            abandonment_reason,
            last_contiguous_sample,
        }
    }

    /// The number by which tracks are ordered; IDs that are no numbers rank
    /// first.
    pub open spec fn rank(self) -> u64 {
        match text::parsed_u64(self.discord_user_id@) {
            Some(id) => id,
            None => 0,
        }
    }

    fn rank_number(&self) -> (rank: u64)
        ensures
            rank == self.rank(),
    {
        match text::parse_u64(self.discord_user_id.as_str()) {
            Some(id) => id,
            None => 0,
        }
    }
}

impl Ranked for TrackDescription {
    open spec fn precedes(self, other: TrackDescription) -> bool {
        self.rank() <= other.rank()
    }

    proof fn precedes_is_total(left: TrackDescription, right: TrackDescription) {
    }

    proof fn precedes_is_transitive(
        first: TrackDescription,
        second: TrackDescription,
        third: TrackDescription,
    ) {
    }

    fn may_precede(&self, other: &TrackDescription) -> (result: bool) {
        self.rank_number() <= other.rank_number()
    }
}

/// The routine tracks of a session.
#[derive(Debug)]
pub struct TrackManifest {
    pub format: u16,
    pub session_id: String,
    pub tracks: Vec<TrackDescription>,
}

pub struct ManifestView {
    pub format: u16,
    pub session_id: Seq<char>,
    pub tracks: Seq<TrackView>,
}

impl DeepView for TrackManifest {
    type V = ManifestView;

    open spec fn deep_view(&self) -> ManifestView {
        ManifestView {
            format: self.format,
            session_id: self.session_id@,
            tracks: self.tracks.deep_view(),
        }
    }
}

/// The path of a user's track.
pub open spec fn expected_path(user_id: u64, state: TrackState) -> Seq<char> {
    let stem = "tracks/user-"@ + text::decimal(user_id as nat);
    match state {
        TrackState::Complete => stem + ".flac"@,
        TrackState::Incomplete => stem + ".flac.part"@,
    }
}

fn expected_path_text(user_id: u64, state: TrackState) -> (path: String)
    ensures
        path@ == expected_path(user_id, state),
{
    let stem = "tracks/user-".to_owned().concat(text::decimal_text(user_id).as_str());
    match state {
        TrackState::Complete => stem.concat(".flac"),
        TrackState::Incomplete => stem.concat(".flac.part"),
    }
}

/// What is wrong with how a track's end is recorded.
pub open spec fn ending_fault(track: TrackView) -> Option<Seq<char>> {
    match track.state {
        TrackState::Complete => if track.abandonment_reason is Some
            || track.last_contiguous_sample is Some {
            Some("complete track must use .flac without abandonment fields"@)
        } else {
            None
        },
        TrackState::Incomplete => if track.last_contiguous_sample != Some(track.length_samples) || !(
        track.abandonment_reason matches Some(reason) && reason.len() > 0) {
            Some("incomplete track must use .flac.part with abandonment details"@)
        } else {
            None
        },
    }
}

/// What is wrong with the descriptive text of a track.
pub open spec fn context_fault(format: u16, track: TrackView) -> Option<Seq<char>> {
    if text::blank(track.display_name) {
        Some("track display_name must not be empty"@)
    } else if format == LEGACY_TRACK_MANIFEST_FORMAT_VERSION && track.role != "player"@
        && track.role != "gm"@ {
        Some("format-1 track role must be player or gm"@)
    } else if text::blank(track.role) || !text::single_line(track.role) {
        Some("track role must be non-empty single-line text"@)
    } else if track.character matches Some(character) && text::blank(character) {
        Some("track character must not be empty"@)
    } else if format == TRACK_MANIFEST_FORMAT_VERSION && track.character is Some {
        Some("format-2 track manifest must not contain character metadata"@)
    } else {
        None
    }
}

/// The first thing wrong with a track that follows a track of a given user.
pub open spec fn track_fault(
    format: u16,
    previous: Option<u64>,
    track: TrackView,
    windows: bool,
) -> Option<Seq<char>> {
    match track.numeric_id() {
        None => Some(
            "track Discord user ID "@ + text::debug_form(track.discord_user_id) + " is invalid"@,
        ),
        Some(user_id) => if user_id == 0 {
            Some(
                "track Discord user ID "@ + text::debug_form(track.discord_user_id)
                    + " is invalid"@,
            )
        } else if previous matches Some(earlier) && user_id <= earlier {
            Some("track manifest entries must be unique and numerically ordered"@)
        } else if !paths::contained(track.path, windows) {
            Some("track path must be relative to and contained by the session directory"@)
        } else if track.path != expected_path(user_id, track.state) {
            Some(
                "track path must be "@ + text::debug_form(expected_path(user_id, track.state))
                    + " for Discord user "@ + text::decimal(user_id as nat),
            )
        } else if context_fault(format, track) is Some {
            context_fault(format, track)
        } else if track.sample_rate != SAMPLE_RATE || track.channels != CHANNELS
            || track.bits_per_sample != BITS_PER_SAMPLE || track.start_sample != 0 {
            Some("track audio description does not match routine FLAC format"@)
        } else {
            ending_fault(track)
        },
    }
}

/// The first thing wrong with the tracks of a manifest, in order.
pub open spec fn tracks_fault(format: u16, tracks: Seq<TrackView>, windows: bool) -> Option<
    Seq<char>,
>
    decreases tracks.len(),
{
    if tracks.len() == 0 {
        None
    } else {
        match tracks_fault(format, tracks.drop_last(), windows) {
            Some(fault) => Some(fault),
            None => track_fault(
                format,
                if tracks.len() > 1 {
                    tracks[tracks.len() - 2].numeric_id()
                } else {
                    None
                },
                tracks.last(),
                windows,
            ),
        }
    }
}

impl ManifestView {
    pub open spec fn fault(self, windows: bool) -> Option<Seq<char>> {
        if self.format != LEGACY_TRACK_MANIFEST_FORMAT_VERSION && self.format
            != TRACK_MANIFEST_FORMAT_VERSION {
            Some(
                "unsupported track manifest format "@ + text::decimal(self.format as nat)
                    + "; expected "@ + text::decimal(LEGACY_TRACK_MANIFEST_FORMAT_VERSION as nat)
                    + " or "@ + text::decimal(TRACK_MANIFEST_FORMAT_VERSION as nat),
            )
        } else if text::blank(self.session_id) {
            Some("track manifest session_id must not be empty"@)
        } else {
            tracks_fault(self.format, self.tracks, windows)
        }
    }

    /// A manifest without fault.
    pub open spec fn valid(self, windows: bool) -> bool {
        self.fault(windows) is None
    }

    /// Every track is filed under a number, in strictly increasing order.
    pub open spec fn numbered(self) -> bool {
        &&& forall|i: int|
            0 <= i < self.tracks.len() ==> (#[trigger] self.tracks[i]).numeric_id() is Some
                && self.tracks[i].numeric_id() != Some(0u64)
        &&& forall|i: int, j: int|
            0 <= i < j < self.tracks.len() ==> (#[trigger] self.tracks[i]).numeric_id()->0 < (
            #[trigger] self.tracks[j]).numeric_id()->0
    }
}

proof fn lemma_tracks_fault_stops(
    format: u16,
    tracks: Seq<TrackView>,
    windows: bool,
    count: int,
)
    requires
        0 <= count <= tracks.len(),
        tracks_fault(format, tracks.take(count), windows) is Some,
    ensures
        tracks_fault(format, tracks, windows) == tracks_fault(format, tracks.take(count), windows),
    decreases tracks.len(),
{
    if count == tracks.len() {
        assert(tracks.take(count) =~= tracks);
    } else {
        assert(tracks.drop_last().take(count) =~= tracks.take(count));
        lemma_tracks_fault_stops(format, tracks.drop_last(), windows, count);
    }
}

proof fn lemma_sound_tracks(format: u16, tracks: Seq<TrackView>, windows: bool, index: int)
    requires
        tracks_fault(format, tracks, windows) is None,
        0 <= index < tracks.len(),
    ensures
        track_fault(
            format,
            if index > 0 {
                tracks[index - 1].numeric_id()
            } else {
                None
            },
            tracks[index],
            windows,
        ) is None,
    decreases tracks.len(),
{
    let shorter = tracks.drop_last();
    if index < shorter.len() {
        lemma_sound_tracks(format, shorter, windows, index);
    }
}

proof fn lemma_sound_track(format: u16, previous: Option<u64>, track: TrackView, windows: bool)
    requires
        track_fault(format, previous, track, windows) is None,
    ensures
        track.numeric_id() is Some,
        track.numeric_id() != Some(0u64),
        previous matches Some(earlier) ==> earlier < track.numeric_id()->0,
        paths::contained(track.path, windows),
        track.path == expected_path(track.numeric_id()->0, track.state),
{
}

proof fn lemma_tracks_ascend(
    format: u16,
    tracks: Seq<TrackView>,
    windows: bool,
    earlier: int,
    later: int,
)
    requires
        tracks_fault(format, tracks, windows) is None,
        0 <= earlier < later < tracks.len(),
    ensures
        tracks[earlier].numeric_id()->0 < tracks[later].numeric_id()->0,
    decreases later,
{
    lemma_sound_tracks(format, tracks, windows, later);
    lemma_sound_track(format, tracks[later - 1].numeric_id(), tracks[later], windows);
    lemma_sound_tracks(format, tracks, windows, later - 1);
    lemma_sound_track(
        format,
        if later - 1 > 0 {
            tracks[later - 2].numeric_id()
        } else {
            None
        },
        tracks[later - 1],
        windows,
    );
    if earlier < later - 1 {
        lemma_tracks_ascend(format, tracks, windows, earlier, later - 1);
    }
}

/// A valid manifest lists its users once each, under non-zero numbers in
/// increasing order, and every track lies where its user and state put it.
pub proof fn valid_manifest_is_numbered(manifest: ManifestView, windows: bool)
    requires
        manifest.valid(windows),
    ensures
        manifest.numbered(),
        forall|i: int|
            0 <= i < manifest.tracks.len() ==> (#[trigger] manifest.tracks[i]).path
                == expected_path(manifest.tracks[i].numeric_id()->0, manifest.tracks[i].state),
        forall|i: int|
            0 <= i < manifest.tracks.len() ==> paths::contained(
                (#[trigger] manifest.tracks[i]).path,
                windows,
            ),
{
    let tracks = manifest.tracks;
    assert forall|i: int| 0 <= i < tracks.len() implies (#[trigger] tracks[i]).numeric_id() is Some
        && tracks[i].numeric_id() != Some(0u64) && paths::contained(tracks[i].path, windows)
        && tracks[i].path == expected_path(tracks[i].numeric_id()->0, tracks[i].state) by {
        lemma_sound_tracks(manifest.format, tracks, windows, i);
        lemma_sound_track(
            manifest.format,
            if i > 0 {
                tracks[i - 1].numeric_id()
            } else {
                None
            },
            tracks[i],
            windows,
        );
    }
    assert forall|i: int, j: int| 0 <= i < j < tracks.len() implies (
    #[trigger] tracks[i]).numeric_id()->0 < (#[trigger] tracks[j]).numeric_id()->0 by {
        lemma_tracks_ascend(manifest.format, tracks, windows, i, j);
    }
}

impl TrackManifest {
    /// A format-1 manifest of some tracks.
    pub fn new(session_id: String, tracks: Vec<TrackDescription>) -> (manifest: TrackManifest)
        requires
            forall|i: int|
                0 <= i < tracks@.len() ==> (#[trigger] tracks@[i]).deep_view().numeric_id() is Some,
        ensures
            manifest.format == LEGACY_TRACK_MANIFEST_FORMAT_VERSION,
            manifest.session_id@ == session_id@,
            order::orders(manifest.tracks@, tracks@),
            manifest.tracks@.len() == tracks@.len(),
    {
        Self::new_with_format(LEGACY_TRACK_MANIFEST_FORMAT_VERSION, session_id, tracks)
    }

    /// A manifest of some tracks, put in the numeric order of their users.
    pub fn new_with_format(
        format: u16,
        session_id: String,
        tracks: Vec<TrackDescription>,
    ) -> (manifest: TrackManifest)
        requires
            forall|i: int|
                0 <= i < tracks@.len() ==> (#[trigger] tracks@[i]).deep_view().numeric_id() is Some,
        ensures
            manifest.format == format,
            manifest.session_id@ == session_id@,
            order::orders(manifest.tracks@, tracks@),
            manifest.tracks@.len() == tracks@.len(),
    {
        TrackManifest { format, session_id, tracks: order::sort(tracks) }
    }

    /// Check a manifest before it is published and after it is read.
    pub fn validate(&self, windows: bool) -> (result: Result<(), ManifestError>)
        ensures
            checked(result) == unless_faulty((), self.deep_view().fault(windows)),
    {
        if self.format != LEGACY_TRACK_MANIFEST_FORMAT_VERSION && self.format
            != TRACK_MANIFEST_FORMAT_VERSION {
            return Err(
                invalid_data(
                    "unsupported track manifest format ".to_owned().concat(
                        text::decimal_text(self.format as u64).as_str(),
                    ).concat("; expected ").concat(
                        text::decimal_text(LEGACY_TRACK_MANIFEST_FORMAT_VERSION as u64).as_str(),
                    ).concat(" or ").concat(
                        text::decimal_text(TRACK_MANIFEST_FORMAT_VERSION as u64).as_str(),
                    ),
                ),
            );
        }
        if text::is_blank(self.session_id.as_str()) {
            return Err(invalid_data("track manifest session_id must not be empty".to_owned()));
        }
        let ghost views = self.tracks.deep_view();
        let mut previous_user_id: Option<u64> = None;
        let mut index: usize = 0;
        assert(views.take(0) =~= Seq::<TrackView>::empty());
        while index < self.tracks.len()
            invariant
                index <= self.tracks.len(),
                self.format == LEGACY_TRACK_MANIFEST_FORMAT_VERSION || self.format
                    == TRACK_MANIFEST_FORMAT_VERSION,
                !text::blank(self.session_id@),
                views == self.tracks.deep_view(),
                tracks_fault(self.format, views.take(index as int), windows) is None,
                previous_user_id == if index > 0 {
                    views[index - 1].numeric_id()
                } else {
                    None
                },
            decreases self.tracks.len() - index,
        {
            let track = &self.tracks[index];
            proof {
                let longer = views.take(index + 1);
                assert(longer.drop_last() =~= views.take(index as int));
                assert(longer.last() == track.deep_view());
                if index > 0 {
                    assert(longer[longer.len() - 2] == views[index - 1]);
                }
            }
            match validate_track(self.format, previous_user_id, track, windows) {
                Err(fault) => {
                    proof {
                        lemma_tracks_fault_stops(self.format, views, windows, index + 1);
                    }
                    return Err(fault);
                },
                Ok(user_id) => {
                    previous_user_id = Some(user_id);
                },
            }
            index = index + 1;
        }
        assert(views.take(views.len() as int) =~= views);
        Ok(())
    }

    /// Take in a manifest from what its document parses as. It is valid, or it
    /// is refused.
    pub fn read(parsed: Result<TrackManifest, Failure>, windows: bool) -> (manifest: Result<
        TrackManifest,
        ManifestError,
    >)
        ensures
            match parsed {
                Err(cause) => checked(manifest) == Err::<ManifestView, (ErrorKind, Seq<char>)>(
                    (ErrorKind::Other, cause@),
                ),
                Ok(parsed) => checked(manifest) == unless_faulty(
                    parsed.deep_view(),
                    parsed.deep_view().fault(windows),
                ),
            },
    {
        let manifest = match parsed {
            Err(failure) => {
                return Err(ManifestError { kind: ErrorKind::Other, failure });
            },
            Ok(manifest) => manifest,
        };
        match manifest.validate(windows) {
            Err(error) => Err(error),
            Ok(_) => Ok(manifest),
        }
    }
}

/// Check one track that follows a track of a given user, and read its user.
fn validate_track(
    format: u16,
    previous: Option<u64>,
    track: &TrackDescription,
    windows: bool,
) -> (result: Result<u64, ManifestError>)
    ensures
        checked(result) == unless_faulty(
            track.deep_view().numeric_id()->0,
            track_fault(format, previous, track.deep_view(), windows),
        ),
{
    let user_id: u64 = match text::parse_u64(track.discord_user_id.as_str()) {
        Some(id) if id != 0 => id,
        _ => {
            return Err(
                invalid_data(
                    "track Discord user ID ".to_owned().concat(
                        text::debug_text(track.discord_user_id.as_str()).as_str(),
                    ).concat(" is invalid"),
                ),
            );
        },
    };
    match previous {
        Some(earlier) => {
            if user_id <= earlier {
                return Err(
                    invalid_data("track manifest entries must be unique and numerically ordered".to_owned()),
                );
            }
        },
        None => {},
    }
    match validate_relative_path(track.path.as_str(), windows) {
        Err(fault) => {
            return Err(fault);
        },
        Ok(_) => {},
    }
    let expected = expected_path_text(user_id, track.state);
    if track.path != expected {
        return Err(
            invalid_data(
                "track path must be ".to_owned().concat(
                    text::debug_text(expected.as_str()).as_str(),
                ).concat(" for Discord user ").concat(text::decimal_text(user_id).as_str()),
            ),
        );
    }
    match validate_context(format, track) {
        Err(fault) => {
            return Err(fault);
        },
        Ok(_) => {},
    }
    if track.sample_rate != SAMPLE_RATE || track.channels != CHANNELS || track.bits_per_sample
        != BITS_PER_SAMPLE || track.start_sample != 0 {
        return Err(
            invalid_data("track audio description does not match routine FLAC format".to_owned()),
        );
    }
    match validate_ending(track) {
        Err(fault) => Err(fault),
        Ok(_) => Ok(user_id),
    }
}

fn validate_context(format: u16, track: &TrackDescription) -> (result: Result<(), ManifestError>)
    ensures
        checked(result) == unless_faulty((), context_fault(format, track.deep_view())),
{
    if text::is_blank(track.display_name.as_str()) {
        return Err(invalid_data("track display_name must not be empty".to_owned()));
    }
    if format == LEGACY_TRACK_MANIFEST_FORMAT_VERSION && !text::same_text(
        track.role.as_str(),
        "player",
    ) && !text::same_text(track.role.as_str(), "gm") {
        return Err(invalid_data("format-1 track role must be player or gm".to_owned()));
    }
    if text::is_blank(track.role.as_str()) || !text::is_single_line(track.role.as_str()) {
        return Err(invalid_data("track role must be non-empty single-line text".to_owned()));
    }
    match &track.character {
        Some(character) => {
            if text::is_blank(character.as_str()) {
                return Err(invalid_data("track character must not be empty".to_owned()));
            }
            if format == TRACK_MANIFEST_FORMAT_VERSION {
                return Err(
                    invalid_data("format-2 track manifest must not contain character metadata".to_owned()),
                );
            }
        },
        None => {},
    }
    Ok(())
}

fn validate_ending(track: &TrackDescription) -> (result: Result<(), ManifestError>)
    ensures
        checked(result) == unless_faulty((), ending_fault(track.deep_view())),
{
    match track.state {
        TrackState::Complete => {
            if track.abandonment_reason.is_some() || track.last_contiguous_sample.is_some() {
                return Err(
                    invalid_data("complete track must use .flac without abandonment fields".to_owned()),
                );
            }
        },
        TrackState::Incomplete => {
            let reason_given = match &track.abandonment_reason {
                Some(reason) => !reason.as_str().is_empty(),
                None => false,
            };
            let fully_contiguous = match track.last_contiguous_sample {
                Some(sample) => sample == track.length_samples,
                None => false,
            };
            if !reason_given || !fully_contiguous {
                return Err(
                    invalid_data("incomplete track must use .flac.part with abandonment details".to_owned()),
                );
            }
        },
    }
    Ok(())
}

/// Refuse a track path that does not stay within the session directory.
pub fn validate_relative_path(value: &str, windows: bool) -> (result: Result<(), ManifestError>)
    ensures
        checked(result) == (if paths::contained(value@, windows) {
            Ok::<(), (ErrorKind, Seq<char>)>(())
        } else {
            Err(
                (
                    ErrorKind::InvalidData,
                    "track path must be relative to and contained by the session directory"@,
                ),
            )
        }),
{
    if paths::is_contained(value, windows) {
        Ok(())
    } else {
        Err(
            invalid_data("track path must be relative to and contained by the session directory".to_owned()),
        )
    }
}

/// The refusal of malformed manifest data.
pub fn invalid_data(message: String) -> (refusal: ManifestError)
    ensures
        refusal@ == (ErrorKind::InvalidData, message@),
{
    ManifestError { kind: ErrorKind::InvalidData, failure: Failure::new(message) }
}

} // verus!
