//! Explicit full-decode verification for routine FLAC tracks.
//!
//! The decoder's work is performed one action at a time; which track is due,
//! and whether what was decoded is the track on record, is decided here. No
//! audio is regenerated and no workflow state changes.

use vstd::prelude::*;

use crate::failure;
use crate::failure::Failure;
use crate::session::SessionRecord;
use crate::text;
use crate::track_manifest::{TrackDescription, TrackManifest, TrackState, TrackView};
use crate::work_authority;

verus! {

/// How many samples are decoded at a time.
pub const DECODE_BUFFER_SAMPLES: usize = 16384;

/// The action that is due for the current track.
#[derive(Clone, Copy, Debug, PartialEq, Eq, Structural)]
pub enum Step {
    /// Decode the file and compare its audio with the digest it carries.
    DecodeVerify,
    /// Open the file for decoding.
    Open,
    /// Decode further samples.
    Read,
    /// Every track is verified.
    Finished,
    /// Verification has failed.
    Stopped,
}

/// What decoding a file says of the digest it carries.
#[derive(Clone, Copy, Debug, PartialEq, Eq, Structural)]
pub enum Integrity {
    Match,
    Mismatch,
    Missing,
}

/// What a file says of its own stream.
#[derive(Clone, Copy, Debug, PartialEq, Eq, Structural)]
pub struct StreamFormat {
    pub sample_rate: u32,
    pub channels: u8,
    pub bits_per_sample: u32,
}

/// What came of the action that was due.
#[derive(Debug)]
pub enum Event {
    Decoded(Integrity),
    Opened(StreamFormat),
    /// So many samples were decoded; none, at the end of the stream.
    Samples(u64),
    Failed(Failure),
}

pub enum EventView {
    Decoded(Integrity),
    Opened(StreamFormat),
    Samples(u64),
    Failed(Seq<char>),
}

impl DeepView for Event {
    type V = EventView;

    open spec fn deep_view(&self) -> EventView {
        match self {
            Event::Decoded(integrity) => EventView::Decoded(*integrity),
            Event::Opened(format) => EventView::Opened(*format),
            Event::Samples(count) => EventView::Samples(*count),
            Event::Failed(cause) => EventView::Failed(cause@),
        }
    }
}

/// A verification of the tracks of a manifest.
#[derive(Debug)]
pub struct Verification {
    tracks: Vec<TrackDescription>,
    locations: Vec<String>,
    step: Step,
    position: usize,
    decoded_samples: u64,
    verified_tracks: u64,
    incomplete_users: Vec<String>,
    report: Failure,
}

pub struct VerificationView {
    pub tracks: Seq<TrackView>,
    /// Where each track lies, as it is shown to the operator.
    pub locations: Seq<Seq<char>>,
    pub step: Step,
    /// The track that is due.
    pub position: nat,
    pub decoded_samples: u64,
    pub verified_tracks: nat,
    pub incomplete_users: Seq<Seq<char>>,
    pub report: Seq<char>,
}

impl DeepView for Verification {
    type V = VerificationView;

    closed spec fn deep_view(&self) -> VerificationView {
        VerificationView {
            tracks: self.tracks.deep_view(),
            locations: self.locations.deep_view(),
            step: self.step,
            position: self.position as nat,
            decoded_samples: self.decoded_samples,
            verified_tracks: self.verified_tracks as nat,
            incomplete_users: self.incomplete_users.deep_view(),
            report: self.report@,
        }
    }
}

/// Whether a file holds the kind of audio that its track describes.
pub open spec fn format_matches(format: StreamFormat, track: TrackView) -> bool {
    format.sample_rate == track.sample_rate && format.channels as int == track.channels
        && format.bits_per_sample as int == track.bits_per_sample
}

impl VerificationView {
    /// Every track before the current one is verified or found incomplete, and
    /// while there is something to do the current one is complete.
    pub open spec fn wf(self) -> bool {
        &&& self.locations.len() == self.tracks.len() <= u64::MAX
        &&& self.position <= self.tracks.len()
        &&& self.incomplete_users == work_authority::incomplete_users(
            self.tracks.take(self.position as int),
        )
        &&& self.verified_tracks + self.incomplete_users.len() == self.position
        &&& self.step == Step::DecodeVerify || self.step == Step::Open || self.step == Step::Read
            ==> self.position < self.tracks.len() && self.tracks[self.position as int].state
            == TrackState::Complete
        &&& self.step == Step::Finished ==> self.position == self.tracks.len()
            && self.incomplete_users.len() == 0
    }

    pub open spec fn track(self) -> TrackView {
        self.tracks[self.position as int]
    }

    pub open spec fn location(self) -> Seq<char> {
        self.locations[self.position as int]
    }

    pub open spec fn stopped(self, report: Seq<char>) -> VerificationView {
        VerificationView { step: Step::Stopped, report, ..self }
    }

    /// Turn to the next complete track; where there is none, the verification
    /// ends, well if none was incomplete.
    pub open spec fn sought(self) -> VerificationView
        decreases self.tracks.len() - self.position,
    {
        if self.position >= self.tracks.len() {
            if self.incomplete_users.len() > 0 {
                self.stopped(
                    "cannot verify an incomplete recording: tracks for Discord users "@
                        + text::joined(self.incomplete_users, ", "@) + " require recovery"@,
                )
            } else {
                VerificationView { step: Step::Finished, ..self }
            }
        } else if self.track().state == TrackState::Incomplete {
            VerificationView {
                position: self.position + 1,
                incomplete_users: self.incomplete_users.push(self.track().discord_user_id),
                ..self
            }.sought()
        } else {
            VerificationView { step: Step::DecodeVerify, ..self }
        }
    }

    pub open spec fn answers(self, event: EventView) -> bool {
        match event {
            EventView::Decoded(_) => self.step == Step::DecodeVerify,
            EventView::Opened(_) => self.step == Step::Open,
            EventView::Samples(_) => self.step == Step::Read,
            EventView::Failed(_) => self.step == Step::DecodeVerify || self.step == Step::Open
                || self.step == Step::Read,
        }
    }

    /// The verification after an event.
    pub open spec fn after(self, event: EventView) -> VerificationView {
        match event {
            EventView::Decoded(integrity) => match integrity {
                Integrity::Match => VerificationView { step: Step::Open, ..self },
                Integrity::Mismatch => self.stopped(
                    "FLAC PCM MD5 verification failed for "@ + self.location(),
                ),
                Integrity::Missing => self.stopped("FLAC has no PCM MD5 for "@ + self.location()),
            },
            EventView::Opened(format) => if format_matches(format, self.track()) {
                VerificationView { step: Step::Read, decoded_samples: 0, ..self }
            } else {
                self.stopped(
                    "FLAC stream format does not match tracks.json for "@ + self.location(),
                )
            },
            EventView::Samples(count) => if count > 0 {
                if self.decoded_samples + count > u64::MAX {
                    self.stopped("decoded sample count overflow"@)
                } else {
                    VerificationView {
                        decoded_samples: (self.decoded_samples + count) as u64,
                        ..self
                    }
                }
            } else if self.decoded_samples != self.track().length_samples {
                self.stopped(
                    "decoded "@ + text::decimal(self.decoded_samples as nat) + " samples from "@
                        + self.location() + ", but tracks.json records "@ + text::decimal(
                        self.track().length_samples as nat,
                    ),
                )
            } else {
                VerificationView {
                    position: self.position + 1,
                    verified_tracks: self.verified_tracks + 1,
                    ..self
                }.sought()
            },
            EventView::Failed(cause) => self.stopped(
                failure::because(
                    (if self.step == Step::DecodeVerify {
                        "failed to decode-verify "@
                    } else if self.step == Step::Open {
                        "failed to open "@
                    } else {
                        "failed while decoding "@
                    }) + self.location(),
                    cause,
                ),
            ),
        }
    }

    /// What is reported of a track that an event completes.
    pub open spec fn line(self, event: EventView) -> Option<Seq<char>> {
        if event == EventView::Samples(0) && self.decoded_samples == self.track().length_samples {
            Some(
                "Verified routine FLAC for Discord user "@ + self.track().discord_user_id + ": "@
                    + text::decimal(self.decoded_samples as nat)
                    + " samples, PCM MD5 matched."@,
            )
        } else {
            None
        }
    }
}

proof fn lemma_incomplete_users_grow(tracks: Seq<TrackView>, position: int)
    requires
        0 <= position < tracks.len(),
    ensures
        work_authority::incomplete_users(tracks.take(position + 1)) == (if tracks[position].state
            == TrackState::Complete {
            work_authority::incomplete_users(tracks.take(position))
        } else {
            work_authority::incomplete_users(tracks.take(position)).push(
                tracks[position].discord_user_id,
            )
        }),
{
    assert(tracks.take(position + 1).drop_last() =~= tracks.take(position));
    assert(tracks.take(position + 1).last() == tracks[position]);
}

/// Whether a manifest is that of the session, and where the verification of its
/// tracks starts.
pub open spec fn begun(
    session_id: Seq<char>,
    manifest_session_id: Seq<char>,
    tracks: Seq<TrackView>,
    locations: Seq<Seq<char>>,
) -> Result<VerificationView, Seq<char>> {
    if manifest_session_id != session_id {
        Err(
            "track manifest session ID "@ + text::debug_form(manifest_session_id)
                + " does not match session record "@ + text::debug_form(session_id),
        )
    } else {
        Ok(at_start(tracks, locations).sought())
    }
}

pub open spec fn at_start(tracks: Seq<TrackView>, locations: Seq<Seq<char>>) -> VerificationView {
    VerificationView {
        tracks,
        locations,
        step: Step::DecodeVerify,
        position: 0,
        decoded_samples: 0,
        verified_tracks: 0,
        incomplete_users: Seq::empty(),
        report: Seq::empty(),
    }
}

/// Start to verify the tracks of a session.
pub fn run(record: &SessionRecord, manifest: TrackManifest, locations: Vec<String>) -> (verification:
    Result<Verification, Failure>)
    requires
        locations@.len() == manifest.tracks@.len(),
    ensures
        failure::outcome(verification) == begun(
            record.session_id@,
            manifest.session_id@,
            manifest.tracks.deep_view(),
            locations.deep_view(),
        ),
        verification matches Ok(started) ==> started.deep_view().wf(),
{
    if !text::same_text(manifest.session_id.as_str(), record.session_id.as_str()) {
        return Err(
            Failure::new(
                "track manifest session ID ".to_owned().concat(
                    text::debug_text(manifest.session_id.as_str()).as_str(),
                ).concat(" does not match session record ").concat(
                    text::debug_text(record.session_id.as_str()).as_str(),
                ),
            ),
        );
    }
    Ok(verify_complete_manifest(manifest, locations))
}

/// Start to verify every track that a manifest describes as complete.
pub fn verify_complete_manifest(manifest: TrackManifest, locations: Vec<String>) -> (verification:
    Verification)
    requires
        locations@.len() == manifest.tracks@.len(),
    ensures
        verification.deep_view() == at_start(
            manifest.tracks.deep_view(),
            locations.deep_view(),
        ).sought(),
        verification.deep_view().wf(),
{
    let mut verification = Verification {
        tracks: manifest.tracks,
        locations,
        step: Step::DecodeVerify,
        position: 0,
        decoded_samples: 0,
        verified_tracks: 0,
        incomplete_users: Vec::new(),
        report: Failure::new(String::new()),
    };
    proof {
        let start = verification.deep_view();
        assert(start.incomplete_users =~= Seq::empty());
        assert(start.tracks.take(0) =~= Seq::empty());
        assert(start == at_start(manifest.tracks.deep_view(), locations.deep_view()));
    }
    verification.seek();
    verification
}

impl Verification {
    /// The action that is due.
    pub fn step(&self) -> (step: Step)
        ensures
            step == self.deep_view().step,
    {
        self.step
    }

    /// The track that is due.
    pub fn position(&self) -> (position: usize)
        ensures
            position == self.deep_view().position,
    {
        self.position
    }

    fn stop(&mut self, report: Failure)
        ensures
            final(self).deep_view() == old(self).deep_view().stopped(report@),
    {
        self.report = report;
        self.step = Step::Stopped;
    }

    fn seek(&mut self)
        requires
            ({
                let before = old(self).deep_view();
                &&& before.locations.len() == before.tracks.len()
                &&& before.position <= before.tracks.len()
                &&& before.incomplete_users == work_authority::incomplete_users(
                    before.tracks.take(before.position as int),
                )
                &&& before.verified_tracks + before.incomplete_users.len() == before.position
            }),
        ensures
            final(self).deep_view() == old(self).deep_view().sought(),
            final(self).deep_view().wf(),
    {
        let ghost goal = self.deep_view().sought();
        while self.position < self.tracks.len() && self.tracks[self.position].state
            == TrackState::Incomplete
            invariant
                self.deep_view().sought() == goal,
                self.locations@.len() == self.tracks@.len(),
                self.position <= self.tracks@.len(),
                self.deep_view().incomplete_users == work_authority::incomplete_users(
                    self.deep_view().tracks.take(self.position as int),
                ),
                self.verified_tracks + self.incomplete_users@.len() == self.position,
            decreases self.tracks@.len() - self.position,
        {
            let ghost before = self.deep_view();
            proof {
                lemma_incomplete_users_grow(before.tracks, before.position as int);
            }
            let user = self.tracks[self.position].discord_user_id.clone();
            self.incomplete_users.push(user);
            self.position = self.position + 1;
            proof {
                assert(self.deep_view().incomplete_users =~= before.incomplete_users.push(
                    before.track().discord_user_id,
                ));
                assert(self.deep_view() == VerificationView {
                    position: before.position + 1,
                    incomplete_users: before.incomplete_users.push(before.track().discord_user_id),
                    ..before
                });
            }
        }
        if self.position < self.tracks.len() {
            self.step = Step::DecodeVerify;
        } else if self.incomplete_users.len() > 0 {
            let report = "cannot verify an incomplete recording: tracks for Discord users ".to_owned().concat(
            text::join(&self.incomplete_users, ", ").as_str()).concat(" require recovery");
            self.stop(Failure::new(report));
        } else {
            self.step = Step::Finished;
        }
    }

    /// Take in what came of the action that was due, and report the track that
    /// it completed, if any.
    pub fn observe(&mut self, event: Event) -> (line: Option<String>)
        requires
            old(self).deep_view().wf(),
            old(self).deep_view().answers(event.deep_view()),
        ensures
            final(self).deep_view() == old(self).deep_view().after(event.deep_view()),
            final(self).deep_view().wf(),
            line.deep_view() == old(self).deep_view().line(event.deep_view()),
    {
        let track = &self.tracks[self.position];
        let location = self.locations[self.position].as_str();
        match event {
            Event::Decoded(integrity) => {
                match integrity {
                    Integrity::Match => {
                        self.step = Step::Open;
                    },
                    Integrity::Mismatch => {
                        let report = "FLAC PCM MD5 verification failed for ".to_owned().concat(
                            location,
                        );
                        self.stop(Failure::new(report));
                    },
                    Integrity::Missing => {
                        let report = "FLAC has no PCM MD5 for ".to_owned().concat(location);
                        self.stop(Failure::new(report));
                    },
                }
                None
            },
            Event::Opened(format) => {
                if format.sample_rate != track.sample_rate || format.channels as u16
                    != track.channels || format.bits_per_sample != track.bits_per_sample as u32 {
                    let report = "FLAC stream format does not match tracks.json for ".to_owned().concat(
                    location);
                    self.stop(Failure::new(report));
                } else {
                    self.decoded_samples = 0;
                    self.step = Step::Read;
                }
                None
            },
            Event::Samples(count) => {
                if count > 0 {
                    match self.decoded_samples.checked_add(count) {
                        None => {
                            self.stop(Failure::from_text("decoded sample count overflow"));
                        },
                        Some(total) => {
                            self.decoded_samples = total;
                        },
                    }
                    None
                } else if self.decoded_samples != track.length_samples {
                    let report = "decoded ".to_owned().concat(
                        text::decimal_text(self.decoded_samples).as_str(),
                    ).concat(" samples from ").concat(location).concat(
                        ", but tracks.json records ",
                    ).concat(text::decimal_text(track.length_samples).as_str());
                    self.stop(Failure::new(report));
                    None
                } else {
                    let line = "Verified routine FLAC for Discord user ".to_owned().concat(
                        track.discord_user_id.as_str(),
                    ).concat(": ").concat(text::decimal_text(self.decoded_samples).as_str()).concat(
                        " samples, PCM MD5 matched.",
                    );
                    proof {
                        let before = self.deep_view();
                        lemma_incomplete_users_grow(before.tracks, before.position as int);
                        assert(self.position < self.tracks.len());
                    }
                    self.verified_tracks = self.verified_tracks + 1;
                    self.position = self.position + 1;
                    self.seek();
                    Some(line)
                }
            },
            Event::Failed(cause) => {
                let action = match self.step {
                    Step::DecodeVerify => "failed to decode-verify ",
                    Step::Open => "failed to open ",
                    _ => "failed while decoding ",
                };
                let report = Failure::caused(action.to_owned().concat(location), &cause);
                self.stop(report);
                None
            },
        }
    }

    /// What a verification that has ended came to: the number of tracks
    /// verified, or why they were not.
    pub fn conclude(self) -> (result: Result<u64, Failure>)
        requires
            self.deep_view().step == Step::Finished || self.deep_view().step == Step::Stopped,
        ensures
            match result {
                Ok(count) => self.deep_view().step == Step::Finished && count
                    == self.deep_view().verified_tracks,
                Err(refusal) => self.deep_view().step == Step::Stopped && refusal@
                    == self.deep_view().report,
            },
    {
        if self.step == Step::Finished {
            Ok(self.verified_tracks)
        } else {
            Err(self.report)
        }
    }
}

/// What is reported once every track of a session is verified.
pub fn verified_report(verified_tracks: u64, session_id: &str) -> (report: String)
    ensures
        report@ == "Verified "@ + text::decimal(verified_tracks as nat)
            + " routine FLAC track(s) for session "@ + session_id@ + "."@,
{
    "Verified ".to_owned().concat(text::decimal_text(verified_tracks).as_str()).concat(
        " routine FLAC track(s) for session ",
    ).concat(session_id).concat(".")
}

proof fn lemma_no_incomplete_users(tracks: Seq<TrackView>)
    requires
        work_authority::incomplete_users(tracks).len() == 0,
    ensures
        forall|i: int|
            0 <= i < tracks.len() ==> (#[trigger] tracks[i]).state == TrackState::Complete,
    decreases tracks.len(),
{
    if tracks.len() > 0 {
        lemma_no_incomplete_users(tracks.drop_last());
        assert forall|i: int| 0 <= i < tracks.len() implies (#[trigger] tracks[i]).state
            == TrackState::Complete by {
            if i < tracks.len() - 1 {
                assert(tracks.drop_last()[i] == tracks[i]);
            }
        }
    }
}

/// A verification ends well only when every track of the manifest is complete
/// and each of them was decoded.
pub proof fn success_verifies_every_track(verification: VerificationView)
    requires
        verification.wf(),
        verification.step == Step::Finished,
    ensures
        verification.verified_tracks == verification.tracks.len(),
        forall|i: int|
            0 <= i < verification.tracks.len() ==> (#[trigger] verification.tracks[i]).state
                == TrackState::Complete,
{
    assert(verification.tracks.take(verification.position as int) =~= verification.tracks);
    lemma_no_incomplete_users(verification.tracks);
}

/// A track counts as verified only when its digest matched, its stream is of
/// the kind on record, and exactly the samples on record were decoded.
pub proof fn tracks_are_verified_in_full(verification: VerificationView, event: EventView)
    requires
        verification.wf(),
        verification.answers(event),
        verification.after(event).verified_tracks > verification.verified_tracks,
    ensures
        verification.step == Step::Read,
        event == EventView::Samples(0),
        verification.decoded_samples == verification.track().length_samples,
{
    lemma_seeking_verifies_nothing(verification);
}

proof fn lemma_seeking_verifies_nothing(verification: VerificationView)
    ensures
        verification.sought().verified_tracks == verification.verified_tracks,
    decreases verification.tracks.len() - verification.position,
{
    if verification.position < verification.tracks.len() && verification.track().state
        == TrackState::Incomplete {
        lemma_seeking_verifies_nothing(
            VerificationView {
                position: verification.position + 1,
                incomplete_users: verification.incomplete_users.push(
                    verification.track().discord_user_id,
                ),
                ..verification
            },
        );
    }
}

/// Samples are counted only behind a matching digest and a matching stream.
pub proof fn decoding_follows_the_digest(verification: VerificationView, event: EventView)
    requires
        verification.wf(),
        verification.answers(event),
    ensures
        verification.after(event).step == Step::Open ==> event == EventView::Decoded(
            Integrity::Match,
        ),
        verification.after(event).step == Step::Read ==> verification.step == Step::Read || (event
            matches EventView::Opened(format) && format_matches(format, verification.track())),
{
    lemma_seeking_turns_to_a_digest(
        VerificationView {
            position: verification.position + 1,
            verified_tracks: verification.verified_tracks + 1,
            ..verification
        },
    );
}

proof fn lemma_seeking_turns_to_a_digest(verification: VerificationView)
    ensures
        verification.sought().step != Step::Open,
        verification.sought().step != Step::Read,
    decreases verification.tracks.len() - verification.position,
{
    if verification.position < verification.tracks.len() && verification.track().state
        == TrackState::Incomplete {
        lemma_seeking_turns_to_a_digest(
            VerificationView {
                position: verification.position + 1,
                incomplete_users: verification.incomplete_users.push(
                    verification.track().discord_user_id,
                ),
                ..verification
            },
        );
    }
}

} // verus!
