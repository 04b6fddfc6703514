//! Canonical names and format versions for session artefacts.
//!
//! Keeping these values central prevents producers, manifests, and readers from
//! silently developing different ideas about the same file.

use vstd::prelude::*;

verus! {

pub const PACKET_JOURNAL_FILE_NAME: &'static str = "packets.dat";

pub const PLAYOUT_JOURNAL_FILE_NAME: &'static str = "playout.dat";

pub const EVENT_JOURNAL_FILE_NAME: &'static str = "events.ndjson";

pub const PARTICIPANT_SNAPSHOT_FILE_NAME: &'static str = "participants.toml";

pub const TRACK_MANIFEST_FILE_NAME: &'static str = "tracks.json";

pub const TRACK_DIRECTORY_NAME: &'static str = "tracks";

pub const TRANSCRIPTION_DIRECTORY_NAME: &'static str = "transcription";

pub const WORK_ITEM_MANIFEST_FILE_NAME: &'static str = "work-items.jsonl";

pub const WORK_ITEM_MANIFEST_PATH: &'static str = "transcription/work-items.jsonl";

pub const TRANSCRIPTION_RESULTS_FILE_NAME: &'static str = "results.jsonl";

pub const TRANSCRIPTION_RESULTS_PATH: &'static str = "transcription/results.jsonl";

pub const PARTIAL_TRANSCRIPT_FILE_NAME: &'static str = "transcript.partial.txt";

pub const FINAL_TRANSCRIPT_PATH: &'static str = "transcription/transcript.txt";

pub const LEGACY_PARTICIPANT_SNAPSHOT_FORMAT_VERSION: u16 = 1;

pub const PARTICIPANT_SNAPSHOT_FORMAT_VERSION: u16 = 2;

pub const LEGACY_TRACK_MANIFEST_FORMAT_VERSION: u16 = 1;

pub const TRACK_MANIFEST_FORMAT_VERSION: u16 = 2;

pub const LEGACY_WORK_ITEM_MANIFEST_FORMAT_VERSION: u16 = 1;

pub const WORK_ITEM_MANIFEST_FORMAT_VERSION: u16 = 2;

pub const LEGACY_TRANSCRIPTION_RESULT_FORMAT_VERSION: u16 = 1;

pub const TRANSCRIPTION_RESULT_FORMAT_VERSION: u16 = 2;

pub const LEGACY_TRANSCRIPT_FORMAT_VERSION: u16 = 1;

pub const TRANSCRIPT_FORMAT_VERSION: u16 = 2;

} // verus!
