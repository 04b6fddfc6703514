//! EchoScribe's verified core: the rules by which a recorded Discord session
//! is inspected, recovered, divided into transcription work, transcribed and
//! published.

pub mod artefact_laws;
pub mod artifacts;
pub mod audio;
pub mod authority_laws;
pub mod candidate_ranges;
pub mod clock;
pub mod command;
pub mod continuation;
pub mod continuation_laws;
pub mod entry_laws;
pub mod event_inspection;
pub mod failure;
pub mod flow_laws;
pub mod inspect;
pub mod journal_laws;
pub mod json;
pub mod operation_lease;
pub mod orchestration;
pub mod order;
pub mod packet_inspection;
pub mod participant_policy;
pub mod participants;
pub mod paths;
pub mod playout_inspection;
pub mod range_laws;
pub mod recording;
pub mod records;
pub mod refusal_laws;
pub mod report_laws;
pub mod results;
pub mod resume;
pub mod retranscription;
pub mod session;
pub mod snapshot_text;
pub mod stage;
pub mod stream_laws;
pub mod text;
pub mod text_laws;
pub mod track_manifest;
pub mod transcript_laws;
pub mod transcription;
pub mod transcription_flow;
pub mod verify_tracks;
pub mod vocabulary;
pub mod voice;
pub mod work_authority;
pub mod worker;
pub mod work_items;
