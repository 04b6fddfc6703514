//! Participant context and its canonical session snapshots.
//!
//! Discord identity remains gateway evidence. A participant file adds optional
//! speaker context, and its defaults are materialised into an immutable
//! session-local snapshot.

use std::collections::BTreeMap;

use vstd::prelude::*;

use crate::artifacts::LEGACY_PARTICIPANT_SNAPSHOT_FORMAT_VERSION;
use crate::artifacts::PARTICIPANT_SNAPSHOT_FILE_NAME;
use crate::artifacts::PARTICIPANT_SNAPSHOT_FORMAT_VERSION;
use crate::failure;
use crate::failure::Failure;
use crate::order;
use crate::text;

verus! {

broadcast use vstd::std_specs::btree::group_btree_axioms;

pub const DEFAULT_CURRENT_ROLE: &'static str = "participant";

pub const DEFAULT_LEGACY_ROLE: &'static str = "player";

/// A participant file that says nothing of transcription admits it.
pub fn default_transcribe() -> (transcribe: bool)
    ensures
        transcribe,
{
    true
}

/// The role of a participant whose current-format entry names none.
pub fn default_current_role() -> (role: String)
    ensures
        role@ == DEFAULT_CURRENT_ROLE@,
{
    DEFAULT_CURRENT_ROLE.to_owned()
}

/// Which of a speaker's names a transcript shows.
#[derive(Clone, Copy, Debug, PartialEq, Eq, Structural)]
pub enum TranscriptNameSource {
    Discord,
    Name,
}

impl DeepView for TranscriptNameSource {
    type V = TranscriptNameSource;

    open spec fn deep_view(&self) -> TranscriptNameSource {
        *self
    }
}

impl TranscriptNameSource {
    pub open spec fn spec_text(self) -> Seq<char> {
        match self {
            TranscriptNameSource::Discord => "discord"@,
            TranscriptNameSource::Name => "name"@,
        }
    }

    fn text(self) -> (text: &'static str)
        ensures
            text@ == self.spec_text(),
    {
        match self {
            TranscriptNameSource::Discord => "discord",
            TranscriptNameSource::Name => "name",
        }
    }
}

/// The two roles a format-1 participant file knows.
#[derive(Clone, Copy, Debug, PartialEq, Eq, Structural)]
pub enum LegacyParticipantRole {
    Player,
    Gm,
}

impl DeepView for LegacyParticipantRole {
    type V = LegacyParticipantRole;

    open spec fn deep_view(&self) -> LegacyParticipantRole {
        *self
    }
}

impl LegacyParticipantRole {
    pub open spec fn spec_text(self) -> Seq<char> {
        match self {
            LegacyParticipantRole::Player => "player"@,
            LegacyParticipantRole::Gm => "gm"@,
        }
    }

    pub open spec fn spec_parse(value: Seq<char>) -> Option<LegacyParticipantRole> {
        if text::same_ignoring_ascii_case(value, "player"@) {
            Some(LegacyParticipantRole::Player)
        } else if text::same_ignoring_ascii_case(value, "gm"@) {
            Some(LegacyParticipantRole::Gm)
        } else {
            None
        }
    }

    /// Read a role, in whatever case it is written.
    pub fn parse(value: &str) -> (role: Option<LegacyParticipantRole>)
        ensures
            role == LegacyParticipantRole::spec_parse(value@),
    {
        if text::eq_ignore_ascii_case(value, "player") {
            Some(LegacyParticipantRole::Player)
        } else if text::eq_ignore_ascii_case(value, "gm") {
            Some(LegacyParticipantRole::Gm)
        } else {
            None
        }
    }

    fn text(self) -> (text: &'static str)
        ensures
            text@ == self.spec_text(),
    {
        match self {
            LegacyParticipantRole::Player => "player",
            LegacyParticipantRole::Gm => "gm",
        }
    }
}

/// One entry of a format-1 participant file.
#[derive(Debug)]
pub struct LegacyFileParticipant {
    pub character: Option<String>,
    pub role: LegacyParticipantRole,
    pub transcribe: bool,
}

pub struct LegacyFileParticipantView {
    pub character: Option<Seq<char>>,
    pub role: LegacyParticipantRole,
    pub transcribe: bool,
}

impl DeepView for LegacyFileParticipant {
    type V = LegacyFileParticipantView;

    open spec fn deep_view(&self) -> LegacyFileParticipantView {
        LegacyFileParticipantView {
            character: self.character.deep_view(),
            role: self.role,
            transcribe: self.transcribe,
        }
    }
}

/// One entry of a current-format participant file.
#[derive(Debug)]
pub struct CurrentFileParticipant {
    pub name: Option<String>,
    pub role: String,
    pub transcribe: bool,
}

pub struct CurrentFileParticipantView {
    pub name: Option<Seq<char>>,
    pub role: Seq<char>,
    pub transcribe: bool,
}

impl DeepView for CurrentFileParticipant {
    type V = CurrentFileParticipantView;

    open spec fn deep_view(&self) -> CurrentFileParticipantView {
        CurrentFileParticipantView {
            name: self.name.deep_view(),
            role: self.role@,
            transcribe: self.transcribe,
        }
    }
}

/// Validated speaker context keyed by a numeric Discord user ID.
#[derive(Debug)]
pub struct Participant {
    pub discord_user_id: u64,
    pub name: Option<String>,
    /// Retained only when reading a format-1 participant snapshot.
    pub character: Option<String>,
    pub role: String,
    pub transcribe: bool,
}

pub struct ParticipantView {
    pub discord_user_id: u64,
    pub name: Option<Seq<char>>,
    pub character: Option<Seq<char>>,
    pub role: Seq<char>,
    pub transcribe: bool,
}

impl DeepView for Participant {
    type V = ParticipantView;

    open spec fn deep_view(&self) -> ParticipantView {
        ParticipantView {
            discord_user_id: self.discord_user_id,
            name: self.name.deep_view(),
            character: self.character.deep_view(),
            role: self.role@,
            transcribe: self.transcribe,
        }
    }
}

/// Non-empty text on one line, without white space around it.
pub open spec fn plain_field(value: Seq<char>) -> bool {
    value.len() > 0 && text::single_line(value) && text::trimmed(value) == value
}

impl ParticipantView {
    /// Every text that a snapshot quotes for the participant is legible.
    pub open spec fn legible(self) -> bool {
        &&& self.name matches Some(name) ==> legible(name)
        &&& self.character matches Some(character) ==> legible(character)
        &&& legible(self.role)
    }

    /// What a participant file of a format can say of a participant.
    pub open spec fn readable(self, format_version: u16) -> bool {
        &&& self.discord_user_id != 0
        &&& if format_version == LEGACY_PARTICIPANT_SNAPSHOT_FORMAT_VERSION {
            &&& self.name is None
            &&& self.character matches Some(character) ==> plain_field(character)
            &&& self.role == "player"@ || self.role == "gm"@
        } else {
            &&& self.name matches Some(name) ==> plain_field(name)
            &&& self.character is None
            &&& plain_field(self.role)
        }
    }
}

/// The two layouts of a participant file.
#[derive(Clone, Copy, Debug, PartialEq, Eq, Structural)]
pub enum SnapshotLayout {
    Legacy,
    Current,
}

impl DeepView for SnapshotLayout {
    type V = SnapshotLayout;

    open spec fn deep_view(&self) -> SnapshotLayout {
        *self
    }
}

pub open spec fn layout_of(version: u32) -> Result<SnapshotLayout, Seq<char>> {
    if version == LEGACY_PARTICIPANT_SNAPSHOT_FORMAT_VERSION {
        Ok(SnapshotLayout::Legacy)
    } else if version == PARTICIPANT_SNAPSHOT_FORMAT_VERSION {
        Ok(SnapshotLayout::Current)
    } else {
        Err(
            "unsupported participant context version "@ + text::decimal(version as nat)
                + "; expected "@ + text::decimal(
                LEGACY_PARTICIPANT_SNAPSHOT_FORMAT_VERSION as nat,
            ) + " or "@ + text::decimal(PARTICIPANT_SNAPSHOT_FORMAT_VERSION as nat),
        )
    }
}

/// Choose the layout in which a participant file of a version is written.
pub fn snapshot_layout(version: u32) -> (layout: Result<SnapshotLayout, Failure>)
    ensures
        failure::outcome(layout) == layout_of(version),
{
    if version == LEGACY_PARTICIPANT_SNAPSHOT_FORMAT_VERSION as u32 {
        Ok(SnapshotLayout::Legacy)
    } else if version == PARTICIPANT_SNAPSHOT_FORMAT_VERSION as u32 {
        Ok(SnapshotLayout::Current)
    } else {
        let message = "unsupported participant context version ".to_owned().concat(
            text::decimal_text(version as u64).as_str(),
        ).concat("; expected ").concat(
            text::decimal_text(LEGACY_PARTICIPANT_SNAPSHOT_FORMAT_VERSION as u64).as_str(),
        ).concat(" or ").concat(
            text::decimal_text(PARTICIPANT_SNAPSHOT_FORMAT_VERSION as u64).as_str(),
        );
        Err(Failure::new(message))
    }
}

pub open spec fn required_text(user_id: Seq<char>, field: Seq<char>, value: Seq<char>) -> Result<
    Seq<char>,
    Seq<char>,
> {
    let kept = text::trimmed(value);
    if kept.len() == 0 || !text::single_line(kept) {
        Err(
            "participant "@ + user_id + " "@ + field + " must be non-empty single-line text"@,
        )
    } else {
        Ok(kept)
    }
}

pub open spec fn optional_text(
    user_id: Seq<char>,
    field: Seq<char>,
    value: Option<Seq<char>>,
) -> Result<Option<Seq<char>>, Seq<char>> {
    match value {
        None => Ok(None),
        Some(value) => match required_text(user_id, field, value) {
            Ok(kept) => Ok(Some(kept)),
            Err(message) => Err(message),
        },
    }
}

/// A field that must be non-empty single-line text once trimmed.
pub fn validate_required_text(user_id: &str, field: &str, value: String) -> (kept: Result<
    String,
    Failure,
>)
    ensures
        failure::outcome(kept) == required_text(user_id@, field@, value@),
{
    let trimmed = text::trim(value.as_str());
    if trimmed.is_empty() || !text::is_single_line(trimmed) {
        let message = "participant ".to_owned().concat(user_id).concat(" ").concat(field).concat(
            " must be non-empty single-line text",
        );
        Err(Failure::new(message))
    } else {
        Ok(trimmed.to_owned())
    }
}

/// As [`validate_required_text`], for a field that may be left out.
pub fn validate_optional_text(user_id: &str, field: &str, value: Option<String>) -> (kept: Result<
    Option<String>,
    Failure,
>)
    ensures
        failure::outcome(kept) == optional_text(user_id@, field@, value.deep_view()),
{
    match value {
        None => Ok(None),
        Some(value) => match validate_required_text(user_id, field, value) {
            Ok(kept) => Ok(Some(kept)),
            Err(failure) => Err(failure),
        },
    }
}

pub open spec fn user_id_of(value: Seq<char>) -> Result<u64, Seq<char>> {
    match text::parsed_u64(value) {
        None => Err(
            failure::because(
                "participant key "@ + text::debug_form(value)
                    + " must be an unsigned Discord user ID"@,
                text::number_fault(value),
            ),
        ),
        Some(id) => if id == 0 {
            Err("participant Discord user ID must not be zero"@)
        } else {
            Ok(id)
        },
    }
}

/// Read the key of a participant entry.
pub fn parse_discord_user_id(value: &str) -> (id: Result<u64, Failure>)
    ensures
        failure::outcome(id) == user_id_of(value@),
{
    match text::read_u64(value) {
        Err(cause) => {
            let message = "participant key ".to_owned().concat(text::debug_text(value).as_str()).concat(
                " must be an unsigned Discord user ID",
            );
            Err(Failure::caused(message, &cause))
        },
        Ok(id) => {
            if id == 0 {
                Err(Failure::from_text("participant Discord user ID must not be zero"))
            } else {
                Ok(id)
            }
        },
    }
}

/// The quoted form of a text in a TOML document, as the `toml` crate writes a
/// string value.
pub uninterp spec fn toml_string(text: Seq<char>) -> Seq<char>;

/// The TOML form of a text tells it from every other text, and keeps on one line
/// what stands on one line.
pub open spec fn legible(text: Seq<char>) -> bool {
    &&& text::single_line(text) ==> text::single_line(toml_string(text))
    &&& forall|other: Seq<char>| #[trigger] toml_string(other) == toml_string(text) ==> other == text
}

/// `toml::Value::String(..).to_string()`: the TOML form of a string value. The
/// form is named, not described; it depends on the text alone. Of it is claimed
/// that it holds a line break only where the text does, and that no other text
/// has it: what is not written as it stands is written by an escape of its own.
#[verifier::external_body]
fn toml_string_text(text: &str) -> (written: String)
    ensures
        written@ == toml_string(text@),
        text::single_line(text@) ==> text::single_line(written@),
        forall|other: Seq<char>| #[trigger] toml_string(other) == written@ ==> other == text@,
{
    toml::Value::String(text.to_owned()).to_string()
}

/// Source participant mapping plus canonical snapshot serialisation.
#[derive(Debug)]
pub struct ParticipantContext {
    source_path: String,
    format_version: u16,
    transcript_name_source: TranscriptNameSource,
    participants: BTreeMap<u64, Participant>,
}

pub struct ContextView {
    pub source_path: Seq<char>,
    pub format_version: u16,
    pub transcript_name_source: TranscriptNameSource,
    pub participants: Map<u64, ParticipantView>,
}

impl DeepView for ParticipantContext {
    type V = ContextView;

    closed spec fn deep_view(&self) -> ContextView {
        ContextView {
            source_path: self.source_path@,
            format_version: self.format_version,
            transcript_name_source: self.transcript_name_source,
            participants: self.participants@.map_values(|p: Participant| p.deep_view()),
        }
    }
}

impl ContextView {
    /// The role of a speaker the snapshot does not mention.
    pub open spec fn default_role(self) -> Seq<char> {
        if self.format_version == LEGACY_PARTICIPANT_SNAPSHOT_FORMAT_VERSION {
            DEFAULT_LEGACY_ROLE@
        } else {
            DEFAULT_CURRENT_ROLE@
        }
    }

    /// Every entry is filed under its own ID, in a known format.
    pub open spec fn wf(self) -> bool {
        &&& self.participants.dom().finite()
        &&& forall|id: u64| #[trigger]
            self.participants.contains_key(id) ==> self.participants[id].discord_user_id == id
        &&& self.format_version == LEGACY_PARTICIPANT_SNAPSHOT_FORMAT_VERSION
            || self.format_version == PARTICIPANT_SNAPSHOT_FORMAT_VERSION
    }

    /// Every entry could stand in a participant file of the format, as it is.
    pub open spec fn readable(self) -> bool {
        &&& self.wf()
        &&& self.format_version == LEGACY_PARTICIPANT_SNAPSHOT_FORMAT_VERSION
            ==> self.transcript_name_source == TranscriptNameSource::Discord
        &&& forall|id: u64| #[trigger]
            self.participants.contains_key(id) ==> self.participants[id].readable(
                self.format_version,
            )
    }

    /// Every text that the snapshot quotes is legible.
    pub open spec fn legible(self) -> bool {
        forall|id: u64| #[trigger]
            self.participants.contains_key(id) ==> self.participants[id].legible()
    }

    pub open spec fn lookup(self, id: u64) -> Option<ParticipantView> {
        if self.participants.contains_key(id) {
            Some(self.participants[id])
        } else {
            None
        }
    }

    /// Whether the speech of a user is to be transcribed: unless the snapshot
    /// says otherwise, it is.
    pub open spec fn admits(self, id: u64) -> bool {
        match self.lookup(id) {
            Some(participant) => participant.transcribe,
            None => true,
        }
    }

    /// The snapshot with the transcription policy of one user set.
    pub open spec fn with_transcribe(self, id: u64, transcribe: bool) -> ContextView {
        let entry = match self.lookup(id) {
            Some(participant) => ParticipantView { transcribe, ..participant },
            None => ParticipantView {
                discord_user_id: id,
                name: None,
                character: None,
                role: self.default_role(),
                transcribe,
            },
        };
        ContextView { participants: self.participants.insert(id, entry), ..self }
    }
}

pub open spec fn legacy_participant(
    user_id: Seq<char>,
    entry: LegacyFileParticipantView,
) -> Result<ParticipantView, Seq<char>> {
    match user_id_of(user_id) {
        Err(message) => Err(message),
        Ok(id) => match optional_text(user_id, "character"@, entry.character) {
            Err(message) => Err(message),
            Ok(character) => Ok(
                ParticipantView {
                    discord_user_id: id,
                    name: None,
                    character,
                    role: entry.role.spec_text(),
                    transcribe: entry.transcribe,
                },
            ),
        },
    }
}

pub open spec fn current_participant(
    user_id: Seq<char>,
    entry: CurrentFileParticipantView,
) -> Result<ParticipantView, Seq<char>> {
    match user_id_of(user_id) {
        Err(message) => Err(message),
        Ok(id) => match optional_text(user_id, "name"@, entry.name) {
            Err(message) => Err(message),
            Ok(name) => match required_text(user_id, "role"@, entry.role) {
                Err(message) => Err(message),
                Ok(role) => Ok(
                    ParticipantView {
                        discord_user_id: id,
                        name,
                        character: None,
                        role,
                        transcribe: entry.transcribe,
                    },
                ),
            },
        },
    }
}

/// The participants of a file: its entries filed in order under their IDs, or
/// what is wrong with the first bad entry.
pub open spec fn filed(entries: Seq<Result<ParticipantView, Seq<char>>>) -> Result<
    Map<u64, ParticipantView>,
    Seq<char>,
>
    decreases entries.len(),
{
    if entries.len() == 0 {
        Ok(Map::empty())
    } else {
        match filed(entries.drop_last()) {
            Err(message) => Err(message),
            Ok(earlier) => match entries.last() {
                Err(message) => Err(message),
                Ok(participant) => Ok(earlier.insert(participant.discord_user_id, participant)),
            },
        }
    }
}

pub open spec fn legacy_entries(entries: Seq<(Seq<char>, LegacyFileParticipantView)>) -> Seq<
    Result<ParticipantView, Seq<char>>,
> {
    entries.map_values(|e: (Seq<char>, LegacyFileParticipantView)| legacy_participant(e.0, e.1))
}

pub open spec fn current_entries(entries: Seq<(Seq<char>, CurrentFileParticipantView)>) -> Seq<
    Result<ParticipantView, Seq<char>>,
> {
    entries.map_values(|e: (Seq<char>, CurrentFileParticipantView)| current_participant(e.0, e.1))
}

pub open spec fn context_of(
    format_version: u16,
    transcript_name_source: TranscriptNameSource,
    source_path: Seq<char>,
    entries: Seq<Result<ParticipantView, Seq<char>>>,
) -> Result<ContextView, Seq<char>> {
    match filed(entries) {
        Err(message) => Err(message),
        Ok(participants) => Ok(
            ContextView { source_path, format_version, transcript_name_source, participants },
        ),
    }
}

/// Once an entry is bad, no later entry changes what is reported.
proof fn lemma_filed_stops(entries: Seq<Result<ParticipantView, Seq<char>>>, count: int)
    requires
        0 <= count <= entries.len(),
        filed(entries.take(count)) is Err,
    ensures
        filed(entries) == filed(entries.take(count)),
    decreases entries.len(),
{
    if count == entries.len() {
        assert(entries.take(count) =~= entries);
    } else {
        assert(entries.drop_last().take(count) =~= entries.take(count));
        lemma_filed_stops(entries.drop_last(), count);
    }
}

proof fn lemma_filed_wf(entries: Seq<Result<ParticipantView, Seq<char>>>, format_version: u16)
    requires
        filed(entries) is Ok,
        forall|i: int|
            0 <= i < entries.len() && (#[trigger] entries[i]) is Ok ==> entries[i]->Ok_0.readable(
                format_version,
            ),
    ensures
        filed(entries)->Ok_0.dom().finite(),
        forall|id: u64| #[trigger]
            filed(entries)->Ok_0.contains_key(id) ==> filed(entries)->Ok_0[id].discord_user_id
                == id && filed(entries)->Ok_0[id].readable(format_version),
    decreases entries.len(),
{
    if entries.len() > 0 {
        let shorter = entries.drop_last();
        assert forall|i: int|
            0 <= i < shorter.len() && (#[trigger] shorter[i]) is Ok implies shorter[i]->Ok_0.readable(
            format_version,
        ) by {
            assert(shorter[i] == entries[i]);
        }
        lemma_filed_wf(shorter, format_version);
        assert(entries[entries.len() - 1] == entries.last());
    }
}

proof fn lemma_optional_text_is_plain(
    user_id: Seq<char>,
    field: Seq<char>,
    value: Option<Seq<char>>,
)
    ensures
        optional_text(user_id, field, value) matches Ok(Some(kept)) ==> plain_field(kept),
{
    if let Some(value) = value {
        text::trimming_is_done_once(value);
    }
}

proof fn lemma_legacy_participant_is_readable(
    user_id: Seq<char>,
    entry: LegacyFileParticipantView,
)
    ensures
        legacy_participant(user_id, entry) matches Ok(participant) ==> participant.readable(
            LEGACY_PARTICIPANT_SNAPSHOT_FORMAT_VERSION,
        ),
{
    lemma_optional_text_is_plain(user_id, "character"@, entry.character);
}

proof fn lemma_current_participant_is_readable(
    user_id: Seq<char>,
    entry: CurrentFileParticipantView,
)
    ensures
        current_participant(user_id, entry) matches Ok(participant) ==> participant.readable(
            PARTICIPANT_SNAPSHOT_FORMAT_VERSION,
        ),
{
    lemma_optional_text_is_plain(user_id, "name"@, entry.name);
    text::trimming_is_done_once(entry.role);
}

fn read_legacy_entry(user_id: &str, entry: LegacyFileParticipant) -> (read: Result<
    Participant,
    Failure,
>)
    ensures
        failure::outcome(read) == legacy_participant(user_id@, entry.deep_view()),
{
    match parse_discord_user_id(user_id) {
        Err(refusal) => Err(refusal),
        Ok(discord_user_id) => {
            match validate_optional_text(user_id, "character", entry.character) {
                Err(refusal) => Err(refusal),
                Ok(character) => Ok(
                    Participant {
                        discord_user_id,
                        name: None,
                        character,
                        role: entry.role.text().to_owned(),
                        transcribe: entry.transcribe,
                    },
                ),
            }
        },
    }
}

fn read_current_entry(user_id: &str, entry: CurrentFileParticipant) -> (read: Result<
    Participant,
    Failure,
>)
    ensures
        failure::outcome(read) == current_participant(user_id@, entry.deep_view()),
{
    match parse_discord_user_id(user_id) {
        Err(refusal) => Err(refusal),
        Ok(discord_user_id) => {
            match validate_optional_text(user_id, "name", entry.name) {
                Err(refusal) => Err(refusal),
                Ok(name) => match validate_required_text(user_id, "role", entry.role) {
                    Err(refusal) => Err(refusal),
                    Ok(role) => Ok(
                        Participant {
                            discord_user_id,
                            name,
                            character: None,
                            role,
                            transcribe: entry.transcribe,
                        },
                    ),
                },
            }
        },
    }
}

impl ParticipantContext {
    /// The context that a format-1 participant file describes, its entries in
    /// the order in which they are walked.
    pub fn from_legacy_file(
        entries: Vec<(String, LegacyFileParticipant)>,
        source_path: String,
    ) -> (context: Result<ParticipantContext, Failure>)
        ensures
            failure::outcome(context) == context_of(
                LEGACY_PARTICIPANT_SNAPSHOT_FORMAT_VERSION,
                TranscriptNameSource::Discord,
                source_path@,
                legacy_entries(entries.deep_view()),
            ),
            context matches Ok(context) ==> context.deep_view().readable(),
    {
        let mut participants: BTreeMap<u64, Participant> = BTreeMap::new();
        let ghost read = legacy_entries(entries.deep_view());
        assert(read.take(0) =~= Seq::empty());
        assert(participants@.map_values(|p: Participant| p.deep_view()) =~= Map::empty());
        for entry in it: entries
            invariant
                it.seq() == entries@,
                read == legacy_entries(entries.deep_view()),
                filed(read.take(it.index())) == Ok::<Map<u64, ParticipantView>, Seq<char>>(
                    participants@.map_values(|p: Participant| p.deep_view()),
                ),
        {
            let ghost index = it.index();
            let ghost before = participants@;
            proof {
                assert(read.take(index + 1).drop_last() =~= read.take(index));
                assert(read.take(index + 1).last() == legacy_participant(
                    entry.0@,
                    entry.1.deep_view(),
                ));
            }
            let (user_id, file_entry) = entry;
            match read_legacy_entry(user_id.as_str(), file_entry) {
                Err(refusal) => {
                    proof {
                        lemma_filed_stops(read, index + 1);
                    }
                    return Err(refusal);
                },
                Ok(participant) => {
                    let ghost added = participant;
                    participants.insert(participant.discord_user_id, participant);
                    assert(participants@.map_values(|p: Participant| p.deep_view())
                        =~= before.map_values(|p: Participant| p.deep_view()).insert(
                        added.discord_user_id,
                        added.deep_view(),
                    ));
                },
            }
        }
        assert(read.take(read.len() as int) =~= read);
        proof {
            let listed = entries.deep_view();
            assert forall|i: int|
                0 <= i < read.len() && (#[trigger] read[i]) is Ok implies read[i]->Ok_0.readable(
                LEGACY_PARTICIPANT_SNAPSHOT_FORMAT_VERSION,
            ) by {
                lemma_legacy_participant_is_readable(listed[i].0, listed[i].1);
            }
            lemma_filed_wf(read, LEGACY_PARTICIPANT_SNAPSHOT_FORMAT_VERSION);
        }
        Ok(
            ParticipantContext {
                source_path,
                format_version: LEGACY_PARTICIPANT_SNAPSHOT_FORMAT_VERSION,
                transcript_name_source: TranscriptNameSource::Discord,
                participants,
            },
        )
    }

    /// The context that a current-format participant file describes, its
    /// entries in the order in which they are walked.
    pub fn from_current_file(
        transcript_name_source: TranscriptNameSource,
        entries: Vec<(String, CurrentFileParticipant)>,
        source_path: String,
    ) -> (context: Result<ParticipantContext, Failure>)
        ensures
            failure::outcome(context) == context_of(
                PARTICIPANT_SNAPSHOT_FORMAT_VERSION,
                transcript_name_source,
                source_path@,
                current_entries(entries.deep_view()),
            ),
            context matches Ok(context) ==> context.deep_view().readable(),
    {
        let mut participants: BTreeMap<u64, Participant> = BTreeMap::new();
        let ghost read = current_entries(entries.deep_view());
        assert(read.take(0) =~= Seq::empty());
        assert(participants@.map_values(|p: Participant| p.deep_view()) =~= Map::empty());
        for entry in it: entries
            invariant
                it.seq() == entries@,
                read == current_entries(entries.deep_view()),
                filed(read.take(it.index())) == Ok::<Map<u64, ParticipantView>, Seq<char>>(
                    participants@.map_values(|p: Participant| p.deep_view()),
                ),
        {
            let ghost index = it.index();
            let ghost before = participants@;
            proof {
                assert(read.take(index + 1).drop_last() =~= read.take(index));
                assert(read.take(index + 1).last() == current_participant(
                    entry.0@,
                    entry.1.deep_view(),
                ));
            }
            let (user_id, file_entry) = entry;
            match read_current_entry(user_id.as_str(), file_entry) {
                Err(refusal) => {
                    proof {
                        lemma_filed_stops(read, index + 1);
                    }
                    return Err(refusal);
                },
                Ok(participant) => {
                    let ghost added = participant;
                    participants.insert(participant.discord_user_id, participant);
                    assert(participants@.map_values(|p: Participant| p.deep_view())
                        =~= before.map_values(|p: Participant| p.deep_view()).insert(
                        added.discord_user_id,
                        added.deep_view(),
                    ));
                },
            }
        }
        assert(read.take(read.len() as int) =~= read);
        proof {
            let listed = entries.deep_view();
            assert forall|i: int|
                0 <= i < read.len() && (#[trigger] read[i]) is Ok implies read[i]->Ok_0.readable(
                PARTICIPANT_SNAPSHOT_FORMAT_VERSION,
            ) by {
                lemma_current_participant_is_readable(listed[i].0, listed[i].1);
            }
            lemma_filed_wf(read, PARTICIPANT_SNAPSHOT_FORMAT_VERSION);
        }
        Ok(
            ParticipantContext {
                source_path,
                format_version: PARTICIPANT_SNAPSHOT_FORMAT_VERSION,
                transcript_name_source,
                participants,
            },
        )
    }

    /// A format-1 context without participants.
    pub fn empty_for_test() -> (context: ParticipantContext)
        ensures
            context.deep_view() == (ContextView {
                source_path: PARTICIPANT_SNAPSHOT_FILE_NAME@,
                format_version: LEGACY_PARTICIPANT_SNAPSHOT_FORMAT_VERSION,
                transcript_name_source: TranscriptNameSource::Discord,
                participants: Map::empty(),
            }),
            context.deep_view().readable(),
    {
        let context = ParticipantContext {
            source_path: PARTICIPANT_SNAPSHOT_FILE_NAME.to_owned(),
            format_version: LEGACY_PARTICIPANT_SNAPSHOT_FORMAT_VERSION,
            transcript_name_source: TranscriptNameSource::Discord,
            participants: BTreeMap::new(),
        };
        assert(context.deep_view().participants =~= Map::empty());
        context
    }

    /// Where the context was read from.
    pub fn source_path(&self) -> (path: &str)
        ensures
            path@ == self.deep_view().source_path,
    {
        self.source_path.as_str()
    }

    pub fn format_version(&self) -> (version: u16)
        ensures
            version == self.deep_view().format_version,
    {
        self.format_version
    }

    pub fn transcript_name_source(&self) -> (source: TranscriptNameSource)
        ensures
            source == self.deep_view().transcript_name_source,
    {
        self.transcript_name_source
    }

    /// The role of a speaker the snapshot does not mention.
    pub fn default_role(&self) -> (role: &'static str)
        ensures
            role@ == self.deep_view().default_role(),
    {
        if self.format_version == LEGACY_PARTICIPANT_SNAPSHOT_FORMAT_VERSION {
            DEFAULT_LEGACY_ROLE
        } else {
            DEFAULT_CURRENT_ROLE
        }
    }

    pub fn get(&self, discord_user_id: u64) -> (participant: Option<&Participant>)
        ensures
            participant.deep_view() == self.deep_view().lookup(discord_user_id),
    {
        self.participants.get(&discord_user_id)
    }

    /// The number of participants the context mentions.
    pub fn len(&self) -> (count: usize)
        ensures
            count == self.deep_view().participants.dom().len(),
    {
        proof {
            assert(self.deep_view().participants.dom() =~= self.participants@.dom());
        }
        self.participants.len()
    }

    /// The users the context mentions, smallest ID first.
    pub fn discord_user_ids(&self) -> (ids: Vec<u64>)
        ensures
            ids@ == order::ascending(self.deep_view().participants.dom()),
            order::strictly_increasing(ids@),
            ids@.to_set() == self.deep_view().participants.dom(),
    {
        let mut ids: Vec<u64> = Vec::new();
        let ghost keys = vstd::std_specs::iter::IteratorSpec::remaining(
            &vstd::std_specs::btree::spec_keys_iter(&self.participants),
        );
        proof {
            order::lemma_keys_increase(keys);
        }
        for id in it: self.participants.keys()
            invariant
                it.seq() == keys,
                ids@ == keys.unref().take(it.index()),
        {
            ids.push(*id);
            assert(keys.unref().take(it.index() + 1) =~= keys.unref().take(it.index()).push(*id));
        }
        proof {
            assert(ids@ =~= keys.unref());
            assert(ids@.to_set() == self.participants@.dom());
            assert(self.deep_view().participants.dom() =~= self.participants@.dom());
            order::ascending_is_unique(ids@);
        }
        ids
    }

    /// Apply an explicit operator policy migration to a session snapshot.
    pub fn set_transcribe(&mut self, discord_user_id: u64, transcribe: bool)
        ensures
            final(self).deep_view() == old(self).deep_view().with_transcribe(
                discord_user_id,
                transcribe,
            ),
    {
        let ghost before = self.participants@;
        let default_role = self.default_role();
        let entry = match self.participants.remove(&discord_user_id) {
            Some(participant) => Participant {
                discord_user_id: participant.discord_user_id,
                name: participant.name,
                character: participant.character,
                role: participant.role,
                transcribe,
            },
            None => Participant {
                discord_user_id,
                name: None,
                character: None,
                role: default_role.to_owned(),
                transcribe,
            },
        };
        let ghost placed = entry;
        self.participants.insert(discord_user_id, entry);
        assert(self.participants@.map_values(|p: Participant| p.deep_view()) =~= before.map_values(
            |p: Participant| p.deep_view(),
        ).insert(discord_user_id, placed.deep_view()));
    }

    /// The snapshot text: entries in numeric order, whatever order they were
    /// read in.
    pub fn canonical_toml(&self) -> (text: Result<String, Failure>)
        requires
            self.deep_view().wf(),
        ensures
            failure::outcome(text) == Ok::<Seq<char>, Seq<char>>(self.deep_view().canonical()),
            self.deep_view().legible(),
    {
        let mut text = "version = ".to_owned().concat(
            text::decimal_text(self.format_version as u64).as_str(),
        ).concat("\n");
        if self.format_version == PARTICIPANT_SNAPSHOT_FORMAT_VERSION {
            text.append("transcript_name_source = \"");
            text.append(self.transcript_name_source.text());
            text.append("\"\n");
        }
        let ids = self.discord_user_ids();
        let ghost view = self.deep_view();
        let ghost header = text@;
        let mut index: usize = 0;
        assert(text@ =~= header + sections(ids@.take(0), view.participants));
        while index < ids.len()
            invariant
                index <= ids.len(),
                view == self.deep_view(),
                view.wf(),
                ids@.to_set() == view.participants.dom(),
                text@ == header + sections(ids@.take(index as int), view.participants),
                forall|i: int|
                    0 <= i < index ==> (#[trigger] view.participants[ids@[i]]).legible(),
            decreases ids.len() - index,
        {
            let id: u64 = ids[index];
            assert(ids@.to_set().contains(id));
            proof {
                let longer = ids@.take(index + 1);
                assert(longer.drop_last() =~= ids@.take(index as int));
                assert(longer.last() == id);
            }
            match self.get(id) {
                Some(participant) => {
                    let section = section_text(participant);
                    text.append(section.as_str());
                },
                None => {
                    assert(false);
                },
            }
            assert(text@ =~= header + sections(ids@.take(index + 1), view.participants));
            index = index + 1;
        }
        assert(ids@.take(ids@.len() as int) =~= ids@);
        proof {
            assert forall|id: u64| #[trigger] view.participants.contains_key(
                id,
            ) implies view.participants[id].legible() by {
                assert(ids@.to_set().contains(id));
                let i = choose|i: int| 0 <= i < ids@.len() && ids@[i] == id;
                assert(view.participants[ids@[i]].legible());
            }
        }
        Ok(text)
    }
}

/// How a snapshot spells out what it says of one participant.
pub open spec fn spelled(
    user_id: Seq<char>,
    name: Option<Seq<char>>,
    character: Option<Seq<char>>,
    role: Seq<char>,
    transcribe: bool,
) -> Seq<char> {
    let head = "\n[participants.\""@ + user_id + "\"]\n"@;
    let named = match name {
        Some(name) => head + "name = "@ + toml_string(name) + "\n"@,
        None => head,
    };
    let cast = match character {
        Some(character) => named + "character = "@ + toml_string(character) + "\n"@,
        None => named,
    };
    cast + "role = "@ + toml_string(role) + "\n"@ + (if transcribe {
        "transcribe = true\n"@
    } else {
        "transcribe = false\n"@
    })
}

/// The part of a snapshot that describes one participant.
pub open spec fn section(participant: ParticipantView) -> Seq<char> {
    spelled(
        text::decimal(participant.discord_user_id as nat),
        participant.name,
        participant.character,
        participant.role,
        participant.transcribe,
    )
}

pub open spec fn sections(ids: Seq<u64>, participants: Map<u64, ParticipantView>) -> Seq<char>
    decreases ids.len(),
{
    if ids.len() == 0 {
        Seq::empty()
    } else {
        sections(ids.drop_last(), participants) + section(participants[ids.last()])
    }
}

impl ContextView {
    pub open spec fn header(self) -> Seq<char> {
        let version = "version = "@ + text::decimal(self.format_version as nat) + "\n"@;
        if self.format_version == PARTICIPANT_SNAPSHOT_FORMAT_VERSION {
            version + "transcript_name_source = \""@ + self.transcript_name_source.spec_text()
                + "\"\n"@
        } else {
            version
        }
    }

    /// The text of the snapshot: a header, then one section for each
    /// participant, smallest ID first.
    pub open spec fn canonical(self) -> Seq<char> {
        self.header() + sections(order::ascending(self.participants.dom()), self.participants)
    }
}

fn section_text(participant: &Participant) -> (text: String)
    ensures
        text@ == section(participant.deep_view()),
        participant.deep_view().legible(),
{
    let mut text = "\n[participants.\"".to_owned().concat(
        text::decimal_text(participant.discord_user_id).as_str(),
    ).concat("\"]\n");
    match &participant.name {
        Some(name) => {
            text.append("name = ");
            text.append(toml_string_text(name.as_str()).as_str());
            text.append("\n");
        },
        None => {},
    }
    match &participant.character {
        Some(character) => {
            text.append("character = ");
            text.append(toml_string_text(character.as_str()).as_str());
            text.append("\n");
        },
        None => {},
    }
    text.append("role = ");
    text.append(toml_string_text(participant.role.as_str()).as_str());
    text.append("\n");
    if participant.transcribe {
        text.append("transcribe = true\n");
    } else {
        text.append("transcribe = false\n");
    }
    text
}

/// Setting one user's transcription policy changes that policy and nothing
/// else: no other entry, not the attribution of that user, and not the format
/// or naming rule. A user the snapshot did not mention gains an entry with the
/// format's default role. Setting the same policy again changes nothing, and
/// what could be read before still can.
pub proof fn policy_migration_preserves_context(context: ContextView, id: u64, transcribe: bool)
    requires
        context.wf(),
    ensures
        ({
            let migrated = context.with_transcribe(id, transcribe);
            &&& migrated.wf()
            &&& migrated.admits(id) == transcribe
            &&& migrated.format_version == context.format_version
            &&& migrated.transcript_name_source == context.transcript_name_source
            &&& forall|other: u64|
                other != id ==> #[trigger] migrated.lookup(other) == context.lookup(other)
            &&& context.lookup(id) matches Some(before) ==> migrated.lookup(id) == Some(
                (ParticipantView { transcribe, ..before }),
            )
            &&& context.lookup(id) is None ==> migrated.lookup(id)->0.role
                == context.default_role()
            &&& migrated.with_transcribe(id, transcribe) == migrated
            &&& context.readable() && id != 0 ==> migrated.readable()
        }),
{
    let migrated = context.with_transcribe(id, transcribe);
    assert(plain_field("participant"@)) by {
        reveal_strlit("participant");
    }
    assert(migrated.with_transcribe(id, transcribe).participants =~= migrated.participants);
}

/// Two contexts that say the same of the same users have the same snapshot,
/// wherever they were read from.
pub proof fn snapshot_depends_on_content_alone(left: ContextView, right: ContextView)
    requires
        left.format_version == right.format_version,
        left.transcript_name_source == right.transcript_name_source,
        left.participants.dom() =~= right.participants.dom(),
        forall|id: u64| #[trigger] left.lookup(id) == right.lookup(id),
    ensures
        left.canonical() == right.canonical(),
{
    assert forall|id: u64| left.participants.contains_key(id) implies left.participants[id]
        == right.participants[id] by {
        assert(left.lookup(id) == right.lookup(id));
    }
    assert(left.participants =~= right.participants);
}

/// The entry of a format-1 participant file that says what a context says of a
/// participant.
pub open spec fn legacy_entry(participant: ParticipantView) -> (
    Seq<char>,
    LegacyFileParticipantView,
) {
    (
        text::decimal(participant.discord_user_id as nat),
        LegacyFileParticipantView {
            character: participant.character,
            role: LegacyParticipantRole::spec_parse(participant.role)->0,
            transcribe: participant.transcribe,
        },
    )
}

/// The entry of a current-format participant file that says what a context
/// says of a participant.
pub open spec fn current_entry(participant: ParticipantView) -> (
    Seq<char>,
    CurrentFileParticipantView,
) {
    (
        text::decimal(participant.discord_user_id as nat),
        CurrentFileParticipantView {
            name: participant.name,
            role: participant.role,
            transcribe: participant.transcribe,
        },
    )
}

impl ContextView {
    /// The entries of a format-1 snapshot of some users, in their order.
    pub open spec fn legacy_listing(self, ids: Seq<u64>) -> Seq<
        (Seq<char>, LegacyFileParticipantView),
    > {
        ids.map_values(|id: u64| legacy_entry(self.participants[id]))
    }

    /// The entries of a current-format snapshot of some users, in their order.
    pub open spec fn current_listing(self, ids: Seq<u64>) -> Seq<
        (Seq<char>, CurrentFileParticipantView),
    > {
        ids.map_values(|id: u64| current_entry(self.participants[id]))
    }

    /// The same context, read from elsewhere.
    pub open spec fn read_from(self, source_path: Seq<char>) -> ContextView {
        ContextView { source_path, ..self }
    }
}

/// The sections in which a format-1 snapshot spells out its entries.
pub open spec fn spelled_legacy(entries: Seq<(Seq<char>, LegacyFileParticipantView)>) -> Seq<char>
    decreases entries.len(),
{
    if entries.len() == 0 {
        Seq::empty()
    } else {
        let last = entries.last();
        spelled_legacy(entries.drop_last()) + spelled(
            last.0,
            None,
            last.1.character,
            last.1.role.spec_text(),
            last.1.transcribe,
        )
    }
}

/// The sections in which a current-format snapshot spells out its entries.
pub open spec fn spelled_current(entries: Seq<(Seq<char>, CurrentFileParticipantView)>) -> Seq<
    char,
>
    decreases entries.len(),
{
    if entries.len() == 0 {
        Seq::empty()
    } else {
        let last = entries.last();
        spelled_current(entries.drop_last()) + spelled(
            last.0,
            last.1.name,
            None,
            last.1.role,
            last.1.transcribe,
        )
    }
}

proof fn lemma_roles_are_parsed(role: Seq<char>)
    requires
        role == "player"@ || role == "gm"@,
    ensures
        LegacyParticipantRole::spec_parse(role) is Some,
        LegacyParticipantRole::spec_parse(role)->0.spec_text() == role,
{
    reveal_strlit("player");
    reveal_strlit("gm");
}

proof fn lemma_entries_read_back(participant: ParticipantView, format_version: u16)
    requires
        participant.readable(format_version),
    ensures
        format_version == LEGACY_PARTICIPANT_SNAPSHOT_FORMAT_VERSION ==> legacy_participant(
            legacy_entry(participant).0,
            legacy_entry(participant).1,
        ) == Ok::<ParticipantView, Seq<char>>(participant),
        format_version == PARTICIPANT_SNAPSHOT_FORMAT_VERSION ==> current_participant(
            current_entry(participant).0,
            current_entry(participant).1,
        ) == Ok::<ParticipantView, Seq<char>>(participant),
{
    text::decimal_reads_back(participant.discord_user_id);
    if format_version == LEGACY_PARTICIPANT_SNAPSHOT_FORMAT_VERSION {
        lemma_roles_are_parsed(participant.role);
    }
}

proof fn lemma_filed_listing(
    participants: Map<u64, ParticipantView>,
    ids: Seq<u64>,
    entries: Seq<Result<ParticipantView, Seq<char>>>,
)
    requires
        entries.len() == ids.len(),
        forall|i: int|
            0 <= i < ids.len() ==> participants.contains_key(#[trigger] ids[i])
                && participants[ids[i]].discord_user_id == ids[i] && entries[i] == Ok::<
                ParticipantView,
                Seq<char>,
            >(participants[ids[i]]),
    ensures
        filed(entries) == Ok::<Map<u64, ParticipantView>, Seq<char>>(
            participants.restrict(ids.to_set()),
        ),
    decreases ids.len(),
{
    if ids.len() == 0 {
        assert(participants.restrict(ids.to_set()) =~= Map::empty());
    } else {
        let fewer = ids.drop_last();
        let last = ids.last();
        assert forall|i: int| 0 <= i < fewer.len() implies participants.contains_key(
            #[trigger] fewer[i],
        ) && participants[fewer[i]].discord_user_id == fewer[i] && entries.drop_last()[i] == Ok::<
            ParticipantView,
            Seq<char>,
        >(participants[fewer[i]]) by {
            assert(fewer[i] == ids[i]);
        }
        lemma_filed_listing(participants, fewer, entries.drop_last());
        assert(ids[ids.len() - 1] == last);
        assert(participants.restrict(fewer.to_set()).insert(last, participants[last])
            =~= participants.restrict(ids.to_set())) by {
            assert forall|id: u64| ids.to_set().contains(id) == fewer.to_set().insert(
                last,
            ).contains(id) by {
                if ids.to_set().contains(id) {
                    let i = choose|i: int| 0 <= i < ids.len() && ids[i] == id;
                    if i < fewer.len() {
                        assert(fewer[i] == id);
                    }
                }
                if fewer.to_set().contains(id) {
                    let i = choose|i: int| 0 <= i < fewer.len() && fewer[i] == id;
                    assert(ids[i] == id);
                }
                if id == last {
                    assert(ids.to_set().contains(ids[ids.len() - 1]));
                }
            }
        }
    }
}

proof fn lemma_listed_users(context: ContextView, ids: Seq<u64>)
    requires
        context.readable(),
        ids.to_set() == context.participants.dom(),
    ensures
        forall|i: int|
            0 <= i < ids.len() ==> context.participants.contains_key(#[trigger] ids[i])
                && context.participants[ids[i]].discord_user_id == ids[i]
                && context.participants[ids[i]].readable(context.format_version),
        context.participants.restrict(ids.to_set()) == context.participants,
{
    assert forall|i: int| 0 <= i < ids.len() implies context.participants.contains_key(
        #[trigger] ids[i],
    ) && context.participants[ids[i]].discord_user_id == ids[i]
        && context.participants[ids[i]].readable(context.format_version) by {
        assert(ids.to_set().contains(ids[i]));
    }
    assert(context.participants.restrict(ids.to_set()) =~= context.participants);
}

proof fn lemma_legacy_sections(context: ContextView, ids: Seq<u64>)
    requires
        forall|i: int|
            0 <= i < ids.len() ==> (#[trigger] context.participants[ids[i]]).readable(
                LEGACY_PARTICIPANT_SNAPSHOT_FORMAT_VERSION,
            ),
    ensures
        sections(ids, context.participants) == spelled_legacy(context.legacy_listing(ids)),
    decreases ids.len(),
{
    if ids.len() > 0 {
        let fewer = ids.drop_last();
        assert forall|i: int| 0 <= i < fewer.len() implies (
        #[trigger] context.participants[fewer[i]]).readable(
            LEGACY_PARTICIPANT_SNAPSHOT_FORMAT_VERSION,
        ) by {
            assert(context.participants[fewer[i]] == context.participants[ids[i]]);
        }
        lemma_legacy_sections(context, fewer);
        assert(context.legacy_listing(ids).drop_last() =~= context.legacy_listing(fewer));
        let last = context.participants[ids[ids.len() - 1]];
        lemma_roles_are_parsed(last.role);
        assert(context.legacy_listing(ids).last() == legacy_entry(last));
    }
}

proof fn lemma_current_sections(context: ContextView, ids: Seq<u64>)
    requires
        forall|i: int|
            0 <= i < ids.len() ==> (#[trigger] context.participants[ids[i]]).readable(
                PARTICIPANT_SNAPSHOT_FORMAT_VERSION,
            ),
    ensures
        sections(ids, context.participants) == spelled_current(context.current_listing(ids)),
    decreases ids.len(),
{
    if ids.len() > 0 {
        let fewer = ids.drop_last();
        assert forall|i: int| 0 <= i < fewer.len() implies (
        #[trigger] context.participants[fewer[i]]).readable(
            PARTICIPANT_SNAPSHOT_FORMAT_VERSION,
        ) by {
            assert(context.participants[fewer[i]] == context.participants[ids[i]]);
        }
        lemma_current_sections(context, fewer);
        assert(context.current_listing(ids).drop_last() =~= context.current_listing(fewer));
        let last = context.participants[ids[ids.len() - 1]];
        assert(context.current_listing(ids).last() == current_entry(last));
    }
}

/// A format-1 snapshot reads back: its text spells out the context's own
/// entries, smallest ID first, and filing those entries, in whatever order,
/// gives the context and its snapshot again.
pub proof fn legacy_snapshots_read_back(
    context: ContextView,
    ids: Seq<u64>,
    source_path: Seq<char>,
)
    requires
        context.readable(),
        context.format_version == LEGACY_PARTICIPANT_SNAPSHOT_FORMAT_VERSION,
        ids.to_set() == context.participants.dom(),
    ensures
        context.canonical() == context.header() + spelled_legacy(
            context.legacy_listing(order::ascending(context.participants.dom())),
        ),
        context_of(
            LEGACY_PARTICIPANT_SNAPSHOT_FORMAT_VERSION,
            TranscriptNameSource::Discord,
            source_path,
            legacy_entries(context.legacy_listing(ids)),
        ) == Ok::<ContextView, Seq<char>>(context.read_from(source_path)),
        context.read_from(source_path).canonical() == context.canonical(),
{
    let ascending = order::ascending(context.participants.dom());
    order::ascending_lists_the_set(context.participants.dom());
    lemma_listed_users(context, ascending);
    lemma_legacy_sections(context, ascending);
    lemma_listed_users(context, ids);
    let entries = legacy_entries(context.legacy_listing(ids));
    assert forall|i: int| 0 <= i < ids.len() implies context.participants.contains_key(
        #[trigger] ids[i],
    ) && context.participants[ids[i]].discord_user_id == ids[i] && entries[i] == Ok::<
        ParticipantView,
        Seq<char>,
    >(context.participants[ids[i]]) by {
        lemma_entries_read_back(context.participants[ids[i]], context.format_version);
    }
    lemma_filed_listing(context.participants, ids, entries);
}

/// A current-format snapshot reads back: its text spells out the context's own
/// entries, smallest ID first, and filing those entries, in whatever order,
/// gives the context and its snapshot again.
pub proof fn current_snapshots_read_back(
    context: ContextView,
    ids: Seq<u64>,
    source_path: Seq<char>,
)
    requires
        context.readable(),
        context.format_version == PARTICIPANT_SNAPSHOT_FORMAT_VERSION,
        ids.to_set() == context.participants.dom(),
    ensures
        context.canonical() == context.header() + spelled_current(
            context.current_listing(order::ascending(context.participants.dom())),
        ),
        context_of(
            PARTICIPANT_SNAPSHOT_FORMAT_VERSION,
            context.transcript_name_source,
            source_path,
            current_entries(context.current_listing(ids)),
        ) == Ok::<ContextView, Seq<char>>(context.read_from(source_path)),
        context.read_from(source_path).canonical() == context.canonical(),
{
    let ascending = order::ascending(context.participants.dom());
    order::ascending_lists_the_set(context.participants.dom());
    lemma_listed_users(context, ascending);
    lemma_current_sections(context, ascending);
    lemma_listed_users(context, ids);
    let entries = current_entries(context.current_listing(ids));
    assert forall|i: int| 0 <= i < ids.len() implies context.participants.contains_key(
        #[trigger] ids[i],
    ) && context.participants[ids[i]].discord_user_id == ids[i] && entries[i] == Ok::<
        ParticipantView,
        Seq<char>,
    >(context.participants[ids[i]]) by {
        lemma_entries_read_back(context.participants[ids[i]], context.format_version);
    }
    lemma_filed_listing(context.participants, ids, entries);
}

/// The section of a participant with a smaller ID stands before that of one
/// with a larger ID.
pub proof fn snapshot_is_in_numeric_order(context: ContextView, smaller: u64, larger: u64)
    requires
        context.wf(),
        context.participants.contains_key(smaller),
        context.participants.contains_key(larger),
        smaller < larger,
    ensures
        exists|before: Seq<char>, between: Seq<char>, after: Seq<char>|
            context.canonical() == #[trigger] (before + section(context.participants[smaller])
                + between + section(context.participants[larger]) + after),
{
    let participants = context.participants;
    order::ascending_lists_the_set(participants.dom());
    let ids = order::ascending(participants.dom());
    assert(ids.to_set().contains(smaller) && ids.to_set().contains(larger));
    let i = choose|i: int| 0 <= i < ids.len() && ids[i] == smaller;
    let j = choose|j: int| 0 <= j < ids.len() && ids[j] == larger;
    if j <= i {
        assert(j == i || ids[j] < ids[i]);
    }
    let head = ids.take(j + 1);
    let tail = lemma_sections_extend(ids, j + 1, participants);
    let middle = lemma_sections_extend(ids.take(j), i + 1, participants);
    assert(ids.take(j).take(i + 1) =~= ids.take(i + 1));
    assert(ids.take(i + 1).drop_last() =~= ids.take(i));
    assert(head.drop_last() =~= ids.take(j));
    let first = section(participants[smaller]);
    let second = section(participants[larger]);
    let before = context.header() + sections(ids.take(i), participants);
    assert(sections(ids.take(i + 1), participants) == sections(ids.take(i), participants) + first);
    assert(sections(head, participants) == sections(ids.take(j), participants) + second);
    lemma_regrouped(
        context.header(),
        sections(ids.take(i), participants),
        first,
        middle,
        second,
        tail,
    );
    assert(context.canonical() == before + first + middle + second + tail);
}

proof fn lemma_regrouped(
    header: Seq<char>,
    start: Seq<char>,
    first: Seq<char>,
    middle: Seq<char>,
    second: Seq<char>,
    tail: Seq<char>,
)
    ensures
        header + (start + first + middle + second + tail) == header + start + first + middle
            + second + tail,
{
    assert(header + (start + first + middle + second + tail) =~= header + start + first + middle
        + second + tail);
}

/// The sections of more users continue those of fewer.
proof fn lemma_sections_extend(
    ids: Seq<u64>,
    count: int,
    participants: Map<u64, ParticipantView>,
) -> (tail: Seq<char>)
    requires
        0 <= count <= ids.len(),
    ensures
        sections(ids, participants) == sections(ids.take(count), participants) + tail,
    decreases ids.len(),
{
    if count == ids.len() {
        assert(ids.take(count) =~= ids);
        assert(sections(ids, participants) =~= sections(ids, participants) + Seq::<char>::empty());
        Seq::empty()
    } else {
        let shorter = lemma_sections_extend(ids.drop_last(), count, participants);
        assert(ids.drop_last().take(count) =~= ids.take(count));
        let tail = shorter + section(participants[ids.last()]);
        assert(sections(ids, participants) =~= sections(ids.take(count), participants) + tail);
        tail
    }
}

} // verus!
