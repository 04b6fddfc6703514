//! The rules that recorded tracks, work items and participants keep.

use vstd::prelude::*;

use crate::audio;
use crate::candidate_ranges::CandidateRange;
use crate::order;
use crate::order::Ranked;
use crate::participants;
use crate::participants::ContextView;
use crate::participants::CurrentFileParticipantView;
use crate::participants::LegacyFileParticipantView;
use crate::participants::LegacyParticipantRole;
use crate::participants::ParticipantView;
use crate::participants::SnapshotLayout;
use crate::participants::TranscriptNameSource;
use crate::paths;
use crate::retranscription;
use crate::text;
use crate::track_manifest;
use crate::track_manifest::ManifestView;
use crate::track_manifest::TrackState;
use crate::track_manifest::TrackView;
use crate::work_items;
use crate::work_items::LineLayout;
use crate::work_items::WorkItemLine;
use crate::work_items::WorkItemView;

verus! {

/// Routine audio has 48 000 samples a second in one channel of 16 bits; a
/// millisecond is a thousandth of that second, and a tick twenty milliseconds.
pub proof fn routine_audio_is_measured()
    ensures
        audio::SAMPLE_RATE == 48_000,
        audio::SAMPLES_PER_MILLISECOND * 1_000 == audio::SAMPLE_RATE,
        audio::SAMPLES_PER_TICK == audio::SAMPLES_PER_MILLISECOND * 20,
        audio::CHANNELS == 1,
        audio::BITS_PER_SAMPLE == 16,
{
}

/// Samples are rounded up to the millisecond, of 48 samples, in which the last
/// of them ends; only within 47 samples of the end of the range is there none.
pub proof fn milliseconds_are_rounded_up(samples: u64)
    ensures
        work_items::millis_ceil(samples) is Err <==> samples + 47 > u64::MAX,
        work_items::millis_ceil(samples) matches Ok(millis) ==> (millis - 1) * 48 < samples
            && samples <= millis * 48,
{
}

/// The track at a place is one that a manifest of a format may hold there.
pub open spec fn sound_track(
    format: u16,
    tracks: Seq<TrackView>,
    i: int,
    windows: bool,
) -> bool {
    let track = tracks[i];
    let user = text::parsed_u64(track.discord_user_id);
    &&& user is Some
    &&& user->0 > 0
    &&& i > 0 ==> (text::parsed_u64(tracks[i - 1].discord_user_id) matches Some(earlier)
        ==> earlier < user->0)
    &&& track.path == "tracks/user-"@ + text::decimal(user->0 as nat) + (match track.state {
        TrackState::Complete => ".flac"@,
        TrackState::Incomplete => ".flac.part"@,
    })
    &&& paths::contained(track.path, windows)
    &&& !text::blank(track.display_name)
    &&& !text::blank(track.role)
    &&& text::single_line(track.role)
    &&& format == 1 ==> track.role == "player"@ || track.role == "gm"@
    &&& track.character matches Some(character) ==> !text::blank(character)
    &&& format == 2 ==> track.character is None
    &&& track.sample_rate == 48_000
    &&& track.channels == 1
    &&& track.bits_per_sample == 16
    &&& track.start_sample == 0
    &&& match track.state {
        TrackState::Complete => track.abandonment_reason is None
            && track.last_contiguous_sample is None,
        TrackState::Incomplete => track.last_contiguous_sample == Some(track.length_samples)
            && track.abandonment_reason is Some && track.abandonment_reason->0.len() > 0,
    }
}

proof fn lemma_tracks_sound(format: u16, tracks: Seq<TrackView>, windows: bool)
    requires
        format == 1 || format == 2,
    ensures
        track_manifest::tracks_fault(format, tracks, windows) is None <==> (forall|i: int|
            0 <= i < tracks.len() ==> #[trigger] sound_track(format, tracks, i, windows)),
    decreases tracks.len(),
{
    if tracks.len() > 0 {
        let n = tracks.len() as int;
        let fewer = tracks.drop_last();
        lemma_tracks_sound(format, fewer, windows);
        assert forall|i: int| 0 <= i < n - 1 implies #[trigger] sound_track(
            format,
            tracks,
            i,
            windows,
        ) == sound_track(format, fewer, i, windows) by {
            assert(fewer[i] == tracks[i]);
            if i > 0 {
                assert(fewer[i - 1] == tracks[i - 1]);
            }
        }
        if track_manifest::tracks_fault(format, fewer, windows) is None {
            assert(track_manifest::tracks_fault(format, tracks, windows) is None <==> sound_track(
                format,
                tracks,
                n - 1,
                windows,
            ));
        } else {
            let i = choose|i: int|
                0 <= i < fewer.len() && !#[trigger] sound_track(format, fewer, i, windows);
            assert(!sound_track(format, tracks, i, windows));
        }
    }
}

/// A track manifest is accepted exactly if it is of format 1 or 2, names its
/// session, and every track may stand where it stands.
pub proof fn manifests_hold_sound_tracks(manifest: ManifestView, windows: bool)
    ensures
        manifest.valid(windows) <==> {
            &&& manifest.format == 1 || manifest.format == 2
            &&& !text::blank(manifest.session_id)
            &&& forall|i: int|
                0 <= i < manifest.tracks.len() ==> #[trigger] sound_track(
                    manifest.format,
                    manifest.tracks,
                    i,
                    windows,
                )
        },
{
    if manifest.format == 1 || manifest.format == 2 {
        lemma_tracks_sound(manifest.format, manifest.tracks, windows);
    }
}

/// A work item is valid exactly if it has its number, ID, session and user, is
/// not empty in the session or in its track, and is attributed as its format
/// has it: in format 1 to a player or game master by one name; in format 2 by a
/// Discord name, perhaps another name, and a role, shown under one of the names.
pub proof fn items_are_valid_by_their_format(item: WorkItemView)
    ensures
        item.valid() <==> {
            &&& item.sequence > 0
            &&& !text::blank(item.id)
            &&& !text::blank(item.session_id)
            &&& text::parsed_u64(item.discord_user_id) is Some
            &&& text::parsed_u64(item.discord_user_id)->0 > 0
            &&& !text::blank(item.speaker)
            &&& text::single_line(item.speaker)
            &&& item.start_ms < item.end_ms
            &&& item.source_start_ms < item.source_end_ms
            &&& item.format == 1 || item.format == 2
            &&& item.format == 1 ==> {
                &&& item.role == "player"@ || item.role == "gm"@
                &&& item.discord_name == item.speaker
                &&& item.name is None
            }
            &&& item.format == 2 ==> {
                &&& !text::blank(item.role) && text::single_line(item.role)
                &&& !text::blank(item.discord_name) && text::single_line(item.discord_name)
                &&& item.name matches Some(name) ==> !text::blank(name) && text::single_line(name)
                &&& item.character is None
                &&& item.speaker == item.discord_name || item.name == Some(item.speaker)
            }
        },
{
}

/// The ID of a work item is its session and its sequence, apart by a colon; so
/// no two items of a session share one.
pub proof fn item_ids_tell_sequences(session_id: Seq<char>, sequence: u64, other: u64)
    ensures
        ({
            let id = work_items::canonical_id(session_id, sequence);
            let n = session_id.len() as int;
            &&& id.len() >= n + 7
            &&& id.take(n) == session_id
            &&& id[n] == ':'
            &&& text::all_digits(id.skip(n + 1))
            &&& text::parsed_u64(id.skip(n + 1)) == Some(sequence)
            &&& id == work_items::canonical_id(session_id, other) <==> sequence == other
        }),
{
    lemma_id(session_id, sequence);
    lemma_id(session_id, other);
}

proof fn lemma_id(session_id: Seq<char>, sequence: u64)
    ensures
        ({
            let id = work_items::canonical_id(session_id, sequence);
            let n = session_id.len() as int;
            &&& id.len() >= n + 7
            &&& id.take(n) == session_id
            &&& id[n] == ':'
            &&& text::all_digits(id.skip(n + 1))
            &&& text::parsed_u64(id.skip(n + 1)) == Some(sequence)
        }),
{
    reveal_strlit(":");
    let id = work_items::canonical_id(session_id, sequence);
    let n = session_id.len() as int;
    let padded = text::zero_padded(sequence as nat, 6);
    let plain = text::decimal(sequence as nat);
    text::lemma_decimal_is_digits(sequence as nat);
    retranscription::lemma_padded_reads_back(sequence, 6);
    assert(id.take(n) =~= session_id);
    assert(id.skip(n + 1) =~= padded);
    assert forall|i: int| 0 <= i < padded.len() implies text::is_digit(#[trigger] padded[i]) by {
        if plain.len() < 6 && i >= 6 - plain.len() {
            assert(padded[i] == plain[i - (6 - plain.len())]);
        }
    }
}

/// A line of a work manifest is read in the older layout exactly if its format
/// is 1, and not at all exactly if it has no number for its format.
pub proof fn lines_are_laid_out_by_their_format(format: Option<u64>)
    ensures
        work_items::layout_for(format) == Ok::<LineLayout, Seq<char>>(LineLayout::Legacy)
            <==> format == Some(1u64),
        work_items::layout_for(format) == Ok::<LineLayout, Seq<char>>(LineLayout::Current)
            <==> format is Some && format != Some(1u64),
{
}

/// One range stands before another if it starts earlier in the session; of
/// those that start together, if its user has the smaller number; of those of
/// one user, if it ends earlier; and of those that end together, if it does not
/// start later in the track.
pub proof fn ranges_are_ordered_by_session_time(left: CandidateRange, right: CandidateRange)
    ensures
        left.precedes(right) <==> {
            ||| left.start_sample < right.start_sample
            ||| left.start_sample == right.start_sample && left.discord_user_id
                < right.discord_user_id
            ||| left.start_sample == right.start_sample && left.discord_user_id
                == right.discord_user_id && left.end_sample < right.end_sample
            ||| left.start_sample == right.start_sample && left.discord_user_id
                == right.discord_user_id && left.end_sample == right.end_sample
                && left.source_start_sample <= right.source_start_sample
        },
{
}

/// A participant file is read in the layout of its version: the older one for
/// version 1, the current one for version 2, and none for any other.
pub proof fn participant_files_have_two_layouts(version: u32)
    ensures
        participants::layout_of(version) == Ok::<SnapshotLayout, Seq<char>>(SnapshotLayout::Legacy)
            <==> version == 1,
        participants::layout_of(version) == Ok::<SnapshotLayout, Seq<char>>(SnapshotLayout::Current)
            <==> version == 2,
{
}

/// A text can stand in a field: something is left of it without the white space
/// around it, and that on one line.
pub open spec fn fills_field(value: Seq<char>) -> bool {
    !text::blank(value) && text::single_line(text::trimmed(value))
}

/// A participant entry of the current layout is accepted exactly if its key is a
/// number other than zero, its role can stand in a field, and so can its name
/// where it has one. What is kept of it is that, trimmed.
pub proof fn current_entries_are_trimmed(user_id: Seq<char>, entry: CurrentFileParticipantView)
    ensures
        ({
            let read = participants::current_participant(user_id, entry);
            &&& read is Ok <==> {
                &&& text::parsed_u64(user_id) is Some
                &&& text::parsed_u64(user_id)->0 != 0
                &&& fills_field(entry.role)
                &&& entry.name matches Some(name) ==> fills_field(name)
            }
            &&& read matches Ok(participant) ==> {
                &&& Some(participant.discord_user_id) == text::parsed_u64(user_id)
                &&& participant.role == text::trimmed(entry.role)
                &&& participant.name == (match entry.name {
                    Some(name) => Some(text::trimmed(name)),
                    None => None,
                })
                &&& participant.character is None
                &&& participant.transcribe == entry.transcribe
            }
        }),
{
    text::trimmed_is_empty_when_blank(entry.role);
    if let Some(name) = entry.name {
        text::trimmed_is_empty_when_blank(name);
    }
}

/// A participant entry of the older layout is accepted exactly if its key is a
/// number other than zero and its character can stand in a field, where it has
/// one. It is kept with its role and without a name.
pub proof fn older_entries_are_trimmed(user_id: Seq<char>, entry: LegacyFileParticipantView)
    ensures
        ({
            let read = participants::legacy_participant(user_id, entry);
            &&& read is Ok <==> {
                &&& text::parsed_u64(user_id) is Some
                &&& text::parsed_u64(user_id)->0 != 0
                &&& entry.character matches Some(character) ==> fills_field(character)
            }
            &&& read matches Ok(participant) ==> {
                &&& Some(participant.discord_user_id) == text::parsed_u64(user_id)
                &&& participant.role == (match entry.role {
                    LegacyParticipantRole::Player => "player"@,
                    LegacyParticipantRole::Gm => "gm"@,
                })
                &&& participant.name is None
                &&& participant.character == (match entry.character {
                    Some(character) => Some(text::trimmed(character)),
                    None => None,
                })
                &&& participant.transcribe == entry.transcribe
            }
        }),
{
    if let Some(character) = entry.character {
        text::trimmed_is_empty_when_blank(character);
    }
}

/// The last entry for a user.
pub open spec fn last_entry(
    entries: Seq<Result<ParticipantView, Seq<char>>>,
    user: u64,
    i: int,
) -> bool {
    &&& 0 <= i < entries.len()
    &&& entries[i] is Ok
    &&& entries[i]->Ok_0.discord_user_id == user
    &&& forall|later: int|
        i < later < entries.len() ==> (#[trigger] entries[later])->Ok_0.discord_user_id != user
}

/// The entries of a file are accepted exactly if every one is, and then each
/// user is filed under their number with the last entry that bears it.
pub proof fn later_entries_replace_earlier_ones(entries: Seq<Result<ParticipantView, Seq<char>>>)
    ensures
        ({
            let filed = participants::filed(entries);
            &&& filed is Ok <==> (forall|i: int|
                0 <= i < entries.len() ==> (#[trigger] entries[i]) is Ok)
            &&& filed is Ok ==> forall|user: u64| #[trigger]
                filed->Ok_0.contains_key(user) <==> exists|i: int| #[trigger]
                    last_entry(entries, user, i)
            &&& filed is Ok ==> forall|user: u64, i: int| #[trigger]
                last_entry(entries, user, i) ==> filed->Ok_0[user] == entries[i]->Ok_0
        }),
    decreases entries.len(),
{
    if entries.len() > 0 {
        let n = entries.len() as int;
        let fewer = entries.drop_last();
        let last = entries.last();
        later_entries_replace_earlier_ones(fewer);
        let before = participants::filed(fewer);
        let filed = participants::filed(entries);
        assert(entries[n - 1] == last);
        assert forall|i: int| 0 <= i < n - 1 implies #[trigger] entries[i] == fewer[i] by {}
        if before is Err {
            let i = choose|i: int| 0 <= i < fewer.len() && !((#[trigger] fewer[i]) is Ok);
            assert(!(entries[i] is Ok));
        } else {
            assert forall|i: int| 0 <= i < n - 1 implies (#[trigger] entries[i]) is Ok by {
                assert(fewer[i] is Ok);
            }
        }
        if filed is Ok {
            let added = last->Ok_0.discord_user_id;
            assert(last_entry(entries, added, n - 1));
            assert forall|user: u64, i: int|
                user != added && i < n - 1 implies #[trigger] last_entry(entries, user, i)
                == last_entry(fewer, user, i) by {
                if last_entry(fewer, user, i) {
                    assert forall|later: int| i < later < n implies (
                    #[trigger] entries[later])->Ok_0.discord_user_id != user by {
                        if later < n - 1 {
                            assert(fewer[later] == entries[later]);
                        }
                    }
                }
                if last_entry(entries, user, i) {
                    assert forall|later: int| i < later < fewer.len() implies (
                    #[trigger] fewer[later])->Ok_0.discord_user_id != user by {
                        assert(fewer[later] == entries[later]);
                    }
                }
            }
            assert forall|user: u64| #[trigger]
                filed->Ok_0.contains_key(user) <==> exists|i: int| #[trigger]
                    last_entry(entries, user, i) by {
                if user != added {
                    if filed->Ok_0.contains_key(user) {
                        assert(before->Ok_0.contains_key(user));
                        let i = choose|i: int| #[trigger] last_entry(fewer, user, i);
                        assert(last_entry(entries, user, i));
                    }
                    if exists|i: int| #[trigger] last_entry(entries, user, i) {
                        let i = choose|i: int| #[trigger] last_entry(entries, user, i);
                        assert(last_entry(fewer, user, i));
                        assert(before->Ok_0.contains_key(user));
                    }
                }
            }
            assert forall|user: u64, i: int| #[trigger]
                last_entry(entries, user, i) implies filed->Ok_0[user] == entries[i]->Ok_0 by {
                if user == added {
                    if i < n - 1 {
                        assert(entries[n - 1]->Ok_0.discord_user_id != user);
                    }
                } else {
                    assert(last_entry(fewer, user, i));
                    assert(before->Ok_0.contains_key(user));
                }
            }
        }
    }
}

/// A user whom the snapshot does not mention is transcribed, as a player by a
/// snapshot of format 1 and as a participant by any other; one whom it mentions
/// is transcribed as it says.
pub proof fn unmentioned_users_are_transcribed(context: ContextView, user: u64)
    ensures
        context.admits(user) <==> !(context.participants.contains_key(user)
            && !context.participants[user].transcribe),
        context.default_role() == (if context.format_version == 1 {
            "player"@
        } else {
            "participant"@
        }),
{
}

/// Setting the policy of a user decides whether that user is transcribed, once
/// and for all later settings of others, and leaves every other user and
/// everything else of the snapshot as it was.
pub proof fn policies_are_set_for_one_user(
    context: ContextView,
    user: u64,
    transcribe: bool,
    other: u64,
)
    ensures
        ({
            let set = context.with_transcribe(user, transcribe);
            &&& set.admits(user) == transcribe
            &&& other != user ==> set.lookup(other) == context.lookup(other) && set.admits(other)
                == context.admits(other)
            &&& set.format_version == context.format_version
            &&& set.transcript_name_source == context.transcript_name_source
            &&& set.source_path == context.source_path
            &&& set.lookup(user) is Some
            &&& context.lookup(user) matches Some(before) ==> {
                &&& set.lookup(user)->0.name == before.name
                &&& set.lookup(user)->0.role == before.role
                &&& set.lookup(user)->0.character == before.character
                &&& set.lookup(user)->0.discord_user_id == before.discord_user_id
            }
            &&& context.lookup(user) is None ==> {
                &&& set.lookup(user)->0.name is None
                &&& set.lookup(user)->0.character is None
                &&& set.lookup(user)->0.role == context.default_role()
                &&& set.lookup(user)->0.discord_user_id == user
            }
            &&& set.with_transcribe(user, !transcribe).admits(user) == !transcribe
        }),
{
}

/// A role of the older layout is read in any case, and from no other word.
pub proof fn older_roles_are_two_words(value: Seq<char>)
    ensures
        LegacyParticipantRole::spec_parse(value) == Some(LegacyParticipantRole::Player)
            <==> text::same_ignoring_ascii_case(value, "player"@),
        LegacyParticipantRole::spec_parse(value) == Some(LegacyParticipantRole::Gm)
            <==> text::same_ignoring_ascii_case(value, "gm"@),
        TranscriptNameSource::Discord.spec_text() == "discord"@,
        TranscriptNameSource::Name.spec_text() == "name"@,
{
    reveal_strlit("player");
    reveal_strlit("gm");
}

/// A line of a work manifest describes an item with what stands in its fields:
/// one of the older layout under one name, one of the current layout without a
/// character.
pub proof fn lines_describe_items_by_their_fields(line: WorkItemLine)
    ensures
        line matches WorkItemLine::Legacy(fields) ==> {
            let item = line.described();
            &&& (item.format, item.sequence) == (fields.format, fields.sequence)
            &&& (item.id, item.session_id, item.source) == (
                fields.id@,
                fields.session_id@,
                fields.source@,
            )
            &&& (item.discord_user_id, item.role) == (fields.discord_user_id@, fields.role@)
            &&& (item.speaker, item.discord_name) == (fields.speaker@, fields.speaker@)
            &&& item.name is None
            &&& item.character == fields.character.deep_view()
            &&& (item.start_ms, item.end_ms) == (fields.start_ms, fields.end_ms)
            &&& (item.source_start_ms, item.source_end_ms) == (
                fields.source_start_ms,
                fields.source_end_ms,
            )
        },
        line matches WorkItemLine::Current(fields) ==> {
            let item = line.described();
            &&& (item.format, item.sequence) == (fields.format, fields.sequence)
            &&& (item.id, item.session_id, item.source) == (
                fields.id@,
                fields.session_id@,
                fields.source@,
            )
            &&& (item.discord_user_id, item.role) == (fields.discord_user_id@, fields.role@)
            &&& (item.speaker, item.discord_name) == (fields.speaker@, fields.discord_name@)
            &&& item.name == fields.name.deep_view()
            &&& item.character is None
            &&& (item.start_ms, item.end_ms) == (fields.start_ms, fields.end_ms)
            &&& (item.source_start_ms, item.source_end_ms) == (
                fields.source_start_ms,
                fields.source_end_ms,
            )
        },
{
}

/// What reading an item back from its line keeps: in format 1 all but a second
/// name, otherwise all but a character.
pub proof fn lines_keep_what_their_format_has(item: WorkItemView)
    ensures
        ({
            let kept = item.as_recorded();
            &&& kept.speaker == item.speaker
            &&& kept.role == item.role
            &&& kept.sequence == item.sequence
            &&& item.format == 1 ==> kept.discord_name == item.speaker && kept.name is None
                && kept.character == item.character
            &&& item.format != 1 ==> kept.discord_name == item.discord_name && kept.name
                == item.name && kept.character is None
            &&& (kept.format, kept.id, kept.session_id, kept.discord_user_id) == (
                item.format,
                item.id,
                item.session_id,
                item.discord_user_id,
            )
            &&& (kept.start_ms, kept.end_ms, kept.source_start_ms, kept.source_end_ms) == (
                item.start_ms,
                item.end_ms,
                item.source_start_ms,
                item.source_end_ms,
            )
            &&& kept.source == item.source
            &&& kept.as_recorded() == kept
        }),
{
}

/// A section of a snapshot is an empty line, the user in brackets, then the
/// name and the character where there is one, the role, and whether the user is
/// transcribed, each on a line.
pub proof fn sections_spell_out_participants(participant: ParticipantView)
    ensures
        ({
            let opening = "\n[participants.\""@ + text::decimal(participant.discord_user_id as nat)
                + "\"]\n"@;
            let name = "name = "@ + participants::toml_string(participant.name->0) + "\n"@;
            let character = "character = "@ + participants::toml_string(participant.character->0)
                + "\n"@;
            let closing = "role = "@ + participants::toml_string(participant.role) + "\n"@ + (
            if participant.transcribe {
                "transcribe = true\n"@
            } else {
                "transcribe = false\n"@
            });
            let section = participants::section(participant);
            &&& participant.name is None && participant.character is None ==> section == opening
                + closing
            &&& participant.name is Some && participant.character is None ==> section == opening
                + name + closing
            &&& participant.name is None && participant.character is Some ==> section == opening
                + character + closing
            &&& participant.name is Some && participant.character is Some ==> section == opening
                + name + character + closing
        }),
{
    let opening = "\n[participants.\""@ + text::decimal(participant.discord_user_id as nat)
        + "\"]\n"@;
    let name = "name = "@ + participants::toml_string(participant.name->0) + "\n"@;
    let character = "character = "@ + participants::toml_string(participant.character->0) + "\n"@;
    let role = "role = "@ + participants::toml_string(participant.role) + "\n"@;
    let policy = if participant.transcribe {
        "transcribe = true\n"@
    } else {
        "transcribe = false\n"@
    };
    let section = participants::section(participant);
    if participant.name is None && participant.character is None {
        assert(section =~= opening + (role + policy));
    } else if participant.character is None {
        assert(section =~= opening + name + (role + policy));
    } else if participant.name is None {
        assert(section =~= opening + character + (role + policy));
    } else {
        assert(section =~= opening + name + character + (role + policy));
    }
}

/// A snapshot opens with its version and, in version 2 alone, with the name that
/// transcripts show; its sections follow, a user of a smaller number first.
pub proof fn snapshots_open_with_their_version(context: ContextView)
    ensures
        context.header() == (if context.format_version == 2 {
            "version = "@ + text::decimal(2) + "\n"@ + "transcript_name_source = \""@ + (
            match context.transcript_name_source {
                TranscriptNameSource::Discord => "discord"@,
                TranscriptNameSource::Name => "name"@,
            }) + "\"\n"@
        } else {
            "version = "@ + text::decimal(context.format_version as nat) + "\n"@
        }),
        context.canonical() == context.header() + participants::sections(
            order::ascending(context.participants.dom()),
            context.participants,
        ),
{
}

/// The sections of two lists of users, one behind the other, are those of the
/// first and those of the second.
pub proof fn sections_follow_their_users(
    left: Seq<u64>,
    right: Seq<u64>,
    listed: Map<u64, ParticipantView>,
    user: u64,
)
    ensures
        participants::sections(left + right, listed) == participants::sections(left, listed)
            + participants::sections(right, listed),
        participants::sections(seq![user], listed) == participants::section(listed[user]),
    decreases right.len(),
{
    let single = seq![user];
    assert(single.drop_last() =~= Seq::<u64>::empty());
    assert(participants::sections(single.drop_last(), listed) =~= Seq::<char>::empty());
    assert(single.last() == user);
    assert(participants::sections(single, listed) =~= participants::section(listed[user]));
    if right.len() == 0 {
        assert(left + right =~= left);
        assert(participants::sections(left, listed) + participants::sections(right, listed)
            =~= participants::sections(left, listed));
    } else {
        let whole = left + right;
        assert(whole.drop_last() =~= left + right.drop_last());
        assert(whole.last() == right.last());
        sections_follow_their_users(left, right.drop_last(), listed, user);
        assert(participants::sections(whole, listed) =~= participants::sections(left, listed)
            + participants::sections(right, listed));
    }
}

/// An item is made of a range exactly if its user has a track, the range is not
/// empty and lies within the track, its ends can be told in milliseconds, and
/// the item is valid.
pub proof fn items_are_owed_to_fitting_ranges(
    session_id: Seq<char>,
    sequence: u64,
    range: CandidateRange,
    tracks: Seq<TrackView>,
    participants: ContextView,
)
    ensures
        work_items::work_item(session_id, sequence, range, tracks, participants) is Ok <==> (exists|
            t: int,
        | #[trigger]
            work_items::records_user(tracks, range.discord_user_id, t) && range.start_sample
                < range.end_sample && range.source_start_sample < range.source_end_sample
                && range.source_end_sample <= tracks[t].length_samples && range.end_sample + 47
                <= u64::MAX && range.source_end_sample + 47 <= u64::MAX && work_items::item_of(
                session_id,
                sequence,
                range,
                tracks[t],
                participants,
            ).valid()),
{
    let user = range.discord_user_id;
    work_items::lemma_track_of(tracks, user);
    if let Some(track) = work_items::track_of(tracks, user) {
        let t = choose|t: int| #[trigger]
            work_items::records_user(tracks, user, t) && tracks[t] == track;
        assert forall|u: int| #[trigger] work_items::records_user(tracks, user, u) implies u
            == t by {
            if u < t {
                assert(text::parsed_u64(tracks[t].discord_user_id) != Some(user));
            }
            if t < u {
                assert(text::parsed_u64(tracks[u].discord_user_id) != Some(user));
            }
        }
    }
}

/// Items are made of ranges exactly if one can be made of each, under the number
/// of its place.
pub proof fn items_are_owed_to_every_range(
    session_id: Seq<char>,
    ranges: Seq<CandidateRange>,
    tracks: Seq<TrackView>,
    participants: ContextView,
)
    requires
        ranges.len() <= u64::MAX,
    ensures
        work_items::numbered_items(session_id, ranges, tracks, participants) is Ok <==> (forall|
            i: int,
        |
            0 <= i < ranges.len() ==> work_items::work_item(
                session_id,
                (i + 1) as u64,
                #[trigger] ranges[i],
                tracks,
                participants,
            ) is Ok),
    decreases ranges.len(),
{
    if ranges.len() > 0 {
        let n = ranges.len() as int;
        let fewer = ranges.drop_last();
        items_are_owed_to_every_range(session_id, fewer, tracks, participants);
        assert(ranges[n - 1] == ranges.last());
        if work_items::numbered_items(session_id, fewer, tracks, participants) is Ok {
            assert forall|i: int| 0 <= i < n - 1 implies work_items::work_item(
                session_id,
                (i + 1) as u64,
                #[trigger] ranges[i],
                tracks,
                participants,
            ) is Ok by {
                assert(fewer[i] == ranges[i]);
            }
        } else {
            let i = choose|i: int|
                0 <= i < fewer.len() && !(work_items::work_item(
                    session_id,
                    (i + 1) as u64,
                    #[trigger] fewer[i],
                    tracks,
                    participants,
                ) is Ok);
            assert(ranges[i] == fewer[i]);
        }
    }
}

} // verus!
