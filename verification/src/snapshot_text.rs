//! What the text of a participant snapshot tells of its context.

use vstd::prelude::*;

use crate::artifacts::LEGACY_PARTICIPANT_SNAPSHOT_FORMAT_VERSION;
use crate::artifacts::PARTICIPANT_SNAPSHOT_FORMAT_VERSION;
use crate::order;
use crate::participants;
use crate::participants::ContextView;
use crate::participants::ParticipantView;
use crate::participants::TranscriptNameSource;
use crate::text;

verus! {

/// Lines, each closed by a line break.
pub open spec fn closed_lines(lines: Seq<Seq<char>>) -> Seq<char>
    decreases lines.len(),
{
    if lines.len() == 0 {
        Seq::empty()
    } else {
        lines[0] + seq!['\n'] + closed_lines(lines.skip(1))
    }
}

/// None of some lines holds a line break.
pub open spec fn unbroken(lines: Seq<Seq<char>>) -> bool {
    forall|i: int| 0 <= i < lines.len() ==> text::single_line(#[trigger] lines[i])
}

proof fn lemma_lines_are_told_apart(left: Seq<Seq<char>>, right: Seq<Seq<char>>)
    requires
        unbroken(left),
        unbroken(right),
        closed_lines(left) == closed_lines(right),
    ensures
        left == right,
    decreases left.len(),
{
    let whole = closed_lines(left);
    if left.len() == 0 || right.len() == 0 {
        if left.len() > 0 {
            assert(closed_lines(left)[left[0].len() as int] == '\n');
        }
        if right.len() > 0 {
            assert(closed_lines(right)[right[0].len() as int] == '\n');
        }
        assert(left =~= right);
    } else {
        let first = left[0];
        let other = right[0];
        let rest = closed_lines(left.skip(1));
        let beyond = closed_lines(right.skip(1));
        assert(whole == first + seq!['\n'] + rest);
        assert(whole == other + seq!['\n'] + beyond);
        assert(whole[first.len() as int] == '\n');
        assert(whole[other.len() as int] == '\n');
        if first.len() < other.len() {
            assert(whole[first.len() as int] == other[first.len() as int]);
        }
        if other.len() < first.len() {
            assert(whole[other.len() as int] == first[other.len() as int]);
        }
        assert forall|i: int| 0 <= i < first.len() implies first[i] == other[i] by {
            assert(whole[i] == first[i] && whole[i] == other[i]);
        }
        assert(first =~= other);
        assert(rest =~= whole.skip(first.len() as int + 1));
        assert(beyond =~= whole.skip(other.len() as int + 1));
        assert forall|i: int| 0 <= i < left.skip(1).len() implies text::single_line(
            #[trigger] left.skip(1)[i],
        ) by {
            assert(left.skip(1)[i] == left[i + 1]);
        }
        assert forall|i: int| 0 <= i < right.skip(1).len() implies text::single_line(
            #[trigger] right.skip(1)[i],
        ) by {
            assert(right.skip(1)[i] == right[i + 1]);
        }
        lemma_lines_are_told_apart(left.skip(1), right.skip(1));
        assert(left =~= seq![first] + left.skip(1));
        assert(right =~= seq![other] + right.skip(1));
    }
}

proof fn lemma_lines_joined(left: Seq<Seq<char>>, right: Seq<Seq<char>>)
    ensures
        closed_lines(left + right) == closed_lines(left) + closed_lines(right),
    decreases left.len(),
{
    if left.len() == 0 {
        assert(left + right =~= right);
        assert(closed_lines(left) + closed_lines(right) =~= closed_lines(right));
    } else {
        lemma_lines_joined(left.skip(1), right);
        assert((left + right).skip(1) =~= left.skip(1) + right);
        assert((left + right)[0] == left[0]);
        assert(closed_lines(left + right) =~= closed_lines(left) + closed_lines(right));
    }
}

proof fn lemma_one_line(line: Seq<char>)
    ensures
        closed_lines(seq![line]) == line + seq!['\n'],
{
    reveal_with_fuel(closed_lines, 2);
    assert(seq![line].skip(1) =~= Seq::<Seq<char>>::empty());
    assert(closed_lines(seq![line]) =~= line + seq!['\n']);
}

proof fn lemma_one_more_line(lines: Seq<Seq<char>>, line: Seq<char>)
    ensures
        closed_lines(lines.push(line)) == closed_lines(lines) + line + seq!['\n'],
{
    lemma_lines_joined(lines, seq![line]);
    lemma_one_line(line);
    assert(lines.push(line) =~= lines + seq![line]);
    assert(closed_lines(lines.push(line)) =~= closed_lines(lines) + line + seq!['\n']);
}

/// The line that opens the section of a user.
pub open spec fn user_line(user_id: u64) -> Seq<char> {
    "[participants.\""@ + text::decimal(user_id as nat) + "\"]"@
}

pub open spec fn transcribe_line(transcribe: bool) -> Seq<char> {
    if transcribe {
        "transcribe = true"@
    } else {
        "transcribe = false"@
    }
}

/// The lines of what a section says of the name and the character of a user.
pub open spec fn described(participant: ParticipantView) -> Seq<Seq<char>> {
    let named = match participant.name {
        Some(name) => seq!["name = "@ + participants::toml_string(name)],
        None => Seq::empty(),
    };
    match participant.character {
        Some(character) => named.push("character = "@ + participants::toml_string(character)),
        None => named,
    }
}

/// The lines of the section of a participant.
pub open spec fn section_lines(participant: ParticipantView) -> Seq<Seq<char>> {
    (seq![Seq::<char>::empty(), user_line(participant.discord_user_id)] + described(
        participant,
    )).push("role = "@ + participants::toml_string(participant.role)).push(
        transcribe_line(participant.transcribe),
    )
}

/// The lines of the sections of some users.
pub open spec fn sections_lines(ids: Seq<u64>, participants: Map<u64, ParticipantView>) -> Seq<
    Seq<char>,
>
    decreases ids.len(),
{
    if ids.len() == 0 {
        Seq::empty()
    } else {
        sections_lines(ids.drop_last(), participants) + section_lines(participants[ids.last()])
    }
}

pub open spec fn source_line(source: TranscriptNameSource) -> Seq<char> {
    "transcript_name_source = \""@ + source.spec_text() + "\""@
}

pub open spec fn header_lines(context: ContextView) -> Seq<Seq<char>> {
    let version = seq!["version = "@ + text::decimal(context.format_version as nat)];
    if context.format_version == PARTICIPANT_SNAPSHOT_FORMAT_VERSION {
        version.push(source_line(context.transcript_name_source))
    } else {
        version
    }
}

/// The lines of a snapshot.
pub open spec fn snapshot_lines(context: ContextView) -> Seq<Seq<char>> {
    header_lines(context) + sections_lines(
        order::ascending(context.participants.dom()),
        context.participants,
    )
}

/// Every text that a snapshot quotes for a participant stands on one line.
pub open spec fn on_single_lines(participant: ParticipantView) -> bool {
    &&& participant.name matches Some(name) ==> text::single_line(name)
    &&& participant.character matches Some(character) ==> text::single_line(character)
    &&& text::single_line(participant.role)
}

/// A snapshot of the context leaves nothing out, and quotes no text of several
/// lines.
pub open spec fn plain(context: ContextView) -> bool {
    &&& context.wf()
    &&& context.format_version == LEGACY_PARTICIPANT_SNAPSHOT_FORMAT_VERSION
        ==> context.transcript_name_source == TranscriptNameSource::Discord
    &&& forall|id: u64| #[trigger]
        context.participants.contains_key(id) ==> on_single_lines(context.participants[id])
}

proof fn lemma_literals_end_lines()
    ensures
        "\n"@ == seq!['\n'],
        "\n[participants.\""@ == seq!['\n'] + "[participants.\""@,
        "\"]\n"@ == "\"]"@ + seq!['\n'],
        "transcribe = true\n"@ == "transcribe = true"@ + seq!['\n'],
        "transcribe = false\n"@ == "transcribe = false"@ + seq!['\n'],
        "\"\n"@ == "\""@ + seq!['\n'],
{
    reveal_strlit("\n");
    reveal_strlit("\n[participants.\"");
    reveal_strlit("[participants.\"");
    reveal_strlit("\"]\n");
    reveal_strlit("\"]");
    reveal_strlit("transcribe = true\n");
    reveal_strlit("transcribe = true");
    reveal_strlit("transcribe = false\n");
    reveal_strlit("transcribe = false");
    reveal_strlit("\"\n");
    reveal_strlit("\"");
    assert("\n"@ =~= seq!['\n']);
    assert("\n[participants.\""@ =~= seq!['\n'] + "[participants.\""@);
    assert("\"]\n"@ =~= "\"]"@ + seq!['\n']);
    assert("transcribe = true\n"@ =~= "transcribe = true"@ + seq!['\n']);
    assert("transcribe = false\n"@ =~= "transcribe = false"@ + seq!['\n']);
    assert("\"\n"@ =~= "\""@ + seq!['\n']);
}

proof fn lemma_section_is_its_lines(participant: ParticipantView)
    ensures
        participants::section(participant) == closed_lines(section_lines(participant)),
{
    lemma_literals_end_lines();
    let opening = seq![Seq::<char>::empty(), user_line(participant.discord_user_id)];
    let id = text::decimal(participant.discord_user_id as nat);
    lemma_one_line(Seq::<char>::empty());
    lemma_one_more_line(
        seq![Seq::<char>::empty()],
        user_line(participant.discord_user_id),
    );
    assert(seq![Seq::<char>::empty()].push(user_line(participant.discord_user_id)) =~= opening);
    let head = "\n[participants.\""@ + id + "\"]\n"@;
    assert(closed_lines(opening) =~= head);
    let named = match participant.name {
        Some(name) => head + "name = "@ + participants::toml_string(name) + "\n"@,
        None => head,
    };
    let named_lines = match participant.name {
        Some(name) => opening.push("name = "@ + participants::toml_string(name)),
        None => opening,
    };
    if let Some(name) = participant.name {
        lemma_one_more_line(opening, "name = "@ + participants::toml_string(name));
    }
    assert(closed_lines(named_lines) =~= named);
    let cast = match participant.character {
        Some(character) => named + "character = "@ + participants::toml_string(character)
            + "\n"@,
        None => named,
    };
    let cast_lines = match participant.character {
        Some(character) => named_lines.push(
            "character = "@ + participants::toml_string(character),
        ),
        None => named_lines,
    };
    if let Some(character) = participant.character {
        lemma_one_more_line(
            named_lines,
            "character = "@ + participants::toml_string(character),
        );
    }
    assert(closed_lines(cast_lines) =~= cast);
    assert(opening + described(participant) =~= cast_lines);
    let role = "role = "@ + participants::toml_string(participant.role);
    lemma_one_more_line(cast_lines, role);
    lemma_one_more_line(cast_lines.push(role), transcribe_line(participant.transcribe));
    assert(closed_lines(section_lines(participant)) =~= participants::section(participant));
}

proof fn lemma_sections_are_their_lines(ids: Seq<u64>, participants: Map<u64, ParticipantView>)
    ensures
        participants::sections(ids, participants) == closed_lines(
            sections_lines(ids, participants),
        ),
    decreases ids.len(),
{
    if ids.len() > 0 {
        lemma_sections_are_their_lines(ids.drop_last(), participants);
        lemma_section_is_its_lines(participants[ids.last()]);
        lemma_lines_joined(
            sections_lines(ids.drop_last(), participants),
            section_lines(participants[ids.last()]),
        );
    }
}

proof fn lemma_snapshot_is_its_lines(context: ContextView)
    ensures
        context.canonical() == closed_lines(snapshot_lines(context)),
{
    let ids = order::ascending(context.participants.dom());
    lemma_literals_end_lines();
    lemma_sections_are_their_lines(ids, context.participants);
    let version = "version = "@ + text::decimal(context.format_version as nat);
    lemma_one_line(version);
    if context.format_version == PARTICIPANT_SNAPSHOT_FORMAT_VERSION {
        lemma_one_more_line(seq![version], source_line(context.transcript_name_source));
    }
    assert(closed_lines(header_lines(context)) =~= context.header());
    lemma_lines_joined(header_lines(context), sections_lines(ids, context.participants));
}

proof fn lemma_joined_single_line(left: Seq<char>, right: Seq<char>)
    requires
        text::single_line(left),
        text::single_line(right),
    ensures
        text::single_line(left + right),
{
    assert forall|i: int| 0 <= i < (left + right).len() implies #[trigger] (left + right)[i]
        != '\n' && (left + right)[i] != '\r' by {
        if i < left.len() {
            assert((left + right)[i] == left[i]);
        } else {
            assert((left + right)[i] == right[i - left.len()]);
        }
    }
}

proof fn lemma_decimal_single_line(value: nat)
    ensures
        text::single_line(text::decimal(value)),
{
    text::lemma_decimal_is_digits(value);
    let digits = text::decimal(value);
    assert forall|i: int| 0 <= i < digits.len() implies #[trigger] digits[i] != '\n' && digits[i]
        != '\r' by {
        assert(text::is_digit(digits[i]));
    }
}

proof fn lemma_literals_are_unbroken()
    ensures
        text::single_line("[participants.\""@),
        text::single_line("\"]"@),
        text::single_line("name = "@),
        text::single_line("character = "@),
        text::single_line("role = "@),
        text::single_line("transcribe = true"@),
        text::single_line("transcribe = false"@),
        text::single_line("version = "@),
        text::single_line("transcript_name_source = \""@),
        text::single_line("\""@),
        text::single_line("discord"@),
        text::single_line("name"@),
{
    reveal_strlit("[participants.\"");
    reveal_strlit("\"]");
    reveal_strlit("name = ");
    reveal_strlit("character = ");
    reveal_strlit("role = ");
    reveal_strlit("transcribe = true");
    reveal_strlit("transcribe = false");
    reveal_strlit("version = ");
    reveal_strlit("transcript_name_source = \"");
    reveal_strlit("\"");
    reveal_strlit("discord");
    reveal_strlit("name");
}

proof fn lemma_section_is_unbroken(participant: ParticipantView)
    requires
        on_single_lines(participant),
        participant.legible(),
    ensures
        unbroken(section_lines(participant)),
{
    lemma_literals_are_unbroken();
    let id = text::decimal(participant.discord_user_id as nat);
    lemma_decimal_single_line(participant.discord_user_id as nat);
    lemma_joined_single_line("[participants.\""@, id);
    lemma_joined_single_line("[participants.\""@ + id, "\"]"@);
    if let Some(name) = participant.name {
        lemma_joined_single_line("name = "@, participants::toml_string(name));
    }
    if let Some(character) = participant.character {
        lemma_joined_single_line("character = "@, participants::toml_string(character));
    }
    lemma_joined_single_line("role = "@, participants::toml_string(participant.role));
    let opening = seq![Seq::<char>::empty(), user_line(participant.discord_user_id)];
    let told = described(participant);
    let lines = section_lines(participant);
    assert forall|i: int| 0 <= i < lines.len() implies text::single_line(#[trigger] lines[i]) by {
        if i < 2 {
            assert(lines[i] == opening[i]);
        } else if i < 2 + told.len() {
            assert(lines[i] == told[i - 2]);
        }
    }
}

/// Each of some users is filed under their own ID, in texts of one line.
spec fn listed(ids: Seq<u64>, participants: Map<u64, ParticipantView>) -> bool {
    forall|i: int|
        0 <= i < ids.len() ==> {
            let participant = #[trigger] participants[ids[i]];
            &&& participants.contains_key(ids[i])
            &&& participant.discord_user_id == ids[i]
            &&& on_single_lines(participant)
            &&& participant.legible()
        }
}

proof fn lemma_fewer_listed(
    ids: Seq<u64>,
    participants: Map<u64, ParticipantView>,
)
    requires
        ids.len() > 0,
        listed(ids, participants),
    ensures
        listed(ids.drop_last(), participants),
{
    let fewer = ids.drop_last();
    assert forall|i: int| 0 <= i < fewer.len() implies {
        let participant = #[trigger] participants[fewer[i]];
        &&& participants.contains_key(fewer[i])
        &&& participant.discord_user_id == fewer[i]
        &&& on_single_lines(participant)
        &&& participant.legible()
    } by {
        assert(participants[fewer[i]] == participants[ids[i]]);
    }
}

proof fn lemma_sections_are_unbroken(
    ids: Seq<u64>,
    participants: Map<u64, ParticipantView>,
)
    requires
        listed(ids, participants),
    ensures
        unbroken(sections_lines(ids, participants)),
    decreases ids.len(),
{
    if ids.len() > 0 {
        lemma_fewer_listed(ids, participants);
        lemma_sections_are_unbroken(ids.drop_last(), participants);
        let last = participants[ids[ids.len() - 1]];
        lemma_section_is_unbroken(last);
        lemma_unbroken_joined(
            sections_lines(ids.drop_last(), participants),
            section_lines(last),
        );
    }
}

proof fn lemma_unbroken_joined(left: Seq<Seq<char>>, right: Seq<Seq<char>>)
    requires
        unbroken(left),
        unbroken(right),
    ensures
        unbroken(left + right),
{
    assert forall|i: int| 0 <= i < (left + right).len() implies text::single_line(
        #[trigger] (left + right)[i],
    ) by {
        if i < left.len() {
            assert((left + right)[i] == left[i]);
        } else {
            assert((left + right)[i] == right[i - left.len()]);
        }
    }
}

proof fn lemma_header_is_unbroken(context: ContextView)
    ensures
        unbroken(header_lines(context)),
{
    lemma_literals_are_unbroken();
    lemma_decimal_single_line(context.format_version as nat);
    lemma_joined_single_line("version = "@, text::decimal(context.format_version as nat));
    let source = context.transcript_name_source.spec_text();
    lemma_joined_single_line("transcript_name_source = \""@, source);
    lemma_joined_single_line("transcript_name_source = \""@ + source, "\""@);
}

/// What follows a common start is told apart as the whole is.
proof fn lemma_same_tail(start: Seq<char>, left: Seq<char>, right: Seq<char>)
    requires
        start + left == start + right,
    ensures
        left == right,
{
    assert(left =~= (start + left).skip(start.len() as int));
    assert(right =~= (start + right).skip(start.len() as int));
}

proof fn lemma_same_user(left: u64, right: u64)
    requires
        user_line(left) == user_line(right),
    ensures
        left == right,
{
    let start = "[participants.\""@;
    let end = "\"]"@;
    let first = text::decimal(left as nat);
    let second = text::decimal(right as nat);
    assert(user_line(left) =~= start + (first + end));
    assert(user_line(right) =~= start + (second + end));
    lemma_same_tail(start, first + end, second + end);
    assert(first =~= (first + end).take((first + end).len() - end.len()));
    assert(second =~= (second + end).take((second + end).len() - end.len()));
    text::decimal_is_injective(left as nat, right as nat);
}

/// The first characters of the lines of a section.
proof fn lemma_line_starts(participant: ParticipantView)
    ensures
        user_line(participant.discord_user_id)[0] == '[',
        participant.name matches Some(name) ==> ("name = "@ + participants::toml_string(
            name,
        ))[0] == 'n',
        participant.character matches Some(character) ==> ("character = "@
            + participants::toml_string(character))[0] == 'c',
{
    reveal_strlit("[participants.\"");
    reveal_strlit("name = ");
    reveal_strlit("character = ");
}

proof fn lemma_last_section_is_told_apart(
    before: Seq<Seq<char>>,
    left: ParticipantView,
    earlier: Seq<Seq<char>>,
    right: ParticipantView,
)
    requires
        left.legible(),
        before + section_lines(left) == earlier + section_lines(right),
    ensures
        before == earlier,
        left == right,
{
    let whole = before + section_lines(left);
    let end = whole.len() as int;
    let p = section_lines(left);
    let q = section_lines(right);
    lemma_line_starts(left);
    lemma_line_starts(right);
    assert forall|back: int| 1 <= back <= p.len() implies #[trigger] whole[end - back] == p[p.len()
        - back] by {}
    assert forall|back: int| 1 <= back <= q.len() implies #[trigger] whole[end - back] == q[q.len()
        - back] by {}
    // Both sections close with the policy and the role.
    assert(whole[end - 1] == transcribe_line(left.transcribe));
    assert(whole[end - 1] == transcribe_line(right.transcribe));
    reveal_strlit("transcribe = true");
    reveal_strlit("transcribe = false");
    assert("transcribe = true"@.len() == 17 && "transcribe = false"@.len() == 18);
    assert(left.transcribe == right.transcribe);
    assert(whole[end - 2] == "role = "@ + participants::toml_string(left.role));
    assert(whole[end - 2] == "role = "@ + participants::toml_string(right.role));
    lemma_same_tail(
        "role = "@,
        participants::toml_string(left.role),
        participants::toml_string(right.role),
    );
    assert(left.role == right.role);
    // The lines between them and the opening line show by their first characters.
    let cast: int = if left.character is Some {
        1
    } else {
        0
    };
    let named: int = if left.name is Some {
        1
    } else {
        0
    };
    assert(described(left).len() == cast + named);
    if let Some(character) = left.character {
        assert(whole[end - 3] == "character = "@ + participants::toml_string(character));
    } else if let Some(name) = left.name {
        assert(whole[end - 3] == "name = "@ + participants::toml_string(name));
    } else {
        assert(whole[end - 3] == user_line(left.discord_user_id));
    }
    if let Some(character) = right.character {
        assert(whole[end - 3] == "character = "@ + participants::toml_string(character));
    } else if let Some(name) = right.name {
        assert(whole[end - 3] == "name = "@ + participants::toml_string(name));
    } else {
        assert(whole[end - 3] == user_line(right.discord_user_id));
    }
    assert(left.character is Some == right.character is Some);
    if let Some(character) = left.character {
        lemma_same_tail(
            "character = "@,
            participants::toml_string(character),
            participants::toml_string(right.character->0),
        );
    }
    if let Some(name) = left.name {
        assert(whole[end - 3 - cast] == "name = "@ + participants::toml_string(name));
    } else {
        assert(whole[end - 3 - cast] == user_line(left.discord_user_id));
    }
    if let Some(name) = right.name {
        assert(whole[end - 3 - cast] == "name = "@ + participants::toml_string(name));
    } else {
        assert(whole[end - 3 - cast] == user_line(right.discord_user_id));
    }
    assert(left.name is Some == right.name is Some);
    if let Some(name) = left.name {
        lemma_same_tail(
            "name = "@,
            participants::toml_string(name),
            participants::toml_string(right.name->0),
        );
    }
    assert(whole[end - 3 - cast - named] == user_line(left.discord_user_id));
    assert(whole[end - 3 - cast - named] == user_line(right.discord_user_id));
    lemma_same_user(left.discord_user_id, right.discord_user_id);
    assert(before =~= whole.take(end - p.len()));
    assert(earlier =~= whole.take(end - q.len()));
}

proof fn lemma_sections_are_told_apart(
    ids: Seq<u64>,
    participants: Map<u64, ParticipantView>,
    others: Seq<u64>,
    others_participants: Map<u64, ParticipantView>,
)
    requires
        listed(ids, participants),
        listed(others, others_participants),
        sections_lines(ids, participants) == sections_lines(others, others_participants),
    ensures
        ids == others,
        forall|i: int|
            0 <= i < ids.len() ==> #[trigger] participants[ids[i]] == others_participants[ids[i]],
    decreases ids.len(),
{
    if ids.len() > 0 && others.len() > 0 {
        let left = participants[ids[ids.len() - 1]];
        let right = others_participants[others[others.len() - 1]];
        lemma_last_section_is_told_apart(
            sections_lines(ids.drop_last(), participants),
            left,
            sections_lines(others.drop_last(), others_participants),
            right,
        );
        lemma_fewer_listed(ids, participants);
        lemma_fewer_listed(others, others_participants);
        lemma_sections_are_told_apart(
            ids.drop_last(),
            participants,
            others.drop_last(),
            others_participants,
        );
        assert(ids =~= ids.drop_last().push(left.discord_user_id));
        assert(others =~= others.drop_last().push(right.discord_user_id));
        assert forall|i: int| 0 <= i < ids.len() implies #[trigger] participants[ids[i]]
            == others_participants[ids[i]] by {
            if i < ids.len() - 1 {
                assert(ids.drop_last()[i] == ids[i]);
                assert(participants[ids.drop_last()[i]] == others_participants[ids.drop_last()[i]]);
            }
        }
    } else {
        if ids.len() > 0 {
            assert(section_lines(participants[ids.last()]).len() > 0);
        }
        if others.len() > 0 {
            assert(section_lines(others_participants[others.last()]).len() > 0);
        }
        assert(ids =~= others);
    }
}

proof fn lemma_all_listed(context: ContextView)
    requires
        plain(context),
        context.legible(),
    ensures
        listed(
            order::ascending(context.participants.dom()),
            context.participants,
        ),
        order::ascending(context.participants.dom()).to_set() == context.participants.dom(),
{
    order::ascending_lists_the_set(context.participants.dom());
    let ids = order::ascending(context.participants.dom());
    assert forall|i: int| 0 <= i < ids.len() implies {
        let participant = #[trigger] context.participants[ids[i]];
        &&& context.participants.contains_key(ids[i])
        &&& participant.discord_user_id == ids[i]
        &&& on_single_lines(participant)
        &&& participant.legible()
    } by {
        assert(ids.to_set().contains(ids[i]));
    }
}

/// What a participant file gives is plain.
pub proof fn readable_contexts_are_plain(context: ContextView)
    requires
        context.readable(),
    ensures
        plain(context),
{
    reveal_strlit("player");
    reveal_strlit("gm");
    assert forall|id: u64| #[trigger] context.participants.contains_key(
        id,
    ) implies on_single_lines(context.participants[id]) by {}
}

/// To record a policy keeps a context plain.
pub proof fn policies_keep_contexts_plain(context: ContextView, id: u64, transcribe: bool)
    requires
        plain(context),
    ensures
        plain(context.with_transcribe(id, transcribe)),
{
    reveal_strlit("player");
    reveal_strlit("participant");
    let changed = context.with_transcribe(id, transcribe);
    assert forall|other: u64| #[trigger] changed.participants.contains_key(
        other,
    ) implies on_single_lines(changed.participants[other]) by {
        if other != id {
            assert(context.participants.contains_key(other));
        }
    }
}

/// The text of a snapshot is the whole of its context: two contexts whose
/// snapshots were written, and have the same text, say the same of the same
/// users, in the same format and under the same naming rule.
pub proof fn snapshots_tell_contexts_apart(left: ContextView, right: ContextView)
    requires
        plain(left),
        left.legible(),
        plain(right),
        right.legible(),
        left.canonical() == right.canonical(),
    ensures
        right == left.read_from(right.source_path),
{
    let ids = order::ascending(left.participants.dom());
    let others = order::ascending(right.participants.dom());
    lemma_all_listed(left);
    lemma_all_listed(right);
    lemma_snapshot_is_its_lines(left);
    lemma_snapshot_is_its_lines(right);
    lemma_header_is_unbroken(left);
    lemma_header_is_unbroken(right);
    lemma_sections_are_unbroken(ids, left.participants);
    lemma_sections_are_unbroken(others, right.participants);
    lemma_unbroken_joined(header_lines(left), sections_lines(ids, left.participants));
    lemma_unbroken_joined(header_lines(right), sections_lines(others, right.participants));
    lemma_lines_are_told_apart(snapshot_lines(left), snapshot_lines(right));
    let lines = snapshot_lines(left);
    assert(lines[0] == "version = "@ + text::decimal(left.format_version as nat));
    assert(lines[0] == "version = "@ + text::decimal(right.format_version as nat));
    lemma_same_tail(
        "version = "@,
        text::decimal(left.format_version as nat),
        text::decimal(right.format_version as nat),
    );
    text::decimal_is_injective(left.format_version as nat, right.format_version as nat);
    if left.format_version == PARTICIPANT_SNAPSHOT_FORMAT_VERSION {
        assert(lines[1] == source_line(left.transcript_name_source));
        assert(lines[1] == source_line(right.transcript_name_source));
        reveal_strlit("discord");
        reveal_strlit("name");
        assert("discord"@.len() == 7 && "name"@.len() == 4);
    }
    let size = header_lines(left).len() as int;
    assert(header_lines(right).len() == size);
    assert(sections_lines(ids, left.participants) =~= lines.skip(size));
    assert(sections_lines(others, right.participants) =~= lines.skip(size));
    lemma_sections_are_told_apart(
        ids,
        left.participants,
        others,
        right.participants,
    );
    assert forall|id: u64| left.participants.contains_key(id) implies left.participants[id]
        == right.participants[id] by {
        assert(ids.to_set().contains(id));
        let i = choose|i: int| 0 <= i < ids.len() && ids[i] == id;
        assert(left.participants[ids[i]] == right.participants[ids[i]]);
    }
    assert(left.participants =~= right.participants);
}

} // verus!
