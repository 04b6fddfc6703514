//! What trimming, joining, parting and reading text come to.

use vstd::prelude::*;

use crate::paths;
use crate::text;
use crate::vocabulary;

verus! {

proof fn lemma_found(
    whole: Seq<char>,
    left: Seq<char>,
    separator: Seq<char>,
    right: Seq<char>,
    index: int,
)
    requires
        whole == left + separator + right,
        separator.len() > 0,
        !left.contains(separator[0]),
        0 <= index <= left.len(),
    ensures
        text::find_from(whole, separator, index) == Some(left.len() as int),
    decreases left.len() - index,
{
    if index < left.len() {
        assert(whole[index] == left[index]);
        if text::stands_at(whole, separator, index) {
            assert(whole.subrange(index, index + separator.len())[0] == whole[index]);
            assert(left.contains(left[index]));
        }
        lemma_found(whole, left, separator, right, index + 1);
    } else {
        assert(whole.subrange(index, index + separator.len()) =~= separator);
    }
}

/// A text is parted where its separator stands, if no character before it could
/// start the separator.
pub proof fn texts_are_parted_at_the_separator(left: Seq<char>, separator: Seq<char>, right: Seq<char>)
    requires
        separator.len() > 0,
        !left.contains(separator[0]),
    ensures
        text::parted(left + separator + right, separator) == Some((left, right)),
{
    let whole = left + separator + right;
    lemma_found(whole, left, separator, right, 0);
    assert(whole.take(left.len() as int) =~= left);
    assert(whole.skip((left.len() + separator.len()) as int) =~= right);
}

proof fn lemma_found_stands(whole: Seq<char>, piece: Seq<char>, index: int)
    requires
        index >= 0,
    ensures
        text::find_from(whole, piece, index) matches Some(found) ==> text::stands_at(
            whole,
            piece,
            found,
        ),
    decreases whole.len() - index + 1,
{
    if index + piece.len() <= whole.len() && !text::stands_at(whole, piece, index) {
        lemma_found_stands(whole, piece, index + 1);
    }
}

/// The parts of a text and the separator between them make up the text.
pub proof fn parts_join_again(whole: Seq<char>, separator: Seq<char>)
    ensures
        text::parted(whole, separator) matches Some((left, right)) ==> whole == left + separator
            + right,
{
    lemma_found_stands(whole, separator, 0);
    if let Some(index) = text::find_from(whole, separator, 0) {
        let left = whole.take(index);
        let right = whole.skip(index + separator.len());
        assert(whole.subrange(index, index + separator.len()) == separator);
        assert(whole =~= left + whole.subrange(index, index + separator.len()) + right);
    }
}

proof fn lemma_not_found(whole: Seq<char>, separator: Seq<char>, index: int)
    requires
        separator.len() > 0,
        !whole.contains(separator[0]),
        0 <= index,
    ensures
        text::find_from(whole, separator, index) is None,
    decreases whole.len() - index + 1,
{
    if index + separator.len() <= whole.len() {
        if text::stands_at(whole, separator, index) {
            assert(whole.subrange(index, index + separator.len())[0] == whole[index]);
            assert(whole.contains(whole[index]));
        }
        lemma_not_found(whole, separator, index + 1);
    }
}

/// Trimming takes away white space, all there is at either end and nothing
/// else.
pub proof fn trimming_takes_the_white_space_around(whole: Seq<char>)
    ensures
        exists|before: Seq<char>, after: Seq<char>|
            whole == #[trigger] (before + text::trimmed(whole) + after) && text::blank(before)
                && text::blank(after),
        text::trimmed(whole).len() > 0 ==> !text::white_space(text::trimmed(whole)[0])
            && !text::white_space(text::trimmed(whole).last()),
    decreases whole.len(),
{
    let kept = text::trimmed(whole);
    let none = Seq::<char>::empty();
    if whole.len() > 0 && text::white_space(whole[0]) {
        trimming_takes_the_white_space_around(whole.skip(1));
        let (before, after) = choose|before: Seq<char>, after: Seq<char>|
            whole.skip(1) == #[trigger] (before + text::trimmed(whole.skip(1)) + after)
                && text::blank(before) && text::blank(after);
        let longer = seq![whole[0]] + before;
        assert forall|i: int| 0 <= i < longer.len() implies text::white_space(
            #[trigger] longer[i],
        ) by {
            if i > 0 {
                assert(longer[i] == before[i - 1]);
            }
        }
        assert(whole =~= seq![whole[0]] + whole.skip(1));
        assert(whole =~= longer + kept + after);
        assert(text::blank(longer));
    } else if whole.len() > 0 && text::white_space(whole.last()) {
        let fewer = whole.drop_last();
        trimming_takes_the_white_space_around(fewer);
        let (before, after) = choose|before: Seq<char>, after: Seq<char>|
            fewer == #[trigger] (before + text::trimmed(fewer) + after) && text::blank(before)
                && text::blank(after);
        let longer = after.push(whole.last());
        assert forall|i: int| 0 <= i < longer.len() implies text::white_space(
            #[trigger] longer[i],
        ) by {
            if i < after.len() {
                assert(longer[i] == after[i]);
            }
        }
        assert(whole =~= fewer.push(whole.last()));
        assert(whole =~= before + kept + longer);
        assert(text::blank(longer));
    } else {
        assert(whole =~= none + kept + none);
        assert(text::blank(none));
    }
}

/// The characters that count as white space.
pub proof fn white_space_is_unicode_white_space(c: char)
    ensures
        text::white_space(c) <==> c == '\t' || c == '\n' || c == '\u{b}' || c == '\u{c}' || c
            == '\r' || c == ' ' || c == '\u{85}' || c == '\u{a0}' || c == '\u{1680}' || (
        '\u{2000}' <= c && c <= '\u{200a}') || c == '\u{2028}' || c == '\u{2029}' || c
            == '\u{202f}' || c == '\u{205f}' || c == '\u{3000}',
{
}

/// Joining the parts of two lists is joining each and putting the separator
/// between; one part is joined to itself, and none to nothing.
pub proof fn joining_puts_separators_between(
    left: Seq<Seq<char>>,
    right: Seq<Seq<char>>,
    separator: Seq<char>,
)
    ensures
        left.len() > 0 && right.len() > 0 ==> text::joined(left + right, separator)
            == text::joined(left, separator) + separator + text::joined(right, separator),
        left.len() == 1 ==> text::joined(left, separator) == left[0],
        left.len() == 0 ==> text::joined(left, separator).len() == 0,
    decreases right.len(),
{
    if left.len() > 0 && right.len() > 0 {
        let whole = left + right;
        assert(whole.drop_last() =~= left + right.drop_last());
        assert(whole.last() == right.last());
        if right.len() == 1 {
            assert(whole.drop_last() =~= left);
        } else {
            joining_puts_separators_between(left, right.drop_last(), separator);
            assert(text::joined(whole, separator) =~= text::joined(left, separator) + separator
                + text::joined(right, separator));
        }
    }
}

/// A number below zero is written as its amount behind a minus sign, any other
/// as it is.
pub proof fn signs_are_written_before_amounts(value: int)
    ensures
        value >= 0 ==> text::signed_decimal(value) == text::decimal(value as nat),
        value < 0 ==> text::signed_decimal(value) == seq!['-'] + text::decimal((-value) as nat),
{
    reveal_strlit("-");
    assert("-"@ =~= seq!['-']);
}

/// A further digit makes a number ten times as large and adds itself, unless
/// that is out of range; anything but a digit makes it no number.
pub proof fn digits_are_read_in_order(written: Seq<char>, next: char)
    requires
        text::parsed_u64(written) is Some,
    ensures
        ({
            let longer = text::parsed_u64(written.push(next));
            let value = text::parsed_u64(written)->0 * 10 + (next as int - '0' as int);
            if '0' <= next && next <= '9' && value <= u64::MAX {
                longer is Some && longer->0 == value
            } else {
                longer is None
            }
        }),
{
    let digits = text::without_plus(written);
    let more = text::without_plus(written.push(next));
    assert(more =~= digits.push(next));
    assert(more.drop_last() =~= digits);
    if text::is_digit(next) {
        assert forall|i: int| 0 <= i < more.len() implies text::is_digit(#[trigger] more[i]) by {
            if i < digits.len() {
                assert(more[i] == digits[i]);
            }
        }
    } else {
        assert(!text::is_digit(more[digits.len() as int]));
    }
}

/// A single character is a number exactly if it is a digit; nothing is none; and
/// a plus sign before a number changes nothing, unless one stands there already.
pub proof fn numbers_start_with_a_digit(first: char, rest: Seq<char>)
    ensures
        text::parsed_u64(seq![first]) == (if '0' <= first && first <= '9' {
            Some((first as int - '0' as int) as u64)
        } else {
            None
        }),
        text::parsed_u64(Seq::empty()) is None,
        first != '+' ==> text::parsed_u64(seq!['+', first] + rest) == text::parsed_u64(
            seq![first] + rest,
        ),
        text::parsed_u64(seq!['+', '+'] + rest) is None,
{
    let single = seq![first];
    assert(single.drop_last() =~= Seq::<char>::empty());
    assert(text::digits_value(single.drop_last()) == 0);
    if first == '+' {
        assert(single.skip(1) =~= Seq::<char>::empty());
    } else {
        assert(text::without_plus(single) == single);
        if '0' <= first && first <= '9' {
            assert forall|i: int| 0 <= i < single.len() implies text::is_digit(
                #[trigger] single[i],
            ) by {}
        } else {
            assert(!text::is_digit(single[0]));
        }
    }
    let whole = seq!['+', first] + rest;
    assert(whole.skip(1) =~= seq![first] + rest);
    assert((seq![first] + rest)[0] == first);
    let doubled = seq!['+', '+'] + rest;
    assert(doubled.skip(1)[0] == '+');
    assert(!text::is_digit(doubled.skip(1)[0]));
}

/// Two characters are one, or the two cases of a letter of the English alphabet.
pub open spec fn one_letter(left: char, right: char) -> bool {
    ||| left == right
    ||| 'A' <= left && left <= 'Z' && right as int == left as int + 32
    ||| 'A' <= right && right <= 'Z' && left as int == right as int + 32
}

proof fn lemma_one_letter(left: char, right: char)
    ensures
        text::ascii_lower(left) == text::ascii_lower(right) <==> one_letter(left, right),
{
}

/// Texts are equal up to case exactly if each pair of characters is equal or a
/// letter of the English alphabet in its two cases.
pub proof fn only_english_letters_have_two_cases(left: Seq<char>, right: Seq<char>)
    ensures
        text::same_ignoring_ascii_case(left, right) <==> left.len() == right.len() && forall|i: int|
            0 <= i < left.len() ==> one_letter(#[trigger] left[i], right[i]),
{
    assert forall|i: int| 0 <= i < left.len() implies (text::ascii_lower(#[trigger] left[i])
        == text::ascii_lower(right[i]) <==> one_letter(left[i], right[i])) by {
        lemma_one_letter(left[i], right[i]);
    }
}

/// Something below a directory below the session is below the session.
pub proof fn contained_paths_join(outer: Seq<char>, inner: Seq<char>, windows: bool)
    requires
        paths::contained(outer, windows),
        paths::contained(inner, windows),
    ensures
        paths::contained(outer + seq!['/'] + inner, windows),
{
    let path = outer + seq!['/'] + inner;
    let slash = outer.len() as int;
    assert(path[0] == outer[0]);
    assert(path[slash] == '/');
    if outer.len() > 1 {
        assert(path[1] == outer[1]);
    }
    assert forall|index: int| 0 <= index < path.len() implies !#[trigger] paths::parent_at(
        path,
        index,
        windows,
    ) by {
        if paths::parent_at(path, index, windows) {
            if index > slash {
                assert(path[index] == inner[index - slash - 1]);
                assert(path[index + 1] == inner[index - slash]);
                if index + 2 < path.len() {
                    assert(path[index + 2] == inner[index - slash + 1]);
                }
                if index - 1 > slash {
                    assert(path[index - 1] == inner[index - slash - 2]);
                }
                assert(paths::parent_at(inner, index - slash - 1, windows));
            } else if index + 1 < slash {
                assert(path[index] == outer[index]);
                assert(path[index + 1] == outer[index + 1]);
                if index + 2 < slash {
                    assert(path[index + 2] == outer[index + 2]);
                }
                if index > 0 {
                    assert(path[index - 1] == outer[index - 1]);
                }
                assert(paths::parent_at(outer, index, windows));
            }
        }
    }
}

/// A path that is empty, starts at a root, starts at `.` or steps to a parent
/// anywhere is not contained; on Windows neither is one that starts at a drive
/// or uses a backslash for any of it.
pub proof fn other_paths_are_refused(before: Seq<char>, after: Seq<char>, windows: bool)
    ensures
        !paths::contained(Seq::empty(), windows),
        !paths::contained(seq!['/'] + after, windows),
        !paths::contained(seq!['\\'] + after, true),
        !paths::contained(seq!['.', '/'] + after, windows),
        !paths::contained(seq!['.'], windows),
        !paths::contained(seq!['.', '.'], windows),
        !paths::contained(seq!['.', '.', '/'] + after, windows),
        !paths::contained(before + seq!['/', '.', '.'], windows),
        !paths::contained(before + seq!['/', '.', '.', '/'] + after, windows),
        !paths::contained(before + seq!['\\', '.', '.', '\\'] + after, true),
        !paths::contained(seq!['C', ':'] + after, true),
        !paths::contained(seq!['z', ':'] + after, true),
{
    let n = before.len() as int;
    assert((seq!['/'] + after)[0] == '/');
    assert((seq!['\\'] + after)[0] == '\\');
    let here = seq!['.', '/'] + after;
    assert(here[0] == '.' && here[1] == '/');
    assert(seq!['.'][0] == '.');
    assert(paths::parent_at(seq!['.', '.'], 0, windows));
    assert(paths::parent_at(seq!['.', '.', '/'] + after, 0, windows));
    assert(paths::parent_at(before + seq!['/', '.', '.'], n + 1, windows));
    assert(paths::parent_at(before + seq!['/', '.', '.', '/'] + after, n + 1, windows));
    assert(paths::parent_at(before + seq!['\\', '.', '.', '\\'] + after, n + 1, true));
    let drive = seq!['C', ':'] + after;
    assert(drive[0] == 'C' && drive[1] == ':');
    let last = seq!['z', ':'] + after;
    assert(last[0] == 'z' && last[1] == ':');
}

/// A name of letters, digits, hyphens and underscores is contained.
pub proof fn plain_names_are_contained(name: Seq<char>, windows: bool)
    requires
        name.len() > 0,
        forall|i: int|
            0 <= i < name.len() ==> #[trigger] name[i] != '/' && name[i] != '\\' && name[i] != '.'
                && name[i] != ':',
    ensures
        paths::contained(name, windows),
{
    assert(name[0] != '/');
    if name.len() > 1 {
        assert(name[1] != ':');
    }
    assert forall|index: int| 0 <= index < name.len() implies !#[trigger] paths::parent_at(
        name,
        index,
        windows,
    ) by {
        assert(name[index] != '.');
    }
}

/// The phrases of a vocabulary are those of its lines, one line after the other.
pub proof fn vocabularies_are_read_line_by_line(line: Seq<char>, rest: Seq<char>)
    requires
        !line.contains('\n'),
    ensures
        vocabulary::phrases(line + seq!['\n'] + rest) == vocabulary::phrases(line)
            + vocabulary::phrases(rest),
        text::blank(line) ==> vocabulary::phrases(line).len() == 0,
        !text::blank(line) && text::trimmed(line)[0] == '#' ==> vocabulary::phrases(line).len()
            == 0,
        !text::blank(line) && text::trimmed(line)[0] != '#' ==> vocabulary::phrases(line) == seq![
            text::trimmed(line),
        ],
{
    reveal_strlit("\n");
    assert("\n"@ =~= seq!['\n']);
    lemma_not_found(line, "\n"@, 0);
    texts_are_parted_at_the_separator(line, "\n"@, rest);
    text::trimmed_is_empty_when_blank(line);
}

/// Why a text is no number: that it is empty; else that the digits it starts
/// with, behind a plus sign that may stand there, are too large a number; else
/// the first character that is no digit.
pub proof fn numbers_are_refused_from_the_left(whole: Seq<char>, count: int)
    requires
        ({
            let digits = text::without_plus(whole);
            &&& 0 <= count <= digits.len()
            &&& text::all_digits(digits.take(count))
            &&& count < digits.len() ==> !text::is_digit(digits[count])
        }),
    ensures
        whole.len() == 0 ==> text::number_fault(whole) == "cannot parse integer from empty string"@,
        whole.len() > 0 ==> text::number_fault(whole) == (if text::digits_value(
            text::without_plus(whole).take(count),
        ) > u64::MAX {
            "number too large to fit in target type"@
        } else {
            "invalid digit found in string"@
        }),
{
    let digits = text::without_plus(whole);
    let start = digits.take(count);
    if text::starts_too_large(digits) {
        let n = choose|n: int|
            0 <= n <= digits.len() && text::all_digits(#[trigger] digits.take(n))
                && text::digits_value(digits.take(n)) > u64::MAX;
        if n > count {
            assert(digits.take(n)[count] == digits[count]);
        }
        assert(start.take(n) =~= digits.take(n));
        text::lemma_digits_value_grows(start, n);
    }
}

} // verus!
