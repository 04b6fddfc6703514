//! Text and number forms shared by artefact readers, writers and messages.

use vstd::prelude::*;

use crate::failure::Failure;

verus! {

/// The decimal digit for a value below ten.
pub open spec fn digit(value: nat) -> char {
    if value == 0 {
        '0'
    } else if value == 1 {
        '1'
    } else if value == 2 {
        '2'
    } else if value == 3 {
        '3'
    } else if value == 4 {
        '4'
    } else if value == 5 {
        '5'
    } else if value == 6 {
        '6'
    } else if value == 7 {
        '7'
    } else if value == 8 {
        '8'
    } else {
        '9'
    }
}

/// A number written in decimal without leading zeroes.
pub open spec fn decimal(value: nat) -> Seq<char>
    decreases value,
{
    if value < 10 {
        seq![digit(value)]
    } else {
        decimal(value / 10).push(digit(value % 10))
    }
}

fn digit_text(value: u64) -> (text: &'static str)
    requires
        value < 10,
    ensures
        text@ == seq![digit(value as nat)],
{
    proof {
        reveal_strlit("0");
        reveal_strlit("1");
        reveal_strlit("2");
        reveal_strlit("3");
        reveal_strlit("4");
        reveal_strlit("5");
        reveal_strlit("6");
        reveal_strlit("7");
        reveal_strlit("8");
        reveal_strlit("9");
    }
    if value == 0 {
        "0"
    } else if value == 1 {
        "1"
    } else if value == 2 {
        "2"
    } else if value == 3 {
        "3"
    } else if value == 4 {
        "4"
    } else if value == 5 {
        "5"
    } else if value == 6 {
        "6"
    } else if value == 7 {
        "7"
    } else if value == 8 {
        "8"
    } else {
        "9"
    }
}

/// Write a number in decimal.
pub fn decimal_text(value: u64) -> (text: String)
    ensures
        text@ == decimal(value as nat),
    decreases value,
{
    if value < 10 {
        digit_text(value).to_owned()
    } else {
        let mut text = decimal_text(value / 10);
        text.append(digit_text(value % 10));
        text
    }
}

/// A signed number in decimal.
pub open spec fn signed_decimal(value: int) -> Seq<char> {
    if value < 0 {
        "-"@ + decimal((-value) as nat)
    } else {
        decimal(value as nat)
    }
}

pub fn signed_decimal_text(value: i32) -> (text: String)
    ensures
        text@ == signed_decimal(value as int),
{
    let wide: i64 = value as i64;
    if wide < 0 {
        "-".to_owned().concat(decimal_text((-wide) as u64).as_str())
    } else {
        decimal_text(wide as u64)
    }
}

/// The characters of a text, one entry each.
pub fn characters(text: &str) -> (result: Vec<char>)
    ensures
        result@ == text@,
{
    let mut result: Vec<char> = Vec::new();
    for c in it: text.chars()
        invariant
            it.seq() == text@,
            result@ == it.seq().take(it.index()),
    {
        result.push(c);
        proof {
            assert(it.seq().take(it.index() + 1) =~= it.seq().take(it.index()).push(it.seq()[it.index() as int]));
        }
    }
    assert(result@ =~= text@);
    result
}

/// A decimal number, filled with zeroes on the left up to a width.
pub open spec fn zero_padded(value: nat, width: nat) -> Seq<char> {
    let plain = decimal(value);
    if plain.len() < width {
        Seq::new((width - plain.len()) as nat, |i: int| '0') + plain
    } else {
        plain
    }
}

/// Write a number in decimal, filled with zeroes on the left up to a width.
pub fn zero_padded_text(value: u64, width: usize) -> (text: String)
    ensures
        text@ == zero_padded(value as nat, width as nat),
{
    let plain = decimal_text(value);
    let mut length: usize = plain.as_str().unicode_len();
    let mut text = String::new();
    proof {
        reveal_strlit("0");
    }
    while length < width
        invariant
            plain@ == decimal(value as nat),
            plain@.len() <= length,
            length <= width || length == plain@.len(),
            text@ == Seq::new((length - plain@.len()) as nat, |i: int| '0'),
            "0"@ == seq!['0'],
        decreases width - length,
    {
        text.append("0");
        length = length + 1;
        assert(text@ =~= Seq::new((length - plain@.len()) as nat, |i: int| '0'));
    }
    text.append(plain.as_str());
    assert(text@ =~= zero_padded(value as nat, width as nat));
    text
}

pub open spec fn is_digit(c: char) -> bool {
    '0' <= c && c <= '9'
}

pub open spec fn all_digits(text: Seq<char>) -> bool {
    forall|i: int| 0 <= i < text.len() ==> is_digit(#[trigger] text[i])
}

/// The value of a run of decimal digits.
pub open spec fn digits_value(text: Seq<char>) -> nat
    decreases text.len(),
{
    if text.len() == 0 {
        0
    } else {
        digits_value(text.drop_last()) * 10 + (text.last() as nat - '0' as nat) as nat
    }
}

/// A text without the one plus sign that may stand before an unsigned number.
pub open spec fn without_plus(text: Seq<char>) -> Seq<char> {
    if text.len() > 0 && text[0] == '+' {
        text.skip(1)
    } else {
        text
    }
}

/// The unsigned 64-bit number that a text writes out in decimal, if any: at
/// least one digit, nothing but digits behind an optional plus sign, and a
/// value within range.
pub open spec fn parsed_u64(text: Seq<char>) -> Option<u64> {
    let digits = without_plus(text);
    if digits.len() > 0 && all_digits(digits) && digits_value(digits) <= u64::MAX {
        Some(digits_value(digits) as u64)
    } else {
        None
    }
}

pub proof fn lemma_digits_value_grows(text: Seq<char>, count: int)
    requires
        0 <= count <= text.len(),
        all_digits(text),
    ensures
        digits_value(text.take(count)) <= digits_value(text),
    decreases text.len(),
{
    if count == text.len() {
        assert(text.take(count) =~= text);
    } else {
        assert(text.drop_last().take(count) =~= text.take(count));
        assert forall|i: int| 0 <= i < text.drop_last().len() implies is_digit(
            #[trigger] text.drop_last()[i],
        ) by {
            assert(is_digit(text[i]));
        }
        lemma_digits_value_grows(text.drop_last(), count);
        assert(is_digit(text[text.len() - 1]));
    }
}

/// The digits at the start of a text already make a number out of range.
pub open spec fn starts_too_large(digits: Seq<char>) -> bool {
    exists|count: int|
        0 <= count <= digits.len() && all_digits(#[trigger] digits.take(count)) && digits_value(
            digits.take(count),
        ) > u64::MAX
}

/// Why a text is no unsigned 64-bit number: what its first fault is, read from
/// the left.
pub open spec fn number_fault(text: Seq<char>) -> Seq<char> {
    if text.len() == 0 {
        "cannot parse integer from empty string"@
    } else if starts_too_large(without_plus(text)) {
        "number too large to fit in target type"@
    } else {
        "invalid digit found in string"@
    }
}

/// Read an unsigned number written in decimal, or say why it is none.
pub fn read_u64(text: &str) -> (number: Result<u64, Failure>)
    ensures
        match number {
            Ok(value) => parsed_u64(text@) == Some(value),
            Err(fault) => parsed_u64(text@) is None && fault@ == number_fault(text@),
        },
{
    let all = characters(text);
    if all.len() == 0 {
        return Err(Failure::from_text("cannot parse integer from empty string"));
    }
    let start: usize = if all[0] == '+' {
        1
    } else {
        0
    };
    let ghost digits = without_plus(text@);
    assert(digits =~= all@.skip(start as int));
    if all.len() == start {
        return Err(Failure::from_text("invalid digit found in string"));
    }
    let mut value: u64 = 0;
    let mut index: usize = start;
    assert(digits.take(0) =~= Seq::<char>::empty());
    while index < all.len()
        invariant
            start <= index <= all.len(),
            start < all.len(),
            all@ == text@,
            digits == without_plus(text@),
            digits == all@.skip(start as int),
            value == digits_value(digits.take(index - start)),
            forall|i: int| 0 <= i < index - start ==> is_digit(#[trigger] digits[i]),
        decreases all.len() - index,
    {
        let c = all[index];
        let ghost done = index - start;
        assert(digits[done] == c);
        if !('0' <= c && c <= '9') {
            proof {
                assert forall|count: int|
                    0 <= count <= digits.len() && all_digits(
                        #[trigger] digits.take(count),
                    ) implies digits_value(digits.take(count)) <= u64::MAX by {
                    if count > done {
                        assert(digits.take(count)[done] == c);
                    }
                    let read = digits.take(done);
                    assert forall|i: int| 0 <= i < read.len() implies is_digit(
                        #[trigger] read[i],
                    ) by {
                        assert(read[i] == digits[i]);
                    }
                    assert(read.take(count) =~= digits.take(count));
                    lemma_digits_value_grows(read, count);
                }
            }
            return Err(Failure::from_text("invalid digit found in string"));
        }
        let step: u64 = (c as u32 - '0' as u32) as u64;
        let ghost longer = digits.take(done + 1);
        proof {
            assert(longer.drop_last() =~= digits.take(done));
            assert(longer.last() == c);
            assert forall|i: int| 0 <= i < longer.len() implies is_digit(#[trigger] longer[i]) by {
                assert(longer[i] == digits[i]);
            }
            if all_digits(digits) {
                lemma_digits_value_grows(digits, done + 1);
            }
        }
        match value.checked_mul(10) {
            None => {
                return Err(Failure::from_text("number too large to fit in target type"));
            },
            Some(scaled) => {
                match scaled.checked_add(step) {
                    None => {
                        return Err(Failure::from_text("number too large to fit in target type"));
                    },
                    Some(sum) => {
                        value = sum;
                    },
                }
            },
        }
        index = index + 1;
    }
    assert(digits.take(digits.len() as int) =~= digits);
    Ok(value)
}

/// Read an unsigned number written in decimal.
pub fn parse_u64(text: &str) -> (number: Option<u64>)
    ensures
        number == parsed_u64(text@),
{
    match read_u64(text) {
        Ok(value) => Some(value),
        Err(_) => None,
    }
}

proof fn lemma_digit(value: nat)
    requires
        value < 10,
    ensures
        is_digit(digit(value)),
        digit(value) as nat - '0' as nat == value,
{
}

pub proof fn lemma_decimal_is_digits(value: nat)
    ensures
        decimal(value).len() > 0,
        all_digits(decimal(value)),
        digits_value(decimal(value)) == value,
    decreases value,
{
    if value < 10 {
        lemma_digit(value);
        assert(decimal(value).drop_last() =~= Seq::<char>::empty());
        assert(digits_value(decimal(value).drop_last()) == 0);
        assert(decimal(value).last() == digit(value));
    } else {
        lemma_decimal_is_digits(value / 10);
        lemma_digit(value % 10);
        assert(decimal(value).drop_last() =~= decimal(value / 10));
        assert(decimal(value).last() == digit(value % 10));
        assert forall|i: int| 0 <= i < decimal(value).len() implies is_digit(
            #[trigger] decimal(value)[i],
        ) by {
            if i < decimal(value / 10).len() {
                assert(decimal(value)[i] == decimal(value / 10)[i]);
            }
        }
    }
}

/// A number written in decimal reads back as itself.
pub proof fn decimal_reads_back(value: u64)
    ensures
        parsed_u64(decimal(value as nat)) == Some(value),
{
    lemma_decimal_is_digits(value as nat);
    assert(is_digit(decimal(value as nat)[0]));
    assert(without_plus(decimal(value as nat)) == decimal(value as nat));
}

/// Two numbers with the same decimal form are the same number.
pub proof fn decimal_is_injective(left: nat, right: nat)
    requires
        decimal(left) == decimal(right),
    ensures
        left == right,
{
    lemma_decimal_is_digits(left);
    lemma_decimal_is_digits(right);
}

/// The Unicode White_Space property.
pub open spec fn white_space(c: char) -> bool {
    let point = c as u32;
    ||| 0x9 <= point && point <= 0xd
    ||| point == 0x20
    ||| point == 0x85
    ||| point == 0xa0
    ||| point == 0x1680
    ||| 0x2000 <= point && point <= 0x200a
    ||| point == 0x2028
    ||| point == 0x2029
    ||| point == 0x202f
    ||| point == 0x205f
    ||| point == 0x3000
}

pub fn is_white_space(c: char) -> (result: bool)
    ensures
        result == white_space(c),
{
    let point: u32 = c as u32;
    (0x9 <= point && point <= 0xd) || point == 0x20 || point == 0x85 || point == 0xa0 || point
        == 0x1680 || (0x2000 <= point && point <= 0x200a) || point == 0x2028 || point == 0x2029
        || point == 0x202f || point == 0x205f || point == 0x3000
}

/// Nothing but white space.
pub open spec fn blank(text: Seq<char>) -> bool {
    forall|i: int| 0 <= i < text.len() ==> white_space(#[trigger] text[i])
}

/// A text without white space at either end.
pub open spec fn trimmed(text: Seq<char>) -> Seq<char>
    decreases text.len(),
{
    if text.len() > 0 && white_space(text[0]) {
        trimmed(text.skip(1))
    } else if text.len() > 0 && white_space(text.last()) {
        trimmed(text.drop_last())
    } else {
        text
    }
}

/// Trimming leaves nothing exactly of a blank text.
pub proof fn trimmed_is_empty_when_blank(text: Seq<char>)
    ensures
        (trimmed(text).len() == 0) == blank(text),
    decreases text.len(),
{
    if text.len() > 0 && white_space(text[0]) {
        trimmed_is_empty_when_blank(text.skip(1));
        if blank(text.skip(1)) {
            assert forall|i: int| 0 <= i < text.len() implies white_space(#[trigger] text[i]) by {
                if i > 0 {
                    assert(text[i] == text.skip(1)[i - 1]);
                }
            }
        }
        if blank(text) {
            assert forall|i: int| 0 <= i < text.skip(1).len() implies white_space(
                #[trigger] text.skip(1)[i],
            ) by {
                assert(text.skip(1)[i] == text[i + 1]);
            }
        }
    } else if text.len() > 0 && white_space(text.last()) {
        assert(!white_space(text[0]));
        trimmed_is_empty_when_blank(text.drop_last());
        if text.len() > 1 {
            assert(text.drop_last()[0] == text[0]);
        }
    } else if text.len() > 0 {
        assert(!white_space(text[0]));
    }
}

/// Trimming a trimmed text changes nothing.
pub proof fn trimming_is_done_once(text: Seq<char>)
    ensures
        trimmed(trimmed(text)) == trimmed(text),
    decreases text.len(),
{
    if text.len() > 0 && white_space(text[0]) {
        trimming_is_done_once(text.skip(1));
    } else if text.len() > 0 && white_space(text.last()) {
        trimming_is_done_once(text.drop_last());
    }
}

/// Whether a text holds nothing but white space.
pub fn is_blank(text: &str) -> (result: bool)
    ensures
        result == blank(text@),
{
    let all = characters(text);
    let mut index: usize = 0;
    while index < all.len()
        invariant
            index <= all.len(),
            all@ == text@,
            forall|i: int| 0 <= i < index ==> white_space(#[trigger] text@[i]),
        decreases all.len() - index,
    {
        if !is_white_space(all[index]) {
            assert(!white_space(text@[index as int]));
            return false;
        }
        index = index + 1;
    }
    true
}

/// Remove the white space at both ends.
pub fn trim(text: &str) -> (result: &str)
    ensures
        result@ == trimmed(text@),
{
    let all = characters(text);
    let mut start: usize = 0;
    assert(text@.subrange(0, text@.len() as int) =~= text@);
    while start < all.len() && is_white_space(all[start])
        invariant
            start <= all.len(),
            all@ == text@,
            trimmed(text@.subrange(start as int, text@.len() as int)) == trimmed(text@),
        decreases all.len() - start,
    {
        assert(text@.subrange(start as int, text@.len() as int).skip(1) =~= text@.subrange(
            start + 1,
            text@.len() as int,
        ));
        start = start + 1;
    }
    let mut end: usize = all.len();
    while end > start && is_white_space(all[end - 1])
        invariant
            start <= end <= all.len(),
            all@ == text@,
            start < end ==> !white_space(text@[start as int]),
            trimmed(text@.subrange(start as int, end as int)) == trimmed(text@),
        decreases end,
    {
        assert(text@.subrange(start as int, end as int).drop_last() =~= text@.subrange(
            start as int,
            end - 1,
        ));
        end = end - 1;
    }
    text.substring_char(start, end)
}

/// No line break within.
pub open spec fn single_line(text: Seq<char>) -> bool {
    forall|i: int| 0 <= i < text.len() ==> #[trigger] text[i] != '\n' && text[i] != '\r'
}

pub fn is_single_line(text: &str) -> (result: bool)
    ensures
        result == single_line(text@),
{
    let all = characters(text);
    let mut index: usize = 0;
    while index < all.len()
        invariant
            index <= all.len(),
            all@ == text@,
            forall|i: int| 0 <= i < index ==> #[trigger] text@[i] != '\n' && text@[i] != '\r',
        decreases all.len() - index,
    {
        if all[index] == '\n' || all[index] == '\r' {
            assert(!(text@[index as int] != '\n' && text@[index as int] != '\r'));
            return false;
        }
        index = index + 1;
    }
    true
}

/// Whether two texts hold the same characters.
pub fn same_text(left: &str, right: &str) -> (result: bool)
    ensures
        result == (left@ == right@),
{
    left.to_owned() == right.to_owned()
}

/// A copy of a text that may be absent.
pub fn copy_optional(value: &Option<String>) -> (copy: Option<String>)
    ensures
        copy.deep_view() == value.deep_view(),
{
    match value {
        Some(text) => Some(text.clone()),
        None => None,
    }
}

/// What follows a prefix, where the text starts with it.
pub open spec fn after_prefix(text: Seq<char>, prefix: Seq<char>) -> Option<Seq<char>> {
    if prefix.len() <= text.len() && text.take(prefix.len() as int) == prefix {
        Some(text.skip(prefix.len() as int))
    } else {
        None
    }
}

pub fn strip_prefix<'a>(text: &'a str, prefix: &str) -> (rest: Option<&'a str>)
    ensures
        rest.deep_view() == after_prefix(text@, prefix@),
{
    let length: usize = text.unicode_len();
    let count: usize = prefix.unicode_len();
    if count > length {
        return None;
    }
    assert(text@.take(count as int) =~= text@.subrange(0, count as int));
    if same_text(text.substring_char(0, count), prefix) {
        assert(text@.skip(count as int) =~= text@.subrange(count as int, length as int));
        Some(text.substring_char(count, length))
    } else {
        None
    }
}

/// A piece of text stands at an index.
pub open spec fn stands_at(text: Seq<char>, piece: Seq<char>, index: int) -> bool {
    &&& 0 <= index
    &&& index + piece.len() <= text.len()
    &&& text.subrange(index, index + piece.len()) == piece
}

/// The first index, from one on, at which a piece of text stands.
pub open spec fn find_from(text: Seq<char>, piece: Seq<char>, index: int) -> Option<int>
    decreases text.len() - index + 1,
{
    if index < 0 || index + piece.len() > text.len() {
        None
    } else if stands_at(text, piece, index) {
        Some(index)
    } else {
        find_from(text, piece, index + 1)
    }
}

/// What stands before and after the first occurrence of a separator.
pub open spec fn parted(text: Seq<char>, separator: Seq<char>) -> Option<(Seq<char>, Seq<char>)> {
    match find_from(text, separator, 0) {
        Some(index) => Some((text.take(index), text.skip(index + separator.len()))),
        None => None,
    }
}

pub fn split_once<'a>(text: &'a str, separator: &str) -> (parts: Option<(&'a str, &'a str)>)
    ensures
        parts.deep_view() == parted(text@, separator@),
{
    let length: usize = text.unicode_len();
    let count: usize = separator.unicode_len();
    if count > length {
        return None;
    }
    let mut index: usize = 0;
    while index <= length - count
        invariant
            count <= length,
            length == text@.len(),
            count == separator@.len(),
            index <= length - count + 1,
            find_from(text@, separator@, 0) == find_from(text@, separator@, index as int),
        decreases length - count + 1 - index,
    {
        if same_text(text.substring_char(index, index + count), separator) {
            assert(text@.take(index as int) =~= text@.subrange(0, index as int));
            assert(text@.skip(index + count) =~= text@.subrange(index + count, length as int));
            return Some(
                (text.substring_char(0, index), text.substring_char(index + count, length)),
            );
        }
        if index == length - count {
            assert(find_from(text@, separator@, index + 1) is None);
            return None;
        }
        index = index + 1;
    }
    None
}

/// Texts in order, separated.
pub open spec fn joined(parts: Seq<Seq<char>>, separator: Seq<char>) -> Seq<char>
    decreases parts.len(),
{
    if parts.len() == 0 {
        Seq::empty()
    } else if parts.len() == 1 {
        parts[0]
    } else {
        joined(parts.drop_last(), separator) + separator + parts.last()
    }
}

pub fn join(parts: &Vec<String>, separator: &str) -> (text: String)
    ensures
        text@ == joined(parts.deep_view(), separator@),
{
    let mut text = String::new();
    let mut index: usize = 0;
    let ghost views = parts.deep_view();
    assert(views.take(0) =~= Seq::<Seq<char>>::empty());
    while index < parts.len()
        invariant
            index <= parts.len(),
            views == parts.deep_view(),
            text@ == joined(views.take(index as int), separator@),
        decreases parts.len() - index,
    {
        if index > 0 {
            text.append(separator);
        }
        text.append(parts[index].as_str());
        proof {
            let longer = views.take(index + 1);
            assert(longer.drop_last() =~= views.take(index as int));
            assert(longer.last() == parts@[index as int]@);
            if index == 0 {
                assert(text@ =~= longer[0]);
            }
        }
        index = index + 1;
    }
    assert(views.take(views.len() as int) =~= views);
    text
}

/// A letter of the ASCII alphabet in lower case; any other character as it is.
pub open spec fn ascii_lower(c: char) -> u32 {
    if 'A' <= c && c <= 'Z' {
        (c as u32 + 32) as u32
    } else {
        c as u32
    }
}

/// Equal up to the case of ASCII letters.
pub open spec fn same_ignoring_ascii_case(left: Seq<char>, right: Seq<char>) -> bool {
    left.len() == right.len() && forall|i: int|
        0 <= i < left.len() ==> ascii_lower(#[trigger] left[i]) == ascii_lower(right[i])
}

fn lower_point(c: char) -> (point: u32)
    ensures
        point == ascii_lower(c),
{
    if 'A' <= c && c <= 'Z' {
        c as u32 + 32
    } else {
        c as u32
    }
}

pub fn eq_ignore_ascii_case(left: &str, right: &str) -> (result: bool)
    ensures
        result == same_ignoring_ascii_case(left@, right@),
{
    let first = characters(left);
    let second = characters(right);
    if first.len() != second.len() {
        return false;
    }
    let mut index: usize = 0;
    while index < first.len()
        invariant
            index <= first.len(),
            first.len() == second.len(),
            first@ == left@,
            second@ == right@,
            forall|i: int|
                0 <= i < index ==> ascii_lower(#[trigger] left@[i]) == ascii_lower(right@[i]),
        decreases first.len() - index,
    {
        if lower_point(first[index]) != lower_point(second[index]) {
            assert(ascii_lower(left@[index as int]) != ascii_lower(right@[index as int]));
            return false;
        }
        index = index + 1;
    }
    true
}

/// The form in which the standard library's `Debug` shows a text: quoted and
/// escaped.
pub uninterp spec fn debug_form(text: Seq<char>) -> Seq<char>;

/// `{:?}` of the standard library on a `str`. Its result is named, not
/// described: it is a function of the characters shown.
#[verifier::external_body]
pub(crate) fn debug_text(text: &str) -> (shown: String)
    ensures
        shown@ == debug_form(text@),
{
    format!("{text:?}")
}

} // verus!
