//! What a transcript tells of the results it was rendered from.

use vstd::prelude::*;

use crate::results;
use crate::results::ResultView;
use crate::text;

verus! {

/// The value of a decimal digit.
pub open spec fn digit_at(line: Seq<char>, index: int) -> int {
    line[index] as int - '0' as int
}

/// A number is filled with zeroes up to a width and no further, and its digits
/// still make up the number.
pub proof fn padding_keeps_the_number(value: nat, width: nat)
    ensures
        text::all_digits(text::zero_padded(value, width)),
        text::digits_value(text::zero_padded(value, width)) == value,
        text::zero_padded(value, width).len() >= width,
        text::zero_padded(value, width).len() > width ==> text::zero_padded(value, width)
            == text::decimal(value),
{
    let plain = text::decimal(value);
    text::lemma_decimal_is_digits(value);
    let padded = text::zero_padded(value, width);
    if plain.len() < width {
        let fill = Seq::new((width - plain.len()) as nat, |i: int| '0');
        lemma_leading_zeroes((width - plain.len()) as nat, plain);
        assert forall|i: int| 0 <= i < padded.len() implies text::is_digit(
            #[trigger] padded[i],
        ) by {
            if i >= fill.len() {
                assert(padded[i] == plain[i - fill.len()]);
            }
        }
    }
}

proof fn lemma_leading_zeroes(count: nat, digits: Seq<char>)
    ensures
        text::digits_value(Seq::new(count, |i: int| '0') + digits) == text::digits_value(digits),
    decreases count + digits.len(),
{
    let whole = Seq::new(count, |i: int| '0') + digits;
    if digits.len() > 0 {
        lemma_leading_zeroes(count, digits.drop_last());
        assert(whole.drop_last() =~= Seq::new(count, |i: int| '0') + digits.drop_last());
        assert(whole.last() == digits.last());
    } else if count > 0 {
        lemma_leading_zeroes((count - 1) as nat, digits);
        assert(whole.drop_last() =~= Seq::new((count - 1) as nat, |i: int| '0') + digits);
        assert(whole.last() == '0');
    }
}

/// A number below a hundred is shown as its two digits.
proof fn lemma_two_digits(value: nat)
    requires
        value < 100,
    ensures
        text::zero_padded(value, 2).len() == 2,
        text::is_digit(text::zero_padded(value, 2)[0]),
        text::is_digit(text::zero_padded(value, 2)[1]),
        digit_at(text::zero_padded(value, 2), 0) * 10 + digit_at(text::zero_padded(value, 2), 1)
            == value,
{
    let padded = text::zero_padded(value, 2);
    padding_keeps_the_number(value, 2);
    reveal_with_fuel(text::decimal, 3);
    assert(padded.len() == 2);
    reveal_with_fuel(text::digits_value, 3);
    assert(padded.drop_last().last() == padded[0]);
    assert(padded.drop_last().drop_last().len() == 0);
}

/// Hours, minutes and seconds of a moment.
pub open spec fn tells_time(hours: nat, minutes: nat, seconds: nat, start_ms: u64) -> bool {
    &&& minutes < 60
    &&& seconds < 60
    &&& hours * 3_600 + minutes * 60 + seconds == start_ms / 1_000
}

/// A line shows the hours, minutes and seconds that have passed when the result
/// starts, then who speaks, then what was said.
pub open spec fn shows(
    line: Seq<char>,
    hours: nat,
    minutes: nat,
    seconds: nat,
    result: ResultView,
) -> bool {
    line == "["@ + text::zero_padded(hours, 2) + ":"@ + text::zero_padded(minutes, 2) + ":"@
        + text::zero_padded(seconds, 2) + "] "@ + result.speaker + ": "@ + result.text + "\n"@
}

/// Every transcript line shows the whole second at which its result starts, as
/// hours, minutes below sixty and seconds below sixty.
pub proof fn lines_show_when_results_start(result: ResultView)
    ensures
        exists|hours: nat, minutes: nat, seconds: nat|
            tells_time(hours, minutes, seconds, result.start_ms) && #[trigger] shows(
                results::line_of(result),
                hours,
                minutes,
                seconds,
                result,
            ),
{
    let elapsed = (result.start_ms / 1_000) as nat;
    let hours = elapsed / 3_600;
    let minutes = (elapsed % 3_600) / 60;
    let seconds = elapsed % 60;
    assert(tells_time(hours, minutes, seconds, result.start_ms));
    assert(shows(results::line_of(result), hours, minutes, seconds, result));
}

/// Within the first hundred hours the time stands in the first eleven
/// characters of a line, as in `[00:12:34] `, and its digits count the seconds
/// at which the result starts.
#[verifier::rlimit(40)]
pub proof fn digits_of_a_line_count_the_seconds(result: ResultView)
    requires
        result.start_ms < 360_000_000,
    ensures
        ({
            let line = results::line_of(result);
            &&& line.len() >= 11
            &&& line[0] == '['
            &&& line[3] == ':'
            &&& line[6] == ':'
            &&& line[9] == ']'
            &&& line[10] == ' '
            &&& 0 <= digit_at(line, 1) <= 9 && 0 <= digit_at(line, 2) <= 9
            &&& 0 <= digit_at(line, 4) <= 5 && 0 <= digit_at(line, 5) <= 9
            &&& 0 <= digit_at(line, 7) <= 5 && 0 <= digit_at(line, 8) <= 9
            &&& (digit_at(line, 1) * 10 + digit_at(line, 2)) * 3_600 + (digit_at(line, 4) * 10
                + digit_at(line, 5)) * 60 + (digit_at(line, 7) * 10 + digit_at(line, 8))
                == result.start_ms / 1_000
            &&& line.skip(11) == result.speaker + seq![':', ' '] + result.text + seq!['\n']
        }),
{
    lines_show_when_results_start(result);
    let line = results::line_of(result);
    let (hours, minutes, seconds) = choose|hours: nat, minutes: nat, seconds: nat|
        tells_time(hours, minutes, seconds, result.start_ms) && #[trigger] shows(
            line,
            hours,
            minutes,
            seconds,
            result,
        );
    assert(hours < 100);
    let h = text::zero_padded(hours, 2);
    let m = text::zero_padded(minutes, 2);
    let s = text::zero_padded(seconds, 2);
    lemma_two_digits(hours);
    lemma_two_digits(minutes);
    lemma_two_digits(seconds);
    reveal_strlit("[");
    reveal_strlit(":");
    reveal_strlit("] ");
    reveal_strlit(": ");
    reveal_strlit("\n");
    let rest = result.speaker + seq![':', ' '] + result.text + seq!['\n'];
    assert(": "@ =~= seq![':', ' ']);
    assert("\n"@ =~= seq!['\n']);
    assert(line =~= seq!['[', h[0], h[1], ':', m[0], m[1], ':', s[0], s[1], ']', ' '] + rest);
    assert(line.skip(11) =~= rest);
}

/// A transcript is told result by result: that of more results is that of the
/// first ones followed by that of the others.
pub proof fn transcripts_join(left: Seq<ResultView>, right: Seq<ResultView>)
    ensures
        results::transcript_of(left + right) == results::transcript_of(left)
            + results::transcript_of(right),
    decreases right.len(),
{
    let whole = left + right;
    if right.len() == 0 {
        assert(whole =~= left);
        assert(results::transcript_of(left) + results::transcript_of(right)
            =~= results::transcript_of(left));
    } else {
        transcripts_join(left, right.drop_last());
        assert(whole.drop_last() =~= left + right.drop_last());
        assert(whole.last() == right.last());
        assert(results::transcript_of(whole) =~= results::transcript_of(left)
            + results::transcript_of(right));
    }
}

/// A result is told in one line of its own, unless it says nothing.
pub proof fn results_are_told_in_a_line(result: ResultView)
    ensures
        (forall|i: int|
            0 <= i < result.text.len() ==> text::white_space(#[trigger] result.text[i]))
            ==> results::transcript_of(seq![result]) == Seq::<char>::empty(),
        (exists|i: int|
            0 <= i < result.text.len() && !text::white_space(#[trigger] result.text[i]))
            ==> results::transcript_of(seq![result]) == results::line_of(result),
{
    reveal_with_fuel(results::transcript_of, 2);
    let one = seq![result];
    assert(one.drop_last() =~= Seq::<ResultView>::empty());
    assert(results::transcript_of(one.drop_last()) =~= Seq::<char>::empty());
    assert(Seq::<char>::empty() + results::line_of(result) =~= results::line_of(result));
}

} // verus!
