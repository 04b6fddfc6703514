//! The vocabulary that the transcription worker is told to expect.

use vstd::prelude::*;

use crate::text;

verus! {

/// The phrase that a line holds: what is left of it without the white space
/// around it, unless that is nothing or a comment.
pub open spec fn phrase(line: Seq<char>) -> Seq<Seq<char>> {
    let kept = text::trimmed(line);
    if kept.len() == 0 || kept[0] == '#' {
        Seq::empty()
    } else {
        seq![kept]
    }
}

/// The phrases of a vocabulary, in order: one for each line that holds one.
pub open spec fn phrases(vocabulary: Seq<char>) -> Seq<Seq<char>>
    decreases vocabulary.len(),
{
    match text::parted(vocabulary, "\n"@) {
        Some((line, rest)) if rest.len() < vocabulary.len() => phrase(line) + phrases(rest),
        _ => phrase(vocabulary),
    }
}

proof fn lemma_found_within(characters: Seq<char>, piece: Seq<char>, index: int)
    ensures
        text::find_from(characters, piece, index) matches Some(found) ==> 0 <= found && found
            + piece.len() <= characters.len(),
    decreases characters.len() - index + 1,
{
    if 0 <= index && index + piece.len() <= characters.len() && !text::stands_at(
        characters,
        piece,
        index,
    ) {
        lemma_found_within(characters, piece, index + 1);
    }
}

/// File the phrase of a line, if it holds one.
fn read_line(hotwords: &mut Vec<String>, line: &str)
    ensures
        final(hotwords).deep_view() == old(hotwords).deep_view() + phrase(line@),
{
    let kept = text::trim(line);
    if kept.unicode_len() > 0 && kept.get_char(0) != '#' {
        hotwords.push(kept.to_owned());
        assert(hotwords.deep_view() =~= old(hotwords).deep_view() + seq![kept@]);
    } else {
        assert(hotwords.deep_view() =~= old(hotwords).deep_view() + Seq::<Seq<char>>::empty());
    }
}

/// Read a vocabulary. Blank lines and lines that start with `#` hold no phrase;
/// a `#` further on belongs to its phrase.
pub fn read_vocabulary(vocabulary: &str) -> (hotwords: Vec<String>)
    ensures
        hotwords.deep_view() == phrases(vocabulary@),
{
    let mut hotwords: Vec<String> = Vec::new();
    let mut rest = vocabulary;
    proof {
        reveal_strlit("\n");
        assert(hotwords.deep_view() + phrases(rest@) =~= phrases(vocabulary@));
    }
    loop
        invariant
            "\n"@.len() == 1,
            hotwords.deep_view() + phrases(rest@) == phrases(vocabulary@),
        decreases rest@.len(),
    {
        let ghost before = hotwords.deep_view();
        match text::split_once(rest, "\n") {
            Some((line, tail)) => {
                proof {
                    lemma_found_within(rest@, "\n"@, 0);
                }
                read_line(&mut hotwords, line);
                assert(before + (phrase(line@) + phrases(tail@)) =~= before + phrase(line@)
                    + phrases(tail@));
                rest = tail;
            },
            None => {
                read_line(&mut hotwords, rest);
                return hotwords;
            },
        }
    }
}

} // verus!
