//! Newline-terminated records, as the work manifest, the transcription results
//! and the event journal hold them.

use vstd::prelude::*;

verus! {

pub const NEWLINE: u8 = 10;

/// Nothing is cut off at the end: the bytes are empty or close a record.
pub open spec fn closed(bytes: Seq<u8>) -> bool {
    bytes.len() == 0 || bytes.last() == NEWLINE
}

/// How many bytes belong to closed records.
pub open spec fn committed_length(bytes: Seq<u8>) -> nat
    decreases bytes.len(),
{
    if closed(bytes) {
        bytes.len()
    } else {
        committed_length(bytes.drop_last())
    }
}

/// The pieces between newlines.
pub open spec fn lines(bytes: Seq<u8>) -> Seq<Seq<u8>>
    decreases bytes.len(),
{
    if bytes.len() == 0 {
        seq![Seq::empty()]
    } else {
        let earlier = lines(bytes.drop_last());
        if bytes.last() == NEWLINE {
            earlier.push(Seq::empty())
        } else {
            earlier.update(earlier.len() - 1, earlier.last().push(bytes.last()))
        }
    }
}

/// The records of closed bytes: the pieces between newlines, without the piece
/// behind the last newline. Bytes without content hold no record.
pub open spec fn records(bytes: Seq<u8>) -> Seq<Seq<u8>> {
    let body = if bytes.len() > 0 && bytes.last() == NEWLINE {
        bytes.drop_last()
    } else {
        bytes
    };
    if body.len() == 0 {
        Seq::empty()
    } else {
        lines(body)
    }
}

pub proof fn lemma_closed_is_committed(bytes: Seq<u8>)
    requires
        closed(bytes),
    ensures
        committed_length(bytes) == bytes.len(),
        bytes.take(committed_length(bytes) as int) == bytes,
{
    assert(bytes.take(bytes.len() as int) =~= bytes);
}

pub proof fn lemma_lines_not_empty(bytes: Seq<u8>)
    ensures
        lines(bytes).len() > 0,
    decreases bytes.len(),
{
    if bytes.len() > 0 {
        lemma_lines_not_empty(bytes.drop_last());
    }
}

/// Whether nothing is cut off at the end.
pub fn is_closed(bytes: &Vec<u8>) -> (result: bool)
    ensures
        result == closed(bytes@),
{
    bytes.len() == 0 || bytes[bytes.len() - 1] == NEWLINE
}

/// Count the bytes of closed records.
pub fn find_committed_length(bytes: &Vec<u8>) -> (length: usize)
    ensures
        length == committed_length(bytes@),
        length <= bytes@.len(),
        closed(bytes@.take(length as int)),
{
    let mut length: usize = bytes.len();
    assert(bytes@.take(length as int) =~= bytes@);
    while length > 0 && bytes[length - 1] != NEWLINE
        invariant
            length <= bytes@.len(),
            committed_length(bytes@) == committed_length(bytes@.take(length as int)),
        decreases length,
    {
        assert(bytes@.take(length as int).drop_last() =~= bytes@.take(length - 1));
        length = length - 1;
    }
    length
}

/// Split the first bytes of a buffer, up to a length, at newlines.
pub fn split_lines(bytes: &Vec<u8>, length: usize) -> (result: Vec<Vec<u8>>)
    requires
        length <= bytes@.len(),
    ensures
        result.deep_view() == lines(bytes@.take(length as int)),
{
    let mut result: Vec<Vec<u8>> = Vec::new();
    let mut current: Vec<u8> = Vec::new();
    let mut index: usize = 0;
    assert(bytes@.take(0) =~= Seq::<u8>::empty());
    assert(result.deep_view().push(current@) =~= lines(bytes@.take(0)));
    while index < length
        invariant
            index <= length,
            length <= bytes@.len(),
            result.deep_view().push(current@) == lines(bytes@.take(index as int)),
        decreases length - index,
    {
        let byte: u8 = bytes[index];
        let ghost before = result.deep_view();
        proof {
            assert(bytes@.take(index + 1).drop_last() =~= bytes@.take(index as int));
            assert(bytes@.take(index + 1).last() == byte);
        }
        if byte == NEWLINE {
            let ghost ended = current@;
            assert(current.deep_view() =~= current@);
            result.push(current);
            current = Vec::new();
            assert(result.deep_view() =~= before.push(ended));
            assert(result.deep_view().push(current@) =~= lines(bytes@.take(index + 1)));
        } else {
            current.push(byte);
            assert(result.deep_view().push(current@) =~= lines(bytes@.take(index + 1)));
        }
        index = index + 1;
    }
    let ghost before = result.deep_view();
    let ghost ended = current@;
    assert(current.deep_view() =~= current@);
    result.push(current);
    assert(result.deep_view() =~= before.push(ended));
    result
}

/// Split the first bytes of a buffer, up to a length, into records.
pub fn split_records(bytes: &Vec<u8>, length: usize) -> (result: Vec<Vec<u8>>)
    requires
        length <= bytes@.len(),
    ensures
        result.deep_view() == records(bytes@.take(length as int)),
{
    let ghost taken = bytes@.take(length as int);
    let end: usize = if length > 0 && bytes[length - 1] == NEWLINE {
        length - 1
    } else {
        length
    };
    assert(end < length ==> taken.drop_last() =~= bytes@.take(end as int));
    if end == 0 {
        let result: Vec<Vec<u8>> = Vec::new();
        assert(result.deep_view() =~= records(taken));
        return result;
    }
    split_lines(bytes, end)
}

proof fn lemma_tail_is_dropped(committed: Seq<u8>, tail: Seq<u8>)
    requires
        closed(committed),
        forall|i: int| 0 <= i < tail.len() ==> #[trigger] tail[i] != NEWLINE,
    ensures
        committed_length(committed + tail) == committed.len(),
    decreases tail.len(),
{
    let whole = committed + tail;
    if tail.len() == 0 {
        assert(whole =~= committed);
    } else {
        assert(whole.last() == tail[tail.len() - 1]);
        assert(whole.drop_last() =~= committed + tail.drop_last());
        assert forall|i: int| 0 <= i < tail.drop_last().len() implies #[trigger] tail.drop_last()[i]
            != NEWLINE by {
            assert(tail.drop_last()[i] == tail[i]);
        }
        lemma_tail_is_dropped(committed, tail.drop_last());
    }
}

/// A record cut off while it was being written is not seen: whatever follows
/// the last newline, the committed bytes and their records are those of the
/// closed records before it. Dropping the tail leaves nothing further to drop.
pub proof fn interrupted_writes_are_not_seen(committed: Seq<u8>, tail: Seq<u8>)
    requires
        closed(committed),
        forall|i: int| 0 <= i < tail.len() ==> #[trigger] tail[i] != NEWLINE,
    ensures
        (committed + tail).take(committed_length(committed + tail) as int) == committed,
        committed_length(committed) == committed.len(),
{
    lemma_tail_is_dropped(committed, tail);
    assert((committed + tail).take(committed.len() as int) =~= committed);
}

proof fn lemma_lines_of_joined(left: Seq<u8>, right: Seq<u8>)
    ensures
        lines(left.push(NEWLINE) + right) == lines(left) + lines(right),
    decreases right.len(),
{
    let whole = left.push(NEWLINE) + right;
    lemma_lines_not_empty(right);
    if right.len() == 0 {
        assert(whole =~= left.push(NEWLINE));
        assert(whole.drop_last() =~= left);
        assert(lines(whole) =~= lines(left) + lines(right));
    } else {
        assert(whole.drop_last() =~= left.push(NEWLINE) + right.drop_last());
        assert(whole.last() == right.last());
        lemma_lines_of_joined(left, right.drop_last());
        lemma_lines_not_empty(right.drop_last());
        assert(lines(whole) =~= lines(left) + lines(right));
    }
}

/// Appending a record to closed bytes appends it to their records.
pub proof fn appended_records_follow(bytes: Seq<u8>, record: Seq<u8>)
    requires
        bytes.len() > 1,
        bytes.last() == NEWLINE,
        record.len() > 0,
        forall|i: int| 0 <= i < record.len() ==> #[trigger] record[i] != NEWLINE,
    ensures
        records(bytes + record.push(NEWLINE)) == records(bytes).push(record),
{
    let whole = bytes + record.push(NEWLINE);
    assert(whole.last() == NEWLINE);
    assert(whole.drop_last() =~= bytes.drop_last().push(NEWLINE) + record);
    lemma_lines_of_joined(bytes.drop_last(), record);
    lemma_single_line(record);
    assert(records(whole) =~= records(bytes).push(record));
}

proof fn lemma_single_line(record: Seq<u8>)
    requires
        forall|i: int| 0 <= i < record.len() ==> #[trigger] record[i] != NEWLINE,
    ensures
        lines(record) == seq![record],
    decreases record.len(),
{
    if record.len() == 0 {
        assert(record =~= Seq::empty());
    } else {
        assert forall|i: int| 0 <= i < record.drop_last().len() implies #[trigger] record.drop_last()[i]
            != NEWLINE by {
            assert(record.drop_last()[i] == record[i]);
        }
        lemma_single_line(record.drop_last());
        assert(record.drop_last().push(record.last()) =~= record);
        assert(record[record.len() - 1] != NEWLINE);
        assert(lines(record) =~= seq![record]);
    }
}

} // verus!
