//! Lines in a stream of bytes.
//!
//! A line ends with a line feed. The line feed is not part of the line, nor
//! is one carriage return right before it. What follows the last line feed
//! is the unfinished line.

use vstd::prelude::*;
use vstd::utf8::{decode_utf8, valid_utf8};

verus! {

pub const LINE_FEED: u8 = 0x0A;

pub const CARRIAGE_RETURN: u8 = 0x0D;

/// The unfinished line: the bytes after the last line feed.
pub open spec fn unfinished(bytes: Seq<u8>) -> Seq<u8>
    decreases bytes.len(),
{
    if bytes.len() == 0 || bytes.last() == LINE_FEED {
        Seq::empty()
    } else {
        unfinished(bytes.drop_last()).push(bytes.last())
    }
}

/// A line as it stood before its line feed, without the carriage return
/// that may end it.
pub open spec fn trimmed(line: Seq<u8>) -> Seq<u8> {
    if line.len() > 0 && line.last() == CARRIAGE_RETURN {
        line.drop_last()
    } else {
        line
    }
}

/// The finished lines, in order, each without its terminator.
pub open spec fn finished_lines(bytes: Seq<u8>) -> Seq<Seq<u8>>
    decreases bytes.len(),
{
    if bytes.len() == 0 {
        Seq::empty()
    } else if bytes.last() == LINE_FEED {
        finished_lines(bytes.drop_last()).push(trimmed(unfinished(bytes.drop_last())))
    } else {
        finished_lines(bytes.drop_last())
    }
}

/// Whether a line holds no line feed, as a line must.
pub open spec fn is_one_line(line: Seq<u8>) -> bool {
    forall|j: int| 0 <= j < line.len() ==> line[j] != LINE_FEED
}

/// The chunks of a stream, joined in order.
pub open spec fn joined(chunks: Seq<Seq<u8>>) -> Seq<u8>
    decreases chunks.len(),
{
    if chunks.len() == 0 {
        Seq::empty()
    } else {
        joined(chunks.drop_last()) + chunks.last()
    }
}

/// The position of the first line at or after `from` that is not text, or
/// the number of lines if there is none.
pub open spec fn next_unreadable(lines: Seq<Seq<u8>>, from: int) -> int
    decreases lines.len() - from,
{
    if from < 0 || from >= lines.len() {
        lines.len() as int
    } else if !valid_utf8(lines[from]) {
        from
    } else {
        next_unreadable(lines, from + 1)
    }
}

/// The number of lines before the first one that is not text.
pub open spec fn readable(lines: Seq<Seq<u8>>) -> int {
    next_unreadable(lines, 0)
}

/// The text of each line.
pub open spec fn texts(lines: Seq<Seq<u8>>) -> Seq<Seq<char>> {
    Seq::new(lines.len(), |i: int| decode_utf8(lines[i]))
}

/// Every line before the first unreadable one is text, and that one is not.
pub proof fn lemma_next_unreadable(lines: Seq<Seq<u8>>, from: int)
    requires
        0 <= from <= lines.len(),
    ensures
        from <= next_unreadable(lines, from) <= lines.len(),
        forall|j: int|
            from <= j < next_unreadable(lines, from) ==> valid_utf8(#[trigger] lines[j]),
        next_unreadable(lines, from) < lines.len() ==> !valid_utf8(
            lines[next_unreadable(lines, from)],
        ),
    decreases lines.len() - from,
{
    if from < lines.len() && valid_utf8(lines[from]) {
        lemma_next_unreadable(lines, from + 1);
    }
}

/// The count of readable lines is the one position before which every line
/// is text and at which there is no line, or a line that is not text.
pub proof fn lemma_readable_is(lines: Seq<Seq<u8>>, count: int)
    requires
        0 <= count <= lines.len(),
        forall|j: int| 0 <= j < count ==> valid_utf8(#[trigger] lines[j]),
        count < lines.len() ==> !valid_utf8(lines[count]),
    ensures
        readable(lines) == count,
{
    lemma_next_unreadable(lines, 0);
}

/// One more byte either ends the unfinished line or extends it.
pub proof fn lemma_one_more_byte(bytes: Seq<u8>, byte: u8)
    ensures
        byte == LINE_FEED ==> finished_lines(bytes.push(byte)) == finished_lines(bytes).push(
            trimmed(unfinished(bytes)),
        ) && unfinished(bytes.push(byte)) == Seq::<u8>::empty(),
        byte != LINE_FEED ==> finished_lines(bytes.push(byte)) == finished_lines(bytes)
            && unfinished(bytes.push(byte)) == unfinished(bytes).push(byte),
{
    assert(bytes.push(byte).drop_last() =~= bytes);
}

/// The unfinished line holds no line feed.
pub proof fn lemma_unfinished_has_no_line_feed(bytes: Seq<u8>)
    ensures
        forall|i: int| 0 <= i < unfinished(bytes).len() ==> unfinished(bytes)[i] != LINE_FEED,
    decreases bytes.len(),
{
    if bytes.len() > 0 && bytes.last() != LINE_FEED {
        lemma_unfinished_has_no_line_feed(bytes.drop_last());
        let before = unfinished(bytes.drop_last());
        assert forall|i: int| 0 <= i < unfinished(bytes).len() implies unfinished(bytes)[i]
            != LINE_FEED by {
            if i < before.len() {
                assert(unfinished(bytes)[i] == before[i]);
            }
        }
    }
}

/// Bytes without a line feed are one unfinished line.
pub proof fn lemma_no_line_feed_no_line(bytes: Seq<u8>)
    requires
        forall|i: int| 0 <= i < bytes.len() ==> bytes[i] != LINE_FEED,
    ensures
        finished_lines(bytes) == Seq::<Seq<u8>>::empty(),
        unfinished(bytes) == bytes,
    decreases bytes.len(),
{
    if bytes.len() > 0 {
        lemma_no_line_feed_no_line(bytes.drop_last());
        assert(bytes.drop_last().push(bytes.last()) =~= bytes);
    }
}

/// Where a stream is cut does not matter: the lines of the whole are the
/// lines of the first part, then those of the second part read after what
/// the first part left unfinished.
pub proof fn lemma_lines_across_a_cut(first: Seq<u8>, second: Seq<u8>)
    ensures
        finished_lines(first + second) == finished_lines(first) + finished_lines(
            unfinished(first) + second,
        ),
        unfinished(first + second) == unfinished(unfinished(first) + second),
    decreases second.len(),
{
    if second.len() == 0 {
        assert(first + second =~= first);
        assert(unfinished(first) + second =~= unfinished(first));
        lemma_unfinished_has_no_line_feed(first);
        lemma_no_line_feed_no_line(unfinished(first));
        assert(finished_lines(first) + Seq::<Seq<u8>>::empty() =~= finished_lines(first));
    } else {
        let init = second.drop_last();
        let byte = second.last();
        lemma_lines_across_a_cut(first, init);
        assert(first + second =~= (first + init).push(byte));
        assert(unfinished(first) + second =~= (unfinished(first) + init).push(byte));
        lemma_one_more_byte(first + init, byte);
        lemma_one_more_byte(unfinished(first) + init, byte);
        if byte == LINE_FEED {
            let line = trimmed(unfinished(first + init));
            assert((finished_lines(first) + finished_lines(unfinished(first) + init)).push(line)
                =~= finished_lines(first) + finished_lines(unfinished(first) + init).push(line));
        }
    }
}

/// Joining one more chunk appends it.
pub proof fn lemma_joined_next(chunks: Seq<Seq<u8>>, count: int)
    requires
        0 <= count < chunks.len(),
    ensures
        joined(chunks.take(count + 1)) == joined(chunks.take(count)) + chunks[count],
{
    assert(chunks.take(count + 1).drop_last() =~= chunks.take(count));
}

/// A stream is its first chunks, joined, and then the others, joined.
pub proof fn lemma_joined_in_two(chunks: Seq<Seq<u8>>, count: int)
    requires
        0 <= count <= chunks.len(),
    ensures
        joined(chunks) == joined(chunks.take(count)) + joined(chunks.skip(count)),
    decreases chunks.len(),
{
    if count == chunks.len() {
        assert(chunks.take(count) =~= chunks);
        assert(chunks.skip(count) =~= Seq::<Seq<u8>>::empty());
        assert(joined(chunks) + Seq::<u8>::empty() =~= joined(chunks));
    } else {
        let init = chunks.drop_last();
        lemma_joined_in_two(init, count);
        assert(init.take(count) =~= chunks.take(count));
        assert(chunks.skip(count).drop_last() =~= init.skip(count));
        assert(joined(chunks.take(count)) + (joined(init.skip(count)) + chunks.last()) =~= (joined(
            chunks.take(count),
        ) + joined(init.skip(count))) + chunks.last());
    }
}

/// Lines after the first unreadable one do not count. Where every line is
/// readable, the count goes on into the lines that follow.
pub proof fn lemma_readable_across(first: Seq<Seq<u8>>, second: Seq<Seq<u8>>)
    ensures
        readable(first) < first.len() ==> readable(first + second) == readable(first),
        readable(first) == first.len() ==> readable(first + second) == first.len() + readable(
            second,
        ),
{
    lemma_next_unreadable(first, 0);
    lemma_next_unreadable(second, 0);
    let whole = first + second;
    if readable(first) < first.len() {
        let count = readable(first);
        assert forall|j: int| 0 <= j < count implies valid_utf8(#[trigger] whole[j]) by {
            assert(whole[j] == first[j]);
        }
        assert(whole[count] == first[count]);
        lemma_readable_is(whole, count);
    } else {
        let count = first.len() + readable(second);
        assert forall|j: int| 0 <= j < count implies valid_utf8(#[trigger] whole[j]) by {
            if j < first.len() {
                assert(whole[j] == first[j]);
            } else {
                assert(whole[j] == second[j - first.len()]);
            }
        }
        if count < whole.len() {
            assert(whole[count] == second[readable(second)]);
        }
        lemma_readable_is(whole, count);
    }
}

/// The texts of lines that follow one another follow one another.
pub proof fn lemma_texts_across(first: Seq<Seq<u8>>, second: Seq<Seq<u8>>)
    ensures
        texts(first + second) == texts(first) + texts(second),
{
    assert(texts(first + second) =~= texts(first) + texts(second));
}

/// Once a line is not text, what follows it in the stream changes neither
/// the count of readable lines nor those lines.
pub proof fn lemma_unreadable_line_stops(first: Seq<u8>, second: Seq<u8>)
    requires
        readable(finished_lines(first)) < finished_lines(first).len(),
    ensures
        readable(finished_lines(first + second)) == readable(finished_lines(first)),
        readable(finished_lines(first + second)) < finished_lines(first + second).len(),
        finished_lines(first + second).take(readable(finished_lines(first))) == finished_lines(
            first,
        ).take(readable(finished_lines(first))),
{
    lemma_lines_across_a_cut(first, second);
    lemma_readable_across(finished_lines(first), finished_lines(unfinished(first) + second));
    lemma_next_unreadable(finished_lines(first), 0);
    assert(finished_lines(first + second).take(readable(finished_lines(first))) =~= finished_lines(
        first,
    ).take(readable(finished_lines(first))));
}

} // verus!
