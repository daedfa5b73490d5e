//! Framing: cutting the bytes appended to a log file into lines.
//!
//! A line ends with a line feed. Bytes after the last line feed are a line
//! still being written; they belong to no line yet.

use vstd::prelude::*;

verus! {

/// The byte that ends a line.
pub const LINE_FEED: u8 = 10;

/// The index of the first line feed in `bytes`, or their length if there is
/// none.
pub open spec fn first_line_feed(bytes: Seq<u8>) -> int
    decreases bytes.len(),
{
    if bytes.len() == 0 {
        0
    } else if bytes[0] == LINE_FEED {
        0
    } else {
        1 + first_line_feed(bytes.drop_first())
    }
}

/// The complete lines of `bytes` in order, each with its line feed.
pub open spec fn split_lines_spec(bytes: Seq<u8>) -> Seq<Seq<u8>>
    decreases bytes.len(),
{
    let end = first_line_feed(bytes);
    if 0 <= end < bytes.len() {
        seq![bytes.take(end + 1)] + split_lines_spec(bytes.skip(end + 1))
    } else {
        Seq::empty()
    }
}

/// The number of bytes in all of `lines` together.
pub open spec fn total_len(lines: Seq<Seq<u8>>) -> nat
    decreases lines.len(),
{
    if lines.len() == 0 {
        0
    } else {
        total_len(lines.drop_last()) + lines.last().len()
    }
}

/// The views of the lines held in a vector.
pub open spec fn lines_view(lines: Seq<Vec<u8>>) -> Seq<Seq<u8>> {
    Seq::new(lines.len(), |i: int| lines[i]@)
}

/// The first line feed is where no byte before it is one.
pub proof fn lemma_first_line_feed(bytes: Seq<u8>, at: int)
    requires
        0 <= at <= bytes.len(),
        forall|k: int| 0 <= k < at ==> bytes[k] != LINE_FEED,
        at < bytes.len() ==> bytes[at] == LINE_FEED,
    ensures
        first_line_feed(bytes) == at,
    decreases bytes.len(),
{
    if bytes.len() > 0 && at > 0 {
        let rest = bytes.drop_first();
        assert forall|k: int| 0 <= k < at - 1 implies rest[k] != LINE_FEED by {
            assert(rest[k] == bytes[k + 1]);
        }
        lemma_first_line_feed(rest, at - 1);
    }
}

/// The first line feed lies within the bytes or at their end, and no byte
/// before it is a line feed.
pub proof fn lemma_first_line_feed_is_first(bytes: Seq<u8>)
    ensures
        0 <= first_line_feed(bytes) <= bytes.len(),
        forall|k: int| 0 <= k < first_line_feed(bytes) ==> bytes[k] != LINE_FEED,
        first_line_feed(bytes) < bytes.len() ==> bytes[first_line_feed(bytes)] == LINE_FEED,
    decreases bytes.len(),
{
    if bytes.len() > 0 && bytes[0] != LINE_FEED {
        let rest = bytes.drop_first();
        lemma_first_line_feed_is_first(rest);
        assert forall|k: int| 0 <= k < first_line_feed(bytes) implies bytes[k] != LINE_FEED by {
            if k > 0 {
                assert(rest[k - 1] == bytes[k]);
            }
        }
    }
}

/// The lines cover a prefix of the bytes: a line's bytes are never more than
/// what was given.
pub proof fn lemma_total_len_of_split(bytes: Seq<u8>)
    ensures
        total_len(split_lines_spec(bytes)) <= bytes.len(),
        bytes.len() > 0 && bytes.last() == LINE_FEED ==> total_len(split_lines_spec(bytes))
            == bytes.len(),
        split_lines_spec(bytes).len() <= bytes.len(),
    decreases bytes.len(),
{
    lemma_first_line_feed_is_first(bytes);
    let end = first_line_feed(bytes);
    if 0 <= end < bytes.len() {
        let head = bytes.take(end + 1);
        let rest = bytes.skip(end + 1);
        lemma_total_len_of_split(rest);
        lemma_total_len_prepend(head, split_lines_spec(rest));
        if bytes.last() == LINE_FEED && rest.len() > 0 {
            assert(rest.last() == bytes.last());
        }
    } else {
        if bytes.len() > 0 {
            assert(bytes[bytes.len() - 1] != LINE_FEED);
        }
    }
}

/// The first lines never hold more bytes than all of them, and each further
/// line adds its length.
pub proof fn lemma_total_len_take(lines: Seq<Seq<u8>>, count: int)
    requires
        0 <= count <= lines.len(),
    ensures
        total_len(lines.take(count)) <= total_len(lines),
        count < lines.len() ==> total_len(lines.take(count + 1)) == total_len(lines.take(count))
            + lines[count].len(),
    decreases lines.len() - count,
{
    if count == lines.len() {
        assert(lines.take(count) =~= lines);
    } else {
        assert(lines.take(count + 1).drop_last() =~= lines.take(count));
        assert(lines.take(count + 1).last() == lines[count]);
        lemma_total_len_take(lines, count + 1);
    }
}

/// Putting one line before the lines counted adds its length.
pub proof fn lemma_total_len_prepend(line: Seq<u8>, lines: Seq<Seq<u8>>)
    ensures
        total_len(seq![line] + lines) == line.len() + total_len(lines),
    decreases lines.len(),
{
    if lines.len() == 0 {
        assert(seq![line] + lines =~= seq![line]);
        assert(seq![line].drop_last() =~= Seq::<Seq<u8>>::empty());
        assert(total_len(Seq::<Seq<u8>>::empty()) == 0);
        assert(seq![line].last() == line);
    } else {
        assert((seq![line] + lines).drop_last() =~= seq![line] + lines.drop_last());
        assert((seq![line] + lines).last() == lines.last());
        lemma_total_len_prepend(line, lines.drop_last());
    }
}

/// Every line that `split_lines_spec` gives ends with a line feed and holds
/// no other.
pub proof fn lemma_split_lines_shape(bytes: Seq<u8>, i: int)
    requires
        0 <= i < split_lines_spec(bytes).len(),
    ensures
        split_lines_spec(bytes)[i].len() >= 1,
        split_lines_spec(bytes)[i].last() == LINE_FEED,
        forall|k: int|
            0 <= k < split_lines_spec(bytes)[i].len() - 1 ==> split_lines_spec(bytes)[i][k]
                != LINE_FEED,
    decreases bytes.len(),
{
    lemma_first_line_feed_is_first(bytes);
    let end = first_line_feed(bytes);
    if i > 0 {
        lemma_split_lines_shape(bytes.skip(end + 1), i - 1);
    }
}

/// Cuts `bytes` into its complete lines.
pub fn split_lines(bytes: &[u8]) -> (lines: Vec<Vec<u8>>)
    ensures
        lines_view(lines@) == split_lines_spec(bytes@),
{
    let mut lines: Vec<Vec<u8>> = Vec::new();
    let mut line: Vec<u8> = Vec::new();
    let mut start: usize = 0;
    let mut i: usize = 0;
    assert(bytes@.skip(0) =~= bytes@);
    assert(lines_view(lines@) + split_lines_spec(bytes@.skip(0)) =~= split_lines_spec(bytes@));
    while i < bytes.len()
        invariant
            start <= i <= bytes@.len(),
            line@ == bytes@.subrange(start as int, i as int),
            forall|k: int| start <= k < i ==> bytes@[k] != LINE_FEED,
            lines_view(lines@) + split_lines_spec(bytes@.skip(start as int)) == split_lines_spec(
                bytes@,
            ),
        decreases bytes@.len() - i,
    {
        let b = bytes[i];
        line.push(b);
        assert(line@ =~= bytes@.subrange(start as int, i + 1));
        if b == LINE_FEED {
            proof {
                let tail = bytes@.skip(start as int);
                assert forall|k: int| 0 <= k < i - start implies tail[k] != LINE_FEED by {
                    assert(tail[k] == bytes@[start + k]);
                }
                lemma_first_line_feed(tail, i - start);
                assert(tail.take(i - start + 1) =~= line@);
                assert(tail.skip(i - start + 1) =~= bytes@.skip(i + 1));
                assert(lines_view(lines@.push(line)) =~= lines_view(lines@) + seq![line@]);
            }
            lines.push(line);
            line = Vec::new();
            start = i + 1;
            assert(line@ =~= bytes@.subrange(start as int, i + 1));
        }
        i = i + 1;
    }
    proof {
        let tail = bytes@.skip(start as int);
        assert forall|k: int| 0 <= k < tail.len() implies tail[k] != LINE_FEED by {
            assert(tail[k] == bytes@[start + k]);
        }
        lemma_first_line_feed(tail, tail.len() as int);
        assert(split_lines_spec(tail) =~= Seq::<Seq<u8>>::empty());
        assert(lines_view(lines@) + split_lines_spec(tail) =~= lines_view(lines@));
    }
    lines
}

/// The length of the white-space character whose UTF-8 encoding stands at
/// the front of `bytes`, or 0 if none stands there. White space is U+0009
/// to U+000D, U+0020, U+0085, U+00A0, U+1680, U+2000 to U+200A, U+2028,
/// U+2029, U+202F, U+205F and U+3000.
pub open spec fn white_space_len(bytes: Seq<u8>) -> nat {
    if bytes.len() >= 1 && (9 <= bytes[0] <= 13 || bytes[0] == 0x20) {
        1
    } else if bytes.len() >= 2 && bytes[0] == 0xC2 && (bytes[1] == 0x85 || bytes[1] == 0xA0) {
        2
    } else if bytes.len() >= 3 && bytes[0] == 0xE1 && bytes[1] == 0x9A && bytes[2] == 0x80 {
        3
    } else if bytes.len() >= 3 && bytes[0] == 0xE2 && bytes[1] == 0x80 && (0x80 <= bytes[2]
        <= 0x8A || bytes[2] == 0xA8 || bytes[2] == 0xA9 || bytes[2] == 0xAF) {
        3
    } else if bytes.len() >= 3 && bytes[0] == 0xE2 && bytes[1] == 0x81 && bytes[2] == 0x9F {
        3
    } else if bytes.len() >= 3 && bytes[0] == 0xE3 && bytes[1] == 0x80 && bytes[2] == 0x80 {
        3
    } else {
        0
    }
}

/// Whether `bytes` hold nothing but white space.
pub open spec fn is_blank_spec(bytes: Seq<u8>) -> bool
    decreases bytes.len(),
{
    bytes.len() == 0 || (white_space_len(bytes) > 0 && is_blank_spec(
        bytes.skip(white_space_len(bytes) as int),
    ))
}

fn white_space_at(bytes: &[u8], at: usize) -> (len: usize)
    requires
        at < bytes@.len(),
    ensures
        len == white_space_len(bytes@.skip(at as int)),
        at + len <= bytes@.len(),
{
    let rest = bytes.len() - at;
    let ghost tail = bytes@.skip(at as int);
    let b0 = bytes[at];
    assert(tail[0] == b0);
    if (9 <= b0 && b0 <= 13) || b0 == 0x20 {
        return 1;
    }
    if rest < 2 {
        return 0;
    }
    let b1 = bytes[at + 1];
    assert(tail[1] == b1);
    if b0 == 0xC2 && (b1 == 0x85 || b1 == 0xA0) {
        return 2;
    }
    if rest < 3 {
        return 0;
    }
    let b2 = bytes[at + 2];
    assert(tail[2] == b2);
    if b0 == 0xE1 && b1 == 0x9A && b2 == 0x80 {
        3
    } else if b0 == 0xE2 && b1 == 0x80 && ((0x80 <= b2 && b2 <= 0x8A) || b2 == 0xA8 || b2 == 0xA9
        || b2 == 0xAF) {
        3
    } else if b0 == 0xE2 && b1 == 0x81 && b2 == 0x9F {
        3
    } else if b0 == 0xE3 && b1 == 0x80 && b2 == 0x80 {
        3
    } else {
        0
    }
}

/// Whether a line holds nothing but white space, its line feed included.
pub fn is_blank(line: &[u8]) -> (blank: bool)
    ensures
        blank == is_blank_spec(line@),
{
    let mut i: usize = 0;
    assert(line@.skip(0) =~= line@);
    while i < line.len()
        invariant
            i <= line@.len(),
            is_blank_spec(line@) == is_blank_spec(line@.skip(i as int)),
        decreases line@.len() - i,
    {
        let step = white_space_at(line, i);
        if step == 0 {
            return false;
        }
        assert(line@.skip(i as int).skip(step as int) =~= line@.skip(i + step));
        i = i + step;
    }
    true
}

} // verus!
