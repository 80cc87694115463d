//! What offsets, rows, positions and replacements are, told by the text itself.
use vstd::prelude::*;
use vstd::utf8::*;

use crate::buffer;
use crate::pattern;
use crate::rows;
use crate::text;

verus! {

// --- Slices ----------------------------------------------------------------------------------

/// A slice between the ends of two pieces of a text is what stands between these ends.
pub proof fn law_slice_is_the_middle(a: Seq<char>, b: Seq<char>, c: Seq<char>)
    ensures
        text::slice(
            a + b + c,
            encode_utf8(a).len() as int,
            (encode_utf8(a).len() + encode_utf8(b).len()) as int,
        ) == b,
{
    let all = a + b + c;
    let start = encode_utf8(a).len() as int;
    let end = start + encode_utf8(b).len();
    text::lemma_encode_concat(a, b);
    text::lemma_encode_concat(a + b, c);
    text::lemma_prefix_offset(a, b + c);
    text::lemma_prefix_offset(a + b, c);
    assert(all =~= a + (b + c));
    text::lemma_slice_bytes(all, start, end);
    assert(encode_utf8(all).subrange(start, end) =~= encode_utf8(b));
    text::lemma_encode_injective(text::slice(all, start, end), b);
}

/// A slice that ends before it starts is empty.
pub proof fn law_reversed_slice_is_empty(text: Seq<char>, start: int, end: int)
    requires
        end < start,
    ensures
        text::slice(text, start, end) == Seq::<char>::empty(),
{
}

/// The offsets of a text are the lengths of its prefixes.
pub proof fn law_offsets_lie_between_characters(text: Seq<char>, offset: int)
    ensures
        text::is_offset(text, offset) <==> exists|n: int|
            0 <= n <= text.len() && #[trigger] encode_utf8(text.take(n)).len() == offset,
{
    if text::is_offset(text, offset) {
        let bytes = encode_utf8(text);
        let len = bytes.len() as int;
        encode_utf8_valid_utf8(text);
        is_char_boundary_start_end_of_seq(bytes);
        let left = text::slice(text, 0, offset);
        text::lemma_slice_bytes(text, 0, offset);
        text::lemma_slice_bytes(text, 0, len);
        text::lemma_slice_join(text, 0, offset, len);
        assert(bytes.subrange(0, len) =~= bytes);
        text::lemma_encode_injective(text, text::slice(text, 0, len));
        let n = left.len() as int;
        assert(text.take(n) =~= left);
        assert(encode_utf8(text.take(n)).len() == offset);
    }
    if exists|n: int| 0 <= n <= text.len() && #[trigger] encode_utf8(text.take(n)).len() == offset {
        let n = choose|n: int|
            0 <= n <= text.len() && #[trigger] encode_utf8(text.take(n)).len() == offset;
        text::lemma_prefix_offset(text.take(n), text.skip(n));
        assert(text =~= text.take(n) + text.skip(n));
    }
}

// --- Rows ------------------------------------------------------------------------------------

/// Rows are counted by newlines: the row goes up by one behind each newline and nowhere else.
pub proof fn law_rows_count_newlines(bytes: Seq<u8>, offset: int)
    requires
        0 <= offset < bytes.len(),
    ensures
        rows::row_at(bytes, 0) == 0,
        rows::row_at(bytes, offset + 1) == rows::row_at(bytes, offset) + if bytes[offset] == 10 {
            1int
        } else {
            0
        },
        rows::row_at(bytes, bytes.len() as int) == rows::max_row(bytes),
{
    assert(bytes.take(0) =~= seq![]);
    assert(bytes.take(offset + 1).drop_last() =~= bytes.take(offset));
    assert(bytes.take(bytes.len() as int) =~= bytes);
}

/// A text without bytes has one row.
pub proof fn law_empty_text_has_one_row()
    ensures
        rows::max_row(Seq::<u8>::empty()) == 0,
        rows::row_at(Seq::<u8>::empty(), 0) == 0,
{
    assert(Seq::<u8>::empty().take(0) =~= Seq::<u8>::empty());
}

/// A row goes from the start of the text, or from behind a newline, to the next newline, or to the
/// end of the text, and its number is the row of its start.
pub proof fn law_rows_are_lines(bytes: Seq<u8>, row: int)
    requires
        0 <= row <= rows::max_row(bytes),
    ensures
        ({
            let start = rows::row_start(bytes, row);
            let end = rows::row_end(bytes, row);
            &&& 0 <= start <= end <= bytes.len()
            &&& start == 0 || bytes[start - 1] == 10
            &&& end == bytes.len() || bytes[end] == 10
            &&& forall|k: int| start <= k < end ==> bytes[k] != 10
            &&& rows::row_at(bytes, start) == row
            &&& rows::row_len(bytes, row) == end - start
        }),
{
    rows::lemma_row_start_bounds(bytes, row);
    rows::lemma_line_end_bounds(bytes, rows::row_start(bytes, row));
}

/// Rows that a text does not have are empty and lie at its end.
pub proof fn law_missing_rows_are_empty(bytes: Seq<u8>, row: int)
    requires
        row > rows::max_row(bytes),
    ensures
        rows::row_start(bytes, row) == bytes.len(),
        rows::row_end(bytes, row) == bytes.len(),
        rows::row_len(bytes, row) == 0,
{
    rows::lemma_row_start_bounds(bytes, row);
}

/// The position of an offset: the newlines before it, and the bytes behind the last of them.
pub proof fn law_points_are_rows_and_columns(text: Seq<char>, offset: int)
    requires
        0 <= offset <= encode_utf8(text).len(),
    ensures
        ({
            let bytes = encode_utf8(text);
            let (row, column) = buffer::offset_point(text, offset);
            &&& row == rows::row_at(bytes, offset)
            &&& 0 <= column <= offset
            &&& offset - column == 0 || bytes[offset - column - 1] == 10
            &&& forall|k: int| offset - column <= k < offset ==> bytes[k] != 10
            &&& buffer::point_offset(text, row, column) == offset
        }),
{
    let bytes = encode_utf8(text);
    let row = rows::row_at(bytes, offset) as int;
    rows::lemma_offset_in_row(bytes, offset);
    rows::lemma_row_start_bounds(bytes, row);
    buffer::lemma_point_round_trip(text, offset);
}

/// A position in a row lies so many bytes behind the row's start; one behind the last row is the
/// end of the text.
pub proof fn law_points_lie_in_their_rows(text: Seq<char>, row: int, column: int)
    requires
        0 <= row,
        0 <= column,
    ensures
        ({
            let bytes = encode_utf8(text);
            &&& row <= rows::max_row(bytes) && column <= rows::row_len(bytes, row)
                ==> buffer::point_offset(text, row, column) == rows::row_start(bytes, row) + column
            &&& row > rows::max_row(bytes) ==> buffer::point_offset(text, row, column)
                == bytes.len()
            &&& row == rows::max_row(bytes) && column > rows::row_len(bytes, row)
                ==> buffer::point_offset(text, row, column) == bytes.len()
        }),
{
    buffer::lemma_last_row_end(encode_utf8(text));
}

/// A text fits if all its rows, and one more, can be counted in 32 bits, and the bytes of each row.
pub proof fn law_texts_that_fit(text: Seq<char>)
    ensures
        buffer::fits(text) <==> (rows::max_row(encode_utf8(text)) < 0xffff_ffff && forall|row: int|
            0 <= row <= rows::max_row(encode_utf8(text)) ==> #[trigger] rows::row_len(
                encode_utf8(text),
                row,
            ) <= 0xffff_ffff),
{
    let bytes = encode_utf8(text);
    assert forall|row: int| row > rows::max_row(bytes) implies #[trigger] rows::row_len(bytes, row)
        == 0 by {
        law_missing_rows_are_empty(bytes, row);
    }
}

// --- Patterns --------------------------------------------------------------------------------

/// A pattern occurs where the text can be cut before and behind it.
pub proof fn law_occurrences(s: Seq<char>, part: Seq<char>, i: int)
    ensures
        pattern::occurs_at(s, part, i) ==> 0 <= i && s == s.take(i) + part + s.skip(
            i + part.len(),
        ),
        forall|a: Seq<char>, b: Seq<char>|
            s == #[trigger] (a + part + b) ==> pattern::occurs_at(s, part, a.len() as int),
{
    if pattern::occurs_at(s, part, i) {
        let found = s.subrange(i, i + part.len());
        assert(s =~= s.take(i) + found + s.skip(i + part.len()));
    }
    assert forall|a: Seq<char>, b: Seq<char>| s == #[trigger] (a + part + b) implies
        pattern::occurs_at(s, part, a.len() as int) by {
        assert(s.subrange(a.len() as int, (a.len() + part.len()) as int) =~= part);
    }
}

/// A text in which the pattern does not occur stays as it is.
pub proof fn law_replace_none(s: Seq<char>, from: Seq<char>, to: Seq<char>)
    requires
        from.len() > 0,
        forall|i: int| !pattern::occurs_at(s, from, i),
    ensures
        pattern::replace_all(s, from, to) == s,
    decreases s.len(),
{
    if s.len() >= from.len() {
        assert(!pattern::occurs_at(s, from, 0));
        let rest = s.drop_first();
        assert forall|i: int| !pattern::occurs_at(rest, from, i) by {
            assert(!pattern::occurs_at(s, from, i + 1));
            if pattern::occurs_at(rest, from, i) {
                assert(s.subrange(i + 1, i + 1 + from.len()) =~= rest.subrange(i, i + from.len()));
            }
        }
        law_replace_none(rest, from, to);
        assert(!from.is_prefix_of(s)) by {
            if from.is_prefix_of(s) {
                assert(s.subrange(0, from.len() as int) =~= from);
            }
        }
        assert(seq![s[0]] + rest =~= s);
    }
}

/// The first occurrence of a pattern is replaced, what stands before it is kept, and what stands
/// behind it is searched on.
pub proof fn law_replace_first(a: Seq<char>, from: Seq<char>, b: Seq<char>, to: Seq<char>)
    requires
        from.len() > 0,
        forall|i: int| i < a.len() ==> !pattern::occurs_at(a + from + b, from, i),
    ensures
        pattern::replace_all(a + from + b, from, to) == a + to + pattern::replace_all(b, from, to),
    decreases a.len(),
{
    let s = a + from + b;
    let tail = pattern::replace_all(b, from, to);
    if a.len() == 0 {
        assert(s.subrange(0, from.len() as int) =~= from);
        assert(from.is_prefix_of(s));
        assert(s.skip(from.len() as int) =~= b);
        assert(to + tail =~= a + to + tail);
    } else {
        let rest = a.drop_first();
        assert(s.drop_first() =~= rest + from + b);
        assert forall|i: int| i < rest.len() implies !pattern::occurs_at(rest + from + b, from, i) by {
            assert(!pattern::occurs_at(s, from, i + 1));
            if pattern::occurs_at(rest + from + b, from, i) {
                assert(s.subrange(i + 1, i + 1 + from.len()) =~= (rest + from + b).subrange(
                    i,
                    i + from.len(),
                ));
            }
        }
        law_replace_first(rest, from, b, to);
        assert(!from.is_prefix_of(s)) by {
            if from.is_prefix_of(s) {
                assert(s.subrange(0, from.len() as int) =~= from);
                assert(pattern::occurs_at(s, from, 0));
            }
        }
        assert(s[0] == a[0]);
        assert(seq![a[0]] + (rest + to + tail) =~= a + to + tail);
    }
}

/// Trimming takes white space off the end, and all of it.
pub proof fn law_trim_end(s: Seq<char>)
    ensures
        ({
            let kept = pattern::trim_end(s);
            &&& kept.len() <= s.len()
            &&& kept == s.take(kept.len() as int)
            &&& forall|k: int| kept.len() <= k < s.len() ==> pattern::is_white_space(s[k])
            &&& kept.len() > 0 ==> !pattern::is_white_space(kept.last())
        }),
    decreases s.len(),
{
    if s.len() > 0 && pattern::is_white_space(s.last()) {
        let front = s.drop_last();
        law_trim_end(front);
        let kept = pattern::trim_end(s);
        assert(front.take(kept.len() as int) =~= s.take(kept.len() as int));
        assert forall|k: int| kept.len() <= k < s.len() implies pattern::is_white_space(s[k]) by {
            if k < front.len() {
                assert(front[k] == s[k]);
            }
        }
    } else {
        assert(s.take(s.len() as int) =~= s);
    }
}

/// Blanks, tabs and the ends of lines are white space, and what a line of code holds is not.
pub proof fn law_white_space(c: char)
    ensures
        c == ' ' || c == '\t' || c == '\n' || c == '\r' ==> pattern::is_white_space(c),
        '!' <= c <= '~' ==> !pattern::is_white_space(c),
{
}

/// The first index of a character: the character stands there and nowhere before, or it does not
/// occur at all.
pub proof fn law_first_index(s: Seq<char>, c: char)
    ensures
        ({
            let i = pattern::first_index(s, c);
            &&& 0 <= i <= s.len()
            &&& i < s.len() ==> s[i] == c
            &&& forall|k: int| 0 <= k < i ==> s[k] != c
        }),
    decreases s.len(),
{
    if s.len() > 0 && s[0] != c {
        let rest = s.drop_first();
        law_first_index(rest, c);
        let i = pattern::first_index(s, c);
        assert forall|k: int| 0 <= k < i implies s[k] != c by {
            if k > 0 {
                assert(rest[k - 1] == s[k]);
            }
        }
    }
}

} // verus!
