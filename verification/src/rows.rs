//! The rows of a text: what lies between its newlines, measured in bytes.
use vstd::prelude::*;
use vstd::utf8::*;

use crate::text;

verus! {

/// The byte that ends a row.
pub const NEWLINE: u8 = 10;

/// How many newlines `bytes` holds, which is the number of its last row.
pub open spec fn max_row(bytes: Seq<u8>) -> nat
    decreases bytes.len(),
{
    if bytes.len() == 0 {
        0
    } else {
        max_row(bytes.drop_last()) + if bytes.last() == NEWLINE {
            1nat
        } else {
            0nat
        }
    }
}

/// The row in which `offset` lies.
pub open spec fn row_at(bytes: Seq<u8>, offset: int) -> nat {
    max_row(bytes.take(offset))
}

/// Where `row` starts; the end of the text for a row that it does not have.
pub open spec fn row_start(bytes: Seq<u8>, row: int) -> int
    decreases bytes.len(),
{
    if row <= 0 || bytes.len() == 0 {
        0
    } else if row <= max_row(bytes.drop_last()) {
        row_start(bytes.drop_last(), row)
    } else {
        bytes.len() as int
    }
}

/// The first newline at or behind `offset`, or the end of the text.
pub open spec fn line_end(bytes: Seq<u8>, offset: int) -> int
    decreases bytes.len() - offset,
{
    if offset >= bytes.len() {
        bytes.len() as int
    } else if bytes[offset] == NEWLINE {
        offset
    } else {
        line_end(bytes, offset + 1)
    }
}

/// Where `row` ends, its newline not counted.
pub open spec fn row_end(bytes: Seq<u8>, row: int) -> int {
    line_end(bytes, row_start(bytes, row))
}

/// How many bytes `row` has, its newline not counted.
pub open spec fn row_len(bytes: Seq<u8>, row: int) -> int {
    row_end(bytes, row) - row_start(bytes, row)
}

/// A longer prefix has no fewer newlines.
pub proof fn lemma_rows_monotonic(bytes: Seq<u8>, i: int, j: int)
    requires
        0 <= i <= j <= bytes.len(),
    ensures
        row_at(bytes, i) <= row_at(bytes, j),
    decreases j - i,
{
    if i < j {
        lemma_rows_monotonic(bytes, i, j - 1);
        assert(bytes.take(j).drop_last() =~= bytes.take(j - 1));
    }
}

/// The position behind the `row`-th newline is where `row` starts.
pub proof fn lemma_row_start_is(bytes: Seq<u8>, i: int)
    requires
        0 <= i <= bytes.len(),
        i == 0 || bytes[i - 1] == NEWLINE,
    ensures
        row_start(bytes, row_at(bytes, i) as int) == i,
    decreases bytes.len(),
{
    let row = row_at(bytes, i);
    if i == bytes.len() {
        if i > 0 {
            assert(bytes.take(i) =~= bytes);
        }
    } else {
        let front = bytes.drop_last();
        assert(front.take(i) =~= bytes.take(i));
        assert(front.take(front.len() as int) =~= front);
        lemma_rows_monotonic(front, i, front.len() as int);
        lemma_row_start_is(front, i);
        if row == 0 && i > 0 {
            assert(bytes.take(i).last() == NEWLINE);
        }
    }
}

/// A row starts at the start of the text or behind a newline.
pub proof fn lemma_row_start_bounds(bytes: Seq<u8>, row: int)
    ensures
        0 <= row_start(bytes, row) <= bytes.len(),
        row_start(bytes, row) == 0 || row > max_row(bytes) || bytes[row_start(bytes, row) - 1]
            == NEWLINE,
        0 <= row <= max_row(bytes) ==> row_at(bytes, row_start(bytes, row)) == row,
        row > max_row(bytes) ==> row_start(bytes, row) == bytes.len(),
    decreases bytes.len(),
{
    if row <= 0 || bytes.len() == 0 {
        assert(bytes.take(0) =~= seq![]);
    } else {
        let front = bytes.drop_last();
        if row <= max_row(front) {
            lemma_row_start_bounds(front, row);
            let i = row_start(front, row);
            assert(front.take(i) =~= bytes.take(i));
        } else {
            assert(bytes.take(bytes.len() as int) =~= bytes);
        }
    }
}

/// A line ends at a newline or at the end of the text, with no newline before.
pub proof fn lemma_line_end_bounds(bytes: Seq<u8>, offset: int)
    requires
        0 <= offset <= bytes.len(),
    ensures
        offset <= line_end(bytes, offset) <= bytes.len(),
        line_end(bytes, offset) < bytes.len() ==> bytes[line_end(bytes, offset)] == NEWLINE,
        forall|k: int| offset <= k < line_end(bytes, offset) ==> bytes[k] != NEWLINE,
    decreases bytes.len() - offset,
{
    if offset < bytes.len() && bytes[offset] != NEWLINE {
        lemma_line_end_bounds(bytes, offset + 1);
    }
}

/// The end of a line, told by what a scan finds.
pub proof fn lemma_line_end_is(bytes: Seq<u8>, offset: int, end: int)
    requires
        0 <= offset <= end <= bytes.len(),
        end == bytes.len() || bytes[end] == NEWLINE,
        forall|k: int| offset <= k < end ==> bytes[k] != NEWLINE,
    ensures
        line_end(bytes, offset) == end,
    decreases end - offset,
{
    if offset < end {
        lemma_line_end_is(bytes, offset + 1, end);
    }
}

/// An offset lies between the start and the end of its row.
pub proof fn lemma_offset_in_row(bytes: Seq<u8>, offset: int)
    requires
        0 <= offset <= bytes.len(),
    ensures
        row_at(bytes, offset) <= max_row(bytes),
        row_start(bytes, row_at(bytes, offset) as int) <= offset <= row_end(
            bytes,
            row_at(bytes, offset) as int,
        ),
        forall|k: int|
            row_start(bytes, row_at(bytes, offset) as int) <= k < offset ==> bytes[k] != NEWLINE,
    decreases offset,
{
    assert(bytes.take(bytes.len() as int) =~= bytes);
    lemma_rows_monotonic(bytes, offset, bytes.len() as int);
    let row = row_at(bytes, offset) as int;
    let start = row_start(bytes, row);
    if offset == 0 {
        assert(bytes.take(0) =~= seq![]);
    } else {
        lemma_offset_in_row(bytes, offset - 1);
        assert(bytes.take(offset).drop_last() =~= bytes.take(offset - 1));
        if bytes[offset - 1] == NEWLINE {
            lemma_row_start_is(bytes, offset);
        }
    }
    lemma_row_start_bounds(bytes, row);
    lemma_line_end_bounds(bytes, start);
    if line_end(bytes, start) < offset {
        assert(bytes[line_end(bytes, start)] == NEWLINE);
    }
}

/// Later rows start and end later.
pub proof fn lemma_rows_ordered(bytes: Seq<u8>, first: int, second: int)
    requires
        0 <= first <= second,
    ensures
        row_start(bytes, first) <= row_start(bytes, second),
        row_end(bytes, first) <= row_end(bytes, second),
        first < second ==> row_end(bytes, first) <= row_start(bytes, second),
{
    lemma_row_start_bounds(bytes, first);
    lemma_row_start_bounds(bytes, second);
    let a = row_start(bytes, first);
    let b = row_start(bytes, second);
    lemma_line_end_bounds(bytes, a);
    lemma_line_end_bounds(bytes, b);
    if first < second && second <= max_row(bytes) {
        if b <= a {
            lemma_rows_monotonic(bytes, b, a);
            assert(false);
        }
        assert(line_end(bytes, a) <= b) by {
            if line_end(bytes, a) > b {
                assert(bytes[b - 1] == NEWLINE);
            }
        }
    }
}

/// Rows start and end between characters.
pub proof fn lemma_row_offsets(text: Seq<char>, row: int)
    ensures
        text::is_offset(text, row_start(encode_utf8(text), row)),
        text::is_offset(text, row_end(encode_utf8(text), row)),
        0 <= row_len(encode_utf8(text), row),
{
    let bytes = encode_utf8(text);
    encode_utf8_valid_utf8(text);
    lemma_row_start_bounds(bytes, row);
    let start = row_start(bytes, row);
    lemma_line_end_bounds(bytes, start);
    let end = row_end(bytes, row);
    is_char_boundary_start_end_of_seq(bytes);
    if 0 < start && start < bytes.len() {
        text::lemma_boundary_after_ascii(bytes, start - 1);
    }
    if end < bytes.len() {
        text::lemma_boundary_after_ascii(bytes, end);
    }
}

/// Counts the newlines of `bytes` before `offset`.
pub fn find_row(bytes: &[u8], offset: usize) -> (r: usize)
    requires
        offset <= bytes@.len(),
    ensures
        r == row_at(bytes@, offset as int),
        r <= offset,
{
    let mut i: usize = 0;
    let mut rows: usize = 0;
    assert(bytes@.take(0) =~= seq![]);
    while i < offset
        invariant
            offset <= bytes@.len(),
            rows <= i <= offset,
            rows == row_at(bytes@, i as int),
        decreases offset - i,
    {
        assert(bytes@.take(i + 1).drop_last() =~= bytes@.take(i as int));
        if bytes[i] == NEWLINE {
            rows += 1;
        }
        i += 1;
    }
    rows
}

/// Finds where `row` starts.
pub fn find_row_start(bytes: &[u8], row: usize) -> (r: usize)
    ensures
        r == row_start(bytes@, row as int),
        r <= bytes@.len(),
{
    let n: usize = bytes.len();
    let mut i: usize = 0;
    let mut rows: usize = 0;
    assert(bytes@.take(0) =~= seq![]);
    if row == 0 {
        return 0;
    }
    while i < n
        invariant
            n == bytes@.len(),
            rows <= i <= n,
            rows == row_at(bytes@, i as int),
            rows < row,
        decreases n - i,
    {
        assert(bytes@.take(i + 1).drop_last() =~= bytes@.take(i as int));
        let newline: bool = bytes[i] == NEWLINE;
        i += 1;
        if newline {
            rows += 1;
            if rows == row {
                proof {
                    lemma_row_start_is(bytes@, i as int);
                }
                return i;
            }
        }
    }
    proof {
        assert(bytes@.take(n as int) =~= bytes@);
        lemma_row_start_bounds(bytes@, row as int);
    }
    n
}

/// Finds where the line that `offset` lies in ends.
pub fn find_line_end(bytes: &[u8], offset: usize) -> (r: usize)
    requires
        offset <= bytes@.len(),
    ensures
        r == line_end(bytes@, offset as int),
        offset <= r <= bytes@.len(),
{
    let n: usize = bytes.len();
    let mut i: usize = offset;
    while i < n && bytes[i] != NEWLINE
        invariant
            n == bytes@.len(),
            offset <= i <= n,
            forall|k: int| offset <= k < i ==> bytes@[k] != NEWLINE,
        decreases n - i,
    {
        i += 1;
    }
    proof {
        lemma_line_end_is(bytes@, offset as int, i as int);
    }
    i
}

} // verus!
