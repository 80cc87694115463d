//! The part of a buffer that is shown to the model.
use core::ops::Range;
use vstd::prelude::*;
use vstd::string::*;
use vstd::utf8::*;

use crate::buffer::{BufferSnapshot, Point};
use crate::rows;
use crate::text;

verus! {

/// How many rows are shown on either side of the cursor.
pub const CONTEXT_LINES: u32 = 16;

/// What marks the cursor in the text that the model sees.
pub const CURSOR_MARKER: &'static str = "<|user_cursor_is_here|>";

/// What opens and closes a block of code.
pub const CODE_FENCE: &'static str = "```";

/// What ends the last line of a block of code and closes the block.
pub const CLOSING_FENCE: &'static str = "\n```";

/// The first row of the window around `row`. Rows that the window cannot use at one end of the
/// buffer are given to its other end.
pub open spec fn window_start(row: int, max_row: int) -> int {
    if row < CONTEXT_LINES {
        0
    } else if row + CONTEXT_LINES > max_row {
        if max_row > 2 * CONTEXT_LINES {
            max_row - 2 * CONTEXT_LINES
        } else {
            0
        }
    } else {
        row - CONTEXT_LINES
    }
}

/// The last row of the window around `row`.
pub open spec fn window_end(row: int, max_row: int) -> int {
    let wanted = if row < CONTEXT_LINES {
        2 * CONTEXT_LINES
    } else {
        row + CONTEXT_LINES
    };
    if wanted < max_row {
        wanted
    } else {
        max_row
    }
}

/// The last row of `first..=last` that is not empty, or `first`.
pub open spec fn last_filled_row(bytes: Seq<u8>, first: int, last: int) -> int
    decreases last - first,
{
    if last <= first {
        first
    } else if rows::row_len(bytes, last) > 0 {
        last
    } else {
        last_filled_row(bytes, first, last - 1)
    }
}

/// The rows of the excerpt around `row`: its window, without the empty rows at the window's end.
pub open spec fn excerpt_rows(bytes: Seq<u8>, row: int) -> (int, int) {
    let max = rows::max_row(bytes) as int;
    let first = window_start(row, max);
    (first, last_filled_row(bytes, first, window_end(row, max)))
}

/// The byte offsets of the excerpt around `row`.
pub open spec fn excerpt_range(bytes: Seq<u8>, row: int) -> (int, int) {
    let (first, last) = excerpt_rows(bytes, row);
    (rows::row_start(bytes, first), rows::row_end(bytes, last))
}

/// The excerpt as the model sees it: a block of code under the buffer's path, with the cursor
/// marked.
pub open spec fn excerpt_prompt(path: Seq<char>, before: Seq<char>, after: Seq<char>) -> Seq<
    char,
> {
    CODE_FENCE@ + path + "\n"@ + before + CURSOR_MARKER@ + after + CLOSING_FENCE@
}

/// What [`last_filled_row`] finds.
pub proof fn lemma_last_filled_row(bytes: Seq<u8>, first: int, last: int)
    requires
        first <= last,
    ensures
        first <= last_filled_row(bytes, first, last) <= last,
        forall|r: int|
            last_filled_row(bytes, first, last) < r <= last ==> #[trigger] rows::row_len(bytes, r)
                <= 0,
    decreases last - first,
{
    if first < last && rows::row_len(bytes, last) <= 0 {
        lemma_last_filled_row(bytes, first, last - 1);
    }
}

/// The excerpt is a slice of the text.
pub proof fn lemma_excerpt_range(text: Seq<char>, row: int)
    requires
        0 <= row,
    ensures
        ({
            let (start, end) = excerpt_range(encode_utf8(text), row);
            &&& text::is_offset(text, start)
            &&& text::is_offset(text, end)
            &&& start <= end
        }),
{
    let bytes = encode_utf8(text);
    let max = rows::max_row(bytes) as int;
    let first = window_start(row, max);
    lemma_last_filled_row(bytes, first, window_end(row, max));
    let (_, last) = excerpt_rows(bytes, row);
    rows::lemma_row_offsets(text, first);
    rows::lemma_row_offsets(text, last);
    rows::lemma_rows_ordered(bytes, first, last);
}

/// The byte offsets of the excerpt around `point`.
pub fn excerpt_range_for_position(point: Point, snapshot: &BufferSnapshot) -> (r: Range<usize>)
    requires
        snapshot@.fits(),
        point.row + CONTEXT_LINES <= u32::MAX,
        point.row + 2 * CONTEXT_LINES <= u32::MAX + rows::max_row(snapshot@.bytes()),
    ensures
        (r.start as int, r.end as int) == excerpt_range(snapshot@.bytes(), point.row as int),
        snapshot@.is_offset(r.start as int),
        snapshot@.is_offset(r.end as int),
        r.start <= r.end,
{
    let ghost bytes = snapshot@.bytes();
    let max_row: u32 = snapshot.max_point().row;
    let mut context_lines_before: u32 = CONTEXT_LINES;
    let mut context_lines_after: u32 = CONTEXT_LINES;
    if point.row < CONTEXT_LINES {
        context_lines_after += CONTEXT_LINES - point.row;
    } else if point.row + CONTEXT_LINES > max_row {
        context_lines_before += (point.row + CONTEXT_LINES) - max_row;
    }
    let start_row: u32 = if point.row > context_lines_before {
        point.row - context_lines_before
    } else {
        0
    };
    let excerpt_start = Point { row: start_row, column: 0 };
    let wanted_row: u32 = point.row + context_lines_after;
    let end_row: u32 = if wanted_row < max_row {
        wanted_row
    } else {
        max_row
    };
    assert(start_row == window_start(point.row as int, max_row as int));
    assert(end_row == window_end(point.row as int, max_row as int));
    let mut excerpt_end = Point { row: end_row, column: snapshot.line_len(end_row) };
    while excerpt_end.is_after(&excerpt_start) && excerpt_end.column == 0
        invariant
            snapshot@.fits(),
            bytes == snapshot@.bytes(),
            excerpt_start == (Point { row: start_row, column: 0 }),
            start_row <= excerpt_end.row,
            excerpt_end.column == rows::row_len(bytes, excerpt_end.row as int),
            last_filled_row(bytes, start_row as int, end_row as int) == last_filled_row(
                bytes,
                start_row as int,
                excerpt_end.row as int,
            ),
        decreases excerpt_end.row,
    {
        let row: u32 = excerpt_end.row - 1;
        excerpt_end = Point { row, column: snapshot.line_len(row) };
    }
    proof {
        lemma_excerpt_range(snapshot@.text, point.row as int);
        assert(excerpt_rows(bytes, point.row as int) == (start_row as int, excerpt_end.row as int));
        crate::buffer::lemma_last_row_end(bytes);
        rows::lemma_row_start_bounds(bytes, start_row as int);
        rows::lemma_row_offsets(snapshot@.text, start_row as int);
    }
    let start: usize = snapshot.point_to_offset(excerpt_start);
    let end: usize = snapshot.point_to_offset(excerpt_end);
    start..end
}

/// The excerpt as the model sees it.
pub fn prompt_for_excerpt(
    snapshot: &BufferSnapshot,
    excerpt_range: &Range<usize>,
    offset: usize,
) -> (r: String)
    requires
        snapshot@.is_offset(excerpt_range.start as int),
        snapshot@.is_offset(offset as int),
        snapshot@.is_offset(excerpt_range.end as int),
    ensures
        r@ == excerpt_prompt(
            snapshot@.shown_path(),
            text::slice(snapshot@.text, excerpt_range.start as int, offset as int),
            text::slice(snapshot@.text, offset as int, excerpt_range.end as int),
        ),
{
    let mut prompt_excerpt = String::new();
    prompt_excerpt.append(CODE_FENCE);
    prompt_excerpt.append(snapshot.shown_path());
    prompt_excerpt.append("\n");
    prompt_excerpt.append(snapshot.text_for_range(excerpt_range.start..offset));
    prompt_excerpt.append(CURSOR_MARKER);
    prompt_excerpt.append(snapshot.text_for_range(offset..excerpt_range.end));
    prompt_excerpt.append(CLOSING_FENCE);
    assert(seq![] + CODE_FENCE@ =~= CODE_FENCE@);
    prompt_excerpt
}

} // verus!
