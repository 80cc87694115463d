//! Which part of a buffer is shown, and how.
use vstd::prelude::*;
use vstd::utf8::*;

use crate::excerpt;
use crate::laws;
use crate::rows;
use crate::text;

verus! {

/// The window lies around the cursor's row. It has sixteen rows on either side of it where the
/// buffer has them; near an end of the buffer it takes on the other side what is missing there.
pub proof fn law_window_lies_around_the_cursor(row: int, max_row: int)
    requires
        0 <= row <= max_row,
    ensures
        ({
            let first = excerpt::window_start(row, max_row);
            let last = excerpt::window_end(row, max_row);
            &&& 0 <= first <= row <= last <= max_row
            &&& row >= 16 && row + 16 <= max_row ==> first == row - 16 && last == row + 16
            &&& row < 16 ==> first == 0
            &&& row + 16 > max_row ==> last == max_row
            &&& max_row >= 32 ==> last - first == 32
            &&& max_row < 32 ==> first == 0 && last == max_row
        }),
{
}

/// The excerpt goes from the first row of the window to its last row that is not empty.
pub proof fn law_excerpt_leaves_out_empty_rows(bytes: Seq<u8>, row: int)
    requires
        0 <= row <= rows::max_row(bytes),
    ensures
        ({
            let max = rows::max_row(bytes) as int;
            let (first, last) = excerpt::excerpt_rows(bytes, row);
            let (start, end) = excerpt::excerpt_range(bytes, row);
            &&& first == excerpt::window_start(row, max)
            &&& first <= last <= excerpt::window_end(row, max)
            &&& last == first || rows::row_len(bytes, last) > 0
            &&& forall|k: int|
                last < k <= excerpt::window_end(row, max) ==> #[trigger] rows::row_len(bytes, k)
                    == 0
            &&& start == rows::row_start(bytes, first)
            &&& end == rows::row_end(bytes, last)
        }),
{
    let max = rows::max_row(bytes) as int;
    let first = excerpt::window_start(row, max);
    let last = excerpt::window_end(row, max);
    law_window_lies_around_the_cursor(row, max);
    excerpt::lemma_last_filled_row(bytes, first, last);
    lemma_last_is_filled(bytes, first, last);
    assert forall|k: int| excerpt::excerpt_rows(bytes, row).1 < k <= last implies
        #[trigger] rows::row_len(bytes, k) == 0 by {
        rows::lemma_row_start_bounds(bytes, k);
        rows::lemma_line_end_bounds(bytes, rows::row_start(bytes, k));
    }
}

/// The last row that is not empty is not empty, unless there is none.
proof fn lemma_last_is_filled(bytes: Seq<u8>, first: int, last: int)
    ensures
        ({
            let found = excerpt::last_filled_row(bytes, first, last);
            found == first || rows::row_len(bytes, found) > 0
        }),
    decreases last - first,
{
    if first < last && rows::row_len(bytes, last) <= 0 {
        lemma_last_is_filled(bytes, first, last - 1);
    }
}

/// Every row within sixteen rows of the cursor that is not empty is shown in full.
pub proof fn law_excerpt_shows_the_context(bytes: Seq<u8>, row: int, near: int)
    requires
        0 <= row <= rows::max_row(bytes),
        0 <= near <= rows::max_row(bytes),
        row - 16 <= near <= row + 16,
        rows::row_len(bytes, near) > 0,
    ensures
        ({
            let (start, end) = excerpt::excerpt_range(bytes, row);
            start <= rows::row_start(bytes, near) && rows::row_end(bytes, near) <= end
        }),
{
    law_window_lies_around_the_cursor(row, rows::max_row(bytes) as int);
    law_excerpt_leaves_out_empty_rows(bytes, row);
    let (first, last) = excerpt::excerpt_rows(bytes, row);
    assert(near <= last);
    rows::lemma_rows_ordered(bytes, first, near);
    rows::lemma_rows_ordered(bytes, near, last);
}

/// A cursor in a row that is not empty lies in the excerpt.
pub proof fn law_cursor_in_a_filled_row_is_shown(text: Seq<char>, offset: int)
    requires
        text::is_offset(text, offset),
        rows::row_len(encode_utf8(text), rows::row_at(encode_utf8(text), offset) as int) > 0,
    ensures
        ({
            let bytes = encode_utf8(text);
            let (start, end) = excerpt::excerpt_range(bytes, rows::row_at(bytes, offset) as int);
            start <= offset <= end
        }),
{
    let bytes = encode_utf8(text);
    let row = rows::row_at(bytes, offset) as int;
    rows::lemma_offset_in_row(bytes, offset);
    law_window_lies_around_the_cursor(row, rows::max_row(bytes) as int);
    laws::law_excerpt_holds_cursor(text, offset, row);
}

/// The excerpt stands in a block of code under its path: the text before the cursor, a mark, and
/// the text behind the cursor.
pub proof fn law_excerpt_is_shown_in_a_block(path: Seq<char>, before: Seq<char>, after: Seq<char>)
    ensures
        excerpt::excerpt_prompt(path, before, after) == "```"@ + path + "\n"@ + before
            + "<|user_cursor_is_here|>"@ + after + "\n```"@,
{
}

} // verus!
