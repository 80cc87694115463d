//! Buffers as the completion engine sees them.
use core::ops::Range;
use vstd::prelude::*;
use vstd::string::*;
use vstd::utf8::*;

use crate::rows;
use crate::text;

verus! {

/// What a buffer without a file is called.
pub const UNTITLED: &'static str = "untitled";

/// A position in a buffer: a row, and a byte offset from the start of that row.
#[derive(Clone, Copy, Debug, PartialEq, Eq, Structural)]
pub struct Point {
    pub row: u32,
    pub column: u32,
}

/// To which side an anchor leans when text is inserted at it.
#[derive(Clone, Copy, Debug, PartialEq, Eq, Structural)]
pub enum Bias {
    Left,
    Right,
}

/// A position in a buffer that the editor keeps up to date.
#[derive(Clone, Copy, Debug, PartialEq, Eq, Structural)]
pub struct Anchor {
    /// The byte offset at which the anchor was made.
    pub offset: usize,
    pub bias: Bias,
}

/// The state of a buffer at one moment.
#[derive(Debug)]
pub struct BufferSnapshot {
    /// The identity of the buffer across replicas.
    pub remote_id: u64,
    /// The vector clock of the edits that the buffer has seen.
    pub version: Vec<u32>,
    /// The path of the file that the buffer shows, if it shows one.
    pub path: Option<String>,
    pub text: String,
}

/// An open buffer: the editor's handle for it, and its current state.
#[derive(Debug)]
pub struct Buffer {
    pub entity_id: u64,
    pub snapshot: BufferSnapshot,
}

/// One edit between two states of a buffer.
#[derive(Debug)]
pub struct Edit {
    pub old: Range<Point>,
    pub new: Range<Point>,
}

/// The contents of a [`BufferSnapshot`].
#[verifier::ext_equal]
pub struct SnapshotView {
    pub remote_id: u64,
    pub version: Seq<u32>,
    pub path: Option<Seq<char>>,
    pub text: Seq<char>,
}

/// The path that `path` stands for.
pub open spec fn path_or_untitled(path: Option<Seq<char>>) -> Seq<char> {
    match path {
        Some(path) => path,
        None => UNTITLED@,
    }
}

/// Whether rows and columns of `text`, and the row behind its last one, can be counted in 32 bits.
pub open spec fn fits(text: Seq<char>) -> bool {
    &&& rows::max_row(encode_utf8(text)) < u32::MAX
    &&& forall|row: int| 0 <= row ==> #[trigger] rows::row_len(encode_utf8(text), row) <= u32::MAX
}

/// The position of a byte offset.
pub open spec fn offset_point(text: Seq<char>, offset: int) -> (int, int) {
    let row = rows::row_at(encode_utf8(text), offset) as int;
    (row, offset - rows::row_start(encode_utf8(text), row))
}

/// The byte offset of a position; the end of the text for a position behind it.
pub open spec fn point_offset(text: Seq<char>, row: int, column: int) -> int {
    let bytes = encode_utf8(text);
    let last = rows::max_row(bytes) as int;
    if row > last || (row == last && column >= rows::row_len(bytes, last)) {
        bytes.len() as int
    } else {
        rows::row_start(bytes, row) + column
    }
}

impl SnapshotView {
    /// The path of the file, or what stands for it.
    pub open spec fn shown_path(self) -> Seq<char> {
        path_or_untitled(self.path)
    }

    pub open spec fn bytes(self) -> Seq<u8> {
        encode_utf8(self.text)
    }

    /// Whether `offset` cuts the text between two characters.
    pub open spec fn is_offset(self, offset: int) -> bool {
        text::is_offset(self.text, offset)
    }

    /// See [`fits`].
    pub open spec fn fits(self) -> bool {
        fits(self.text)
    }

    /// The text from the start of one row to the end of another.
    pub open spec fn row_text(self, first: int, last: int) -> Seq<char> {
        text::slice(
            self.text,
            rows::row_start(self.bytes(), first),
            rows::row_end(self.bytes(), last),
        )
    }
}

impl View for BufferSnapshot {
    type V = SnapshotView;

    open spec fn view(&self) -> SnapshotView {
        SnapshotView {
            remote_id: self.remote_id,
            version: self.version@,
            path: match self.path {
                Some(path) => Some(path@),
                None => None,
            },
            text: self.text@,
        }
    }
}

/// The last row of a text ends where the text ends.
pub proof fn lemma_last_row_end(bytes: Seq<u8>)
    ensures
        rows::row_end(bytes, rows::max_row(bytes) as int) == bytes.len(),
{
    let n = bytes.len() as int;
    assert(bytes.take(n) =~= bytes);
    rows::lemma_offset_in_row(bytes, n);
    rows::lemma_row_start_bounds(bytes, rows::max_row(bytes) as int);
    rows::lemma_line_end_is(bytes, rows::row_start(bytes, rows::max_row(bytes) as int), n);
}

/// Turning an offset into a point and back gives the offset.
pub proof fn lemma_point_round_trip(text: Seq<char>, offset: int)
    requires
        0 <= offset <= encode_utf8(text).len(),
    ensures
        ({
            let (row, column) = offset_point(text, offset);
            &&& 0 <= row <= rows::max_row(encode_utf8(text))
            &&& 0 <= column <= rows::row_len(encode_utf8(text), row)
            &&& point_offset(text, row, column) == offset
        }),
{
    let bytes = encode_utf8(text);
    rows::lemma_offset_in_row(bytes, offset);
    lemma_last_row_end(bytes);
}

impl Point {
    /// Whether this position lies behind `other`.
    pub fn is_after(&self, other: &Point) -> (r: bool)
        ensures
            r == (self.row > other.row || (self.row == other.row && self.column > other.column)),
    {
        self.row > other.row || (self.row == other.row && self.column > other.column)
    }
}

impl Clone for BufferSnapshot {
    fn clone(&self) -> (r: Self)
        ensures
            r@ == self@,
    {
        let mut version: Vec<u32> = Vec::new();
        let mut i: usize = 0;
        while i < self.version.len()
            invariant
                i <= self.version.len(),
                version@ == self.version@.take(i as int),
            decreases self.version.len() - i,
        {
            version.push(self.version[i]);
            i += 1;
        }
        assert(self.version@.take(i as int) =~= self.version@);
        let path = match &self.path {
            Some(path) => Some(path.clone()),
            None => None,
        };
        BufferSnapshot { remote_id: self.remote_id, version, path, text: self.text.clone() }
    }
}

impl BufferSnapshot {
    /// The path of the file, or `"untitled"`.
    pub fn shown_path(&self) -> (r: &str)
        ensures
            r@ == self@.shown_path(),
    {
        match &self.path {
            Some(path) => path.as_str(),
            None => UNTITLED,
        }
    }

    /// Whether both snapshots have seen the same edits.
    pub fn same_version(&self, other: &BufferSnapshot) -> (r: bool)
        ensures
            r == (self@.version == other@.version),
    {
        if self.version.len() != other.version.len() {
            return false;
        }
        let mut i: usize = 0;
        while i < self.version.len()
            invariant
                i <= self.version.len(),
                self.version.len() == other.version.len(),
                forall|k: int| 0 <= k < i ==> self.version@[k] == other.version@[k],
            decreases self.version.len() - i,
        {
            if self.version[i] != other.version[i] {
                return false;
            }
            i += 1;
        }
        assert(self.version@ =~= other.version@);
        true
    }

    /// Whether rows and columns, and the row behind the last one, can be counted in 32 bits.
    pub fn fits(&self) -> (r: bool)
        ensures
            r == self@.fits(),
    {
        let bytes = self.text.as_str().as_bytes();
        let n: usize = bytes.len();
        let mut i: usize = 0;
        let mut row: usize = 0;
        let mut start: usize = 0;
        assert(bytes@.take(0) =~= seq![]);
        while i < n
            invariant
                n == bytes@.len(),
                bytes@ == self@.bytes(),
                start <= i <= n,
                row <= i,
                row == rows::row_at(bytes@, i as int),
                start == rows::row_start(bytes@, row as int),
                forall|k: int| start <= k < i ==> bytes@[k] != rows::NEWLINE,
                forall|k: int| 0 <= k < row ==> #[trigger] rows::row_len(bytes@, k) <= u32::MAX,
            decreases n - i,
        {
            assert(bytes@.take(i + 1).drop_last() =~= bytes@.take(i as int));
            if bytes[i] == rows::NEWLINE {
                proof {
                    rows::lemma_line_end_is(bytes@, start as int, i as int);
                    assert(rows::row_len(bytes@, row as int) == i - start);
                    rows::lemma_row_start_is(bytes@, i + 1);
                }
                if i - start > u32::MAX as usize {
                    return false;
                }
                row += 1;
                start = i + 1;
            }
            i += 1;
        }
        proof {
            assert(bytes@.take(n as int) =~= bytes@);
            rows::lemma_line_end_is(bytes@, start as int, n as int);
            assert(rows::row_len(bytes@, row as int) == n - start);
            assert forall|k: int| k > row implies #[trigger] rows::row_len(bytes@, k) == 0 by {
                rows::lemma_row_start_bounds(bytes@, k);
            }
        }
        n - start <= u32::MAX as usize && row < u32::MAX as usize
    }

    /// Whether `offset` cuts the text between two characters.
    pub fn check_offset(&self, offset: usize) -> (r: bool)
        ensures
            r == self@.is_offset(offset as int),
    {
        text::check_offset(self.text.as_str(), offset)
    }

    /// How many bytes `row` has; none for a row that the buffer does not have.
    pub fn line_len(&self, row: u32) -> (r: u32)
        requires
            self@.fits(),
        ensures
            r == rows::row_len(self@.bytes(), row as int),
    {
        let bytes = self.text.as_str().as_bytes();
        let start: usize = rows::find_row_start(bytes, row as usize);
        let end: usize = rows::find_line_end(bytes, start);
        assert(end - start == rows::row_len(self@.bytes(), row as int));
        (end - start) as u32
    }

    /// The position of the end of the text.
    pub fn max_point(&self) -> (r: Point)
        requires
            self@.fits(),
        ensures
            r.row == rows::max_row(self@.bytes()),
            r.column == rows::row_len(self@.bytes(), r.row as int),
    {
        let bytes = self.text.as_str().as_bytes();
        let row: usize = rows::find_row(bytes, bytes.len());
        assert(bytes@.take(bytes@.len() as int) =~= bytes@);
        Point { row: row as u32, column: self.line_len(row as u32) }
    }

    /// The position of a byte offset.
    pub fn offset_to_point(&self, offset: usize) -> (r: Point)
        requires
            self@.fits(),
            offset <= self@.bytes().len(),
        ensures
            (r.row as int, r.column as int) == offset_point(self@.text, offset as int),
    {
        let bytes = self.text.as_str().as_bytes();
        proof {
            lemma_point_round_trip(self@.text, offset as int);
        }
        let row: usize = rows::find_row(bytes, offset);
        let start: usize = rows::find_row_start(bytes, row);
        assert(rows::row_len(self@.bytes(), row as int) <= u32::MAX);
        Point { row: row as u32, column: (offset - start) as u32 }
    }

    /// The byte offset of a position.
    pub fn point_to_offset(&self, point: Point) -> (r: usize)
        requires
            self@.fits(),
            point.row < rows::max_row(self@.bytes()) ==> point.column <= rows::row_len(
                self@.bytes(),
                point.row as int,
            ),
        ensures
            r == point_offset(self@.text, point.row as int, point.column as int),
            r <= self@.bytes().len(),
    {
        let bytes = self.text.as_str().as_bytes();
        let len: usize = bytes.len();
        let max = self.max_point();
        proof {
            rows::lemma_row_start_bounds(bytes@, point.row as int);
            rows::lemma_line_end_bounds(bytes@, rows::row_start(bytes@, point.row as int));
        }
        if max.is_after(&point) {
            assert(point.column <= rows::row_len(self@.bytes(), point.row as int));
            let start: usize = rows::find_row_start(bytes, point.row as usize);
            assert(start + point.column <= rows::row_end(bytes@, point.row as int));
            start + point.column as usize
        } else {
            len
        }
    }

    /// The text between two byte offsets; empty when they are not in order.
    pub fn text_for_range(&self, range: Range<usize>) -> (r: &str)
        requires
            self@.is_offset(range.start as int),
            self@.is_offset(range.end as int),
        ensures
            r@ == text::slice(self@.text, range.start as int, range.end as int),
    {
        text::slice_text(self.text.as_str(), range.start, range.end)
    }

    /// The text from the start of row `first` to the end of row `last`.
    pub fn text_for_rows(&self, first: u32, last: u32) -> (r: &str)
        requires
            self@.fits(),
        ensures
            r@ == self@.row_text(first as int, last as int),
    {
        proof {
            lemma_last_row_end(self@.bytes());
            rows::lemma_row_offsets(self@.text, first as int);
            rows::lemma_row_offsets(self@.text, last as int);
            rows::lemma_row_start_bounds(self@.bytes(), first as int);
            rows::lemma_row_start_bounds(self@.bytes(), last as int);
            rows::lemma_line_end_bounds(self@.bytes(), rows::row_start(self@.bytes(), last as int));
        }
        let start: usize = self.point_to_offset(Point { row: first, column: 0 });
        let end: usize = self.point_to_offset(Point { row: last, column: self.line_len(last) });
        self.text_for_range(start..end)
    }
}

} // verus!
