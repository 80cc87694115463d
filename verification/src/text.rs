//! Strings as sequences of characters and as UTF-8 bytes.
//!
//! Byte offsets into a text are offsets into its UTF-8 encoding.
use vstd::prelude::*;
use vstd::string::*;
use vstd::utf8::*;

verus! {

// --- UTF-8 -----------------------------------------------------------------------------------

/// The encoding of a concatenation is the concatenation of the encodings.
pub proof fn lemma_encode_concat(a: Seq<char>, b: Seq<char>)
    ensures
        encode_utf8(a + b) == encode_utf8(a) + encode_utf8(b),
    decreases a.len(),
{
    if a.len() == 0 {
        assert(a + b =~= b);
        assert(encode_utf8(a) + encode_utf8(b) =~= encode_utf8(b));
    } else {
        lemma_encode_concat(a.drop_first(), b);
        assert((a + b).drop_first() =~= a.drop_first() + b);
        assert((a + b)[0] == a[0]);
        assert(encode_utf8(a + b) =~= encode_utf8(a) + encode_utf8(b));
    }
}

/// Two texts with the same encoding are the same text.
pub proof fn lemma_encode_injective(a: Seq<char>, b: Seq<char>)
    requires
        encode_utf8(a) == encode_utf8(b),
    ensures
        a == b,
{
    encode_utf8_decode_utf8(a);
    encode_utf8_decode_utf8(b);
}

/// A text that is not empty has bytes.
pub proof fn lemma_encode_not_empty(text: Seq<char>)
    requires
        text.len() > 0,
    ensures
        encode_utf8(text).len() > 0,
{
}

/// The position behind an ASCII character is a character boundary.
pub proof fn lemma_boundary_after_ascii(bytes: Seq<u8>, i: int)
    requires
        valid_utf8(bytes),
        0 <= i < bytes.len(),
        bytes[i] <= 0x7f,
    ensures
        is_char_boundary(bytes, i),
        is_char_boundary(bytes, i + 1),
    decreases bytes.len(),
{
    let n = length_of_first_scalar(bytes);
    let rest = pop_first_scalar(bytes);
    is_char_boundary_iff_not_is_continuation_byte(bytes, i);
    if i == 0 {
        reveal_with_fuel(is_char_boundary, 2);
    } else {
        assert(n <= i) by {
            if i < n {
                assert(is_continuation_byte(bytes[i]));
            }
        }
        assert(rest[i - n] == bytes[i]);
        lemma_boundary_after_ascii(rest, i - n);
        reveal_with_fuel(is_char_boundary, 2);
    }
}

/// A boundary of a text that lies within a prefix of it is a boundary of the prefix.
pub proof fn lemma_boundary_in_prefix(bytes: Seq<u8>, i: int, end: int)
    requires
        valid_utf8(bytes),
        is_char_boundary(bytes, i),
        is_char_boundary(bytes, end),
        0 <= i <= end <= bytes.len(),
    ensures
        valid_utf8(bytes.subrange(0, end)),
        is_char_boundary(bytes.subrange(0, end), i),
{
    valid_utf8_split(bytes, end);
    let head = bytes.subrange(0, end);
    if i == end {
        is_char_boundary_start_end_of_seq(head);
    } else {
        assert(head[i] == bytes[i]);
        is_char_boundary_iff_not_is_continuation_byte(bytes, i);
        is_char_boundary_iff_not_is_continuation_byte(head, i);
    }
}

/// A byte offset that `&text[..offset]` accepts.
pub open spec fn is_offset(text: Seq<char>, offset: int) -> bool {
    &&& 0 <= offset <= encode_utf8(text).len()
    &&& is_char_boundary(encode_utf8(text), offset)
}

/// The part of `text` between two byte offsets; empty when they are not in order.
pub open spec fn slice(text: Seq<char>, start: int, end: int) -> Seq<char> {
    if start <= end {
        decode_utf8(encode_utf8(text).subrange(start, end))
    } else {
        seq![]
    }
}

/// Cutting a text at byte offsets and encoding the piece gives the bytes in between.
pub proof fn lemma_slice_bytes(text: Seq<char>, start: int, end: int)
    requires
        is_offset(text, start),
        is_offset(text, end),
        start <= end,
    ensures
        valid_utf8(encode_utf8(text).subrange(start, end)),
        encode_utf8(slice(text, start, end)) == encode_utf8(text).subrange(start, end),
{
    let bytes = encode_utf8(text);
    encode_utf8_valid_utf8(text);
    lemma_boundary_in_prefix(bytes, start, end);
    let head = bytes.subrange(0, end);
    valid_utf8_split(head, start);
    assert(head.subrange(start, head.len() as int) =~= bytes.subrange(start, end));
    decode_utf8_encode_utf8(bytes.subrange(start, end));
}

/// Adjacent slices join.
pub proof fn lemma_slice_join(text: Seq<char>, start: int, mid: int, end: int)
    requires
        is_offset(text, start),
        is_offset(text, mid),
        is_offset(text, end),
        start <= mid <= end,
    ensures
        slice(text, start, mid) + slice(text, mid, end) == slice(text, start, end),
{
    lemma_slice_bytes(text, start, mid);
    lemma_slice_bytes(text, mid, end);
    lemma_slice_bytes(text, start, end);
    lemma_encode_concat(slice(text, start, mid), slice(text, mid, end));
    let bytes = encode_utf8(text);
    assert(bytes.subrange(start, mid) + bytes.subrange(mid, end) =~= bytes.subrange(start, end));
    lemma_encode_injective(
        slice(text, start, mid) + slice(text, mid, end),
        slice(text, start, end),
    );
}

/// Cutting a text behind some of its characters cuts it between two characters.
pub proof fn lemma_prefix_offset(head: Seq<char>, tail: Seq<char>)
    ensures
        is_offset(head + tail, encode_utf8(head).len() as int),
    decreases head.len(),
{
    let all = head + tail;
    encode_utf8_valid_utf8(all);
    lemma_encode_concat(head, tail);
    if head.len() == 0 {
        assert(encode_utf8(head).len() == 0);
        is_char_boundary_start_end_of_seq(encode_utf8(all));
    } else {
        let rest = head.drop_first();
        lemma_prefix_offset(rest, tail);
        assert(all.drop_first() =~= rest + tail);
        encode_utf8_first_scalar(all);
        let bytes = encode_utf8(all);
        assert(pop_first_scalar(bytes) =~= encode_utf8(rest + tail));
        assert(all[0] == head[0]);
        assert(encode_utf8(head).len() == length_of_first_scalar(bytes) + encode_utf8(rest).len());
    }
}

/// Cutting a piece of a text between characters cuts the text between characters.
pub proof fn lemma_offset_in_piece(head: Seq<char>, piece: Seq<char>, tail: Seq<char>, offset: int)
    requires
        is_offset(piece, offset),
    ensures
        is_offset(head + piece + tail, encode_utf8(head).len() + offset),
{
    encode_utf8_valid_utf8(piece);
    is_char_boundary_start_end_of_seq(encode_utf8(piece));
    let end = encode_utf8(piece).len() as int;
    let left = slice(piece, 0, offset);
    let right = slice(piece, offset, end);
    lemma_slice_join(piece, 0, offset, end);
    lemma_slice_bytes(piece, 0, offset);
    lemma_slice_bytes(piece, 0, end);
    assert(encode_utf8(piece).subrange(0, end) =~= encode_utf8(piece));
    lemma_encode_injective(piece, slice(piece, 0, end));
    lemma_encode_concat(head, left);
    lemma_prefix_offset(head + left, right + tail);
    assert(head + piece + tail =~= (head + left) + (right + tail));
}

/// Whether `offset` can cut `text`.
pub fn check_offset(text: &str, offset: usize) -> (r: bool)
    ensures
        r == is_offset(text@, offset as int),
{
    proof {
        encode_utf8_valid_utf8(text@);
    }
    let len: usize = text.as_bytes().len();
    offset <= len && text.is_char_boundary(offset)
}

/// The text between two byte offsets.
pub fn slice_text(text: &str, start: usize, end: usize) -> (r: &str)
    requires
        is_offset(text@, start as int),
        is_offset(text@, end as int),
    ensures
        r@ == slice(text@, start as int, end as int),
{
    if start > end {
        let empty: &str = "";
        proof {
            reveal_strlit("");
            assert(empty@ =~= seq![]);
        }
        return empty;
    }
    proof {
        encode_utf8_valid_utf8(text@);
        lemma_boundary_in_prefix(encode_utf8(text@), start as int, end as int);
        lemma_slice_bytes(text@, start as int, end as int);
    }
    let (head, _) = text.split_at(end);
    let (_, piece) = head.split_at(start);
    proof {
        assert(piece.spec_bytes() =~= encode_utf8(text@).subrange(start as int, end as int));
        lemma_encode_injective(piece@, slice(text@, start as int, end as int));
    }
    piece
}

} // verus!
