//! From the text that the model was shown and the text that it answered with to edits.
use core::ops::Range;
use vstd::prelude::*;
use vstd::string::*;
use vstd::utf8::*;

use crate::text;

verus! {

/// What became of a piece of text.
#[derive(Clone, Copy, Debug, PartialEq, Eq, Structural)]
pub enum ChangeTag {
    Equal,
    Delete,
    Insert,
}

/// A piece of the old text, of the new text, or of both.
#[derive(Debug)]
pub struct Change {
    pub tag: ChangeTag,
    pub value: String,
}

/// The contents of a [`Change`].
#[verifier::ext_equal]
pub struct ChangeView {
    pub tag: ChangeTag,
    pub value: Seq<char>,
}

impl View for Change {
    type V = ChangeView;

    open spec fn view(&self) -> ChangeView {
        ChangeView { tag: self.tag, value: self.value@ }
    }
}

/// The replacement of the bytes `start..end` by `text`.
#[verifier::ext_equal]
pub struct EditView {
    pub start: int,
    pub end: int,
    pub text: Seq<char>,
}

/// What a list of changes says.
pub open spec fn changes_view(changes: Seq<Change>) -> Seq<ChangeView> {
    changes.map_values(|c: Change| c@)
}

/// What a list of edits says.
pub open spec fn edits_view(edits: Seq<(Range<usize>, String)>) -> Seq<EditView> {
    edits.map_values(
        |e: (Range<usize>, String)|
            EditView { start: e.0.start as int, end: e.0.end as int, text: e.1@ },
    )
}

/// The text before the changes: everything but what they insert.
pub open spec fn old_side(changes: Seq<ChangeView>) -> Seq<char>
    decreases changes.len(),
{
    if changes.len() == 0 {
        seq![]
    } else if changes.last().tag == ChangeTag::Insert {
        old_side(changes.drop_last())
    } else {
        old_side(changes.drop_last()) + changes.last().value
    }
}

/// The text behind the changes: everything but what they delete.
pub open spec fn new_side(changes: Seq<ChangeView>) -> Seq<char>
    decreases changes.len(),
{
    if changes.len() == 0 {
        seq![]
    } else if changes.last().tag == ChangeTag::Delete {
        new_side(changes.drop_last())
    } else {
        new_side(changes.drop_last()) + changes.last().value
    }
}

/// How the word diff of two texts, as `similar::TextDiff::from_words` computes it, cuts them into
/// changes.
pub uninterp spec fn word_diff(old: Seq<char>, new: Seq<char>) -> Seq<ChangeView>;

/// Diffs two texts by words: `similar::TextDiff::from_words` and `TextDiff::iter_all_changes`.
///
/// Trusted: the changes are a function of the two texts alone (no deadline is set). Without what
/// they insert they spell the old text, without what they delete the new one, since the words and
/// the white space between them make up each text and the diff passes through both of them from
/// the first word to the last. No change is empty, since no word is. The diff of a text with itself
/// changes nothing, since it starts with the longest common run of words.
///
/// `similar` numbers the distinct words of a longer text with 32 bits.
#[verifier::external_body]
fn word_changes(old: &str, new: &str) -> (r: Vec<Change>)
    requires
        old@.len() + new@.len() <= u32::MAX,
    ensures
        changes_view(r@) == word_diff(old@, new@),
        old_side(changes_view(r@)) == old@,
        new_side(changes_view(r@)) == new@,
        forall|i: int| 0 <= i < r@.len() ==> (#[trigger] r@[i]).value@.len() > 0,
        old@ == new@ ==> forall|i: int| 0 <= i < r@.len() ==> (#[trigger] r@[i]).tag == ChangeTag::Equal,
{
    similar::TextDiff::from_words(old, new)
        .iter_all_changes()
        .map(|change| Change {
            tag: match change.tag() {
                similar::ChangeTag::Equal => ChangeTag::Equal,
                similar::ChangeTag::Delete => ChangeTag::Delete,
                similar::ChangeTag::Insert => ChangeTag::Insert,
            },
            value: change.value().to_string(),
        })
        .collect()
}

/// Whether the last edit ends at `offset`, so that a change there belongs to it.
pub open spec fn reaches(edits: Seq<EditView>, offset: int) -> bool {
    edits.len() > 0 && edits.last().end == offset
}

/// `edits` and the deletion of `start..end`.
pub open spec fn with_deletion(edits: Seq<EditView>, start: int, end: int) -> Seq<EditView> {
    if reaches(edits, start) {
        edits.drop_last().push(EditView { end, ..edits.last() })
    } else {
        edits.push(EditView { start, end, text: seq![] })
    }
}

/// `edits` and the insertion of `value` at `offset`.
pub open spec fn with_insertion(edits: Seq<EditView>, offset: int, value: Seq<char>) -> Seq<
    EditView,
> {
    if reaches(edits, offset) {
        edits.drop_last().push(EditView { text: edits.last().text + value, ..edits.last() })
    } else {
        edits.push(EditView { start: offset, end: offset, text: value })
    }
}

/// The edits that make `changes` to a text that starts at byte `start`: changes that follow each
/// other without anything kept in between are one edit.
pub open spec fn edits_of(changes: Seq<ChangeView>, start: int) -> Seq<EditView>
    decreases changes.len(),
{
    if changes.len() == 0 {
        seq![]
    } else {
        let earlier = changes.drop_last();
        let edits = edits_of(earlier, start);
        let value = changes.last().value;
        let offset = start + encode_utf8(old_side(earlier)).len();
        match changes.last().tag {
            ChangeTag::Equal => edits,
            ChangeTag::Delete => with_deletion(edits, offset, offset + encode_utf8(value).len()),
            ChangeTag::Insert => with_insertion(edits, offset, value),
        }
    }
}

/// `bytes` after `edits`, which are in order and given by offsets into `bytes`.
pub open spec fn apply_edits(bytes: Seq<u8>, edits: Seq<EditView>) -> Seq<u8>
    decreases edits.len(),
{
    if edits.len() == 0 {
        bytes
    } else {
        let edit = edits.last();
        apply_edits(
            bytes.take(edit.start) + encode_utf8(edit.text) + bytes.skip(edit.end),
            edits.drop_last(),
        )
    }
}

/// Whether `edits` lie within `start..end`, in order, with something kept between any two.
pub open spec fn are_separate(edits: Seq<EditView>, start: int, end: int) -> bool {
    &&& forall|i: int|
        0 <= i < edits.len() ==> start <= (#[trigger] edits[i]).start <= edits[i].end <= end
    &&& forall|i: int, j: int|
        0 <= i < j < edits.len() ==> (#[trigger] edits[i]).end < (#[trigger] edits[j]).start
}

/// Whether every edit removes or inserts something.
pub open spec fn are_effective(edits: Seq<EditView>) -> bool {
    forall|i: int|
        0 <= i < edits.len() ==> (#[trigger] edits[i]).start < edits[i].end || edits[i].text.len()
            > 0
}

/// Edits lie within the text that is changed, in order, and no two of them touch.
pub proof fn lemma_edits_separate(changes: Seq<ChangeView>, start: int)
    ensures
        are_separate(
            edits_of(changes, start),
            start,
            start + encode_utf8(old_side(changes)).len(),
        ),
    decreases changes.len(),
{
    if changes.len() > 0 {
        let earlier = changes.drop_last();
        lemma_edits_separate(earlier, start);
        text::lemma_encode_concat(old_side(earlier), changes.last().value);
    }
}

/// Applying the edits to the old text gives the new text, whatever stands around it.
pub proof fn lemma_edits_apply(changes: Seq<ChangeView>, head: Seq<u8>, tail: Seq<u8>)
    ensures
        apply_edits(
            head + encode_utf8(old_side(changes)) + tail,
            edits_of(changes, head.len() as int),
        ) == head + encode_utf8(new_side(changes)) + tail,
    decreases changes.len(),
{
    if changes.len() > 0 {
        let start = head.len() as int;
        let earlier = changes.drop_last();
        let edits = edits_of(earlier, start);
        let value = changes.last().value;
        let bytes = encode_utf8(value);
        let kept = encode_utf8(old_side(earlier));
        let made = encode_utf8(new_side(earlier));
        let offset = start + kept.len();
        let all = head + encode_utf8(old_side(changes)) + tail;
        text::lemma_encode_concat(old_side(earlier), value);
        text::lemma_encode_concat(new_side(earlier), value);
        lemma_edits_separate(earlier, start);
        lemma_edits_apply(earlier, head, tail);
        lemma_edits_apply(earlier, head, bytes + tail);
        match changes.last().tag {
            ChangeTag::Equal => {
                assert(all =~= head + kept + (bytes + tail));
                assert(head + encode_utf8(new_side(changes)) + tail =~= head + made + (bytes
                    + tail));
            },
            ChangeTag::Delete => {
                let before = head + kept + tail;
                let end = offset + bytes.len();
                assert(all =~= head + kept + bytes + tail);
                if reaches(edits, offset) {
                    let last = edits.last();
                    assert(all.take(last.start) =~= before.take(last.start));
                    assert(all.skip(end) =~= before.skip(offset));
                    assert(with_deletion(edits, offset, end).drop_last() =~= edits.drop_last());
                } else {
                    assert(with_deletion(edits, offset, end).drop_last() =~= edits);
                    assert(all.take(offset) + encode_utf8(seq![]) + all.skip(end) =~= before);
                }
            },
            ChangeTag::Insert => {
                let before = head + kept + (bytes + tail);
                assert(all =~= head + kept + tail);
                assert(head + encode_utf8(new_side(changes)) + tail =~= head + made + (bytes
                    + tail));
                if reaches(edits, offset) {
                    let last = edits.last();
                    text::lemma_encode_concat(last.text, value);
                    assert(with_insertion(edits, offset, value).drop_last() =~= edits.drop_last());
                    assert(all.take(last.start) + encode_utf8(last.text + value) + all.skip(offset)
                        =~= before.take(last.start) + encode_utf8(last.text) + before.skip(offset));
                } else {
                    assert(with_insertion(edits, offset, value).drop_last() =~= edits);
                    assert(all.take(offset) + bytes + all.skip(offset) =~= before);
                }
            },
        }
    }
}

/// Edits cut the text that they change between characters.
pub proof fn lemma_edit_offsets(changes: Seq<ChangeView>, start: int, tail: Seq<char>)
    ensures
        forall|i: int|
            0 <= i < edits_of(changes, start).len() ==> ({
                let edit = #[trigger] edits_of(changes, start)[i];
                let all = old_side(changes) + tail;
                text::is_offset(all, edit.start - start) && text::is_offset(all, edit.end - start)
            }),
    decreases changes.len(),
{
    if changes.len() > 0 {
        let earlier = changes.drop_last();
        let value = changes.last().value;
        let all = old_side(changes) + tail;
        let kept = old_side(earlier);
        text::lemma_encode_concat(kept, value);
        if changes.last().tag == ChangeTag::Insert {
            lemma_edit_offsets(earlier, start, tail);
            text::lemma_prefix_offset(kept, tail);
        } else {
            lemma_edit_offsets(earlier, start, value + tail);
            assert(all =~= kept + (value + tail));
            text::lemma_prefix_offset(kept, value + tail);
            text::lemma_prefix_offset(kept + value, tail);
        }
        let before = edits_of(earlier, start);
        let edits = edits_of(changes, start);
        let offset = encode_utf8(kept).len() as int;
        assert(text::is_offset(all, offset));
        assert(changes.last().tag == ChangeTag::Delete ==> text::is_offset(
            all,
            offset + encode_utf8(value).len(),
        ));
        assert forall|i: int| 0 <= i < edits.len() implies text::is_offset(
            all,
            (#[trigger] edits[i]).start - start,
        ) && text::is_offset(all, edits[i].end - start) by {
            if i < before.len() {
                let edit = before[i];
                assert(text::is_offset(all, edit.start - start) && text::is_offset(
                    all,
                    edit.end - start,
                ));
            }
        }
    }
}

/// Changes that are not empty make edits that do something.
pub proof fn lemma_edits_effective(changes: Seq<ChangeView>, start: int)
    requires
        forall|i: int| 0 <= i < changes.len() ==> (#[trigger] changes[i]).value.len() > 0,
    ensures
        are_effective(edits_of(changes, start)),
    decreases changes.len(),
{
    if changes.len() > 0 {
        let earlier = changes.drop_last();
        let value = changes.last().value;
        assert forall|i: int| 0 <= i < earlier.len() implies (#[trigger] earlier[i]).value.len()
            > 0 by {
            assert(earlier[i] == changes[i]);
        }
        lemma_edits_effective(earlier, start);
        lemma_edits_separate(earlier, start);
        assert(changes.last() == changes[changes.len() - 1]);
        text::lemma_encode_not_empty(value);
    }
}

/// Where nothing changes there is nothing to edit.
pub proof fn lemma_no_edits(changes: Seq<ChangeView>, start: int)
    requires
        forall|i: int| 0 <= i < changes.len() ==> (#[trigger] changes[i]).tag == ChangeTag::Equal,
    ensures
        edits_of(changes, start) == Seq::<EditView>::empty(),
    decreases changes.len(),
{
    if changes.len() > 0 {
        let earlier = changes.drop_last();
        assert forall|i: int| 0 <= i < earlier.len() implies (#[trigger] earlier[i]).tag
            == ChangeTag::Equal by {
            assert(earlier[i] == changes[i]);
        }
        lemma_no_edits(earlier, start);
        assert(changes.last() == changes[changes.len() - 1]);
    }
}

/// The edits that make `changes` to a text that starts at byte `start`.
pub fn edits_from_changes(changes: &Vec<Change>, start: usize) -> (r: Vec<(Range<usize>, String)>)
    requires
        start + encode_utf8(old_side(changes_view(changes@))).len() <= usize::MAX,
    ensures
        edits_view(r@) == edits_of(changes_view(changes@), start as int),
{
    let ghost all = changes_view(changes@);
    let mut edits: Vec<(Range<usize>, String)> = Vec::new();
    let mut old_start: usize = start;
    let mut i: usize = 0;
    assert(edits_view(edits@) =~= edits_of(all.take(0), start as int));
    while i < changes.len()
        invariant
            i <= changes.len(),
            all == changes_view(changes@),
            start + encode_utf8(old_side(all)).len() <= usize::MAX,
            old_start == start + encode_utf8(old_side(all.take(i as int))).len(),
            edits_view(edits@) == edits_of(all.take(i as int), start as int),
        decreases changes.len() - i,
    {
        let change = &changes[i];
        let value = change.value.as_str();
        let len: usize = value.as_bytes().len();
        let ghost earlier = all.take(i as int);
        let ghost now = all.take(i + 1);
        let ghost before = edits_view(edits@);
        proof {
            assert(now.drop_last() =~= earlier);
            assert(now.last() == change@);
            text::lemma_encode_concat(old_side(earlier), value@);
            lemma_old_side_prefix(all, i + 1);
        }
        let touching: bool = edits.len() > 0 && edits[edits.len() - 1].0.end == old_start;
        assert(touching == reaches(before, old_start as int));
        match change.tag {
            ChangeTag::Equal => {
                old_start += len;
            },
            ChangeTag::Delete => {
                let old_end: usize = old_start + len;
                if touching {
                    if let Some((last_range, last_text)) = edits.pop() {
                        edits.push((last_range.start..old_end, last_text));
                    }
                } else {
                    edits.push((old_start..old_end, String::new()));
                }
                assert(edits_view(edits@) =~= with_deletion(
                    before,
                    old_start as int,
                    old_end as int,
                ));
                old_start = old_end;
            },
            ChangeTag::Insert => {
                if touching {
                    if let Some((last_range, last_text)) = edits.pop() {
                        let mut new_text = last_text;
                        new_text.append(value);
                        edits.push((last_range, new_text));
                    }
                } else {
                    edits.push((old_start..old_start, value.to_string()));
                }
                assert(edits_view(edits@) =~= with_insertion(before, old_start as int, value@));
            },
        }
        i += 1;
    }
    assert(all.take(i as int) =~= all);
    edits
}

/// A prefix of the changes has no more of the old text than all of them.
proof fn lemma_old_side_prefix(changes: Seq<ChangeView>, n: int)
    requires
        0 <= n <= changes.len(),
    ensures
        encode_utf8(old_side(changes.take(n))).len() <= encode_utf8(old_side(changes)).len(),
    decreases changes.len() - n,
{
    if n < changes.len() {
        lemma_old_side_prefix(changes, n + 1);
        let more = changes.take(n + 1);
        assert(more.drop_last() =~= changes.take(n));
        text::lemma_encode_concat(old_side(changes.take(n)), more.last().value);
    } else {
        assert(changes.take(n) =~= changes);
    }
}

/// The edits that turn `old`, which starts at byte `start`, into `new`, word by word.
pub fn edits_between(old: &str, new: &str, start: usize) -> (r: Vec<(Range<usize>, String)>)
    requires
        old@.len() + new@.len() <= u32::MAX,
        start + encode_utf8(old@).len() <= usize::MAX,
    ensures
        edits_view(r@) == edits_of(word_diff(old@, new@), start as int),
        are_separate(edits_view(r@), start as int, start + encode_utf8(old@).len()),
        are_effective(edits_view(r@)),
        forall|i: int|
            0 <= i < r@.len() ==> text::is_offset(
                old@,
                (#[trigger] edits_view(r@)[i]).start - start,
            ) && text::is_offset(old@, edits_view(r@)[i].end - start),
        forall|head: Seq<u8>, tail: Seq<u8>|
            head.len() == start ==> #[trigger] apply_edits(
                head + encode_utf8(old@) + tail,
                edits_view(r@),
            ) == head + encode_utf8(new@) + tail,
        r@.len() == 0 <==> old@ == new@,
{
    let changes = word_changes(old, new);
    let ghost all = changes_view(changes@);
    proof {
        lemma_edits_separate(all, start as int);
        assert forall|i: int| 0 <= i < all.len() implies (#[trigger] all[i]).value.len() > 0 by {
            assert(all[i] == changes@[i]@);
        }
        lemma_edits_effective(all, start as int);
        lemma_edit_offsets(all, start as int, seq![]);
        assert(old@ + Seq::<char>::empty() =~= old@);
        assert forall|head: Seq<u8>, tail: Seq<u8>| head.len() == start implies #[trigger]
            apply_edits(head + encode_utf8(old@) + tail, edits_of(all, start as int)) == head
            + encode_utf8(new@) + tail by {
            lemma_edits_apply(all, head, tail);
        }
        if old@ == new@ {
            lemma_no_edits(all, start as int);
        }
        if edits_of(all, start as int).len() == 0 {
            let head = Seq::new(start as nat, |i: int| 0u8);
            let tail = Seq::<u8>::empty();
            lemma_edits_apply(all, head, tail);
            let a = encode_utf8(old@);
            let b = encode_utf8(new@);
            assert(head + a + tail == head + b + tail);
            assert(a =~= (head + a + tail).subrange(start as int, start + a.len()));
            assert(b =~= (head + b + tail).subrange(start as int, start + b.len()));
            assert((head + a + tail).len() == (head + b + tail).len());
            text::lemma_encode_injective(old@, new@);
        }
    }
    edits_from_changes(&changes, start)
}

} // verus!
