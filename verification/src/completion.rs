//! Completions that the model suggests.
use core::ops::Range;
use vstd::prelude::*;
use vstd::string::*;

use crate::buffer::{Anchor, Bias, BufferSnapshot, SnapshotView};
use crate::diff;

verus! {

/// The number of a completion request.
#[derive(Clone, Copy, Debug, PartialEq, Eq, Structural, Hash)]
pub struct InlineCompletionId(pub usize);

/// Edits that the model suggests for a buffer.
pub struct InlineCompletion {
    pub id: InlineCompletionId,
    pub path: String,
    /// What to replace, and by what.
    pub edits: Vec<(Range<Anchor>, String)>,
    /// The state of the buffer that the edits are made for.
    pub snapshot: BufferSnapshot,
}

/// The replacement of what lies between two anchors by `text`.
#[verifier::ext_equal]
pub struct AnchoredEdit {
    pub start: Anchor,
    pub end: Anchor,
    pub text: Seq<char>,
}

/// The contents of an [`InlineCompletion`].
#[verifier::ext_equal]
pub struct CompletionView {
    pub id: InlineCompletionId,
    pub path: Seq<char>,
    pub edits: Seq<AnchoredEdit>,
    pub snapshot: SnapshotView,
}

/// What a list of anchored edits says.
pub open spec fn anchored_view(edits: Seq<(Range<Anchor>, String)>) -> Seq<AnchoredEdit> {
    edits.map_values(
        |e: (Range<Anchor>, String)|
            AnchoredEdit { start: e.0.start, end: e.0.end, text: e.1@ },
    )
}

/// An edit, anchored so that text typed at either end of what it replaces stays outside.
pub open spec fn anchor_edit(edit: diff::EditView) -> AnchoredEdit {
    AnchoredEdit {
        start: Anchor { offset: edit.start as usize, bias: Bias::Right },
        end: Anchor { offset: edit.end as usize, bias: Bias::Left },
        text: edit.text,
    }
}

/// Edits, anchored.
pub open spec fn anchor_edits(edits: Seq<diff::EditView>) -> Seq<AnchoredEdit> {
    edits.map_values(|e: diff::EditView| anchor_edit(e))
}

/// Anchored edits as edits of the text that they were anchored in.
pub open spec fn resolve_edits(edits: Seq<AnchoredEdit>) -> Seq<diff::EditView> {
    edits.map_values(
        |e: AnchoredEdit|
            diff::EditView { start: e.start.offset as int, end: e.end.offset as int, text: e.text },
    )
}

impl CompletionView {
    /// Whether there is something to edit, and every anchor lies between two characters.
    pub open spec fn wf(self) -> bool {
        &&& self.edits.len() > 0
        &&& forall|i: int|
            0 <= i < self.edits.len() ==> self.snapshot.is_offset(
                (#[trigger] self.edits[i]).start.offset as int,
            ) && self.snapshot.is_offset(self.edits[i].end.offset as int)
    }

    /// The bytes of the buffer once the completion is applied.
    pub open spec fn applied(self) -> Seq<u8> {
        diff::apply_edits(self.snapshot.bytes(), resolve_edits(self.edits))
    }
}

impl View for InlineCompletion {
    type V = CompletionView;

    open spec fn view(&self) -> CompletionView {
        CompletionView {
            id: self.id,
            path: self.path@,
            edits: anchored_view(self.edits@),
            snapshot: self.snapshot@,
        }
    }
}

/// Anchoring edits and resolving them again changes nothing.
pub proof fn lemma_anchor_round_trip(edits: Seq<diff::EditView>)
    requires
        forall|i: int|
            0 <= i < edits.len() ==> 0 <= (#[trigger] edits[i]).start <= usize::MAX && 0
                <= edits[i].end <= usize::MAX,
    ensures
        resolve_edits(anchor_edits(edits)) == edits,
{
    assert(resolve_edits(anchor_edits(edits)) =~= edits);
}

/// Anchors the edits of a buffer: the start of each to the right, its end to the left.
pub fn anchor_ranges(edits: Vec<(Range<usize>, String)>) -> (r: Vec<(Range<Anchor>, String)>)
    ensures
        anchored_view(r@) == anchor_edits(diff::edits_view(edits@)),
{
    let mut anchored: Vec<(Range<Anchor>, String)> = Vec::new();
    let mut i: usize = 0;
    while i < edits.len()
        invariant
            i <= edits.len(),
            anchored@.len() == i,
            forall|k: int|
                0 <= k < i ==> anchored_view(anchored@)[k] == #[trigger] anchor_edits(
                    diff::edits_view(edits@),
                )[k],
        decreases edits.len() - i,
    {
        let start = Anchor { offset: edits[i].0.start, bias: Bias::Right };
        let end = Anchor { offset: edits[i].0.end, bias: Bias::Left };
        let ghost before = anchored@;
        anchored.push((start..end, edits[i].1.clone()));
        proof {
            assert forall|k: int| 0 <= k < i + 1 implies anchored_view(anchored@)[k]
                == #[trigger] anchor_edits(diff::edits_view(edits@))[k] by {
                if k < i {
                    assert(anchored_view(anchored@)[k] == anchored_view(before)[k]);
                }
            }
        }
        i += 1;
    }
    assert(anchored_view(anchored@) =~= anchor_edits(diff::edits_view(edits@)));
    anchored
}

} // verus!
