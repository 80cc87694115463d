//! Runs of neighbouring edits, and the rows that are shown for them.
use vstd::prelude::*;

use crate::buffer::Edit;

verus! {

/// How many rows are shown on either side of an edit.
pub const HUNK_CONTEXT: u32 = 2;

/// Rows of the old and of the new state of a buffer, each from the start of its first row to the
/// end of its last one.
#[derive(Clone, Copy, Debug, PartialEq, Eq, Structural)]
pub struct Hunk {
    pub old_start: u32,
    pub old_end: u32,
    pub new_start: u32,
    pub new_end: u32,
}

/// Whether the context of every edit can be counted in 32 bits.
pub open spec fn edits_fit(edits: Seq<Edit>) -> bool {
    forall|i: int|
        0 <= i < edits.len() ==> (#[trigger] edits[i]).old.end.row + HUNK_CONTEXT <= u32::MAX
            && edits[i].new.end.row + HUNK_CONTEXT <= u32::MAX
}

/// The first row of the context of an edit that starts in `row`.
pub open spec fn context_start(row: u32) -> u32 {
    if row > HUNK_CONTEXT {
        (row - HUNK_CONTEXT) as u32
    } else {
        0
    }
}

/// The last row of the context of an edit that ends in `row`, in a buffer that ends in `max_row`.
pub open spec fn context_end(row: u32, max_row: u32) -> u32 {
    if row + HUNK_CONTEXT < max_row + 1 {
        (row + HUNK_CONTEXT) as u32
    } else {
        (max_row + 1) as u32
    }
}

/// Whether `next` starts within the context of the edit before it.
pub open spec fn is_near(edit: Edit, next: Edit, old_max_row: u32) -> bool {
    next.old.start.row <= context_end(edit.old.end.row, old_max_row)
}

/// Where the run of near edits that starts at `first` ends.
pub open spec fn run_end(edits: Seq<Edit>, first: int, old_max_row: u32) -> int
    decreases edits.len() - first,
{
    if 0 <= first && first + 1 < edits.len() && is_near(
        edits[first],
        edits[first + 1],
        old_max_row,
    ) {
        run_end(edits, first + 1, old_max_row)
    } else {
        first + 1
    }
}

/// The rows that are shown for the edits `first..end`.
pub open spec fn hunk_of(
    edits: Seq<Edit>,
    first: int,
    end: int,
    old_max_row: u32,
    new_max_row: u32,
) -> Hunk {
    Hunk {
        old_start: context_start(edits[first].old.start.row),
        old_end: context_end(edits[end - 1].old.end.row, old_max_row),
        new_start: context_start(edits[first].new.start.row),
        new_end: context_end(edits[end - 1].new.end.row, new_max_row),
    }
}

/// One hunk for each run of near edits from `first` on.
pub open spec fn hunks_of(edits: Seq<Edit>, first: int, old_max_row: u32, new_max_row: u32) -> Seq<
    Hunk,
>
    decreases edits.len() - first,
    via hunks_of_decreases
{
    if 0 <= first < edits.len() {
        let end = run_end(edits, first, old_max_row);
        seq![hunk_of(edits, first, end, old_max_row, new_max_row)] + hunks_of(
            edits,
            end,
            old_max_row,
            new_max_row,
        )
    } else {
        seq![]
    }
}

#[via_fn]
proof fn hunks_of_decreases(edits: Seq<Edit>, first: int, old_max_row: u32, new_max_row: u32) {
    if 0 <= first < edits.len() {
        lemma_run_end(edits, first, old_max_row);
    }
}

/// A run holds at least one edit, and within it each edit is near the one before.
pub proof fn lemma_run_end(edits: Seq<Edit>, first: int, old_max_row: u32)
    requires
        0 <= first < edits.len(),
    ensures
        first < run_end(edits, first, old_max_row) <= edits.len(),
        forall|k: int|
            first < k < run_end(edits, first, old_max_row) ==> is_near(
                edits[k - 1],
                #[trigger] edits[k],
                old_max_row,
            ),
    decreases edits.len() - first,
{
    if first + 1 < edits.len() && is_near(edits[first], edits[first + 1], old_max_row) {
        lemma_run_end(edits, first + 1, old_max_row);
    }
}

/// The lesser of two rows.
fn min_row(a: u32, b: u32) -> (r: u32)
    ensures
        r == if a < b {
            a
        } else {
            b
        },
{
    if a < b {
        a
    } else {
        b
    }
}

/// Merges edits whose contexts overlap and adds the context.
pub fn merge_edits(edits: &Vec<Edit>, old_max_row: u32, new_max_row: u32) -> (r: Vec<Hunk>)
    requires
        edits_fit(edits@),
        old_max_row < u32::MAX,
        new_max_row < u32::MAX,
    ensures
        r@ == hunks_of(edits@, 0, old_max_row, new_max_row),
{
    let mut hunks: Vec<Hunk> = Vec::new();
    let mut next: usize = 0;
    assert(hunks@ + hunks_of(edits@, 0, old_max_row, new_max_row) =~= hunks_of(
        edits@,
        0,
        old_max_row,
        new_max_row,
    ));
    while next < edits.len()
        invariant
            edits_fit(edits@),
            old_max_row < u32::MAX,
            new_max_row < u32::MAX,
            next <= edits.len(),
            hunks@ + hunks_of(edits@, next as int, old_max_row, new_max_row) == hunks_of(
                edits@,
                0,
                old_max_row,
                new_max_row,
            ),
        decreases edits.len() - next,
    {
        let first: usize = next;
        let ghost before = hunks@;
        let mut old_start: u32 = edits[first].old.start.row;
        let mut old_end: u32 = edits[first].old.end.row;
        let mut new_start: u32 = edits[first].new.start.row;
        let mut new_end: u32 = edits[first].new.end.row;
        next += 1;
        old_start = old_start.saturating_sub(HUNK_CONTEXT);
        old_end = min_row(old_end + HUNK_CONTEXT, old_max_row + 1);
        // Merge the edits that follow while they start within the context.
        while next < edits.len() && edits[next].old.start.row <= old_end
            invariant
                edits_fit(edits@),
                old_max_row < u32::MAX,
                first < next <= edits.len(),
                old_end == context_end(edits@[next - 1].old.end.row, old_max_row),
                new_end == edits@[next - 1].new.end.row,
                run_end(edits@, first as int, old_max_row) == run_end(
                    edits@,
                    next - 1,
                    old_max_row,
                ),
            decreases edits.len() - next,
        {
            old_end = min_row(edits[next].old.end.row + HUNK_CONTEXT, old_max_row + 1);
            new_end = edits[next].new.end.row;
            next += 1;
        }
        new_start = new_start.saturating_sub(HUNK_CONTEXT);
        new_end = min_row(new_end + HUNK_CONTEXT, new_max_row + 1);
        hunks.push(Hunk { old_start, old_end, new_start, new_end });
        proof {
            let hunk = hunk_of(edits@, first as int, next as int, old_max_row, new_max_row);
            let rest = hunks_of(edits@, next as int, old_max_row, new_max_row);
            lemma_run_end(edits@, first as int, old_max_row);
            assert(run_end(edits@, first as int, old_max_row) == next);
            assert(hunks@.last() == hunk);
            assert(hunks@ + rest =~= before + (seq![hunk] + rest));
        }
    }
    assert(hunks@ + Seq::<Hunk>::empty() =~= hunks@);
    hunks
}

} // verus!
