//! What the model is told of events.
use vstd::prelude::*;
use vstd::utf8::*;

use crate::buffer::{Edit, SnapshotView};
use crate::chat::{self, MessageView, Prediction, Request};
use crate::completion::{AnchoredEdit, CompletionView, InlineCompletionId};
use crate::event::{self, EventView};
use crate::history::{self, EntryView};
use crate::hunk::{self, Hunk};
use crate::laws;
use crate::path;
use crate::pattern;
use crate::rows;
use crate::text;
use crate::zeta;

verus! {

// --- Parts of a text ---------------------------------------------------------------------------

/// Whether `part` stands in `s` at index `i`.
pub open spec fn stands_at(s: Seq<char>, part: Seq<char>, i: int) -> bool {
    0 <= i && i + part.len() <= s.len() && s.subrange(i, i + part.len()) == part
}

/// Whether `part` stands somewhere in `s`.
pub open spec fn holds(s: Seq<char>, part: Seq<char>) -> bool {
    exists|i: int| #[trigger] stands_at(s, part, i)
}

/// What stands in a part of a text stands in the text.
proof fn lemma_holds(a: Seq<char>, s: Seq<char>, b: Seq<char>, part: Seq<char>)
    requires
        holds(s, part),
    ensures
        holds(a + s + b, part),
{
    let i = choose|i: int| #[trigger] stands_at(s, part, i);
    let all = a + s + b;
    assert(all.subrange(i + a.len(), i + a.len() + part.len()) =~= s.subrange(i, i + part.len()));
    assert(stands_at(all, part, i + a.len()));
}

/// A text stands in itself.
proof fn lemma_holds_itself(s: Seq<char>)
    ensures
        holds(s, s),
{
    assert(s.subrange(0, s.len() as int) =~= s);
    assert(stands_at(s, s, 0));
}

/// A wider slice holds a narrower one.
proof fn lemma_slice_holds(text: Seq<char>, a: int, b: int, c: int, d: int)
    requires
        text::is_offset(text, a),
        text::is_offset(text, b),
        text::is_offset(text, c),
        text::is_offset(text, d),
        a <= b <= c <= d,
    ensures
        holds(text::slice(text, a, d), text::slice(text, b, c)),
{
    text::lemma_slice_join(text, a, b, c);
    text::lemma_slice_join(text, a, c, d);
    let part = text::slice(text, b, c);
    lemma_holds_itself(part);
    lemma_holds(text::slice(text, a, b), part, text::slice(text, c, d), part);
}

// --- Events ------------------------------------------------------------------------------------

/// The name of a buffer is its path, or `untitled`.
pub proof fn law_buffers_are_named_by_their_paths(snapshot: SnapshotView)
    ensures
        snapshot.path matches Some(path) ==> snapshot.shown_path() == path,
        snapshot.path is None ==> snapshot.shown_path() == "untitled"@,
{
}

/// Opening, saving and closing are told with the quoted path, and a request that came to nothing by
/// a mark of its own.
pub proof fn law_files_are_named(
    name: Seq<char>,
    id: InlineCompletionId,
    edits: Seq<Edit>,
    renamed: bool,
)
    ensures
        (EventView::Open { path: name }).prompt(edits, renamed) == "User opened file: "@
            + path::debug_path(name),
        (EventView::Save { path: name }).prompt(edits, renamed) == "User saved file: "@
            + path::debug_path(name),
        (EventView::Close { path: name }).prompt(edits, renamed) == "User closed file: "@
            + path::debug_path(name),
        (EventView::NoInlineCompletion { id }).prompt(edits, renamed) == "<|DONE|>"@,
{
}

/// Only a change has two paths to compare, those of its two states.
pub proof fn law_paths_of_changes_are_compared(
    event: EventView,
    old_snapshot: SnapshotView,
    new_snapshot: SnapshotView,
    renamed: bool,
)
    ensures
        (EventView::BufferChange { old_snapshot, new_snapshot }).may_rename(renamed)
            == path::may_compare(old_snapshot.shown_path(), new_snapshot.shown_path(), !renamed),
        (EventView::BufferChange { old_snapshot, new_snapshot }).renames() == (
        path::path_components(old_snapshot.shown_path()) != path::path_components(
            new_snapshot.shown_path(),
        )),
        (EventView::BufferChange { old_snapshot, new_snapshot }).is_portable() == (
        path::is_portable(old_snapshot.shown_path()) && path::is_portable(
            new_snapshot.shown_path(),
        )),
        !(event is BufferChange) ==> !event.renames() && (event.may_rename(renamed) ==> !renamed),
{
}

/// An edit is told by its old and its new text, between markers.
pub proof fn law_edits_stand_between_markers(old_text: Seq<char>, new_text: Seq<char>)
    ensures
        event::edit_prompt(old_text, new_text) == "<<<<<<< ORIGINAL\n"@ + old_text
            + "\n=======\n"@ + new_text + "\n>>>>>>> UPDATED"@,
{
}

/// A completion that was turned down is told edit by edit, with what each was to replace.
pub proof fn law_rejections_are_told(
    completion: CompletionView,
    edit: AnchoredEdit,
    edits: Seq<Edit>,
    renamed: bool,
)
    ensures
        EventView::InlineCompletionRejected(completion).prompt(edits, renamed)
            == "User rejected these edits you suggested for file "@ + path::debug_path(
            completion.path,
        ) + ":\n"@ + event::suggestions_prompt(completion.snapshot, completion.edits),
        event::suggestions_prompt(completion.snapshot, seq![]) == Seq::<char>::empty(),
        ({
            let shown = "<<<<<<< ORIGINAL\n"@ + text::slice(
                completion.snapshot.text,
                edit.start.offset as int,
                edit.end.offset as int,
            ) + "\n=======\n"@ + edit.text + "\n>>>>>>> UPDATED"@;
            event::suggestions_prompt(completion.snapshot, completion.edits.push(edit))
                == if completion.edits.len() == 0 {
                shown
            } else {
                event::suggestions_prompt(completion.snapshot, completion.edits) + "\n"@ + shown
            }
        }),
{
    assert(completion.edits.push(edit).drop_last() =~= completion.edits);
}

// --- Hunks -------------------------------------------------------------------------------------

/// The lesser of two numbers.
pub open spec fn least(a: int, b: int) -> int {
    if a < b {
        a
    } else {
        b
    }
}

/// Whether an edit starts within two rows behind the end of the one before it.
pub open spec fn is_close(edit: Edit, next: Edit, old_max_row: u32) -> bool {
    next.old.start.row <= least(edit.old.end.row + 2, old_max_row + 1)
}

/// Edits of which each is close to the one before it make one hunk: from two rows before the first
/// to two rows behind the last, or to the row behind the buffer's last one.
pub proof fn law_close_edits_make_one_hunk(edits: Seq<Edit>, old_max_row: u32, new_max_row: u32)
    requires
        hunk::edits_fit(edits),
        old_max_row < u32::MAX,
        new_max_row < u32::MAX,
        edits.len() > 0,
        forall|k: int|
            0 < k < edits.len() ==> is_close(edits[k - 1], #[trigger] edits[k], old_max_row),
    ensures
        ({
            let hunks = hunk::hunks_of(edits, 0, old_max_row, new_max_row);
            let first = edits[0];
            let last = edits[edits.len() - 1];
            &&& hunks.len() == 1
            &&& hunks[0].old_start == if first.old.start.row < 2 {
                0
            } else {
                first.old.start.row - 2
            }
            &&& hunks[0].new_start == if first.new.start.row < 2 {
                0
            } else {
                first.new.start.row - 2
            }
            &&& hunks[0].old_end == least(last.old.end.row + 2, old_max_row + 1)
            &&& hunks[0].new_end == least(last.new.end.row + 2, new_max_row + 1)
        }),
{
    lemma_run_to_the_end(edits, 0, old_max_row);
    let end = edits.len() as int;
    assert(hunk::hunks_of(edits, end, old_max_row, new_max_row) =~= seq![]);
    assert(hunk::hunks_of(edits, 0, old_max_row, new_max_row) =~= seq![
        hunk::hunk_of(edits, 0, end, old_max_row, new_max_row),
    ]);
}

/// A run of close edits goes on to the last one.
proof fn lemma_run_to_the_end(edits: Seq<Edit>, first: int, old_max_row: u32)
    requires
        0 <= first < edits.len(),
        hunk::edits_fit(edits),
        old_max_row < u32::MAX,
        forall|k: int|
            0 < k < edits.len() ==> is_close(edits[k - 1], #[trigger] edits[k], old_max_row),
    ensures
        hunk::run_end(edits, first, old_max_row) == edits.len(),
    decreases edits.len() - first,
{
    assert(edits[first].old.end.row + hunk::HUNK_CONTEXT <= u32::MAX);
    if first + 1 < edits.len() {
        assert(is_close(edits[first + 1 - 1], edits[first + 1], old_max_row));
        lemma_run_to_the_end(edits, first + 1, old_max_row);
    }
}

/// Where an edit is not close to the one before it, the hunks are those of the edits before and
/// those of the edits from there on.
pub proof fn law_far_edits_make_their_own_hunks(
    a: Seq<Edit>,
    b: Seq<Edit>,
    old_max_row: u32,
    new_max_row: u32,
)
    requires
        hunk::edits_fit(a),
        old_max_row < u32::MAX,
        a.len() > 0,
        b.len() > 0,
        !is_close(a[a.len() - 1], b[0], old_max_row),
    ensures
        hunk::hunks_of(a + b, 0, old_max_row, new_max_row) == hunk::hunks_of(
            a,
            0,
            old_max_row,
            new_max_row,
        ) + hunk::hunks_of(b, 0, old_max_row, new_max_row),
{
    lemma_hunks_part(a, b, 0, old_max_row, new_max_row);
}

/// The hunks of all edits from `first` on are those of the first part and then the second.
proof fn lemma_hunks_part(
    a: Seq<Edit>,
    b: Seq<Edit>,
    first: int,
    old_max_row: u32,
    new_max_row: u32,
)
    requires
        hunk::edits_fit(a),
        old_max_row < u32::MAX,
        0 <= first <= a.len(),
        a.len() > 0,
        b.len() > 0,
        !is_close(a[a.len() - 1], b[0], old_max_row),
    ensures
        hunk::hunks_of(a + b, first, old_max_row, new_max_row) == hunk::hunks_of(
            a,
            first,
            old_max_row,
            new_max_row,
        ) + hunk::hunks_of(b, 0, old_max_row, new_max_row),
    decreases a.len() - first,
{
    let all = a + b;
    if first == a.len() {
        lemma_hunks_shift(a, b, 0, old_max_row, new_max_row);
        assert(hunk::hunks_of(a, first, old_max_row, new_max_row) =~= seq![]);
    } else {
        lemma_run_in_front(a, b, first, old_max_row);
        hunk::lemma_run_end(a, first, old_max_row);
        let end = hunk::run_end(a, first, old_max_row);
        lemma_hunks_part(a, b, end, old_max_row, new_max_row);
        let own = hunk::hunk_of(a, first, end, old_max_row, new_max_row);
        assert(own == hunk::hunk_of(all, first, end, old_max_row, new_max_row));
        let rest = hunk::hunks_of(a, end, old_max_row, new_max_row);
        let tail = hunk::hunks_of(b, 0, old_max_row, new_max_row);
        assert(seq![own] + (rest + tail) =~= (seq![own] + rest) + tail);
    }
}

/// A run of the first part ends there.
proof fn lemma_run_in_front(a: Seq<Edit>, b: Seq<Edit>, first: int, old_max_row: u32)
    requires
        hunk::edits_fit(a),
        old_max_row < u32::MAX,
        0 <= first < a.len(),
        b.len() > 0,
        !is_close(a[a.len() - 1], b[0], old_max_row),
    ensures
        hunk::run_end(a + b, first, old_max_row) == hunk::run_end(a, first, old_max_row),
    decreases a.len() - first,
{
    let all = a + b;
    assert(all[first] == a[first]);
    assert(a[first].old.end.row + hunk::HUNK_CONTEXT <= u32::MAX);
    if first + 1 < a.len() {
        assert(all[first + 1] == a[first + 1]);
        lemma_run_in_front(a, b, first + 1, old_max_row);
    } else {
        assert(all[first + 1] == b[0]);
    }
}

/// Edits behind others make the hunks that they make alone.
proof fn lemma_hunks_shift(
    a: Seq<Edit>,
    b: Seq<Edit>,
    first: int,
    old_max_row: u32,
    new_max_row: u32,
)
    requires
        0 <= first <= b.len(),
    ensures
        hunk::hunks_of(a + b, a.len() + first, old_max_row, new_max_row) == hunk::hunks_of(
            b,
            first,
            old_max_row,
            new_max_row,
        ),
    decreases b.len() - first,
{
    if first < b.len() {
        lemma_run_shift(a, b, first, old_max_row);
        hunk::lemma_run_end(b, first, old_max_row);
        let end = hunk::run_end(b, first, old_max_row);
        lemma_hunks_shift(a, b, end, old_max_row, new_max_row);
        assert((a + b)[a.len() + first] == b[first]);
        assert((a + b)[a.len() + end - 1] == b[end - 1]);
    }
}

/// A run behind other edits ends where it ends alone.
proof fn lemma_run_shift(a: Seq<Edit>, b: Seq<Edit>, first: int, old_max_row: u32)
    requires
        0 <= first < b.len(),
    ensures
        hunk::run_end(a + b, a.len() + first, old_max_row) == a.len() + hunk::run_end(
            b,
            first,
            old_max_row,
        ),
    decreases b.len() - first,
{
    assert((a + b)[a.len() + first] == b[first]);
    if first + 1 < b.len() {
        assert((a + b)[a.len() + first + 1] == b[first + 1]);
        lemma_run_shift(a, b, first + 1, old_max_row);
    }
}

// --- Changes -----------------------------------------------------------------------------------

/// The text of some rows goes from the start of the first to the end of the last.
pub proof fn law_row_text_is_a_slice(snapshot: SnapshotView, first: int, last: int)
    ensures
        snapshot.bytes() == encode_utf8(snapshot.text),
        snapshot.row_text(first, last) == text::slice(
            snapshot.text,
            rows::row_start(encode_utf8(snapshot.text), first),
            rows::row_end(encode_utf8(snapshot.text), last),
        ),
{
}

/// Each hunk is told by its own old rows and its own new rows, behind the hunks before it.
pub proof fn law_hunks_are_told(
    old: SnapshotView,
    new: SnapshotView,
    hunks: Seq<Hunk>,
    next: Hunk,
)
    ensures
        event::hunks_prompt(old, new, seq![]) == Seq::<char>::empty(),
        event::hunks_prompt(old, new, hunks.push(next)) == event::hunks_prompt(old, new, hunks)
            + "<<<<<<< ORIGINAL\n"@ + old.row_text(next.old_start as int, next.old_end as int)
            + "\n=======\n"@ + new.row_text(next.new_start as int, next.new_end as int)
            + "\n>>>>>>> UPDATED"@ + "\n\n\n"@,
{
    assert(hunks.push(next).drop_last() =~= hunks);
    let before = event::hunks_prompt(old, new, hunks);
    let old_text = old.row_text(next.old_start as int, next.old_end as int);
    let new_text = new.row_text(next.new_start as int, next.new_end as int);
    assert(before + ("<<<<<<< ORIGINAL\n"@ + old_text + "\n=======\n"@ + new_text
        + "\n>>>>>>> UPDATED"@) + "\n\n\n"@ =~= before + "<<<<<<< ORIGINAL\n"@ + old_text
        + "\n=======\n"@ + new_text + "\n>>>>>>> UPDATED"@ + "\n\n\n"@);
}

/// A change is told by the new path and the hunks of its edits, and a change without edits by
/// nothing; a change of paths is told before that, by both paths.
pub proof fn law_changes_are_told(
    old: SnapshotView,
    new: SnapshotView,
    edits: Seq<Edit>,
    renamed: bool,
)
    ensures
        ({
            let change = EventView::BufferChange { old_snapshot: old, new_snapshot: new };
            let old_path = path::debug_path(old.shown_path());
            let new_path = path::debug_path(new.shown_path());
            &&& change.prompt(edits, true) == "User renamed "@ + old_path + " to "@ + new_path
                + "\n\n"@ + change.prompt(edits, false)
            &&& edits.len() == 0 ==> change.prompt(edits, false) == Seq::<char>::empty()
            &&& edits.len() > 0 ==> change.prompt(edits, false) == "User edited "@ + new_path
                + ":\n\n"@ + event::hunks_prompt(
                old,
                new,
                hunk::hunks_of(
                    edits,
                    0,
                    rows::max_row(encode_utf8(old.text)) as u32,
                    rows::max_row(encode_utf8(new.text)) as u32,
                ),
            )
            &&& change.described(edits, old_path, new_path, renamed) == change.prompt(
                edits,
                renamed,
            )
        }),
{
    let change = EventView::BufferChange { old_snapshot: old, new_snapshot: new };
    let old_path = path::debug_path(old.shown_path());
    let new_path = path::debug_path(new.shown_path());
    let none = Seq::<char>::empty();
    let moved = "User renamed "@ + old_path + " to "@ + new_path + "\n\n"@;
    let edited = if edits.len() > 0 {
        "User edited "@ + new_path + ":\n\n"@
    } else {
        none
    };
    let hunks = event::hunks_prompt(old, new, event::change_hunks(old, new, edits));
    assert(change.prompt(edits, true) == moved + edited + hunks);
    assert(change.prompt(edits, false) == none + edited + hunks);
    assert(none + edited + hunks =~= edited + hunks);
    assert(moved + edited + hunks =~= moved + (edited + hunks));
    if edits.len() == 0 {
        assert(event::change_hunks(old, new, edits) =~= seq![]);
        assert(hunks =~= none);
        assert(none + none =~= none);
    }
}

/// A hunk stands in the prompt of all hunks.
proof fn lemma_hunk_is_told(old: SnapshotView, new: SnapshotView, hunks: Seq<Hunk>, h: int)
    requires
        0 <= h < hunks.len(),
    ensures
        holds(
            event::hunks_prompt(old, new, hunks),
            event::edit_prompt(
                old.row_text(hunks[h].old_start as int, hunks[h].old_end as int),
                new.row_text(hunks[h].new_start as int, hunks[h].new_end as int),
            ),
        ),
    decreases hunks.len(),
{
    let before = event::hunks_prompt(old, new, hunks.drop_last());
    let last = event::hunk_prompt(old, new, hunks.last());
    let part = event::edit_prompt(
        old.row_text(hunks[h].old_start as int, hunks[h].old_end as int),
        new.row_text(hunks[h].new_start as int, hunks[h].new_end as int),
    );
    let none = Seq::<char>::empty();
    if h == hunks.len() - 1 {
        lemma_holds_itself(part);
        lemma_holds(before, last, "\n\n\n"@, part);
    } else {
        lemma_hunk_is_told(old, new, hunks.drop_last(), h);
        lemma_holds(none, before, last + "\n\n\n"@, part);
        assert(none + before + (last + "\n\n\n"@) =~= before + last + "\n\n\n"@);
    }
}

/// More rows hold fewer rows.
proof fn lemma_rows_hold(snapshot: SnapshotView, a: int, b: int, c: int, d: int)
    requires
        0 <= a <= b <= c <= d,
    ensures
        holds(
            snapshot.row_text(a, d),
            text::slice(
                snapshot.text,
                rows::row_start(snapshot.bytes(), b),
                rows::row_end(snapshot.bytes(), c),
            ),
        ),
{
    let bytes = snapshot.bytes();
    rows::lemma_row_offsets(snapshot.text, a);
    rows::lemma_row_offsets(snapshot.text, b);
    rows::lemma_row_offsets(snapshot.text, c);
    rows::lemma_row_offsets(snapshot.text, d);
    rows::lemma_rows_ordered(bytes, a, b);
    rows::lemma_rows_ordered(bytes, b, c);
    rows::lemma_rows_ordered(bytes, c, d);
    lemma_slice_holds(
        snapshot.text,
        rows::row_start(bytes, a),
        rows::row_start(bytes, b),
        rows::row_end(bytes, c),
        rows::row_end(bytes, d),
    );
}

/// Every edit is shown: between the markers of some hunk the old text holds all rows of the edit in
/// the old state, and the new text all its rows in the new state.
pub proof fn law_edits_are_shown(
    old: SnapshotView,
    new: SnapshotView,
    edits: Seq<Edit>,
    renamed: bool,
    k: int,
)
    requires
        old.fits(),
        new.fits(),
        laws::are_edits_of(
            edits,
            rows::max_row(encode_utf8(old.text)) as u32,
            rows::max_row(encode_utf8(new.text)) as u32,
        ),
        0 <= k < edits.len(),
    ensures
        exists|old_text: Seq<char>, new_text: Seq<char>|
            #![trigger event::edit_prompt(old_text, new_text)]
            {
                &&& holds(
                    (EventView::BufferChange { old_snapshot: old, new_snapshot: new }).prompt(
                        edits,
                        renamed,
                    ),
                    "<<<<<<< ORIGINAL\n"@ + old_text + "\n=======\n"@ + new_text
                        + "\n>>>>>>> UPDATED"@,
                )
                &&& holds(
                    old_text,
                    text::slice(
                        old.text,
                        rows::row_start(encode_utf8(old.text), edits[k].old.start.row as int),
                        rows::row_end(encode_utf8(old.text), edits[k].old.end.row as int),
                    ),
                )
                &&& holds(
                    new_text,
                    text::slice(
                        new.text,
                        rows::row_start(encode_utf8(new.text), edits[k].new.start.row as int),
                        rows::row_end(encode_utf8(new.text), edits[k].new.end.row as int),
                    ),
                )
            },
{
    let old_max = rows::max_row(old.bytes()) as u32;
    let new_max = rows::max_row(new.bytes()) as u32;
    let change = EventView::BufferChange { old_snapshot: old, new_snapshot: new };
    let hunks = hunk::hunks_of(edits, 0, old_max, new_max);
    laws::law_hunks_cover_edits(edits, 0, old_max, new_max, k);
    let h = choose|h: int| 0 <= h < hunks.len() && laws::covers(#[trigger] hunks[h], edits[k]);
    let shown = hunks[h];
    let edit = edits[k];
    let old_text = old.row_text(shown.old_start as int, shown.old_end as int);
    let new_text = new.row_text(shown.new_start as int, shown.new_end as int);
    let part = event::edit_prompt(old_text, new_text);
    lemma_hunk_is_told(old, new, hunks, h);
    lemma_rows_hold(
        old,
        shown.old_start as int,
        edit.old.start.row as int,
        edit.old.end.row as int,
        shown.old_end as int,
    );
    lemma_rows_hold(
        new,
        shown.new_start as int,
        edit.new.start.row as int,
        edit.new.end.row as int,
        shown.new_end as int,
    );
    law_changes_are_told(old, new, edits, renamed);
    let told = event::hunks_prompt(old, new, hunks);
    let none = Seq::<char>::empty();
    let edited = "User edited "@ + path::debug_path(new.shown_path()) + ":\n\n"@;
    lemma_holds(edited, told, none, part);
    assert(edited + told + none =~= change.prompt(edits, false));
    if renamed {
        let moved = "User renamed "@ + path::debug_path(old.shown_path()) + " to "@
            + path::debug_path(new.shown_path()) + "\n\n"@;
        lemma_holds(moved, change.prompt(edits, false), none, part);
        assert(moved + change.prompt(edits, false) + none =~= change.prompt(edits, true));
    }
    assert(holds(change.prompt(edits, renamed), part));
}

// --- Lists of events ---------------------------------------------------------------------------

/// How long the prompts of the first `n` events are together, with two more for each.
pub open spec fn told_len(
    events: Seq<EntryView>,
    edits: Seq<Vec<Edit>>,
    renamed: Seq<bool>,
    n: int,
) -> int
    decreases n,
{
    if n <= 0 {
        0
    } else {
        told_len(events, edits, renamed, n - 1) + events[n - 1].event.prompt(
            edits[n - 1]@,
            renamed[n - 1],
        ).len() + 2
    }
}

/// One more event adds its prompt and a blank line, whatever event it is.
pub proof fn law_every_event_adds_its_prompt(
    events: Seq<EntryView>,
    next: EntryView,
    edits: Seq<Vec<Edit>>,
    renamed: Seq<bool>,
)
    ensures
        history::events_prompt(seq![], edits, renamed) == Seq::<char>::empty(),
        history::events_prompt(events.push(next), edits, renamed) == history::events_prompt(
            events,
            edits,
            renamed,
        ) + next.event.prompt(edits[events.len() as int]@, renamed[events.len() as int])
            + "\n\n"@,
{
    assert(events.push(next).drop_last() =~= events);
}

/// The prompt of all events is as long as their prompts are, with a blank line behind each.
pub proof fn law_no_event_is_left_out(
    events: Seq<EntryView>,
    edits: Seq<Vec<Edit>>,
    renamed: Seq<bool>,
)
    ensures
        history::events_prompt(events, edits, renamed).len() == told_len(
            events,
            edits,
            renamed,
            events.len() as int,
        ),
    decreases events.len(),
{
    reveal_strlit("\n\n");
    if events.len() > 0 {
        law_no_event_is_left_out(events.drop_last(), edits, renamed);
        lemma_told_len_of_prefix(events, edits, renamed, events.len() - 1);
    }
}

/// Only the first `n` events count for their length.
proof fn lemma_told_len_of_prefix(
    events: Seq<EntryView>,
    edits: Seq<Vec<Edit>>,
    renamed: Seq<bool>,
    n: int,
)
    requires
        0 <= n <= events.len() - 1,
    ensures
        told_len(events.drop_last(), edits, renamed, n) == told_len(events, edits, renamed, n),
    decreases n,
{
    if n > 0 {
        lemma_told_len_of_prefix(events, edits, renamed, n - 1);
        assert(events.drop_last()[n - 1] == events[n - 1]);
    }
}

/// Each event stands in the prompt of all events, with a blank line behind it, right behind the
/// events before it.
pub proof fn law_every_event_is_told(
    events: Seq<EntryView>,
    edits: Seq<Vec<Edit>>,
    renamed: Seq<bool>,
    k: int,
)
    requires
        0 <= k < events.len(),
    ensures
        stands_at(
            history::events_prompt(events, edits, renamed),
            events[k].event.prompt(edits[k]@, renamed[k]) + "\n\n"@,
            told_len(events, edits, renamed, k),
        ),
    decreases events.len(),
{
    let earlier = events.drop_last();
    let last = events.len() - 1;
    let front = history::events_prompt(earlier, edits, renamed);
    let own = events[last].event.prompt(edits[last]@, renamed[last]) + "\n\n"@;
    let all = history::events_prompt(events, edits, renamed);
    assert(all =~= front + own);
    lemma_told_len_of_prefix(events, edits, renamed, k);
    if k == last {
        law_no_event_is_left_out(earlier, edits, renamed);
        assert(all.subrange(front.len() as int, all.len() as int) =~= own);
    } else {
        law_every_event_is_told(earlier, edits, renamed, k);
        let part = events[k].event.prompt(edits[k]@, renamed[k]) + "\n\n"@;
        let at = told_len(events, edits, renamed, k);
        assert(all.subrange(at, at + part.len()) =~= front.subrange(at, at + part.len()));
    }
}

/// Joined prompts are the prompts one behind the other, with a blank line behind each, whatever
/// they say.
pub proof fn law_prompts_are_joined(prompts: Seq<String>, next: String)
    ensures
        zeta::joined_prompts(seq![]) == Seq::<char>::empty(),
        zeta::joined_prompts(prompts.push(next)) == zeta::joined_prompts(prompts) + next@
            + "\n\n"@,
{
    assert(prompts.push(next).drop_last() =~= prompts);
}

// --- Requests ----------------------------------------------------------------------------------

/// A request tells the model all events in the place that the template has for them, and then the
/// excerpt, which it also predicts; it wants one whole answer of any length. Whether an event
/// renames its file is what a comparison of its paths says.
pub proof fn law_requests_tell_events_and_excerpt(
    request: Request,
    model: Seq<char>,
    template: Seq<char>,
    events: Seq<EntryView>,
    edits: Seq<Vec<Edit>>,
    excerpt: Seq<char>,
)
    requires
        zeta::tells_events(request, model, template, events, edits, excerpt),
    ensures
        request.model@ == model,
        request.messages@.len() == 2,
        request.messages@[1]@ == (MessageView::User { content: excerpt }),
        request.prediction matches Some(Prediction::Content { content }) && content@ == excerpt,
        !request.stream,
        request.max_tokens is None,
        request.stop@.len() == 0,
        exists|renamed: Seq<bool>|
            #![trigger history::events_prompt(events, edits, renamed)]
            {
                &&& renamed.len() == events.len()
                &&& forall|i: int|
                    0 <= i < events.len() ==> path::may_compare(
                        (#[trigger] events[i]).event.old_path(),
                        events[i].event.path(),
                        !renamed[i],
                    )
                &&& request.messages@[0]@ == (MessageView::System {
                    content: pattern::replace_all(
                        template,
                        "<events>"@,
                        history::events_prompt(events, edits, renamed),
                    ),
                })
            },
        (forall|i: int| 0 <= i < events.len() ==> (#[trigger] events[i]).event.is_portable())
            ==> request.messages@[0]@ == (MessageView::System {
            content: pattern::replace_all(
                template,
                "<events>"@,
                history::events_prompt(
                    events,
                    edits,
                    Seq::new(events.len(), |i: int| events[i].event.renames()),
                ),
            ),
        }),
{
    let prompt = choose|prompt: Seq<char>|
        history::is_events_prompt(events, edits, prompt) && #[trigger] zeta::is_request_for(
            request,
            model,
            template,
            prompt,
            excerpt,
        );
    let said = chat::messages_view(request.messages@);
    assert(said.len() == 2);
    assert(said[0] == request.messages@[0]@);
    assert(said[1] == request.messages@[1]@);
    let renamed = choose|renamed: Seq<bool>|
        history::may_rename(events, renamed) && prompt == #[trigger] history::events_prompt(
            events,
            edits,
            renamed,
        );
    assert(history::may_rename(events, renamed));
    assert(history::renames(events) =~= Seq::new(
        events.len(),
        |i: int| events[i].event.renames(),
    ));
}

/// The paths that an event is told with.
pub proof fn law_events_have_their_paths(
    name: Seq<char>,
    completion: CompletionView,
    old_snapshot: SnapshotView,
    new_snapshot: SnapshotView,
)
    ensures
        (EventView::Open { path: name }).path() == name,
        (EventView::Save { path: name }).path() == name,
        (EventView::Close { path: name }).path() == name,
        EventView::InlineCompletionRejected(completion).path() == completion.path,
        (EventView::BufferChange { old_snapshot, new_snapshot }).path()
            == new_snapshot.shown_path(),
        (EventView::BufferChange { old_snapshot, new_snapshot }).old_path()
            == old_snapshot.shown_path(),
{
}

} // verus!
