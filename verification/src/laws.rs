//! What holds of the engine as a whole.
pub mod answers;
pub mod excerpts;
pub mod memory;
pub mod panels;
pub mod prompts;
pub mod texts;

use vstd::prelude::*;
use vstd::utf8::*;

use crate::buffer::{Edit, SnapshotView};
use crate::chat::{self, MessageView};
use crate::completion::CompletionView;
use crate::event::EventView;
use crate::excerpt::{self, CLOSING_FENCE, CODE_FENCE, CONTEXT_LINES, CURSOR_MARKER};
use crate::history::{BufferEvent, EntryView, HistoryView, MAX_EVENTS};
use crate::hunk::{self, Hunk};
use crate::pattern;
use crate::provider::{ProviderView, RefreshId};
use crate::rows;
use crate::text;
use crate::thread_history::{self, DateTime};
use crate::zeta::{PendingCompletion, ZetaView};

verus! {

// --- The history -----------------------------------------------------------------------------

/// The change of a buffer from one state to another.
pub open spec fn change(old_snapshot: SnapshotView, new_snapshot: SnapshotView) -> EventView {
    EventView::BufferChange { old_snapshot, new_snapshot }
}

/// Remembering an event keeps the history well-formed: no more events than fit, in the order of
/// their numbers.
pub proof fn law_push_keeps_order(history: HistoryView, event: EventView)
    requires
        history.wf(),
        event.wf(),
    ensures
        history.push_event(event).wf(),
{
}

/// A change that goes on where another one ended is remembered as one change from the first state
/// to the last.
pub proof fn law_changes_coalesce(
    history: HistoryView,
    first: SnapshotView,
    second: SnapshotView,
    third: SnapshotView,
)
    ensures
        history.push_event(change(first, second)).push_event(change(second, third))
            == history.push_event(change(first, third)),
{
    let once = history.push_event(change(first, second));
    let twice = once.push_event(change(second, third));
    let direct = history.push_event(change(first, third));
    assert(once.events.len() > 0);
    assert(once.continues_last(change(second, third)));
    assert(twice.events =~= direct.events);
}

/// The event that came last is the last one remembered, and of the others only the oldest may be
/// forgotten.
pub proof fn law_newest_is_kept(history: HistoryView, event: EventView)
    requires
        history.wf(),
        !history.continues_last(event),
    ensures
        ({
            let events = history.push_event(event).events;
            &&& events.len() > 0
            &&& events.last() == (EntryView { id: history.next_event_id, event })
            &&& events.drop_last() == if history.events.len() < MAX_EVENTS {
                history.events
            } else {
                history.events.drop_first()
            }
        }),
{
    let events = history.push_event(event).events;
    if history.events.len() < MAX_EVENTS {
        assert(events.drop_last() =~= history.events);
    } else {
        assert(events.drop_last() =~= history.events.drop_first());
    }
}

/// Getting to know a buffer a second time changes nothing.
pub proof fn law_register_once(history: HistoryView, entity_id: u64, a: SnapshotView, b: SnapshotView)
    ensures
        history.register_buffer(entity_id, a).buffers.contains_key(entity_id),
        history.register_buffer(entity_id, a).register_buffer(entity_id, b)
            == history.register_buffer(entity_id, a),
{
}

/// Once a buffer is reported, its version is known, and reporting the same state again changes
/// nothing.
pub proof fn law_report_once(history: HistoryView, entity_id: u64, snapshot: SnapshotView)
    ensures
        ({
            let reported = history.report_changes(entity_id, snapshot);
            &&& reported.buffers.contains_key(entity_id)
            &&& reported.buffers[entity_id].version == snapshot.version
            &&& reported.report_changes(entity_id, snapshot) == reported
        }),
{
}

/// Reporting a buffer that is not known opens it, and tells of no change.
pub proof fn law_first_report_opens(history: HistoryView, entity_id: u64, snapshot: SnapshotView)
    requires
        history.wf(),
        !history.buffers.contains_key(entity_id),
    ensures
        ({
            let reported = history.report_changes(entity_id, snapshot);
            &&& reported == history.register_buffer(entity_id, snapshot)
            &&& reported.buffers == history.buffers.insert(entity_id, snapshot)
            &&& reported.next_event_id == history.next_event_id + 1
            &&& reported.events.last() == (EntryView {
                id: history.next_event_id,
                event: EventView::Open { path: snapshot.shown_path() },
            })
        }),
{
}

/// That a buffer was edited is as good as a report of its state.
pub proof fn law_edits_are_reported(history: HistoryView, entity_id: u64, snapshot: SnapshotView)
    ensures
        history.handle_buffer_event(entity_id, snapshot, BufferEvent::Edited)
            == history.report_changes(entity_id, snapshot),
        history.handle_buffer_event(
            entity_id,
            snapshot,
            BufferEvent::Edited,
        ).buffers[entity_id].version == snapshot.version,
{
}

/// Reporting a state on the way to another one makes no difference.
pub proof fn law_report_skips(
    history: HistoryView,
    entity_id: u64,
    middle: SnapshotView,
    end: SnapshotView,
)
    requires
        history.buffers.contains_key(entity_id),
        history.buffers[entity_id].version != middle.version,
        middle.version != end.version,
        history.buffers[entity_id].version != end.version,
    ensures
        history.report_changes(entity_id, middle).report_changes(entity_id, end)
            == history.report_changes(entity_id, end),
{
    let start = history.buffers[entity_id];
    let known = HistoryView { buffers: history.buffers.insert(entity_id, end), ..history };
    law_changes_coalesce(known, start, middle, end);
    let through = history.report_changes(entity_id, middle).report_changes(entity_id, end);
    let direct = history.report_changes(entity_id, end);
    let noted = HistoryView { buffers: history.buffers.insert(entity_id, middle), ..history };
    assert(noted.buffers.insert(entity_id, end) =~= known.buffers);
    assert(through.events == known.push_event(change(start, middle)).push_event(
        change(middle, end),
    ).events);
    assert(through.buffers =~= direct.buffers);
    assert(through =~= direct);
}

/// A buffer that is let go of is forgotten, and other buffers are not.
pub proof fn law_release_forgets(history: HistoryView, entity_id: u64, other: u64)
    requires
        other != entity_id,
    ensures
        ({
            let released = history.release_buffer(entity_id);
            &&& !released.buffers.contains_key(entity_id)
            &&& released.buffers.contains_key(other) == history.buffers.contains_key(other)
            &&& history.buffers.contains_key(other) ==> released.buffers[other]
                == history.buffers[other]
        }),
{
}

/// A buffer without a file comes and goes without a word of its closing.
pub proof fn law_untitled_buffer_closes_silently(history: HistoryView, entity_id: u64)
    requires
        history.buffers.contains_key(entity_id),
        history.buffers[entity_id].path is None,
    ensures
        history.release_buffer(entity_id).events == history.events,
{
}

// --- The excerpt -----------------------------------------------------------------------------

/// The excerpt holds no more rows than the cursor's own and the context on both sides, and starts
/// no later than the cursor's row.
pub proof fn law_excerpt_is_a_window(bytes: Seq<u8>, row: int)
    requires
        0 <= row <= rows::max_row(bytes),
    ensures
        ({
            let (first, last) = excerpt::excerpt_rows(bytes, row);
            &&& 0 <= first <= row
            &&& first <= last <= rows::max_row(bytes)
            &&& last - first <= 2 * CONTEXT_LINES
        }),
{
    let max = rows::max_row(bytes) as int;
    excerpt::lemma_last_filled_row(
        bytes,
        excerpt::window_start(row, max),
        excerpt::window_end(row, max),
    );
}

/// A buffer with as many rows as a window has, or more, is shown by the full window, but for
/// empty rows at its end.
pub proof fn law_window_is_full(row: int, max_row: int)
    requires
        0 <= row <= max_row,
    ensures
        ({
            let first = excerpt::window_start(row, max_row);
            let last = excerpt::window_end(row, max_row);
            if max_row >= 2 * CONTEXT_LINES {
                last - first == 2 * CONTEXT_LINES
            } else {
                first == 0 && last == max_row
            }
        }),
{
}

/// The cursor lies in the excerpt, unless its row and all rows of the window behind it are empty.
pub proof fn law_excerpt_holds_cursor(text: Seq<char>, offset: int, filled: int)
    requires
        text::is_offset(text, offset),
        ({
            let bytes = encode_utf8(text);
            let row = rows::row_at(bytes, offset) as int;
            &&& row <= filled <= excerpt::window_end(row, rows::max_row(bytes) as int)
            &&& rows::row_len(bytes, filled) > 0
        }),
    ensures
        ({
            let bytes = encode_utf8(text);
            let (start, end) = excerpt::excerpt_range(bytes, rows::row_at(bytes, offset) as int);
            start <= offset <= end
        }),
{
    let bytes = encode_utf8(text);
    let row = rows::row_at(bytes, offset) as int;
    let max = rows::max_row(bytes) as int;
    rows::lemma_offset_in_row(bytes, offset);
    let (first, last) = excerpt::excerpt_rows(bytes, row);
    law_excerpt_is_a_window(bytes, row);
    excerpt::lemma_last_filled_row(bytes, first, excerpt::window_end(row, max));
    rows::lemma_rows_ordered(bytes, first, row);
    assert(filled <= last);
    rows::lemma_rows_ordered(bytes, row, last);
}

/// The excerpt never starts behind the cursor.
pub proof fn law_excerpt_starts_before_cursor(text: Seq<char>, offset: int)
    requires
        text::is_offset(text, offset),
    ensures
        excerpt::excerpt_range(
            encode_utf8(text),
            rows::row_at(encode_utf8(text), offset) as int,
        ).0 <= offset,
{
    let bytes = encode_utf8(text);
    let row = rows::row_at(bytes, offset) as int;
    rows::lemma_offset_in_row(bytes, offset);
    law_excerpt_is_a_window(bytes, row);
    rows::lemma_rows_ordered(bytes, excerpt::excerpt_rows(bytes, row).0, row);
}

// --- The answer ------------------------------------------------------------------------------

/// Replacing what does not occur changes nothing.
proof fn lemma_replace_none(s: Seq<char>, from: Seq<char>, to: Seq<char>)
    requires
        from.len() > 0,
        forall|i: int| !pattern::occurs_at(s, from, i),
    ensures
        pattern::replace_all(s, from, to) == s,
{
    texts::law_replace_none(s, from, to);
}

/// Where no occurrence lies across a cut, either side can be replaced alone.
proof fn lemma_replace_split(a: Seq<char>, b: Seq<char>, from: Seq<char>, to: Seq<char>)
    requires
        from.len() > 0,
        forall|i: int|
            #[trigger] pattern::occurs_at(a + b, from, i) ==> i + from.len() <= a.len() || i
                >= a.len(),
    ensures
        pattern::replace_all(a + b, from, to) == pattern::replace_all(a, from, to)
            + pattern::replace_all(b, from, to),
    decreases a.len(),
{
    let s = a + b;
    let n = from.len() as int;
    let right = pattern::replace_all(b, from, to);
    if a.len() == 0 {
        assert(s =~= b);
        assert(pattern::replace_all(a, from, to) + right =~= right);
    } else if from.is_prefix_of(s) {
        assert(s.subrange(0, n) =~= from);
        assert(pattern::occurs_at(s, from, 0));
        assert(a.subrange(0, n) =~= s.subrange(0, n));
        let rest = a.skip(n);
        assert(s.skip(n) =~= rest + b);
        lemma_occurrences_behind(s, rest + b, from, n);
        lemma_replace_split(rest, b, from, to);
        let left = pattern::replace_all(rest, from, to);
        assert(to + (left + right) =~= (to + left) + right);
    } else {
        assert(!from.is_prefix_of(a)) by {
            if from.is_prefix_of(a) {
                assert(s.subrange(0, n) =~= a.subrange(0, n));
            }
        }
        let rest = a.drop_first();
        assert(s.drop_first() =~= rest + b);
        lemma_occurrences_behind(s, rest + b, from, 1);
        lemma_replace_split(rest, b, from, to);
        let left = pattern::replace_all(rest, from, to);
        assert(seq![a[0]] + (left + right) =~= (seq![a[0]] + left) + right);
        if a.len() < n {
            assert(left == rest);
            assert(seq![a[0]] + rest =~= a);
        }
        if s.len() < n {
            assert(right == b);
        }
    }
}

/// What occurs behind a cut occurs in the whole.
proof fn lemma_occurrences_behind(s: Seq<char>, rest: Seq<char>, from: Seq<char>, cut: int)
    requires
        0 <= cut <= s.len(),
        rest == s.skip(cut),
    ensures
        forall|i: int|
            #[trigger] pattern::occurs_at(rest, from, i) ==> pattern::occurs_at(s, from, i + cut),
{
    assert forall|i: int| #[trigger] pattern::occurs_at(rest, from, i) implies pattern::occurs_at(
        s,
        from,
        i + cut,
    ) by {
        assert(s.subrange(i + cut, i + cut + from.len()) =~= rest.subrange(i, i + from.len()));
    }
}

/// Nothing occurs across a character that it does not hold.
proof fn lemma_replace_split_at(
    a: Seq<char>,
    b: Seq<char>,
    c: char,
    from: Seq<char>,
    to: Seq<char>,
)
    requires
        from.len() > 0,
        !from.contains(c),
        (a.len() > 0 && a.last() == c) || (b.len() > 0 && b[0] == c),
    ensures
        pattern::replace_all(a + b, from, to) == pattern::replace_all(a, from, to)
            + pattern::replace_all(b, from, to),
{
    let s = a + b;
    assert forall|i: int| #[trigger] pattern::occurs_at(s, from, i) implies i + from.len()
        <= a.len() || i >= a.len() by {
        if i < a.len() && a.len() < i + from.len() {
            let k = if a.last() == c {
                a.len() - 1
            } else {
                a.len() as int
            };
            assert(s[k] == c);
            assert(s.subrange(i, i + from.len())[k - i] == c);
            assert(from[k - i] == c);
        }
    }
    lemma_replace_split(a, b, from, to);
}

/// Replacing brings in no character that was in neither text.
proof fn lemma_replace_brings_none(s: Seq<char>, from: Seq<char>, to: Seq<char>, c: char)
    requires
        !s.contains(c),
        !to.contains(c),
    ensures
        !pattern::replace_all(s, from, to).contains(c),
    decreases s.len(),
{
    if from.len() == 0 || s.len() < from.len() {
    } else {
        let taken = if from.is_prefix_of(s) {
            from.len() as int
        } else {
            1
        };
        let rest = s.skip(taken);
        assert(s.drop_first() =~= s.skip(1));
        assert forall|i: int| 0 <= i < rest.len() implies rest[i] != c by {
            assert(s[i + taken] != c);
        }
        lemma_replace_brings_none(rest, from, to, c);
        let tail = pattern::replace_all(rest, from, to);
        let head = if from.is_prefix_of(s) {
            to
        } else {
            seq![s[0]]
        };
        assert forall|i: int| 0 <= i < (head + tail).len() implies (head + tail)[i] != c by {
            if i < head.len() {
                assert(head[i] != c);
            } else {
                assert(tail[i - head.len()] != c);
            }
        }
    }
}

/// What the mark of the cursor is made of.
proof fn lemma_cursor_marker()
    ensures
        CURSOR_MARKER@.len() > 4,
        CURSOR_MARKER@[0] == '<',
        forall|k: int| 0 < k < CURSOR_MARKER@.len() ==> CURSOR_MARKER@[k] != '<',
        !CURSOR_MARKER@.contains('\n'),
        !CURSOR_MARKER@.contains('`'),
{
    reveal_strlit("<|user_cursor_is_here|>");
}

/// Taking the mark of the cursor out leaves what stands around it, if that holds no other mark.
proof fn lemma_remove_cursor(before: Seq<char>, after: Seq<char>)
    requires
        forall|i: int| !pattern::occurs_at(before, CURSOR_MARKER@, i),
        forall|i: int| !pattern::occurs_at(after, CURSOR_MARKER@, i),
    ensures
        chat::without_cursor(before + (CURSOR_MARKER@ + (after + CLOSING_FENCE@))) == before + after
            + CLOSING_FENCE@,
{
    let mark = CURSOR_MARKER@;
    let none = Seq::<char>::empty();
    lemma_cursor_marker();
    reveal_strlit("\n```");
    let tail = after + CLOSING_FENCE@;
    let rest = mark + tail;
    let s = before + rest;
    assert forall|i: int| #[trigger] pattern::occurs_at(s, mark, i) implies i + mark.len()
        <= before.len() || i >= before.len() by {
        if i < before.len() && before.len() < i + mark.len() {
            let k = before.len() - i;
            assert(s[before.len() as int] == '<');
            assert(s.subrange(i, i + mark.len())[k] == '<');
        }
    }
    lemma_replace_split(before, rest, mark, none);
    lemma_replace_none(before, mark, none);
    assert(rest.subrange(0, mark.len() as int) =~= mark);
    assert(mark.is_prefix_of(rest));
    assert(rest.skip(mark.len() as int) =~= tail);
    lemma_replace_split_at(after, CLOSING_FENCE@, '\n', mark, none);
    lemma_replace_none(after, mark, none);
    assert(none + tail =~= tail);
    assert(before + tail =~= before + after + CLOSING_FENCE@);
}

/// Where the first newline is, if what comes before it has none.
proof fn lemma_first_newline(line: Seq<char>, rest: Seq<char>)
    requires
        !line.contains('\n'),
    ensures
        pattern::first_index(line + seq!['\n'] + rest, '\n') == line.len(),
    decreases line.len(),
{
    let s = line + seq!['\n'] + rest;
    if line.len() > 0 {
        let shorter = line.drop_first();
        assert(line[0] != '\n') by {
            assert(line.contains(line[0]));
        }
        assert(!shorter.contains('\n')) by {
            if shorter.contains('\n') {
                let i = choose|i: int| 0 <= i < shorter.len() && shorter[i] == '\n';
                assert(line[i + 1] == '\n');
            }
        }
        assert(s.drop_first() =~= shorter + seq!['\n'] + rest);
        lemma_first_newline(shorter, rest);
    }
}

/// What stands in a block of code comes out of it again.
pub proof fn law_code_comes_out_of_its_block(path: Seq<char>, code: Seq<char>)
    requires
        !path.contains('\n'),
    ensures
        chat::code_in(CODE_FENCE@ + path + "\n"@ + code + CLOSING_FENCE@) == Ok::<
            Seq<char>,
            chat::CompletionError,
        >(code),
{
    reveal_strlit("```");
    reveal_strlit("\n");
    reveal_strlit("\n```");
    let content = CODE_FENCE@ + path + "\n"@ + code + CLOSING_FENCE@;
    let line = CODE_FENCE@ + path;
    let body = code + CLOSING_FENCE@;
    assert("\n"@ =~= seq!['\n']);
    assert(content =~= line + seq!['\n'] + body);
    assert(CODE_FENCE@.is_prefix_of(content)) by {
        assert(content.subrange(0, CODE_FENCE@.len() as int) =~= CODE_FENCE@);
    }
    assert(!line.contains('\n')) by {
        if line.contains('\n') {
            let i = choose|i: int| 0 <= i < line.len() && line[i] == '\n';
            if i >= 3 {
                assert(path[i - 3] == '\n');
            }
        }
    }
    lemma_first_newline(line, body);
    assert(content.skip(line.len() as int + 1) =~= body);
    assert(body.last() == '`');
    assert(pattern::trim_end(body) == body);
    assert(CLOSING_FENCE@.is_suffix_of(body)) by {
        assert(body.subrange(body.len() - CLOSING_FENCE@.len(), body.len() as int)
            =~= CLOSING_FENCE@);
    }
    assert(body.take(body.len() - CLOSING_FENCE@.len()) =~= code);
}

/// A model that answers with just what it was shown suggests the excerpt, provided that the
/// cursor lies in the excerpt, that neither the text before it nor the text behind it holds its
/// mark, and that the path is a single line.
pub proof fn law_echo_suggests_the_excerpt(
    path: Seq<char>,
    text: Seq<char>,
    start: int,
    offset: int,
    end: int,
    choices: Seq<MessageView>,
)
    requires
        text::is_offset(text, start),
        text::is_offset(text, offset),
        text::is_offset(text, end),
        start <= offset <= end,
        !path.contains('\n'),
        forall|i: int|
            !pattern::occurs_at(text::slice(text, start, offset), CURSOR_MARKER@, i),
        forall|i: int| !pattern::occurs_at(text::slice(text, offset, end), CURSOR_MARKER@, i),
        chat::reply_content(choices) == Ok::<Seq<char>, chat::CompletionError>(
            excerpt::excerpt_prompt(
                path,
                text::slice(text, start, offset),
                text::slice(text, offset, end),
            ),
        ),
    ensures
        chat::suggested_text(choices) == Ok::<Seq<char>, chat::CompletionError>(
            text::slice(text, start, end),
        ),
{
    let before = text::slice(text, start, offset);
    let after = text::slice(text, offset, end);
    let shown = excerpt::excerpt_prompt(path, before, after);
    let mark = CURSOR_MARKER@;
    let none = Seq::<char>::empty();
    lemma_cursor_marker();
    reveal_strlit("```");
    reveal_strlit("\n");
    let line = CODE_FENCE@ + (path + "\n"@);
    let rest = before + (mark + (after + CLOSING_FENCE@));
    assert(shown =~= line + rest);
    lemma_replace_split_at(line, rest, '\n', mark, none);
    lemma_replace_split_at(CODE_FENCE@, path + "\n"@, '`', mark, none);
    lemma_replace_split_at(path, "\n"@, '\n', mark, none);
    lemma_remove_cursor(before, after);
    let name = pattern::replace_all(path, mark, none);
    lemma_replace_brings_none(path, mark, none, '\n');
    text::lemma_slice_join(text, start, offset, end);
    let code = text::slice(text, start, end);
    assert(chat::without_cursor(shown) =~= CODE_FENCE@ + name + "\n"@ + code + CLOSING_FENCE@);
    law_code_comes_out_of_its_block(name, code);
}

/// A model that answers with just what it was shown completes nothing, and the engine remembers
/// that, provided that the cursor lies in the excerpt, that neither the text before it nor the
/// text behind it holds its mark, and that the path is a single line.
pub proof fn law_echo_completes_nothing(
    engine: ZetaView,
    pending: PendingCompletion,
    offset: int,
    choices: Seq<MessageView>,
)
    requires
        pending.wf(),
        pending.snapshot@.is_offset(offset),
        pending.excerpt_range.start <= offset <= pending.excerpt_range.end,
        !pending.path@.contains('\n'),
        ({
            let text = pending.snapshot@.text;
            let before = text::slice(text, pending.excerpt_range.start as int, offset);
            let after = text::slice(text, offset, pending.excerpt_range.end as int);
            let shown = excerpt::excerpt_prompt(pending.path@, before, after);
            &&& pending.request.messages@.len() == 2
            &&& pending.request.messages@[1]@ == (MessageView::User { content: shown })
            &&& forall|i: int| !pattern::occurs_at(before, CURSOR_MARKER@, i)
            &&& forall|i: int| !pattern::occurs_at(after, CURSOR_MARKER@, i)
        }),
        chat::reply_content(choices) == Ok::<Seq<char>, chat::CompletionError>(
            pending.request.messages@[1]@->User_content,
        ),
    ensures
        pending.resolution(choices) == Ok::<Option<CompletionView>, chat::CompletionError>(None),
        engine.resolved(pending, choices) == engine.with_history(
            engine.history.push_event(EventView::NoInlineCompletion { id: pending.id }),
        ),
{
    law_echo_suggests_the_excerpt(
        pending.path@,
        pending.snapshot@.text,
        pending.excerpt_range.start as int,
        offset,
        pending.excerpt_range.end as int,
        choices,
    );
}

// --- Hunks -----------------------------------------------------------------------------------

/// Whether `edits` are in order, and lie within buffers that end in these rows.
pub open spec fn are_edits_of(edits: Seq<Edit>, old_max_row: u32, new_max_row: u32) -> bool {
    &&& forall|i: int|
        0 <= i < edits.len() ==> {
            &&& (#[trigger] edits[i]).old.start.row <= edits[i].old.end.row <= old_max_row
            &&& edits[i].new.start.row <= edits[i].new.end.row <= new_max_row
        }
    &&& forall|i: int, j: int|
        0 <= i < j < edits.len() ==> {
            &&& (#[trigger] edits[i]).old.end.row <= (#[trigger] edits[j]).old.start.row
            &&& edits[i].new.end.row <= edits[j].new.start.row
        }
}

/// Whether `hunk` shows all rows of `edit`.
pub open spec fn covers(hunk: Hunk, edit: Edit) -> bool {
    &&& hunk.old_start <= edit.old.start.row && edit.old.end.row <= hunk.old_end
    &&& hunk.new_start <= edit.new.start.row && edit.new.end.row <= hunk.new_end
}

/// Every edit is shown in full by some hunk.
pub proof fn law_hunks_cover_edits(
    edits: Seq<Edit>,
    first: int,
    old_max_row: u32,
    new_max_row: u32,
    k: int,
)
    requires
        are_edits_of(edits, old_max_row, new_max_row),
        old_max_row < u32::MAX,
        new_max_row < u32::MAX,
        0 <= first <= k < edits.len(),
    ensures
        exists|h: int|
            0 <= h < hunk::hunks_of(edits, first, old_max_row, new_max_row).len() && covers(
                #[trigger] hunk::hunks_of(edits, first, old_max_row, new_max_row)[h],
                edits[k],
            ),
    decreases edits.len() - first,
{
    let hunks = hunk::hunks_of(edits, first, old_max_row, new_max_row);
    let end = hunk::run_end(edits, first, old_max_row);
    hunk::lemma_run_end(edits, first, old_max_row);
    let rest = hunk::hunks_of(edits, end, old_max_row, new_max_row);
    let hunk = hunk::hunk_of(edits, first, end, old_max_row, new_max_row);
    assert(hunks == seq![hunk] + rest);
    if k < end {
        let e = edits[k];
        let f = edits[first];
        let l = edits[end - 1];
        assert(covers(hunks[0], e));
    } else {
        law_hunks_cover_edits(edits, end, old_max_row, new_max_row, k);
        let h = choose|h: int|
            0 <= h < rest.len() && covers(#[trigger] rest[h], edits[k]);
        assert(hunks[h + 1] == rest[h]);
        assert(covers(hunks[h + 1], edits[k]));
    }
}

/// There are no more hunks than edits, and none without an edit.
pub proof fn law_hunks_are_few(edits: Seq<Edit>, first: int, old_max_row: u32, new_max_row: u32)
    requires
        0 <= first <= edits.len(),
    ensures
        hunk::hunks_of(edits, first, old_max_row, new_max_row).len() <= edits.len() - first,
        first < edits.len() ==> hunk::hunks_of(edits, first, old_max_row, new_max_row).len() > 0,
    decreases edits.len() - first,
{
    if first < edits.len() {
        hunk::lemma_run_end(edits, first, old_max_row);
        law_hunks_are_few(
            edits,
            hunk::run_end(edits, first, old_max_row),
            old_max_row,
            new_max_row,
        );
    }
}

// --- Refreshes --------------------------------------------------------------------------------

/// Once a second refresh is started, it is the one under way: what comes of the first one changes
/// nothing, whenever it comes, and what comes of the second one is on offer.
pub proof fn law_last_refresh_counts(
    provider: ProviderView,
    first: Option<CompletionView>,
    second: Option<CompletionView>,
)
    requires
        provider.next_refresh_id.0 + 1 < u64::MAX,
    ensures
        ({
            let first_id = provider.next_refresh_id;
            let second_id = provider.refreshing().next_refresh_id;
            let both = provider.refreshing().refreshing();
            &&& both.pending_refresh == Some(second_id)
            &&& first_id != second_id
            &&& both.finished(first_id, first) == both
            &&& both.finished(second_id, second).current_completion == second
            &&& both.finished(second_id, second).finished(first_id, first) == both.finished(
                second_id,
                second,
            )
        }),
{
}

/// What came of a refresh is taken once.
pub proof fn law_refresh_finishes_once(
    provider: ProviderView,
    id: RefreshId,
    first: Option<CompletionView>,
    second: Option<CompletionView>,
)
    ensures
        provider.finished(id, first).finished(id, second) == provider.finished(id, first),
{
}

/// A completion that is turned down is told of once. Turning down what is no longer on offer tells
/// nothing, whether it was turned down or taken before.
pub proof fn law_rejection_is_told_once(provider: ProviderView, engine: ZetaView)
    requires
        engine.wf(),
    ensures
        engine.rejected(provider.cleared().current_completion) == engine,
        provider.current_completion matches Some(completion) ==> {
            let told = engine.rejected(provider.current_completion);
            &&& told.history.next_event_id == engine.history.next_event_id + 1
            &&& told.history.events.last() == (EntryView {
                id: engine.history.next_event_id,
                event: EventView::InlineCompletionRejected(completion),
            })
            &&& told.rejected(provider.cleared().current_completion) == told
        },
{
}

// --- Dates -----------------------------------------------------------------------------------

/// A quotient grows by one at the multiples of the divisor.
proof fn lemma_quotient_step(n: int, divisor: int)
    requires
        divisor > 1,
    ensures
        (n + 1) / divisor - n / divisor == if (n + 1) % divisor == 0 {
            1int
        } else {
            0
        },
{
    let q = n / divisor;
    let r = n % divisor;
    vstd::arithmetic::div_mod::lemma_fundamental_div_mod(n, divisor);
    if r == divisor - 1 {
        assert(n + 1 == (q + 1) * divisor) by (nonlinear_arith)
            requires
                n == divisor * q + r,
                r == divisor - 1,
        ;
        vstd::arithmetic::div_mod::lemma_fundamental_div_mod_converse(n + 1, divisor, q + 1, 0);
    } else {
        assert(n + 1 == q * divisor + (r + 1)) by (nonlinear_arith)
            requires
                n == divisor * q + r,
        ;
        vstd::arithmetic::div_mod::lemma_fundamental_div_mod_converse(n + 1, divisor, q, r + 1);
    }
}

/// The 400th years are among the 100th ones, and those among the 4th ones.
proof fn lemma_multiple_of_multiple(year: int)
    ensures
        year % 400 == 0 ==> year % 100 == 0,
        year % 100 == 0 ==> year % 4 == 0,
{
}

/// A year is as long as its days.
pub(crate) proof fn lemma_year_length(year: int)
    ensures
        thread_history::days_before(year + 1) - thread_history::days_before(year)
            == if thread_history::is_leap_year(year) {
            366int
        } else {
            365
        },
{
    lemma_quotient_step(year - 1, 4);
    lemma_quotient_step(year - 1, 100);
    lemma_quotient_step(year - 1, 400);
    lemma_multiple_of_multiple(year);
}

/// Later years start later.
proof fn lemma_years_ordered(a: int, b: int)
    requires
        a <= b,
    ensures
        thread_history::days_before(a) + 365 * (b - a) <= thread_history::days_before(b),
    decreases b - a,
{
    if a < b {
        lemma_years_ordered(a, b - 1);
        lemma_year_length(b - 1);
    }
}

/// There is only one way to write a moment.
pub proof fn law_moments_are_unique(a: DateTime, b: DateTime)
    requires
        a.wf(),
        b.wf(),
        a.timestamp() == b.timestamp(),
    ensures
        a == b,
{
    let day_a = thread_history::days_before(a.year as int) + a.ordinal;
    let day_b = thread_history::days_before(b.year as int) + b.ordinal;
    let time_a = a.hour * 3600 + a.minute * 60 + a.second;
    let time_b = b.hour * 3600 + b.minute * 60 + b.second;
    assert(day_a == day_b && time_a == time_b);
    lemma_year_length(a.year as int);
    lemma_year_length(b.year as int);
    if a.year < b.year {
        lemma_years_ordered(a.year + 1, b.year as int);
    } else if b.year < a.year {
        lemma_years_ordered(b.year + 1, a.year as int);
    }
}

} // verus!
