//! What an answer of the model comes to.
use core::ops::Range;
use vstd::prelude::*;
use vstd::utf8::*;

use crate::buffer::{Anchor, Bias};
use crate::chat::{self, CompletionError, MessageView, RequestMessage};
use crate::completion::{self, AnchoredEdit, CompletionView, InlineCompletion};
use crate::diff::{self, Change, ChangeTag, ChangeView, EditView};
use crate::event::EventView;
use crate::laws::memory;
use crate::laws::texts;
use crate::pattern;
use crate::text;
use crate::zeta::{PendingCompletion, ZetaView};

verus! {

// --- Reading an answer -------------------------------------------------------------------------

/// Messages are viewed by what they say, one by one.
pub proof fn law_messages_are_viewed_in_full(messages: Seq<RequestMessage>, i: int)
    requires
        0 <= i < messages.len(),
    ensures
        chat::messages_view(messages).len() == messages.len(),
        match messages[i] {
            RequestMessage::Assistant { content: Some(content) } => chat::messages_view(
                messages,
            )[i] == (MessageView::Assistant { content: Some(content@) }),
            RequestMessage::Assistant { content: None } => chat::messages_view(messages)[i] == (
            MessageView::Assistant { content: None }),
            RequestMessage::User { content } => chat::messages_view(messages)[i] == (
            MessageView::User { content: content@ }),
            RequestMessage::System { content } => chat::messages_view(messages)[i] == (
            MessageView::System { content: content@ }),
            RequestMessage::Tool { content } => chat::messages_view(messages)[i] == (
            MessageView::Tool { content: content@ }),
        },
{
}

/// The last choice is the answer, whoever it is from. Without choices, without content, and from a
/// tool there is none, each for a reason of its own.
pub proof fn law_the_last_choice_is_the_answer(earlier: Seq<MessageView>, content: Seq<char>)
    ensures
        chat::reply_content(seq![]) == Err::<Seq<char>, CompletionError>(
            CompletionError::InvalidResponse,
        ),
        chat::reply_content(earlier.push(MessageView::Assistant { content: Some(content) }))
            == Ok::<Seq<char>, CompletionError>(content),
        chat::reply_content(earlier.push(MessageView::User { content })) == Ok::<
            Seq<char>,
            CompletionError,
        >(content),
        chat::reply_content(earlier.push(MessageView::System { content })) == Ok::<
            Seq<char>,
            CompletionError,
        >(content),
        chat::reply_content(earlier.push(MessageView::Assistant { content: None })) == Err::<
            Seq<char>,
            CompletionError,
        >(CompletionError::EmptyResponse),
        chat::reply_content(earlier.push(MessageView::Tool { content })) == Err::<
            Seq<char>,
            CompletionError,
        >(CompletionError::UnexpectedToolUse),
{
}

/// Where there is no answer, no text is suggested, for the same reason.
pub proof fn law_no_answer_suggests_nothing(choices: Seq<MessageView>, error: CompletionError)
    requires
        chat::reply_content(choices) == Err::<Seq<char>, CompletionError>(error),
    ensures
        chat::suggested_text(choices) == Err::<Seq<char>, CompletionError>(error),
{
}

/// An answer that holds no mark of a cursor and is no block of code is suggested as it is.
pub proof fn law_plain_answers_are_suggested(choices: Seq<MessageView>, content: Seq<char>)
    requires
        chat::reply_content(choices) == Ok::<Seq<char>, CompletionError>(content),
        forall|i: int| !pattern::occurs_at(content, "<|user_cursor_is_here|>"@, i),
        !"```"@.is_prefix_of(content),
    ensures
        chat::suggested_text(choices) == Ok::<Seq<char>, CompletionError>(content),
{
    reveal_strlit("<|user_cursor_is_here|>");
    texts::law_replace_none(content, "<|user_cursor_is_here|>"@, seq![]);
}

/// The marks of cursors are taken out of an answer before it is read, the first one first.
pub proof fn law_cursors_are_taken_out(
    choices: Seq<MessageView>,
    content: Seq<char>,
    before: Seq<char>,
    after: Seq<char>,
)
    requires
        chat::reply_content(choices) == Ok::<Seq<char>, CompletionError>(content),
    ensures
        chat::suggested_text(choices) == chat::code_in(chat::without_cursor(content)),
        (forall|i: int| !pattern::occurs_at(content, "<|user_cursor_is_here|>"@, i))
            ==> chat::without_cursor(content) == content,
        content == before + "<|user_cursor_is_here|>"@ + after && (forall|i: int|
            i < before.len() ==> !pattern::occurs_at(content, "<|user_cursor_is_here|>"@, i))
            ==> chat::without_cursor(content) == before + chat::without_cursor(after),
{
    reveal_strlit("<|user_cursor_is_here|>");
    let mark = "<|user_cursor_is_here|>"@;
    if forall|i: int| !pattern::occurs_at(content, mark, i) {
        texts::law_replace_none(content, mark, seq![]);
    }
    if content == before + mark + after && (forall|i: int|
        i < before.len() ==> !pattern::occurs_at(content, mark, i)) {
        texts::law_replace_first(before, mark, after, seq![]);
        assert(before + Seq::<char>::empty() + chat::without_cursor(after) =~= before
            + chat::without_cursor(after));
    }
}

/// A block of code, whatever stands on the line that opens it and whatever white space follows it,
/// is read as the code in it.
pub proof fn law_blocks_are_read_as_their_code(
    line: Seq<char>,
    code: Seq<char>,
    space: Seq<char>,
)
    requires
        !line.contains('\n'),
        forall|k: int| 0 <= k < space.len() ==> pattern::is_white_space(space[k]),
    ensures
        chat::code_in("```"@ + line + "\n"@ + code + "\n```"@ + space) == Ok::<
            Seq<char>,
            CompletionError,
        >(code),
{
    reveal_strlit("```");
    reveal_strlit("\n");
    reveal_strlit("\n```");
    let content = "```"@ + line + "\n"@ + code + "\n```"@ + space;
    let first = 3 + line.len() as int;
    assert(content.subrange(0, 3) =~= "```"@);
    assert("```"@.is_prefix_of(content));
    assert(content[first] == '\n');
    texts::law_first_index(content, '\n');
    assert forall|k: int| 0 <= k < first implies content[k] != '\n' by {
        if k >= 3 {
            assert(line[k - 3] == content[k]);
            assert(line.contains(line[k - 3]));
        }
    }
    assert(pattern::first_index(content, '\n') == first);
    let block = code + "\n```"@;
    let rest = content.skip(first + 1);
    assert(rest =~= block + space);
    texts::law_trim_end(rest);
    let kept = pattern::trim_end(rest);
    assert(rest[block.len() - 1] == '`');
    assert(kept.len() >= block.len()) by {
        if kept.len() < block.len() {
            assert(pattern::is_white_space(rest[block.len() - 1]));
        }
    }
    assert(kept.len() <= block.len()) by {
        if kept.len() > block.len() {
            assert(kept.last() == rest[kept.len() - 1]);
            assert(rest[kept.len() - 1] == space[kept.len() - 1 - block.len()]);
        }
    }
    assert(kept =~= block);
    assert(block.subrange(code.len() as int, block.len() as int) =~= "\n```"@);
    assert("\n```"@.is_suffix_of(block));
    assert(block.take(block.len() - 4) =~= code);
}

/// Only a whole block of code is read as one: what is read from a text that opens a block stands
/// in that block, and a text that opens none is read as it is.
pub proof fn law_only_blocks_are_read(content: Seq<char>, code: Seq<char>)
    requires
        chat::code_in(content) == Ok::<Seq<char>, CompletionError>(code),
    ensures
        !"```"@.is_prefix_of(content) ==> code == content,
        "```"@.is_prefix_of(content) ==> exists|line: Seq<char>, space: Seq<char>|
            #![trigger line.contains('\n'), space.len()]
            {
                &&& !line.contains('\n')
                &&& forall|k: int| 0 <= k < space.len() ==> pattern::is_white_space(space[k])
                &&& content == "```"@ + line + "\n"@ + code + "\n```"@ + space
            },
{
    reveal_strlit("```");
    reveal_strlit("\n");
    reveal_strlit("\n```");
    if "```"@.is_prefix_of(content) {
        texts::law_first_index(content, '\n');
        let first = pattern::first_index(content, '\n');
        let rest = content.skip(first + 1);
        let kept = pattern::trim_end(rest);
        texts::law_trim_end(rest);
        assert(content[0] == '`' && content[1] == '`' && content[2] == '`') by {
            assert(content.subrange(0, 3) =~= "```"@);
            assert(content.subrange(0, 3)[0] == content[0]);
            assert(content.subrange(0, 3)[1] == content[1]);
            assert(content.subrange(0, 3)[2] == content[2]);
        }
        assert(first >= 3);
        let line = content.subrange(3, first);
        let space = rest.skip(kept.len() as int);
        assert(!line.contains('\n')) by {
            if line.contains('\n') {
                let i = choose|i: int| 0 <= i < line.len() && line[i] == '\n';
                assert(content[i + 3] == '\n');
            }
        }
        assert forall|k: int| 0 <= k < space.len() implies pattern::is_white_space(space[k]) by {
            assert(space[k] == rest[k + kept.len()]);
        }
        let fence = "\n```"@;
        assert(kept.subrange(kept.len() - 4, kept.len() as int) =~= fence);
        assert(kept =~= code + fence);
        assert(rest =~= kept + space);
        assert(content =~= "```"@ + line + "\n"@ + rest);
        assert(content =~= "```"@ + line + "\n"@ + code + fence + space);
        assert(space.len() >= 0);
    }
}

/// Reading fails only for a text that opens a block: because its first line does not end, or else
/// because the block is not closed.
pub proof fn law_only_open_blocks_fail(content: Seq<char>, error: CompletionError)
    requires
        chat::code_in(content) == Err::<Seq<char>, CompletionError>(error),
    ensures
        "```"@.is_prefix_of(content),
        error == if content.contains('\n') {
            CompletionError::MissingCodeFence
        } else {
            CompletionError::MissingNewline
        },
{
    texts::law_first_index(content, '\n');
    let first = pattern::first_index(content, '\n');
    if content.contains('\n') {
        let i = choose|i: int| 0 <= i < content.len() && content[i] == '\n';
        assert(first <= i);
    } else if first < content.len() {
        assert(content[first] == '\n');
    }
}

/// A result says what its string says, or why there is none.
pub proof fn law_results_are_viewed_in_full(content: String, error: CompletionError)
    ensures
        chat::text_result(Ok(content)) == Ok::<Seq<char>, CompletionError>(content@),
        chat::text_result(Err(error)) == Err::<Seq<char>, CompletionError>(error),
{
}

/// What the errors say.
pub proof fn law_errors_say_what_is_wrong()
    ensures
        CompletionError::InvalidResponse.spec_message() == "invalid response"@,
        CompletionError::EmptyResponse.spec_message() == "empty response from the assistant"@,
        CompletionError::UnexpectedToolUse.spec_message() == "unexpected tool use"@,
        CompletionError::MissingNewline.spec_message() == "could not find newline"@,
        CompletionError::MissingCodeFence.spec_message() == "could not find closing codefence"@,
{
}

// --- Changes and edits ---------------------------------------------------------------------------

/// What a list of changes says of the old text and of the new one: one more change adds to both,
/// to the old one only, or to the new one only.
pub proof fn law_sides_of_changes(earlier: Seq<ChangeView>, value: Seq<char>)
    ensures
        diff::old_side(seq![]) == Seq::<char>::empty(),
        diff::new_side(seq![]) == Seq::<char>::empty(),
        ({
            let kept = earlier.push(ChangeView { tag: ChangeTag::Equal, value });
            let gone = earlier.push(ChangeView { tag: ChangeTag::Delete, value });
            let come = earlier.push(ChangeView { tag: ChangeTag::Insert, value });
            &&& diff::old_side(kept) == diff::old_side(earlier) + value
            &&& diff::new_side(kept) == diff::new_side(earlier) + value
            &&& diff::old_side(gone) == diff::old_side(earlier) + value
            &&& diff::new_side(gone) == diff::new_side(earlier)
            &&& diff::old_side(come) == diff::old_side(earlier)
            &&& diff::new_side(come) == diff::new_side(earlier) + value
        }),
{
    assert(earlier.push(ChangeView { tag: ChangeTag::Equal, value }).drop_last() =~= earlier);
    assert(earlier.push(ChangeView { tag: ChangeTag::Delete, value }).drop_last() =~= earlier);
    assert(earlier.push(ChangeView { tag: ChangeTag::Insert, value }).drop_last() =~= earlier);
}

/// Both sides of changes that follow others.
proof fn lemma_sides_join(a: Seq<ChangeView>, b: Seq<ChangeView>)
    ensures
        diff::old_side(a + b) == diff::old_side(a) + diff::old_side(b),
        diff::new_side(a + b) == diff::new_side(a) + diff::new_side(b),
    decreases b.len(),
{
    if b.len() == 0 {
        assert(a + b =~= a);
        assert(diff::old_side(a) + diff::old_side(b) =~= diff::old_side(a));
        assert(diff::new_side(a) + diff::new_side(b) =~= diff::new_side(a));
    } else {
        lemma_sides_join(a, b.drop_last());
        assert((a + b).drop_last() =~= a + b.drop_last());
        assert((a + b).last() == b.last());
        let value = b.last().value;
        let old_front = diff::old_side(b.drop_last());
        let new_front = diff::new_side(b.drop_last());
        assert(diff::old_side(a) + (old_front + value) =~= (diff::old_side(a) + old_front) + value);
        assert(diff::new_side(a) + (new_front + value) =~= (diff::new_side(a) + new_front) + value);
    }
}

/// What is kept makes no edit.
pub proof fn law_kept_text_is_not_edited(changes: Seq<ChangeView>, value: Seq<char>, start: int)
    ensures
        diff::edits_of(seq![], start) == Seq::<EditView>::empty(),
        diff::edits_of(changes.push(ChangeView { tag: ChangeTag::Equal, value }), start)
            == diff::edits_of(changes, start),
{
    assert(changes.push(ChangeView { tag: ChangeTag::Equal, value }).drop_last() =~= changes);
}

/// Changes that follow each other are one edit, from where they start to where what they delete
/// ends, with all that they insert. Here they follow something that is kept, or come first.
pub proof fn law_a_run_of_changes_is_one_edit(
    before: Seq<ChangeView>,
    run: Seq<ChangeView>,
    start: int,
)
    requires
        before.len() == 0 || (before.last().tag == ChangeTag::Equal && before.last().value.len()
            > 0),
        run.len() > 0,
        forall|k: int| 0 <= k < run.len() ==> (#[trigger] run[k]).tag != ChangeTag::Equal,
    ensures
        ({
            let from = start + encode_utf8(diff::old_side(before)).len();
            diff::edits_of(before + run, start) == diff::edits_of(before, start).push(
                EditView {
                    start: from,
                    end: from + encode_utf8(diff::old_side(run)).len(),
                    text: diff::new_side(run),
                },
            )
        }),
    decreases run.len(),
{
    let from = start + encode_utf8(diff::old_side(before)).len();
    let edits = diff::edits_of(before, start);
    let earlier = run.drop_last();
    let value = run.last().value;
    assert((before + run).drop_last() =~= before + earlier);
    assert((before + run).last() == run.last());
    assert(run.last() == run[run.len() - 1]);
    lemma_sides_join(before, earlier);
    text::lemma_encode_concat(diff::old_side(before), diff::old_side(earlier));
    text::lemma_encode_concat(diff::old_side(earlier), value);
    let edit = EditView {
        start: from,
        end: from + encode_utf8(diff::old_side(run)).len(),
        text: diff::new_side(run),
    };
    if earlier.len() == 0 {
        assert(before + earlier =~= before);
        lemma_edits_end_before(before, start);
        assert(Seq::<char>::empty() + value =~= value);
        assert(!diff::reaches(edits, from));
        assert(diff::edits_of(before + run, start) =~= edits.push(edit));
    } else {
        assert forall|k: int| 0 <= k < earlier.len() implies (#[trigger] earlier[k]).tag
            != ChangeTag::Equal by {
            assert(earlier[k] == run[k]);
        }
        law_a_run_of_changes_is_one_edit(before, earlier, start);
        assert(diff::edits_of(before + run, start) =~= edits.push(edit));
    }
}

/// Edits end before something that is kept behind them.
proof fn lemma_edits_end_before(before: Seq<ChangeView>, start: int)
    requires
        before.len() == 0 || (before.last().tag == ChangeTag::Equal && before.last().value.len()
            > 0),
    ensures
        !diff::reaches(
            diff::edits_of(before, start),
            start + encode_utf8(diff::old_side(before)).len(),
        ),
{
    if before.len() > 0 {
        let earlier = before.drop_last();
        let value = before.last().value;
        diff::lemma_edits_separate(earlier, start);
        text::lemma_encode_concat(diff::old_side(earlier), value);
        text::lemma_encode_not_empty(value);
        let edits = diff::edits_of(earlier, start);
        if edits.len() > 0 {
            assert(edits.last() == edits[edits.len() - 1]);
        }
    }
}

/// Applying edits: the last one replaces its bytes by its text, and the others come before it.
pub proof fn law_edits_replace_their_bytes(bytes: Seq<u8>, edits: Seq<EditView>, edit: EditView)
    ensures
        diff::apply_edits(bytes, seq![]) == bytes,
        diff::apply_edits(bytes, edits.push(edit)) == diff::apply_edits(
            bytes.take(edit.start) + encode_utf8(edit.text) + bytes.skip(edit.end),
            edits,
        ),
{
    assert(edits.push(edit).drop_last() =~= edits);
}

/// Changes and edits are viewed by their fields, one by one.
pub proof fn law_changes_and_edits_are_viewed_in_full(
    changes: Seq<Change>,
    edits: Seq<(Range<usize>, String)>,
    anchored: Seq<(Range<Anchor>, String)>,
    i: int,
)
    ensures
        diff::changes_view(changes).len() == changes.len(),
        diff::edits_view(edits).len() == edits.len(),
        completion::anchored_view(anchored).len() == anchored.len(),
        0 <= i < changes.len() ==> diff::changes_view(changes)[i].tag == changes[i].tag
            && diff::changes_view(changes)[i].value == changes[i].value@,
        0 <= i < edits.len() ==> diff::edits_view(edits)[i] == (EditView {
            start: edits[i].0.start as int,
            end: edits[i].0.end as int,
            text: edits[i].1@,
        }),
        0 <= i < anchored.len() ==> completion::anchored_view(anchored)[i] == (AnchoredEdit {
            start: anchored[i].0.start,
            end: anchored[i].0.end,
            text: anchored[i].1@,
        }),
{
}

/// The start of an edit is anchored to the right, its end to the left, each where it is, and both
/// are found there again.
pub proof fn law_edits_are_anchored_where_they_are(edits: Seq<EditView>, i: int)
    requires
        0 <= i < edits.len(),
        0 <= edits[i].start <= usize::MAX,
        0 <= edits[i].end <= usize::MAX,
    ensures
        ({
            let anchored = completion::anchor_edits(edits);
            &&& anchored.len() == edits.len()
            &&& anchored[i].start.offset == edits[i].start
            &&& anchored[i].start.bias == Bias::Right
            &&& anchored[i].end.offset == edits[i].end
            &&& anchored[i].end.bias == Bias::Left
            &&& anchored[i].text == edits[i].text
            &&& completion::resolve_edits(anchored).len() == edits.len()
            &&& completion::resolve_edits(anchored)[i] == edits[i]
        }),
{
}

// --- Completions ---------------------------------------------------------------------------------

/// A text that can be read from the answer and is not the excerpt is a completion, whatever its
/// length; the excerpt itself is none; and there is an error only where no text can be read, and
/// that error.
pub proof fn law_other_texts_are_completions(
    pending: PendingCompletion,
    choices: Seq<MessageView>,
)
    ensures
        ({
            let excerpt = text::slice(
                pending.snapshot@.text,
                pending.excerpt_range.start as int,
                pending.excerpt_range.end as int,
            );
            match chat::suggested_text(choices) {
                Err(error) => pending.resolution(choices) == Err::<
                    Option<CompletionView>,
                    CompletionError,
                >(error),
                Ok(new_text) => if new_text == excerpt {
                    pending.resolution(choices) == Ok::<Option<CompletionView>, CompletionError>(
                        None,
                    )
                } else {
                    &&& pending.resolution(choices) matches Ok(Some(made))
                    &&& made.id == pending.id
                    &&& made.path == pending.path@
                    &&& made.snapshot == pending.snapshot@
                    &&& made.edits == completion::anchor_edits(
                        diff::edits_of(
                            diff::word_diff(excerpt, new_text),
                            pending.excerpt_range.start as int,
                        ),
                    )
                },
            }
        }),
{
}

/// What a request asked about: the excerpt is a slice of the buffer, replacing it leaves the bytes
/// before and behind it, and the completion that makes some edits carries them with the number,
/// the path and the buffer of the request.
pub proof fn law_completions_belong_to_their_requests(
    pending: PendingCompletion,
    edits: Seq<EditView>,
    new_text: Seq<char>,
)
    ensures
        pending.excerpt() == text::slice(
            pending.snapshot@.text,
            pending.excerpt_range.start as int,
            pending.excerpt_range.end as int,
        ),
        pending.replaced(new_text) == encode_utf8(pending.snapshot@.text).take(
            pending.excerpt_range.start as int,
        ) + encode_utf8(new_text) + encode_utf8(pending.snapshot@.text).skip(
            pending.excerpt_range.end as int,
        ),
        pending.completed(edits).id == pending.id,
        pending.completed(edits).path == pending.path@,
        pending.completed(edits).snapshot == pending.snapshot@,
        pending.completed(edits).edits == completion::anchor_edits(edits),
{
}

/// After an answer the engine remembers that a request came to nothing if the model suggests the
/// excerpt as it is, and is otherwise as before.
pub proof fn law_empty_handed_requests_are_remembered(
    engine: ZetaView,
    pending: PendingCompletion,
    choices: Seq<MessageView>,
)
    requires
        engine.wf(),
    ensures
        ({
            let excerpt = text::slice(
                pending.snapshot@.text,
                pending.excerpt_range.start as int,
                pending.excerpt_range.end as int,
            );
            let after = engine.resolved(pending, choices);
            if chat::suggested_text(choices) == Ok::<Seq<char>, CompletionError>(excerpt) {
                &&& memory::adds(
                    engine.history,
                    after.history,
                    EventView::NoInlineCompletion { id: pending.id },
                )
                &&& after.history.buffers == engine.history.buffers
                &&& after.next_inline_completion_id == engine.next_inline_completion_id
            } else {
                after == engine
            }
        }),
{
    memory::law_events_are_added(
        engine.history,
        EventView::NoInlineCompletion { id: pending.id },
    );
}

/// A completion is viewed by its fields, and applied by its edits.
pub proof fn law_completions_are_viewed_in_full(made: InlineCompletion)
    ensures
        made@.id == made.id,
        made@.path == made.path@,
        made@.edits == completion::anchored_view(made.edits@),
        made@.snapshot == made.snapshot@,
        made@.applied() == diff::apply_edits(
            encode_utf8(made.snapshot.text@),
            completion::resolve_edits(made@.edits),
        ),
{
}

/// Edits are separate if they lie between two offsets, one behind the other with something in
/// between, and effective if each removes or inserts something.
pub proof fn law_separate_and_effective_edits(edits: Seq<EditView>, start: int, end: int, i: int, j: int)
    requires
        0 <= i < j < edits.len(),
        diff::are_separate(edits, start, end),
        diff::are_effective(edits),
    ensures
        start <= edits[i].start <= edits[i].end < edits[j].start <= edits[j].end <= end,
        edits[i].start < edits[i].end || edits[i].text.len() > 0,
        edits[j].start < edits[j].end || edits[j].text.len() > 0,
{
}

} // verus!
