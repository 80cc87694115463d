//! What the user did, and how the model is told.
use vstd::prelude::*;
use vstd::string::*;

use crate::buffer::{BufferSnapshot, Edit, SnapshotView};
use crate::completion::{AnchoredEdit, CompletionView, InlineCompletion, InlineCompletionId};
use crate::hunk::{self, Hunk};
use crate::path;
use crate::rows;
use crate::text;

verus! {

pub const ORIGINAL_MARKER: &'static str = "<<<<<<< ORIGINAL\n";

pub const SEPARATOR_MARKER: &'static str = "\n=======\n";

pub const UPDATED_MARKER: &'static str = "\n>>>>>>> UPDATED";

/// Something that happened in the editor.
pub enum Event {
    Open { path: String },
    Save { path: String },
    BufferChange { old_snapshot: BufferSnapshot, new_snapshot: BufferSnapshot },
    Close { path: String },
    InlineCompletionRejected(InlineCompletion),
    NoInlineCompletion { id: InlineCompletionId },
}

/// The contents of an [`Event`].
#[verifier::ext_equal]
pub enum EventView {
    Open { path: Seq<char> },
    Save { path: Seq<char> },
    BufferChange { old_snapshot: SnapshotView, new_snapshot: SnapshotView },
    Close { path: Seq<char> },
    InlineCompletionRejected(CompletionView),
    NoInlineCompletion { id: InlineCompletionId },
}

impl View for Event {
    type V = EventView;

    open spec fn view(&self) -> EventView {
        match self {
            Event::Open { path } => EventView::Open { path: path@ },
            Event::Save { path } => EventView::Save { path: path@ },
            Event::BufferChange { old_snapshot, new_snapshot } => EventView::BufferChange {
                old_snapshot: old_snapshot@,
                new_snapshot: new_snapshot@,
            },
            Event::Close { path } => EventView::Close { path: path@ },
            Event::InlineCompletionRejected(completion) => EventView::InlineCompletionRejected(
                completion@,
            ),
            Event::NoInlineCompletion { id } => EventView::NoInlineCompletion { id: *id },
        }
    }
}

/// An edit as the model sees it: the old text and the new text between markers.
pub open spec fn edit_prompt(old_text: Seq<char>, new_text: Seq<char>) -> Seq<char> {
    ORIGINAL_MARKER@ + old_text + SEPARATOR_MARKER@ + new_text + UPDATED_MARKER@
}

/// The old and the new rows of `hunk` as the model sees them.
pub open spec fn hunk_prompt(old: SnapshotView, new: SnapshotView, hunk: Hunk) -> Seq<char> {
    edit_prompt(
        old.row_text(hunk.old_start as int, hunk.old_end as int),
        new.row_text(hunk.new_start as int, hunk.new_end as int),
    )
}

/// Hunks as the model sees them, each with two blank lines behind it.
pub open spec fn hunks_prompt(old: SnapshotView, new: SnapshotView, hunks: Seq<Hunk>) -> Seq<char>
    decreases hunks.len(),
{
    if hunks.len() == 0 {
        seq![]
    } else {
        hunks_prompt(old, new, hunks.drop_last()) + hunk_prompt(old, new, hunks.last()) + "\n\n\n"@
    }
}

/// The hunks of the edits between two states of a buffer.
pub open spec fn change_hunks(old: SnapshotView, new: SnapshotView, edits: Seq<Edit>) -> Seq<Hunk> {
    hunk::hunks_of(
        edits,
        0,
        rows::max_row(old.bytes()) as u32,
        rows::max_row(new.bytes()) as u32,
    )
}

/// A change of a buffer as the model sees it, its paths given in quotes; `renamed` says whether they
/// are different paths.
pub open spec fn change_prompt(
    old: SnapshotView,
    new: SnapshotView,
    edits: Seq<Edit>,
    old_path: Seq<char>,
    new_path: Seq<char>,
    renamed: bool,
) -> Seq<char> {
    let moved = if renamed {
        "User renamed "@ + old_path + " to "@ + new_path + "\n\n"@
    } else {
        seq![]
    };
    let edited = if edits.len() > 0 {
        "User edited "@ + new_path + ":\n\n"@
    } else {
        seq![]
    };
    moved + edited + hunks_prompt(old, new, change_hunks(old, new, edits))
}

/// An edit that the model suggested, as the model sees it.
pub open spec fn suggestion_prompt(snapshot: SnapshotView, edit: AnchoredEdit) -> Seq<char> {
    edit_prompt(
        text::slice(snapshot.text, edit.start.offset as int, edit.end.offset as int),
        edit.text,
    )
}

/// Edits that the model suggested, one below the other.
pub open spec fn suggestions_prompt(snapshot: SnapshotView, edits: Seq<AnchoredEdit>) -> Seq<char>
    decreases edits.len(),
{
    if edits.len() == 0 {
        seq![]
    } else if edits.len() == 1 {
        suggestion_prompt(snapshot, edits[0])
    } else {
        suggestions_prompt(snapshot, edits.drop_last()) + "\n"@ + suggestion_prompt(
            snapshot,
            edits.last(),
        )
    }
}

impl EventView {
    /// Whether positions in the buffers that the event holds can be counted, and cut their text
    /// between characters.
    pub open spec fn wf(self) -> bool {
        match self {
            EventView::BufferChange { old_snapshot, new_snapshot } => old_snapshot.fits()
                && new_snapshot.fits(),
            EventView::InlineCompletionRejected(completion) => completion.wf(),
            _ => true,
        }
    }

    /// The path that the event is about.
    pub open spec fn path(self) -> Seq<char> {
        match self {
            EventView::Open { path } => path,
            EventView::Save { path } => path,
            EventView::BufferChange { old_snapshot, new_snapshot } => new_snapshot.shown_path(),
            EventView::Close { path } => path,
            EventView::InlineCompletionRejected(completion) => completion.path,
            EventView::NoInlineCompletion { id } => seq![],
        }
    }

    /// The path before the event.
    pub open spec fn old_path(self) -> Seq<char> {
        match self {
            EventView::BufferChange { old_snapshot, new_snapshot } => old_snapshot.shown_path(),
            _ => self.path(),
        }
    }

    /// The event as the model sees it, its paths given in quotes; `edits` are those between the
    /// two states of a changed buffer, and `renamed` says whether its paths are different ones.
    pub open spec fn described(
        self,
        edits: Seq<Edit>,
        old_path: Seq<char>,
        path: Seq<char>,
        renamed: bool,
    ) -> Seq<char> {
        match self {
            EventView::Open { .. } => "User opened file: "@ + path,
            EventView::Save { .. } => "User saved file: "@ + path,
            EventView::BufferChange { old_snapshot, new_snapshot } => change_prompt(
                old_snapshot,
                new_snapshot,
                edits,
                old_path,
                path,
                renamed,
            ),
            EventView::Close { .. } => "User closed file: "@ + path,
            EventView::InlineCompletionRejected(completion) =>
                "User rejected these edits you suggested for file "@ + path + ":\n"@
                    + suggestions_prompt(completion.snapshot, completion.edits),
            EventView::NoInlineCompletion { .. } => "<|DONE|>"@,
        }
    }

    /// The event as the model sees it, once its paths have been compared.
    pub open spec fn prompt(self, edits: Seq<Edit>, renamed: bool) -> Seq<char> {
        self.described(
            edits,
            path::debug_path(self.old_path()),
            path::debug_path(self.path()),
            renamed,
        )
    }

    /// Whether a platform may find that the event renames its file.
    pub open spec fn may_rename(self, renamed: bool) -> bool {
        path::may_compare(self.old_path(), self.path(), !renamed)
    }

    /// Whether the event's paths are different ones, by their components.
    pub open spec fn renames(self) -> bool {
        path::path_components(self.old_path()) != path::path_components(self.path())
    }

    /// Whether the event's paths are read alike on every platform.
    pub open spec fn is_portable(self) -> bool {
        path::is_portable(self.old_path()) && path::is_portable(self.path())
    }
}

/// An edit as the model sees it.
pub fn format_edit(old_text: &str, new_text: &str) -> (r: String)
    ensures
        r@ == edit_prompt(old_text@, new_text@),
{
    let mut r = String::new();
    r.append(ORIGINAL_MARKER);
    r.append(old_text);
    r.append(SEPARATOR_MARKER);
    r.append(new_text);
    r.append(UPDATED_MARKER);
    assert(seq![] + ORIGINAL_MARKER@ =~= ORIGINAL_MARKER@);
    r
}

/// A line that says what happened to `path`.
fn path_line(what: &str, path: &str) -> (r: String)
    ensures
        r@ == what@ + path@,
{
    let mut r = what.to_string();
    r.append(path);
    r
}

/// A change of a buffer as the model sees it, its paths given in quotes; `renamed` says whether they
/// are different paths.
fn describe_change(
    old_snapshot: &BufferSnapshot,
    new_snapshot: &BufferSnapshot,
    edits: &Vec<Edit>,
    old_path: &str,
    new_path: &str,
    renamed: bool,
) -> (r: String)
    requires
        old_snapshot@.fits(),
        new_snapshot@.fits(),
        hunk::edits_fit(edits@),
    ensures
        r@ == change_prompt(old_snapshot@, new_snapshot@, edits@, old_path@, new_path@, renamed),
{
    let mut prompt = String::new();
    if renamed {
        prompt.append("User renamed ");
        prompt.append(old_path);
        prompt.append(" to ");
        prompt.append(new_path);
        prompt.append("\n\n");
    }
    if edits.len() > 0 {
        prompt.append("User edited ");
        prompt.append(new_path);
        prompt.append(":\n\n");
    }
    let ghost intro = prompt@;
    let hunks = hunk::merge_edits(edits, old_snapshot.max_point().row, new_snapshot.max_point().row);
    let mut i: usize = 0;
    assert(hunks@.take(0) =~= seq![]);
    assert(intro + hunks_prompt(old_snapshot@, new_snapshot@, hunks@.take(0)) =~= intro);
    while i < hunks.len()
        invariant
            i <= hunks.len(),
            old_snapshot@.fits(),
            new_snapshot@.fits(),
            prompt@ == intro + hunks_prompt(old_snapshot@, new_snapshot@, hunks@.take(i as int)),
        decreases hunks.len() - i,
    {
        let hunk = hunks[i];
        let edit = format_edit(
            old_snapshot.text_for_rows(hunk.old_start, hunk.old_end),
            new_snapshot.text_for_rows(hunk.new_start, hunk.new_end),
        );
        let ghost before = hunks_prompt(old_snapshot@, new_snapshot@, hunks@.take(i as int));
        prompt.append(edit.as_str());
        prompt.append("\n\n\n");
        proof {
            assert(hunks@.take(i + 1).drop_last() =~= hunks@.take(i as int));
            assert(intro + before + edit@ + "\n\n\n"@ =~= intro + (before + edit@ + "\n\n\n"@));
        }
        i += 1;
    }
    proof {
        assert(hunks@.take(i as int) =~= hunks@);
        assert(hunks@ == change_hunks(old_snapshot@, new_snapshot@, edits@));
        assert(prompt@ =~= change_prompt(
            old_snapshot@,
            new_snapshot@,
            edits@,
            old_path@,
            new_path@,
            renamed,
        ));
    }
    prompt
}

/// The edits of a completion, one below the other.
fn describe_suggestions(completion: &InlineCompletion) -> (r: String)
    requires
        completion@.wf(),
    ensures
        r@ == suggestions_prompt(completion@.snapshot, completion@.edits),
{
    let ghost all = completion@.edits;
    let ghost snapshot = completion@.snapshot;
    let mut edits = String::new();
    let mut i: usize = 0;
    assert(suggestions_prompt(snapshot, all.take(0)) =~= seq![]);
    while i < completion.edits.len()
        invariant
            i <= completion.edits.len(),
            completion@.wf(),
            all == completion@.edits,
            snapshot == completion@.snapshot,
            edits@ == suggestions_prompt(snapshot, all.take(i as int)),
        decreases completion.edits.len() - i,
    {
        let ghost before = edits@;
        assert(all[i as int] == AnchoredEdit {
            start: completion.edits@[i as int].0.start,
            end: completion.edits@[i as int].0.end,
            text: completion.edits@[i as int].1@,
        });
        if i > 0 {
            edits.append("\n");
        }
        let start: usize = completion.edits[i].0.start.offset;
        let end: usize = completion.edits[i].0.end.offset;
        let edit = format_edit(
            completion.snapshot.text_for_range(start..end),
            completion.edits[i].1.as_str(),
        );
        edits.append(edit.as_str());
        proof {
            let now = all.take(i + 1);
            assert(now.drop_last() =~= all.take(i as int));
            assert(now.last() == all[i as int]);
            if i == 0 {
                assert(seq![] + edit@ =~= edit@);
            }
        }
        i += 1;
    }
    assert(all.take(i as int) =~= all);
    edits
}

impl Event {
    /// The path that the event is about.
    pub fn path(&self) -> (r: &str)
        ensures
            r@ == self@.path(),
    {
        match self {
            Event::Open { path } => path.as_str(),
            Event::Save { path } => path.as_str(),
            Event::BufferChange { new_snapshot, .. } => new_snapshot.shown_path(),
            Event::Close { path } => path.as_str(),
            Event::InlineCompletionRejected(completion) => completion.path.as_str(),
            Event::NoInlineCompletion { .. } => {
                let none: &str = "";
                proof {
                    reveal_strlit("");
                    assert(none@ =~= seq![]);
                }
                none
            },
        }
    }

    /// The path before the event.
    pub fn old_path(&self) -> (r: &str)
        ensures
            r@ == self@.old_path(),
    {
        match self {
            Event::BufferChange { old_snapshot, .. } => old_snapshot.shown_path(),
            _ => self.path(),
        }
    }

    /// The event as the model sees it, its paths given in quotes; `edits` are those between the
    /// two states of a changed buffer, and `renamed` says whether its paths are different ones.
    pub fn describe(
        &self,
        edits: &Vec<Edit>,
        old_path: &str,
        path: &str,
        renamed: bool,
    ) -> (r: String)
        requires
            self@.wf(),
            hunk::edits_fit(edits@),
        ensures
            r@ == self@.described(edits@, old_path@, path@, renamed),
    {
        match self {
            Event::Open { .. } => path_line("User opened file: ", path),
            Event::Save { .. } => path_line("User saved file: ", path),
            Event::BufferChange { old_snapshot, new_snapshot } => describe_change(
                old_snapshot,
                new_snapshot,
                edits,
                old_path,
                path,
                renamed,
            ),
            Event::Close { .. } => path_line("User closed file: ", path),
            Event::InlineCompletionRejected(completion) => {
                let mut r = path_line("User rejected these edits you suggested for file ", path);
                r.append(":\n");
                r.append(describe_suggestions(completion).as_str());
                r
            },
            Event::NoInlineCompletion { .. } => "<|DONE|>".to_string(),
        }
    }

    /// The event as the model sees it; `edits` are those between the two states of a changed
    /// buffer.
    ///
    /// Whether two paths are different ones is for the platform to say; of portable paths the
    /// contract says it too.
    pub fn to_prompt(&self, edits: &Vec<Edit>) -> (r: String)
        requires
            self@.wf(),
            hunk::edits_fit(edits@),
        ensures
            exists|renamed: bool|
                self@.may_rename(renamed) && r@ == #[trigger] self@.prompt(edits@, renamed),
            self@.is_portable() ==> r@ == self@.prompt(edits@, self@.renames()),
    {
        let renamed: bool = !path::same_path(self.old_path(), self.path());
        let old_path = path::quote_path(self.old_path());
        let path = path::quote_path(self.path());
        let prompt = self.describe(edits, old_path.as_str(), path.as_str(), renamed);
        assert(self@.may_rename(renamed) && prompt@ == self@.prompt(edits@, renamed));
        prompt
    }
}

} // verus!
