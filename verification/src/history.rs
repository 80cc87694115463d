//! What the engine remembers, as values: the events it has seen and the buffers it knows.
use vstd::prelude::*;

use crate::buffer::{Edit, SnapshotView};
use crate::event::EventView;
use crate::hunk;

verus! {

/// How many events are remembered.
pub const MAX_EVENTS: usize = 10;

/// An event and its number.
#[verifier::ext_equal]
pub struct EntryView {
    pub id: int,
    pub event: EventView,
}

/// The state of a buffer as it was last reported, for each buffer that is registered.
pub type BuffersView = Map<u64, SnapshotView>;

/// The events and the buffers that the engine knows.
#[verifier::ext_equal]
pub struct HistoryView {
    pub events: Seq<EntryView>,
    pub next_event_id: int,
    pub buffers: BuffersView,
}

/// What happened to a buffer.
#[derive(Clone, Copy, Debug, PartialEq, Eq, Structural)]
pub enum BufferEvent {
    Edited,
    Saved,
    Other,
}

impl HistoryView {
    /// The history of an engine that has seen nothing.
    pub open spec fn initial() -> HistoryView {
        HistoryView { events: seq![], next_event_id: 0, buffers: Map::empty() }
    }

    /// Events are numbered one after the other, and the last few of them are remembered.
    pub open spec fn is_numbered(self) -> bool {
        &&& 0 <= self.next_event_id
        &&& self.events.len() == if self.next_event_id < MAX_EVENTS {
            self.next_event_id
        } else {
            MAX_EVENTS as int
        }
        &&& forall|i: int|
            0 <= i < self.events.len() ==> (#[trigger] self.events[i]).id == self.next_event_id
                - self.events.len() + i
    }

    /// Events are numbered, and positions in buffers can be counted.
    pub open spec fn wf(self) -> bool {
        &&& self.is_numbered()
        &&& forall|i: int|
            0 <= i < self.events.len() ==> (#[trigger] self.events[i]).event.wf()
        &&& forall|id: u64|
            self.buffers.contains_key(id) ==> (#[trigger] self.buffers[id]).fits()
    }

    /// Whether `event` goes on with the change that came last: the same buffer, from the state in
    /// which that change left it.
    pub open spec fn continues_last(self, event: EventView) -> bool {
        self.events.len() > 0 && match (self.events.last().event, event) {
            (
                EventView::BufferChange { old_snapshot: first_old, new_snapshot: first_new },
                EventView::BufferChange { old_snapshot, new_snapshot },
            ) => old_snapshot.remote_id == first_new.remote_id && old_snapshot.version
                == first_new.version,
            _ => false,
        }
    }

    /// Two changes as one.
    pub open spec fn merged(first: EventView, second: EventView) -> EventView {
        EventView::BufferChange {
            old_snapshot: first->BufferChange_old_snapshot,
            new_snapshot: second->BufferChange_new_snapshot,
        }
    }

    /// The history after `event`.
    pub open spec fn push_event(self, event: EventView) -> HistoryView {
        if self.continues_last(event) {
            let last = self.events.last();
            HistoryView {
                events: self.events.drop_last().push(
                    EntryView { id: last.id, event: HistoryView::merged(last.event, event) },
                ),
                ..self
            }
        } else {
            let events = self.events.push(EntryView { id: self.next_event_id, event });
            HistoryView {
                events: if events.len() > MAX_EVENTS {
                    events.drop_first()
                } else {
                    events
                },
                next_event_id: self.next_event_id + 1,
                ..self
            }
        }
    }

    /// The history once a buffer is known.
    pub open spec fn register_buffer(self, entity_id: u64, snapshot: SnapshotView) -> HistoryView {
        if self.buffers.contains_key(entity_id) {
            self
        } else {
            HistoryView {
                buffers: self.buffers.insert(entity_id, snapshot),
                ..self
            }.push_event(EventView::Open { path: snapshot.shown_path() })
        }
    }

    /// The history once a buffer is gone.
    pub open spec fn release_buffer(self, entity_id: u64) -> HistoryView {
        let closed = if self.buffers.contains_key(entity_id) {
            match self.buffers[entity_id].path {
                Some(path) => self.push_event(EventView::Close { path }),
                None => self,
            }
        } else {
            self
        };
        HistoryView { buffers: self.buffers.remove(entity_id), ..closed }
    }

    /// The history once the state of a buffer is known.
    pub open spec fn report_changes(self, entity_id: u64, snapshot: SnapshotView) -> HistoryView {
        let known = self.register_buffer(entity_id, snapshot);
        let old_snapshot = known.buffers[entity_id];
        if snapshot.version != old_snapshot.version {
            HistoryView {
                buffers: known.buffers.insert(entity_id, snapshot),
                ..known
            }.push_event(EventView::BufferChange { old_snapshot, new_snapshot: snapshot })
        } else {
            known
        }
    }

    /// The history after `event` in a buffer.
    pub open spec fn handle_buffer_event(
        self,
        entity_id: u64,
        snapshot: SnapshotView,
        event: BufferEvent,
    ) -> HistoryView {
        match event {
            BufferEvent::Edited => self.report_changes(entity_id, snapshot),
            BufferEvent::Saved => match snapshot.path {
                Some(path) => self.push_event(EventView::Save { path }),
                None => self,
            },
            BufferEvent::Other => self,
        }
    }
}

/// The events as the model sees them, in order, each with a blank line behind it; `edits` holds,
/// for each event, the edits between the two states of a changed buffer, and `renamed` whether the
/// event's paths are different ones.
pub open spec fn events_prompt(
    events: Seq<EntryView>,
    edits: Seq<Vec<Edit>>,
    renamed: Seq<bool>,
) -> Seq<char>
    decreases events.len(),
{
    if events.len() == 0 {
        seq![]
    } else {
        let last = events.len() - 1;
        events_prompt(events.drop_last(), edits, renamed) + events[last].event.prompt(
            edits[last]@,
            renamed[last],
        ) + "\n\n"@
    }
}

/// Whether a platform may find, for each event, that it renames its file.
pub open spec fn may_rename(events: Seq<EntryView>, renamed: Seq<bool>) -> bool {
    &&& renamed.len() == events.len()
    &&& forall|i: int|
        0 <= i < events.len() ==> (#[trigger] events[i]).event.may_rename(renamed[i])
}

/// Whether each event's paths are different ones, by their components.
pub open spec fn renames(events: Seq<EntryView>) -> Seq<bool> {
    events.map_values(|e: EntryView| e.event.renames())
}

/// Whether the paths of all events are read alike on every platform.
pub open spec fn are_portable(events: Seq<EntryView>) -> bool {
    forall|i: int| 0 <= i < events.len() ==> (#[trigger] events[i]).event.is_portable()
}

/// Whether a platform may show the model `prompt` for the events. If all paths are portable, there
/// is one such prompt.
pub open spec fn is_events_prompt(
    events: Seq<EntryView>,
    edits: Seq<Vec<Edit>>,
    prompt: Seq<char>,
) -> bool {
    &&& exists|renamed: Seq<bool>|
        may_rename(events, renamed) && prompt == #[trigger] events_prompt(events, edits, renamed)
    &&& are_portable(events) ==> prompt == events_prompt(events, edits, renames(events))
}

/// Whether the context of all edits can be counted.
pub open spec fn all_edits_fit(edits: Seq<Vec<Edit>>) -> bool {
    forall|i: int| 0 <= i < edits.len() ==> hunk::edits_fit((#[trigger] edits[i])@)
}

} // verus!
