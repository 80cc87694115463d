//! What the engine remembers of each thing that happens.
use vstd::prelude::*;

use crate::buffer::{BufferSnapshot, SnapshotView};
use crate::completion::CompletionView;
use crate::event::{Event, EventView};
use crate::history::{BufferEvent, EntryView, HistoryView};
use crate::zeta::{self, EventId, ZetaView};

verus! {

/// Whether `after` is `before` with one more event: it has the next number, it comes last, and of
/// the others only the oldest of ten is gone.
pub open spec fn adds(before: HistoryView, after: HistoryView, event: EventView) -> bool {
    let kept = if before.events.len() < 10 {
        before.events
    } else {
        before.events.subrange(1, before.events.len() as int)
    };
    &&& after.next_event_id == before.next_event_id + 1
    &&& after.events.len() == kept.len() + 1
    &&& after.events[kept.len() as int].id == before.next_event_id
    &&& after.events[kept.len() as int].event == event
    &&& after.events.subrange(0, kept.len() as int) == kept
}

/// A new engine has seen nothing.
pub proof fn law_nothing_is_remembered_at_first()
    ensures
        HistoryView::initial().events.len() == 0,
        HistoryView::initial().next_event_id == 0,
        forall|id: u64| !HistoryView::initial().buffers.contains_key(id),
{
}

/// The service and the model that are asked if no others are named.
pub proof fn law_default_service()
    ensures
        zeta::DEFAULT_API_URL@ == "https://api.fireworks.ai/inference/v1"@,
        zeta::DEFAULT_MODEL@
            == "accounts/fireworks/models/qwen2p5-coder-7b-instruct#accounts/antonio-01403c/deployments/39c3a4c6"@,
{
}

/// Every event but a change is added, whatever came before.
pub proof fn law_events_are_added(history: HistoryView, event: EventView)
    requires
        history.wf(),
        !(event is BufferChange),
    ensures
        adds(history, history.push_event(event), event),
        history.push_event(event).buffers == history.buffers,
{
    let kept = history.push_event(event).events.drop_last();
    assert(history.events.len() < 10 ==> kept =~= history.events);
    assert(history.events.len() >= 10 ==> kept =~= history.events.subrange(
        1,
        history.events.len() as int,
    ));
}

/// A change is added, unless the last event is a change of the same buffer that ends at the version
/// at which this one starts. In that case the last event now goes on to the end of this one, under
/// its number, and nothing else changes.
pub proof fn law_changes_are_added_or_joined(
    history: HistoryView,
    old_snapshot: SnapshotView,
    new_snapshot: SnapshotView,
)
    requires
        history.wf(),
    ensures
        ({
            let event = EventView::BufferChange { old_snapshot, new_snapshot };
            let after = history.push_event(event);
            let n = history.events.len() as int;
            &&& after.buffers == history.buffers
            &&& if n > 0 && history.events[n - 1].event is BufferChange
                && history.events[n - 1].event->BufferChange_new_snapshot.remote_id
                == old_snapshot.remote_id
                && history.events[n - 1].event->BufferChange_new_snapshot.version
                == old_snapshot.version {
                &&& after.next_event_id == history.next_event_id
                &&& after.events.len() == n
                &&& after.events.subrange(0, n - 1) == history.events.subrange(0, n - 1)
                &&& after.events[n - 1].id == history.events[n - 1].id
                &&& after.events[n - 1].event is BufferChange
                &&& after.events[n - 1].event->BufferChange_old_snapshot
                    == history.events[n - 1].event->BufferChange_old_snapshot
                &&& after.events[n - 1].event->BufferChange_new_snapshot == new_snapshot
            } else {
                adds(history, after, event)
            }
        }),
{
    let event = EventView::BufferChange { old_snapshot, new_snapshot };
    let after = history.push_event(event);
    let n = history.events.len() as int;
    if history.continues_last(event) {
        assert(after.events.subrange(0, n - 1) =~= history.events.subrange(0, n - 1));
    } else {
        let kept = after.events.drop_last();
        assert(n < 10 ==> kept =~= history.events);
        assert(n >= 10 ==> kept =~= history.events.subrange(1, n));
    }
}

/// A buffer that is not known is opened under its path, or as an untitled one, and its state is put
/// on record; one that is known changes nothing.
pub proof fn law_new_buffers_are_opened(
    history: HistoryView,
    entity_id: u64,
    snapshot: SnapshotView,
)
    requires
        history.wf(),
    ensures
        ({
            let after = history.register_buffer(entity_id, snapshot);
            let path = match snapshot.path {
                Some(path) => path,
                None => "untitled"@,
            };
            if history.buffers.contains_key(entity_id) {
                after == history
            } else {
                &&& adds(history, after, EventView::Open { path })
                &&& after.buffers == history.buffers.insert(entity_id, snapshot)
            }
        }),
{
    if !history.buffers.contains_key(entity_id) {
        let known = HistoryView {
            buffers: history.buffers.insert(entity_id, snapshot),
            ..history
        };
        let event = EventView::Open { path: snapshot.shown_path() };
        let kept = known.push_event(event).events.drop_last();
        assert(history.events.len() < 10 ==> kept =~= history.events);
        assert(history.events.len() >= 10 ==> kept =~= history.events.subrange(
            1,
            history.events.len() as int,
        ));
    }
}

/// A buffer that is let go of is closed under its path, if it is known and has one, and is no
/// longer on record.
pub proof fn law_released_buffers_are_closed(history: HistoryView, entity_id: u64)
    requires
        history.wf(),
    ensures
        ({
            let after = history.release_buffer(entity_id);
            &&& after.buffers == history.buffers.remove(entity_id)
            &&& if history.buffers.contains_key(entity_id)
                && history.buffers[entity_id].path is Some {
                adds(
                    history,
                    after,
                    EventView::Close { path: history.buffers[entity_id].path->0 },
                )
            } else {
                &&& after.events == history.events
                &&& after.next_event_id == history.next_event_id
            }
        }),
{
    if history.buffers.contains_key(entity_id) && history.buffers[entity_id].path is Some {
        law_events_are_added(
            history,
            EventView::Close { path: history.buffers[entity_id].path->0 },
        );
    }
}

/// A state of another version than the one on record is a change from that one, and is then on
/// record; a state of the same version changes nothing.
pub proof fn law_new_versions_are_changes(
    history: HistoryView,
    entity_id: u64,
    snapshot: SnapshotView,
)
    requires
        history.wf(),
        history.buffers.contains_key(entity_id),
    ensures
        ({
            let after = history.report_changes(entity_id, snapshot);
            let known = history.buffers[entity_id];
            if snapshot.version == known.version {
                after == history
            } else {
                let pushed = history.push_event(
                    EventView::BufferChange { old_snapshot: known, new_snapshot: snapshot },
                );
                let last = after.events[after.events.len() - 1];
                &&& after.buffers == history.buffers.insert(entity_id, snapshot)
                &&& after.events == pushed.events
                &&& after.next_event_id == pushed.next_event_id
                &&& after.events.len() > 0
                &&& last.event is BufferChange
                &&& last.event->BufferChange_new_snapshot == snapshot
            }
        }),
{
    let known = history.buffers[entity_id];
    if snapshot.version != known.version {
        law_changes_are_added_or_joined(history, known, snapshot);
        let noted = HistoryView {
            buffers: history.buffers.insert(entity_id, snapshot),
            ..history
        };
        let event = EventView::BufferChange { old_snapshot: known, new_snapshot: snapshot };
        assert(noted.push_event(event).events =~= history.push_event(event).events);
    }
}

/// Saving a buffer that has a path is remembered, whatever came before; saving one that has none is
/// not, and other things that happen to a buffer are not either.
pub proof fn law_saves_are_remembered(history: HistoryView, entity_id: u64, snapshot: SnapshotView)
    requires
        history.wf(),
    ensures
        ({
            let after = history.handle_buffer_event(entity_id, snapshot, BufferEvent::Saved);
            if snapshot.path is Some {
                &&& adds(history, after, EventView::Save { path: snapshot.path->0 })
                &&& after.buffers == history.buffers
            } else {
                after == history
            }
        }),
        history.handle_buffer_event(entity_id, snapshot, BufferEvent::Other) == history,
        history.handle_buffer_event(entity_id, snapshot, BufferEvent::Edited)
            == history.report_changes(entity_id, snapshot),
{
    if snapshot.path is Some {
        law_events_are_added(history, EventView::Save { path: snapshot.path->0 });
    }
}

/// Asking for a completion reports the buffer and takes one number; nothing else changes.
pub proof fn law_requests_report_the_buffer(
    engine: ZetaView,
    entity_id: u64,
    snapshot: SnapshotView,
)
    ensures
        ({
            let after = engine.requested(entity_id, snapshot);
            &&& after.history == engine.history.report_changes(entity_id, snapshot)
            &&& after.next_inline_completion_id == engine.next_inline_completion_id + 1
            &&& after.api_url == engine.api_url
            &&& after.api_key == engine.api_key
            &&& after.model == engine.model
        }),
{
}

/// Turning a completion down is remembered with the completion; nothing else changes.
pub proof fn law_rejections_are_remembered(engine: ZetaView, completion: CompletionView)
    requires
        engine.wf(),
    ensures
        ({
            let after = engine.rejected(Some(completion));
            &&& adds(
                engine.history,
                after.history,
                EventView::InlineCompletionRejected(completion),
            )
            &&& after.history.buffers == engine.history.buffers
            &&& after.next_inline_completion_id == engine.next_inline_completion_id
            &&& after.api_url == engine.api_url
            &&& after.api_key == engine.api_key
            &&& after.model == engine.model
        }),
        engine.rejected(None) == engine,
{
    law_events_are_added(engine.history, EventView::InlineCompletionRejected(completion));
}

/// Another history is all that changes with it.
pub proof fn law_with_history(engine: ZetaView, history: HistoryView)
    ensures
        engine.with_history(history).history == history,
        engine.with_history(history).next_inline_completion_id == engine.next_inline_completion_id,
        engine.with_history(history).api_url == engine.api_url,
        engine.with_history(history).api_key == engine.api_key,
        engine.with_history(history).model == engine.model,
{
}

/// A snapshot is viewed by its fields.
pub proof fn law_snapshots_are_viewed_in_full(snapshot: BufferSnapshot)
    ensures
        snapshot@.remote_id == snapshot.remote_id,
        snapshot@.version == snapshot.version@,
        snapshot.path matches Some(path) ==> snapshot@.path == Some(path@),
        snapshot.path is None ==> snapshot@.path is None,
        snapshot@.text == snapshot.text@,
{
}

/// An event is viewed by its fields, and a list of events event by event.
pub proof fn law_events_are_viewed_in_full(entries: Seq<(EventId, Event)>, i: int)
    requires
        0 <= i < entries.len(),
    ensures
        zeta::entries_view(entries).len() == entries.len(),
        zeta::entries_view(entries)[i].id == entries[i].0.0,
        zeta::entries_view(entries)[i].event == entries[i].1@,
        match entries[i].1 {
            Event::Open { path } => entries[i].1@ == (EventView::Open { path: path@ }),
            Event::Save { path } => entries[i].1@ == (EventView::Save { path: path@ }),
            Event::Close { path } => entries[i].1@ == (EventView::Close { path: path@ }),
            Event::BufferChange { old_snapshot, new_snapshot } => entries[i].1@ == (
            EventView::BufferChange {
                old_snapshot: old_snapshot@,
                new_snapshot: new_snapshot@,
            }),
            Event::InlineCompletionRejected(completion) => entries[i].1@
                == EventView::InlineCompletionRejected(completion@),
            Event::NoInlineCompletion { id } => entries[i].1@ == (EventView::NoInlineCompletion {
                id,
            }),
        },
{
}

/// Buffers on record are viewed one by one.
pub proof fn law_buffers_are_viewed_in_full(buffers: Map<u64, BufferSnapshot>, id: u64)
    ensures
        zeta::buffers_view(buffers).contains_key(id) == buffers.contains_key(id),
        buffers.contains_key(id) ==> zeta::buffers_view(buffers)[id] == buffers[id]@,
{
}

} // verus!
