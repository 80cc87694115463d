//! What holds of an engine, whatever it has been through.
use vstd::prelude::*;

use crate::buffer::SnapshotView;
use crate::event::EventView;
use crate::history::{BufferEvent, EntryView, HistoryView, MAX_EVENTS};
use crate::zeta::ZetaView;

verus! {

/// One thing that an engine is told.
#[allow(inconsistent_fields)]
pub enum Step {
    /// A buffer is registered.
    Register { entity_id: u64, snapshot: SnapshotView },
    /// The state of a buffer is reported.
    Report { entity_id: u64, snapshot: SnapshotView },
    /// Something happened to a buffer.
    Handle { entity_id: u64, snapshot: SnapshotView, event: BufferEvent },
    /// A buffer is let go of.
    Release { entity_id: u64 },
    /// Something else happened: a completion was turned down, or a request came to nothing.
    Push { event: EventView },
}

impl Step {
    /// The history after this step.
    pub open spec fn apply(self, history: HistoryView) -> HistoryView {
        match self {
            Step::Register { entity_id, snapshot } => history.register_buffer(entity_id, snapshot),
            Step::Report { entity_id, snapshot } => history.report_changes(entity_id, snapshot),
            Step::Handle { entity_id, snapshot, event } => history.handle_buffer_event(
                entity_id,
                snapshot,
                event,
            ),
            Step::Release { entity_id } => history.release_buffer(entity_id),
            Step::Push { event } => history.push_event(event),
        }
    }

    /// The numbers with which buffers were opened, after this step.
    pub open spec fn open(self, history: HistoryView, opened: Map<u64, int>) -> Map<u64, int> {
        match self {
            Step::Register { entity_id, .. } => opened_with(history, opened, entity_id),
            Step::Report { entity_id, .. } => opened_with(history, opened, entity_id),
            Step::Handle { entity_id, event: BufferEvent::Edited, .. } => opened_with(
                history,
                opened,
                entity_id,
            ),
            Step::Handle { .. } => opened,
            Step::Release { entity_id } => opened.remove(entity_id),
            Step::Push { .. } => opened,
        }
    }

    /// Whether the step tells of buffers by their identities: a buffer keeps its own, no two
    /// buffers that are registered share one, and changes are told by the buffers' states alone.
    pub open spec fn is_sound(self, history: HistoryView) -> bool {
        match self {
            Step::Register { entity_id, snapshot } => !history.buffers.contains_key(entity_id)
                ==> is_unknown(history, snapshot.remote_id),
            Step::Report { entity_id, snapshot } => is_known_as(history, entity_id, snapshot),
            Step::Handle { entity_id, snapshot, event: BufferEvent::Edited } => is_known_as(
                history,
                entity_id,
                snapshot,
            ),
            Step::Handle { .. } => true,
            Step::Release { .. } => true,
            Step::Push { event } => !(event is BufferChange),
        }
    }
}

/// The numbers with which buffers were opened, once a buffer is registered.
pub open spec fn opened_with(
    history: HistoryView,
    opened: Map<u64, int>,
    entity_id: u64,
) -> Map<u64, int> {
    if history.buffers.contains_key(entity_id) {
        opened
    } else {
        opened.insert(entity_id, history.next_event_id)
    }
}

/// Whether no buffer that is registered has this identity.
pub open spec fn is_unknown(history: HistoryView, remote_id: u64) -> bool {
    forall|id: u64|
        history.buffers.contains_key(id) ==> (#[trigger] history.buffers[id]).remote_id != remote_id
}

/// Whether a buffer has the identity that it is known by, or one that is not known.
pub open spec fn is_known_as(history: HistoryView, entity_id: u64, snapshot: SnapshotView) -> bool {
    if history.buffers.contains_key(entity_id) {
        history.buffers[entity_id].remote_id == snapshot.remote_id
    } else {
        is_unknown(history, snapshot.remote_id)
    }
}

/// The history of an engine after `steps`.
pub open spec fn after(steps: Seq<Step>) -> HistoryView
    decreases steps.len(),
{
    if steps.len() == 0 {
        HistoryView::initial()
    } else {
        steps.last().apply(after(steps.drop_last()))
    }
}

/// For each buffer that is registered after `steps`, the number of the event that opened it.
pub open spec fn opened(steps: Seq<Step>) -> Map<u64, int>
    decreases steps.len(),
{
    if steps.len() == 0 {
        Map::empty()
    } else {
        let earlier = steps.drop_last();
        steps.last().open(after(earlier), opened(earlier))
    }
}

/// Whether all steps tell of buffers by their identities.
pub open spec fn are_sound(steps: Seq<Step>) -> bool
    decreases steps.len(),
{
    steps.len() > 0 ==> are_sound(steps.drop_last()) && steps.last().is_sound(
        after(steps.drop_last()),
    )
}

// --- Numbers ---------------------------------------------------------------------------------

/// Every step keeps the numbers of the remembered events those of the last events.
pub proof fn law_steps_keep_numbers(history: HistoryView, step: Step)
    requires
        history.is_numbered(),
    ensures
        step.apply(history).is_numbered(),
{
}

/// The events that are remembered are the last ten, or all if there were fewer, and their numbers
/// follow each other up to the next one.
pub proof fn law_last_events_are_remembered(steps: Seq<Step>)
    ensures
        ({
            let history = after(steps);
            let next = history.next_event_id;
            let len = history.events.len();
            &&& 0 <= next
            &&& len == if next < MAX_EVENTS {
                next
            } else {
                MAX_EVENTS as int
            }
            &&& forall|i: int| 0 <= i < len ==> (#[trigger] history.events[i]).id == next - len + i
        }),
    decreases steps.len(),
{
    if steps.len() > 0 {
        law_last_events_are_remembered(steps.drop_last());
        law_steps_keep_numbers(after(steps.drop_last()), steps.last());
    }
}

// --- Requests --------------------------------------------------------------------------------

/// One call of an engine.
pub enum Call {
    /// A completion is asked for in a buffer.
    Request { entity_id: u64, snapshot: SnapshotView },
    /// The engine is told something.
    Tell { step: Step },
}

impl Call {
    /// The engine after this call.
    pub open spec fn apply(self, engine: ZetaView) -> ZetaView {
        match self {
            Call::Request { entity_id, snapshot } => engine.requested(entity_id, snapshot),
            Call::Tell { step } => engine.with_history(step.apply(engine.history)),
        }
    }
}

/// An engine after `calls`.
pub open spec fn engine_after(engine: ZetaView, calls: Seq<Call>) -> ZetaView
    decreases calls.len(),
{
    if calls.len() == 0 {
        engine
    } else {
        calls.last().apply(engine_after(engine, calls.drop_last()))
    }
}

/// The number of the request that the call `i` makes.
pub open spec fn request_id(engine: ZetaView, calls: Seq<Call>, i: int) -> int {
    engine_after(engine, calls.take(i)).next_inline_completion_id
}

/// Requests are numbered in the order in which they are made, whatever comes of them: a later one
/// has a greater number, and only requests count.
pub proof fn law_requests_are_numbered(engine: ZetaView, calls: Seq<Call>, i: int, j: int)
    requires
        0 <= i < j <= calls.len(),
    ensures
        request_id(engine, calls, i + 1) == request_id(engine, calls, i) + if calls[i] is Request {
            1int
        } else {
            0
        },
        calls[i] is Request ==> request_id(engine, calls, i) < request_id(engine, calls, j),
        request_id(engine, calls, i) <= request_id(engine, calls, j),
    decreases j - i,
{
    let next = calls.take(i + 1);
    assert(next.drop_last() =~= calls.take(i));
    assert(next.last() == calls[i]);
    if i + 1 < j {
        law_requests_are_numbered(engine, calls, i + 1, j);
    }
}

// --- Chains ----------------------------------------------------------------------------------

/// Whether an event is a change of a buffer, and no older than `since`.
pub open spec fn is_change_of(entry: EntryView, remote_id: u64, since: int) -> bool {
    entry.id >= since && match entry.event {
        EventView::BufferChange { old_snapshot, .. } => old_snapshot.remote_id == remote_id,
        _ => false,
    }
}

/// The version at which a change starts.
pub open spec fn old_version(entry: EntryView) -> Seq<u32> {
    entry.event->BufferChange_old_snapshot.version
}

/// The version at which a change ends.
pub open spec fn new_version(entry: EntryView) -> Seq<u32> {
    entry.event->BufferChange_new_snapshot.version
}

/// Whether the changes of a buffer lead to `version`: the last one ends there, and each of the
/// others ends where the next one starts.
pub open spec fn leads_to(
    events: Seq<EntryView>,
    remote_id: u64,
    since: int,
    version: Seq<u32>,
) -> bool
    decreases events.len(),
{
    if events.len() == 0 {
        true
    } else if is_change_of(events.last(), remote_id, since) {
        &&& new_version(events.last()) == version
        &&& leads_to(events.drop_last(), remote_id, since, old_version(events.last()))
    } else {
        leads_to(events.drop_last(), remote_id, since, version)
    }
}

/// Whether each change is one of a single buffer.
pub open spec fn are_changes_of_one(events: Seq<EntryView>) -> bool {
    forall|i: int|
        0 <= i < events.len() ==> match (#[trigger] events[i]).event {
            EventView::BufferChange { old_snapshot, new_snapshot } => old_snapshot.remote_id
                == new_snapshot.remote_id,
            _ => true,
        }
}

/// Whether the changes of every buffer since it was opened lead to the state that is on record.
pub open spec fn is_chained(history: HistoryView, opened: Map<u64, int>) -> bool {
    &&& history.is_numbered()
    &&& are_changes_of_one(history.events)
    &&& forall|a: u64, b: u64|
        history.buffers.contains_key(a) && history.buffers.contains_key(b) && a != b ==> (
        #[trigger] history.buffers[a]).remote_id != (#[trigger] history.buffers[b]).remote_id
    &&& forall|id: u64|
        history.buffers.contains_key(id) ==> {
            &&& 0 <= #[trigger] opened[id] < history.next_event_id
            &&& leads_to(
                history.events,
                history.buffers[id].remote_id,
                opened[id],
                history.buffers[id].version,
            )
        }
}

/// Forgetting the oldest event leaves a chain.
proof fn lemma_forget_first(events: Seq<EntryView>, remote_id: u64, since: int, version: Seq<u32>)
    requires
        events.len() > 0,
        leads_to(events, remote_id, since, version),
    ensures
        leads_to(events.drop_first(), remote_id, since, version),
    decreases events.len(),
{
    if events.len() > 1 {
        let rest = events.drop_first();
        assert(rest.drop_last() =~= events.drop_last().drop_first());
        if is_change_of(events.last(), remote_id, since) {
            lemma_forget_first(events.drop_last(), remote_id, since, old_version(events.last()));
        } else {
            lemma_forget_first(events.drop_last(), remote_id, since, version);
        }
    }
}

/// Events before `since` do not count.
proof fn lemma_nothing_since(events: Seq<EntryView>, remote_id: u64, since: int, version: Seq<u32>)
    requires
        forall|i: int| 0 <= i < events.len() ==> (#[trigger] events[i]).id < since,
    ensures
        leads_to(events, remote_id, since, version),
    decreases events.len(),
{
    if events.len() > 0 {
        let earlier = events.drop_last();
        assert forall|i: int| 0 <= i < earlier.len() implies (#[trigger] earlier[i]).id < since by {
            assert(earlier[i] == events[i]);
        }
        lemma_nothing_since(earlier, remote_id, since, version);
        assert(events.last() == events[events.len() - 1]);
    }
}

/// Other events leave the chain of a buffer as it is.
proof fn lemma_push_other(
    history: HistoryView,
    event: EventView,
    remote_id: u64,
    since: int,
    version: Seq<u32>,
)
    requires
        are_changes_of_one(history.events),
        event matches EventView::BufferChange { old_snapshot, .. } ==> old_snapshot.remote_id
            != remote_id,
        leads_to(history.events, remote_id, since, version),
    ensures
        leads_to(history.push_event(event).events, remote_id, since, version),
{
    let pushed = history.push_event(event).events;
    if history.continues_last(event) {
        assert(pushed.drop_last() =~= history.events.drop_last());
        assert(history.events.last() == history.events[history.events.len() - 1]);
    } else {
        let all = history.events.push(EntryView { id: history.next_event_id, event });
        assert(all.drop_last() =~= history.events);
        if all.len() > MAX_EVENTS {
            lemma_forget_first(all, remote_id, since, version);
        }
    }
}

/// A change of a buffer makes its chain longer.
proof fn lemma_push_change(
    history: HistoryView,
    old_snapshot: SnapshotView,
    new_snapshot: SnapshotView,
    since: int,
)
    requires
        history.is_numbered(),
        since < history.next_event_id,
        are_changes_of_one(history.events),
        leads_to(history.events, old_snapshot.remote_id, since, old_snapshot.version),
    ensures
        leads_to(
            history.push_event(EventView::BufferChange { old_snapshot, new_snapshot }).events,
            old_snapshot.remote_id,
            since,
            new_snapshot.version,
        ),
{
    let event = EventView::BufferChange { old_snapshot, new_snapshot };
    let pushed = history.push_event(event).events;
    if history.continues_last(event) {
        assert(history.events.last() == history.events[history.events.len() - 1]);
        assert(pushed.drop_last() =~= history.events.drop_last());
    } else {
        let all = history.events.push(EntryView { id: history.next_event_id, event });
        assert(all.drop_last() =~= history.events);
        if all.len() > MAX_EVENTS {
            lemma_forget_first(all, old_snapshot.remote_id, since, new_snapshot.version);
        }
    }
}

/// Events that are no changes keep all chains.
proof fn lemma_push_keeps_chains(history: HistoryView, event: EventView, opened: Map<u64, int>)
    requires
        is_chained(history, opened),
        !(event is BufferChange),
    ensures
        is_chained(history.push_event(event), opened),
{
    let pushed = history.push_event(event);
    assert forall|id: u64| pushed.buffers.contains_key(id) implies {
        &&& 0 <= #[trigger] opened[id] < pushed.next_event_id
        &&& leads_to(
            pushed.events,
            pushed.buffers[id].remote_id,
            opened[id],
            pushed.buffers[id].version,
        )
    } by {
        lemma_push_other(
            history,
            event,
            history.buffers[id].remote_id,
            opened[id],
            history.buffers[id].version,
        );
    }
}

/// Registering a buffer starts its chain.
proof fn lemma_register_keeps_chains(
    history: HistoryView,
    entity_id: u64,
    snapshot: SnapshotView,
    opened: Map<u64, int>,
)
    requires
        is_chained(history, opened),
        !history.buffers.contains_key(entity_id) ==> is_unknown(history, snapshot.remote_id),
    ensures
        is_chained(
            history.register_buffer(entity_id, snapshot),
            opened_with(history, opened, entity_id),
        ),
{
    if !history.buffers.contains_key(entity_id) {
        let now = opened_with(history, opened, entity_id);
        let known = HistoryView {
            buffers: history.buffers.insert(entity_id, snapshot),
            ..history
        };
        let event = EventView::Open { path: snapshot.shown_path() };
        let pushed = known.push_event(event);
        assert forall|id: u64| pushed.buffers.contains_key(id) implies {
            &&& 0 <= #[trigger] now[id] < pushed.next_event_id
            &&& leads_to(
                pushed.events,
                pushed.buffers[id].remote_id,
                now[id],
                pushed.buffers[id].version,
            )
        } by {
            let buffer = known.buffers[id];
            if id == entity_id {
                lemma_nothing_since(known.events, buffer.remote_id, now[id], buffer.version);
            } else {
                assert(0 <= opened[id]);
            }
            lemma_push_other(known, event, buffer.remote_id, now[id], buffer.version);
        }
    }
}

/// Reporting a buffer makes its chain longer and keeps the others.
proof fn lemma_report_keeps_chains(
    history: HistoryView,
    entity_id: u64,
    snapshot: SnapshotView,
    opened: Map<u64, int>,
)
    requires
        is_chained(history, opened),
        is_known_as(history, entity_id, snapshot),
    ensures
        is_chained(
            history.report_changes(entity_id, snapshot),
            opened_with(history, opened, entity_id),
        ),
{
    lemma_register_keeps_chains(history, entity_id, snapshot, opened);
    let now = opened_with(history, opened, entity_id);
    let known = history.register_buffer(entity_id, snapshot);
    let old_snapshot = known.buffers[entity_id];
    if snapshot.version != old_snapshot.version {
        let noted = HistoryView { buffers: known.buffers.insert(entity_id, snapshot), ..known };
        let event = EventView::BufferChange { old_snapshot, new_snapshot: snapshot };
        let pushed = noted.push_event(event);
        assert forall|id: u64| pushed.buffers.contains_key(id) implies {
            &&& 0 <= #[trigger] now[id] < pushed.next_event_id
            &&& leads_to(
                pushed.events,
                pushed.buffers[id].remote_id,
                now[id],
                pushed.buffers[id].version,
            )
        } by {
            let buffer = known.buffers[id];
            assert(known.buffers.contains_key(id));
            if id == entity_id {
                lemma_push_change(noted, old_snapshot, snapshot, now[id]);
            } else {
                assert(buffer.remote_id != old_snapshot.remote_id);
                lemma_push_other(noted, event, buffer.remote_id, now[id], buffer.version);
            }
        }
        assert forall|a: u64, b: u64|
            pushed.buffers.contains_key(a) && pushed.buffers.contains_key(b) && a != b implies (
        #[trigger] pushed.buffers[a]).remote_id != (#[trigger] pushed.buffers[b]).remote_id by {
            assert(known.buffers[a].remote_id != known.buffers[b].remote_id);
        }
    }
}

/// Letting go of a buffer ends its chain and keeps the others.
proof fn lemma_release_keeps_chains(history: HistoryView, entity_id: u64, opened: Map<u64, int>)
    requires
        is_chained(history, opened),
    ensures
        is_chained(history.release_buffer(entity_id), opened.remove(entity_id)),
{
    let now = opened.remove(entity_id);
    let released = history.release_buffer(entity_id);
    if history.buffers.contains_key(entity_id) {
        if let Some(path) = history.buffers[entity_id].path {
            lemma_push_keeps_chains(history, EventView::Close { path }, opened);
        }
    }
    assert forall|id: u64| released.buffers.contains_key(id) implies {
        &&& 0 <= #[trigger] now[id] < released.next_event_id
        &&& leads_to(
            released.events,
            released.buffers[id].remote_id,
            now[id],
            released.buffers[id].version,
        )
    } by {
        assert(0 <= opened[id]);
    }
    assert forall|a: u64, b: u64|
        released.buffers.contains_key(a) && released.buffers.contains_key(b) && a != b implies (
    #[trigger] released.buffers[a]).remote_id != (#[trigger] released.buffers[b]).remote_id by {
        assert(history.buffers[a].remote_id != history.buffers[b].remote_id);
    }
}

/// Every step keeps the chains of the buffers that stay registered.
pub proof fn law_steps_keep_chains(history: HistoryView, step: Step, opened: Map<u64, int>)
    requires
        is_chained(history, opened),
        step.is_sound(history),
    ensures
        is_chained(step.apply(history), step.open(history, opened)),
{
    match step {
        Step::Register { entity_id, snapshot } => {
            lemma_register_keeps_chains(history, entity_id, snapshot, opened);
        },
        Step::Report { entity_id, snapshot } => {
            lemma_report_keeps_chains(history, entity_id, snapshot, opened);
        },
        Step::Handle { entity_id, snapshot, event } => match event {
            BufferEvent::Edited => {
                lemma_report_keeps_chains(history, entity_id, snapshot, opened);
            },
            BufferEvent::Saved => {
                if let Some(path) = snapshot.path {
                    lemma_push_keeps_chains(history, EventView::Save { path }, opened);
                }
            },
            BufferEvent::Other => {},
        },
        Step::Release { entity_id } => {
            lemma_release_keeps_chains(history, entity_id, opened);
        },
        Step::Push { event } => {
            lemma_push_keeps_chains(history, event, opened);
        },
    }
}

/// After any steps, the changes of each registered buffer lead to the state that is on record.
proof fn lemma_chained_after(steps: Seq<Step>)
    requires
        are_sound(steps),
    ensures
        is_chained(after(steps), opened(steps)),
    decreases steps.len(),
{
    if steps.len() > 0 {
        let earlier = steps.drop_last();
        lemma_chained_after(earlier);
        law_steps_keep_chains(after(earlier), steps.last(), opened(earlier));
    }
}

/// In a chain, a change ends where the next one starts, and the last one at the chain's end.
proof fn lemma_links(
    events: Seq<EntryView>,
    remote_id: u64,
    since: int,
    version: Seq<u32>,
    i: int,
    j: int,
)
    requires
        leads_to(events, remote_id, since, version),
        0 <= i < j <= events.len(),
        is_change_of(events[i], remote_id, since),
        j < events.len() ==> is_change_of(events[j], remote_id, since),
        forall|k: int| i < k < j ==> !is_change_of(#[trigger] events[k], remote_id, since),
    ensures
        new_version(events[i]) == if j < events.len() {
            old_version(events[j])
        } else {
            version
        },
    decreases events.len(),
{
    let earlier = events.drop_last();
    let last = events.len() - 1;
    assert(events.last() == events[last]);
    if i < last {
        let end = if is_change_of(events.last(), remote_id, since) {
            old_version(events.last())
        } else {
            version
        };
        let next = if j <= last {
            j
        } else {
            last
        };
        assert forall|k: int| i < k < next implies !is_change_of(
            #[trigger] earlier[k],
            remote_id,
            since,
        ) by {
            assert(earlier[k] == events[k]);
        }
        lemma_links(earlier, remote_id, since, end, i, next);
    }
}

/// No edit is lost between events or told twice: while a buffer stays registered, each of its
/// changes ends at the version at which the next one starts, and the last one ends at the version
/// that is on record. `i` is a change of the buffer, and `j` the next one, or the end.
pub proof fn law_changes_form_a_chain(steps: Seq<Step>, entity_id: u64, i: int, j: int)
    requires
        are_sound(steps),
        after(steps).buffers.contains_key(entity_id),
        ({
            let events = after(steps).events;
            let remote_id = after(steps).buffers[entity_id].remote_id;
            let since = opened(steps)[entity_id];
            &&& 0 <= i < j <= events.len()
            &&& is_change_of(events[i], remote_id, since)
            &&& j < events.len() ==> is_change_of(events[j], remote_id, since)
            &&& forall|k: int| i < k < j ==> !is_change_of(#[trigger] events[k], remote_id, since)
        }),
    ensures
        new_version(after(steps).events[i]) == if j < after(steps).events.len() {
            old_version(after(steps).events[j])
        } else {
            after(steps).buffers[entity_id].version
        },
{
    lemma_chained_after(steps);
    let history = after(steps);
    let since = opened(steps)[entity_id];
    assert(since < history.next_event_id);
    lemma_links(
        history.events,
        history.buffers[entity_id].remote_id,
        since,
        history.buffers[entity_id].version,
        i,
        j,
    );
}

} // verus!
