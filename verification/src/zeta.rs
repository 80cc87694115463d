//! The completion engine.
use core::ops::Range;
use std::collections::HashMap;
use vstd::prelude::*;
use vstd::std_specs::hash::*;
use vstd::string::*;
use vstd::utf8::*;

use crate::buffer::{Anchor, Buffer, BufferSnapshot, Edit, SnapshotView};
use crate::chat::{self, CompletionError, MessageView, Prediction, Request, RequestMessage};
use crate::completion::{self, CompletionView, InlineCompletion, InlineCompletionId};
use crate::diff;
use crate::event::{Event, EventView};
use crate::excerpt::{self, CONTEXT_LINES};
use crate::history::{self, BufferEvent, EntryView, HistoryView, MAX_EVENTS};
use crate::hunk;
use crate::pattern;
use crate::rows;
use crate::text;

verus! {

/// The service that is asked if no other is named.
pub const DEFAULT_API_URL: &'static str = "https://api.fireworks.ai/inference/v1";

/// The model that is asked if no other is named.
pub const DEFAULT_MODEL: &'static str = "accounts/fireworks/models/qwen2p5-coder-7b-instruct#accounts/antonio-01403c/deployments/39c3a4c6";

/// Where the events go in the template of a prompt.
pub const EVENTS_PLACEHOLDER: &'static str = "<events>";

/// The number of an event.
#[derive(Clone, Copy, Debug, PartialEq, Eq, Structural)]
pub struct EventId(pub usize);

/// Whether the views of a model have to be told that it changed.
#[derive(Clone, Copy, Debug, PartialEq, Eq, Structural)]
pub enum Notification {
    Silent,
    Notify,
}

/// The completion engine: what it has seen of the user's work, and the service it asks.
pub struct Zeta {
    api_url: String,
    api_key: String,
    model: String,
    events: Vec<(EventId, Event)>,
    next_inline_completion_id: InlineCompletionId,
    next_event_id: EventId,
    registered_buffers: HashMap<u64, BufferSnapshot>,
}

/// The contents of a [`Zeta`].
#[verifier::ext_equal]
pub struct ZetaView {
    pub api_url: Seq<char>,
    pub api_key: Seq<char>,
    pub model: Seq<char>,
    pub next_inline_completion_id: int,
    pub history: HistoryView,
}

/// What a list of numbered events says.
pub open spec fn entries_view(entries: Seq<(EventId, Event)>) -> Seq<EntryView> {
    entries.map_values(|e: (EventId, Event)| EntryView { id: e.0.0 as int, event: e.1@ })
}

/// What a map of snapshots says.
pub open spec fn buffers_view(buffers: Map<u64, BufferSnapshot>) -> Map<u64, SnapshotView> {
    buffers.map_values(|s: BufferSnapshot| s@)
}

impl View for Zeta {
    type V = ZetaView;

    closed spec fn view(&self) -> ZetaView {
        ZetaView {
            api_url: self.api_url@,
            api_key: self.api_key@,
            model: self.model@,
            next_inline_completion_id: self.next_inline_completion_id.0 as int,
            history: HistoryView {
                events: entries_view(self.events@),
                next_event_id: self.next_event_id.0 as int,
                buffers: buffers_view(self.registered_buffers@),
            },
        }
    }
}

impl ZetaView {
    pub open spec fn wf(self) -> bool {
        self.history.wf()
    }

    /// The engine with another history.
    pub open spec fn with_history(self, history: HistoryView) -> ZetaView {
        ZetaView { history, ..self }
    }

    /// The engine once a completion is asked for in a buffer.
    pub open spec fn requested(self, entity_id: u64, snapshot: SnapshotView) -> ZetaView {
        ZetaView {
            next_inline_completion_id: self.next_inline_completion_id + 1,
            history: self.history.report_changes(entity_id, snapshot),
            ..self
        }
    }

    /// The engine once the completion that was on offer, if there was one, is turned down.
    pub open spec fn rejected(self, completion: Option<CompletionView>) -> ZetaView {
        match completion {
            Some(completion) => self.with_history(
                self.history.push_event(EventView::InlineCompletionRejected(completion)),
            ),
            None => self,
        }
    }

    /// The engine after an answer. It remembers that a request came to nothing; errors leave no
    /// trace.
    pub open spec fn resolved(self, pending: PendingCompletion, choices: Seq<MessageView>) -> ZetaView {
        if pending.resolution(choices) == Ok::<Option<CompletionView>, CompletionError>(None) {
            self.with_history(
                self.history.push_event(EventView::NoInlineCompletion { id: pending.id }),
            )
        } else {
            self
        }
    }
}

impl Zeta {
    /// An engine that asks the model `model` of the service at `api_url`.
    pub fn new(api_url: String, api_key: String, model: String) -> (r: Zeta)
        ensures
            r@ == (ZetaView {
                api_url: api_url@,
                api_key: api_key@,
                model: model@,
                next_inline_completion_id: 0,
                history: HistoryView::initial(),
            }),
            r@.wf(),
    {
        broadcast use group_hash_axioms;

        let r = Zeta {
            api_url,
            api_key,
            model,
            events: Vec::new(),
            next_inline_completion_id: InlineCompletionId(0),
            next_event_id: EventId(0),
            registered_buffers: HashMap::new(),
        };
        assert(r@.history.events =~= seq![]);
        assert(r@.history.buffers =~= Map::empty());
        r
    }

    /// An engine that asks the service and the model that are named, or else the default ones.
    pub fn production(api_url: Option<String>, api_key: String, model: Option<String>) -> (r: Zeta)
        ensures
            r@ == (ZetaView {
                api_url: match api_url {
                    Some(url) => url@,
                    None => DEFAULT_API_URL@,
                },
                api_key: api_key@,
                model: match model {
                    Some(model) => model@,
                    None => DEFAULT_MODEL@,
                },
                next_inline_completion_id: 0,
                history: HistoryView::initial(),
            }),
            r@.wf(),
    {
        let url = match api_url {
            Some(url) => url,
            None => DEFAULT_API_URL.to_string(),
        };
        let model = match model {
            Some(model) => model,
            None => DEFAULT_MODEL.to_string(),
        };
        Zeta::new(url, api_key, model)
    }

    /// The events that are remembered, in order.
    pub fn events(&self) -> (r: &Vec<(EventId, Event)>)
        ensures
            entries_view(r@) == self@.history.events,
    {
        &self.events
    }

    /// The number that the next event gets, unless it goes on with the last one.
    pub fn next_event_id(&self) -> (r: EventId)
        ensures
            r.0 == self@.history.next_event_id,
    {
        self.next_event_id
    }

    /// The number that the next completion request gets.
    pub fn next_inline_completion_id(&self) -> (r: InlineCompletionId)
        ensures
            r.0 == self@.next_inline_completion_id,
    {
        self.next_inline_completion_id
    }

    /// The state of a buffer as it was last reported, if the buffer is registered.
    pub fn registered_buffer(&self, entity_id: u64) -> (r: Option<&BufferSnapshot>)
        ensures
            match r {
                Some(snapshot) => self@.history.buffers.contains_key(entity_id)
                    && self@.history.buffers[entity_id] == snapshot@,
                None => !self@.history.buffers.contains_key(entity_id),
            },
    {
        broadcast use group_hash_axioms;

        self.registered_buffers.get(&entity_id)
    }

    /// Remembers an event. Changes of one buffer that follow each other become one change.
    pub fn push_event(&mut self, event: Event)
        requires
            old(self)@.wf(),
            event@.wf(),
            old(self)@.history.push_event(event@).next_event_id <= usize::MAX,
        ensures
            final(self)@ == old(self)@.with_history(old(self)@.history.push_event(event@)),
            final(self)@.wf(),
    {
        let ghost before = self@;
        let n: usize = self.events.len();
        let ghost continues = before.history.continues_last(event@);
        let mut coalesce: bool = false;
        if n > 0 {
            assert(before.history.events.last() == (EntryView {
                id: self.events@[n - 1].0.0 as int,
                event: self.events@[n - 1].1@,
            }));
            if let Event::BufferChange { old_snapshot, .. } = &event {
                if let Event::BufferChange { new_snapshot: last_new_snapshot, .. } =
                    &self.events[n - 1].1 {
                    coalesce = old_snapshot.remote_id == last_new_snapshot.remote_id
                        && old_snapshot.same_version(last_new_snapshot);
                }
            }
        }
        assert(coalesce == continues);
        if coalesce {
            if let Some((id, last_event)) = self.events.pop() {
                if let Event::BufferChange { old_snapshot, .. } = last_event {
                    if let Event::BufferChange { new_snapshot, .. } = event {
                        self.events.push((id, Event::BufferChange { old_snapshot, new_snapshot }));
                    }
                }
            }
            assert(self@.history.events =~= before.history.push_event(event@).events);
            assert(self@ =~= before.with_history(before.history.push_event(event@)));
            return;
        }
        let id = self.next_event_id;
        self.next_event_id = EventId(id.0 + 1);
        self.events.push((id, event));
        assert(self@.history.events =~= before.history.events.push(
            EntryView { id: before.history.next_event_id, event: event@ },
        ));
        if self.events.len() > MAX_EVENTS {
            let ghost all = self@.history.events;
            let _ = self.events.remove(0);
            assert(self@.history.events =~= all.drop_first());
        }
        assert(self@ =~= before.with_history(before.history.push_event(event@)));
    }

    /// Gets to know a buffer. One that is known already is left as it is.
    pub fn register_buffer(&mut self, buffer: &Buffer)
        requires
            old(self)@.wf(),
            buffer.snapshot@.fits(),
            old(self)@.history.register_buffer(buffer.entity_id, buffer.snapshot@).next_event_id
                <= usize::MAX,
        ensures
            final(self)@ == old(self)@.with_history(
                old(self)@.history.register_buffer(buffer.entity_id, buffer.snapshot@),
            ),
            final(self)@.wf(),
            final(self)@.history.buffers.contains_key(buffer.entity_id),
    {
        broadcast use group_hash_axioms;

        let ghost before = self@;
        if !self.registered_buffers.contains_key(&buffer.entity_id) {
            let snapshot = buffer.snapshot.clone();
            self.registered_buffers.insert(buffer.entity_id, snapshot);
            assert(self@.history.buffers =~= before.history.buffers.insert(
                buffer.entity_id,
                buffer.snapshot@,
            ));
            self.push_event(Event::Open { path: buffer.snapshot.shown_path().to_string() });
        }
        assert(self@ =~= before.with_history(
            before.history.register_buffer(buffer.entity_id, buffer.snapshot@),
        ));
    }

    /// Forgets a buffer that the editor has let go of.
    pub fn release_buffer(&mut self, entity_id: u64)
        requires
            old(self)@.wf(),
            old(self)@.history.release_buffer(entity_id).next_event_id <= usize::MAX,
        ensures
            final(self)@ == old(self)@.with_history(
                old(self)@.history.release_buffer(entity_id),
            ),
            final(self)@.wf(),
    {
        broadcast use group_hash_axioms;

        let ghost before = self@;
        let mut path: Option<String> = None;
        if let Some(snapshot) = self.registered_buffers.get(&entity_id) {
            if let Some(file) = &snapshot.path {
                path = Some(file.clone());
            }
        }
        if let Some(path) = path {
            self.push_event(Event::Close { path });
        }
        let ghost closed = self@;
        self.registered_buffers.remove(&entity_id);
        assert(self@.history.buffers =~= closed.history.buffers.remove(entity_id));
        assert(self@ =~= before.with_history(before.history.release_buffer(entity_id)));
    }

    /// Takes note of the state of a buffer, and remembers how it changed since the last time.
    /// Returns that state.
    pub fn report_changes_for_buffer(&mut self, buffer: &Buffer) -> (r: BufferSnapshot)
        requires
            old(self)@.wf(),
            buffer.snapshot@.fits(),
            old(self)@.history.report_changes(buffer.entity_id, buffer.snapshot@).next_event_id
                <= usize::MAX,
        ensures
            final(self)@ == old(self)@.with_history(
                old(self)@.history.report_changes(buffer.entity_id, buffer.snapshot@),
            ),
            final(self)@.wf(),
            r@ == buffer.snapshot@,
    {
        broadcast use group_hash_axioms;

        let ghost before = self@;
        self.register_buffer(buffer);
        let ghost known = self@;
        let changed = match self.registered_buffers.get(&buffer.entity_id) {
            Some(snapshot) => !buffer.snapshot.same_version(snapshot),
            None => false,
        };
        if changed {
            let new_snapshot = buffer.snapshot.clone();
            if let Some(old_snapshot) = self.registered_buffers.insert(
                buffer.entity_id,
                buffer.snapshot.clone(),
            ) {
                assert(self@.history.buffers =~= known.history.buffers.insert(
                    buffer.entity_id,
                    buffer.snapshot@,
                ));
                assert(known.history.buffers[buffer.entity_id] == old_snapshot@);
                assert(known.history.buffers[buffer.entity_id].fits());
                self.push_event(Event::BufferChange { old_snapshot, new_snapshot });
            }
        }
        assert(self@ =~= before.with_history(
            before.history.report_changes(buffer.entity_id, buffer.snapshot@),
        ));
        buffer.snapshot.clone()
    }

    /// Takes note of something that happened to a buffer.
    pub fn handle_buffer_event(&mut self, buffer: &Buffer, event: BufferEvent)
        requires
            old(self)@.wf(),
            buffer.snapshot@.fits(),
            old(self)@.history.handle_buffer_event(
                buffer.entity_id,
                buffer.snapshot@,
                event,
            ).next_event_id <= usize::MAX,
        ensures
            final(self)@ == old(self)@.with_history(
                old(self)@.history.handle_buffer_event(
                    buffer.entity_id,
                    buffer.snapshot@,
                    event,
                ),
            ),
            final(self)@.wf(),
    {
        match event {
            BufferEvent::Edited => {
                let _ = self.report_changes_for_buffer(buffer);
            },
            BufferEvent::Saved => {
                if let Some(path) = &buffer.snapshot.path {
                    self.push_event(Event::Save { path: path.clone() });
                }
            },
            BufferEvent::Other => {},
        }
    }

    /// The user took a completion.
    pub fn accept_inline_completion(&mut self, _completion: &InlineCompletion) -> (r: Notification)
        ensures
            final(self)@ == old(self)@,
            r == Notification::Notify,
    {
        Notification::Notify
    }

    /// The user turned a completion down.
    pub fn reject_inline_completion(&mut self, completion: InlineCompletion) -> (r: Notification)
        requires
            old(self)@.wf(),
            completion@.wf(),
            old(self)@.history.push_event(
                EventView::InlineCompletionRejected(completion@),
            ).next_event_id <= usize::MAX,
        ensures
            final(self)@ == old(self)@.rejected(Some(completion@)),
            final(self)@.wf(),
            r == Notification::Notify,
    {
        self.push_event(Event::InlineCompletionRejected(completion));
        Notification::Notify
    }
}

/// A completion that the service has been asked for.
#[derive(Debug)]
pub struct PendingCompletion {
    pub id: InlineCompletionId,
    pub path: String,
    /// The state of the buffer that the completion is for.
    pub snapshot: BufferSnapshot,
    /// The bytes of the buffer that the model is shown.
    pub excerpt_range: Range<usize>,
    pub api_url: String,
    pub api_key: String,
    pub request: Request,
}

impl PendingCompletion {
    /// Whether the excerpt is a slice of the buffer.
    pub open spec fn wf(&self) -> bool {
        &&& self.snapshot@.is_offset(self.excerpt_range.start as int)
        &&& self.snapshot@.is_offset(self.excerpt_range.end as int)
        &&& self.excerpt_range.start <= self.excerpt_range.end
    }

    /// The text of the excerpt.
    pub open spec fn excerpt(&self) -> Seq<char> {
        text::slice(
            self.snapshot@.text,
            self.excerpt_range.start as int,
            self.excerpt_range.end as int,
        )
    }

    /// The bytes of the buffer with the excerpt replaced by `new_text`.
    pub open spec fn replaced(&self, new_text: Seq<char>) -> Seq<u8> {
        self.snapshot@.bytes().take(self.excerpt_range.start as int) + encode_utf8(new_text)
            + self.snapshot@.bytes().skip(self.excerpt_range.end as int)
    }

    /// The completion that makes `edits`.
    pub open spec fn completed(&self, edits: Seq<diff::EditView>) -> CompletionView {
        CompletionView {
            id: self.id,
            path: self.path@,
            edits: completion::anchor_edits(edits),
            snapshot: self.snapshot@,
        }
    }

    /// What comes of an answer that offers `choices`: nothing, if the model suggests the excerpt
    /// as it is.
    pub open spec fn resolution(&self, choices: Seq<MessageView>) -> Result<
        Option<CompletionView>,
        CompletionError,
    > {
        match chat::suggested_text(choices) {
            Err(error) => Err(error),
            Ok(new_text) => if new_text == self.excerpt() {
                Ok(None)
            } else {
                Ok(
                    Some(
                        self.completed(
                            diff::edits_of(
                                diff::word_diff(self.excerpt(), new_text),
                                self.excerpt_range.start as int,
                            ),
                        ),
                    ),
                )
            },
        }
    }
}

/// What a completion, or the reason why there is none, says.
pub open spec fn completion_result(
    result: Result<Option<InlineCompletion>, CompletionError>,
) -> Result<Option<CompletionView>, CompletionError> {
    match result {
        Ok(Some(completion)) => Ok(Some(completion@)),
        Ok(None) => Ok(None),
        Err(error) => Err(error),
    }
}

/// What a list of prompts says, with a blank line behind each.
pub open spec fn joined_prompts(prompts: Seq<String>) -> Seq<char>
    decreases prompts.len(),
{
    if prompts.len() == 0 {
        seq![]
    } else {
        joined_prompts(prompts.drop_last()) + prompts.last()@ + "\n\n"@
    }
}

/// The request that shows the model `template`, with the events in their place, and `excerpt`.
pub open spec fn is_request_for(
    request: Request,
    model: Seq<char>,
    template: Seq<char>,
    events: Seq<char>,
    excerpt: Seq<char>,
) -> bool {
    &&& request.model@ == model
    &&& chat::messages_view(request.messages@) == seq![
        MessageView::System {
            content: pattern::replace_all(template, EVENTS_PLACEHOLDER@, events),
        },
        MessageView::User { content: excerpt },
    ]
    &&& !request.stream
    &&& request.max_tokens is None
    &&& request.stop@.len() == 0
    &&& request.prediction matches Some(Prediction::Content { content }) && content@ == excerpt
}

/// Whether `request` shows the model `template`, with a prompt for `events` in its place, and
/// `excerpt`.
pub open spec fn tells_events(
    request: Request,
    model: Seq<char>,
    template: Seq<char>,
    events: Seq<EntryView>,
    edits: Seq<Vec<Edit>>,
    excerpt: Seq<char>,
) -> bool {
    exists|prompt: Seq<char>|
        history::is_events_prompt(events, edits, prompt) && #[trigger] is_request_for(
            request,
            model,
            template,
            prompt,
            excerpt,
        )
}

/// Joins the prompts of events.
pub fn join_prompts(prompts: &Vec<String>) -> (r: String)
    ensures
        r@ == joined_prompts(prompts@),
{
    let mut r = String::new();
    let mut i: usize = 0;
    assert(prompts@.take(0) =~= seq![]);
    while i < prompts.len()
        invariant
            i <= prompts.len(),
            r@ == joined_prompts(prompts@.take(i as int)),
        decreases prompts.len() - i,
    {
        r.append(prompts[i].as_str());
        r.append("\n\n");
        assert(prompts@.take(i + 1).drop_last() =~= prompts@.take(i as int));
        i += 1;
    }
    assert(prompts@.take(i as int) =~= prompts@);
    r
}

/// The request that shows the model `template`, with the events in their place, and `excerpt`.
pub fn completion_request(model: &str, template: &str, events: &str, excerpt: String) -> (r: Request)
    ensures
        is_request_for(r, model@, template@, events@, excerpt@),
{
    proof {
        reveal_strlit("<events>");
    }
    let prompt = pattern::replace(template, EVENTS_PLACEHOLDER, events);
    let mut messages: Vec<RequestMessage> = Vec::new();
    messages.push(RequestMessage::System { content: prompt });
    messages.push(RequestMessage::User { content: excerpt.clone() });
    assert(chat::messages_view(messages@) =~= seq![
        MessageView::System {
            content: pattern::replace_all(template@, EVENTS_PLACEHOLDER@, events@),
        },
        MessageView::User { content: excerpt@ },
    ]);
    Request {
        model: model.to_string(),
        messages,
        stream: false,
        max_tokens: None,
        stop: Vec::new(),
        prediction: Some(Prediction::Content { content: excerpt }),
    }
}

/// The prompts of the events, joined, are what the model sees of them.
proof fn lemma_joined_prompts(
    prompts: Seq<String>,
    events: Seq<EntryView>,
    edits: Seq<Vec<Edit>>,
    renamed: Seq<bool>,
    n: int,
)
    requires
        0 <= n <= events.len(),
        prompts.len() == events.len(),
        forall|i: int|
            0 <= i < events.len() ==> (#[trigger] prompts[i])@ == events[i].event.prompt(
                edits[i]@,
                renamed[i],
            ),
    ensures
        joined_prompts(prompts.take(n)) == history::events_prompt(events.take(n), edits, renamed),
    decreases n,
{
    if n > 0 {
        lemma_joined_prompts(prompts, events, edits, renamed, n - 1);
        assert(prompts.take(n).drop_last() =~= prompts.take(n - 1));
        assert(events.take(n).drop_last() =~= events.take(n - 1));
        assert(prompts.take(n).last() == prompts[n - 1]);
    }
}

/// Edits of the excerpt make a completion, and applying it replaces the excerpt.
proof fn lemma_completion(
    pending: PendingCompletion,
    new_text: Seq<char>,
    edits: Seq<diff::EditView>,
)
    requires
        pending.wf(),
        edits.len() > 0,
        ({
            let start = pending.excerpt_range.start as int;
            let old_text = pending.excerpt();
            &&& diff::are_separate(edits, start, start + encode_utf8(old_text).len())
            &&& forall|i: int|
                0 <= i < edits.len() ==> text::is_offset(
                    old_text,
                    (#[trigger] edits[i]).start - start,
                ) && text::is_offset(old_text, edits[i].end - start)
            &&& forall|head: Seq<u8>, tail: Seq<u8>|
                head.len() == start ==> #[trigger] diff::apply_edits(
                    head + encode_utf8(old_text) + tail,
                    edits,
                ) == head + encode_utf8(new_text) + tail
        }),
    ensures
        pending.completed(edits).wf(),
        completion::resolve_edits(pending.completed(edits).edits) == edits,
        pending.completed(edits).applied() == pending.replaced(new_text),
{
    let text = pending.snapshot@.text;
    let bytes = pending.snapshot@.bytes();
    let start = pending.excerpt_range.start as int;
    let end = pending.excerpt_range.end as int;
    let old_text = pending.excerpt();
    encode_utf8_valid_utf8(text);
    is_char_boundary_start_end_of_seq(bytes);
    text::lemma_slice_bytes(text, start, end);
    completion::lemma_anchor_round_trip(edits);
    let head = bytes.take(start);
    let tail = bytes.skip(end);
    assert(bytes =~= head + encode_utf8(old_text) + tail);
    assert(diff::apply_edits(head + encode_utf8(old_text) + tail, edits) == head + encode_utf8(
        new_text,
    ) + tail);
    let before = text::slice(text, 0, start);
    let after = text::slice(text, end, bytes.len() as int);
    text::lemma_slice_bytes(text, 0, start);
    text::lemma_slice_bytes(text, 0, bytes.len() as int);
    text::lemma_slice_join(text, 0, start, end);
    text::lemma_slice_join(text, 0, end, bytes.len() as int);
    assert(bytes.subrange(0, bytes.len() as int) =~= bytes);
    text::lemma_encode_injective(text, text::slice(text, 0, bytes.len() as int));
    assert(text == before + old_text + after);
    let made = pending.completed(edits);
    assert forall|i: int| 0 <= i < made.edits.len() implies made.snapshot.is_offset(
        (#[trigger] made.edits[i]).start.offset as int,
    ) && made.snapshot.is_offset(made.edits[i].end.offset as int) by {
        let edit = edits[i];
        text::lemma_offset_in_piece(before, old_text, after, edit.start - start);
        text::lemma_offset_in_piece(before, old_text, after, edit.end - start);
    }
}

impl Zeta {
    /// The events as the model sees them; `edits` holds, for each event, the edits between the
    /// two states of a changed buffer.
    pub fn events_prompt(&self, edits: &Vec<Vec<Edit>>) -> (r: String)
        requires
            self@.wf(),
            edits.len() == self@.history.events.len(),
            history::all_edits_fit(edits@),
        ensures
            history::is_events_prompt(self@.history.events, edits@, r@),
    {
        let mut prompts: Vec<String> = Vec::new();
        let mut i: usize = 0;
        let ghost events = self@.history.events;
        let ghost mut renamed: Seq<bool> = seq![];
        while i < self.events.len()
            invariant
                self@.wf(),
                events == self@.history.events,
                edits.len() == events.len(),
                events.len() == self.events.len(),
                history::all_edits_fit(edits@),
                i <= self.events.len(),
                prompts.len() == i,
                renamed.len() == i,
                forall|k: int|
                    0 <= k < i ==> (#[trigger] prompts@[k])@ == events[k].event.prompt(
                        edits@[k]@,
                        renamed[k],
                    ),
                forall|k: int|
                    0 <= k < i ==> (#[trigger] events[k]).event.may_rename(renamed[k]),
                forall|k: int|
                    0 <= k < i && (#[trigger] events[k]).event.is_portable() ==> renamed[k]
                        == events[k].event.renames(),
            decreases self.events.len() - i,
        {
            assert(events[i as int].event == self.events@[i as int].1@);
            assert(events[i as int].event.wf());
            assert(hunk::edits_fit(edits@[i as int]@));
            let prompt = self.events[i].1.to_prompt(&edits[i]);
            proof {
                let event = events[i as int].event;
                let answer = choose|answer: bool|
                    event.may_rename(answer) && prompt@ == #[trigger] event.prompt(
                        edits@[i as int]@,
                        answer,
                    );
                renamed = renamed.push(answer);
            }
            prompts.push(prompt);
            i += 1;
        }
        proof {
            lemma_joined_prompts(prompts@, events, edits@, renamed, i as int);
            assert(prompts@.take(i as int) =~= prompts@);
            assert(events.take(i as int) =~= events);
            assert(history::may_rename(events, renamed));
            if history::are_portable(events) {
                assert(renamed =~= history::renames(events));
            }
        }
        join_prompts(&prompts)
    }

    /// Asks for a completion at `position` in a buffer: takes note of the buffer's state and says
    /// what the service is to be asked.
    ///
    /// `edits` holds, for each event that is remembered once the buffer is reported, the edits
    /// between the two states of a changed buffer. `template` is the prompt, with a place for the
    /// events.
    pub fn request_inline_completion(
        &mut self,
        buffer: &Buffer,
        position: Anchor,
        edits: &Vec<Vec<Edit>>,
        template: &str,
    ) -> (r: PendingCompletion)
        requires
            old(self)@.wf(),
            buffer.snapshot@.fits(),
            buffer.snapshot@.is_offset(position.offset as int),
            rows::row_at(buffer.snapshot@.bytes(), position.offset as int) + CONTEXT_LINES
                <= u32::MAX,
            old(self)@.history.report_changes(buffer.entity_id, buffer.snapshot@).next_event_id
                <= usize::MAX,
            old(self)@.next_inline_completion_id < usize::MAX,
            edits.len() == old(self)@.history.report_changes(
                buffer.entity_id,
                buffer.snapshot@,
            ).events.len(),
            history::all_edits_fit(edits@),
        ensures
            ({
                let history = old(self)@.history.report_changes(
                    buffer.entity_id,
                    buffer.snapshot@,
                );
                let (start, end) = excerpt::excerpt_range(
                    buffer.snapshot@.bytes(),
                    rows::row_at(buffer.snapshot@.bytes(), position.offset as int) as int,
                );
                let shown = excerpt::excerpt_prompt(
                    buffer.snapshot@.shown_path(),
                    text::slice(buffer.snapshot@.text, start, position.offset as int),
                    text::slice(buffer.snapshot@.text, position.offset as int, end),
                );
                &&& final(self)@ == old(self)@.requested(buffer.entity_id, buffer.snapshot@)
                &&& r.id.0 == old(self)@.next_inline_completion_id
                &&& r.path@ == buffer.snapshot@.shown_path()
                &&& r.snapshot@ == buffer.snapshot@
                &&& r.excerpt_range.start == start
                &&& r.excerpt_range.end == end
                &&& r.api_url@ == old(self)@.api_url
                &&& r.api_key@ == old(self)@.api_key
                &&& tells_events(
                    r.request,
                    old(self)@.model,
                    template@,
                    history.events,
                    edits@,
                    shown,
                )
            }),
            final(self)@.wf(),
            r.wf(),
    {
        let snapshot = self.report_changes_for_buffer(buffer);
        let ghost reported = self@;
        let path = snapshot.shown_path().to_string();
        let id = self.next_inline_completion_id;
        self.next_inline_completion_id = InlineCompletionId(id.0 + 1);
        assert(self@ =~= (ZetaView {
            next_inline_completion_id: reported.next_inline_completion_id + 1,
            ..reported
        }));
        let events = self.events_prompt(edits);
        proof {
            crate::buffer::lemma_point_round_trip(snapshot@.text, position.offset as int);
        }
        let point = snapshot.offset_to_point(position.offset);
        let offset: usize = snapshot.point_to_offset(point);
        let excerpt_range = excerpt::excerpt_range_for_position(point, &snapshot);
        let prompt_excerpt = excerpt::prompt_for_excerpt(&snapshot, &excerpt_range, offset);
        let request = completion_request(
            self.model.as_str(),
            template,
            events.as_str(),
            prompt_excerpt,
        );
        assert(history::is_events_prompt(self@.history.events, edits@, events@));
        assert(is_request_for(request, self@.model, template@, events@, prompt_excerpt@));
        assert(tells_events(
            request,
            self@.model,
            template@,
            self@.history.events,
            edits@,
            prompt_excerpt@,
        ));
        PendingCompletion {
            id,
            path,
            snapshot,
            excerpt_range,
            api_url: self.api_url.clone(),
            api_key: self.api_key.clone(),
            request,
        }
    }

    /// The completion that makes `edits`; without any, the engine remembers that there was
    /// nothing to suggest.
    pub fn completion_from_edits(
        &mut self,
        pending: PendingCompletion,
        edits: Vec<(Range<usize>, String)>,
    ) -> (r: Option<InlineCompletion>)
        requires
            old(self)@.wf(),
            edits@.len() == 0 ==> old(self)@.history.next_event_id < usize::MAX,
        ensures
            match r {
                Some(completion) => edits@.len() > 0 && completion@ == pending.completed(
                    diff::edits_view(edits@),
                ) && final(self)@ == old(self)@,
                None => edits@.len() == 0 && final(self)@ == old(self)@.with_history(
                    old(self)@.history.push_event(
                        EventView::NoInlineCompletion { id: pending.id },
                    ),
                ),
            },
            final(self)@.wf(),
    {
        if edits.len() == 0 {
            self.push_event(Event::NoInlineCompletion { id: pending.id });
            None
        } else {
            Some(
                InlineCompletion {
                    id: pending.id,
                    path: pending.path,
                    edits: completion::anchor_ranges(edits),
                    snapshot: pending.snapshot,
                },
            )
        }
    }

    /// Reads the completion from the choices that the service answered with.
    ///
    /// What the model suggests is compared with the excerpt word by word. If they are the same
    /// there is no completion. Otherwise the completion replaces the excerpt by what the model
    /// suggests, and leaves the rest of the buffer as it is.
    pub fn resolve_inline_completion(
        &mut self,
        pending: PendingCompletion,
        choices: Vec<RequestMessage>,
    ) -> (r: Result<Option<InlineCompletion>, CompletionError>)
        requires
            old(self)@.wf(),
            pending.wf(),
            chat::suggested_text(chat::messages_view(choices@)) == Ok::<
                Seq<char>,
                CompletionError,
            >(pending.excerpt()) ==> old(self)@.history.next_event_id < usize::MAX,
            chat::suggested_text(chat::messages_view(choices@)) matches Ok(new_text)
                ==> pending.excerpt().len() + new_text.len() <= u32::MAX,
        ensures
            completion_result(r) == pending.resolution(chat::messages_view(choices@)),
            final(self)@ == old(self)@.resolved(pending, chat::messages_view(choices@)),
            match chat::suggested_text(chat::messages_view(choices@)) {
                Err(error) => r == Err::<Option<InlineCompletion>, CompletionError>(error)
                    && final(self)@ == old(self)@,
                Ok(new_text) => if new_text == text::slice(
                    pending.snapshot@.text,
                    pending.excerpt_range.start as int,
                    pending.excerpt_range.end as int,
                ) {
                    &&& r matches Ok(None)
                    &&& final(self)@ == old(self)@.with_history(
                        old(self)@.history.push_event(
                            EventView::NoInlineCompletion { id: pending.id },
                        ),
                    )
                } else {
                    r matches Ok(Some(_)) && final(self)@ == old(self)@
                },
            },
            r matches Ok(Some(completion)) ==> {
                let edits = completion::resolve_edits(completion@.edits);
                &&& completion@.wf()
                &&& completion@.id == pending.id
                &&& completion@.path == pending.path@
                &&& completion@.snapshot == pending.snapshot@
                &&& diff::are_separate(
                    edits,
                    pending.excerpt_range.start as int,
                    pending.excerpt_range.end as int,
                )
                &&& diff::are_effective(edits)
                &&& chat::suggested_text(chat::messages_view(choices@)) matches Ok(new_text)
                &&& completion@.applied() == pending.replaced(new_text)
                &&& completion@.applied() == encode_utf8(pending.snapshot@.text).take(
                    pending.excerpt_range.start as int,
                ) + encode_utf8(new_text) + encode_utf8(pending.snapshot@.text).skip(
                    pending.excerpt_range.end as int,
                )
                &&& completion@.edits == completion::anchor_edits(
                    diff::edits_of(
                        diff::word_diff(pending.excerpt(), new_text),
                        pending.excerpt_range.start as int,
                    ),
                )
            },
            final(self)@.wf(),
    {
        match chat::extract_suggestion(choices) {
            Err(error) => Err(error),
            Ok(new_text) => {
                let start: usize = pending.excerpt_range.start;
                let end: usize = pending.excerpt_range.end;
                let old_text = pending.snapshot.text_for_range(start..end);
                proof {
                    text::lemma_slice_bytes(pending.snapshot@.text, start as int, end as int);
                }
                let edits = diff::edits_between(old_text, new_text.as_str(), start);
                proof {
                    if edits@.len() > 0 {
                        lemma_completion(pending, new_text@, diff::edits_view(edits@));
                    }
                }
                Ok(self.completion_from_edits(pending, edits))
            },
        }
    }
}

} // verus!
