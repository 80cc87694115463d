//! The completion that is on offer in an editor.
use core::ops::Range;
use vstd::prelude::*;
use vstd::string::*;

use crate::buffer::Anchor;
use crate::completion::{CompletionView, InlineCompletion};
use crate::zeta::{Notification, Zeta};

verus! {

/// How long to wait for the user to go on typing before a completion is asked for.
pub const DEBOUNCE_TIMEOUT_MILLIS: u64 = 75;

/// The number of a refresh.
#[derive(Clone, Copy, Debug, PartialEq, Eq, Structural)]
pub struct RefreshId(pub u64);

/// What is to be done for a refresh: wait, if there is a delay, and then ask for a completion.
#[derive(Clone, Copy, Debug, PartialEq, Eq, Structural)]
pub struct Refresh {
    pub id: RefreshId,
    pub delay_millis: Option<u64>,
}

/// Text to show in a buffer at a position.
#[derive(Debug)]
pub enum InlayProposal {
    Suggestion(Anchor, String),
}

/// A completion as the editor shows it.
#[derive(Debug)]
pub struct CompletionProposal {
    pub inlays: Vec<InlayProposal>,
    /// What the completion replaces first, and by what.
    pub delete_range: Option<Range<Anchor>>,
    pub text: String,
}

/// Keeps the completion that is on offer.
pub struct ZetaInlineCompletionProvider {
    current_completion: Option<InlineCompletion>,
    pending_refresh: Option<RefreshId>,
    next_refresh_id: RefreshId,
}

/// The contents of a [`ZetaInlineCompletionProvider`].
#[verifier::ext_equal]
pub struct ProviderView {
    pub current_completion: Option<CompletionView>,
    pub pending_refresh: Option<RefreshId>,
    pub next_refresh_id: RefreshId,
}

/// What an optional completion says.
pub open spec fn optional_view(completion: Option<InlineCompletion>) -> Option<CompletionView> {
    match completion {
        Some(completion) => Some(completion@),
        None => None,
    }
}

impl View for ZetaInlineCompletionProvider {
    type V = ProviderView;

    closed spec fn view(&self) -> ProviderView {
        ProviderView {
            current_completion: optional_view(self.current_completion),
            pending_refresh: self.pending_refresh,
            next_refresh_id: self.next_refresh_id,
        }
    }
}

impl ProviderView {
    /// A completion that is on offer has something to edit; a refresh that is under way has been
    /// numbered.
    pub open spec fn wf(self) -> bool {
        &&& self.current_completion matches Some(completion) ==> completion.wf()
        &&& self.pending_refresh matches Some(id) ==> id.0 < self.next_refresh_id.0
    }

    /// The provider once another refresh is under way.
    pub open spec fn refreshing(self) -> ProviderView {
        ProviderView {
            pending_refresh: Some(self.next_refresh_id),
            next_refresh_id: RefreshId((self.next_refresh_id.0 + 1) as u64),
            ..self
        }
    }

    /// The provider once `completion` came of the refresh `id`.
    pub open spec fn finished(self, id: RefreshId, completion: Option<CompletionView>) -> ProviderView {
        if self.pending_refresh == Some(id) {
            ProviderView { current_completion: completion, pending_refresh: None, ..self }
        } else {
            self
        }
    }

    /// The provider once nothing is on offer any more.
    pub open spec fn cleared(self) -> ProviderView {
        ProviderView { current_completion: None, ..self }
    }
}

/// The completion that came of asking for one, if asking was possible and went well.
pub open spec fn refreshed<E>(
    outcome: Option<Result<Option<InlineCompletion>, E>>,
) -> Option<CompletionView> {
    match outcome {
        Some(Ok(completion)) => optional_view(completion),
        _ => None,
    }
}

/// Whether `proposal` shows `completion`: every insertion at the end of what it replaces, and the
/// first edit.
pub open spec fn shows(proposal: CompletionProposal, completion: CompletionView) -> bool {
    &&& proposal.inlays@.len() == completion.edits.len()
    &&& forall|i: int|
        0 <= i < completion.edits.len() ==> match #[trigger] proposal.inlays@[i] {
            InlayProposal::Suggestion(position, text) => position == completion.edits[i].end
                && text@ == completion.edits[i].text,
        }
    &&& proposal.delete_range matches Some(range) && range.start == completion.edits[0].start
        && range.end == completion.edits[0].end
    &&& proposal.text@ == completion.edits[0].text
}

impl ZetaInlineCompletionProvider {
    /// A provider with nothing on offer.
    pub fn new() -> (r: Self)
        ensures
            r@ == (ProviderView {
                current_completion: None,
                pending_refresh: None,
                next_refresh_id: RefreshId(0),
            }),
            r@.wf(),
    {
        ZetaInlineCompletionProvider {
            current_completion: None,
            pending_refresh: None,
            next_refresh_id: RefreshId(0),
        }
    }

    /// What the provider is called.
    pub fn name() -> (r: &'static str)
        ensures
            r@ == "Zeta"@,
    {
        "Zeta"
    }

    /// The completion that is on offer.
    pub fn current_completion(&self) -> (r: Option<&InlineCompletion>)
        ensures
            match r {
                Some(completion) => self@.current_completion == Some(completion@),
                None => self@.current_completion is None,
            },
    {
        self.current_completion.as_ref()
    }

    /// The number that the next refresh gets.
    pub fn next_refresh_id(&self) -> (r: RefreshId)
        ensures
            r == self@.next_refresh_id,
    {
        self.next_refresh_id
    }

    /// Whether a refresh is under way and still counts. One that no longer counts is to ask for
    /// nothing more.
    pub fn is_pending(&self, id: RefreshId) -> (r: bool)
        ensures
            r == (self@.pending_refresh == Some(id)),
    {
        match self.pending_refresh {
            Some(pending) => pending.0 == id.0,
            None => false,
        }
    }

    /// Starts to look for a completion. A refresh that is still under way no longer counts.
    pub fn refresh(&mut self, debounce: bool) -> (r: Refresh)
        requires
            old(self)@.wf(),
            old(self)@.next_refresh_id.0 < u64::MAX,
        ensures
            r.id == old(self)@.next_refresh_id,
            r.delay_millis == if debounce {
                Some(DEBOUNCE_TIMEOUT_MILLIS)
            } else {
                None
            },
            final(self)@ == old(self)@.refreshing(),
            final(self)@.wf(),
    {
        let id = self.next_refresh_id;
        self.next_refresh_id = RefreshId(id.0 + 1);
        self.pending_refresh = Some(id);
        let delay_millis: Option<u64> = if debounce {
            Some(DEBOUNCE_TIMEOUT_MILLIS)
        } else {
            None
        };
        Refresh { id, delay_millis }
    }

    /// Takes what came of a refresh; `None` if no completion could be asked for. What comes of a
    /// refresh that no longer counts is dropped.
    pub fn finish_refresh<E>(
        &mut self,
        id: RefreshId,
        outcome: Option<Result<Option<InlineCompletion>, E>>,
    ) -> (r: Notification)
        requires
            old(self)@.wf(),
            refreshed(outcome) matches Some(completion) ==> completion.wf(),
        ensures
            final(self)@ == old(self)@.finished(id, refreshed(outcome)),
            r == if old(self)@.pending_refresh == Some(id) {
                Notification::Notify
            } else {
                Notification::Silent
            },
            final(self)@.wf(),
    {
        if !self.is_pending(id) {
            return Notification::Silent;
        }
        self.pending_refresh = None;
        self.current_completion = match outcome {
            Some(Ok(completion)) => completion,
            _ => None,
        };
        Notification::Notify
    }

    /// There is only ever one completion on offer, so there is none to go on to.
    pub fn cycle(&mut self)
        ensures
            final(self)@ == old(self)@,
    {
    }

    /// The user takes the completion that is on offer.
    pub fn accept(&mut self, zeta: &mut Zeta) -> (r: Notification)
        ensures
            final(self)@ == old(self)@.cleared(),
            final(zeta)@ == old(zeta)@,
            r == if old(self)@.current_completion is Some {
                Notification::Notify
            } else {
                Notification::Silent
            },
    {
        match self.current_completion.take() {
            Some(completion) => zeta.accept_inline_completion(&completion),
            None => Notification::Silent,
        }
    }

    /// The user turns the completion that is on offer down.
    pub fn discard(&mut self, zeta: &mut Zeta) -> (r: Notification)
        requires
            old(self)@.wf(),
            old(zeta)@.wf(),
            old(self)@.current_completion is Some ==> old(zeta)@.history.next_event_id < usize::MAX,
        ensures
            final(self)@ == old(self)@.cleared(),
            final(zeta)@ == old(zeta)@.rejected(old(self)@.current_completion),
            r == if old(self)@.current_completion is Some {
                Notification::Notify
            } else {
                Notification::Silent
            },
            final(zeta)@.wf(),
    {
        match self.current_completion.take() {
            Some(completion) => zeta.reject_inline_completion(completion),
            None => Notification::Silent,
        }
    }

    /// The completion that is on offer, as the editor shows it.
    pub fn active_completion_text(&self) -> (r: Option<CompletionProposal>)
        requires
            self@.wf(),
        ensures
            match self@.current_completion {
                Some(completion) => r matches Some(proposal) && shows(proposal, completion),
                None => r is None,
            },
    {
        match &self.current_completion {
            None => None,
            Some(completion) => {
                let ghost edits = completion@.edits;
                let mut inlays: Vec<InlayProposal> = Vec::new();
                let mut i: usize = 0;
                while i < completion.edits.len()
                    invariant
                        i <= completion.edits.len(),
                        edits == completion@.edits,
                        inlays.len() == i,
                        forall|k: int|
                            0 <= k < i ==> match #[trigger] inlays@[k] {
                                InlayProposal::Suggestion(position, text) => position
                                    == edits[k].end && text@ == edits[k].text,
                            },
                    decreases completion.edits.len() - i,
                {
                    let position: Anchor = completion.edits[i].0.end;
                    inlays.push(
                        InlayProposal::Suggestion(position, completion.edits[i].1.clone()),
                    );
                    i += 1;
                }
                let start: Anchor = completion.edits[0].0.start;
                let end: Anchor = completion.edits[0].0.end;
                Some(
                    CompletionProposal {
                        inlays,
                        delete_range: Some(start..end),
                        text: completion.edits[0].1.clone(),
                    },
                )
            },
        }
    }
}

} // verus!
