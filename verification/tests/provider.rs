use zeta::buffer::{Anchor, Bias, BufferSnapshot};
use zeta::completion::{InlineCompletion, InlineCompletionId};
use zeta::event::Event;
use zeta::provider::{InlayProposal, RefreshId, ZetaInlineCompletionProvider};
use zeta::zeta::{Notification, Zeta};

fn engine() -> Zeta {
    Zeta::new(String::new(), String::new(), String::new())
}

fn completion(text: &str) -> InlineCompletion {
    let at = |offset: usize, bias: Bias| Anchor { offset, bias };
    InlineCompletion {
        id: InlineCompletionId(4),
        path: "f".to_string(),
        edits: vec![
            (at(1, Bias::Right)..at(2, Bias::Left), text.to_string()),
            (at(3, Bias::Right)..at(4, Bias::Left), "more".to_string()),
        ],
        snapshot: BufferSnapshot {
            remote_id: 1,
            version: vec![1],
            path: None,
            text: "abcd".to_string(),
        },
    }
}

fn outcome(text: &str) -> Option<Result<Option<InlineCompletion>, String>> {
    Some(Ok(Some(completion(text))))
}

#[test]
fn refreshes_wait_if_they_are_debounced() {
    let mut provider = ZetaInlineCompletionProvider::new();
    assert_eq!(ZetaInlineCompletionProvider::name(), "Zeta");
    let refresh = provider.refresh(true);
    assert_eq!(refresh.delay_millis, Some(75));
    assert_eq!(refresh.id, RefreshId(0));
    let refresh = provider.refresh(false);
    assert_eq!(refresh.delay_millis, None);
    assert_eq!(refresh.id, RefreshId(1));
}

#[test]
fn only_the_latest_refresh_counts() {
    let mut provider = ZetaInlineCompletionProvider::new();
    let first = provider.refresh(false);
    assert!(provider.is_pending(first.id));
    let second = provider.refresh(false);
    assert!(!provider.is_pending(first.id) && provider.is_pending(second.id));
    assert_eq!(provider.finish_refresh(first.id, outcome("stale")), Notification::Silent);
    assert!(provider.current_completion().is_none());
    assert_eq!(provider.finish_refresh(second.id, outcome("fresh")), Notification::Notify);
    assert_eq!(provider.current_completion().unwrap().edits[0].1, "fresh");
    assert!(!provider.is_pending(second.id));
    assert_eq!(provider.finish_refresh(second.id, outcome("again")), Notification::Silent);
    assert_eq!(provider.current_completion().unwrap().edits[0].1, "fresh");
}

#[test]
fn a_refresh_that_fails_leaves_nothing_on_offer() {
    let failures: [Option<Result<Option<InlineCompletion>, String>>; 3] =
        [None, Some(Ok(None)), Some(Err("down".to_string()))];
    for failure in failures {
        let mut provider = ZetaInlineCompletionProvider::new();
        let refresh = provider.refresh(false);
        provider.finish_refresh(refresh.id, outcome("x"));
        let refresh = provider.refresh(false);
        assert!(provider.current_completion().is_some());
        assert_eq!(provider.finish_refresh(refresh.id, failure), Notification::Notify);
        assert!(provider.current_completion().is_none());
    }
}

#[test]
fn the_completion_is_shown() {
    let mut provider = ZetaInlineCompletionProvider::new();
    assert!(provider.active_completion_text().is_none());
    let refresh = provider.refresh(false);
    provider.finish_refresh(refresh.id, outcome("x"));
    provider.cycle();
    let proposal = provider.active_completion_text().unwrap();
    let range = proposal.delete_range.unwrap();
    assert_eq!(range.start, Anchor { offset: 1, bias: Bias::Right });
    assert_eq!(range.end, Anchor { offset: 2, bias: Bias::Left });
    assert_eq!(proposal.text, "x");
    let inlays: Vec<(usize, &str)> = proposal
        .inlays
        .iter()
        .map(|InlayProposal::Suggestion(position, text)| (position.offset, text.as_str()))
        .collect();
    assert_eq!(inlays, [(2, "x"), (4, "more")]);
}

#[test]
fn accepting_takes_the_completion_off_offer() {
    let mut zeta = engine();
    let mut provider = ZetaInlineCompletionProvider::new();
    assert_eq!(provider.accept(&mut zeta), Notification::Silent);
    let refresh = provider.refresh(false);
    provider.finish_refresh(refresh.id, outcome("x"));
    assert_eq!(provider.accept(&mut zeta), Notification::Notify);
    assert!(provider.current_completion().is_none());
    assert!(zeta.events().is_empty());
}

#[test]
fn a_rejection_is_told_once() {
    let mut zeta = engine();
    let mut provider = ZetaInlineCompletionProvider::new();
    let id = provider.refresh(false).id;
    let _ = provider.finish_refresh(id, outcome("x"));
    assert_eq!(provider.discard(&mut zeta), Notification::Notify);
    assert_eq!(zeta.events().len(), 1);
    assert_eq!(provider.discard(&mut zeta), Notification::Silent);
    assert_eq!(zeta.events().len(), 1);
    let id = provider.refresh(false).id;
    let _ = provider.finish_refresh(id, outcome("y"));
    assert_eq!(provider.accept(&mut zeta), Notification::Notify);
    assert_eq!(provider.discard(&mut zeta), Notification::Silent);
    assert_eq!(zeta.events().len(), 1);
}

#[test]
fn discarding_tells_the_engine() {
    let mut zeta = engine();
    let mut provider = ZetaInlineCompletionProvider::new();
    assert_eq!(provider.discard(&mut zeta), Notification::Silent);
    assert!(zeta.events().is_empty());
    let refresh = provider.refresh(false);
    provider.finish_refresh(refresh.id, outcome("x"));
    assert_eq!(provider.discard(&mut zeta), Notification::Notify);
    assert!(provider.current_completion().is_none());
    match &zeta.events()[0].1 {
        Event::InlineCompletionRejected(completion) => {
            assert_eq!(completion.id, InlineCompletionId(4))
        }
        _ => panic!("expected a rejection"),
    }
}
