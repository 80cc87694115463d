use zeta::buffer::{Anchor, Bias, Buffer, BufferSnapshot, Edit, Point};
use zeta::chat::{CompletionError, Prediction, RequestMessage};
use zeta::completion::{InlineCompletion, InlineCompletionId};
use zeta::diff::{edits_between, edits_from_changes, Change, ChangeTag};
use zeta::event::Event;
use zeta::zeta::{PendingCompletion, Zeta};

const QUICKSORT: &str = "use std::cmp::Ord;

pub fn quicksort<T: Ord>(arr: &mut [T]) {
    let len = arr.len();
    if len <= 1 {
        return;
    }

    let pivot_index = partition(arr);
    
}
";

fn engine() -> Zeta {
    Zeta::new("url".to_string(), "key".to_string(), "model".to_string())
}

fn buffer(path: &str, text: &str, version: u32) -> Buffer {
    Buffer {
        entity_id: 5,
        snapshot: BufferSnapshot {
            remote_id: 1,
            version: vec![version],
            path: Some(path.to_string()),
            text: text.to_string(),
        },
    }
}

fn at(offset: usize) -> Anchor {
    Anchor { offset, bias: Bias::Left }
}

fn assistant(content: &str) -> Vec<RequestMessage> {
    vec![RequestMessage::Assistant { content: Some(content.to_string()) }]
}

/// The text of the buffer once the completion is applied.
fn apply(completion: &InlineCompletion) -> String {
    let mut text = completion.snapshot.text.clone();
    for (range, new_text) in completion.edits.iter().rev() {
        text.replace_range(range.start.offset..range.end.offset, new_text);
    }
    text
}

/// A request at the start of a buffer that nothing else is known of.
fn request(zeta: &mut Zeta, text: &str) -> PendingCompletion {
    let edits: Vec<Vec<Edit>> = vec![Vec::new()];
    zeta.request_inline_completion(&buffer("main.rs", text, 1), at(0), &edits, "<events>")
}

fn resolve(text: &str, choices: Vec<RequestMessage>) -> Result<Option<InlineCompletion>, CompletionError> {
    let mut zeta = engine();
    let pending = request(&mut zeta, text);
    zeta.resolve_inline_completion(pending, choices)
}

fn error_of(choices: Vec<RequestMessage>) -> CompletionError {
    match resolve("text", choices) {
        Err(error) => error,
        Ok(_) => panic!("expected an error"),
    }
}

#[test]
fn the_model_is_shown_the_events_and_the_excerpt() {
    let mut zeta = engine();
    let cursor = QUICKSORT.find("\n}\n").unwrap();
    let edits: Vec<Vec<Edit>> = vec![Vec::new()];
    let pending = zeta.request_inline_completion(
        &buffer("quicksort.rs", QUICKSORT, 1),
        at(cursor),
        &edits,
        "Events:\n<events>Go on.",
    );
    assert_eq!(pending.id, InlineCompletionId(0));
    assert_eq!(zeta.next_inline_completion_id(), InlineCompletionId(1));
    assert_eq!(pending.path, "quicksort.rs");
    assert_eq!(pending.api_url, "url");
    assert_eq!(pending.api_key, "key");
    assert_eq!(pending.excerpt_range, 0..QUICKSORT.len() - 1);
    let request = pending.request;
    assert_eq!(request.model, "model");
    assert!(!request.stream);
    assert_eq!(request.max_tokens, None);
    assert!(request.stop.is_empty());
    assert_eq!(request.messages.len(), 2);
    match &request.messages[0] {
        RequestMessage::System { content } => {
            assert_eq!(content, "Events:\nUser opened file: \"quicksort.rs\"\n\nGo on.")
        }
        other => panic!("{other:?}"),
    }
    let excerpt = format!(
        "```quicksort.rs\n{}<|user_cursor_is_here|>\n}}\n```",
        &QUICKSORT[..cursor]
    );
    match &request.messages[1] {
        RequestMessage::User { content } => assert_eq!(*content, excerpt),
        other => panic!("{other:?}"),
    }
    match &request.prediction {
        Some(Prediction::Content { content }) => assert_eq!(*content, excerpt),
        None => panic!("no prediction"),
    }
}

#[test]
fn changes_come_with_their_edits() {
    let mut zeta = engine();
    zeta.register_buffer(&buffer("main.rs", "a\n", 1));
    let edited = buffer("main.rs", "b\n", 2);
    let row = |row: u32| Point { row, column: 0 };
    let edits = vec![Vec::new(), vec![Edit { old: row(0)..row(0), new: row(0)..row(0) }]];
    let pending = zeta.request_inline_completion(&edited, at(1), &edits, "<events>");
    match &pending.request.messages[0] {
        RequestMessage::System { content } => assert_eq!(
            content,
            "User opened file: \"main.rs\"\n\nUser edited \"main.rs\":\n\n\
             <<<<<<< ORIGINAL\na\n\n=======\nb\n\n>>>>>>> UPDATED\n\n\n\n\n"
        ),
        other => panic!("{other:?}"),
    }
}

#[test]
fn applying_a_completion_replaces_the_excerpt() {
    let mut zeta = engine();
    let cursor = QUICKSORT.find("\n}\n").unwrap();
    let edits: Vec<Vec<Edit>> = vec![Vec::new()];
    let pending = zeta.request_inline_completion(
        &buffer("quicksort.rs", QUICKSORT, 1),
        at(cursor),
        &edits,
        "",
    );
    let mut suggestion = QUICKSORT[..cursor].to_string();
    suggestion.push_str("quicksort(&mut arr[..pivot_index]);\n    quicksort(&mut arr[pivot_index + 1..]);\n}");
    let answer = format!("```quicksort.rs\n{suggestion}<|user_cursor_is_here|>\n```\n");
    let completion = match zeta.resolve_inline_completion(pending, assistant(&answer)) {
        Ok(Some(completion)) => completion,
        _ => panic!("expected a completion"),
    };
    assert_eq!(completion.id, InlineCompletionId(0));
    assert_eq!(completion.path, "quicksort.rs");
    assert_eq!(apply(&completion), format!("{suggestion}\n"));
    for (range, _) in &completion.edits {
        assert_eq!(range.start.bias, Bias::Right);
        assert_eq!(range.end.bias, Bias::Left);
    }
    // Nothing but the opening of the buffer is remembered.
    assert_eq!(zeta.events().len(), 1);
}

#[test]
fn what_lies_outside_the_excerpt_stays() {
    let rows: Vec<String> = (0..100).map(|i| format!("räw {i}")).collect();
    let text = rows.join("\n");
    let mut zeta = engine();
    let cursor = text.find("räw 50").unwrap();
    let edits: Vec<Vec<Edit>> = vec![Vec::new()];
    let pending =
        zeta.request_inline_completion(&buffer("f", &text, 1), at(cursor), &edits, "<events>");
    let excerpt = rows[34..=66].join("\n");
    let suggestion = excerpt.replace("räw 50", "röw fifty").replace("räw 60\n", "");
    match zeta.resolve_inline_completion(pending, assistant(&suggestion)) {
        Ok(Some(completion)) => {
            assert_eq!(apply(&completion), text.replace(&excerpt, &suggestion));
        }
        _ => panic!("expected a completion"),
    }
}

#[test]
fn a_model_that_echoes_suggests_nothing() {
    let mut zeta = engine();
    let edits: Vec<Vec<Edit>> = vec![Vec::new()];
    let pending =
        zeta.request_inline_completion(&buffer("q.rs", QUICKSORT, 1), at(30), &edits, "<events>");
    let shown = match &pending.request.messages[1] {
        RequestMessage::User { content } => content.clone(),
        _ => panic!("no excerpt"),
    };
    assert!(matches!(zeta.resolve_inline_completion(pending, assistant(&shown)), Ok(None)));
    assert_eq!(zeta.events().len(), 2);
    assert!(matches!(
        zeta.events()[1].1,
        Event::NoInlineCompletion { id: InlineCompletionId(0) }
    ));
}

#[test]
fn the_mark_in_a_path_does_not_hurt() {
    let mut zeta = engine();
    let edits: Vec<Vec<Edit>> = vec![Vec::new()];
    let path = "<|user_cursor_is_here|>/a<|user_cursor_is_here|>.rs";
    let pending =
        zeta.request_inline_completion(&buffer(path, "ab\ncd", 1), at(4), &edits, "<events>");
    let shown = match &pending.request.messages[1] {
        RequestMessage::User { content } => content.clone(),
        _ => panic!("no excerpt"),
    };
    assert_eq!(shown, format!("```{path}\nab\nc<|user_cursor_is_here|>d\n```"));
    assert!(matches!(zeta.resolve_inline_completion(pending, assistant(&shown)), Ok(None)));
    assert_eq!(zeta.events().len(), 2);
}

#[test]
fn requests_are_numbered_whatever_comes_of_them() {
    let mut zeta = engine();
    for number in 0..3 {
        let pending = request(&mut zeta, QUICKSORT);
        assert_eq!(pending.id, InlineCompletionId(number));
        let choices = if number == 0 { Vec::new() } else { assistant("x") };
        assert_eq!(zeta.resolve_inline_completion(pending, choices).is_err(), number == 0);
        assert_eq!(zeta.next_inline_completion_id(), InlineCompletionId(number + 1));
    }
}

#[test]
fn errors_of_the_answer() {
    assert_eq!(error_of(Vec::new()), CompletionError::InvalidResponse);
    assert_eq!(
        error_of(vec![RequestMessage::Assistant { content: None }]),
        CompletionError::EmptyResponse
    );
    assert_eq!(
        error_of(vec![RequestMessage::Tool { content: "text".to_string() }]),
        CompletionError::UnexpectedToolUse
    );
    assert_eq!(error_of(assistant("```")), CompletionError::MissingNewline);
    assert_eq!(error_of(assistant("```\ncode")), CompletionError::MissingCodeFence);
}

#[test]
fn the_last_choice_counts_whoever_it_is_from() {
    let choices = vec![
        RequestMessage::Tool { content: "no".to_string() },
        RequestMessage::User { content: "new text".to_string() },
    ];
    match resolve("old text", choices) {
        Ok(Some(completion)) => assert_eq!(apply(&completion), "new text"),
        _ => panic!("expected a completion"),
    }
    match resolve("old text", vec![RequestMessage::System { content: "old".to_string() }]) {
        Ok(Some(completion)) => assert_eq!(apply(&completion), "old"),
        _ => panic!("expected a completion"),
    }
}

fn change(tag: ChangeTag, value: &str) -> Change {
    Change { tag, value: value.to_string() }
}

#[test]
fn neighbouring_changes_are_one_edit() {
    let changes = vec![
        change(ChangeTag::Equal, "é "),
        change(ChangeTag::Delete, "old"),
        change(ChangeTag::Insert, "new"),
        change(ChangeTag::Delete, " more"),
        change(ChangeTag::Insert, "er"),
        change(ChangeTag::Equal, " kept "),
        change(ChangeTag::Insert, "end"),
    ];
    assert_eq!(
        edits_from_changes(&changes, 10),
        vec![(13..21, "newer".to_string()), (27..27, "end".to_string())]
    );
    assert_eq!(edits_from_changes(&Vec::new(), 10), vec![]);
    assert_eq!(edits_from_changes(&vec![change(ChangeTag::Equal, "a")], 10), vec![]);
}

#[test]
fn words_are_compared() {
    assert_eq!(
        edits_between("foo bar baz", "foo BAR baz", 100),
        vec![(104..107, "BAR".to_string())]
    );
    assert_eq!(edits_between("same words", "same words", 0), vec![]);
    assert_eq!(edits_between("", "all new", 3), vec![(3..3, "all new".to_string())]);
    assert_eq!(edits_between("all old", "", 3), vec![(3..10, String::new())]);
}

#[test]
fn edits_turn_the_old_text_into_the_new_one() {
    let words = ["a", " ", "b", "\n", "é", "  ", "c d", ""];
    // A small generator, so that many different texts are compared.
    let mut seed: u64 = 1;
    let mut next = |n: usize| {
        seed = seed.wrapping_mul(6364136223846793005).wrapping_add(1442695040888963407);
        (seed >> 33) as usize % n
    };
    for round in 0..400 {
        let len = if round % 10 == 0 { 150 } else { 12 };
        let old: String = (0..next(len)).map(|_| words[next(words.len())]).collect();
        let new: String = (0..next(len)).map(|_| words[next(words.len())]).collect();
        let head = "héad ";
        let edits = edits_between(&old, &new, head.len());
        let mut text = format!("{head}{old} tail");
        let mut before = text.len() + 1;
        for (range, new_text) in edits.iter().rev() {
            assert!(range.start <= range.end && range.end < before);
            assert!(!range.is_empty() || !new_text.is_empty());
            before = range.start;
            text.replace_range(range.clone(), new_text);
        }
        assert_eq!(text, format!("{head}{new} tail"));
        assert_eq!(edits.is_empty(), old == new);
    }
}

#[test]
fn completion_from_given_edits() {
    let mut zeta = engine();
    let pending = request(&mut zeta, "some text");
    let completion =
        zeta.completion_from_edits(pending, vec![(0..4, "any".to_string())]).unwrap();
    assert_eq!(completion.edits.len(), 1);
    assert_eq!(completion.edits[0].0.start, Anchor { offset: 0, bias: Bias::Right });
    assert_eq!(completion.edits[0].0.end, Anchor { offset: 4, bias: Bias::Left });
    assert_eq!(apply(&completion), "any text");
    let pending = zeta.request_inline_completion(
        &buffer("main.rs", "some text", 1),
        at(0),
        &vec![Vec::new()],
        "",
    );
    assert!(zeta.completion_from_edits(pending, Vec::new()).is_none());
    assert!(matches!(
        zeta.events()[1].1,
        Event::NoInlineCompletion { id: InlineCompletionId(1) }
    ));
}

#[test]
fn production_defaults() {
    let mut zeta = Zeta::production(None, "key".to_string(), None);
    let pending = request(&mut zeta, "x");
    assert_eq!(pending.api_url, "https://api.fireworks.ai/inference/v1");
    assert_eq!(
        pending.request.model,
        "accounts/fireworks/models/qwen2p5-coder-7b-instruct#accounts/antonio-01403c/deployments/39c3a4c6"
    );
    let mut zeta = Zeta::production(
        Some("http://localhost:11434/v1".to_string()),
        String::new(),
        Some("qwen2.5-coder:32b".to_string()),
    );
    let pending = request(&mut zeta, "x");
    assert_eq!(pending.api_url, "http://localhost:11434/v1");
    assert_eq!(pending.request.model, "qwen2.5-coder:32b");
}
