use zeta::buffer::{Buffer, BufferSnapshot};
use zeta::event::Event;
use zeta::history::BufferEvent;
use zeta::zeta::{EventId, Zeta};

fn engine() -> Zeta {
    Zeta::new(String::new(), String::new(), String::new())
}

fn buffer(entity_id: u64, path: Option<&str>, text: &str, version: u32) -> Buffer {
    Buffer {
        entity_id,
        snapshot: BufferSnapshot {
            remote_id: entity_id,
            version: vec![version],
            path: path.map(|p| p.to_string()),
            text: text.to_string(),
        },
    }
}

/// A short name for each event that is remembered.
fn names(zeta: &Zeta) -> Vec<String> {
    zeta.events()
        .iter()
        .map(|(id, event)| {
            let what = match event {
                Event::Open { path } => format!("open {path}"),
                Event::Save { path } => format!("save {path}"),
                Event::BufferChange { old_snapshot, new_snapshot } => {
                    format!("change {}->{}", old_snapshot.text, new_snapshot.text)
                }
                Event::Close { path } => format!("close {path}"),
                Event::InlineCompletionRejected(_) => "rejected".to_string(),
                Event::NoInlineCompletion { .. } => "none".to_string(),
            };
            format!("{}: {what}", id.0)
        })
        .collect()
}

#[test]
fn a_buffer_is_registered_once() {
    let mut zeta = engine();
    assert!(zeta.registered_buffer(1).is_none());
    zeta.register_buffer(&buffer(1, Some("a"), "x", 1));
    zeta.register_buffer(&buffer(1, Some("b"), "y", 2));
    assert_eq!(names(&zeta), ["0: open a"]);
    assert_eq!(zeta.registered_buffer(1).unwrap().text, "x");
    zeta.register_buffer(&buffer(2, None, "", 1));
    assert_eq!(names(&zeta), ["0: open a", "1: open untitled"]);
}

#[test]
fn changes_that_follow_each_other_are_one() {
    let mut zeta = engine();
    for (version, text) in [(1, "a"), (2, "ab"), (3, "abc"), (4, "abcd")] {
        let state = buffer(1, Some("f"), text, version);
        let snapshot = zeta.report_changes_for_buffer(&state);
        assert_eq!(snapshot.text, text);
    }
    assert_eq!(names(&zeta), ["0: open f", "1: change a->abcd"]);
    assert_eq!(zeta.next_event_id(), EventId(2));
    // What is reported twice is remembered once.
    let _ = zeta.report_changes_for_buffer(&buffer(1, Some("f"), "abcd", 4));
    assert_eq!(names(&zeta), ["0: open f", "1: change a->abcd"]);
    assert_eq!(zeta.registered_buffer(1).unwrap().version, vec![4]);
}

#[test]
fn another_event_in_between_separates_changes() {
    let mut zeta = engine();
    zeta.handle_buffer_event(&buffer(1, Some("f"), "a", 1), BufferEvent::Edited);
    zeta.handle_buffer_event(&buffer(1, Some("f"), "b", 2), BufferEvent::Edited);
    zeta.handle_buffer_event(&buffer(1, Some("f"), "b", 2), BufferEvent::Saved);
    zeta.handle_buffer_event(&buffer(1, Some("f"), "c", 3), BufferEvent::Edited);
    zeta.handle_buffer_event(&buffer(1, Some("f"), "d", 4), BufferEvent::Other);
    assert_eq!(
        names(&zeta),
        ["0: open f", "1: change a->b", "2: save f", "3: change b->c"]
    );
}

#[test]
fn changes_of_a_buffer_form_a_chain() {
    let mut zeta = engine();
    let mut expected: Vec<u32> = Vec::new();
    for version in 1..20u32 {
        let _ = zeta.report_changes_for_buffer(&buffer(1, Some("a"), "a", version));
        if version % 3 == 0 {
            let _ = zeta.report_changes_for_buffer(&buffer(2, Some("b"), "b", version));
            expected.push(version);
        }
        let ids: Vec<usize> = zeta.events().iter().map(|(id, _)| id.0).collect();
        let next = zeta.next_event_id().0;
        assert_eq!(ids, (next - next.min(10)..next).collect::<Vec<_>>());
        for entity_id in [1, 2] {
            let mut at: Option<Vec<u32>> = None;
            for (_, event) in zeta.events() {
                if let Event::BufferChange { old_snapshot, new_snapshot } = event {
                    if old_snapshot.remote_id == entity_id {
                        assert!(at.is_none() || at.as_ref() == Some(&old_snapshot.version));
                        at = Some(new_snapshot.version.clone());
                    }
                }
            }
            if let Some(version) = at {
                assert_eq!(version, zeta.registered_buffer(entity_id).unwrap().version);
            }
        }
    }
    assert_eq!(zeta.registered_buffer(2).unwrap().version, vec![*expected.last().unwrap()]);
}

#[test]
fn changes_of_different_buffers_stay_apart() {
    let mut zeta = engine();
    zeta.register_buffer(&buffer(1, Some("f"), "a", 1));
    zeta.register_buffer(&buffer(2, Some("g"), "x", 2));
    let _ = zeta.report_changes_for_buffer(&buffer(1, Some("f"), "b", 2));
    // The same version, but another buffer.
    let _ = zeta.report_changes_for_buffer(&buffer(2, Some("g"), "y", 3));
    let _ = zeta.report_changes_for_buffer(&buffer(1, Some("f"), "c", 3));
    assert_eq!(
        names(&zeta),
        ["0: open f", "1: open g", "2: change a->b", "3: change x->y", "4: change b->c"]
    );
}

#[test]
fn saving_an_untitled_buffer_says_nothing() {
    let mut zeta = engine();
    zeta.handle_buffer_event(&buffer(1, None, "a", 1), BufferEvent::Saved);
    assert!(zeta.events().is_empty());
}

#[test]
fn ten_events_are_remembered() {
    let mut zeta = engine();
    for i in 0..15 {
        zeta.push_event(Event::Open { path: format!("f{i}") });
        assert!(zeta.events().len() <= 10);
    }
    let names = names(&zeta);
    assert_eq!(names.len(), 10);
    assert_eq!(names[0], "5: open f5");
    assert_eq!(names[9], "14: open f14");
}

#[test]
fn a_buffer_that_is_let_go_of_is_closed() {
    let mut zeta = engine();
    zeta.register_buffer(&buffer(1, Some("f"), "a", 1));
    zeta.register_buffer(&buffer(2, None, "b", 1));
    zeta.release_buffer(1);
    zeta.release_buffer(2);
    zeta.release_buffer(3);
    assert_eq!(names(&zeta), ["0: open f", "1: open untitled", "2: close f"]);
    assert!(zeta.registered_buffer(1).is_none());
    assert!(zeta.registered_buffer(2).is_none());
    zeta.register_buffer(&buffer(1, Some("f"), "a", 1));
    assert_eq!(names(&zeta).last().unwrap(), "3: open f");
}
