use zeta::buffer::{Anchor, Bias, BufferSnapshot, Edit, Point};
use zeta::completion::{InlineCompletion, InlineCompletionId};
use zeta::event::{format_edit, Event};
use zeta::hunk::{merge_edits, Hunk};

fn snapshot(path: Option<&str>, text: &str) -> BufferSnapshot {
    BufferSnapshot {
        remote_id: 7,
        version: vec![],
        path: path.map(|p| p.to_string()),
        text: text.to_string(),
    }
}

fn edit(old_start: u32, old_end: u32, new_start: u32, new_end: u32) -> Edit {
    Edit {
        old: Point { row: old_start, column: 0 }..Point { row: old_end, column: 1 },
        new: Point { row: new_start, column: 0 }..Point { row: new_end, column: 1 },
    }
}

#[test]
fn edits_stand_between_markers() {
    assert_eq!(
        format_edit("old", "new"),
        "<<<<<<< ORIGINAL\nold\n=======\nnew\n>>>>>>> UPDATED"
    );
    assert_eq!(format_edit("", ""), "<<<<<<< ORIGINAL\n\n=======\n\n>>>>>>> UPDATED");
}

#[test]
fn files_are_named_in_quotes() {
    let none = Vec::new();
    let open = Event::Open { path: "src/main.rs".to_string() };
    assert_eq!(open.to_prompt(&none), "User opened file: \"src/main.rs\"");
    let save = Event::Save { path: "a \"b\"\n".to_string() };
    assert_eq!(save.to_prompt(&none), "User saved file: \"a \\\"b\\\"\\n\"");
    let close = Event::Close { path: "x".to_string() };
    assert_eq!(close.to_prompt(&none), "User closed file: \"x\"");
    let done = Event::NoInlineCompletion { id: InlineCompletionId(3) };
    assert_eq!(done.to_prompt(&none), "<|DONE|>");
}

#[test]
fn quoted_paths_agree_with_the_standard_library() {
    for path in ["a", "it's", "tab\t", "ünïcode", "back\\slash", ""] {
        let event = Event::Open { path: path.to_string() };
        assert_eq!(
            event.to_prompt(&Vec::new()),
            format!("User opened file: {:?}", std::path::Path::new(path))
        );
    }
}

#[test]
fn described_events_use_the_quoted_paths_they_are_given() {
    let event = Event::Open { path: "a".to_string() };
    assert_eq!(event.describe(&Vec::new(), "<old>", "<new>", false), "User opened file: <new>");
    let change = Event::BufferChange {
        old_snapshot: snapshot(Some("a"), "x"),
        new_snapshot: snapshot(Some("b"), "x"),
    };
    assert_eq!(
        change.describe(&Vec::new(), "<old>", "<new>", true),
        "User renamed <old> to <new>\n\n"
    );
    assert_eq!(change.describe(&Vec::new(), "<old>", "<new>", false), "");
}

#[test]
fn near_edits_are_merged() {
    // The second edit starts within two rows of the end of the first, the third does not.
    let edits = vec![edit(10, 11, 10, 12), edit(13, 13, 14, 14), edit(16, 16, 17, 20)];
    assert_eq!(
        merge_edits(&edits, 40, 50),
        vec![
            Hunk { old_start: 8, old_end: 15, new_start: 8, new_end: 16 },
            Hunk { old_start: 14, old_end: 18, new_start: 15, new_end: 22 },
        ]
    );
}

#[test]
fn context_stops_at_the_ends_of_the_buffer() {
    assert_eq!(
        merge_edits(&vec![edit(1, 5, 0, 6)], 5, 6),
        vec![Hunk { old_start: 0, old_end: 6, new_start: 0, new_end: 7 }]
    );
    assert_eq!(merge_edits(&Vec::new(), 5, 6), vec![]);
}

#[test]
fn changes_show_old_and_new_rows() {
    let old = "0\n1\n2\n3\n4\n5\n6\n7\n8\n9";
    let new = "0\n1\n2\n3\nFOUR\n5\n6\n7\n8\n9";
    let event = Event::BufferChange {
        old_snapshot: snapshot(Some("n.txt"), old),
        new_snapshot: snapshot(Some("n.txt"), new),
    };
    assert_eq!(
        event.to_prompt(&vec![edit(4, 4, 4, 4)]),
        "User edited \"n.txt\":\n\n\
         <<<<<<< ORIGINAL\n2\n3\n4\n5\n6\n=======\n2\n3\nFOUR\n5\n6\n>>>>>>> UPDATED\n\n\n"
    );
}

#[test]
fn two_hunks_one_below_the_other() {
    let old = "a\nb\nc\nd\ne\nf\ng\nh";
    let new = "A\nb\nc\nd\ne\nf\ng\nH";
    let event = Event::BufferChange {
        old_snapshot: snapshot(None, old),
        new_snapshot: snapshot(None, new),
    };
    assert_eq!(
        event.to_prompt(&vec![edit(0, 0, 0, 0), edit(7, 7, 7, 7)]),
        "User edited \"untitled\":\n\n\
         <<<<<<< ORIGINAL\na\nb\nc\n=======\nA\nb\nc\n>>>>>>> UPDATED\n\n\n\
         <<<<<<< ORIGINAL\nf\ng\nh\n=======\nf\ng\nH\n>>>>>>> UPDATED\n\n\n"
    );
}

#[test]
fn renames_are_told_before_edits() {
    let event = Event::BufferChange {
        old_snapshot: snapshot(None, "a"),
        new_snapshot: snapshot(Some("new.rs"), "b"),
    };
    assert_eq!(
        event.to_prompt(&vec![edit(0, 0, 0, 0)]),
        "User renamed \"untitled\" to \"new.rs\"\n\nUser edited \"new.rs\":\n\n\
         <<<<<<< ORIGINAL\na\n=======\nb\n>>>>>>> UPDATED\n\n\n"
    );
    let same = Event::BufferChange {
        old_snapshot: snapshot(Some("a/b"), "a"),
        new_snapshot: snapshot(Some("a//b"), "a"),
    };
    assert_eq!(same.to_prompt(&Vec::new()), "");
}

#[test]
fn rejected_edits_are_listed() {
    let at = |offset: usize, bias: Bias| Anchor { offset, bias };
    let event = Event::InlineCompletionRejected(InlineCompletion {
        id: InlineCompletionId(0),
        path: "f.rs".to_string(),
        edits: vec![
            (at(0, Bias::Right)..at(3, Bias::Left), "let".to_string()),
            (at(4, Bias::Right)..at(4, Bias::Left), "mut ".to_string()),
        ],
        snapshot: snapshot(Some("f.rs"), "var x"),
    });
    assert_eq!(
        event.to_prompt(&Vec::new()),
        "User rejected these edits you suggested for file \"f.rs\":\n\
         <<<<<<< ORIGINAL\nvar\n=======\nlet\n>>>>>>> UPDATED\n\
         <<<<<<< ORIGINAL\n\n=======\nmut \n>>>>>>> UPDATED"
    );
}

/// Whether a change from one path to another is told as a renaming.
fn renamed(from: &str, to: &str) -> bool {
    let event = Event::BufferChange {
        old_snapshot: snapshot(Some(from), "x"),
        new_snapshot: snapshot(Some(to), "x"),
    };
    let prompt = event.to_prompt(&Vec::new());
    if prompt.is_empty() {
        return false;
    }
    let (from, to) = (std::path::Path::new(from), std::path::Path::new(to));
    assert_eq!(prompt, format!("User renamed {from:?} to {to:?}\n\n"));
    true
}

#[test]
fn paths_are_the_same_by_components() {
    assert!(!renamed("src/main.rs", "src/main.rs"));
    assert!(!renamed("src//main.rs", "src/main.rs"));
    assert!(!renamed("src/./main.rs", "src/main.rs/"));
    assert!(renamed("./src", "src"));
    assert!(renamed("/src", "src"));
    assert!(renamed("src/main.rs", "src/lib.rs"));
    assert!(renamed("a", "a/b"));
    assert!(renamed("ab:c", "ab:d"));
    assert!(!renamed("a/:b", "a//:b"));
    assert!(!renamed("C:\\a", "C:\\a"));
}

/// The components of a path, by its slashes.
fn components(path: &str) -> Vec<&str> {
    let mut parts = Vec::new();
    if path.starts_with('/') {
        parts.push("/");
    }
    for (i, part) in path.split('/').enumerate() {
        if !part.is_empty() && !(part == "." && i > 0) {
            parts.push(part);
        }
    }
    parts
}

#[test]
fn paths_agree_with_the_standard_library() {
    let parts = ["", "/", ".", "..", "a", "b.rs", "\\", ":"];
    let mut paths = Vec::new();
    for x in parts {
        for y in parts {
            for z in parts {
                paths.push(format!("{x}{y}{z}"));
            }
        }
    }
    let portable = |path: &str| {
        !path.contains('\\') && path.chars().nth(1) != Some(':') && !path.starts_with("//")
    };
    for a in &paths {
        for b in &paths {
            let told = renamed(a, b);
            assert_eq!(told, std::path::Path::new(a) != std::path::Path::new(b), "{a:?} {b:?}");
            if portable(a) && portable(b) {
                assert_eq!(told, components(a) != components(b), "{a:?} {b:?}");
            }
        }
    }
}
