use zeta::buffer::{BufferSnapshot, Point};
use zeta::excerpt::{excerpt_range_for_position, prompt_for_excerpt};

fn snapshot(text: &str) -> BufferSnapshot {
    BufferSnapshot {
        remote_id: 1,
        version: vec![1],
        path: Some("quicksort.rs".to_string()),
        text: text.to_string(),
    }
}

/// `n` rows, each with its number in it.
fn numbered(n: usize) -> String {
    (0..n).map(|i| format!("row {i}")).collect::<Vec<_>>().join("\n")
}

fn excerpt_at(text: &str, row: u32) -> String {
    let snapshot = snapshot(text);
    let range = excerpt_range_for_position(Point { row, column: 0 }, &snapshot);
    snapshot.text_for_range(range).to_string()
}

#[test]
fn points_and_offsets() {
    let s = snapshot("ab\né\n\nlast");
    assert!(s.fits());
    assert_eq!(s.max_point(), Point { row: 3, column: 4 });
    assert_eq!(s.line_len(0), 2);
    assert_eq!(s.line_len(1), 2);
    assert_eq!(s.line_len(2), 0);
    assert_eq!(s.line_len(3), 4);
    assert_eq!(s.line_len(4), 0);
    assert_eq!(s.offset_to_point(0), Point { row: 0, column: 0 });
    assert_eq!(s.offset_to_point(2), Point { row: 0, column: 2 });
    assert_eq!(s.offset_to_point(3), Point { row: 1, column: 0 });
    assert_eq!(s.offset_to_point(11), Point { row: 3, column: 4 });
    for offset in 0..=11 {
        assert_eq!(s.point_to_offset(s.offset_to_point(offset)), offset);
    }
    assert_eq!(s.point_to_offset(Point { row: 4, column: 0 }), 11);
    assert_eq!(s.point_to_offset(Point { row: 9, column: 7 }), 11);
    assert_eq!(s.text_for_rows(1, 2), "é\n");
    assert_eq!(s.text_for_rows(3, 4), "last");
    assert_eq!(s.text_for_rows(2, 1), "");
    assert!(!s.check_offset(4));
    assert!(s.check_offset(5));
}

#[test]
fn empty_text_has_one_row() {
    let s = snapshot("");
    assert_eq!(s.max_point(), Point { row: 0, column: 0 });
    assert_eq!(excerpt_at("", 0), "");
}

#[test]
fn small_buffers_are_shown_in_full() {
    let text = numbered(20);
    for row in [0, 10, 19] {
        assert_eq!(excerpt_at(&text, row), text);
    }
}

#[test]
fn window_in_the_middle() {
    let excerpt = excerpt_at(&numbered(100), 50);
    let lines: Vec<_> = excerpt.lines().collect();
    assert_eq!(lines.len(), 33);
    assert_eq!(lines[0], "row 34");
    assert_eq!(lines[32], "row 66");
}

#[test]
fn unused_rows_go_to_the_other_side() {
    let text = numbered(100);
    let start = excerpt_at(&text, 3);
    assert!(start.starts_with("row 0\n"));
    assert!(start.ends_with("\nrow 32"));
    let end = excerpt_at(&text, 98);
    assert!(end.starts_with("row 67\n"));
    assert!(end.ends_with("\nrow 99"));
    let edge = excerpt_at(&text, 16);
    assert!(edge.starts_with("row 0\n"));
    assert!(edge.ends_with("\nrow 32"));
}

#[test]
fn empty_rows_at_the_end_are_left_out() {
    assert_eq!(excerpt_at("a\nb\n\n\n", 0), "a\nb");
    assert_eq!(excerpt_at("\n\n\n", 1), "");
    assert_eq!(excerpt_at("a\n\n b\n\n", 0), "a\n\n b");
}

#[test]
fn cursor_is_marked() {
    let s = snapshot("use std::cmp::Ord;\n\nlet p\n");
    let range = excerpt_range_for_position(s.offset_to_point(25), &s);
    assert_eq!(range, 0..25);
    assert_eq!(
        prompt_for_excerpt(&s, &range, 25),
        "```quicksort.rs\nuse std::cmp::Ord;\n\nlet p<|user_cursor_is_here|>\n```"
    );
    assert_eq!(
        prompt_for_excerpt(&s, &range, 3),
        "```quicksort.rs\nuse<|user_cursor_is_here|> std::cmp::Ord;\n\nlet p\n```"
    );
}

#[test]
fn cursor_behind_the_excerpt_shows_the_rows_before_it() {
    let s = snapshot("abc\n\n\n");
    let range = excerpt_range_for_position(s.offset_to_point(5), &s);
    assert_eq!(range, 0..3);
    assert_eq!(
        prompt_for_excerpt(&s, &range, 5),
        "```quicksort.rs\nabc\n\n<|user_cursor_is_here|>\n```"
    );
}

#[test]
fn buffer_without_file_is_untitled() {
    let mut s = snapshot("x");
    s.path = None;
    assert_eq!(prompt_for_excerpt(&s, &(0..1), 0), "```untitled\n<|user_cursor_is_here|>x\n```");
}
