use zeta::chat::{strip_code_fence, CompletionError};
use zeta::pattern::{after_first, replace, starts_with, strip_suffix, trim_end_of, white_space};
use zeta::text::{check_offset, slice_text};

#[test]
fn replace_takes_occurrences_from_the_left() {
    assert_eq!(replace("aaa", "aa", "b"), "ba");
    assert_eq!(replace("xaxaxa", "xa", ""), "");
    assert_eq!(replace("<events> and <events>", "<events>", "E"), "E and E");
    assert_eq!(replace("", "a", "b"), "");
    assert_eq!(replace("äöä", "ä", "<events>"), "<events>ö<events>");
}

#[test]
fn replace_agrees_with_the_standard_library() {
    let pieces = ["a", "b", "ab", "", "ba", "é"];
    for x in pieces {
        for y in pieces {
            for z in pieces {
                let s = format!("{x}{y}{z}{x}");
                for from in ["a", "ab", "aba", "é", "bb"] {
                    for to in ["", "a", "ab", "é"] {
                        assert_eq!(replace(&s, from, to), s.replace(from, to));
                    }
                }
            }
        }
    }
}

#[test]
fn replacement_is_not_searched_again() {
    assert_eq!(replace("<events>", "<events>", "<events><events>"), "<events><events>");
}

#[test]
fn white_space_is_the_unicode_property() {
    for code in 0..=0x10ffffu32 {
        if let Some(c) = char::from_u32(code) {
            assert_eq!(white_space(c), c.is_whitespace(), "{code:x}");
        }
    }
}

#[test]
fn trims_only_the_end() {
    assert_eq!(trim_end_of("  a b \t\r\n\u{a0}"), "  a b");
    assert_eq!(trim_end_of(" \n "), "");
    assert_eq!(trim_end_of(""), "");
    assert_eq!(trim_end_of("a"), "a");
}

#[test]
fn prefixes_suffixes_and_lines() {
    assert!(starts_with("```rust", "```"));
    assert!(!starts_with("``", "```"));
    assert_eq!(strip_suffix("code\n```", "\n```"), Some("code"));
    assert_eq!(strip_suffix("code```", "\n```"), None);
    assert_eq!(strip_suffix("`", "\n```"), None);
    assert_eq!(after_first("one\ntwo\nthree", '\n'), Some("two\nthree"));
    assert_eq!(after_first("one\n", '\n'), Some(""));
    assert_eq!(after_first("one", '\n'), None);
}

#[test]
fn slices_by_bytes() {
    let text = "aéz\n";
    assert_eq!(slice_text(text, 1, 3), "é");
    assert_eq!(slice_text(text, 0, 5), text);
    assert_eq!(slice_text(text, 3, 3), "");
    assert_eq!(slice_text(text, 3, 1), "");
    assert!(check_offset(text, 1));
    assert!(!check_offset(text, 2));
    assert!(check_offset(text, 3));
    assert!(check_offset(text, 5));
    assert!(!check_offset(text, 6));
}

#[test]
fn code_fences() {
    assert_eq!(strip_code_fence("fn main() {}"), Ok("fn main() {}".to_string()));
    assert_eq!(strip_code_fence("```rust\nfn main() {}\n```"), Ok("fn main() {}".to_string()));
    assert_eq!(strip_code_fence("```\n\n  a  \n\n```  \n\n"), Ok("\n  a  \n".to_string()));
    assert_eq!(strip_code_fence("```rust"), Err(CompletionError::MissingNewline));
    assert_eq!(strip_code_fence("```rust\n```"), Err(CompletionError::MissingCodeFence));
    assert_eq!(strip_code_fence("```rust\ncode"), Err(CompletionError::MissingCodeFence));
    assert_eq!(strip_code_fence("```rust\ncode\n``` done"), Err(CompletionError::MissingCodeFence));
    assert_eq!(strip_code_fence("text\n```\ncode\n```"), Ok("text\n```\ncode\n```".to_string()));
}

#[test]
fn error_messages() {
    assert_eq!(CompletionError::InvalidResponse.message(), "invalid response");
    assert_eq!(CompletionError::EmptyResponse.message(), "empty response from the assistant");
    assert_eq!(CompletionError::UnexpectedToolUse.message(), "unexpected tool use");
    assert_eq!(CompletionError::MissingNewline.message(), "could not find newline");
    assert_eq!(CompletionError::MissingCodeFence.message(), "could not find closing codefence");
}
