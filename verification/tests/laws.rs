//! The library's laws, checked on concrete values.
use termpaste::{clean, clipboard_action, looks_like_terminal_output, observe_change};
use termpaste::ClipboardAction;

#[test]
fn fenced_code_is_returned_unchanged_and_stays_so() {
    let input = "```rust\nfn main() {\n    let x = 2 * 3; // **not bold**\n\n}\n```";
    let once = clean(input);
    assert_eq!(once, input);
    assert_eq!(clean(&once), once);
}

#[test]
fn tilde_fence_is_returned_unchanged() {
    let input = "~~~\n  # not a heading\n> not a quote\n~~~";
    assert_eq!(clean(input), input);
}

#[test]
fn blank_input_cleans_to_empty() {
    assert_eq!(clean(" \t\n\u{a0}\n\u{3000}\r\n"), "");
}

#[test]
fn invisible_marks_are_removed() {
    assert_eq!(clean("a\u{200b}b \u{feff}c"), "ab c");
}

#[test]
fn soft_wraps_join_with_one_space() {
    assert_eq!(clean("one\n  two\n\tthree"), "one two three");
}

#[test]
fn list_item_continuations_join_into_the_item() {
    assert_eq!(clean("- first item\n  continues\n  here"), "- first item continues here");
}

#[test]
fn blank_text_is_not_terminal_output() {
    assert!(!looks_like_terminal_output(" \u{a0}\n\t\n"));
}

#[test]
fn escape_anywhere_is_terminal_output() {
    assert!(looks_like_terminal_output("plain text\u{1b}"));
}

#[test]
fn non_utf8_is_skipped_whatever_was_seen() {
    assert_eq!(clipboard_action("", &[0xc3]), ClipboardAction::Skip);
    assert_eq!(clipboard_action("x", &[0xed, 0xa0, 0x80]), ClipboardAction::Skip);
}

#[test]
fn clean_text_is_adopted_not_rewritten() {
    assert_eq!(
        clipboard_action("something else", "café ☕".as_bytes()),
        ClipboardAction::Adopt("café ☕".to_string())
    );
}

#[test]
fn written_value_is_skipped_next_time() {
    let dirty = "⏺ **Done**, the build\n  passed.";
    let cleaned = match clipboard_action("", dirty.as_bytes()) {
        ClipboardAction::Replace(c) => c,
        other => panic!("expected a replacement, got {:?}", other),
    };
    assert_eq!(cleaned, "Done, the build passed.");
    assert_eq!(
        clipboard_action(&cleaned, cleaned.as_bytes()),
        ClipboardAction::Skip
    );
}

#[test]
fn first_count_never_reads() {
    let mut count = None;
    assert!(!observe_change(&mut count, Some(7)));
    let mut unknown = None;
    assert!(!observe_change(&mut unknown, None));
    assert_eq!(unknown, None);
}

#[test]
fn own_write_count_is_not_a_new_copy() {
    let mut count = Some(41);
    assert!(observe_change(&mut count, Some(42)));
    count = Some(43);
    assert!(!observe_change(&mut count, Some(43)));
}

#[test]
fn blank_line_joined_texts_clean_separately() {
    let a = "\u{23fa} First **part** that\n  wraps";
    let b = "## Second\n- item\n  continued";
    let joined = format!("{a}\n\n{b}");
    assert_eq!(clean(&joined), format!("{}\n\n{}", clean(a), clean(b)));
    assert_eq!(clean(&joined), "First part that wraps\n\nSecond\n- item continued");
}

#[test]
fn code_block_in_the_middle_comes_out_verbatim() {
    let code = "```sh\n  rm *.tmp   # **keep**\n\n> quoted\n```";
    let out = clean(&format!("Intro\n  text.\n\n{code}\n\n## After"));
    assert_eq!(out, format!("Intro text.\n\n{code}\n\nAfter"));
    assert!(out.contains(code));
}

#[test]
fn terminal_output_survives_joining() {
    let a = "\u{23fa} answer";
    let b = "Just prose.";
    assert!(looks_like_terminal_output(a));
    assert!(!looks_like_terminal_output(b));
    assert!(looks_like_terminal_output(&format!("{b}\n{a}")));
    assert!(looks_like_terminal_output(&format!("{a}\n{b}")));
}

#[test]
fn quote_strip_removes_only_markers() {
    let s: Vec<char> = " > >\t> kept > text".chars().collect();
    let r = termpaste::prose::strip_leading_blockquotes(&s);
    assert_eq!(r.iter().collect::<String>(), "kept > text");
    let cut = s.len() - r.len();
    assert_eq!(&s[cut..], &r[..]);
    assert!(s[..cut].iter().all(|c| *c == '>' || c.is_whitespace()));
}
