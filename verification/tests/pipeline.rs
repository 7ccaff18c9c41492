//! The verified stages that follow the outside calls, checked on given values.
use termpaste::clean::{has_framing_marker_chars, split_chunks, Chunk};
use termpaste::prose::reflow;

fn chars(s: &str) -> Vec<char> {
    s.chars().collect()
}

fn lines(text: &str) -> Vec<Vec<char>> {
    text.split('\n').map(chars).collect()
}

fn strings(v: &[Vec<char>]) -> Vec<String> {
    v.iter().map(|l| l.iter().collect()).collect()
}

#[test]
fn reflow_joins_wraps_and_bounds_structure() {
    let out = reflow(&lines("intro that\n  wraps\n## Head\n- item\n  more\n| a |\n|---|\n---\ntail"));
    assert_eq!(
        strings(&out),
        vec!["intro that wraps", "Head", "- item more", "| a |", "tail"]
    );
}

#[test]
fn reflow_drops_chrome_only_lines() {
    let out = reflow(&lines("\u{23fa}\n>\n   \n\u{2500}\u{2500}\u{2500}"));
    assert!(out.is_empty());
}

#[test]
fn reflow_strips_gutter_then_quotes() {
    let out = reflow(&lines("\u{2502} > > quoted\n\u{2502}   text"));
    assert_eq!(strings(&out), vec!["quoted text"]);
}

#[test]
fn chunks_split_code_prose_and_blank_lines() {
    let chunks = split_chunks(&lines("a\nb\n\n```\nx\n\ny\n```\n\nc"));
    assert_eq!(chunks.len(), 3);
    match &chunks[0] {
        Chunk::Prose(ls) => assert_eq!(strings(ls), vec!["a", "b"]),
        Chunk::Code(_) => panic!("expected prose"),
    }
    match &chunks[1] {
        Chunk::Code(c) => assert_eq!(c.iter().collect::<String>(), "```\nx\n\ny\n```"),
        Chunk::Prose(_) => panic!("expected code"),
    }
    match &chunks[2] {
        Chunk::Prose(ls) => assert_eq!(strings(ls), vec!["c"]),
        Chunk::Code(_) => panic!("expected prose"),
    }
}

#[test]
fn fence_right_after_prose_ends_the_prose() {
    let chunks = split_chunks(&lines("text\n~~~\ncode"));
    assert_eq!(chunks.len(), 2);
    assert!(matches!(&chunks[0], Chunk::Prose(_)));
    assert!(matches!(&chunks[1], Chunk::Code(_)));
}

#[test]
fn framing_markers_are_matched_on_lowercased_text() {
    assert!(has_framing_marker_chars(&chars("ok — here's the rewrite:")));
    assert!(has_framing_marker_chars(&chars("cleaned-up version")));
    assert!(!has_framing_marker_chars(&chars("Here's A Draft")));
    assert!(!has_framing_marker_chars(&chars("here is code:")));
}
