//! Edge cases of the cleaner's line rules.
use termpaste::clean;

#[test]
fn preamble_is_dropped_case_insensitively() {
    assert_eq!(clean("HERE YOU GO:\n\nThe text."), "The text.");
    assert_eq!(clean("Sure! Here's the update:\n\nBody."), "Body.");
}

#[test]
fn preamble_is_kept_when_not_first_or_not_framing() {
    assert_eq!(clean("Body first.\n\nHere you go"), "Body first.\n\nHere you go");
    assert_eq!(clean("Here is code:\n\nx"), "Here is code:\n\nx");
}

#[test]
fn multi_line_first_block_is_never_a_preamble() {
    assert_eq!(
        clean("Here you go\n- item"),
        "Here you go\n- item"
    );
}

#[test]
fn only_the_first_block_can_be_a_preamble() {
    assert_eq!(clean("here you go\n\nhere you go"), "here you go");
}

#[test]
fn seven_hashes_or_no_space_is_not_a_heading() {
    assert_eq!(clean("####### deep"), "####### deep");
    assert_eq!(clean("#hashtag here"), "#hashtag here");
    assert_eq!(clean("###### six"), "six");
}

#[test]
fn heading_breaks_a_paragraph() {
    assert_eq!(clean("intro text\n# Title\nbody"), "intro text\nTitle\nbody");
}

#[test]
fn rules_of_each_kind_are_dropped() {
    assert_eq!(clean("a\n***\nb"), "a\nb");
    assert_eq!(clean("a\n_ _ _\nb"), "a\nb");
    assert_eq!(clean("a\n\u{2550}\u{2550}\u{2550}\nb"), "a\nb");
    assert_eq!(clean("a\n--\nb"), "a -- b");
}

#[test]
fn numbered_item_needs_a_space() {
    assert_eq!(clean("1.5 million\nusers"), "1.5 million users");
    assert_eq!(clean("10. tenth\n11) eleventh"), "10. tenth\n11) eleventh");
}

#[test]
fn unclosed_fence_runs_to_the_end() {
    let input = "Intro.\n\n```\ncode line\n\nmore code";
    assert_eq!(clean(input), input);
}

#[test]
fn indented_fence_is_recognized() {
    let input = "  ```\n  keep   this\n  ```";
    assert_eq!(clean(input), input);
}

#[test]
fn lone_glyph_and_bare_quote_lines_vanish() {
    assert_eq!(clean("\u{2502}\n>\nkept"), "kept");
    assert_eq!(clean("\u{23fa}"), "");
}

#[test]
fn gutter_is_removed_only_once() {
    assert_eq!(clean("\u{2022} \u{2022} item"), "\u{2022} item");
}

#[test]
fn italic_and_bold_are_stripped_outside_code() {
    assert_eq!(clean("*very* **much** `*kept*`"), "very much `*kept*`");
    assert_eq!(clean("a * b * c"), "a * b * c");
}

#[test]
fn ansi_cursor_codes_are_stripped_before_the_gutter() {
    assert_eq!(clean("\u{1b}[2K\u{1b}[32m\u{23fa}\u{1b}[0m Ready"), "Ready");
}

#[test]
fn table_delimiter_variants() {
    assert_eq!(clean("| a |\n|:-:|\n| b |"), "| a |\n| b |");
    assert_eq!(clean("| a |\n| x-y |"), "| a |\n| x-y |");
}

#[test]
fn setext_underline_needs_two_equals() {
    assert_eq!(clean("Title\n=="), "Title");
    assert_eq!(clean("x\n="), "x =");
}

#[test]
fn ideographic_space_indent_reflows() {
    assert_eq!(clean("\u{3000}wrapped\n\u{3000}text"), "wrapped text");
}

#[test]
fn marker_phrase_inside_real_content_is_kept() {
    assert_eq!(
        clean("Please send the longer version by Friday."),
        "Please send the longer version by Friday."
    );
    assert_eq!(
        clean("Please send the longer version by Friday.\n\nThanks."),
        "Please send the longer version by Friday.\n\nThanks."
    );
}

#[test]
fn anchored_openers_are_dropped() {
    assert_eq!(clean("Here's a longer version:\n\nBody."), "Body.");
    assert_eq!(clean("Sure, here's the rewrite:\n\nBody."), "Body.");
    assert_eq!(clean("Here you go!\n\nBody."), "Body.");
    assert_eq!(clean("  Here is the updated version:\n\nBody."), "Body.");
    assert_eq!(clean("Here is code:\n\nBody."), "Here is code:\n\nBody.");
}
