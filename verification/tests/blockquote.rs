//! Blockquote markers are presentation chrome: a leading run of `>` is
//! stripped and the inner text reflows as prose, while code keeps its `>`.
use termpaste::clean;

#[test]
fn wrapped_blockquote_prefix_reflowed() {
    let input = "...automatically, locally,\n  > before Cmd+V.";
    assert_eq!(clean(input), "...automatically, locally, before Cmd+V.");
}

#[test]
fn standalone_blockquote_marker_stripped() {
    assert_eq!(clean("> A deliberate quote line"), "A deliberate quote line");
}

#[test]
fn blockquote_after_prose_joins() {
    assert_eq!(clean("They said:\n> ship it Friday"), "They said: ship it Friday");
}

#[test]
fn blockquote_stripped_but_inline_code_gt_preserved() {
    assert_eq!(
        clean("> use `a > b` in the guard"),
        "use `a > b` in the guard"
    );
}

#[test]
fn blockquote_inside_fence_is_verbatim() {
    let input = "```\n> stays a quote\n```";
    assert_eq!(clean(input), input);
}

#[test]
fn blockquote_strip_is_idempotent() {
    let once = clean("> one\n> two");
    assert_eq!(once, "one two");
    assert_eq!(clean(&once), once);
}

#[test]
fn deep_quote_run_is_stripped_once_and_for_all() {
    let once = clean(">>> > >  deep");
    assert_eq!(once, "deep");
    assert_eq!(clean(&once), once);
}
