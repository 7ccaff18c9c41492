//! Change-count gating of clipboard reads (`termpaste::observe_change`).
use termpaste::observe_change;

#[test]
fn startup_and_idle_do_not_read_clipboard() {
    let mut count = None;
    assert!(!observe_change(&mut count, Some(10)));
    assert_eq!(count, Some(10));
    assert!(!observe_change(&mut count, Some(10)));
}

#[test]
fn each_change_is_consumed_even_if_content_read_fails() {
    let mut count = Some(10);
    assert!(observe_change(&mut count, Some(11)));
    assert!(!observe_change(&mut count, Some(11)));
    assert!(observe_change(&mut count, Some(14)));
}

#[test]
fn native_failure_preserves_baseline_until_recovery() {
    let mut count = Some(10);
    assert!(!observe_change(&mut count, None));
    assert_eq!(count, Some(10));
    assert!(observe_change(&mut count, Some(11)));
}

#[test]
fn recorded_self_write_does_not_trigger_another_read() {
    let mut count = Some(12);
    assert!(!observe_change(&mut count, Some(12)));
    assert!(observe_change(&mut count, Some(13)));
}
