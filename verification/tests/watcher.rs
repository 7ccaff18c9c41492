//! The watcher's state machine and the one-shot clipboard decision.
use termpaste::{clean_clipboard_once, ClipboardWatcher};

#[test]
fn watcher_reads_only_after_a_change() {
    let mut w = ClipboardWatcher::new(Some(5));
    assert!(!w.on_tick(Some(5)));
    assert!(!w.on_tick(None));
    assert_eq!(w.last_count, Some(5));
    assert!(w.on_tick(Some(6)));
    assert!(!w.on_tick(Some(6)));
}

#[test]
fn watcher_replaces_dirty_text_and_then_ignores_its_own_write() {
    let mut w = ClipboardWatcher::new(Some(1));
    assert!(w.on_tick(Some(2)));
    let write = w.on_read("wrapped line\n  continues".as_bytes());
    assert_eq!(write.as_deref(), Some("wrapped line continues"));
    assert_eq!(w.last_seen, "");
    w.on_written(write.unwrap(), Some(3));
    assert_eq!(w.last_count, Some(3));
    assert_eq!(w.last_seen, "wrapped line continues");
    assert!(!w.on_tick(Some(3)));
    assert_eq!(w.on_read("wrapped line continues".as_bytes()), None);
}

#[test]
fn watcher_keeps_count_when_post_write_count_is_unreadable() {
    let mut w = ClipboardWatcher::new(Some(8));
    assert!(w.on_tick(Some(9)));
    let write = w.on_read("**bold**".as_bytes()).unwrap();
    assert_eq!(write, "bold");
    w.on_written(write, None);
    assert_eq!(w.last_count, Some(9));
    assert_eq!(w.last_seen, "bold");
}

#[test]
fn watcher_adopts_clean_text_and_skips_binary() {
    let mut w = ClipboardWatcher::new(None);
    assert!(!w.on_tick(Some(1)));
    assert_eq!(w.on_read(b"already clean."), None);
    assert_eq!(w.last_seen, "already clean.");
    assert_eq!(w.on_read(&[0xff, 0x00]), None);
    assert_eq!(w.last_seen, "already clean.");
}

#[test]
fn once_rewrites_only_dirty_text() {
    assert_eq!(
        clean_clipboard_once(false, "## Title".as_bytes()).as_deref(),
        Some("Title")
    );
    assert_eq!(clean_clipboard_once(false, b"clean prose."), None);
    assert_eq!(clean_clipboard_once(false, &[0xfe, 0xff]), None);
}

#[test]
fn once_terminal_only_leaves_ordinary_markdown_alone() {
    assert_eq!(clean_clipboard_once(true, "## Title".as_bytes()), None);
    assert_eq!(clean_clipboard_once(true, &[0xfe]), None);
    assert_eq!(
        clean_clipboard_once(true, "\u{23fa} The answer\n  is here.".as_bytes()).as_deref(),
        Some("The answer is here.")
    );
}

#[test]
fn a_run_reads_once_per_change_and_never_its_own_write() {
    let mut w = ClipboardWatcher::new(Some(100));
    let mut reads = 0;
    for count in [Some(100), None, Some(101), Some(102), None, Some(102)] {
        if w.on_tick(count) {
            reads += 1;
            if let Some(c) = w.on_read("**x**".as_bytes()) {
                w.on_written(c, Some(102));
            }
        }
    }
    assert_eq!(reads, 1);
    assert_eq!(w.last_count, Some(102));
    assert_eq!(w.last_seen, "x");
    assert!(!w.on_tick(Some(102)));
    assert_eq!(w.on_read(b"x"), None);
}
