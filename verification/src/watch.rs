//! Clipboard decisions: what to do with a freshly read clipboard value, when a
//! pasteboard change count means the clipboard must be read, and the watcher's
//! state across ticks. The reading, writing and sleeping are the caller's.

use vstd::prelude::*;
use vstd::utf8::{decode_utf8, encode_utf8_decode_utf8, valid_utf8};
use crate::outside::str_from_utf8;
use crate::text::chars_of;
use crate::clean::{clean, spec_clean};
use crate::gate::{looks_like_terminal_output, spec_looks_like_terminal_output};

verus! {

/// What the clipboard watcher should do for one observed clipboard value.
#[derive(Debug, PartialEq, Eq)]
pub enum ClipboardAction {
    /// Do nothing: the value is unchanged, or it is non-text / non-UTF-8
    /// content that must not be touched.
    Skip,
    /// Overwrite the clipboard with this cleaned value.
    Replace(String),
    /// Already clean; adopt it as the new last-seen baseline without rewriting.
    Adopt(String),
}

/// The abstract value of a `ClipboardAction`.
pub enum ActionView {
    Skip,
    Replace(Seq<char>),
    Adopt(Seq<char>),
}

impl View for ClipboardAction {
    type V = ActionView;

    open spec fn view(&self) -> ActionView {
        match self {
            ClipboardAction::Skip => ActionView::Skip,
            ClipboardAction::Replace(s) => ActionView::Replace(s@),
            ClipboardAction::Adopt(s) => ActionView::Adopt(s@),
        }
    }
}

/// The decision for clipboard bytes `raw` after `last_seen`: skip anything
/// that is not UTF-8 or equals `last_seen`; otherwise replace it with its
/// cleaned form when cleaning changes it, else adopt it.
pub open spec fn spec_clipboard_action(last_seen: Seq<char>, raw: Seq<u8>) -> ActionView {
    if !valid_utf8(raw) {
        ActionView::Skip
    } else {
        let text = decode_utf8(raw);
        if text == last_seen {
            ActionView::Skip
        } else if spec_clean(text) != text {
            ActionView::Replace(spec_clean(text))
        } else {
            ActionView::Adopt(text)
        }
    }
}

/// Whether two character sequences are equal.
fn chars_eq(a: &[char], b: &[char]) -> (r: bool)
    ensures
        r == (a@ == b@),
{
    if a.len() != b.len() {
        return false;
    }
    let mut i: usize = 0;
    while i < a.len()
        invariant
            i <= a@.len(),
            a@.len() == b@.len(),
            forall|k: int| 0 <= k < i ==> #[trigger] a@[k] == b@[k],
        decreases a@.len() - i,
    {
        if a[i] != b[i] {
            return false;
        }
        i += 1;
    }
    assert(a@ =~= b@);
    true
}

/// The text that `raw` holds, when it is valid UTF-8.
fn decode(raw: &[u8]) -> (r: Option<&str>)
    ensures
        r.is_some() == valid_utf8(raw@),
        r matches Some(t) ==> t@ == decode_utf8(raw@),
{
    let r = str_from_utf8(raw);
    match r {
        Some(t) => {
            proof {
                encode_utf8_decode_utf8(t@);
            }
        },
        None => {},
    }
    r
}

/// Decide the watcher's action for a freshly observed clipboard, given the
/// last value it acted on and the raw bytes now on the clipboard. A non-UTF-8
/// clipboard (image, binary, another encoding) is skipped, never decoded with
/// an error and never clobbered.
pub fn clipboard_action(last_seen: &str, raw: &[u8]) -> (a: ClipboardAction)
    ensures
        a@ == spec_clipboard_action(last_seen@, raw@),
{
    let text = match decode(raw) {
        Some(t) => t,
        None => return ClipboardAction::Skip,
    };
    let tc = chars_of(text);
    let lc = chars_of(last_seen);
    if chars_eq(tc.as_slice(), lc.as_slice()) {
        return ClipboardAction::Skip;
    }
    let cleaned = clean(text);
    let cc = chars_of(cleaned.as_str());
    if !chars_eq(cc.as_slice(), tc.as_slice()) {
        ClipboardAction::Replace(cleaned)
    } else {
        ClipboardAction::Adopt(text.to_owned())
    }
}

/// The tracked change count after observing `current`, and whether the
/// clipboard must be read. An unreadable count (`None`) changes nothing; a
/// readable one always becomes the tracked count, and calls for a read only
/// when a different count was tracked before.
pub open spec fn observed(last_count: Option<isize>, current: Option<isize>) -> (Option<isize>, bool) {
    match current {
        None => (last_count, false),
        Some(c) => (
            Some(c),
            match last_count {
                Some(p) => p != c,
                None => false,
            },
        ),
    }
}

/// Record the pasteboard change count `current` and report whether it shows a
/// new copy that must be read. Each change is consumed here, before any read,
/// so a change whose content is skipped or fails to read is not read again.
pub fn observe_change(last_count: &mut Option<isize>, current: Option<isize>) -> (read: bool)
    ensures
        (*final(last_count), read) == observed(*old(last_count), current),
{
    match current {
        None => false,
        Some(c) => {
            let previous = *last_count;
            *last_count = Some(c);
            match previous {
                Some(p) => p != c,
                None => false,
            }
        },
    }
}

/// The value to write back for a one-shot clean of clipboard bytes `raw`: in
/// terminal-only mode only text that looks like terminal output is touched;
/// the value is written only when cleaning changes it.
pub open spec fn spec_clean_once(terminal_only: bool, raw: Seq<u8>) -> Option<Seq<char>> {
    if terminal_only && !(valid_utf8(raw) && spec_looks_like_terminal_output(decode_utf8(raw))) {
        None
    } else {
        match spec_clipboard_action(Seq::empty(), raw) {
            ActionView::Replace(c) => Some(c),
            _ => None,
        }
    }
}

/// The decision of a one-shot clipboard clean: the cleaned text to write back,
/// or `None` to leave the clipboard alone (non-text, already clean, or, in
/// terminal-only mode, not terminal output).
pub fn clean_clipboard_once(terminal_only: bool, raw: &[u8]) -> (w: Option<String>)
    ensures
        w matches Some(s) ==> spec_clean_once(terminal_only, raw@) == Some(s@),
        w is None ==> spec_clean_once(terminal_only, raw@) is None,
{
    if terminal_only {
        match decode(raw) {
            Some(text) => {
                if !looks_like_terminal_output(text) {
                    return None;
                }
            },
            None => return None,
        }
    }
    let empty = "";
    proof {
        reveal_strlit("");
    }
    assert(empty@ =~= Seq::<char>::empty());
    match clipboard_action(empty, raw) {
        ClipboardAction::Replace(cleaned) => Some(cleaned),
        _ => None,
    }
}

/// What the watcher tracks: the last change count and the last value acted on.
pub struct WatchView {
    pub count: Option<isize>,
    pub seen: Seq<char>,
}

/// One thing that happens to the watcher: a poll of the change count, a read
/// of the clipboard's bytes, or a successful write-back of a cleaned value
/// followed by a re-read of the change count.
pub enum WatchEvent {
    Poll(Option<isize>),
    Read(Seq<u8>),
    Written(Seq<char>, Option<isize>),
}

/// The tracked count after the watcher's own write: the count read right
/// after it, or the previous one when that could not be read.
pub open spec fn written_count(last_count: Option<isize>, count_after: Option<isize>) -> Option<
    isize,
> {
    match count_after {
        Some(c) => Some(c),
        None => last_count,
    }
}

/// The watcher's state after one event.
pub open spec fn watch_step(st: WatchView, ev: WatchEvent) -> WatchView {
    match ev {
        WatchEvent::Poll(c) => WatchView { count: observed(st.count, c).0, seen: st.seen },
        WatchEvent::Read(raw) => match spec_clipboard_action(st.seen, raw) {
            ActionView::Adopt(t) => WatchView { count: st.count, seen: t },
            _ => st,
        },
        WatchEvent::Written(t, c) => WatchView { count: written_count(st.count, c), seen: t },
    }
}

/// The watcher's state after a run of events, in order.
pub open spec fn watch_run(st: WatchView, evs: Seq<WatchEvent>) -> WatchView
    decreases evs.len(),
{
    if evs.len() == 0 {
        st
    } else {
        watch_step(watch_run(st, evs.drop_last()), evs.last())
    }
}

/// The clipboard watcher's state between ticks.
pub struct ClipboardWatcher {
    /// The last pasteboard change count seen (`None` until one is read).
    pub last_count: Option<isize>,
    /// The last clipboard value acted on.
    pub last_seen: String,
}

impl View for ClipboardWatcher {
    type V = WatchView;

    open spec fn view(&self) -> WatchView {
        WatchView { count: self.last_count, seen: self.last_seen@ }
    }
}

impl ClipboardWatcher {
    /// Start watching: record the current change count without reading the
    /// clipboard's existing content.
    pub fn new(initial_count: Option<isize>) -> (w: ClipboardWatcher)
        ensures
            w.last_count == initial_count,
            w.last_seen@ == Seq::<char>::empty(),
    {
        ClipboardWatcher { last_count: initial_count, last_seen: String::new() }
    }

    /// A poll tick with the change count now read (or `None` when it could not
    /// be read): whether the clipboard must be read.
    pub fn on_tick(&mut self, current: Option<isize>) -> (read: bool)
        ensures
            (final(self).last_count, read) == observed(old(self).last_count, current),
            final(self).last_seen@ == old(self).last_seen@,
            final(self)@ == watch_step(old(self)@, WatchEvent::Poll(current)),
    {
        observe_change(&mut self.last_count, current)
    }

    /// The clipboard was read: the cleaned text to write back, if any. An
    /// already-clean new value becomes the baseline at once.
    pub fn on_read(&mut self, raw: &[u8]) -> (write: Option<String>)
        ensures
            final(self)@ == watch_step(old(self)@, WatchEvent::Read(raw@)),
            final(self).last_count == old(self).last_count,
            spec_clipboard_action(old(self).last_seen@, raw@) is Skip ==> write is None
                && final(self).last_seen@ == old(self).last_seen@,
            spec_clipboard_action(old(self).last_seen@, raw@) matches ActionView::Replace(c)
                ==> (write matches Some(w) && w@ == c),
            spec_clipboard_action(old(self).last_seen@, raw@) is Replace
                ==> final(self).last_seen@ == old(self).last_seen@,
            spec_clipboard_action(old(self).last_seen@, raw@) matches ActionView::Adopt(t)
                ==> write is None && final(self).last_seen@ == t,
    {
        match clipboard_action(self.last_seen.as_str(), raw) {
            ClipboardAction::Skip => None,
            ClipboardAction::Replace(cleaned) => Some(cleaned),
            ClipboardAction::Adopt(text) => {
                self.last_seen = text;
                None
            },
        }
    }

    /// The cleaned text was written back: it becomes the baseline, and the
    /// change count that the write produced (when it can be read) is consumed
    /// so the write is not taken for a new copy.
    pub fn on_written(&mut self, cleaned: String, count_after: Option<isize>)
        ensures
            final(self).last_seen@ == cleaned@,
            final(self).last_count == written_count(old(self).last_count, count_after),
            final(self)@ == watch_step(old(self)@, WatchEvent::Written(cleaned@, count_after)),
    {
        match count_after {
            Some(c) => {
                self.last_count = Some(c);
            },
            None => {},
        }
        self.last_seen = cleaned;
    }
}

} // verus!
