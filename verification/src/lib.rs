//! Cleans text copied out of an AI coding-agent terminal so that it pastes as
//! plain prose: terminal wraps are joined, terminal chrome and Markdown
//! scaffolding are removed, and code is passed through untouched.
//!
//! `clean` is the cleaner; `looks_like_terminal_output` is the pre-gate that
//! decides whether copied text is terminal output at all; `clipboard_action`,
//! `observe_change` and `ClipboardWatcher` are the clipboard watcher's
//! decisions, with the clipboard access itself left to the caller.

pub mod outside;
pub mod text;
pub mod lines;
pub mod prose;
pub mod clean;
pub mod gate;
pub mod watch;
pub mod laws;

pub use clean::clean;
pub use gate::looks_like_terminal_output;
pub use watch::{clean_clipboard_once, clipboard_action, observe_change};
pub use watch::{ClipboardAction, ClipboardWatcher};
