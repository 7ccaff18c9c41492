# termpaste

Cleans text copied out of an AI coding-agent terminal so that it pastes as
plain prose: terminal wraps are joined, response glyphs, ANSI codes and
Markdown scaffolding are removed, and fenced or inline code is kept verbatim.

The library in `src/` states a contract for each function and proves it:

- `text.rs`: trimming, splitting, joining and searching over `Seq<char>`.
- `lines.rs`: classifiers for one prose line (rules, tables, headings, lists).
- `prose.rs`: gutter and blockquote removal, reflow, emphasis stripping.
- `clean.rs`: block splitting, preamble detection and `clean` itself.
- `gate.rs`: `looks_like_terminal_output`, the terminal-output pre-gate.
- `watch.rs`: clipboard decisions (`clipboard_action`, `observe_change`,
  `ClipboardWatcher`, `clean_clipboard_once`).
- `laws.rs`: properties of the library as a whole, proved.
- `outside.rs`: the trusted calls into `regex` and into std functions that
  vstd does not specify.

`app/main.rs` is the command-line program: a stdin/stdout filter, plus macOS
clipboard modes that read with `pbpaste`, write with `pbcopy` and poll the
pasteboard change count through AppKit.
