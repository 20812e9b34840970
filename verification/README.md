# SFMDE — Sascha Flavored Markdown Editor

A desktop editor for Sascha Flavored Markdown (SMD): Markdown whose
formatting symbols are all configurable. The library in `src/` holds the
editor's logic with contracts proved by Verus; `app/` is the GTK4 /
libadwaita window around it.

## Layout

- `src/text.rs` — character and UTF-8 helpers shared by the rest.
- `src/config.rs` — the configuration model: formatters, hotkeys,
  appearance, recent files, and how a local configuration wins over the
  global one.
- `src/parser/` — the SMD pipeline:
  - `preprocessor.rs` turns the configured symbols into HTML, escapes stray
    Markdown emphasis marks (but not inside autolinks and math spans, where
    the parser would keep the backslash), keeps indentation and runs of spaces visible as
    no-break spaces, and keeps a sorted map from every output byte to the
    source byte it came from;
  - `markdown.rs` is the boundary to pulldown-cmark's event stream;
  - `renderer.rs` renders the preview (blocks tagged with their source line)
    and the HTML documents around a body;
  - `styled.rs` renders the export body with inline styles;
  - `emoji.rs` is the emoji table.
- `src/markup.rs` — what a toolbar formatter does to the text: insert, wrap
  or unwrap the selection, or toggle a list symbol on each selected line.
- `src/editor.rs` — the editor style sheet, the adaptive toolbar layout, the
  keyboard shortcuts of the actions, tab titles, the preview warning for
  files that are not `.smd`, the unsaved-changes check, and the local-only
  preview policy.
- `src/nav.rs` — the per-tab cursor navigation history.
- `app/` — the application: windows, dialogs, file I/O, and reading and
  writing the TOML configuration files.
- `tests/` — tests of the library.
