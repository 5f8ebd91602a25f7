# mdv

A markdown viewer for the desktop whose rendering and window logic is a
library verified with Verus. Math (`$..$`, `$$..$$`, `\(..\)`, `\[..\]`)
survives CommonMark untouched, code is highlighted with syntect, local `.md`
links navigate inside the window, large files stream in chunks, and review
mode appends a verdict to a feedback file.

## Layout

- `src/` — the verified library.
  - `text.rs`, `paths.rs`, `html.rs`: character-level helpers, `Path`
    semantics on text, HTML escaping.
  - `classify.rs`: file kind from the first 8 KB (magic bytes, UTF-8,
    structural-token density).
  - `math.rs`: the math stash (spans swapped for placeholders before parsing)
    and its restoration; `restore.rs` proves that restoring puts every span
    back where its placeholder stood and touches nothing else.
  - `markdown.rs`: the CommonMark pipeline over pulldown-cmark, link
    rewriting (`mdv://nav/`), highlighting through syntect.
  - `warnings.rs`: parse notices (unclosed fences, table column mismatch,
    references without definitions).
  - `size.rs`: byte counts as `{:.1}` prints them.
  - `render.rs`: render results, banners, the page, streamed chunks.
  - `assets.rs`: the page template, stylesheet and the `mdv-asset://` table.
  - `cli.rs`: which documents open, the window cap, the Wayland environment.
  - `window.rs`: per-window history, streaming state, review blocks, and the
    decisions taken on each message from the page.
- `app/main.rs` — the program: command line, files, `tao` windows, `wry`
  webviews, the event loop.
- `tests/` — tests of the library.

The KaTeX and Inter files served under `mdv-asset://` are read from the
`assets` directory installed beside the executable.
