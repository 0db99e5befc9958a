# dusty

A terminal disk-usage browser. The library (`src/`) is verified with Verus;
the program around it (`app/`) does the terminal and file-system work.

- `src/files.rs` — entry records, the case-insensitive stable listing order,
  and directory size totals.
- `src/browser.rs` — the browser's state machine (selection, scrolling, the
  two-step removal dialogue, entering directories) with its laws.
- `src/screen.rs` — what the screen shows for a state.
- `src/size_cache.rs` — which directory sizes are known or being measured;
  each path is measured at most once.
- `src/layout.rs` — the screen layout, cut by ratatui's solver: bars on the
  first and last rows, the rows between split into two halves.
- `src/text.rs` — byte-bounded truncation and decimal rendering.
- `src/lang.rs` — the interface texts and the choice of language.
- `src/cli.rs` — the command-line options.

The text catalogues are read at start-up from `assets/<language>.json`,
beside the program or in the working directory.
