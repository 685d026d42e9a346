# clipd

Clipboard history with rich metadata: every copy is stored with its source
application, capture time and content type, deduplicated by content hash,
and kept within a history limit that never evicts pinned clips.

Layout:

- `src/` — the library, written and proved with Verus:
  - `text.rs`: trimming, substring search, splitting and line splitting,
    quoting;
  - `models.rs`: content types and their stored names, clip entries,
    previews, times;
  - `clipboard.rs`: content-type detection, content hashing, change
    detection between polls, reading the source application from probe
    output;
  - `config.rs`: configuration defaults, paths, the ignore list;
  - `store.rs`: listing order, eviction, tags, search quoting, rows;
  - `daemon.rs`: the daemon loop as a state machine, one tick's capture
    decision, PID text, and the steps of `daemon start` and `daemon stop`;
  - `panel.rs`: the panel's view of a clip;
  - `report.rs`: the table and CSV lines that `list` and `export` print.
- `app/` — the `clipd` command-line program: arguments, SQLite, the
  clipboard, processes and the daemon's event loop.
- `tests/` — tests of the library on concrete values.
