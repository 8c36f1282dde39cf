# pifbip — Put In Folder By Interactive Prompt

Bulk file sorting by hand: for each file of a source folder, show a preview,
ask for a destination subfolder (with fuzzy suggestions, most recently used
first), and move the file there. Files can be skipped, and stepping back
undoes what was done to the previous file.

## Layout

- `src/` — the library, verified with Verus. It holds the decisions of the
  program (which files, in which order, where each one goes, what the
  counters say, what the prompt and previews show); the disk, the terminal
  and the windows are left to the caller, which hands in what it read and
  carries out what the library decides. Floating-point work (scaling a
  picture into the preview window) stays with the caller.
  - `session.rs` — the sorting session: current file, move/skip/undo
    records, counters, recently used folders.
  - `walk.rs` — collecting the files below the source folder, depth-limited,
    hidden entries left out, in path order.
  - `files.rs`, `names.rs` — subfolder listing order, free names for
    colliding destinations, the stem/extension split of file names.
  - `rank.rs` — fuzzy ranking of folder names (via `fuzzy-matcher`).
  - `kind.rs`, `preview.rs`, `size.rs` — file kinds (by extension, then by
    content via `infer`), preview text, human-readable sizes.
  - `prompt.rs`, `status.rs` — the terminal prompt's key handling and the
    lines it draws.
  - `player.rs`, `video.rs` — the looping video preview and frame buffers.
  - `gui.rs` — the setup form, status lines and screen texts of a desktop
    front end. Only these decisions are here: no desktop program is built
    from this crate.
- `tests/` — tests of the library.
- `app/` — the terminal program (the only program built): argument
  parsing, disk and terminal I/O, the preview window, and the loops that
  drive the library.
