# crab-clean

An interactive terminal tool for finding and safely removing duplicate, old
and unused files. The logic lives in a library verified with Verus; a thin
program around it owns the terminal, the filesystem, the trash and the
configuration file.

## Layout

- `src/` — the verified library.
  - `clean_core/` — the data model, filters, size-text splitting and date
    parsing, duplicate grouping (size, then SHA-256 digest), age selection,
    the scan outcome, the walk's per-entry decisions and the delete report.
  - `tui/` — the application state machine. A key press (or the result of
    outside work) moves the state and yields an `Effect` naming the outside
    work to do next: listing a directory, starting a scan, deleting the marked
    files, emptying the trash, saving the configuration.
  - `config.rs`, `error.rs`, `cli.rs` — configuration values, the error type,
    and the command-line report grouping files by extension.
  - `text.rs`, `numbers.rs`, `sorting.rs` — characters, decimal numbers, and a
    stable sort by key.
- `app/` — the program: the event loop, the scan thread (walkdir, rayon,
  hashing each candidate file as it is read), the reading of a size's number
  in floating point, the trash, the TOML configuration file, and the ratatui
  rendering.
- `tests/` — tests of the library on concrete values.

Nothing is deleted unless the confirm screen is open and `y`/Enter is
pressed; the library proves that this is the only key that asks for a delete,
and that it names exactly the marked files.
