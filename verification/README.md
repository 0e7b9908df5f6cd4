# jgrep

`grep` for structured data: filter JSON, NDJSON and YAML with jq
expressions, shortcut filters (`-p FIELD`, `-w TEST`), log-level colouring,
and an interactive explorer with schema hints and a live preview.

## Layout

- `src/` — the library, verified with Verus.
  - `shortcuts.rs`: `-p` / `-w` / explore expressions expanded into jq.
  - `run.rs`: a search run — the filter used, the documents of each input,
    what is printed for each result, per-file summaries, the exit status.
  - `discovery.rs`: which files a run reads, in path order.
  - `session.rs`, `preview.rs`, `explore.rs`: the explorer's state machine
    (editing, completion, history, toggles), its preview, and loading.
  - `color.rs`, `output.rs`: JSON syntax colouring, level colouring, output
    lines.
  - `schema.rs`: field paths and types inferred from documents.
  - `input.rs`, `value.rs`, `engine.rs`, `matcher.rs`: formats, the value
    model, and the trusted calls into the jq engine and the readers.
  - `text.rs`, `utf8_len.rs`, `numeric.rs`, `order.rs`: text helpers and
    their lemmas.
  - `completion.rs`, `bench.rs`, `cli.rs`: shell names, benchmark helpers,
    the command line.
- `app/` — the program: argument parsing (clap), files and standard
  streams, directory walking, the terminal interface (ratatui, crossterm),
  shell completion scripts, and the benchmark driver.
- `tests/` — tests of the library.

Laws of the library are public proof functions named `law_*`.
