# rust-rapport

Formats `cargo clippy --message-format json` output for GitHub Actions: a
Markdown summary table, workflow commands for inline PR annotations, or the
plain rendered diagnostics.

The library under `src/` is verified with Verus:

- `output` — the message types, their views and accessors;
- `level` — the two kept severities;
- `order` — the order in which diagnostics are kept (the derived `Ord` of
  `Output`), its proof of being a strict total order, and the comparisons;
- `collect` — folding the parsed lines into unique, ordered findings, the
  report, and the log of invalid lines;
- `print` — the three formatters;
- `text` — character-level helpers (numerals, newline escaping, first lines);
- `demo` — small string and integer helpers;
- `lib.rs` — `Mode`, `RunReport`, `Error`, `run` and `exit_code`.

`app/` is the command-line program: argument parsing (clap), reading stdin,
JSON decoding (serde, serde_json), and writing to stdout, stderr and
`$GITHUB_STEP_SUMMARY`.
