# qwn_analysis

Verified text, table and decision logic of the quantum work network
analysis programs, written in Verus.

- `src/text.rs` — character-level model of text: splitting at a separator,
  `str::lines` semantics, blank lines, and the laws that splitting and
  joining undo each other.
- `src/csv.rs` — comma-separated tables: whole tables, keyed row search,
  records with map semantics (a later duplicate column wins), required
  columns and width checks.
- `src/report.rs` — words, quoted fields and check-table lines written to the
  result files, with the law that a written line reads back as its fields.
- `src/numbers.rs` — decimal text of counts and `parse::<usize>` semantics.
- `src/guards.rs` — refusing to overwrite outputs, missing references and
  the tally of a check table.
- `src/verdict.rs` — eigenvalue-solver selection, diagnostic counts and the
  classification of runs and milestone reports.
- `src/switches.rs` — confirmed switches of a time-resolved preference label.
- `src/conditions.rs` — the simulated conditions with exact total rates and
  the time-step schedules.

`app/` holds the command-line steps that run on saved result files, the
floating-point formatting, rankings and eigenvalue solvers (through
`nalgebra`) around the library.
