# diff3

A verified three-way line comparison: it aligns "mine", an older version and
"yours" of a file, groups the alignment into hunks, and writes the hunks as a
merged file, in the normal format or as an ed script.

- `src/lines.rs` — lines as byte strings; splitting a file into lines.
- `src/diffing.rs` — the edit script between two sequences of lines, from the
  `diff` crate, and the facts the library relies on.
- `src/align.rs` — the three-way alignment (`match_sequence`).
- `src/merge.rs` — hunks (`make_merged`) and resolutions (`calculate_merge`).
- `src/output.rs` — the merged file, with conflict markers.
- `src/writers.rs` — the normal and ed output formats.
- `src/options.rs` — the command line options.
- `src/run.rs` — the whole comparison.
- `app/main.rs` — the command: arguments, files, standard output.
