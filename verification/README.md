# git_history

Counts the occurrences of a string (literally, case-insensitively, or as a regular
expression) in the files of a git repository's first-parent history.

* `git-history scan DIR STRING` reports how many times STRING occurs in the blobs that the
  history's commits add, modify or delete.
* `git-history timeline DIR STRING [-o FILE] [-i] [--regex] [--codeowners]` writes one
  JSON line per commit, oldest first, with the running number of matches and, with
  `--codeowners`, the running number per owner from each commit's CODEOWNERS file.

Layout:

* `src/` is the verified library (Verus): matching, per-change and per-commit deltas,
  CODEOWNERS handling, owner tallies, the timeline's running totals, the scan total, and
  the laws relating them (`src/laws.rs`).
* `app/` is the command-line program: argument parsing, reading the repository with gix,
  parallelism with rayon, and JSON output with serde.
* `tests/` exercises the library on concrete histories.
