# textutils

Small text utilities — `cat`, `head`, `wc`, `uniq`, `find`, `grep` and
`comm` — whose logic is a library verified with Verus.

- `src/` is the library. `text` holds shared character helpers (Unicode
  whitespace, decimal numbers, right alignment); `pattern` wraps the
  `regex` crate; each utility has a module of its own with its contracts
  and the laws it keeps.
- `app/` is the program: one subcommand per utility, with argument
  parsing (`clap`), file and standard-stream I/O and directory walks
  (`walkdir`).
- `tests/` runs the library on concrete inputs.
