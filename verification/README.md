# mvr

Renames or copies many files at once by rewriting their file names with a
regular expression, in the manner of zsh's `zmv`.

- `src/` is the library, verified with Verus: the rename plan (`graph`), the
  degree-counting graph (`network`), the command-line definition (`cli`), the
  JSON journal text (`logger`), and small types (`structs`). Path operations,
  regular expressions and text diffs come from `std::path`, `regex` and
  `dissimilar` through the wrappers in `paths`, `pattern` and `textdiff`.
- `app/` is the program: it reads the command line, looks at the file system,
  prints the plan, and performs the copies or moves.
- `tests/` exercises the library on concrete inputs.
