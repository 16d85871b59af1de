# codeatlas

A verified library that maps a repository: it reads the structural facts
each supported language's syntax tree holds (symbols, imports, calls,
re-exports), resolves imports and calls to the scanned files, derives
layers, significance, domain flows and a guided tour, plans and lands
model-written prose into the map without ever creating facts, keeps that
prose across rescans while its inputs are unchanged, answers questions
from a bounded slice of the map, highlights source for display, and
writes a redacted, self-contained share file.

Layout:

- `src/` — the library, verified with Verus. `map` is the map contract;
  `scan` and `scan/resolve` build it; `parsers` reads the syntax trees that
  `tree-sitter` produces (one module per language family, plus Rust's and
  Go's import resolution); `semantics` derives the mechanical layers;
  `enrich` plans, lands, stores and re-attaches prose, and answers
  questions; `highlight`, `share`, `diff` and `launcher` serve the
  remaining commands. Calls into outside crates sit behind small trusted
  wrappers, each documented with what it claims.
- `tests/` — the tests, run against the compiled library.
- `app/` — the program around the library: the command line, file and
  network I/O, JSON, threads and the terminal.
