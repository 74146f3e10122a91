# oxtest

A Python test runner whose collection and run decisions are written in Verus
and proved against their contracts.

- `src/` is the verified library. It decides which files under a path are
  collected (`paths`, `globs`, `collection`), which tests a Python module holds
  and under which names, marks and keywords (`outline`), which fixtures a module
  declares and each test requests (`fixtures`), which tests a `-k` or `-m`
  expression keeps (`selection`), in which order tests are listed (`ordering`),
  when a sequential run stops and how a run is tallied (`execution`), and the
  text of the run report (`report`).
- What the library takes from outside is trusted, not proved, and each such
  item says what it claims in its doc comment: which paths a glob pattern
  matches (the `globset` crate; the library proves that the ignore set matches
  exactly what one of its patterns matches), what `std::path::Path` makes of a
  path, Unicode lowercasing, and the value Python gives a `-k`/`-m` expression
  (the library hands Python only expressions of names, numerals, `and`, `or`,
  `not`, `True`, `False`, `None` and parentheses, and states that a value
  Python gives is their value in Boolean logic; where Python fails to evaluate
  one, the test is not selected).
- `app/` is the command-line program around it: it walks the file system, runs
  the embedded Python interpreter (through `pyo3`) to read modules, call
  collection hooks and execute tests, runs tests in parallel with `rayon`, and
  prints listings, reports and JSON.
- `tests/` exercises the library on concrete modules, paths, expressions and
  runs.
