# pyfastgrep

A file search library in the style of ripgrep, written in Verus: regular
expression search over the files of a directory tree, and syntax-aware search
(tree-sitter) for the definitions of functions, classes and imports in Rust,
Python, C, C++, Go, JavaScript and TypeScript.

- `src/` is the verified library. The caller hands it the walked entries (and
  their contents); it decides which files are searched, what each yields, in
  which order, how many hits are kept, and that syntax hits are not repeated.
  - `ast.rs`: the supported languages and their syntax queries.
  - `text.rs`: string helpers (equality, substring search, `str::lines`,
    `Path::extension`) proved against their specifications.
  - `matcher.rs`, `glob.rs`, `syntax.rs`: the calls into `grep`, `globset`
    and `tree-sitter`, with the contracts the library relies on.
  - `search.rs`, `ast_search.rs`: the two searches and their laws.
  - `csv.rs`: CSV text of results (RFC 4180 quoting).
- `app/` is the command-line program (text, JSON or CSV output, to a file
  with `--output`; `--functions`, `--classes`, `--imports` for syntax search)
  and the Python bindings (keyword options `case_insensitive`, `limit`,
  `as_json`, `as_csv`, `output_path`; streaming `_iter` forms): directory
  walking (honouring ignore files), file reading, parallelism and streaming.
- `tests/` runs the library on concrete inputs.
