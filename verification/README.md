# nota_bene

Test metadata for Jupyter notebooks. Every code cell of a notebook can carry
fixtures, a diff and a test in its metadata, with fingerprints that say against
which version of the notebook it was accepted. The library reads and writes this
metadata, finds out which cells have gone stale, makes the notebooks in which
the metadata is edited and the tests run, and brings edits back. What each
function does is stated in its contract and proved with Verus.

- `src/` is the verified library. Modules that end in `_laws` hold what relates
  several functions: what a read gives back of a write, what accepting a cell
  clears, what going through the editor keeps, what undoes a diff.
- `app/` is the program around it: command line, files, the Python process that
  executes notebooks, the language server and the MCP server.
- `tests/` runs the library on concrete notebooks.

Some crates are called from the library through small functions whose contracts
are taken on trust: `serde_json`, `nbformat`, `diffy`, `indexmap`, `lru`,
`jsonc-parser`, `canonical_json`, `sha1`, `uuid` and, for the errors of
`nbformat`, `anyhow`. The doc comment above each
of these functions says what is claimed of the crate.
