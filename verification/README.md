# blastguard

A code-graph library for AI coding agents, written in Verus: every function
of the library carries a contract that Verus proves.

The library answers structural queries over a project's symbols and edges
(`find`, `callers of`, `outline of`, `chain from … to …`, `tests for`, …),
applies text edits with exact error reporting and reports what an edit
changed in the graph, with cascade warnings (SIGNATURE, ASYNC_CHANGE,
INTERFACE_BREAK, ORPHAN) naming the code that depends on what changed, and
parses test-runner output (jest, vitest, pytest,
cargo) to attribute failures to the symbols edited in the session.

## Layout

- `src/` — the verified library.
  - `graph/` — symbols, edges and their tables; callers, callees, shortest
    walks; the cascade detectors.
  - `parse/` — the language drivers (Rust, TypeScript/TSX, JavaScript/JSX,
    Python) over tree-sitter's syntax tree, symbol records, body hashing,
    import resolution (with `tsconfig.json` path aliases) and cross-file
    call resolution.
  - `index/` — building the graph from parses, content and tree hashes,
    refreshing the graph from them, applying file-watcher events.
  - `search/` — query classification, the structural backends, hit
    rendering, call-site context, the grep matcher.
  - `edit/` — text edits, symbol diffs, bundled context, the `apply_change`
    bookkeeping.
  - `runner/` — runner detection, command lines, output parsing, failure
    attribution.
  - `mcp/` — the tool handlers and the status resource.
- `app/` — the program around the library: process start, file-system walks
  and reads, the watcher, spawning test runners, wire formats.
- `tests/` — tests of the library.

Outside crates (`serde_json`, `seahash`, `blake3`, `strsim`, `toml`,
`regex`, `tree-sitter` and its grammars) are called from the library through small
trusted wrappers whose contracts name or state what the call returns.
