# clab

A code-index engine: it extracts symbols from source files, searches them and the lines of the
files, reports what changed since an index was made, and turns a question about code into a short
plan of places to read.

- `src/` is the library. Every function has a contract, and Verus proves it. What is believed
  without proof is what a few functions of `serde_json` and of the standard library return; each
  is named in the doc comment of the item that says so (`text.rs`, `json.rs`, `wire.rs`,
  `git.rs`).
- `tests/` runs the library on concrete values.
- `app/` is the program around it: command line, HTTP server, files, git and the clock.

## Modules

| Module | What it holds |
| --- | --- |
| `text`, `paths`, `seqs`, `order` | characters, lines, paths, filters, stable arrangement |
| `json`, `wire` | JSON trees, and their text through `serde_json` |
| `types`, `scanner`, `git`, `util` | indexes, symbols, change entries, arguments, windows |
| `architecture`, `store` | architecture maps, tool calls, searches, change reports |
| `terms`, `steps`, `ranking`, `search`, `plan` | from a query to a ranked and bounded plan |
| `mcp`, `skills`, `daemon` | the tools as a protocol server, stored notes, auto-indexing |

JSON numbers that are no integers are carried, never computed with: a confidence is a whole number
of hundredths until it is written.
