# fileql

A small file toolkit: `list`, `create`, `search` (exact or fuzzy, with
context lines) and a query language (`SEARCH name: 'x' IN 'dir'; MOVE ...`).

- `src/` is the verified library:
  - `text`: character classes, trimming, `;`-splitting, decimal numerals;
  - `query_language::lexer` / `parser`: the token language;
  - `query_language::pattern`: anchored line patterns (literal, lazy,
    greedy-tail, optional and choice pieces) with backtracking priorities;
  - `query_language::ql`: the command grammar and query splitting;
  - `commands::{create, list, search}`: the decisions and line matching
    behind the commands; fuzzy scores come from `fuzzy-matcher`;
  - `commands::report`: the text of a search report as toned segments.
- `app/` is the command-line program: argument parsing, the file system,
  directory walking in parallel, and printing the segments in colour.
