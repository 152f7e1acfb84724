# meta_indexer

An MCP server that indexes a TypeScript monorepo and answers questions about
it: who imports a symbol or package (`find_dependents`), which asynchronous
flows an event or job takes part in (`analyze_impact`), which gRPC contracts,
callers and controllers a method has (`analyze_grpc`), which sections of the
architecture documentation match a query (`search_docs`), and where a text
occurs with its syntactic context (`smart_search`).

## Layout

- `src/` — the library, verified with Verus. Every scanner, index, query and
  report is a function from plain values (file paths and contents, strings,
  graphs) to plain values, with a contract over mathematical models
  (`Seq`, `Map`, `Set` and views of the graphs).
  - `domain/` — the graphs (asynchronous flows, gRPC contracts,
    documentation) and their views.
  - `infrastructure/scanners/` — building the graphs from file contents;
    `async_laws.rs`, `async_links.rs` and `grpc_laws.rs` prove what every
    scanning step keeps.
  - `engine/` — the queries and reports of the tools, the import graph and
    the fuzzy ranking.
  - `tools/` — the answers of the tools, the syntactic context of a line and
    how ripgrep's output is read.
  - `protocol.rs`, `workspace.rs`, `infrastructure/watcher.rs` — request
    routing, the choice of the workspace root, and which indexes a change of
    files makes stale.
  - `pattern.rs`, `std_text.rs`, `text.rs`, `utf8_len.rs`, `strmap.rs`,
    `ranking.rs` — regular expressions, text, UTF-8 offsets, insertion-ordered
    maps, sorted sets and stable ranking.
- `app/` — the server itself: standard input and HTTP transports, JSON,
  walking and reading the workspace, running ripgrep, file watching.
- `tests/` — tests of the library on concrete inputs.
