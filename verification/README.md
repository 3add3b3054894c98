# novelbase-memory-mcp

A knowledge-graph MCP server for novel writing: chapters written in a small
Markdown format are parsed into characters, locations, relationships, plot
phases, conflicts, the social environment, foreshadowings, twists and tags, kept in
an in-memory graph, written to SQLite and served over MCP (JSON-RPC on
stdin/stdout), a command line and a web UI.

## Layout

- `src/` — the library, verified with Verus.
  - `text.rs` — character-level text helpers (trimming, splitting, lines,
    decimal numbers) with their specifications.
  - `models/` — node labels, edge types, properties (a JSON object of
    scalars), nodes and edges, each with a view.
  - `pipeline/graph_buf.rs` — the graph buffer: nodes unique by qualified
    name, edges unique by (source, target, type), ids from one counter; its
    laws (read after write, deduplication, deletion, merging).
  - `pipeline/passes/` — the import passes: discovering new or modified
    chapter files,
    parsing chapters (`parse_chapter.rs`) and merging them into the graph
    (`chapter_graph.rs`), choosing what to embed.
  - `store.rs` — file hashes, rows of the store read back as nodes and
    edges, the integer sums of the vector cosine.
  - `mcp.rs` — request routing and the tools' answers.
  - `cli.rs`, `ui.rs` — the commands and what they print; the web view's data.
- `app/` — the program: argument parsing, SQLite, the JSON-RPC loop, the web
  server, file reading and the embedding model.
- `tests/` — tests of the library.
