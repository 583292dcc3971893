# llm_wiki

The core of a git-backed wiki engine that turns a folder of Markdown pages
into a searchable knowledge base, written in Verus. The library's public
operations state what they return in contracts that Verus proves; small
private helpers and trait impls such as `Clone` carry contracts only where
their callers need them. Calls into `regex`, `petgraph`, `petgraph_live`,
`chrono`, `serde_json` and parts of `std` go through a few trusted wrappers
whose contracts restate what those crates document.

## Layout

- `src/` — the verified library.
  - `text`, `pathutil`: character-level string helpers and path operations.
  - `slug`: page slugs, their validation and normalization, `wiki://` URIs
    and the resolution of page and asset files.
  - `links`: `[[wikilinks]]`, Markdown links and frontmatter links of a page.
  - `config`: configuration sections and the merge of global and per-wiki
    settings.
  - `redact`, `ingest`: secret redaction of page bodies, line-ending
    normalization and the planning of an ingest.
  - `graph`, `graph_build`, `graph_merge`, `subgraph`, `communities`:
    the concept graph, its construction from indexed pages, cross-wiki
    merging, neighbourhoods and the integer side of community detection.
  - `render`, `render_llms`, `ops_graph`: Mermaid, DOT, JSON and text
    renderings, and graph request handling.
  - `lint`, `lint_graph`, `lint_report`: lint rules, graph-structure rules
    and the filtered, sorted, paged report.
  - `suggest`, `edge_targets`, `search_types`, `params`: related-page
    suggestions, edge type checks, search filters and paging, and the
    parameter-size guard.
  - `default_schemas`: recognising copies of the stock schema files by
    JSON equality.
  - `index_manager`, `indexing`, `watch`, `ops_logs`, `ops_stats`,
    `ops_wikis`, `acp`: index staleness and maintenance decisions, watcher
    decisions, logs, statistics, schema migration and agent sessions.
- `tests/` — tests of the library on concrete values.
- `app/` — the `wiki` command line: argument handling, file I/O, git, and
  the floating-point parts (community clustering, graph averages).
