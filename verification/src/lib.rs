//! A git-backed wiki engine's core: slugs and `wiki://` URIs, link extraction,
//! configuration resolution, redaction, the concept graph and lint rules.
use vstd::prelude::*;

pub mod text;
pub mod config;
pub mod slug;
pub mod links;
pub mod redact;
pub mod ingest;
pub mod graph;
pub mod subgraph;
pub mod graph_build;
pub mod graph_merge;
pub mod render;
pub mod lint;
pub mod lint_graph;
pub mod lint_report;
pub mod ops_graph;
pub mod render_llms;
pub mod acp;
pub mod pathutil;
pub mod index_manager;
pub mod watch;
pub mod indexing;
pub mod ops_logs;
pub mod ops_wikis;
pub mod ops_stats;
pub mod search_types;
pub mod communities;
pub mod edge_targets;
pub mod suggest;
pub mod params;
pub mod search_render;
pub mod default_schemas;

verus! {
} // verus!
