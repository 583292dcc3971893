use std::sync::Arc;

use llm_wiki::communities::{
    community_data, community_stats, local_adjacency, local_nodes_by_slug, renumber_communities,
    CommunityData, CommunityStats,
};
use llm_wiki::graph::{Direction, LabeledEdge, PageNode, WikiGraph};
use llm_wiki::graph_build::{build_graph, EdgeDecl, EdgeField, GraphDoc, GraphFilter};
use llm_wiki::graph_merge::{build_graph_cross_wiki, merge_cached_graphs};
use llm_wiki::render::{orphan_count, render_dot, render_mermaid};
use llm_wiki::render_llms::render_llms;
use llm_wiki::subgraph::subgraph;

fn make_node(slug: &str, title: &str, page_type: &str, external: bool) -> PageNode {
    PageNode {
        slug: slug.to_string(),
        title: title.to_string(),
        page_type: page_type.to_string(),
        external,
    }
}

fn links_to() -> LabeledEdge {
    LabeledEdge { relation: "links-to".to_string() }
}

#[test]
fn community_data_constructs() {
    let data = CommunityData {
        local_count: 3,
        map: vec![("slug-a".to_string(), 0usize)],
        stats: CommunityStats { count: 1, largest: 1, smallest: 1 },
    };
    assert_eq!(data.local_count, 3);
    assert_eq!(data.community_of("slug-a"), Some(0));
    assert_eq!(data.stats.count, 1);
}

#[test]
fn render_mermaid_node_ids_are_valid_and_unique() {
    let mut g = WikiGraph::new();
    let a = g.add_node(make_node("concepts/arc-str", "Arc<str> for Shared Immutable Strings", "concept", false));
    let b = g.add_node(make_node("concepts/send-sync", "Send and Sync: Thread Safety in Rust", "concept", false));
    let c = g.add_node(make_node("concepts/try-join", "try_join! macro", "concept", false));
    g.add_edge(a, b, links_to());
    g.add_edge(b, c, links_to());

    let output = render_mermaid(&g);

    assert!(output.contains(&format!("N{}[", a)), "node a ID missing: {output}");
    assert!(output.contains(&format!("N{}[", b)), "node b ID missing: {output}");
    assert!(output.contains(&format!("N{}[", c)), "node c ID missing: {output}");
    assert!(output.contains("Arc<str> for Shared Immutable Strings"), "label a missing");
    assert!(output.contains("Send and Sync: Thread Safety in Rust"), "label b missing");
    assert!(output.contains("try_join! macro"), "label c missing");
    assert!(output.contains(&format!("N{} -->|links-to| N{}", a, b)), "edge a→b missing: {output}");
}

#[test]
fn render_mermaid_external_node_id_valid() {
    let mut g = WikiGraph::new();
    let local = g.add_node(make_node("concepts/foo", "Foo Concept", "concept", false));
    let ext = g.add_node(make_node("bar", "wiki://otherwiki/bar", "external", true));
    g.add_edge(local, ext, links_to());

    let output = render_mermaid(&g);

    assert!(output.contains(&format!("N{}[", ext)), "external node ID must be N{{n}}, got: {output}");
    assert!(!output.contains("wiki__"), "wiki:// must not appear as sanitized ID fragment: {output}");
}

#[test]
fn wiki_graph_node_for_slug_is_o1() {
    let mut g = WikiGraph::new();
    g.add_node(make_node("alpha", "Alpha", "page", false));
    g.add_node(make_node("beta", "Beta", "page", false));
    assert!(g.node_for_slug("alpha").is_some());
    assert!(g.node_for_slug("beta").is_some());
    assert!(g.node_for_slug("missing").is_none());
}

#[test]
fn subgraph_root_not_found_returns_empty() {
    let g = WikiGraph::new();
    let sub = subgraph(&g, "no-such-slug", 2);
    assert_eq!(sub.node_count(), 0);
    assert_eq!(sub.edge_count(), 0);
}

#[test]
fn subgraph_single_node_depth_zero() {
    let mut g = WikiGraph::new();
    g.add_node(make_node("root", "Root", "page", false));
    g.add_node(make_node("other", "Other", "page", false));
    g.add_edge(g.node_for_slug("root").unwrap(), g.node_for_slug("other").unwrap(), links_to());
    let sub = subgraph(&g, "root", 0);
    assert_eq!(sub.node_count(), 1);
}

// ── further cases ─────────────────────────────────────────────────────────

fn chain(n: usize) -> WikiGraph {
    let mut g = WikiGraph::new();
    for i in 0..n {
        g.add_node(make_node(&format!("p{i}"), &format!("P{i}"), "page", false));
    }
    for i in 1..n {
        g.add_edge(i - 1, i, links_to());
    }
    g
}

#[test]
fn subgraph_follows_edges_both_ways_up_to_depth() {
    let g = chain(5);
    let sub = subgraph(&g, "p2", 1);
    let slugs: Vec<String> = (0..sub.node_count()).map(|i| sub.node(i).slug.clone()).collect();
    assert_eq!(slugs, vec!["p1".to_string(), "p2".to_string(), "p3".to_string()]);
    assert_eq!(sub.edge_count(), 2);
}

#[test]
fn node_for_slug_finds_the_last_node_with_the_slug() {
    let mut g = WikiGraph::new();
    g.add_node(make_node("dup", "First", "page", false));
    g.add_node(make_node("dup", "Second", "page", false));
    assert_eq!(g.node_for_slug("dup"), Some(1));
}

#[test]
fn render_dot_lists_nodes_and_edges() {
    let mut g = WikiGraph::new();
    let a = g.add_node(make_node("a", "A", "concept", false));
    let b = g.add_node(make_node("b", "B", "paper", false));
    g.add_edge(a, b, links_to());
    let dot = render_dot(&g);
    assert_eq!(
        dot,
        "digraph wiki {\n  \"a\" [label=\"A\" type=\"concept\"];\n  \"b\" [label=\"B\" type=\"paper\"];\n  \"a\" -> \"b\" [label=\"links-to\"];\n}\n"
    );
}

#[test]
fn orphans_have_no_edges() {
    let mut g = chain(2);
    g.add_node(make_node("lonely", "Lonely", "page", false));
    assert_eq!(orphan_count(&g), 1);
}

#[test]
fn render_llms_mentions_the_pages() {
    let g = chain(3);
    let text = render_llms(&g);
    assert!(text.contains("P0"), "{text}");
    assert!(text.contains("3"), "{text}");
}

fn doc(slug: &str, page_type: &str, body_links: &[&str]) -> GraphDoc {
    GraphDoc {
        slug: slug.to_string(),
        title: slug.to_uppercase(),
        page_type: page_type.to_string(),
        body_links: body_links.iter().map(|s| s.to_string()).collect(),
        edge_decls: vec![],
        edge_fields: vec![],
    }
}

#[test]
fn build_graph_links_pages_and_adds_placeholders() {
    let docs = vec![
        doc("a", "concept", &["b", "missing", "wiki://other/x", "a"]),
        doc("b", "concept", &[]),
    ];
    let g = build_graph(&docs, &GraphFilter::default());
    assert_eq!(g.node_count(), 3);
    assert!(g.node(2).external);
    assert_eq!(g.node(2).slug, "wiki://other/x");
    assert_eq!(g.edge_count(), 2);
    let (from, to, e) = g.edge(0);
    assert_eq!((from, to, e.relation.as_str()), (0, 1, "links-to"));
}

#[test]
fn build_graph_uses_declared_relations_and_type_filter() {
    let mut a = doc("a", "paper", &[]);
    a.edge_decls = vec![EdgeDecl {
        field: "sources".to_string(),
        relation: "cites".to_string(),
        target_types: vec![],
    }];
    a.edge_fields = vec![EdgeField { field: "sources".to_string(), targets: vec!["b".to_string()] }];
    let docs = vec![a, doc("b", "paper", &[]), doc("c", "note", &["a"])];
    let g = build_graph(&docs, &GraphFilter::default());
    assert_eq!(g.edge(0).2.relation, "cites");
    let mut only_papers = GraphFilter::default();
    only_papers.types = vec!["paper".to_string()];
    let g2 = build_graph(&docs, &only_papers);
    assert_eq!(g2.node_count(), 2);
    assert_eq!(g2.edge_count(), 1);
}

#[test]
fn cross_wiki_graph_prefixes_slugs_with_wiki_names() {
    let wikis = vec![
        ("one".to_string(), vec![doc("a", "note", &["wiki://two/b"])]),
        ("two".to_string(), vec![doc("b", "note", &[])]),
    ];
    let g = build_graph_cross_wiki(&wikis, &GraphFilter::default());
    let slugs: Vec<String> = (0..g.node_count()).map(|i| g.node(i).slug.clone()).collect();
    assert!(slugs.contains(&"one/a".to_string()), "{slugs:?}");
    assert!(slugs.contains(&"two/b".to_string()), "{slugs:?}");
}

#[test]
fn merged_graph_keeps_every_local_node() {
    let wikis = vec![("one".to_string(), Arc::new(chain(2))), ("two".to_string(), Arc::new(chain(3)))];
    let g = merge_cached_graphs(&wikis, &GraphFilter::default());
    let local = (0..g.node_count()).filter(|&i| !g.node(i).external).count();
    assert_eq!(local, 5);
}

// ── communities ───────────────────────────────────────────────────────────

#[test]
fn adjacency_is_undirected_and_skips_external_pages() {
    let mut g = chain(3);
    let ext = g.add_node(make_node("wiki://x/y", "wiki://x/y", "external", true));
    g.add_edge(0, ext, links_to());
    let adj = local_adjacency(&g);
    assert_eq!(adj.len(), 4);
    assert_eq!(adj[0], vec![1]);
    let mut mid = adj[1].clone();
    mid.sort();
    assert_eq!(mid, vec![0, 2]);
    assert!(adj[3].is_empty());
}

#[test]
fn local_pages_are_ordered_by_slug() {
    let mut g = WikiGraph::new();
    g.add_node(make_node("c", "C", "page", false));
    g.add_node(make_node("a", "A", "page", false));
    g.add_node(make_node("wiki://x/b", "B", "external", true));
    g.add_node(make_node("b", "B", "page", false));
    assert_eq!(local_nodes_by_slug(&g), vec![1, 3, 0]);
}

#[test]
fn communities_are_renumbered_by_first_appearance() {
    let (ids, count) = renumber_communities(&vec![7, 3, 7, 9, 3]);
    assert_eq!(ids, vec![0, 1, 0, 2, 1]);
    assert_eq!(count, 3);
    let stats = community_stats(&ids, count);
    assert_eq!(stats, CommunityStats { count: 3, largest: 2, smallest: 1 });
}

#[test]
fn community_data_pairs_slugs_with_new_ids() {
    let g = chain(3);
    let order = local_nodes_by_slug(&g);
    let data = community_data(&g, &order, &vec![5, 5, 2]);
    assert_eq!(data.local_count, 3);
    assert_eq!(data.community_of("p0"), Some(0));
    assert_eq!(data.community_of("p2"), Some(1));
    assert_eq!(data.stats.count, 2);
    assert_eq!(data.community_of("nope"), None);
}

#[test]
fn center_slugs_lists_local_central_pages_only() {
    let mut g = WikiGraph::new();
    g.add_node(make_node("a", "A", "concept", false));
    g.add_node(make_node("wiki://x/y", "wiki://x/y", "external", true));
    let center = llm_wiki::ops_stats::center_slugs(&g);
    assert_eq!(center, vec!["a".to_string()]);
    assert!(llm_wiki::ops_stats::center_slugs(&WikiGraph::new()).is_empty());
}

fn small_graph() -> WikiGraph {
    let mut g = WikiGraph::new();
    g.add_node(make_node("a", "A", "concept", false));
    g.add_node(make_node("b", "B", "concept", false));
    g.add_node(make_node("c", "C", "concept", false));
    g.add_edge(0, 1, links_to());
    g.add_edge(0, 2, links_to());
    g.add_edge(1, 0, links_to());
    g.add_edge(0, 1, links_to());
    g.add_edge(0, 0, links_to());
    g
}

#[test]
fn graph_accessors_follow_edges_most_recent_first() {
    let g = small_graph();
    assert_eq!(g.node_indices(), vec![0, 1, 2]);
    assert_eq!(g.edge_indices(), vec![0, 1, 2, 3, 4]);
    assert_eq!(g.edges(0), vec![4, 3, 1, 0]);
    assert_eq!(g.edges_directed(0, Direction::Incoming), vec![4, 2]);
    assert_eq!(g.neighbors_directed(0, Direction::Outgoing), vec![0, 1, 2, 1]);
    assert_eq!(g.neighbors_directed(0, Direction::Incoming), vec![0, 1]);
    assert_eq!(g.neighbors_undirected(0), vec![0, 1, 2, 1, 1]);
    assert!(g.neighbors_undirected(7).is_empty());
    assert_eq!(g.find_edge(0, 1), Some(3));
    assert_eq!(g.find_edge(1, 2), None);
    assert_eq!(g.find_edge(9, 0), None);
    assert_eq!(g.edge_endpoints(2), Some((1, 0)));
    assert_eq!(g.edge_endpoints(9), None);
}
