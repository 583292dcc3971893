//! Merging per-wiki concept graphs into one cross-wiki graph.
use std::sync::Arc;
use vstd::prelude::*;

use crate::graph::{
    last_with_slug, lemma_last_with_slug, nview, EdgeV, LabeledEdge, NodeV, PageNode, WikiGraph,
};
use crate::graph_build::{
    build_graph, built_graph, doc_views, docs_weight, external_type, gview, opt_chars, rel_ok,
    type_ok, DocV, GraphDoc, GraphFilter, GraphV,
};
use crate::links::{parse_link, views, ParsedLink};
use crate::text::{push_str, str_eq};

verus! {

// ── The merge, stated ────────────────────────────────────────────────────────

/// A wiki's graph as (wiki name, nodes, edges).
pub type WikiV = (Seq<char>, Seq<NodeV>, Seq<EdgeV>);

/// The merged-graph key of a page: `wiki/slug`.
pub open spec fn key(wiki: Seq<char>, slug: Seq<char>) -> Seq<char> {
    wiki + "/"@ + slug
}

/// The local nodes of one wiki that go into the merged graph, renamed to their keys.
/// With `refilter`, the type filter is applied again.
pub open spec fn wiki_nodes(name: Seq<char>, nodes: Seq<NodeV>, types: Seq<Seq<char>>, refilter: bool) -> Seq<
    NodeV,
>
    decreases nodes.len(),
{
    if nodes.len() == 0 {
        Seq::empty()
    } else {
        let rest = wiki_nodes(name, nodes.drop_last(), types, refilter);
        let n = nodes.last();
        if !n.3 && (!refilter || type_ok(types, n.2)) {
            rest.push((key(name, n.0), n.1, n.2, false))
        } else {
            rest
        }
    }
}

/// The first pass: the local nodes of every wiki, in order.
pub open spec fn all_wiki_nodes(ws: Seq<WikiV>, types: Seq<Seq<char>>, refilter: bool) -> Seq<NodeV>
    decreases ws.len(),
{
    if ws.len() == 0 {
        Seq::empty()
    } else {
        all_wiki_nodes(ws.drop_last(), types, refilter) + wiki_nodes(
            ws.last().0,
            ws.last().1,
            types,
            refilter,
        )
    }
}

/// The merged key of an edge's target: its own key for a local node, the key
/// its `wiki://` title names for a placeholder, none for a placeholder whose
/// title names no wiki.
pub open spec fn target_key(name: Seq<char>, to: NodeV) -> Option<Seq<char>> {
    if to.3 {
        match parse_link(to.1).0 {
            Some(w) => Some(key(w, parse_link(to.1).1)),
            None => None,
        }
    } else {
        Some(key(name, to.0))
    }
}

/// One edge of a wiki carried into the merged graph.
pub open spec fn merge_edge(
    m: GraphV,
    name: Seq<char>,
    nodes: Seq<NodeV>,
    e: EdgeV,
    rel: Option<Seq<char>>,
    refilter: bool,
) -> GraphV {
    let from = nodes[e.0];
    let to = nodes[e.1];
    if refilter && (from.3 || !rel_ok(rel, e.2)) {
        m
    } else {
        match last_with_slug(m.0, key(name, from.0)) {
            None => m,
            Some(fm) => match target_key(name, to) {
                None => m,
                Some(k) => {
                    let (m2, tm) = match last_with_slug(m.0, k) {
                        Some(t) => (m, t),
                        None => (
                            (m.0.push((k, to.1, external_type(), true)), m.1),
                            m.0.len() as int,
                        ),
                    };
                    if fm != tm {
                        (m2.0, m2.1.push((fm, tm, e.2)))
                    } else {
                        m2
                    }
                },
            },
        }
    }
}

/// Every edge of one wiki, in order.
pub open spec fn merge_edges(
    m: GraphV,
    name: Seq<char>,
    nodes: Seq<NodeV>,
    edges: Seq<EdgeV>,
    rel: Option<Seq<char>>,
    refilter: bool,
) -> GraphV
    decreases edges.len(),
{
    if edges.len() == 0 {
        m
    } else {
        merge_edge(merge_edges(m, name, nodes, edges.drop_last(), rel, refilter), name, nodes, edges.last(), rel, refilter)
    }
}

/// The second pass: the edges of every wiki, in order.
pub open spec fn merge_all_edges(m: GraphV, ws: Seq<WikiV>, rel: Option<Seq<char>>, refilter: bool) -> GraphV
    decreases ws.len(),
{
    if ws.len() == 0 {
        m
    } else {
        let m1 = merge_all_edges(m, ws.drop_last(), rel, refilter);
        merge_edges(m1, ws.last().0, ws.last().1, ws.last().2, rel, refilter)
    }
}

/// The merged graph.
pub open spec fn merged(ws: Seq<WikiV>, types: Seq<Seq<char>>, rel: Option<Seq<char>>, refilter: bool) -> GraphV {
    merge_all_edges((all_wiki_nodes(ws, types, refilter), Seq::empty()), ws, rel, refilter)
}

/// The total number of nodes and edges over the wikis.
pub open spec fn wikis_size(ws: Seq<WikiV>) -> int
    decreases ws.len(),
{
    if ws.len() == 0 {
        0
    } else {
        wikis_size(ws.drop_last()) + ws.last().1.len() + ws.last().2.len()
    }
}

// ── Size lemmas ──────────────────────────────────────────────────────────────

proof fn lemma_wiki_nodes_len(name: Seq<char>, nodes: Seq<NodeV>, types: Seq<Seq<char>>, refilter: bool)
    ensures
        wiki_nodes(name, nodes, types, refilter).len() <= nodes.len(),
    decreases nodes.len(),
{
    if nodes.len() > 0 {
        lemma_wiki_nodes_len(name, nodes.drop_last(), types, refilter);
    }
}

proof fn lemma_merge_edge_grows(
    m: GraphV,
    name: Seq<char>,
    nodes: Seq<NodeV>,
    e: EdgeV,
    rel: Option<Seq<char>>,
    refilter: bool,
)
    ensures
        m.0.len() <= merge_edge(m, name, nodes, e, rel, refilter).0.len() <= m.0.len() + 1,
        m.1.len() <= merge_edge(m, name, nodes, e, rel, refilter).1.len() <= m.1.len() + 1,
        merge_edge(m, name, nodes, e, rel, refilter).0.subrange(0, m.0.len() as int) == m.0,
{
    let r = merge_edge(m, name, nodes, e, rel, refilter);
    if r.0.len() == m.0.len() {
        assert(r.0 == m.0);
        assert(r.0.subrange(0, m.0.len() as int) =~= m.0);
    } else {
        assert(r.0.subrange(0, m.0.len() as int) =~= m.0);
    }
}

proof fn lemma_merge_edges_grows(
    m: GraphV,
    name: Seq<char>,
    nodes: Seq<NodeV>,
    edges: Seq<EdgeV>,
    rel: Option<Seq<char>>,
    refilter: bool,
)
    ensures
        m.0.len() <= merge_edges(m, name, nodes, edges, rel, refilter).0.len() <= m.0.len()
            + edges.len(),
        m.1.len() <= merge_edges(m, name, nodes, edges, rel, refilter).1.len() <= m.1.len()
            + edges.len(),
        merge_edges(m, name, nodes, edges, rel, refilter).0.subrange(0, m.0.len() as int) == m.0,
    decreases edges.len(),
{
    if edges.len() > 0 {
        lemma_merge_edges_grows(m, name, nodes, edges.drop_last(), rel, refilter);
        let m1 = merge_edges(m, name, nodes, edges.drop_last(), rel, refilter);
        lemma_merge_edge_grows(m1, name, nodes, edges.last(), rel, refilter);
        let m2 = merge_edges(m, name, nodes, edges, rel, refilter);
        assert(m2.0.subrange(0, m.0.len() as int) =~= m2.0.subrange(0, m1.0.len() as int).subrange(
            0,
            m.0.len() as int,
        ));
    }
}

proof fn lemma_merge_all_grows(m: GraphV, ws: Seq<WikiV>, rel: Option<Seq<char>>, refilter: bool)
    ensures
        m.0.len() <= merge_all_edges(m, ws, rel, refilter).0.len() <= m.0.len() + wikis_size(ws),
        m.1.len() <= merge_all_edges(m, ws, rel, refilter).1.len() <= m.1.len() + wikis_size(ws),
        merge_all_edges(m, ws, rel, refilter).0.subrange(0, m.0.len() as int) == m.0,
    decreases ws.len(),
{
    if ws.len() > 0 {
        lemma_merge_all_grows(m, ws.drop_last(), rel, refilter);
        let m1 = merge_all_edges(m, ws.drop_last(), rel, refilter);
        let w = ws.last();
        lemma_merge_edges_grows(m1, w.0, w.1, w.2, rel, refilter);
        let m2 = merge_all_edges(m, ws, rel, refilter);
        assert(m2.0.subrange(0, m.0.len() as int) =~= m2.0.subrange(0, m1.0.len() as int).subrange(
            0,
            m.0.len() as int,
        ));
    } else {
        assert(m.0.subrange(0, m.0.len() as int) =~= m.0);
    }
}

proof fn lemma_wikis_size_prefix(ws: Seq<WikiV>, i: int)
    requires
        0 <= i <= ws.len(),
    ensures
        0 <= wikis_size(ws.take(i)) <= wikis_size(ws),
        i < ws.len() ==> wikis_size(ws.take(i + 1)) == wikis_size(ws.take(i)) + ws[i].1.len()
            + ws[i].2.len(),
    decreases ws.len() - i,
{
    if i < ws.len() {
        lemma_wikis_size_prefix(ws, i + 1);
        assert(ws.take(i + 1).drop_last() =~= ws.take(i));
    } else {
        assert(ws.take(i) =~= ws);
        lemma_wikis_size_nonneg(ws);
    }
    lemma_wikis_size_nonneg(ws.take(i));
}

proof fn lemma_wikis_size_nonneg(ws: Seq<WikiV>)
    ensures
        wikis_size(ws) >= 0,
    decreases ws.len(),
{
    if ws.len() > 0 {
        lemma_wikis_size_nonneg(ws.drop_last());
    }
}

proof fn lemma_all_wiki_nodes_len(ws: Seq<WikiV>, types: Seq<Seq<char>>, refilter: bool)
    ensures
        all_wiki_nodes(ws, types, refilter).len() <= wikis_size(ws),
    decreases ws.len(),
{
    if ws.len() > 0 {
        lemma_all_wiki_nodes_len(ws.drop_last(), types, refilter);
        lemma_wiki_nodes_len(ws.last().0, ws.last().1, types, refilter);
    }
}

// ── Executable merge ─────────────────────────────────────────────────────────

/// The wikis' graphs as values.
pub open spec fn wikis_view(wikis: Seq<(String, Arc<WikiGraph>)>) -> Seq<WikiV> {
    wikis.map_values(|p: (String, Arc<WikiGraph>)| (p.0@, p.1.nodes(), p.1.edge_list()))
}

/// `wiki/slug`.
fn make_key(wiki: &str, slug: &str) -> (r: String)
    ensures
        r@ == key(wiki@, slug@),
{
    let mut k = wiki.to_owned();
    push_str(&mut k, "/");
    push_str(&mut k, slug);
    k
}

/// Whether `t` is in `types`.
fn has_type(types: &Vec<String>, t: &str) -> (r: bool)
    ensures
        r == views(types@).contains(t@),
{
    let mut i: usize = 0;
    while i < types.len()
        invariant
            i <= types.len(),
            forall|j: int| 0 <= j < i ==> types@[j]@ != t@,
        decreases types.len() - i,
    {
        if str_eq(types[i].as_str(), t) {
            assert(views(types@)[i as int] == t@);
            return true;
        }
        i += 1;
    }
    proof {
        if views(types@).contains(t@) {
            let j = choose|j: int| 0 <= j < views(types@).len() && views(types@)[j] == t@;
            assert(types@[j]@ == t@);
        }
    }
    false
}

/// The first pass over one wiki.
fn add_wiki_nodes(merged: &mut WikiGraph, name: &str, g: &WikiGraph, types: &Vec<String>, refilter: bool)
    requires
        old(merged).nodes().len() + g.nodes().len() < u32::MAX,
    ensures
        final(merged).nodes() == old(merged).nodes() + wiki_nodes(name@, g.nodes(), views(types@), refilter),
        final(merged).edge_list() == old(merged).edge_list(),
{
    let ghost m0 = merged.nodes();
    let ghost gn = g.nodes();
    let n = g.node_count();
    let mut i: usize = 0;
    while i < n
        invariant
            i <= n == gn.len(),
            gn == g.nodes(),
            m0.len() + n < u32::MAX,
            merged.nodes() == m0 + wiki_nodes(name@, gn.take(i as int), views(types@), refilter),
            merged.edge_list() == old(merged).edge_list(),
        decreases n - i,
    {
        proof {
            assert(gn.take(i as int + 1).drop_last() =~= gn.take(i as int));
            lemma_wiki_nodes_len(name@, gn.take(i as int), views(types@), refilter);
        }
        let node = g.node(i);
        let keep = !node.external && (!refilter || types.len() == 0 || has_type(
            types,
            node.page_type.as_str(),
        ));
        if keep {
            let k = make_key(name, node.slug.as_str());
            let nn = PageNode {
                slug: k,
                title: node.title.clone(),
                page_type: node.page_type.clone(),
                external: false,
            };
            merged.add_node(nn);
            proof {
                let w1 = wiki_nodes(name@, gn.take(i as int + 1), views(types@), refilter);
                let w0 = wiki_nodes(name@, gn.take(i as int), views(types@), refilter);
                assert(w1 == w0.push(nview(nn)));
                assert(merged.nodes() =~= m0 + w1);
            }
        }
        i += 1;
    }
    proof {
        assert(gn.take(n as int) =~= gn);
    }
}

/// One edge of a wiki carried into the merged graph.
fn add_merged_edge(
    merged: &mut WikiGraph,
    name: &str,
    g: &WikiGraph,
    e: usize,
    rel: &Option<String>,
    refilter: bool,
)
    requires
        e < g.edge_list().len(),
        crate::graph::edges_in_range(g.nodes().len() as int, g.edge_list()),
        old(merged).nodes().len() + 1 < u32::MAX,
        old(merged).edge_list().len() + 1 < u32::MAX,
    ensures
        gview(*final(merged)) == merge_edge(
            gview(*old(merged)),
            name@,
            g.nodes(),
            g.edge_list()[e as int],
            opt_chars(*rel),
            refilter,
        ),
{
    let ghost m0 = gview(*merged);
    let (a, b, lbl) = g.edge(e);
    assert(0 <= g.edge_list()[e as int].0 < g.nodes().len() && 0 <= g.edge_list()[e as int].1 < g.nodes().len());
    let from = g.node(a);
    let to = g.node(b);
    if refilter {
        if from.external {
            return ;
        }
        match rel {
            Some(r) => {
                if !str_eq(lbl.relation.as_str(), r.as_str()) {
                    return ;
                }
            },
            None => {},
        }
    }
    let from_key = make_key(name, from.slug.as_str());
    proof {
        lemma_last_with_slug(m0.0, from_key@);
    }
    let fm = match merged.node_for_slug(from_key.as_str()) {
        Some(i) => i,
        None => {
            return ;
        },
    };
    let to_key = if to.external {
        let p = ParsedLink::parse(to.title.as_str());
        match p {
            ParsedLink::CrossWiki { wiki, slug } => make_key(wiki.as_str(), slug.as_str()),
            ParsedLink::Local(_) => {
                return ;
            },
        }
    } else {
        make_key(name, to.slug.as_str())
    };
    proof {
        lemma_last_with_slug(m0.0, to_key@);
    }
    let tm = match merged.node_for_slug(to_key.as_str()) {
        Some(i) => i,
        None => {
            let nn = PageNode {
                slug: to_key,
                title: to.title.clone(),
                page_type: "external".to_owned(),
                external: true,
            };
            merged.add_node(nn)
        },
    };
    if fm != tm {
        let w = LabeledEdge { relation: lbl.relation.clone() };
        merged.add_edge(fm, tm, w);
    }
}

/// Merge wiki graphs: first every local node of every wiki under the key
/// `wiki/slug`, then every edge, re-resolving placeholder targets by the
/// `wiki://` URI in their title; a target in no merged wiki stays a
/// placeholder under its key. With `refilter`, the filter's types and
/// relation are applied again and edges from placeholders are dropped.
fn merge_graphs(wikis: &Vec<(String, Arc<WikiGraph>)>, filter: &GraphFilter, refilter: bool) -> (r:
    WikiGraph)
    requires
        2 * wikis_size(wikis_view(wikis@)) + 1 < u32::MAX,
    ensures
        gview(r) == merged(
            wikis_view(wikis@),
            views(filter.types@),
            opt_chars(filter.relation),
            refilter,
        ),
{
    let ghost ws = wikis_view(wikis@);
    let ghost types = views(filter.types@);
    let ghost rel = opt_chars(filter.relation);
    let mut m = WikiGraph::new();
    let mut w: usize = 0;
    while w < wikis.len()
        invariant
            w <= wikis.len() == ws.len(),
            ws == wikis_view(wikis@),
            types == views(filter.types@),
            2 * wikis_size(ws) + 1 < u32::MAX,
            m.nodes() == all_wiki_nodes(ws.take(w as int), types, refilter),
            m.edge_list() == Seq::<EdgeV>::empty(),
        decreases wikis.len() - w,
    {
        proof {
            assert(ws.take(w as int + 1).drop_last() =~= ws.take(w as int));
            lemma_all_wiki_nodes_len(ws.take(w as int), types, refilter);
            lemma_wikis_size_prefix(ws, w as int);
            lemma_wikis_size_prefix(ws, w as int + 1);
            lemma_wikis_size_nonneg(ws.take(w as int));
        }
        let g: &WikiGraph = &wikis[w].1;
        add_wiki_nodes(&mut m, wikis[w].0.as_str(), g, &filter.types, refilter);
        w += 1;
    }
    proof {
        assert(ws.take(wikis.len() as int) =~= ws);
        lemma_all_wiki_nodes_len(ws, types, refilter);
    }
    let ghost m0 = gview(m);
    let mut w: usize = 0;
    while w < wikis.len()
        invariant
            w <= wikis.len() == ws.len(),
            ws == wikis_view(wikis@),
            rel == opt_chars(filter.relation),
            m0.0.len() <= wikis_size(ws),
            m0.1.len() == 0,
            2 * wikis_size(ws) + 1 < u32::MAX,
            gview(m) == merge_all_edges(m0, ws.take(w as int), rel, refilter),
        decreases wikis.len() - w,
    {
        proof {
            assert(ws.take(w as int + 1).drop_last() =~= ws.take(w as int));
            lemma_wikis_size_prefix(ws, w as int);
            lemma_wikis_size_prefix(ws, w as int + 1);
            lemma_merge_all_grows(m0, ws.take(w as int), rel, refilter);
        }
        let g: &WikiGraph = &wikis[w].1;
        let name = wikis[w].0.as_str();
        assert(ws[w as int] == (name@, g.nodes(), g.edge_list()));
        g.lemma_wf();
        let ne = g.edge_count();
        let ghost mw = gview(m);
        let mut e: usize = 0;
        while e < ne
            invariant
                e <= ne == g.edge_list().len(),
                rel == opt_chars(filter.relation),
                crate::graph::edges_in_range(g.nodes().len() as int, g.edge_list()),
                mw.0.len() + ne + 1 < u32::MAX,
                mw.1.len() + ne + 1 < u32::MAX,
                gview(m) == merge_edges(mw, name@, g.nodes(), g.edge_list().take(e as int), rel, refilter),
            decreases ne - e,
        {
            proof {
                assert(g.edge_list().take(e as int + 1).drop_last() =~= g.edge_list().take(e as int));
                assert(g.edge_list().take(e as int + 1).last() == g.edge_list()[e as int]);
                lemma_merge_edges_grows(mw, name@, g.nodes(), g.edge_list().take(e as int), rel, refilter);
            }
            add_merged_edge(&mut m, name, g, e, &filter.relation, refilter);
            e += 1;
        }
        proof {
            assert(g.edge_list().take(ne as int) =~= g.edge_list());
        }
        w += 1;
    }
    proof {
        assert(ws.take(wikis.len() as int) =~= ws);
    }
    m
}

/// Merge cached per-wiki graphs into one cross-wiki graph, applying the
/// filter's types and relation again (its root and depth are not applied).
pub fn merge_cached_graphs(wikis: &Vec<(String, Arc<WikiGraph>)>, filter: &GraphFilter) -> (r: WikiGraph)
    requires
        2 * wikis_size(wikis_view(wikis@)) + 1 < u32::MAX,
    ensures
        gview(r) == merged(wikis_view(wikis@), views(filter.types@), opt_chars(filter.relation), true),
{
    merge_graphs(wikis, filter, true)
}

/// Merging keeps every local node of every wiki, in order and under its
/// `wiki/slug` key, at the front of the merged graph: placeholders only follow.
pub proof fn law_merge_keeps_local_nodes(
    ws: Seq<WikiV>,
    types: Seq<Seq<char>>,
    rel: Option<Seq<char>>,
    refilter: bool,
)
    ensures
        all_wiki_nodes(ws, types, refilter).len() <= merged(ws, types, rel, refilter).0.len(),
        merged(ws, types, rel, refilter).0.subrange(
            0,
            all_wiki_nodes(ws, types, refilter).len() as int,
        ) == all_wiki_nodes(ws, types, refilter),
{
    lemma_merge_all_grows((all_wiki_nodes(ws, types, refilter), Seq::empty()), ws, rel, refilter);
}

/// Several wikis' pages as (wiki name, pages).
pub open spec fn wiki_docs_view(wikis: Seq<(String, Vec<GraphDoc>)>) -> Seq<(Seq<char>, Seq<DocV>)> {
    wikis.map_values(|p: (String, Vec<GraphDoc>)| (p.0@, doc_views(p.1@)))
}

/// The graph `build_graph` gives each wiki under the filter.
pub open spec fn built_wikis(
    ws: Seq<(Seq<char>, Seq<DocV>)>,
    types: Seq<Seq<char>>,
    rel: Option<Seq<char>>,
    root: Option<Seq<char>>,
    depth: Option<usize>,
) -> Seq<WikiV> {
    ws.map_values(
        |w: (Seq<char>, Seq<DocV>)|
            (
                w.0,
                built_graph(w.1, types, rel, root, depth).0,
                built_graph(w.1, types, rel, root, depth).1,
            ),
    )
}

/// The summed page weight of several wikis.
pub open spec fn all_weight(ws: Seq<(Seq<char>, Seq<DocV>)>) -> int
    decreases ws.len(),
{
    if ws.len() == 0 {
        0
    } else {
        all_weight(ws.drop_last()) + docs_weight(ws.last().1)
    }
}

proof fn lemma_all_weight_prefix(ws: Seq<(Seq<char>, Seq<DocV>)>, i: int)
    requires
        0 <= i <= ws.len(),
        forall|j: int| 0 <= j < ws.len() ==> docs_weight(#[trigger] ws[j].1) >= 0,
    ensures
        0 <= all_weight(ws.take(i)) <= all_weight(ws),
        i < ws.len() ==> all_weight(ws.take(i + 1)) == all_weight(ws.take(i)) + docs_weight(
            ws[i].1,
        ),
    decreases ws.len() - i,
{
    if i < ws.len() {
        lemma_all_weight_prefix(ws, i + 1);
        assert(ws.take(i + 1).drop_last() =~= ws.take(i));
        assert(ws.take(i + 1).last() == ws[i]);
    } else {
        assert(ws.take(i) =~= ws);
    }
    lemma_all_weight_nonneg(ws.take(i));
}

proof fn lemma_all_weight_nonneg(ws: Seq<(Seq<char>, Seq<DocV>)>)
    requires
        forall|j: int| 0 <= j < ws.len() ==> docs_weight(#[trigger] ws[j].1) >= 0,
    ensures
        all_weight(ws) >= 0,
    decreases ws.len(),
{
    if ws.len() > 0 {
        let p = ws.drop_last();
        assert forall|j: int| 0 <= j < p.len() implies docs_weight(#[trigger] p[j].1) >= 0 by {
            assert(p[j] == ws[j]);
        }
        lemma_all_weight_nonneg(p);
        assert(ws.last() == ws[ws.len() - 1]);
    }
}

/// Build every wiki's graph with the filter and merge them: a link that was a
/// placeholder in one wiki's graph joins the page it names when that wiki is
/// among `wikis`. The filter is not applied again to the merged graph.
pub fn build_graph_cross_wiki(wikis: &Vec<(String, Vec<GraphDoc>)>, filter: &GraphFilter) -> (r:
    WikiGraph)
    requires
        6 * all_weight(wiki_docs_view(wikis@)) + 1 < u32::MAX,
    ensures
        gview(r) == merged(
            built_wikis(
                wiki_docs_view(wikis@),
                views(filter.types@),
                opt_chars(filter.relation),
                opt_chars(filter.root),
                filter.depth,
            ),
            views(filter.types@),
            opt_chars(filter.relation),
            false,
        ),
{
    let ghost wd = wiki_docs_view(wikis@);
    let ghost types = views(filter.types@);
    let ghost rel = opt_chars(filter.relation);
    let ghost root = opt_chars(filter.root);
    proof {
        assert forall|j: int| 0 <= j < wd.len() implies docs_weight(#[trigger] wd[j].1) >= 0 by {
            crate::graph_build::lemma_docs_weight_nonneg(wd[j].1);
        }
    }
    let mut per: Vec<(String, Arc<WikiGraph>)> = Vec::new();
    let mut i: usize = 0;
    while i < wikis.len()
        invariant
            i <= wikis.len() == wd.len(),
            wd == wiki_docs_view(wikis@),
            types == views(filter.types@),
            rel == opt_chars(filter.relation),
            root == opt_chars(filter.root),
            forall|j: int| 0 <= j < wd.len() ==> docs_weight(#[trigger] wd[j].1) >= 0,
            6 * all_weight(wd) + 1 < u32::MAX,
            wikis_view(per@) == built_wikis(wd.take(i as int), types, rel, root, filter.depth),
            wikis_size(wikis_view(per@)) <= 3 * all_weight(wd.take(i as int)),
        decreases wikis.len() - i,
    {
        proof {
            lemma_all_weight_prefix(wd, i as int);
            lemma_all_weight_prefix(wd, i as int + 1);
            assert(wd[i as int].1 == doc_views(wikis@[i as int].1@));
        }
        let g = build_graph(&wikis[i].1, filter);
        let ghost before = per@;
        per.push((wikis[i].0.clone(), Arc::new(g)));
        proof {
            let wv = wikis_view(per@);
            assert(wv.drop_last() =~= wikis_view(before));
            let bw = built_wikis(wd.take(i as int + 1), types, rel, root, filter.depth);
            assert(bw.drop_last() =~= built_wikis(wd.take(i as int), types, rel, root, filter.depth));
            assert(wd.take(i as int + 1)[i as int] == wd[i as int]);
            assert(wd[i as int].0 == wikis@[i as int].0@);
            assert(bw[i as int] == wv[i as int]);
            assert(wv.len() == bw.len());
            assert forall|j: int| 0 <= j < wv.len() implies wv[j] == bw[j] by {
                if j < i {
                    assert(wv[j] == wv.drop_last()[j]);
                    assert(bw[j] == bw.drop_last()[j]);
                }
            }
            assert(wv =~= built_wikis(wd.take(i as int + 1), types, rel, root, filter.depth));
        }
        i += 1;
    }
    proof {
        assert(wd.take(wikis.len() as int) =~= wd);
        lemma_all_weight_prefix(wd, wikis.len() as int);
    }
    merge_graphs(&per, filter, false)
}

} // verus!
