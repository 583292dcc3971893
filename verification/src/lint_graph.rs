//! Lint rules over the structure of the concept graph.
use vstd::hash_set::HashSetWithView;
use vstd::prelude::*;

use crate::graph::{edges_in_range, periphery_of, EdgeV, NodeV, WikiGraph};
use crate::lint::{fview, fviews, FindingV, LintFinding, Severity};
use crate::links::views;
use crate::subgraph::{lemma_rank_bounds, lemma_rank_lt, rank};
use crate::text::push_str;

verus! {

// ── The undirected graph of local pages ──────────────────────────────────────

/// Which nodes are local pages (not placeholders).
pub open spec fn local_marks(nodes: Seq<NodeV>) -> Seq<bool> {
    Seq::new(nodes.len(), |i: int| !nodes[i].3)
}

/// The indices of the local pages, in order.
pub open spec fn local_indices(nodes: Seq<NodeV>) -> Seq<int>
    decreases nodes.len(),
{
    if nodes.len() == 0 {
        Seq::empty()
    } else {
        let rest = local_indices(nodes.drop_last());
        if !nodes.last().3 {
            rest.push(nodes.len() - 1)
        } else {
            rest
        }
    }
}

/// The undirected edges between local pages, renumbered among the local
/// pages, each pair once, in the order of their first edge.
pub open spec fn ug_edges(nodes: Seq<NodeV>, edges: Seq<EdgeV>) -> Seq<(int, int)>
    decreases edges.len(),
{
    if edges.len() == 0 {
        Seq::empty()
    } else {
        let acc = ug_edges(nodes, edges.drop_last());
        let e = edges.last();
        let m = local_marks(nodes);
        if m[e.0] && m[e.1] {
            let x = rank(m, e.0);
            let y = rank(m, e.1);
            if acc.contains((x, y)) || acc.contains((y, x)) {
                acc
            } else {
                acc.push((x, y))
            }
        } else {
            acc
        }
    }
}

/// The key of an ordered pair of node numbers below `2^32`.
pub open spec fn pair_key(x: int, y: int) -> int {
    x * 4294967296 + y
}

proof fn lemma_pair_key(x1: int, y1: int, x2: int, y2: int)
    requires
        0 <= x1 < 4294967296,
        0 <= y1 < 4294967296,
        0 <= x2 < 4294967296,
        0 <= y2 < 4294967296,
    ensures
        0 <= pair_key(x1, y1) < 18446744073709551616,
        pair_key(x1, y1) == pair_key(x2, y2) ==> x1 == x2 && y1 == y2,
{
    assert(0 <= pair_key(x1, y1) < 18446744073709551616) by (nonlinear_arith)
        requires
            0 <= x1 < 4294967296,
            0 <= y1 < 4294967296,
    ;
    if pair_key(x1, y1) == pair_key(x2, y2) {
        if x1 < x2 {
            assert(x1 * 4294967296 + 4294967296 <= x2 * 4294967296) by (nonlinear_arith)
                requires
                    x1 < x2,
            ;
        }
        if x2 < x1 {
            assert(x2 * 4294967296 + 4294967296 <= x1 * 4294967296) by (nonlinear_arith)
                requires
                    x2 < x1,
            ;
        }
    }
}

proof fn lemma_local_indices(nodes: Seq<NodeV>)
    ensures
        local_indices(nodes).len() == rank(local_marks(nodes), nodes.len() as int),
        forall|k: int|
            0 <= k < local_indices(nodes).len() ==> 0 <= #[trigger] local_indices(nodes)[k]
                < nodes.len() && !nodes[local_indices(nodes)[k]].3,
    decreases nodes.len(),
{
    if nodes.len() > 0 {
        let p = nodes.drop_last();
        lemma_local_indices(p);
        lemma_rank_prefix(local_marks(p), local_marks(nodes), p.len() as int);
    }
}

/// Ranks agree on marks that agree.
proof fn lemma_rank_prefix(m1: Seq<bool>, m2: Seq<bool>, i: int)
    requires
        0 <= i <= m1.len(),
        i <= m2.len(),
        forall|j: int| 0 <= j < i ==> m1[j] == m2[j],
    ensures
        rank(m1, i) == rank(m2, i),
    decreases i,
{
    if i > 0 {
        lemma_rank_prefix(m1, m2, i - 1);
    }
}

/// The undirected graph of local pages: its number of nodes, its edges, and
/// for each of its nodes the index of the page in `graph`.
pub fn build_undirected(graph: &WikiGraph) -> (r: (usize, Vec<(usize, usize)>, Vec<usize>))
    ensures
        r.0 == rank(local_marks(graph.nodes()), graph.nodes().len() as int),
        r.1@.map_values(|p: (usize, usize)| (p.0 as int, p.1 as int)) == ug_edges(
            graph.nodes(),
            graph.edge_list(),
        ),
        r.2@.map_values(|x: usize| x as int) == local_indices(graph.nodes()),
        forall|k: int| 0 <= k < r.1@.len() ==> #[trigger] r.1@[k].0 < r.0 && r.1@[k].1 < r.0,
        r.2@.len() == r.0,
        forall|k: int| 0 <= k < r.2@.len() ==> #[trigger] r.2@[k] < graph.nodes().len(),
        r.0 <= u32::MAX,
        r.1@.len() <= graph.edge_list().len(),
{
    broadcast use vstd::std_specs::hash::group_hash_axioms;

    graph.lemma_wf();
    let ghost nodes = graph.nodes();
    let ghost edges = graph.edge_list();
    let ghost m = local_marks(nodes);
    let n = graph.node_count();
    let ne = graph.edge_count();
    let mut rev: Vec<usize> = Vec::new();
    let mut fwd: Vec<usize> = Vec::new();
    let mut i: usize = 0;
    while i < n
        invariant
            i <= n == nodes.len() <= u32::MAX,
            nodes == graph.nodes(),
            m == local_marks(nodes),
            fwd@.len() == i,
            forall|j: int| 0 <= j < i ==> #[trigger] fwd@[j] as int == rank(m, j),
            rev@.map_values(|x: usize| x as int) == local_indices(nodes.take(i as int)),
            rev@.len() == rank(m, i as int),
            forall|k: int| 0 <= k < rev@.len() ==> #[trigger] rev@[k] < i,
        decreases n - i,
    {
        proof {
            lemma_rank_bounds(m, i as int);
            let t1 = nodes.take(i as int + 1);
            assert(t1.drop_last() =~= nodes.take(i as int));
        }
        fwd.push(rev.len());
        let ghost before = rev@;
        if !graph.node(i).external {
            rev.push(i);
            proof {
                assert(rev@.map_values(|x: usize| x as int) =~= before.map_values(|x: usize| x as int).push(
                    i as int,
                ));
            }
        }
        i += 1;
    }
    proof {
        assert(nodes.take(n as int) =~= nodes);
        lemma_rank_bounds(m, n as int);
    }
    let mut ug: Vec<(usize, usize)> = Vec::new();
    let mut seen: HashSetWithView<u64> = HashSetWithView::new();
    let mut e: usize = 0;
    while e < ne
        invariant
            e <= ne == edges.len() <= u32::MAX,
            n == nodes.len() <= u32::MAX,
            nodes == graph.nodes(),
            edges == graph.edge_list(),
            m == local_marks(nodes),
            edges_in_range(n as int, edges),
            fwd@.len() == n,
            forall|j: int| 0 <= j < n ==> #[trigger] fwd@[j] as int == rank(m, j),
            rank(m, n as int) <= n,
            ug@.map_values(|p: (usize, usize)| (p.0 as int, p.1 as int)) == ug_edges(
                nodes,
                edges.take(e as int),
            ),
            ug@.len() <= e,
            forall|k: int|
                0 <= k < ug@.len() ==> #[trigger] ug@[k].0 < rank(m, n as int) && ug@[k].1 < rank(
                    m,
                    n as int,
                ),
            forall|x: int, y: int|
                0 <= x < 4294967296 && 0 <= y < 4294967296 ==> (seen@.contains(
                    #[trigger] pair_key(x, y) as u64,
                ) <==> ug_edges(nodes, edges.take(e as int)).contains((x, y))),
        decreases ne - e,
    {
        let (a, b, _lbl) = graph.edge(e);
        assert(0 <= edges[e as int].0 < n && 0 <= edges[e as int].1 < n);
        proof {
            let t1 = edges.take(e as int + 1);
            assert(t1.drop_last() =~= edges.take(e as int));
            assert(t1.last() == edges[e as int]);
        }
        let ghost acc = ug_edges(nodes, edges.take(e as int));
        if !graph.node(a).external && !graph.node(b).external {
            let ua = fwd[a];
            let ub = fwd[b];
            proof {
                lemma_rank_lt(m, a as int, n as int);
                lemma_rank_lt(m, b as int, n as int);
                lemma_pair_key(ua as int, ub as int, ua as int, ub as int);
                lemma_pair_key(ub as int, ua as int, ub as int, ua as int);
            }
            let k1: u64 = (ua as u64) * 4294967296u64 + (ub as u64);
            let k2: u64 = (ub as u64) * 4294967296u64 + (ua as u64);
            proof {
                assert(k1 as int == pair_key(ua as int, ub as int));
                assert(k2 as int == pair_key(ub as int, ua as int));
            }
            if !seen.contains(&k1) && !seen.contains(&k2) {
                let ghost before = ug@;
                let ghost old_seen = seen@;
                ug.push((ua, ub));
                seen.insert(k1);
                proof {
                    assert(ug@.map_values(|p: (usize, usize)| (p.0 as int, p.1 as int)) =~= before.map_values(
                        |p: (usize, usize)| (p.0 as int, p.1 as int),
                    ).push((ua as int, ub as int)));
                    let acc1 = acc.push((ua as int, ub as int));
                    assert forall|x: int, y: int|
                        0 <= x < 4294967296 && 0 <= y < 4294967296 implies (seen@.contains(
                        #[trigger] pair_key(x, y) as u64,
                    ) <==> acc1.contains((x, y))) by {
                        lemma_pair_key(x, y, ua as int, ub as int);
                        assert((pair_key(x, y) as u64) as int == pair_key(x, y));
                        assert(old_seen.contains(pair_key(x, y) as u64) <==> acc.contains((x, y)));
                        assert(seen@.contains(pair_key(x, y) as u64) <==> (old_seen.contains(
                            pair_key(x, y) as u64,
                        ) || pair_key(x, y) as u64 == k1));
                        assert(k1 as int == pair_key(ua as int, ub as int));
                        assert((pair_key(x, y) as u64 == k1) <==> (x == ua && y == ub));
                        assert(acc1[acc.len() as int] == (ua as int, ub as int));
                        if acc1.contains((x, y)) && !acc.contains((x, y)) {
                            let j = choose|j: int| 0 <= j < acc1.len() && acc1[j] == (x, y);
                            assert(j == acc.len());
                        }
                        if acc.contains((x, y)) {
                            let j = choose|j: int| 0 <= j < acc.len() && acc[j] == (x, y);
                            assert(acc1[j] == (x, y));
                        }
                    }
                }
            }
        }
        e += 1;
    }
    proof {
        assert(edges.take(ne as int) =~= edges);
        lemma_local_indices(nodes);
    }
    let nl = rev.len();
    (nl, ug, rev)
}

// ── Outside algorithms ───────────────────────────────────────────────────────

/// What `petgraph_live::connect::articulation_points` returns, as node numbers,
/// for the undirected graph of `n` nodes with these edges added in order.
pub uninterp spec fn articulation_points_of(n: nat, edges: Seq<(int, int)>) -> Seq<int>;

/// What `petgraph_live::connect::find_bridges` returns, as pairs of node
/// numbers, for the undirected graph of `n` nodes with these edges added in order.
pub uninterp spec fn bridges_of(n: nat, edges: Seq<(int, int)>) -> Seq<(int, int)>;

/// Calls `petgraph_live::connect::articulation_points` on the undirected
/// graph of `n` nodes and these edges; the result, as node numbers, is named
/// `articulation_points_of`. Each is a node of that graph, as the function
/// only returns node identifiers of the graph it is given.
#[verifier::external_body]
fn articulation_points(n: usize, edges: &Vec<(usize, usize)>) -> (r: Vec<usize>)
    requires
        n <= u32::MAX,
        edges@.len() <= u32::MAX,
        forall|k: int| 0 <= k < edges@.len() ==> #[trigger] edges@[k].0 < n && edges@[k].1 < n,
    ensures
        r@.map_values(|x: usize| x as int) == articulation_points_of(
            n as nat,
            edges@.map_values(|p: (usize, usize)| (p.0 as int, p.1 as int)),
        ),
        forall|i: int| 0 <= i < r@.len() ==> #[trigger] r@[i] < n,
{
    let mut g = petgraph::graph::UnGraph::<(), ()>::with_capacity(n, edges.len());
    for _ in 0..n {
        g.add_node(());
    }
    for &(a, b) in edges.iter() {
        g.add_edge(petgraph::graph::NodeIndex::new(a), petgraph::graph::NodeIndex::new(b), ());
    }
    petgraph_live::connect::articulation_points(&g).iter().map(|x| x.index()).collect()
}

/// Calls `petgraph_live::connect::find_bridges` on the undirected graph of `n`
/// nodes and these edges; the result, as pairs of node numbers, is named
/// `bridges_of`. Each endpoint is a node of that graph, as the function only
/// returns node identifiers of the graph it is given.
#[verifier::external_body]
fn find_bridges(n: usize, edges: &Vec<(usize, usize)>) -> (r: Vec<(usize, usize)>)
    requires
        n <= u32::MAX,
        edges@.len() <= u32::MAX,
        forall|k: int| 0 <= k < edges@.len() ==> #[trigger] edges@[k].0 < n && edges@[k].1 < n,
    ensures
        r@.map_values(|p: (usize, usize)| (p.0 as int, p.1 as int)) == bridges_of(
            n as nat,
            edges@.map_values(|p: (usize, usize)| (p.0 as int, p.1 as int)),
        ),
        forall|i: int| 0 <= i < r@.len() ==> #[trigger] r@[i].0 < n && r@[i].1 < n,
{
    let mut g = petgraph::graph::UnGraph::<(), ()>::with_capacity(n, edges.len());
    for _ in 0..n {
        g.add_node(());
    }
    for &(a, b) in edges.iter() {
        g.add_edge(petgraph::graph::NodeIndex::new(a), petgraph::graph::NodeIndex::new(b), ());
    }
    petgraph_live::connect::find_bridges(&g).iter().map(|p| (p.0.index(), p.1.index())).collect()
}

// ── Rules ────────────────────────────────────────────────────────────────────

/// The undirected graph of local pages, as (node count, edges).
pub open spec fn local_graph(nodes: Seq<NodeV>, edges: Seq<EdgeV>) -> (nat, Seq<(int, int)>) {
    (rank(local_marks(nodes), nodes.len() as int) as nat, ug_edges(nodes, edges))
}

/// The articulation-point findings: one per articulation point of the
/// undirected graph of local pages, in the order found.
pub open spec fn ap_findings(nodes: Seq<NodeV>, edges: Seq<EdgeV>, paths: Seq<Seq<char>>) -> Seq<
    FindingV,
> {
    let (n, ug) = local_graph(nodes, edges);
    let rev = local_indices(nodes);
    articulation_points_of(n, ug).map_values(
        |a: int|
            (
                nodes[rev[a]].0,
                "articulation-point"@,
                Severity::Warning,
                "removing this page would disconnect the graph — add alternative link paths"@,
                paths[rev[a]],
            ),
    )
}

/// Local pages whose removal would disconnect the undirected graph of local pages.
pub fn rule_articulation_point(graph: &WikiGraph, paths: &Vec<String>) -> (r: Vec<LintFinding>)
    requires
        paths@.len() == graph.nodes().len(),
    ensures
        fviews(r@) == ap_findings(graph.nodes(), graph.edge_list(), views(paths@)),
{
    graph.lemma_wf();
    let (n, ug, rev) = build_undirected(graph);
    proof {
        lemma_local_indices(graph.nodes());
    }
    let aps = articulation_points(n, &ug);
    let ghost apv = aps@.map_values(|x: usize| x as int);
    let mut out: Vec<LintFinding> = Vec::new();
    let mut i: usize = 0;
    while i < aps.len()
        invariant
            i <= aps@.len(),
            apv == aps@.map_values(|x: usize| x as int),
            apv == articulation_points_of(n as nat, ug@.map_values(|p: (usize, usize)| (p.0 as int, p.1 as int))),
            n as int == rank(local_marks(graph.nodes()), graph.nodes().len() as int),
            ug@.map_values(|p: (usize, usize)| (p.0 as int, p.1 as int)) == ug_edges(graph.nodes(), graph.edge_list()),
            rev@.map_values(|x: usize| x as int) == local_indices(graph.nodes()),
            rev@.len() == n,
            forall|k: int| 0 <= k < rev@.len() ==> #[trigger] rev@[k] < graph.nodes().len(),
            forall|k: int| 0 <= k < aps@.len() ==> #[trigger] aps@[k] < n,
            paths@.len() == graph.nodes().len(),
            out@.len() == i,
            forall|k: int| 0 <= k < i ==> #[trigger] fview(out@[k]) == ap_findings(graph.nodes(), graph.edge_list(), views(paths@))[k],
        decreases aps@.len() - i,
    {
        let a = aps[i];
        let orig = rev[a];
        let node = graph.node(orig);
        let f = LintFinding {
            slug: node.slug.clone(),
            rule: "articulation-point".to_owned(),
            severity: Severity::Warning,
            message: "removing this page would disconnect the graph — add alternative link paths".to_owned(),
            path: paths[orig].clone(),
        };
        proof {
            assert(apv[i as int] == a as int);
            assert(local_indices(graph.nodes())[a as int] == orig as int);
            assert(views(paths@)[orig as int] == paths@[orig as int]@);
        }
        out.push(f);
        i += 1;
    }
    proof {
        assert(fviews(out@) =~= ap_findings(graph.nodes(), graph.edge_list(), views(paths@)));
    }
    out
}

/// The bridge findings: one per bridge of the undirected graph of local
/// pages, reported on its first endpoint.
pub open spec fn bridge_findings(nodes: Seq<NodeV>, edges: Seq<EdgeV>, paths: Seq<Seq<char>>) -> Seq<
    FindingV,
> {
    let (n, ug) = local_graph(nodes, edges);
    let rev = local_indices(nodes);
    bridges_of(n, ug).map_values(
        |p: (int, int)|
            (
                nodes[rev[p.0]].0,
                "bridge"@,
                Severity::Warning,
                "link "@ + nodes[rev[p.0]].0 + " → "@ + nodes[rev[p.1]].0
                    + " is a bridge — its removal disconnects the graph"@,
                paths[rev[p.0]],
            ),
    )
}

/// Links whose removal would disconnect the undirected graph of local pages.
pub fn rule_bridge(graph: &WikiGraph, paths: &Vec<String>) -> (r: Vec<LintFinding>)
    requires
        paths@.len() == graph.nodes().len(),
    ensures
        fviews(r@) == bridge_findings(graph.nodes(), graph.edge_list(), views(paths@)),
{
    graph.lemma_wf();
    let (n, ug, rev) = build_undirected(graph);
    proof {
        lemma_local_indices(graph.nodes());
    }
    let brs = find_bridges(n, &ug);
    let ghost bv = brs@.map_values(|p: (usize, usize)| (p.0 as int, p.1 as int));
    let mut out: Vec<LintFinding> = Vec::new();
    let mut i: usize = 0;
    while i < brs.len()
        invariant
            i <= brs@.len(),
            bv == brs@.map_values(|p: (usize, usize)| (p.0 as int, p.1 as int)),
            bv == bridges_of(n as nat, ug@.map_values(|p: (usize, usize)| (p.0 as int, p.1 as int))),
            n as int == rank(local_marks(graph.nodes()), graph.nodes().len() as int),
            ug@.map_values(|p: (usize, usize)| (p.0 as int, p.1 as int)) == ug_edges(graph.nodes(), graph.edge_list()),
            rev@.map_values(|x: usize| x as int) == local_indices(graph.nodes()),
            rev@.len() == n,
            forall|k: int| 0 <= k < rev@.len() ==> #[trigger] rev@[k] < graph.nodes().len(),
            forall|k: int| 0 <= k < brs@.len() ==> #[trigger] brs@[k].0 < n && brs@[k].1 < n,
            paths@.len() == graph.nodes().len(),
            out@.len() == i,
            forall|k: int| 0 <= k < i ==> #[trigger] fview(out@[k]) == bridge_findings(graph.nodes(), graph.edge_list(), views(paths@))[k],
        decreases brs@.len() - i,
    {
        let (ua, ub) = brs[i];
        let a = rev[ua];
        let b = rev[ub];
        let slug_a = &graph.node(a).slug;
        let slug_b = &graph.node(b).slug;
        let mut msg = "link ".to_owned();
        push_str(&mut msg, slug_a.as_str());
        push_str(&mut msg, " → ");
        push_str(&mut msg, slug_b.as_str());
        push_str(&mut msg, " is a bridge — its removal disconnects the graph");
        let f = LintFinding {
            slug: slug_a.clone(),
            rule: "bridge".to_owned(),
            severity: Severity::Warning,
            message: msg,
            path: paths[a].clone(),
        };
        proof {
            assert(bv[i as int] == (ua as int, ub as int));
            assert(local_indices(graph.nodes())[ua as int] == a as int);
            assert(local_indices(graph.nodes())[ub as int] == b as int);
            assert(views(paths@)[a as int] == paths@[a as int]@);
        }
        out.push(f);
        i += 1;
    }
    proof {
        assert(fviews(out@) =~= bridge_findings(graph.nodes(), graph.edge_list(), views(paths@)));
    }
    out
}

/// The number of local pages.
pub open spec fn local_count(nodes: Seq<NodeV>) -> int {
    rank(local_marks(nodes), nodes.len() as int)
}

/// The periphery findings for the peripheral nodes `ps` that are local pages.
pub open spec fn periphery_findings_of(nodes: Seq<NodeV>, ps: Seq<int>, paths: Seq<Seq<char>>) -> Seq<
    FindingV,
>
    decreases ps.len(),
{
    if ps.len() == 0 {
        Seq::empty()
    } else {
        let p = ps.last();
        periphery_findings_of(nodes, ps.drop_last(), paths) + if !nodes[p].3 {
            seq![
                (
                    nodes[p].0,
                    "periphery"@,
                    Severity::Warning,
                    "most structurally isolated page — furthest from all others in the graph"@,
                    paths[p],
                ),
            ]
        } else {
            Seq::empty()
        }
    }
}

/// The periphery findings: none when there are more than `max_nodes` local
/// pages, else one per local page of greatest eccentricity.
pub open spec fn periphery_findings(
    nodes: Seq<NodeV>,
    edges: Seq<EdgeV>,
    paths: Seq<Seq<char>>,
    max_nodes: usize,
) -> Seq<FindingV> {
    if local_count(nodes) > max_nodes {
        Seq::empty()
    } else {
        periphery_findings_of(nodes, periphery_of(nodes, edges), paths)
    }
}

/// Local pages furthest from all others, for graphs of at most `max_nodes` local pages.
pub fn rule_periphery(graph: &WikiGraph, paths: &Vec<String>, max_nodes: usize) -> (r: Vec<
    LintFinding,
>)
    requires
        paths@.len() == graph.nodes().len(),
    ensures
        fviews(r@) == periphery_findings(graph.nodes(), graph.edge_list(), views(paths@), max_nodes),
{
    graph.lemma_wf();
    let n = graph.node_count();
    let mut local: usize = 0;
    let mut i: usize = 0;
    while i < n
        invariant
            i <= n == graph.nodes().len(),
            local as int == rank(local_marks(graph.nodes()), i as int),
            local <= i,
        decreases n - i,
    {
        if !graph.node(i).external {
            local += 1;
        }
        i += 1;
    }
    if local > max_nodes {
        return Vec::new();
    }
    let ps = graph.periphery();
    let ghost pv = ps@.map_values(|x: usize| x as int);
    let mut out: Vec<LintFinding> = Vec::new();
    let mut k: usize = 0;
    while k < ps.len()
        invariant
            k <= ps@.len(),
            pv == ps@.map_values(|x: usize| x as int),
            forall|j: int| 0 <= j < ps@.len() ==> #[trigger] ps@[j] < graph.nodes().len(),
            paths@.len() == graph.nodes().len(),
            fviews(out@) == periphery_findings_of(graph.nodes(), pv.take(k as int), views(paths@)),
        decreases ps@.len() - k,
    {
        proof {
            assert(pv.take(k as int + 1).drop_last() =~= pv.take(k as int));
            assert(pv.take(k as int + 1).last() == ps@[k as int] as int);
        }
        let p = ps[k];
        let node = graph.node(p);
        let ghost before = fviews(out@);
        if !node.external {
            out.push(
                LintFinding {
                    slug: node.slug.clone(),
                    rule: "periphery".to_owned(),
                    severity: Severity::Warning,
                    message: "most structurally isolated page — furthest from all others in the graph".to_owned(),
                    path: paths[p].clone(),
                },
            );
            proof {
                assert(views(paths@)[p as int] == paths@[p as int]@);
                assert(fviews(out@) =~= before.push(fview(out@.last())));
            }
        } else {
            proof {
                assert(fviews(out@) =~= before);
            }
        }
        k += 1;
    }
    proof {
        assert(pv.take(ps@.len() as int) =~= pv);
    }
    out
}

} // verus!
