//! Breadth-first neighbourhoods of the concept graph.
use vstd::prelude::*;

use crate::graph::{
    edges_in_range, last_with_slug, lemma_last_with_slug, EdgeV, NodeV, WikiGraph,
};

verus! {

// ── Reachability ─────────────────────────────────────────────────────────────

/// Some edge among the first `k` joins a node of `r` to `x`, in either direction.
pub open spec fn reached_by(edges: Seq<EdgeV>, r: Set<int>, k: int, x: int) -> bool {
    exists|e: int|
        0 <= e < k && ((r.contains(#[trigger] edges[e].0) && edges[e].1 == x) || (r.contains(
            edges[e].1,
        ) && edges[e].0 == x))
}

/// One hop of expansion: `r` and every node that shares an edge with a node of `r`.
pub open spec fn expand(edges: Seq<EdgeV>, r: Set<int>) -> Set<int> {
    r.union(Set::new(|x: int| reached_by(edges, r, edges.len() as int, x)))
}

/// The nodes at most `d` hops from `root`, edges taken in either direction.
pub open spec fn within(edges: Seq<EdgeV>, root: int, d: nat) -> Set<int>
    decreases d,
{
    if d == 0 {
        set![root]
    } else {
        expand(edges, within(edges, root, (d - 1) as nat))
    }
}

/// A set of node indices below `n` as a membership vector.
pub open spec fn marks_of(s: Set<int>, n: int) -> Seq<bool> {
    Seq::new(n as nat, |i: int| s.contains(i))
}

/// The membership vector as a set.
pub open spec fn set_of(m: Seq<bool>) -> Set<int> {
    Set::new(|i: int| 0 <= i < m.len() && m[i])
}

/// Every node within `d` hops is a node of the graph.
pub proof fn lemma_within_bounds(edges: Seq<EdgeV>, root: int, d: nat, n: int)
    requires
        edges_in_range(n, edges),
        0 <= root < n,
    ensures
        forall|x: int| #[trigger] within(edges, root, d).contains(x) ==> 0 <= x < n,
    decreases d,
{
    if d > 0 {
        lemma_within_bounds(edges, root, (d - 1) as nat, n);
        let w = within(edges, root, (d - 1) as nat);
        assert forall|x: int| #[trigger] within(edges, root, d).contains(x) implies 0 <= x < n by {
            if !w.contains(x) {
                assert(reached_by(edges, w, edges.len() as int, x));
                let e = choose|e: int|
                    0 <= e < edges.len() && ((w.contains(#[trigger] edges[e].0) && edges[e].1 == x)
                        || (w.contains(edges[e].1) && edges[e].0 == x));
                assert(0 <= edges[e].0 < n && 0 <= edges[e].1 < n);
            }
        }
    }
}

/// The root is always within reach.
pub proof fn lemma_within_root(edges: Seq<EdgeV>, root: int, d: nat)
    ensures
        within(edges, root, d).contains(root),
    decreases d,
{
    if d > 0 {
        lemma_within_root(edges, root, (d - 1) as nat);
    }
}

/// Once an expansion adds nothing, further hops add nothing.
pub proof fn lemma_within_fixpoint(edges: Seq<EdgeV>, root: int, l: nat, d: nat)
    requires
        expand(edges, within(edges, root, l)) == within(edges, root, l),
        l <= d,
    ensures
        within(edges, root, d) == within(edges, root, l),
    decreases d - l,
{
    if d > l {
        lemma_within_fixpoint(edges, root, l, (d - 1) as nat);
    }
}

/// Within `n` nodes, a set and its membership vector carry the same information.
pub proof fn lemma_marks_set(s: Set<int>, n: int)
    requires
        n >= 0,
        forall|x: int| #[trigger] s.contains(x) ==> 0 <= x < n,
    ensures
        set_of(marks_of(s, n)) == s,
{
    assert(set_of(marks_of(s, n)) =~= s);
}

// ── Induced subgraph ─────────────────────────────────────────────────────────

/// How many of the first `i` marks are set: the new index of a kept node `i`.
pub open spec fn rank(m: Seq<bool>, i: int) -> int
    decreases i,
{
    if i <= 0 {
        0
    } else {
        rank(m, i - 1) + if m[i - 1] {
            1int
        } else {
            0int
        }
    }
}

/// The marked nodes, in index order.
pub open spec fn sel_nodes(nodes: Seq<NodeV>, m: Seq<bool>) -> Seq<NodeV>
    decreases nodes.len(),
{
    if nodes.len() == 0 {
        Seq::empty()
    } else {
        let rest = sel_nodes(nodes.drop_last(), m);
        if m[nodes.len() - 1] {
            rest.push(nodes.last())
        } else {
            rest
        }
    }
}

/// The edges between marked nodes, in order, renumbered by `rank`.
pub open spec fn sel_edges(edges: Seq<EdgeV>, m: Seq<bool>) -> Seq<EdgeV>
    decreases edges.len(),
{
    if edges.len() == 0 {
        Seq::empty()
    } else {
        let rest = sel_edges(edges.drop_last(), m);
        let e = edges.last();
        if m[e.0] && m[e.1] {
            rest.push((rank(m, e.0), rank(m, e.1), e.2))
        } else {
            rest
        }
    }
}

/// The subgraph of nodes within `depth` hops of the node registered under
/// `root`, with the edges among them; empty when no node has that slug.
pub open spec fn sub_spec(nodes: Seq<NodeV>, edges: Seq<EdgeV>, root: Seq<char>, depth: nat) -> (
    Seq<NodeV>,
    Seq<EdgeV>,
) {
    match last_with_slug(nodes, root) {
        None => (Seq::empty(), Seq::empty()),
        Some(r) => {
            let m = marks_of(within(edges, r, depth), nodes.len() as int);
            (sel_nodes(nodes, m), sel_edges(edges, m))
        },
    }
}

pub proof fn lemma_rank_bounds(m: Seq<bool>, i: int)
    requires
        0 <= i,
    ensures
        0 <= rank(m, i) <= i,
    decreases i,
{
    if i > 0 {
        lemma_rank_bounds(m, i - 1);
    }
}

pub proof fn lemma_rank_mono(m: Seq<bool>, i: int, j: int)
    requires
        0 <= i <= j,
    ensures
        rank(m, i) <= rank(m, j),
    decreases j - i,
{
    if i < j {
        lemma_rank_mono(m, i, j - 1);
    }
}

/// A marked node below `j` has a rank below `rank(m, j)`.
pub proof fn lemma_rank_lt(m: Seq<bool>, i: int, j: int)
    requires
        0 <= i < j,
        m[i],
    ensures
        rank(m, i) < rank(m, j),
{
    lemma_rank_mono(m, i + 1, j);
}

pub proof fn lemma_sel_nodes_len(nodes: Seq<NodeV>, m: Seq<bool>)
    ensures
        sel_nodes(nodes, m).len() == rank(m, nodes.len() as int),
    decreases nodes.len(),
{
    if nodes.len() > 0 {
        lemma_sel_nodes_len(nodes.drop_last(), m);
    }
}

/// A marked node `i` sits at position `rank(m, i)` of the selection.
pub proof fn lemma_sel_nodes_at(nodes: Seq<NodeV>, m: Seq<bool>, i: int)
    requires
        0 <= i < nodes.len() <= m.len(),
        m[i],
    ensures
        rank(m, i) < sel_nodes(nodes, m).len(),
        sel_nodes(nodes, m)[rank(m, i)] == nodes[i],
    decreases nodes.len(),
{
    lemma_sel_nodes_len(nodes, m);
    lemma_sel_nodes_len(nodes.drop_last(), m);
    lemma_rank_bounds(m, i);
    let rest = sel_nodes(nodes.drop_last(), m);
    if i < nodes.len() - 1 {
        lemma_sel_nodes_at(nodes.drop_last(), m, i);
        assert(nodes.drop_last()[i] == nodes[i]);
        assert(rest[rank(m, i)] == nodes[i]);
        if m[nodes.len() - 1] {
            assert(sel_nodes(nodes, m) == rest.push(nodes.last()));
        } else {
            assert(sel_nodes(nodes, m) == rest);
        }
    } else {
        assert(sel_nodes(nodes, m) == rest.push(nodes.last()));
        assert(rest.len() == rank(m, i));
    }
}

pub proof fn lemma_sel_edges_len(edges: Seq<EdgeV>, m: Seq<bool>)
    ensures
        sel_edges(edges, m).len() <= edges.len(),
    decreases edges.len(),
{
    if edges.len() > 0 {
        lemma_sel_edges_len(edges.drop_last(), m);
    }
}

// ── Executable parts ─────────────────────────────────────────────────────────

/// One hop of expansion on a membership vector; also whether it grew.
fn expand_marks(graph: &WikiGraph, marks: &Vec<bool>) -> (r: (Vec<bool>, bool))
    requires
        marks.len() == graph.nodes().len(),
    ensures
        r.0@ == marks_of(expand(graph.edge_list(), set_of(marks@)), marks.len() as int),
        r.1 == (r.0@ != marks@),
{
    graph.lemma_wf();
    let n = marks.len();
    let ne = graph.edge_count();
    let ghost edges = graph.edge_list();
    let ghost s = set_of(marks@);
    let mut next: Vec<bool> = Vec::new();
    let mut i: usize = 0;
    while i < n
        invariant
            i <= n == marks.len(),
            next@ == marks@.take(i as int),
        decreases n - i,
    {
        next.push(marks[i]);
        i += 1;
        assert(next@ =~= marks@.take(i as int));
    }
    assert(next@ =~= marks@);
    let mut e: usize = 0;
    while e < ne
        invariant
            e <= ne == edges.len(),
            edges == graph.edge_list(),
            n == marks.len() == next.len() == graph.nodes().len(),
            edges_in_range(n as int, edges),
            s == set_of(marks@),
            forall|x: int|
                0 <= x < n ==> (#[trigger] next@[x] <==> (marks@[x] || reached_by(
                    edges,
                    s,
                    e as int,
                    x,
                ))),
        decreases ne - e,
    {
        let (a, b, _w) = graph.edge(e);
        assert(edges[e as int].0 == a && edges[e as int].1 == b);
        let ghost before = next@;
        if marks[a] {
            next.set(b, true);
        }
        if marks[b] {
            next.set(a, true);
        }
        assert forall|x: int| 0 <= x < n implies (#[trigger] next@[x] <==> (marks@[x] || reached_by(
            edges,
            s,
            e + 1,
            x,
        ))) by {
            if reached_by(edges, s, e + 1, x) && !reached_by(edges, s, e as int, x) {
                let k = choose|k: int|
                    0 <= k < e + 1 && ((s.contains(#[trigger] edges[k].0) && edges[k].1 == x) || (
                    s.contains(edges[k].1) && edges[k].0 == x));
                assert(k == e);
            }
            if before[x] == false && next@[x] {
                assert(s.contains(edges[e as int].0) || s.contains(edges[e as int].1));
            }
        }
        e += 1;
    }
    proof {
        assert(next@ =~= marks_of(expand(edges, s), n as int));
    }
    let mut grew = false;
    let mut j: usize = 0;
    while j < n
        invariant
            j <= n == marks.len() == next.len(),
            grew == exists|x: int| 0 <= x < j && next@[x] != marks@[x],
        decreases n - j,
    {
        if next[j] != marks[j] {
            grew = true;
        }
        j += 1;
    }
    proof {
        if !grew {
            assert(next@ =~= marks@);
        }
    }
    (next, grew)
}

/// The membership vector of the nodes within `depth` hops of `root`.
fn reach_marks(graph: &WikiGraph, root: usize, depth: usize) -> (m: Vec<bool>)
    requires
        root < graph.nodes().len(),
    ensures
        m@ == marks_of(within(graph.edge_list(), root as int, depth as nat), graph.nodes().len() as int),
{
    graph.lemma_wf();
    let n = graph.node_count();
    let ghost edges = graph.edge_list();
    let mut marks: Vec<bool> = Vec::new();
    let mut i: usize = 0;
    while i < n
        invariant
            i <= n,
            root < n,
            marks.len() == i,
            forall|x: int| 0 <= x < i ==> #[trigger] marks@[x] == (x == root),
        decreases n - i,
    {
        marks.push(i == root);
        i += 1;
    }
    proof {
        assert(marks@ =~= marks_of(within(edges, root as int, 0), n as int));
    }
    let mut level: usize = 0;
    let mut changed = true;
    while level < depth && changed
        invariant
            level <= depth,
            root < n == graph.nodes().len(),
            edges == graph.edge_list(),
            edges_in_range(n as int, edges),
            marks@ == marks_of(within(edges, root as int, level as nat), n as int),
            !changed ==> expand(edges, within(edges, root as int, level as nat)) == within(
                edges,
                root as int,
                level as nat,
            ),
        decreases depth - level,
    {
        proof {
            lemma_within_bounds(edges, root as int, level as nat, n as int);
            lemma_marks_set(within(edges, root as int, level as nat), n as int);
            lemma_within_bounds(edges, root as int, (level + 1) as nat, n as int);
        }
        let (next, grew) = expand_marks(graph, &marks);
        proof {
            let w = within(edges, root as int, level as nat);
            let w1 = within(edges, root as int, (level + 1) as nat);
            assert(w1 == expand(edges, w));
            if !grew {
                lemma_marks_set(w1, n as int);
                assert(w1 == w);
            }
        }
        marks = next;
        changed = grew;
        level += 1;
    }
    proof {
        if level < depth {
            lemma_within_fixpoint(edges, root as int, level as nat, depth as nat);
        }
    }
    marks
}

/// The subgraph induced by the marked nodes.
fn induced(graph: &WikiGraph, marks: &Vec<bool>) -> (r: WikiGraph)
    requires
        marks.len() == graph.nodes().len(),
    ensures
        r.nodes() == sel_nodes(graph.nodes(), marks@),
        r.edge_list() == sel_edges(graph.edge_list(), marks@),
{
    graph.lemma_wf();
    let n = graph.node_count();
    let ne = graph.edge_count();
    let ghost nodes = graph.nodes();
    let ghost edges = graph.edge_list();
    let mut g = WikiGraph::new();
    let mut newidx: Vec<usize> = Vec::new();
    let mut i: usize = 0;
    while i < n
        invariant
            i <= n == nodes.len() == marks.len(),
            nodes == graph.nodes(),
            n <= u32::MAX,
            g.nodes() == sel_nodes(nodes.take(i as int), marks@),
            g.edge_list() == Seq::<EdgeV>::empty(),
            g.nodes().len() == rank(marks@, i as int),
            newidx.len() == i,
            forall|j: int| 0 <= j < i ==> #[trigger] newidx@[j] as int == rank(marks@, j),
        decreases n - i,
    {
        proof {
            lemma_rank_bounds(marks@, i as int);
            assert(nodes.take(i as int + 1).drop_last() =~= nodes.take(i as int));
        }
        newidx.push(g.node_count());
        if marks[i] {
            let node = graph.node(i).clone();
            g.add_node(node);
        }
        i += 1;
    }
    proof {
        assert(nodes.take(n as int) =~= nodes);
        lemma_sel_nodes_len(nodes, marks@);
    }
    let mut e: usize = 0;
    while e < ne
        invariant
            e <= ne == edges.len(),
            n == nodes.len() == marks.len() == newidx.len(),
            nodes == graph.nodes(),
            edges == graph.edge_list(),
            edges_in_range(n as int, edges),
            ne <= u32::MAX,
            g.nodes() == sel_nodes(nodes, marks@),
            g.nodes().len() == rank(marks@, n as int),
            g.edge_list() == sel_edges(edges.take(e as int), marks@),
            forall|j: int| 0 <= j < n ==> #[trigger] newidx@[j] as int == rank(marks@, j),
        decreases ne - e,
    {
        proof {
            lemma_sel_edges_len(edges.take(e as int), marks@);
            assert(edges.take(e as int + 1).drop_last() =~= edges.take(e as int));
        }
        let (a, b, w) = graph.edge(e);
        assert(0 <= edges[e as int].0 < n && 0 <= edges[e as int].1 < n);
        if marks[a] && marks[b] {
            proof {
                lemma_rank_lt(marks@, a as int, n as int);
                lemma_rank_lt(marks@, b as int, n as int);
            }
            let lbl = w.clone();
            g.add_edge(newidx[a], newidx[b], lbl);
        }
        e += 1;
    }
    proof {
        assert(edges.take(ne as int) =~= edges);
    }
    g
}

/// Extract the subgraph within `depth` hops (edges followed in either
/// direction) of the page `root_slug`, with every edge among those pages;
/// empty when no page has that slug. Kept pages stay in index order.
pub fn subgraph(graph: &WikiGraph, root_slug: &str, depth: usize) -> (r: WikiGraph)
    ensures
        (r.nodes(), r.edge_list()) == sub_spec(graph.nodes(), graph.edge_list(), root_slug@, depth as nat),
{
    proof {
        lemma_last_with_slug(graph.nodes(), root_slug@);
    }
    match graph.node_for_slug(root_slug) {
        None => WikiGraph::new(),
        Some(root) => {
            let marks = reach_marks(graph, root, depth);
            induced(graph, &marks)
        },
    }
}

/// A subgraph is no larger than its graph.
pub proof fn lemma_sub_spec_size(nodes: Seq<NodeV>, edges: Seq<EdgeV>, root: Seq<char>, depth: nat)
    ensures
        sub_spec(nodes, edges, root, depth).0.len() <= nodes.len(),
        sub_spec(nodes, edges, root, depth).1.len() <= edges.len(),
{
    match last_with_slug(nodes, root) {
        None => {},
        Some(r) => {
            let m = marks_of(within(edges, r, depth), nodes.len() as int);
            lemma_sel_nodes_len(nodes, m);
            lemma_rank_bounds(m, nodes.len() as int);
            lemma_sel_edges_len(edges, m);
        },
    }
}

// ── Laws ─────────────────────────────────────────────────────────────────────

/// The subgraph of a page that exists holds that page; its edges join its own
/// nodes; and a subgraph of depth zero holds that page alone.
pub proof fn law_subgraph_keeps_root(nodes: Seq<NodeV>, edges: Seq<EdgeV>, root: Seq<char>, depth: nat)
    requires
        edges_in_range(nodes.len() as int, edges),
        last_with_slug(nodes, root) is Some,
    ensures
        exists|i: int|
            0 <= i < sub_spec(nodes, edges, root, depth).0.len() && (#[trigger] sub_spec(
                nodes,
                edges,
                root,
                depth,
            ).0[i]).0 == root,
        depth == 0 ==> sub_spec(nodes, edges, root, depth).0.len() == 1,
{
    lemma_last_with_slug(nodes, root);
    let r = last_with_slug(nodes, root)->0;
    let w = within(edges, r, depth);
    let m = marks_of(w, nodes.len() as int);
    lemma_within_root(edges, r, depth);
    lemma_sel_nodes_at(nodes, m, r);
    let k = rank(m, r);
    lemma_rank_bounds(m, r);
    assert(m[r]);
    assert(sub_spec(nodes, edges, root, depth).0 == sel_nodes(nodes, m));
    assert(sel_nodes(nodes, m)[k] == nodes[r]);
    assert(sub_spec(nodes, edges, root, depth).0[k].0 == root);
    if depth == 0 {
        lemma_sel_nodes_len(nodes, m);
        lemma_rank_single(m, r, nodes.len() as int);
    }
}

/// With exactly one mark set, at `r`, the rank of the end is one.
proof fn lemma_rank_single(m: Seq<bool>, r: int, n: int)
    requires
        0 <= r < n <= m.len(),
        forall|i: int| 0 <= i < m.len() ==> (#[trigger] m[i] <==> i == r),
    ensures
        rank(m, n) == 1,
    decreases n,
{
    if n > r + 1 {
        lemma_rank_single(m, r, n - 1);
    } else {
        lemma_rank_zero(m, r);
    }
}

proof fn lemma_rank_zero(m: Seq<bool>, i: int)
    requires
        0 <= i <= m.len(),
        forall|j: int| 0 <= j < i ==> !#[trigger] m[j],
    ensures
        rank(m, i) == 0,
    decreases i,
{
    if i > 0 {
        lemma_rank_zero(m, i - 1);
    }
}

/// Every edge of a subgraph joins two of its nodes.
pub proof fn law_subgraph_edges_in_range(nodes: Seq<NodeV>, edges: Seq<EdgeV>, root: Seq<char>, depth: nat)
    requires
        edges_in_range(nodes.len() as int, edges),
    ensures
        edges_in_range(
            sub_spec(nodes, edges, root, depth).0.len() as int,
            sub_spec(nodes, edges, root, depth).1,
        ),
{
    match last_with_slug(nodes, root) {
        None => {},
        Some(r) => {
            let m = marks_of(within(edges, r, depth), nodes.len() as int);
            lemma_sel_nodes_len(nodes, m);
            lemma_sel_edges_range(edges, m, nodes.len() as int);
        },
    }
}

proof fn lemma_sel_edges_range(edges: Seq<EdgeV>, m: Seq<bool>, n: int)
    requires
        edges_in_range(n, edges),
        m.len() == n,
    ensures
        edges_in_range(rank(m, n), sel_edges(edges, m)),
    decreases edges.len(),
{
    if edges.len() > 0 {
        let pre = edges.drop_last();
        assert(edges_in_range(n, pre)) by {
            assert forall|e: int| 0 <= e < pre.len() implies 0 <= #[trigger] pre[e].0 < n && 0
                <= pre[e].1 < n by {
                assert(pre[e] == edges[e]);
            }
        }
        lemma_sel_edges_range(pre, m, n);
        let e = edges.last();
        assert(0 <= e.0 < n && 0 <= e.1 < n) by {
            assert(edges[edges.len() - 1] == e);
        }
        if m[e.0] && m[e.1] {
            lemma_rank_lt(m, e.0, n);
            lemma_rank_lt(m, e.1, n);
            lemma_rank_bounds(m, e.0);
            lemma_rank_bounds(m, e.1);
        }
    }
}

/// The subgraph of a slug that no page has is empty: no nodes, no edges.
pub proof fn law_subgraph_of_absent_root(nodes: Seq<NodeV>, edges: Seq<EdgeV>, root: Seq<char>, depth: nat)
    requires
        forall|j: int| 0 <= j < nodes.len() ==> (#[trigger] nodes[j]).0 != root,
    ensures
        sub_spec(nodes, edges, root, depth).0.len() == 0,
        sub_spec(nodes, edges, root, depth).1.len() == 0,
{
    lemma_last_with_slug(nodes, root);
    if last_with_slug(nodes, root) is Some {
        let k = last_with_slug(nodes, root)->0;
        assert(nodes[k].0 == root);
    }
}

} // verus!
