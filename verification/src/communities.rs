//! The integer side of community detection: the undirected adjacency of
//! local pages that the clustering pass reads, the order in which local pages
//! are numbered, and the numbering and sizes of the communities it found.
use vstd::prelude::*;

use crate::graph::{edges_in_range, nview, EdgeV, NodeV, WikiGraph};
use crate::lint_report::{lemma_str_lt_total, lemma_str_lt_trans, str_lt};
use crate::text::str_eq;

verus! {

// ── Adjacency ────────────────────────────────────────────────────────────────

/// Pages `i` and `j` are both local and some edge joins them, in either direction.
pub open spec fn linked(nodes: Seq<NodeV>, edges: Seq<EdgeV>, i: int, j: int) -> bool {
    linked_within(nodes, edges, edges.len() as int, i, j)
}

/// As `linked`, counting only the first `n` edges.
pub open spec fn linked_within(nodes: Seq<NodeV>, edges: Seq<EdgeV>, n: int, i: int, j: int) -> bool {
    &&& !nodes[i].3
    &&& !nodes[j].3
    &&& exists|e: int|
        0 <= e < n && ((#[trigger] edges[e].0 == i && edges[e].1 == j) || (edges[e].0 == j
            && edges[e].1 == i))
}

/// No value occurs twice.
pub open spec fn distinct(s: Seq<usize>) -> bool {
    forall|a: int, b: int| 0 <= a < b < s.len() ==> s[a] != s[b]
}

fn contains_index(v: &Vec<usize>, x: usize) -> (r: bool)
    ensures
        r == v@.contains(x),
{
    let mut i: usize = 0;
    while i < v.len()
        invariant
            i <= v.len(),
            forall|k: int| 0 <= k < i ==> v@[k] != x,
        decreases v.len() - i,
    {
        if v[i] == x {
            return true;
        }
        i += 1;
    }
    false
}

fn add_neighbor(adj: &mut Vec<Vec<usize>>, a: usize, b: usize)
    requires
        a < old(adj)@.len(),
    ensures
        final(adj)@.len() == old(adj)@.len(),
        forall|k: int| 0 <= k < old(adj)@.len() && k != a ==> #[trigger] final(adj)@[k] == old(adj)@[k],
        forall|x: usize| #[trigger] final(adj)@[a as int]@.contains(x) <==> (old(
            adj,
        )@[a as int]@.contains(x) || x == b),
        distinct(old(adj)@[a as int]@) ==> distinct(final(adj)@[a as int]@),
        forall|k: int|
            0 <= k < final(adj)@[a as int]@.len() ==> #[trigger] final(adj)@[a as int]@[k] == b
                || old(adj)@[a as int]@.contains(final(adj)@[a as int]@[k]),
{
    if !contains_index(&adj[a], b) {
        let mut row = adj[a].clone();
        proof {
            assert(row@ =~= old(adj)@[a as int]@);
        }
        let ghost s = row@;
        row.push(b);
        proof {
            assert forall|x: usize| #[trigger] row@.contains(x) <==> (s.contains(x) || x == b) by {
                if s.contains(x) {
                    let k = choose|k: int| 0 <= k < s.len() && s[k] == x;
                    assert(row@[k] == x);
                }
                if x == b {
                    assert(row@[s.len() as int] == x);
                }
                if row@.contains(x) {
                    let k = choose|k: int| 0 <= k < row@.len() && row@[k] == x;
                    if k < s.len() {
                        assert(s[k] == x);
                    }
                }
            }
            assert forall|k: int| 0 <= k < row@.len() implies #[trigger] row@[k] == b || s.contains(
                row@[k],
            ) by {
                if k < s.len() {
                    assert(row@[k] == s[k]);
                }
            }
        }
        adj.set(a, row);
    }
}

/// The undirected adjacency of the local pages: entry `i` lists, once each,
/// the local pages joined to page `i` by an edge in either direction (empty
/// for an external page).
pub fn local_adjacency(graph: &WikiGraph) -> (r: Vec<Vec<usize>>)
    ensures
        r@.len() == graph.nodes().len(),
        forall|i: int, j: int|
            0 <= i < graph.nodes().len() && 0 <= j < graph.nodes().len() ==> (
            #[trigger] r@[i]@.contains(j as usize) <==> linked(graph.nodes(), graph.edge_list(), i, j)),
        forall|i: int| 0 <= i < r@.len() ==> distinct(#[trigger] r@[i]@),
        forall|i: int, k: int|
            0 <= i < r@.len() && 0 <= k < r@[i]@.len() ==> (#[trigger] r@[i]@[k]) < graph.nodes().len(),
{
    graph.lemma_wf();
    let ghost nodes = graph.nodes();
    let ghost edges = graph.edge_list();
    let n = graph.node_count();
    let ne = graph.edge_count();
    let mut adj: Vec<Vec<usize>> = Vec::new();
    let mut i: usize = 0;
    while i < n
        invariant
            i <= n,
            adj@.len() == i,
            forall|k: int| 0 <= k < i ==> (#[trigger] adj@[k])@.len() == 0,
        decreases n - i,
    {
        adj.push(Vec::new());
        i += 1;
    }
    let mut e: usize = 0;
    while e < ne
        invariant
            e <= ne,
            n == nodes.len(),
            ne == edges.len(),
            nodes == graph.nodes(),
            edges == graph.edge_list(),
            edges_in_range(n as int, edges),
            adj@.len() == n,
            forall|i: int, j: int|
                0 <= i < n && 0 <= j < n ==> (#[trigger] adj@[i]@.contains(j as usize)
                    <==> linked_within(nodes, edges, e as int, i, j)),
            forall|i: int| 0 <= i < n ==> distinct(#[trigger] adj@[i]@),
            forall|i: int, k: int|
                0 <= i < n && 0 <= k < adj@[i]@.len() ==> (#[trigger] adj@[i]@[k]) < n,
        decreases ne - e,
    {
        let (a, b, _) = graph.edge(e);
        assert(0 <= edges[e as int].0 < n && 0 <= edges[e as int].1 < n);
        let ext_a = graph.node(a).external;
        let ext_b = graph.node(b).external;
        let ghost before = adj@;
        if !ext_a && !ext_b {
            add_neighbor(&mut adj, a, b);
            let ghost mid = adj@;
            add_neighbor(&mut adj, b, a);
            proof {
                assert forall|i: int, j: int|
                    0 <= i < n && 0 <= j < n implies (#[trigger] adj@[i]@.contains(j as usize)
                        <==> linked_within(nodes, edges, e + 1, i, j)) by {
                    let now = linked_within(nodes, edges, e + 1, i, j);
                    let was = linked_within(nodes, edges, e as int, i, j);
                    if was {
                        let w = choose|w: int|
                            0 <= w < e && ((#[trigger] edges[w].0 == i && edges[w].1 == j) || (
                            edges[w].0 == j && edges[w].1 == i));
                        assert(0 <= w < e + 1);
                    }
                    let hit = (i == a && j == b) || (i == b && j == a);
                    if hit {
                        assert(edges[e as int].0 == a && edges[e as int].1 == b);
                    }
                    if now && !was {
                        let w = choose|w: int|
                            0 <= w < e + 1 && ((#[trigger] edges[w].0 == i && edges[w].1 == j) || (
                            edges[w].0 == j && edges[w].1 == i));
                        assert(w == e);
                    }
                    if i != a as int && i != b as int {
                        assert(adj@[i] == before[i]);
                    }
                    if i == b as int && i != a as int {
                        assert(mid[i] == before[i]);
                    }
                    if i == a as int && i != b as int {
                        assert(adj@[i] == mid[i]);
                    }
                }
                assert forall|i: int| 0 <= i < n implies distinct(#[trigger] adj@[i]@) by {
                    if i != a as int {
                        assert(mid[i] == before[i]);
                    }
                    if i != b as int {
                        assert(adj@[i] == mid[i]);
                    }
                }
                assert forall|i: int, k: int| 0 <= i < n && 0 <= k < adj@[i]@.len() implies (
                #[trigger] adj@[i]@[k]) < n by {
                    if i != a as int {
                        assert(mid[i] == before[i]);
                    }
                    if i != b as int {
                        assert(adj@[i] == mid[i]);
                    }
                    if i == b as int && adj@[i]@[k] != a {
                        let x = adj@[i]@[k];
                        assert(mid[i]@.contains(x));
                        let k2 = choose|k2: int| 0 <= k2 < mid[i]@.len() && mid[i]@[k2] == x;
                        if i == a as int && x != b {
                            assert(before[i]@.contains(x));
                        }
                    }
                    if i == a as int && i != b as int && adj@[i]@[k] != b {
                        assert(before[i]@.contains(adj@[i]@[k]));
                    }
                }
            }
        } else {
            proof {
                assert forall|i: int, j: int|
                    0 <= i < n && 0 <= j < n implies (#[trigger] adj@[i]@.contains(j as usize)
                        <==> linked_within(nodes, edges, e + 1, i, j)) by {
                    if linked_within(nodes, edges, e + 1, i, j) {
                        let w = choose|w: int|
                            0 <= w < e + 1 && ((#[trigger] edges[w].0 == i && edges[w].1 == j) || (
                            edges[w].0 == j && edges[w].1 == i));
                        if w == e {
                            assert(edges[e as int].0 == a && edges[e as int].1 == b);
                        }
                        assert(linked_within(nodes, edges, e as int, i, j));
                    }
                    if linked_within(nodes, edges, e as int, i, j) {
                        let w = choose|w: int|
                            0 <= w < e && ((#[trigger] edges[w].0 == i && edges[w].1 == j) || (
                            edges[w].0 == j && edges[w].1 == i));
                        assert(0 <= w < e + 1);
                    }
                }
            }
        }
        e += 1;
    }
    adj
}

// ── Numbering communities ────────────────────────────────────────────────────

/// The distinct values of `ids`, in order of first appearance.
pub open spec fn first_seen(ids: Seq<usize>) -> Seq<usize>
    decreases ids.len(),
{
    if ids.len() == 0 {
        Seq::empty()
    } else {
        let r = first_seen(ids.drop_last());
        if r.contains(ids.last()) {
            r
        } else {
            r.push(ids.last())
        }
    }
}

proof fn lemma_first_seen(ids: Seq<usize>)
    ensures
        distinct(first_seen(ids)),
        forall|i: int| 0 <= i < ids.len() ==> first_seen(ids).contains(#[trigger] ids[i]),
        forall|c: int| 0 <= c < first_seen(ids).len() ==> ids.contains(#[trigger] first_seen(ids)[c]),
        first_seen(ids).len() <= ids.len(),
    decreases ids.len(),
{
    if ids.len() > 0 {
        let u = ids.drop_last();
        lemma_first_seen(u);
        let r = first_seen(u);
        assert forall|c: int| 0 <= c < first_seen(ids).len() implies ids.contains(#[trigger] first_seen(ids)[c]) by {
            if c < r.len() {
                assert(first_seen(ids)[c] == r[c]);
                let i = choose|i: int| 0 <= i < u.len() && u[i] == r[c];
                assert(ids[i] == r[c]);
            } else {
                assert(ids[ids.len() - 1] == first_seen(ids)[c]);
            }
        }
        assert forall|i: int| 0 <= i < ids.len() implies first_seen(ids).contains(#[trigger] ids[i]) by {
            if i < u.len() {
                assert(u[i] == ids[i]);
                let k = choose|k: int| 0 <= k < r.len() && r[k] == u[i];
                assert(first_seen(ids)[k] == ids[i]);
            } else if !r.contains(ids.last()) {
                assert(first_seen(ids)[r.len() as int] == ids[i]);
            }
        }
    }
}

/// Renumber community ids to `0..k` in order of first appearance; return the
/// new ids and `k`. Entry `i` of the result is the position of `ids[i]` among
/// the distinct ids in order of first appearance.
pub fn renumber_communities(ids: &Vec<usize>) -> (r: (Vec<usize>, usize))
    ensures
        r.1 == first_seen(ids@).len(),
        r.0@.len() == ids@.len(),
        forall|i: int|
            0 <= i < ids@.len() ==> (#[trigger] r.0@[i]) < r.1 && first_seen(ids@)[r.0@[i] as int]
                == ids@[i],
        r.1 <= ids@.len(),
        every_community_used(r.0@, r.1 as int),
{
    let mut seen: Vec<usize> = Vec::new();
    let mut out: Vec<usize> = Vec::new();
    let mut i: usize = 0;
    while i < ids.len()
        invariant
            i <= ids@.len(),
            seen@ == first_seen(ids@.take(i as int)),
            out@.len() == i,
            forall|j: int|
                0 <= j < i ==> (#[trigger] out@[j]) < seen@.len() && seen@[out@[j] as int] == ids@[j],
        decreases ids@.len() - i,
    {
        let x = ids[i];
        proof {
            assert(ids@.take(i as int + 1).drop_last() =~= ids@.take(i as int));
            assert(ids@.take(i as int + 1).last() == x);
        }
        let mut k: usize = 0;
        while k < seen.len() && seen[k] != x
            invariant
                k <= seen@.len(),
                forall|q: int| 0 <= q < k ==> seen@[q] != x,
            decreases seen@.len() - k,
        {
            k += 1;
        }
        if k < seen.len() {
            out.push(k);
            proof {
                assert(seen@.contains(x));
            }
        } else {
            proof {
                assert(!seen@.contains(x));
            }
            out.push(seen.len());
            seen.push(x);
        }
        i += 1;
    }
    proof {
        assert(ids@.take(ids@.len() as int) =~= ids@);
        lemma_first_seen(ids@);
        let fs = first_seen(ids@);
        assert forall|c: int| 0 <= c < seen@.len() implies #[trigger] used(out@, c) by {
            let i = choose|i: int| 0 <= i < ids@.len() && ids@[i] == fs[c];
            assert(fs[out@[i] as int] == fs[c]);
            assert(out@[i] == c);
        }
    }
    (out, seen.len())
}

/// Aggregated statistics of a community assignment.
#[derive(Debug, Clone, Copy, PartialEq, Eq, Structural)]
pub struct CommunityStats {
    /// Number of distinct clusters found.
    pub count: usize,
    /// Size (node count) of the largest cluster.
    pub largest: usize,
    /// Size (node count) of the smallest cluster.
    pub smallest: usize,
}

/// How many pages are in community `c`.
pub open spec fn size_of(ids: Seq<usize>, c: int) -> nat
    decreases ids.len(),
{
    if ids.len() == 0 {
        0
    } else {
        size_of(ids.drop_last(), c) + if ids.last() == c {
            1nat
        } else {
            0nat
        }
    }
}

/// The largest size among communities `0..k` (0 when `k` is 0).
pub open spec fn largest_of(ids: Seq<usize>, k: int) -> nat
    decreases k,
{
    if k <= 0 {
        0
    } else {
        let m = largest_of(ids, k - 1);
        let s = size_of(ids, k - 1);
        if s > m {
            s
        } else {
            m
        }
    }
}

/// The smallest size among communities `0..k` (0 when `k` is 0).
pub open spec fn smallest_of(ids: Seq<usize>, k: int) -> nat
    decreases k,
{
    if k <= 0 {
        0
    } else if k == 1 {
        size_of(ids, 0)
    } else {
        let m = smallest_of(ids, k - 1);
        let s = size_of(ids, k - 1);
        if s < m {
            s
        } else {
            m
        }
    }
}

proof fn lemma_size_bound(ids: Seq<usize>, c: int)
    ensures
        size_of(ids, c) <= ids.len(),
    decreases ids.len(),
{
    if ids.len() > 0 {
        lemma_size_bound(ids.drop_last(), c);
    }
}

proof fn lemma_largest_bound(ids: Seq<usize>, k: int)
    ensures
        largest_of(ids, k) <= ids.len(),
        k > 0 ==> smallest_of(ids, k) <= ids.len(),
    decreases k,
{
    if k > 0 {
        lemma_largest_bound(ids, k - 1);
        lemma_size_bound(ids, k - 1);
        lemma_size_bound(ids, 0);
    }
}

/// The count, largest and smallest size of communities `0..count`, each page
/// being in the community its entry of `ids` names.
pub fn community_stats(ids: &Vec<usize>, count: usize) -> (r: CommunityStats)
    requires
        forall|i: int| 0 <= i < ids@.len() ==> (#[trigger] ids@[i]) < count,
        count <= ids@.len(),
    ensures
        r.count == count,
        r.largest == largest_of(ids@, count as int),
        r.smallest == smallest_of(ids@, count as int),
{
    let mut sizes: Vec<usize> = Vec::new();
    let mut c: usize = 0;
    while c < count
        invariant
            c <= count,
            sizes@.len() == c,
            forall|q: int| 0 <= q < c ==> #[trigger] sizes@[q] == 0,
        decreases count - c,
    {
        sizes.push(0);
        c += 1;
    }
    let mut i: usize = 0;
    while i < ids.len()
        invariant
            i <= ids@.len(),
            count <= ids@.len(),
            sizes@.len() == count,
            forall|j: int| 0 <= j < ids@.len() ==> (#[trigger] ids@[j]) < count,
            forall|q: int| 0 <= q < count ==> #[trigger] sizes@[q] == size_of(ids@.take(i as int), q),
        decreases ids@.len() - i,
    {
        let x = ids[i];
        proof {
            assert(ids@.take(i as int + 1).drop_last() =~= ids@.take(i as int));
            lemma_size_bound(ids@.take(i as int), x as int);
        }
        let v = sizes[x] + 1;
        sizes.set(x, v);
        i += 1;
    }
    proof {
        assert(ids@.take(ids@.len() as int) =~= ids@);
        lemma_largest_bound(ids@, count as int);
    }
    let mut largest: usize = 0;
    let mut smallest: usize = 0;
    let mut k: usize = 0;
    while k < count
        invariant
            k <= count,
            count <= ids@.len(),
            sizes@.len() == count,
            forall|q: int| 0 <= q < count ==> #[trigger] sizes@[q] == size_of(ids@, q),
            largest == largest_of(ids@, k as int),
            smallest == smallest_of(ids@, k as int),
        decreases count - k,
    {
        let s = sizes[k];
        if s > largest {
            largest = s;
        }
        if k == 0 || s < smallest {
            smallest = s;
        }
        k += 1;
    }
    CommunityStats { count, largest, smallest }
}

/// Cached community results for a wiki.
#[derive(Debug)]
pub struct CommunityData {
    /// Number of local (non-external) nodes in the graph at cache time.
    pub local_count: usize,
    /// Each local page's slug with its community id.
    pub map: Vec<(String, usize)>,
    /// Aggregated statistics.
    pub stats: CommunityStats,
}

/// The community of the first entry for `slug` at or after entry `i`.
pub open spec fn community_in(m: Seq<(String, usize)>, slug: Seq<char>, i: int) -> Option<usize>
    decreases m.len() - i,
{
    if i < 0 || i >= m.len() {
        None
    } else if m[i].0@ == slug {
        Some(m[i].1)
    } else {
        community_in(m, slug, i + 1)
    }
}

impl CommunityData {
    /// The community of the first entry for `slug`, if there is one.
    pub fn community_of(&self, slug: &str) -> (r: Option<usize>)
        ensures
            r == community_in(self.map@, slug@, 0),
    {
        let mut i: usize = 0;
        while i < self.map.len()
            invariant
                i <= self.map@.len(),
                community_in(self.map@, slug@, 0) == community_in(self.map@, slug@, i as int),
            decreases self.map@.len() - i,
        {
            if str_eq(self.map[i].0.as_str(), slug) {
                return Some(self.map[i].1);
            }
            i += 1;
        }
        None
    }
}

// ── Order of local pages ─────────────────────────────────────────────────────

/// Page `x` comes before page `y`: by slug, then by index.
pub open spec fn node_before(nodes: Seq<NodeV>, x: int, y: int) -> bool {
    str_lt(nodes[x].0, nodes[y].0) || (nodes[x].0 == nodes[y].0 && x < y)
}

proof fn lemma_node_before_trans(nodes: Seq<NodeV>, x: int, y: int, z: int)
    requires
        node_before(nodes, x, y),
        node_before(nodes, y, z),
    ensures
        node_before(nodes, x, z),
{
    if str_lt(nodes[x].0, nodes[y].0) && str_lt(nodes[y].0, nodes[z].0) {
        lemma_str_lt_trans(nodes[x].0, nodes[y].0, nodes[z].0);
    }
}

/// The local (non-external) pages, ordered by slug and, for equal slugs, by index.
pub fn local_nodes_by_slug(graph: &WikiGraph) -> (r: Vec<usize>)
    ensures
        forall|a: int, b: int|
            0 <= a < b < r@.len() ==> node_before(graph.nodes(), #[trigger] r@[a] as int, #[trigger] r@[b] as int),
        forall|j: int|
            0 <= j < graph.nodes().len() ==> (r@.contains(j as usize) <==> !(#[trigger] graph.nodes()[j]).3),
        forall|k: int| 0 <= k < r@.len() ==> (#[trigger] r@[k]) < graph.nodes().len(),
{
    let ghost nodes = graph.nodes();
    let n = graph.node_count();
    let mut out: Vec<usize> = Vec::new();
    let mut i: usize = 0;
    while i < n
        invariant
            i <= n,
            n == nodes.len(),
            nodes == graph.nodes(),
            forall|a: int, b: int|
                0 <= a < b < out@.len() ==> node_before(nodes, #[trigger] out@[a] as int, #[trigger] out@[b] as int),
            forall|j: int| 0 <= j < n ==> (out@.contains(j as usize) <==> (j < i && !(#[trigger] nodes[j]).3)),
            forall|k: int| 0 <= k < out@.len() ==> (#[trigger] out@[k]) < i,
        decreases n - i,
    {
        let node = graph.node(i);
        if !node.external {
            let mut p = out.len();
            while p > 0 && crate::lint_report::str_less(node.slug.as_str(), graph.node(out[p - 1]).slug.as_str())
                invariant
                    p <= out@.len(),
                    i < n,
                    n == nodes.len(),
                    nview(*node) == nodes[i as int],
                    nodes == graph.nodes(),
                    forall|k: int| 0 <= k < out@.len() ==> (#[trigger] out@[k]) < i,
                    forall|q: int| p <= q < out@.len() ==> str_lt(nodes[i as int].0, #[trigger] nodes[out@[q] as int].0),
                decreases p,
            {
                p -= 1;
            }
            let ghost old_out = out@;
            proof {
                if p > 0 {
                    let y = old_out[p - 1] as int;
                    assert(!str_lt(nodes[i as int].0, nodes[y].0));
                    if nodes[y].0 != nodes[i as int].0 {
                        lemma_str_lt_total(nodes[y].0, nodes[i as int].0);
                    }
                    assert(node_before(nodes, y, i as int));
                }
            }
            out.insert(p, i);
            proof {
                assert forall|a: int, b: int| 0 <= a < b < out@.len() implies node_before(
                    nodes,
                    #[trigger] out@[a] as int,
                    #[trigger] out@[b] as int,
                ) by {
                    if b < p {
                        assert(out@[a] == old_out[a] && out@[b] == old_out[b]);
                    } else if b == p {
                        assert(out@[a] == old_out[a]);
                        if a < p - 1 {
                            assert(node_before(nodes, old_out[a] as int, old_out[p - 1] as int));
                            lemma_node_before_trans(nodes, old_out[a] as int, old_out[p - 1] as int, i as int);
                        }
                    } else if a == p {
                        assert(out@[b] == old_out[b - 1]);
                    } else if a < p {
                        assert(out@[a] == old_out[a] && out@[b] == old_out[b - 1]);
                    } else {
                        assert(out@[a] == old_out[a - 1] && out@[b] == old_out[b - 1]);
                    }
                }
                assert forall|j: int| 0 <= j < n implies (out@.contains(j as usize) <==> (j < i + 1
                    && !(#[trigger] nodes[j]).3)) by {
                    if out@.contains(j as usize) {
                        let k = choose|k: int| 0 <= k < out@.len() && out@[k] == j as usize;
                        if k < p {
                            assert(old_out[k] == j);
                        } else if k > p {
                            assert(old_out[k - 1] == j);
                        }
                    }
                    if j < i && !nodes[j].3 {
                        let k = choose|k: int| 0 <= k < old_out.len() && old_out[k] == j as usize;
                        if k < p {
                            assert(out@[k] == j);
                        } else {
                            assert(out@[k + 1] == j);
                        }
                    }
                    if j == i {
                        assert(out@[p as int] == j);
                    }
                }
                assert forall|k: int| 0 <= k < out@.len() implies (#[trigger] out@[k]) < i + 1 by {
                    if k < p {
                        assert(out@[k] == old_out[k]);
                    } else if k > p {
                        assert(out@[k] == old_out[k - 1]);
                    }
                }
            }
        }
        i += 1;
    }
    out
}

/// The community ids of a map, in its order.
pub open spec fn map_ids(m: Seq<(String, usize)>) -> Seq<usize> {
    m.map_values(|p: (String, usize)| p.1)
}

/// The community data of a clustering: `order` lists the local pages as the
/// clustering pass numbered them and `assigned[i]` is the community it gave
/// `order[i]`. Communities are renumbered `0..count` in order of first
/// appearance; the map pairs each page's slug with its new number.
pub fn community_data(graph: &WikiGraph, order: &Vec<usize>, assigned: &Vec<usize>) -> (r: CommunityData)
    requires
        order@.len() == assigned@.len(),
        forall|k: int| 0 <= k < order@.len() ==> (#[trigger] order@[k]) < graph.nodes().len(),
    ensures
        r.local_count == order@.len(),
        r.map@.len() == order@.len(),
        r.stats.count == first_seen(assigned@).len(),
        forall|i: int|
            0 <= i < order@.len() ==> (#[trigger] r.map@[i]).0@ == graph.nodes()[order@[i] as int].0
                && r.map@[i].1 < r.stats.count && first_seen(assigned@)[r.map@[i].1 as int]
                == assigned@[i],
        r.stats.largest == largest_of(map_ids(r.map@), r.stats.count as int),
        r.stats.smallest == smallest_of(map_ids(r.map@), r.stats.count as int),
{
    let (ids, count) = renumber_communities(assigned);
    let stats = community_stats(&ids, count);
    let mut map: Vec<(String, usize)> = Vec::new();
    let mut i: usize = 0;
    while i < order.len()
        invariant
            i <= order@.len(),
            order@.len() == ids@.len(),
            forall|k: int| 0 <= k < order@.len() ==> (#[trigger] order@[k]) < graph.nodes().len(),
            map@.len() == i,
            forall|k: int|
                0 <= k < i ==> (#[trigger] map@[k]).0@ == graph.nodes()[order@[k] as int].0
                    && map@[k].1 == ids@[k],
        decreases order@.len() - i,
    {
        let slug = graph.node(order[i]).slug.clone();
        map.push((slug, ids[i]));
        i += 1;
    }
    proof {
        assert(map_ids(map@) =~= ids@);
    }
    CommunityData { local_count: order.len(), map, stats }
}

// ── Laws ─────────────────────────────────────────────────────────────────────

/// Some page is in community `c`.
pub open spec fn used(ids: Seq<usize>, c: int) -> bool {
    exists|i: int| 0 <= i < ids.len() && #[trigger] ids[i] == c
}

/// Every community `0..k` has a page.
pub open spec fn every_community_used(ids: Seq<usize>, k: int) -> bool {
    forall|c: int| 0 <= c < k ==> #[trigger] used(ids, c)
}

/// The total size of communities `0..k`.
pub open spec fn total_size(ids: Seq<usize>, k: int) -> nat
    decreases k,
{
    if k <= 0 {
        0
    } else {
        total_size(ids, k - 1) + size_of(ids, k - 1)
    }
}

proof fn lemma_total_size_step(ids: Seq<usize>, k: int)
    requires
        ids.len() > 0,
    ensures
        total_size(ids, k) == total_size(ids.drop_last(), k) + if 0 <= ids.last() < k {
            1nat
        } else {
            0nat
        },
    decreases k,
{
    if k > 0 {
        lemma_total_size_step(ids, k - 1);
    }
}

proof fn lemma_smallest_le_largest(ids: Seq<usize>, k: int)
    requires
        k > 0,
    ensures
        smallest_of(ids, k) <= largest_of(ids, k),
        forall|c: int| 0 <= c < k ==> smallest_of(ids, k) <= #[trigger] size_of(ids, c),
    decreases k,
{
    if k > 1 {
        lemma_smallest_le_largest(ids, k - 1);
    }
}

proof fn lemma_size_positive(ids: Seq<usize>, c: int, i: int)
    requires
        0 <= i < ids.len(),
        ids[i] == c,
    ensures
        size_of(ids, c) >= 1,
    decreases ids.len(),
{
    if i < ids.len() - 1 {
        lemma_size_positive(ids.drop_last(), c, i);
    }
}

/// When every page's community is below `count`, the sizes of communities
/// `0..count` add up to the number of pages and the smallest is at most the
/// largest; when moreover every community has a page, none is empty.
pub proof fn law_community_sizes(ids: Seq<usize>, count: nat)
    requires
        forall|i: int| 0 <= i < ids.len() ==> (#[trigger] ids[i]) < count,
    ensures
        total_size(ids, count as int) == ids.len(),
        count > 0 ==> smallest_of(ids, count as int) <= largest_of(ids, count as int),
        count > 0 && every_community_used(ids, count as int) ==> smallest_of(ids, count as int) >= 1,
    decreases ids.len(),
{
    if ids.len() > 0 {
        let u = ids.drop_last();
        assert forall|i: int| 0 <= i < u.len() implies (#[trigger] u[i]) < count by {
            assert(u[i] == ids[i]);
        }
        law_community_sizes(u, count);
        lemma_total_size_step(ids, count as int);
        assert(ids[ids.len() - 1] < count);
    } else {
        lemma_total_zero(ids, count as int);
    }
    if count > 0 {
        lemma_smallest_le_largest(ids, count as int);
        if every_community_used(ids, count as int) {
            lemma_smallest_witness(ids, count as int);
            let c = choose|c: int| 0 <= c < count && smallest_of(ids, count as int) == size_of(ids, c);
            assert(used(ids, c));
            let i = choose|i: int| 0 <= i < ids.len() && #[trigger] ids[i] == c;
            lemma_size_positive(ids, c, i);
        }
    }
}

proof fn lemma_total_zero(ids: Seq<usize>, k: int)
    requires
        ids.len() == 0,
    ensures
        total_size(ids, k) == 0,
    decreases k,
{
    if k > 0 {
        lemma_total_zero(ids, k - 1);
    }
}

proof fn lemma_smallest_witness(ids: Seq<usize>, k: int)
    requires
        k > 0,
    ensures
        exists|c: int| 0 <= c < k && smallest_of(ids, k) == size_of(ids, c),
    decreases k,
{
    if k == 1 {
        assert(smallest_of(ids, k) == size_of(ids, 0));
    } else {
        lemma_smallest_witness(ids, k - 1);
        let c = choose|c: int| 0 <= c < k - 1 && smallest_of(ids, k - 1) == size_of(ids, c);
        if size_of(ids, k - 1) < smallest_of(ids, k - 1) {
            assert(smallest_of(ids, k) == size_of(ids, k - 1));
        } else {
            assert(smallest_of(ids, k) == size_of(ids, c));
        }
    }
}

} // verus!
