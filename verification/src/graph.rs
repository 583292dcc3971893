//! The concept graph: pages as nodes, labelled links as directed edges.
use vstd::prelude::*;
use vstd::hash_map::StringHashMap;


verus! {

// ── Node and edge weights ────────────────────────────────────────────────────

/// A node of the concept graph: one wiki page, or a placeholder for a page in
/// another wiki (`external`).
#[derive(Debug)]
pub struct PageNode {
    /// Slug identifying this page within its wiki.
    pub slug: String,
    /// Display title of the page.
    pub title: String,
    /// Frontmatter type of the page.
    pub page_type: String,
    /// True for cross-wiki placeholder nodes not present in the local index.
    pub external: bool,
}

impl Clone for PageNode {
    fn clone(&self) -> (r: Self)
        ensures
            r == *self,
    {
        PageNode {
            slug: self.slug.clone(),
            title: self.title.clone(),
            page_type: self.page_type.clone(),
            external: self.external,
        }
    }
}

/// A directed edge label.
#[derive(Debug)]
pub struct LabeledEdge {
    /// Relation label (e.g. `links-to`, `cites`).
    pub relation: String,
}

impl Clone for LabeledEdge {
    fn clone(&self) -> (r: Self)
        ensures
            r == *self,
    {
        LabeledEdge { relation: self.relation.clone() }
    }
}

// ── The underlying petgraph graph ────────────────────────────────────────────

#[verifier::external_type_specification]
#[verifier::external_body]
pub struct ExDirected(petgraph::Directed);

#[verifier::external_type_specification]
#[verifier::external_body]
#[verifier::reject_recursive_types(N)]
#[verifier::reject_recursive_types(E)]
#[verifier::reject_recursive_types(Ty)]
#[verifier::reject_recursive_types(Ix)]
pub struct ExGraph<N, E, Ty, Ix>(petgraph::graph::Graph<N, E, Ty, Ix>);

/// A node as (slug, title, type, external).
pub type NodeV = (Seq<char>, Seq<char>, Seq<char>, bool);

/// An edge as (source, target, relation).
pub type EdgeV = (int, int, Seq<char>);

/// The view of a node.
pub open spec fn nview(n: PageNode) -> NodeV {
    (n.slug@, n.title@, n.page_type@, n.external)
}

/// The nodes held by a petgraph graph, in index order, each as
/// (slug, title, type, external).
pub uninterp spec fn pg_nodes(
    g: petgraph::graph::Graph<PageNode, LabeledEdge, petgraph::Directed, u32>,
) -> Seq<(Seq<char>, Seq<char>, Seq<char>, bool)>;

/// The edges held by a petgraph graph, in index order, each as
/// (source, target, relation).
pub uninterp spec fn pg_edges(
    g: petgraph::graph::Graph<PageNode, LabeledEdge, petgraph::Directed, u32>,
) -> Seq<(int, int, Seq<char>)>;

/// Calls `Graph::new`: no nodes, no edges.
#[verifier::external_body]
fn pg_new() -> (g: petgraph::graph::Graph<PageNode, LabeledEdge, petgraph::Directed, u32>)
    ensures
        pg_nodes(g) == Seq::<NodeV>::empty(),
        pg_edges(g) == Seq::<EdgeV>::empty(),
{
    petgraph::graph::Graph::new()
}

/// Calls `Graph::add_node`: the weight is appended and its index returned.
/// The call panics when the node count is `u32::MAX`, which `requires` excludes.
#[verifier::external_body]
fn pg_add_node(
    g: &mut petgraph::graph::Graph<PageNode, LabeledEdge, petgraph::Directed, u32>,
    w: PageNode,
) -> (r: usize)
    requires
        pg_nodes(*old(g)).len() < u32::MAX,
    ensures
        r == pg_nodes(*old(g)).len(),
        pg_nodes(*final(g)) == pg_nodes(*old(g)).push(nview(w)),
        pg_edges(*final(g)) == pg_edges(*old(g)),
{
    g.add_node(w).index()
}

/// Calls `Graph::add_edge`: the edge is appended and its index returned. The
/// call panics when an endpoint does not exist or the edge count is
/// `u32::MAX`, which `requires` excludes.
#[verifier::external_body]
fn pg_add_edge(
    g: &mut petgraph::graph::Graph<PageNode, LabeledEdge, petgraph::Directed, u32>,
    a: usize,
    b: usize,
    w: LabeledEdge,
) -> (r: usize)
    requires
        a < pg_nodes(*old(g)).len(),
        b < pg_nodes(*old(g)).len(),
        pg_edges(*old(g)).len() < u32::MAX,
    ensures
        r == pg_edges(*old(g)).len(),
        pg_nodes(*final(g)) == pg_nodes(*old(g)),
        pg_edges(*final(g)) == pg_edges(*old(g)).push((a as int, b as int, w.relation@)),
{
    g.add_edge(petgraph::graph::NodeIndex::new(a), petgraph::graph::NodeIndex::new(b), w).index()
}

/// Calls `Graph::node_count`.
#[verifier::external_body]
fn pg_node_count(g: &petgraph::graph::Graph<PageNode, LabeledEdge, petgraph::Directed, u32>) -> (r:
    usize)
    ensures
        r == pg_nodes(*g).len(),
{
    g.node_count()
}

/// Calls `Graph::edge_count`.
#[verifier::external_body]
fn pg_edge_count(g: &petgraph::graph::Graph<PageNode, LabeledEdge, petgraph::Directed, u32>) -> (r:
    usize)
    ensures
        r == pg_edges(*g).len(),
{
    g.edge_count()
}

/// Indexes the graph by a node index (`Index<NodeIndex>`); the weight of node `i`.
/// Indexing panics on a missing node, which `requires` excludes.
#[verifier::external_body]
fn pg_node<'a>(
    g: &'a petgraph::graph::Graph<PageNode, LabeledEdge, petgraph::Directed, u32>,
    i: usize,
) -> (r: &'a PageNode)
    requires
        i < pg_nodes(*g).len(),
    ensures
        nview(*r) == pg_nodes(*g)[i as int],
{
    &g[petgraph::graph::NodeIndex::new(i)]
}

/// Calls `Graph::edge_endpoints` for edge `e` and `Index<EdgeIndex>` for its
/// weight: the source, the target and the weight of edge `e`.
#[verifier::external_body]
fn pg_edge<'a>(
    g: &'a petgraph::graph::Graph<PageNode, LabeledEdge, petgraph::Directed, u32>,
    e: usize,
) -> (r: (usize, usize, &'a LabeledEdge))
    requires
        e < pg_edges(*g).len(),
    ensures
        (r.0 as int, r.1 as int, r.2.relation@) == pg_edges(*g)[e as int],
{
    let ix = petgraph::graph::EdgeIndex::new(e);
    let (a, b) = g.edge_endpoints(ix).unwrap();
    (a.index(), b.index(), &g[ix])
}

/// What `petgraph_live::metrics::periphery` returns, as node indices, for a
/// graph with these nodes and edges: the nodes of greatest eccentricity.
pub uninterp spec fn periphery_of(nodes: Seq<(Seq<char>, Seq<char>, Seq<char>, bool)>, edges: Seq<(int, int, Seq<char>)>) -> Seq<int>;

/// Calls `petgraph_live::metrics::periphery` on the graph; the result, as node
/// indices, is named `periphery_of`. Each index is a node of the graph, as the
/// function only returns node identifiers of the graph it is given.
#[verifier::external_body]
fn pg_periphery(g: &petgraph::graph::Graph<PageNode, LabeledEdge, petgraph::Directed, u32>) -> (r: Vec<usize>)
    ensures
        r@.map_values(|x: usize| x as int) == periphery_of(pg_nodes(*g), pg_edges(*g)),
        forall|i: int| 0 <= i < r@.len() ==> #[trigger] r@[i] < pg_nodes(*g).len(),
{
    petgraph_live::metrics::periphery(g).iter().map(|x| x.index()).collect()
}

/// What `petgraph_live::metrics::center` returns, as node indices, for a
/// graph with these nodes and edges: the nodes of least eccentricity.
pub uninterp spec fn center_of(nodes: Seq<(Seq<char>, Seq<char>, Seq<char>, bool)>, edges: Seq<(int, int, Seq<char>)>) -> Seq<int>;

/// Calls `petgraph_live::metrics::center` on the graph; the result, as node
/// indices, is named `center_of`. Each index is a node of the graph, as the
/// function only returns node identifiers of the graph it is given.
#[verifier::external_body]
fn pg_center(g: &petgraph::graph::Graph<PageNode, LabeledEdge, petgraph::Directed, u32>) -> (r: Vec<usize>)
    ensures
        r@.map_values(|x: usize| x as int) == center_of(pg_nodes(*g), pg_edges(*g)),
        forall|i: int| 0 <= i < r@.len() ==> #[trigger] r@[i] < pg_nodes(*g).len(),
{
    petgraph_live::metrics::center(g).iter().map(|x| x.index()).collect()
}

/// The direction of the edges to follow from a node.
#[derive(Debug, Clone, Copy, PartialEq, Eq, Structural)]
pub enum Direction {
    /// Edges leaving the node.
    Outgoing,
    /// Edges entering the node.
    Incoming,
}

/// The indices of the edges leaving (`Outgoing`) or entering (`Incoming`)
/// node `a`, in ascending order; with `skip_loops`, entering edges that also
/// leave `a` are left out.
pub open spec fn incident_ids(edges: Seq<EdgeV>, a: int, d: Direction, skip_loops: bool) -> Seq<int>
    decreases edges.len(),
{
    if edges.len() == 0 {
        Seq::empty()
    } else {
        let e = edges.last();
        let hit = match d {
            Direction::Outgoing => e.0 == a,
            Direction::Incoming => e.1 == a && !(skip_loops && e.0 == a),
        };
        incident_ids(edges.drop_last(), a, d, skip_loops) + if hit {
            seq![edges.len() - 1]
        } else {
            Seq::<int>::empty()
        }
    }
}

/// The node at the other end of edge `e` from the side `d` looks from.
pub open spec fn far_end(edges: Seq<EdgeV>, d: Direction, e: int) -> int {
    match d {
        Direction::Outgoing => edges[e].1,
        Direction::Incoming => edges[e].0,
    }
}

/// The last edge added from `a` to `b`, if any.
pub open spec fn last_edge(edges: Seq<EdgeV>, a: int, b: int) -> Option<int>
    decreases edges.len(),
{
    if edges.len() == 0 {
        None
    } else if edges.last().0 == a && edges.last().1 == b {
        Some(edges.len() - 1)
    } else {
        last_edge(edges.drop_last(), a, b)
    }
}

/// Calls `Graph::edges_directed` and takes each edge's index: the edges of
/// node `a` in direction `d`, most recently added first, as the method's
/// documentation states for a directed graph.
#[verifier::external_body]
fn pg_edges_directed(
    g: &petgraph::graph::Graph<PageNode, LabeledEdge, petgraph::Directed, u32>,
    a: usize,
    d: Direction,
) -> (r: Vec<usize>)
    requires
        a < pg_nodes(*g).len(),
    ensures
        r@.map_values(|x: usize| x as int) == incident_ids(pg_edges(*g), a as int, d, false).reverse(),
{
    let dir = match d {
        Direction::Outgoing => petgraph::Direction::Outgoing,
        Direction::Incoming => petgraph::Direction::Incoming,
    };
    g.edges_directed(petgraph::graph::NodeIndex::new(a), dir).map(|e| petgraph::visit::EdgeRef::id(&e).index()).collect()
}

/// Calls `Graph::neighbors_directed`: the node at the far end of each edge of
/// `a` in direction `d`, most recently added edge first (the documented
/// order for a directed graph).
#[verifier::external_body]
fn pg_neighbors_directed(
    g: &petgraph::graph::Graph<PageNode, LabeledEdge, petgraph::Directed, u32>,
    a: usize,
    d: Direction,
) -> (r: Vec<usize>)
    requires
        a < pg_nodes(*g).len(),
    ensures
        r@.map_values(|x: usize| x as int) == incident_ids(pg_edges(*g), a as int, d, false).reverse().map_values(
            |e: int| far_end(pg_edges(*g), d, e),
        ),
{
    let dir = match d {
        Direction::Outgoing => petgraph::Direction::Outgoing,
        Direction::Incoming => petgraph::Direction::Incoming,
    };
    g.neighbors_directed(petgraph::graph::NodeIndex::new(a), dir).map(|x| x.index()).collect()
}

/// Calls `Graph::neighbors_undirected`: the targets of the edges leaving `a`,
/// then the sources of the edges entering `a` that are not self-loops, each
/// part most recently added edge first (the documented order).
#[verifier::external_body]
fn pg_neighbors_undirected(
    g: &petgraph::graph::Graph<PageNode, LabeledEdge, petgraph::Directed, u32>,
    a: usize,
) -> (r: Vec<usize>)
    requires
        a < pg_nodes(*g).len(),
    ensures
        r@.map_values(|x: usize| x as int) == incident_ids(
            pg_edges(*g),
            a as int,
            Direction::Outgoing,
            false,
        ).reverse().map_values(|e: int| pg_edges(*g)[e].1) + incident_ids(
            pg_edges(*g),
            a as int,
            Direction::Incoming,
            true,
        ).reverse().map_values(|e: int| pg_edges(*g)[e].0),
{
    g.neighbors_undirected(petgraph::graph::NodeIndex::new(a)).map(|x| x.index()).collect()
}

/// Calls `Graph::find_edge`: it walks the edges leaving `a`, most recently
/// added first, and returns the first that enters `b`.
#[verifier::external_body]
fn pg_find_edge(
    g: &petgraph::graph::Graph<PageNode, LabeledEdge, petgraph::Directed, u32>,
    a: usize,
    b: usize,
) -> (r: Option<usize>)
    requires
        a < pg_nodes(*g).len(),
        b < pg_nodes(*g).len(),
    ensures
        match last_edge(pg_edges(*g), a as int, b as int) {
            Some(e) => r == Some(e as usize),
            None => r is None,
        },
{
    g.find_edge(petgraph::graph::NodeIndex::new(a), petgraph::graph::NodeIndex::new(b)).map(
        |e| e.index(),
    )
}

/// No edge touches a node beyond the graph.
proof fn lemma_no_incident(edges: Seq<EdgeV>, n: int, a: int, d: Direction, skip_loops: bool)
    requires
        edges_in_range(n, edges),
        a >= n,
    ensures
        incident_ids(edges, a, d, skip_loops) == Seq::<int>::empty(),
        forall|b: int| last_edge(edges, a, b) is None,
        forall|b: int| last_edge(edges, b, a) is None,
    decreases edges.len(),
{
    if edges.len() > 0 {
        let u = edges.drop_last();
        assert(edges_in_range(n, u)) by {
            assert forall|e: int| 0 <= e < u.len() implies 0 <= #[trigger] u[e].0 < n && 0 <= u[e].1
                < n by {
                assert(u[e] == edges[e]);
            }
        }
        lemma_no_incident(u, n, a, d, skip_loops);
        assert(edges[edges.len() - 1] == edges.last());
        assert(incident_ids(u, a, d, skip_loops) + Seq::<int>::empty() =~= Seq::<int>::empty());
        assert forall|b: int| last_edge(edges, a, b) is None by {
            assert(last_edge(u, a, b) is None);
        }
        assert forall|b: int| last_edge(edges, b, a) is None by {
            assert(last_edge(u, b, a) is None);
        }
    }
}

// ── WikiGraph ────────────────────────────────────────────────────────────────

/// Index of the last node whose slug is `s`.
pub open spec fn last_with_slug(nodes: Seq<NodeV>, s: Seq<char>) -> Option<int>
    decreases nodes.len(),
{
    if nodes.len() == 0 {
        None
    } else if nodes.last().0 == s {
        Some(nodes.len() - 1)
    } else {
        last_with_slug(nodes.drop_last(), s)
    }
}

pub proof fn lemma_last_with_slug(nodes: Seq<NodeV>, s: Seq<char>)
    ensures
        last_with_slug(nodes, s) matches Some(k) ==> 0 <= k < nodes.len() && nodes[k].0 == s,
        last_with_slug(nodes, s) is None ==> forall|j: int|
            0 <= j < nodes.len() ==> nodes[j].0 != s,
    decreases nodes.len(),
{
    if nodes.len() > 0 && nodes.last().0 != s {
        lemma_last_with_slug(nodes.drop_last(), s);
        assert forall|j: int| 0 <= j < nodes.len() - 1 implies nodes.drop_last()[j] == nodes[j] by {}
    }
}

/// Looking a slug up right after adding a node with it finds that node; the
/// lookup of any other slug is unchanged by the addition.
pub proof fn law_added_node_is_found(nodes: Seq<NodeV>, n: NodeV, other: Seq<char>)
    ensures
        last_with_slug(nodes.push(n), n.0) == Some(nodes.len() as int),
        other != n.0 ==> last_with_slug(nodes.push(n), other) == last_with_slug(nodes, other),
{
    assert(nodes.push(n).drop_last() =~= nodes);
}

/// Edges whose endpoints are nodes.
pub open spec fn edges_in_range(n: int, edges: Seq<EdgeV>) -> bool {
    forall|e: int| 0 <= e < edges.len() ==> 0 <= #[trigger] edges[e].0 < n && 0 <= edges[e].1 < n
}

/// A directed concept graph with a slug index.
pub struct WikiGraph {
    inner: petgraph::graph::Graph<PageNode, LabeledEdge, petgraph::Directed, u32>,
    slug_to_node: StringHashMap<usize>,
}

impl WikiGraph {
    #[verifier::type_invariant]
    spec fn inv(&self) -> bool {
        &&& edges_in_range(pg_nodes(self.inner).len() as int, pg_edges(self.inner))
        &&& pg_nodes(self.inner).len() <= u32::MAX
        &&& pg_edges(self.inner).len() <= u32::MAX
        &&& forall|k: Seq<char>| #[trigger]
            self.slug_to_node@.contains_key(k) <==> last_with_slug(pg_nodes(self.inner), k) is Some
        &&& forall|k: Seq<char>|
            #[trigger] self.slug_to_node@.contains_key(k) ==> self.slug_to_node@[k] as int
                == last_with_slug(pg_nodes(self.inner), k)->0
    }

    /// The nodes, in index order.
    pub closed spec fn nodes(&self) -> Seq<NodeV> {
        pg_nodes(self.inner)
    }

    /// The edges, in index order.
    pub closed spec fn edge_list(&self) -> Seq<EdgeV> {
        pg_edges(self.inner)
    }

    /// Every graph keeps its edges between its nodes and its sizes within `u32`.
    pub fn lemma_wf(&self)
        ensures
            edges_in_range(self.nodes().len() as int, self.edge_list()),
            self.nodes().len() <= u32::MAX,
            self.edge_list().len() <= u32::MAX,
    {
        proof {
            use_type_invariant(self);
        }
    }

    /// An empty graph.
    pub fn new() -> (r: WikiGraph)
        ensures
            r.nodes() == Seq::<NodeV>::empty(),
            r.edge_list() == Seq::<EdgeV>::empty(),
    {
        WikiGraph { inner: pg_new(), slug_to_node: StringHashMap::new() }
    }

    /// Index of the last node added with `slug`, if any.
    pub fn node_for_slug(&self, slug: &str) -> (r: Option<usize>)
        ensures
            match last_with_slug(self.nodes(), slug@) {
                Some(k) => r == Some(k as usize),
                None => r is None,
            },
    {
        proof {
            use_type_invariant(self);
        }
        match self.slug_to_node.get(slug) {
            Some(i) => Some(*i),
            None => None,
        }
    }

    /// Add a node and register it under its slug; return its index.
    pub fn add_node(&mut self, node: PageNode) -> (r: usize)
        requires
            old(self).nodes().len() < u32::MAX,
        ensures
            r == old(self).nodes().len(),
            final(self).nodes() == old(self).nodes().push(nview(node)),
            final(self).edge_list() == old(self).edge_list(),
    {
        proof {
            use_type_invariant(&*self);
        }
        let slug = node.slug.clone();
        let mut tmp = WikiGraph::new();
        std::mem::swap(self, &mut tmp);
        proof {
            use_type_invariant(&tmp);
        }
        let ghost old_nodes = pg_nodes(tmp.inner);
        let WikiGraph { mut inner, slug_to_node: mut map } = tmp;
        let idx = pg_add_node(&mut inner, node);
        map.insert(slug, idx);
        proof {
            let nn = pg_nodes(inner);
            assert(nn.drop_last() =~= old_nodes);
            assert forall|k: Seq<char>| #[trigger]
                map@.contains_key(k) <==> last_with_slug(nn, k) is Some by {}
            assert forall|k: Seq<char>| #[trigger]
                map@.contains_key(k) implies map@[k] as int == last_with_slug(nn, k)->0 by {}
            assert forall|e: int| 0 <= e < pg_edges(inner).len() implies 0 <= #[trigger] pg_edges(
                inner,
            )[e].0 < nn.len() && 0 <= pg_edges(inner)[e].1 < nn.len() by {}
        }
        *self = WikiGraph { inner, slug_to_node: map };
        idx
    }

    /// Add a directed edge from `a` to `b`; return its index.
    pub fn add_edge(&mut self, a: usize, b: usize, w: LabeledEdge) -> (r: usize)
        requires
            a < old(self).nodes().len(),
            b < old(self).nodes().len(),
            old(self).edge_list().len() < u32::MAX,
        ensures
            r == old(self).edge_list().len(),
            final(self).nodes() == old(self).nodes(),
            final(self).edge_list() == old(self).edge_list().push((a as int, b as int, w.relation@)),
    {
        proof {
            use_type_invariant(&*self);
        }
        let mut tmp = WikiGraph::new();
        std::mem::swap(self, &mut tmp);
        proof {
            use_type_invariant(&tmp);
        }
        let ghost old_edges = pg_edges(tmp.inner);
        let WikiGraph { mut inner, slug_to_node: map } = tmp;
        let e = pg_add_edge(&mut inner, a, b, w);
        proof {
            assert forall|i: int| 0 <= i < pg_edges(inner).len() implies 0 <= #[trigger] pg_edges(
                inner,
            )[i].0 < pg_nodes(inner).len() && 0 <= pg_edges(inner)[i].1 < pg_nodes(
                inner,
            ).len() by {
                if i < pg_edges(inner).len() - 1 {
                    assert(pg_edges(inner)[i] == old_edges[i]);
                }
            }
        }
        *self = WikiGraph { inner, slug_to_node: map };
        e
    }

    /// Total number of nodes.
    pub fn node_count(&self) -> (r: usize)
        ensures
            r == self.nodes().len(),
    {
        pg_node_count(&self.inner)
    }

    /// Total number of edges.
    pub fn edge_count(&self) -> (r: usize)
        ensures
            r == self.edge_list().len(),
    {
        pg_edge_count(&self.inner)
    }

    /// The node at index `i`.
    pub fn node(&self, i: usize) -> (r: &PageNode)
        requires
            i < self.nodes().len(),
        ensures
            nview(*r) == self.nodes()[i as int],
    {
        pg_node(&self.inner, i)
    }

    /// The nodes of greatest eccentricity, in index order.
    pub fn periphery(&self) -> (r: Vec<usize>)
        ensures
            r@.map_values(|x: usize| x as int) == periphery_of(self.nodes(), self.edge_list()),
            forall|i: int| 0 <= i < r@.len() ==> #[trigger] r@[i] < self.nodes().len(),
    {
        pg_periphery(&self.inner)
    }

    /// The nodes of least eccentricity, in index order.
    pub fn center(&self) -> (r: Vec<usize>)
        ensures
            r@.map_values(|x: usize| x as int) == center_of(self.nodes(), self.edge_list()),
            forall|i: int| 0 <= i < r@.len() ==> #[trigger] r@[i] < self.nodes().len(),
    {
        pg_center(&self.inner)
    }

    /// Every node index, in order.
    pub fn node_indices(&self) -> (r: Vec<usize>)
        ensures
            r@.len() == self.nodes().len(),
            forall|i: int| 0 <= i < r@.len() ==> #[trigger] r@[i] == i,
    {
        let n = self.node_count();
        let mut r: Vec<usize> = Vec::new();
        let mut i: usize = 0;
        while i < n
            invariant
                i <= n == self.nodes().len(),
                r@.len() == i,
                forall|k: int| 0 <= k < i ==> #[trigger] r@[k] == k,
            decreases n - i,
        {
            r.push(i);
            i += 1;
        }
        r
    }

    /// Every edge index, in order.
    pub fn edge_indices(&self) -> (r: Vec<usize>)
        ensures
            r@.len() == self.edge_list().len(),
            forall|i: int| 0 <= i < r@.len() ==> #[trigger] r@[i] == i,
    {
        let n = self.edge_count();
        let mut r: Vec<usize> = Vec::new();
        let mut i: usize = 0;
        while i < n
            invariant
                i <= n == self.edge_list().len(),
                r@.len() == i,
                forall|k: int| 0 <= k < i ==> #[trigger] r@[k] == k,
            decreases n - i,
        {
            r.push(i);
            i += 1;
        }
        r
    }

    /// The indices of the edges of node `n` in direction `d`, most recently
    /// added first; none for a node that is not in the graph.
    pub fn edges_directed(&self, n: usize, d: Direction) -> (r: Vec<usize>)
        ensures
            r@.map_values(|x: usize| x as int) == incident_ids(self.edge_list(), n as int, d, false).reverse(),
    {
        proof {
            use_type_invariant(self);
        }
        if n < pg_node_count(&self.inner) {
            pg_edges_directed(&self.inner, n, d)
        } else {
            proof {
                lemma_no_incident(self.edge_list(), self.nodes().len() as int, n as int, d, false);
                assert(Seq::<usize>::empty().map_values(|x: usize| x as int) =~= Seq::<int>::empty().reverse());
            }
            Vec::new()
        }
    }

    /// The indices of the edges leaving node `n`, most recently added first.
    pub fn edges(&self, n: usize) -> (r: Vec<usize>)
        ensures
            r@.map_values(|x: usize| x as int) == incident_ids(
                self.edge_list(),
                n as int,
                Direction::Outgoing,
                false,
            ).reverse(),
    {
        self.edges_directed(n, Direction::Outgoing)
    }

    /// The neighbours of node `n` in direction `d`: the far end of each of its
    /// edges that way, most recently added edge first.
    pub fn neighbors_directed(&self, n: usize, d: Direction) -> (r: Vec<usize>)
        ensures
            r@.map_values(|x: usize| x as int) == incident_ids(self.edge_list(), n as int, d, false).reverse().map_values(
                |e: int| far_end(self.edge_list(), d, e),
            ),
    {
        proof {
            use_type_invariant(self);
        }
        if n < pg_node_count(&self.inner) {
            pg_neighbors_directed(&self.inner, n, d)
        } else {
            proof {
                lemma_no_incident(self.edge_list(), self.nodes().len() as int, n as int, d, false);
                assert(Seq::<usize>::empty().map_values(|x: usize| x as int) =~= Seq::<int>::empty().reverse().map_values(
                    |e: int| far_end(self.edge_list(), d, e),
                ));
            }
            Vec::new()
        }
    }

    /// The neighbours of node `n` either way: the targets of the edges leaving
    /// it, then the sources of those entering it (self-loops counted once),
    /// each part most recently added edge first.
    pub fn neighbors_undirected(&self, n: usize) -> (r: Vec<usize>)
        ensures
            r@.map_values(|x: usize| x as int) == incident_ids(
                self.edge_list(),
                n as int,
                Direction::Outgoing,
                false,
            ).reverse().map_values(|e: int| self.edge_list()[e].1) + incident_ids(
                self.edge_list(),
                n as int,
                Direction::Incoming,
                true,
            ).reverse().map_values(|e: int| self.edge_list()[e].0),
    {
        proof {
            use_type_invariant(self);
        }
        if n < pg_node_count(&self.inner) {
            pg_neighbors_undirected(&self.inner, n)
        } else {
            proof {
                let m = self.nodes().len() as int;
                lemma_no_incident(self.edge_list(), m, n as int, Direction::Outgoing, false);
                lemma_no_incident(self.edge_list(), m, n as int, Direction::Incoming, true);
                assert(Seq::<usize>::empty().map_values(|x: usize| x as int) =~= Seq::<int>::empty().reverse().map_values(
                    |e: int| self.edge_list()[e].1,
                ) + Seq::<int>::empty().reverse().map_values(|e: int| self.edge_list()[e].0));
            }
            Vec::new()
        }
    }

    /// The source and target of edge `e`, or `None` when there is no such edge.
    pub fn edge_endpoints(&self, e: usize) -> (r: Option<(usize, usize)>)
        ensures
            e < self.edge_list().len() ==> (r matches Some(p) && p.0 as int == self.edge_list()[e as int].0
                && p.1 as int == self.edge_list()[e as int].1),
            e >= self.edge_list().len() ==> r is None,
    {
        if e < self.edge_count() {
            let (a, b, _) = self.edge(e);
            Some((a, b))
        } else {
            None
        }
    }

    /// The last edge added from `a` to `b`, if any.
    pub fn find_edge(&self, a: usize, b: usize) -> (r: Option<usize>)
        ensures
            match last_edge(self.edge_list(), a as int, b as int) {
                Some(e) => r == Some(e as usize),
                None => r is None,
            },
    {
        proof {
            use_type_invariant(self);
        }
        let n = pg_node_count(&self.inner);
        if a < n && b < n {
            pg_find_edge(&self.inner, a, b)
        } else {
            proof {
                let m = self.nodes().len() as int;
                if a >= n {
                    lemma_no_incident(self.edge_list(), m, a as int, Direction::Outgoing, false);
                } else {
                    lemma_no_incident(self.edge_list(), m, b as int, Direction::Outgoing, false);
                }
            }
            None
        }
    }

    /// The edge at index `e`: source, target and label.
    pub fn edge(&self, e: usize) -> (r: (usize, usize, &LabeledEdge))
        requires
            e < self.edge_list().len(),
        ensures
            (r.0 as int, r.1 as int, r.2.relation@) == self.edge_list()[e as int],
    {
        pg_edge(&self.inner, e)
    }
}

} // verus!
