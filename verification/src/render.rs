//! Rendering the concept graph as Mermaid, Graphviz DOT and Markdown.
use vstd::prelude::*;

use crate::graph::{edges_in_range, EdgeV, NodeV, WikiGraph};
use crate::graph_build::{opt_chars, GraphFilter};
use crate::links::views;
use crate::text::{push_str, str_eq};

verus! {

// ── Decimal numbers ──────────────────────────────────────────────────────────

/// The decimal digit `d`.
pub open spec fn digit_char(d: int) -> char {
    if d == 0 {
        '0'
    } else if d == 1 {
        '1'
    } else if d == 2 {
        '2'
    } else if d == 3 {
        '3'
    } else if d == 4 {
        '4'
    } else if d == 5 {
        '5'
    } else if d == 6 {
        '6'
    } else if d == 7 {
        '7'
    } else if d == 8 {
        '8'
    } else {
        '9'
    }
}

/// The decimal representation of `n`, without leading zeros.
pub open spec fn decimal(n: nat) -> Seq<char>
    decreases n,
{
    if n < 10 {
        seq![digit_char(n as int)]
    } else {
        decimal(n / 10) + seq![digit_char((n % 10) as int)]
    }
}

fn digit(d: usize) -> (c: char)
    requires
        d < 10,
    ensures
        c == digit_char(d as int),
{
    match d {
        0 => '0',
        1 => '1',
        2 => '2',
        3 => '3',
        4 => '4',
        5 => '5',
        6 => '6',
        7 => '7',
        8 => '8',
        _ => '9',
    }
}

/// `n` in decimal.
pub fn decimal_u64(n: u64) -> (r: String)
    ensures
        r@ == decimal(n as nat),
    decreases n,
{
    if n < 10 {
        let mut s = String::new();
        s.push(digit(n as usize));
        proof {
            assert(s@ =~= seq![digit_char(n as int)]);
        }
        s
    } else {
        let mut s = decimal_u64(n / 10);
        s.push(digit((n % 10) as usize));
        s
    }
}

/// `n` in decimal.
pub fn decimal_string(n: usize) -> (r: String)
    ensures
        r@ == decimal(n as nat),
{
    decimal_u64(n as u64)
}

/// The strings joined with `sep` between them.
pub open spec fn join(parts: Seq<Seq<char>>, sep: Seq<char>) -> Seq<char>
    decreases parts.len(),
{
    if parts.len() == 0 {
        Seq::empty()
    } else if parts.len() == 1 {
        parts[0]
    } else {
        join(parts.drop_last(), sep) + sep + parts.last()
    }
}

/// `parts` joined with `sep` between them.
pub fn join_strings(parts: &Vec<String>, sep: &str) -> (r: String)
    ensures
        r@ == join(views(parts@), sep@),
{
    let ghost pv = views(parts@);
    let mut out = String::new();
    let mut i: usize = 0;
    while i < parts.len()
        invariant
            i <= parts.len() == pv.len(),
            pv == views(parts@),
            out@ == join(pv.take(i as int), sep@),
        decreases parts.len() - i,
    {
        proof {
            assert(pv.take(i as int + 1).drop_last() =~= pv.take(i as int));
            assert(pv.take(i as int + 1).last() == pv[i as int]);
        }
        if i > 0 {
            push_str(&mut out, sep);
        } else {
            proof {
                assert(pv.take(1)[0] == pv[0]);
            }
        }
        push_str(&mut out, parts[i].as_str());
        i += 1;
    }
    proof {
        assert(pv.take(parts.len() as int) =~= pv);
    }
    out
}

// ── Mermaid ──────────────────────────────────────────────────────────────────

/// The declaration of node `i`: its title as label, its type as class
/// (`external` for placeholders).
pub open spec fn mermaid_node(i: int, n: NodeV) -> Seq<char> {
    "  N"@ + decimal(i as nat) + "[\""@ + n.1 + "\"]:::"@ + if n.3 {
        "external"@
    } else {
        n.2
    } + "\n"@
}

/// The node declarations, in index order.
pub open spec fn mermaid_nodes(nodes: Seq<NodeV>) -> Seq<char>
    decreases nodes.len(),
{
    if nodes.len() == 0 {
        Seq::empty()
    } else {
        mermaid_nodes(nodes.drop_last()) + mermaid_node(nodes.len() - 1, nodes.last())
    }
}

/// An edge with its relation as label.
pub open spec fn mermaid_edge(e: EdgeV) -> Seq<char> {
    "  N"@ + decimal(e.0 as nat) + " -->|"@ + e.2 + "| N"@ + decimal(e.1 as nat) + "\n"@
}

/// The edges, in order.
pub open spec fn mermaid_edges(edges: Seq<EdgeV>) -> Seq<char>
    decreases edges.len(),
{
    if edges.len() == 0 {
        Seq::empty()
    } else {
        mermaid_edges(edges.drop_last()) + mermaid_edge(edges.last())
    }
}

/// The types with a fill colour, and their colours, in the order they are declared.
pub open spec fn type_colors() -> Seq<(Seq<char>, Seq<char>)> {
    seq![
        ("concept"@, "#cce5ff"@),
        ("query-result"@, "#cce5ff"@),
        ("paper"@, "#d4edda"@),
        ("article"@, "#d4edda"@),
        ("documentation"@, "#d4edda"@),
        ("skill"@, "#ffeeba"@),
        ("doc"@, "#e2e3e5"@),
        ("section"@, "#f8f9fa"@),
    ]
}

/// Some local node has type `t`.
pub open spec fn type_seen(nodes: Seq<NodeV>, t: Seq<char>) -> bool {
    exists|i: int| 0 <= i < nodes.len() && !nodes[i].3 && #[trigger] nodes[i].2 == t
}

/// Some node is a placeholder.
pub open spec fn has_external(nodes: Seq<NodeV>) -> bool {
    exists|i: int| 0 <= i < nodes.len() && #[trigger] nodes[i].3
}

/// The class definitions of the first `k` coloured types that some local node has.
pub open spec fn mermaid_classes(nodes: Seq<NodeV>, k: int) -> Seq<char>
    decreases k,
{
    if k <= 0 {
        Seq::empty()
    } else {
        let (t, c) = type_colors()[k - 1];
        mermaid_classes(nodes, k - 1) + if type_seen(nodes, t) {
            "  classDef "@ + t + " fill:"@ + c + "\n"@
        } else {
            Seq::empty()
        }
    }
}

/// The Mermaid `graph LR` diagram of a graph: nodes as `N<index>`, labelled by
/// title and classed by type; edges labelled by relation; then class
/// definitions for placeholders and for the coloured types in use.
pub open spec fn mermaid(nodes: Seq<NodeV>, edges: Seq<EdgeV>) -> Seq<char> {
    "graph LR\n"@ + mermaid_nodes(nodes) + "\n"@ + mermaid_edges(edges) + "\n"@ + if has_external(
        nodes,
    ) {
        "  classDef external fill:#eee,stroke:#999,stroke-dasharray:5 5\n"@
    } else {
        Seq::empty()
    } + mermaid_classes(nodes, 8)
}

/// Whether some local node of the graph has type `t`.
fn graph_has_type(graph: &WikiGraph, t: &str) -> (r: bool)
    ensures
        r == type_seen(graph.nodes(), t@),
{
    let n = graph.node_count();
    let mut i: usize = 0;
    while i < n
        invariant
            i <= n == graph.nodes().len(),
            forall|j: int| 0 <= j < i ==> !(!graph.nodes()[j].3 && graph.nodes()[j].2 == t@),
        decreases n - i,
    {
        let node = graph.node(i);
        if !node.external && str_eq(node.page_type.as_str(), t) {
            assert(!graph.nodes()[i as int].3 && graph.nodes()[i as int].2 == t@);
            return true;
        }
        i += 1;
    }
    false
}

/// Render the graph as a Mermaid `graph LR` diagram.
pub fn render_mermaid(graph: &WikiGraph) -> (r: String)
    ensures
        r@ == mermaid(graph.nodes(), graph.edge_list()),
{
    graph.lemma_wf();
    let ghost nodes = graph.nodes();
    let ghost edges = graph.edge_list();
    let mut out = String::new();
    push_str(&mut out, "graph LR\n");
    let ghost head = out@;
    let mut has_ext = false;
    let n = graph.node_count();
    let mut i: usize = 0;
    while i < n
        invariant
            i <= n == nodes.len(),
            nodes == graph.nodes(),
            out@ == head + mermaid_nodes(nodes.take(i as int)),
            has_ext == exists|j: int| 0 <= j < i && #[trigger] nodes[j].3,
        decreases n - i,
    {
        proof {
            assert(nodes.take(i as int + 1).drop_last() =~= nodes.take(i as int));
        }
        let node = graph.node(i);
        let ghost before = out@;
        push_str(&mut out, "  N");
        let id = decimal_string(i);
        push_str(&mut out, id.as_str());
        push_str(&mut out, "[\"");
        push_str(&mut out, node.title.as_str());
        push_str(&mut out, "\"]:::");
        if node.external {
            push_str(&mut out, "external");
            has_ext = true;
        } else {
            push_str(&mut out, node.page_type.as_str());
        }
        push_str(&mut out, "\n");
        proof {
            assert(out@ =~= before + mermaid_node(i as int, nodes[i as int]));
        }
        i += 1;
    }
    proof {
        assert(nodes.take(n as int) =~= nodes);
    }
    push_str(&mut out, "\n");
    let ghost mid = out@;
    let ne = graph.edge_count();
    let mut e: usize = 0;
    while e < ne
        invariant
            e <= ne == edges.len(),
            edges == graph.edge_list(),
            out@ == mid + mermaid_edges(edges.take(e as int)),
        decreases ne - e,
    {
        proof {
            assert(edges.take(e as int + 1).drop_last() =~= edges.take(e as int));
        }
        let (a, b, lbl) = graph.edge(e);
        let ghost before = out@;
        push_str(&mut out, "  N");
        let sa = decimal_string(a);
        push_str(&mut out, sa.as_str());
        push_str(&mut out, " -->|");
        push_str(&mut out, lbl.relation.as_str());
        push_str(&mut out, "| N");
        let sb = decimal_string(b);
        push_str(&mut out, sb.as_str());
        push_str(&mut out, "\n");
        proof {
            assert(out@ =~= before + mermaid_edge(edges[e as int]));
        }
        e += 1;
    }
    proof {
        assert(edges.take(ne as int) =~= edges);
    }
    push_str(&mut out, "\n");
    if has_ext {
        push_str(&mut out, "  classDef external fill:#eee,stroke:#999,stroke-dasharray:5 5\n");
    }
    let ghost tail = out@;
    let colors: [(&str, &str); 8] = [
        ("concept", "#cce5ff"),
        ("query-result", "#cce5ff"),
        ("paper", "#d4edda"),
        ("article", "#d4edda"),
        ("documentation", "#d4edda"),
        ("skill", "#ffeeba"),
        ("doc", "#e2e3e5"),
        ("section", "#f8f9fa"),
    ];
    proof {
        assert(colors@.map_values(|p: (&str, &str)| (p.0@, p.1@)) =~= type_colors());
    }
    let mut k: usize = 0;
    while k < 8
        invariant
            k <= 8,
            nodes == graph.nodes(),
            colors@.map_values(|p: (&str, &str)| (p.0@, p.1@)) == type_colors(),
            out@ == tail + mermaid_classes(nodes, k as int),
        decreases 8 - k,
    {
        let (t, c) = colors[k];
        proof {
            assert(type_colors()[k as int] == (t@, c@));
        }
        if graph_has_type(graph, t) {
            push_str(&mut out, "  classDef ");
            push_str(&mut out, t);
            push_str(&mut out, " fill:");
            push_str(&mut out, c);
            push_str(&mut out, "\n");
        }
        k += 1;
    }
    proof {
        assert(out@ =~= mermaid(nodes, edges));
    }
    out
}

// ── DOT ──────────────────────────────────────────────────────────────────────

/// The DOT identifier of a node: the title of a placeholder, else the slug.
pub open spec fn dot_id(n: NodeV) -> Seq<char> {
    if n.3 {
        n.1
    } else {
        n.0
    }
}

/// The DOT statement of a node.
pub open spec fn dot_node(n: NodeV) -> Seq<char> {
    if n.3 {
        "  \""@ + n.1 + "\" [label=\""@ + n.1 + "\" type=\"external\" style=\"dashed\"];\n"@
    } else {
        "  \""@ + n.0 + "\" [label=\""@ + n.1 + "\" type=\""@ + n.2 + "\"];\n"@
    }
}

pub open spec fn dot_nodes(nodes: Seq<NodeV>) -> Seq<char>
    decreases nodes.len(),
{
    if nodes.len() == 0 {
        Seq::empty()
    } else {
        dot_nodes(nodes.drop_last()) + dot_node(nodes.last())
    }
}

/// The DOT statement of an edge of `nodes`.
pub open spec fn dot_edge(nodes: Seq<NodeV>, e: EdgeV) -> Seq<char> {
    "  \""@ + dot_id(nodes[e.0]) + "\" -> \""@ + dot_id(nodes[e.1]) + "\" [label=\""@ + e.2
        + "\"];\n"@
}

pub open spec fn dot_edges(nodes: Seq<NodeV>, edges: Seq<EdgeV>) -> Seq<char>
    decreases edges.len(),
{
    if edges.len() == 0 {
        Seq::empty()
    } else {
        dot_edges(nodes, edges.drop_last()) + dot_edge(nodes, edges.last())
    }
}

/// The Graphviz `digraph wiki` of a graph.
pub open spec fn dot(nodes: Seq<NodeV>, edges: Seq<EdgeV>) -> Seq<char> {
    "digraph wiki {\n"@ + dot_nodes(nodes) + dot_edges(nodes, edges) + "}\n"@
}

/// Render the graph as a Graphviz DOT `digraph`.
pub fn render_dot(graph: &WikiGraph) -> (r: String)
    ensures
        r@ == dot(graph.nodes(), graph.edge_list()),
{
    graph.lemma_wf();
    let ghost nodes = graph.nodes();
    let ghost edges = graph.edge_list();
    let mut out = String::new();
    push_str(&mut out, "digraph wiki {\n");
    let ghost head = out@;
    let n = graph.node_count();
    let mut i: usize = 0;
    while i < n
        invariant
            i <= n == nodes.len(),
            nodes == graph.nodes(),
            out@ == head + dot_nodes(nodes.take(i as int)),
        decreases n - i,
    {
        proof {
            assert(nodes.take(i as int + 1).drop_last() =~= nodes.take(i as int));
        }
        let node = graph.node(i);
        let ghost before = out@;
        if node.external {
            push_str(&mut out, "  \"");
            push_str(&mut out, node.title.as_str());
            push_str(&mut out, "\" [label=\"");
            push_str(&mut out, node.title.as_str());
            push_str(&mut out, "\" type=\"external\" style=\"dashed\"];\n");
        } else {
            push_str(&mut out, "  \"");
            push_str(&mut out, node.slug.as_str());
            push_str(&mut out, "\" [label=\"");
            push_str(&mut out, node.title.as_str());
            push_str(&mut out, "\" type=\"");
            push_str(&mut out, node.page_type.as_str());
            push_str(&mut out, "\"];\n");
        }
        proof {
            assert(out@ =~= before + dot_node(nodes[i as int]));
        }
        i += 1;
    }
    proof {
        assert(nodes.take(n as int) =~= nodes);
    }
    let ghost mid = out@;
    let ne = graph.edge_count();
    let mut e: usize = 0;
    while e < ne
        invariant
            e <= ne == edges.len(),
            nodes == graph.nodes(),
            edges == graph.edge_list(),
            edges_in_range(nodes.len() as int, edges),
            out@ == mid + dot_edges(nodes, edges.take(e as int)),
        decreases ne - e,
    {
        proof {
            assert(edges.take(e as int + 1).drop_last() =~= edges.take(e as int));
        }
        let (a, b, lbl) = graph.edge(e);
        assert(0 <= edges[e as int].0 < nodes.len() && 0 <= edges[e as int].1 < nodes.len());
        let from = graph.node(a);
        let to = graph.node(b);
        let ghost before = out@;
        push_str(&mut out, "  \"");
        if from.external {
            push_str(&mut out, from.title.as_str());
        } else {
            push_str(&mut out, from.slug.as_str());
        }
        push_str(&mut out, "\" -> \"");
        if to.external {
            push_str(&mut out, to.title.as_str());
        } else {
            push_str(&mut out, to.slug.as_str());
        }
        push_str(&mut out, "\" [label=\"");
        push_str(&mut out, lbl.relation.as_str());
        push_str(&mut out, "\"];\n");
        proof {
            assert(out@ =~= before + dot_edge(nodes, edges[e as int]));
        }
        e += 1;
    }
    proof {
        assert(edges.take(ne as int) =~= edges);
    }
    push_str(&mut out, "}\n");
    proof {
        assert(out@ =~= dot(nodes, edges));
    }
    out
}

// ── Markdown wrapper ─────────────────────────────────────────────────────────

/// The Markdown document around a rendered graph: YAML frontmatter naming the
/// time of generation, the format, the root, the depth and the types, then the
/// rendering in a code fence tagged with the format.
pub open spec fn graph_md(
    rendered: Seq<char>,
    format: Seq<char>,
    now: Seq<char>,
    root: Option<Seq<char>>,
    depth: Option<usize>,
    types: Seq<Seq<char>>,
) -> Seq<char> {
    "---\n"@ + "title: \"Wiki Graph\"\n"@ + "generated: \""@ + now + "\"\n"@ + "format: "@ + format
        + "\n"@ + "root: "@ + match root {
        Some(r) => r,
        None => Seq::empty(),
    } + "\n"@ + "depth: "@ + decimal(
        match depth {
            Some(d) => d as nat,
            None => 0,
        },
    ) + "\n"@ + "types: "@ + if types.len() == 0 {
        "[]"@
    } else {
        "["@ + join(types, ", "@) + "]"@
    } + "\n"@ + "status: generated\n"@ + "---\n\n"@ + "```"@ + format + "\n"@ + rendered + "```\n"@
}

/// Wrap a rendered graph in YAML frontmatter and a code fence; `now` is the
/// RFC 3339 time of generation.
pub fn wrap_graph_md(rendered: &str, format: &str, filter: &GraphFilter, now: &str) -> (r: String)
    ensures
        r@ == graph_md(
            rendered@,
            format@,
            now@,
            opt_chars(filter.root),
            filter.depth,
            views(filter.types@),
        ),
{
    let mut out = String::new();
    push_str(&mut out, "---\n");
    push_str(&mut out, "title: \"Wiki Graph\"\n");
    push_str(&mut out, "generated: \"");
    push_str(&mut out, now);
    push_str(&mut out, "\"\n");
    push_str(&mut out, "format: ");
    push_str(&mut out, format);
    push_str(&mut out, "\n");
    push_str(&mut out, "root: ");
    match &filter.root {
        Some(r) => push_str(&mut out, r.as_str()),
        None => {},
    }
    push_str(&mut out, "\n");
    push_str(&mut out, "depth: ");
    let depth = match filter.depth {
        Some(d) => d,
        None => 0,
    };
    let ds = decimal_string(depth);
    push_str(&mut out, ds.as_str());
    push_str(&mut out, "\n");
    push_str(&mut out, "types: ");
    if filter.types.len() == 0 {
        push_str(&mut out, "[]");
    } else {
        push_str(&mut out, "[");
        let joined = join_strings(&filter.types, ", ");
        push_str(&mut out, joined.as_str());
        push_str(&mut out, "]");
    }
    push_str(&mut out, "\n");
    push_str(&mut out, "status: generated\n");
    push_str(&mut out, "---\n\n");
    push_str(&mut out, "```");
    push_str(&mut out, format);
    push_str(&mut out, "\n");
    push_str(&mut out, rendered);
    push_str(&mut out, "```\n");
    proof {
        let root_part = match opt_chars(filter.root) {
            Some(r) => r,
            None => Seq::<char>::empty(),
        };
        assert(out@ =~= graph_md(
            rendered@,
            format@,
            now@,
            opt_chars(filter.root),
            filter.depth,
            views(filter.types@),
        ));
    }
    out
}

// ── JSON rows and counts ─────────────────────────────────────────────────────

/// A node in the JSON graph output.
#[derive(Debug)]
pub struct JsonNode {
    /// Slug identifying this page within its wiki.
    pub slug: String,
    /// Display title.
    pub title: String,
    /// Frontmatter type.
    pub page_type: String,
    /// True for cross-wiki placeholder nodes.
    pub external: bool,
}

/// A directed edge in the JSON graph output, its endpoints named by slug.
#[derive(Debug)]
pub struct JsonEdge {
    /// Slug of the source node.
    pub from: String,
    /// Slug of the target node.
    pub to: String,
    /// Relation label.
    pub relation: String,
}

/// Summary of a completed graph build or render.
#[derive(Debug)]
pub struct GraphReport {
    /// Number of nodes in the graph.
    pub nodes: usize,
    /// Number of edges in the graph.
    pub edges: usize,
    /// Rendered graph content.
    pub output: String,
}

/// A JSON node row as a node value.
pub open spec fn json_node_view(n: JsonNode) -> NodeV {
    (n.slug@, n.title@, n.page_type@, n.external)
}

/// The JSON rows of the nodes, in index order.
pub fn json_nodes(graph: &WikiGraph) -> (r: Vec<JsonNode>)
    ensures
        r@.len() == graph.nodes().len(),
        forall|i: int|
            0 <= i < r@.len() ==> json_node_view(#[trigger] r@[i]) == graph.nodes()[i],
{
    let n = graph.node_count();
    let mut out: Vec<JsonNode> = Vec::new();
    let mut i: usize = 0;
    while i < n
        invariant
            i <= n == graph.nodes().len(),
            out@.len() == i,
            forall|j: int|
                0 <= j < i ==> json_node_view(#[trigger] out@[j]) == graph.nodes()[j],
        decreases n - i,
    {
        let node = graph.node(i);
        let row = JsonNode {
            slug: node.slug.clone(),
            title: node.title.clone(),
            page_type: node.page_type.clone(),
            external: node.external,
        };
        assert(json_node_view(row) == graph.nodes()[i as int]);
        let ghost before = out@;
        out.push(row);
        assert(forall|j: int| 0 <= j < i ==> out@[j] == before[j]);
        i += 1;
    }
    out
}

/// The JSON rows of the edges, in order, endpoints named by slug.
pub fn json_edges(graph: &WikiGraph) -> (r: Vec<JsonEdge>)
    ensures
        r@.len() == graph.edge_list().len(),
        forall|e: int|
            0 <= e < r@.len() ==> (#[trigger] r@[e].from@, r@[e].to@, r@[e].relation@) == (
                graph.nodes()[graph.edge_list()[e].0].0,
                graph.nodes()[graph.edge_list()[e].1].0,
                graph.edge_list()[e].2,
            ),
{
    graph.lemma_wf();
    let ne = graph.edge_count();
    let mut out: Vec<JsonEdge> = Vec::new();
    let mut e: usize = 0;
    while e < ne
        invariant
            e <= ne == graph.edge_list().len(),
            edges_in_range(graph.nodes().len() as int, graph.edge_list()),
            out@.len() == e,
            forall|k: int|
                0 <= k < e ==> (#[trigger] out@[k].from@, out@[k].to@, out@[k].relation@) == (
                    graph.nodes()[graph.edge_list()[k].0].0,
                    graph.nodes()[graph.edge_list()[k].1].0,
                    graph.edge_list()[k].2,
                ),
        decreases ne - e,
    {
        let (a, b, lbl) = graph.edge(e);
        assert(0 <= graph.edge_list()[e as int].0 < graph.nodes().len() && 0 <= graph.edge_list()[e as int].1
            < graph.nodes().len());
        let from = graph.node(a).slug.clone();
        let to = graph.node(b).slug.clone();
        out.push(JsonEdge { from, to, relation: lbl.relation.clone() });
        e += 1;
    }
    out
}

/// Node `i` has no incoming and no outgoing edge.
pub open spec fn is_orphan(edges: Seq<EdgeV>, i: int) -> bool {
    forall|e: int| 0 <= e < edges.len() ==> #[trigger] edges[e].0 != i && edges[e].1 != i
}

/// The number of nodes below `n` with no edges.
pub open spec fn orphans_below(edges: Seq<EdgeV>, n: int) -> nat
    decreases n,
{
    if n <= 0 {
        0
    } else {
        orphans_below(edges, n - 1) + if is_orphan(edges, n - 1) {
            1nat
        } else {
            0nat
        }
    }
}

/// The number of nodes with neither incoming nor outgoing edges.
pub fn orphan_count(graph: &WikiGraph) -> (r: usize)
    ensures
        r == orphans_below(graph.edge_list(), graph.nodes().len() as int),
{
    graph.lemma_wf();
    let n = graph.node_count();
    let ne = graph.edge_count();
    let ghost edges = graph.edge_list();
    let mut touched: Vec<bool> = Vec::new();
    let mut i: usize = 0;
    while i < n
        invariant
            i <= n,
            touched@.len() == i,
            forall|j: int| 0 <= j < i ==> !#[trigger] touched@[j],
        decreases n - i,
    {
        touched.push(false);
        i += 1;
    }
    let mut e: usize = 0;
    while e < ne
        invariant
            e <= ne == edges.len(),
            edges == graph.edge_list(),
            n == graph.nodes().len() == touched@.len(),
            edges_in_range(n as int, edges),
            forall|j: int|
                0 <= j < n ==> (#[trigger] touched@[j] <==> exists|k: int|
                    0 <= k < e && (edges[k].0 == j || edges[k].1 == j)),
        decreases ne - e,
    {
        let (a, b, _lbl) = graph.edge(e);
        assert(0 <= edges[e as int].0 < n && 0 <= edges[e as int].1 < n);
        touched.set(a, true);
        touched.set(b, true);
        assert forall|j: int| 0 <= j < n implies (#[trigger] touched@[j] <==> exists|k: int|
            0 <= k < e + 1 && (edges[k].0 == j || edges[k].1 == j)) by {
            if j == a || j == b {
                assert(edges[e as int].0 == j || edges[e as int].1 == j);
            }
        }
        e += 1;
    }
    let mut count: usize = 0;
    let mut j: usize = 0;
    while j < n
        invariant
            j <= n == touched@.len(),
            n == graph.nodes().len(),
            edges == graph.edge_list(),
            forall|x: int|
                0 <= x < n ==> (#[trigger] touched@[x] <==> exists|k: int|
                    0 <= k < edges.len() && (edges[k].0 == x || edges[k].1 == x)),
            count == orphans_below(edges, j as int),
            count <= j,
        decreases n - j,
    {
        if !touched[j] {
            assert(is_orphan(edges, j as int)) by {
                assert forall|k: int| 0 <= k < edges.len() implies #[trigger] edges[k].0 != j
                    && edges[k].1 != j by {
                    if edges[k].0 == j || edges[k].1 == j {
                        assert(touched@[j as int]);
                    }
                }
            }
            count += 1;
        } else {
            assert(!is_orphan(edges, j as int));
        }
        j += 1;
    }
    count
}

} // verus!
