//! Building the concept graph from indexed pages.
use vstd::prelude::*;

use crate::graph::{
    last_with_slug, lemma_last_with_slug, EdgeV, LabeledEdge, NodeV, PageNode, WikiGraph,
};
use crate::links::views;
use crate::slug::scheme;
use crate::subgraph::{sub_spec, subgraph};
use crate::text::{has_prefix, starts_with, str_eq};

verus! {

// ── Filter ───────────────────────────────────────────────────────────────────

/// Filtering parameters for graph construction and subgraph extraction.
#[derive(Debug)]
pub struct GraphFilter {
    /// Root slug for subgraph extraction (`None` = full graph).
    pub root: Option<String>,
    /// Maximum hop depth from root (`None` = the default of 3).
    pub depth: Option<usize>,
    /// Page types to include (empty = all types).
    pub types: Vec<String>,
    /// Edge relation label to keep (`None` = all relations).
    pub relation: Option<String>,
    /// Maximum pages to fetch from the index in one pass.
    pub max_pages: usize,
}

impl Clone for GraphFilter {
    fn clone(&self) -> (r: Self)
        ensures
            r.root == self.root,
            r.depth == self.depth,
            r.types@ == self.types@,
            r.relation == self.relation,
            r.max_pages == self.max_pages,
    {
        GraphFilter {
            root: crate::config::clone_opt_string(&self.root),
            depth: self.depth,
            types: crate::config::clone_strings(&self.types),
            relation: crate::config::clone_opt_string(&self.relation),
            max_pages: self.max_pages,
        }
    }
}

impl Default for GraphFilter {
    fn default() -> (r: Self)
        ensures
            r.root is None,
            r.depth is None,
            r.types@.len() == 0,
            r.relation is None,
            r.max_pages == 100_000,
    {
        GraphFilter { root: None, depth: None, types: Vec::new(), relation: None, max_pages: 100_000 }
    }
}

impl GraphFilter {
    /// Whether the filter asks for the unfiltered full graph. `depth` and
    /// `max_pages` do not count: they shape no cached graph.
    pub fn is_default(&self) -> (r: bool)
        ensures
            r == (self.root is None && self.types@.len() == 0 && self.relation is None),
    {
        self.root.is_none() && self.types.len() == 0 && self.relation.is_none()
    }
}

/// An optional string as an optional character sequence.
pub open spec fn opt_chars(o: Option<String>) -> Option<Seq<char>> {
    match o {
        Some(s) => Some(s@),
        None => None,
    }
}

// ── Inputs ───────────────────────────────────────────────────────────────────

/// A graph edge declared by a page type: a frontmatter field whose values are
/// slugs, and the relation those links carry.
#[derive(Debug)]
pub struct EdgeDecl {
    /// Frontmatter field name.
    pub field: String,
    /// Relation label of the edges.
    pub relation: String,
    /// Types a target page may have; empty when any type is allowed.
    pub target_types: Vec<String>,
}

/// The values of one declared edge field on a page.
#[derive(Debug)]
pub struct EdgeField {
    /// Frontmatter field name.
    pub field: String,
    /// Target slugs or `wiki://` URIs, in order.
    pub targets: Vec<String>,
}

/// One indexed page, as the graph builder reads it.
#[derive(Debug)]
pub struct GraphDoc {
    /// Slug of the page.
    pub slug: String,
    /// Title of the page.
    pub title: String,
    /// Frontmatter type of the page.
    pub page_type: String,
    /// Body `[[wikilinks]]`, in order.
    pub body_links: Vec<String>,
    /// Edge declarations of the page's type, in declaration order.
    pub edge_decls: Vec<EdgeDecl>,
    /// For each declared field the index holds, its values, in declaration order.
    pub edge_fields: Vec<EdgeField>,
}

/// A page as (slug, title, type, body links, edge declarations, edge fields).
pub type DocV = (
    Seq<char>,
    Seq<char>,
    Seq<char>,
    Seq<Seq<char>>,
    Seq<(Seq<char>, Seq<char>)>,
    Seq<(Seq<char>, Seq<Seq<char>>)>,
);

pub open spec fn decl_view(d: EdgeDecl) -> (Seq<char>, Seq<char>) {
    (d.field@, d.relation@)
}

pub open spec fn field_view(f: EdgeField) -> (Seq<char>, Seq<Seq<char>>) {
    (f.field@, views(f.targets@))
}

pub open spec fn doc_view(d: GraphDoc) -> DocV {
    (
        d.slug@,
        d.title@,
        d.page_type@,
        views(d.body_links@),
        d.edge_decls@.map_values(|x: EdgeDecl| decl_view(x)),
        d.edge_fields@.map_values(|x: EdgeField| field_view(x)),
    )
}

pub open spec fn doc_views(ds: Seq<GraphDoc>) -> Seq<DocV> {
    ds.map_values(|d: GraphDoc| doc_view(d))
}

// ── The construction, stated ─────────────────────────────────────────────────

/// A graph state: its nodes and its edges.
pub type GraphV = (Seq<NodeV>, Seq<EdgeV>);

/// `links-to`, the relation of body links and of undeclared fields.
pub open spec fn links_to() -> Seq<char> {
    "links-to"@
}

/// `external`, the type of placeholder nodes.
pub open spec fn external_type() -> Seq<char> {
    "external"@
}

/// A page type passes the type filter.
pub open spec fn type_ok(types: Seq<Seq<char>>, t: Seq<char>) -> bool {
    types.len() == 0 || types.contains(t)
}

/// A relation passes the relation filter.
pub open spec fn rel_ok(rel: Option<Seq<char>>, r: Seq<char>) -> bool {
    rel is None || rel == Some(r)
}

/// The pages that pass the type filter, in order.
pub open spec fn kept_docs(docs: Seq<DocV>, types: Seq<Seq<char>>) -> Seq<DocV>
    decreases docs.len(),
{
    if docs.len() == 0 {
        Seq::empty()
    } else {
        let rest = kept_docs(docs.drop_last(), types);
        if type_ok(types, docs.last().2) {
            rest.push(docs.last())
        } else {
            rest
        }
    }
}

/// The node of a page.
pub open spec fn doc_node(d: DocV) -> NodeV {
    (d.0, d.1, d.2, false)
}

/// The relation of the first declaration of `field` at or after `i`, or `links-to`.
pub open spec fn relation_from(decls: Seq<(Seq<char>, Seq<char>)>, field: Seq<char>, i: int) -> Seq<
    char,
>
    decreases decls.len() - i,
{
    if i < 0 || i >= decls.len() {
        links_to()
    } else if decls[i].0 == field {
        decls[i].1
    } else {
        relation_from(decls, field, i + 1)
    }
}

/// Resolve a link target: a `wiki://` URI resolves to its placeholder node,
/// added on first use; a plain slug resolves to the page registered under it, if any.
pub open spec fn resolve_target(g: GraphV, target: Seq<char>) -> (GraphV, Option<int>) {
    if has_prefix(target, scheme()) {
        match last_with_slug(g.0, target) {
            Some(k) => (g, Some(k)),
            None => (
                (g.0.push((target, target, external_type(), true)), g.1),
                Some(g.0.len() as int),
            ),
        }
    } else {
        (g, last_with_slug(g.0, target))
    }
}

/// Add the edge `from → target` with relation `rel`, unless the target does
/// not resolve or is `from` itself.
pub open spec fn link_step(g: GraphV, from: int, target: Seq<char>, rel: Seq<char>) -> GraphV {
    let (g2, to) = resolve_target(g, target);
    match to {
        Some(t) => if t != from {
            (g2.0, g2.1.push((from, t, rel)))
        } else {
            g2
        },
        None => g2,
    }
}

/// `link_step` for each target in order.
pub open spec fn link_all(g: GraphV, from: int, targets: Seq<Seq<char>>, rel: Seq<char>) -> GraphV
    decreases targets.len(),
{
    if targets.len() == 0 {
        g
    } else {
        link_step(link_all(g, from, targets.drop_last(), rel), from, targets.last(), rel)
    }
}

/// The declared edge fields of one page, in order, each under its relation
/// and only where the relation filter passes.
pub open spec fn fields_step(
    g: GraphV,
    from: int,
    decls: Seq<(Seq<char>, Seq<char>)>,
    fields: Seq<(Seq<char>, Seq<Seq<char>>)>,
    rel: Option<Seq<char>>,
) -> GraphV
    decreases fields.len(),
{
    if fields.len() == 0 {
        g
    } else {
        let g1 = fields_step(g, from, decls, fields.drop_last(), rel);
        let f = fields.last();
        let r = relation_from(decls, f.0, 0);
        if rel_ok(rel, r) {
            link_all(g1, from, f.1, r)
        } else {
            g1
        }
    }
}

/// The edges of one page: its declared fields, then its body links as `links-to`.
pub open spec fn doc_step(g: GraphV, d: DocV, rel: Option<Seq<char>>) -> GraphV {
    match last_with_slug(g.0, d.0) {
        None => g,
        Some(from) => {
            let g1 = fields_step(g, from, d.4, d.5, rel);
            if rel_ok(rel, links_to()) {
                link_all(g1, from, d.3, links_to())
            } else {
                g1
            }
        },
    }
}

/// `doc_step` for each page in order.
pub open spec fn docs_step(g: GraphV, docs: Seq<DocV>, rel: Option<Seq<char>>) -> GraphV
    decreases docs.len(),
{
    if docs.len() == 0 {
        g
    } else {
        doc_step(docs_step(g, docs.drop_last(), rel), docs.last(), rel)
    }
}

/// The full graph before any root filter: a node per kept page, then the
/// edges of each kept page.
pub open spec fn full_graph(docs: Seq<DocV>, types: Seq<Seq<char>>, rel: Option<Seq<char>>) -> GraphV {
    let kept = kept_docs(docs, types);
    docs_step((kept.map_values(|d: DocV| doc_node(d)), Seq::empty()), kept, rel)
}

/// The graph `build_graph` produces: the full graph, cut down to the
/// neighbourhood of the root when the filter names one.
pub open spec fn built_graph(
    docs: Seq<DocV>,
    types: Seq<Seq<char>>,
    rel: Option<Seq<char>>,
    root: Option<Seq<char>>,
    depth: Option<usize>,
) -> GraphV {
    let g = full_graph(docs, types, rel);
    match root {
        Some(r) => sub_spec(
            g.0,
            g.1,
            r,
            match depth {
                Some(d) => d as nat,
                None => 3,
            },
        ),
        None => g,
    }
}

// ── Size bounds ──────────────────────────────────────────────────────────────

/// The number of targets over a list of fields.
pub open spec fn fields_weight(fields: Seq<(Seq<char>, Seq<Seq<char>>)>) -> int
    decreases fields.len(),
{
    if fields.len() == 0 {
        0
    } else {
        fields_weight(fields.drop_last()) + fields.last().1.len()
    }
}

/// An upper bound on the nodes and edges a list of pages can produce.
pub open spec fn docs_weight(docs: Seq<DocV>) -> int
    decreases docs.len(),
{
    if docs.len() == 0 {
        0
    } else {
        docs_weight(docs.drop_last()) + 1 + docs.last().3.len() + fields_weight(docs.last().5)
    }
}

proof fn lemma_link_all_grows(g: GraphV, from: int, targets: Seq<Seq<char>>, rel: Seq<char>)
    ensures
        g.0.len() <= link_all(g, from, targets, rel).0.len() <= g.0.len() + targets.len(),
        g.1.len() <= link_all(g, from, targets, rel).1.len() <= g.1.len() + targets.len(),
        link_all(g, from, targets, rel).0.subrange(0, g.0.len() as int) == g.0,
    decreases targets.len(),
{
    if targets.len() > 0 {
        lemma_link_all_grows(g, from, targets.drop_last(), rel);
        let g1 = link_all(g, from, targets.drop_last(), rel);
        let g2 = link_all(g, from, targets, rel);
        assert(g2.0.subrange(0, g1.0.len() as int) == g1.0);
        assert(g2.0.subrange(0, g.0.len() as int) =~= g1.0.subrange(0, g.0.len() as int));
    }
}

proof fn lemma_fields_step_grows(
    g: GraphV,
    from: int,
    decls: Seq<(Seq<char>, Seq<char>)>,
    fields: Seq<(Seq<char>, Seq<Seq<char>>)>,
    rel: Option<Seq<char>>,
)
    ensures
        fields_weight(fields) >= 0,
        g.0.len() <= fields_step(g, from, decls, fields, rel).0.len() <= g.0.len() + fields_weight(
            fields,
        ),
        g.1.len() <= fields_step(g, from, decls, fields, rel).1.len() <= g.1.len() + fields_weight(
            fields,
        ),
        fields_step(g, from, decls, fields, rel).0.subrange(0, g.0.len() as int) == g.0,
    decreases fields.len(),
{
    if fields.len() > 0 {
        lemma_fields_step_grows(g, from, decls, fields.drop_last(), rel);
        let g1 = fields_step(g, from, decls, fields.drop_last(), rel);
        let f = fields.last();
        lemma_link_all_grows(g1, from, f.1, relation_from(decls, f.0, 0));
        let g2 = fields_step(g, from, decls, fields, rel);
        assert(g2.0.subrange(0, g.0.len() as int) =~= g2.0.subrange(0, g1.0.len() as int).subrange(
            0,
            g.0.len() as int,
        ));
    }
}

proof fn lemma_doc_step_grows(g: GraphV, d: DocV, rel: Option<Seq<char>>)
    ensures
        fields_weight(d.5) >= 0,
        g.0.len() <= doc_step(g, d, rel).0.len() <= g.0.len() + d.3.len() + fields_weight(d.5),
        g.1.len() <= doc_step(g, d, rel).1.len() <= g.1.len() + d.3.len() + fields_weight(d.5),
        doc_step(g, d, rel).0.subrange(0, g.0.len() as int) == g.0,
{
    lemma_fields_step_grows(g, 0, d.4, d.5, rel);
    match last_with_slug(g.0, d.0) {
        None => {
            assert(g.0.subrange(0, g.0.len() as int) =~= g.0);
        },
        Some(from) => {
            lemma_fields_step_grows(g, from, d.4, d.5, rel);
            let g1 = fields_step(g, from, d.4, d.5, rel);
            lemma_link_all_grows(g1, from, d.3, links_to());
            let g2 = doc_step(g, d, rel);
            assert(g2.0.subrange(0, g.0.len() as int) =~= g2.0.subrange(
                0,
                g1.0.len() as int,
            ).subrange(0, g.0.len() as int));
        },
    }
}

pub(crate) proof fn lemma_docs_weight_nonneg(docs: Seq<DocV>)
    ensures
        docs_weight(docs) >= 0,
    decreases docs.len(),
{
    if docs.len() > 0 {
        lemma_docs_weight_nonneg(docs.drop_last());
        lemma_fields_step_grows((Seq::empty(), Seq::empty()), 0, Seq::empty(), docs.last().5, None);
    }
}

proof fn lemma_docs_weight_len(docs: Seq<DocV>)
    ensures
        docs_weight(docs) >= docs.len(),
    decreases docs.len(),
{
    if docs.len() > 0 {
        lemma_docs_weight_len(docs.drop_last());
        lemma_fields_step_grows((Seq::empty(), Seq::empty()), 0, Seq::empty(), docs.last().5, None);
    }
}

proof fn lemma_kept_weight(docs: Seq<DocV>, types: Seq<Seq<char>>)
    ensures
        kept_docs(docs, types).len() + docs_weight(kept_docs(docs, types)) <= 2 * docs_weight(docs),
        docs_weight(kept_docs(docs, types)) <= docs_weight(docs),
        kept_docs(docs, types).len() <= docs.len(),
    decreases docs.len(),
{
    lemma_docs_weight_nonneg(docs);
    if docs.len() > 0 {
        lemma_kept_weight(docs.drop_last(), types);
        lemma_docs_weight_nonneg(docs.drop_last());
        lemma_fields_step_grows((Seq::empty(), Seq::empty()), 0, Seq::empty(), docs.last().5, None);
        let rest = kept_docs(docs.drop_last(), types);
        if type_ok(types, docs.last().2) {
            let k = rest.push(docs.last());
            assert(k.drop_last() =~= rest);
        }
    }
}

// ── Executable construction ──────────────────────────────────────────────────

pub open spec fn gview(g: WikiGraph) -> GraphV {
    (g.nodes(), g.edge_list())
}

/// Whether `t` is in `types`.
fn contains_str(types: &Vec<String>, t: &str) -> (r: bool)
    ensures
        r == views(types@).contains(t@),
{
    let mut i: usize = 0;
    while i < types.len()
        invariant
            i <= types.len(),
            forall|j: int| 0 <= j < i ==> types@[j]@ != t@,
        decreases types.len() - i,
    {
        if str_eq(types[i].as_str(), t) {
            assert(views(types@)[i as int] == t@);
            return true;
        }
        i += 1;
    }
    proof {
        if views(types@).contains(t@) {
            let j = choose|j: int| 0 <= j < views(types@).len() && views(types@)[j] == t@;
            assert(types@[j]@ == t@);
        }
    }
    false
}

/// Whether the relation filter passes `r`.
fn relation_passes(rel: &Option<String>, r: &str) -> (b: bool)
    ensures
        b == rel_ok(opt_chars(*rel), r@),
{
    match rel {
        None => true,
        Some(x) => str_eq(x.as_str(), r),
    }
}

/// The relation of the first declaration of `field`, or `links-to`.
fn relation_for(decls: &Vec<EdgeDecl>, field: &str) -> (r: String)
    ensures
        r@ == relation_from(decls@.map_values(|x: EdgeDecl| decl_view(x)), field@, 0),
{
    let ghost dv = decls@.map_values(|x: EdgeDecl| decl_view(x));
    let mut i: usize = 0;
    while i < decls.len()
        invariant
            i <= decls.len() == dv.len(),
            dv == decls@.map_values(|x: EdgeDecl| decl_view(x)),
            relation_from(dv, field@, 0) == relation_from(dv, field@, i as int),
        decreases decls.len() - i,
    {
        if str_eq(decls[i].field.as_str(), field) {
            return decls[i].relation.clone();
        }
        i += 1;
    }
    "links-to".to_owned()
}

/// Resolve a target to a node index, adding a placeholder node for a
/// `wiki://` URI that has none yet; `None` for a plain slug that is no page.
fn resolve_or_external(target: &str, graph: &mut WikiGraph) -> (r: Option<usize>)
    requires
        old(graph).nodes().len() + 1 < u32::MAX,
    ensures
        (gview(*final(graph)), match r {
            Some(k) => Some(k as int),
            None => None::<int>,
        }) == resolve_target(gview(*old(graph)), target@),
        r matches Some(k) ==> k < final(graph).nodes().len(),
        final(graph).nodes().len() <= old(graph).nodes().len() + 1,
        final(graph).edge_list() == old(graph).edge_list(),
{
    proof {
        lemma_last_with_slug(graph.nodes(), target@);
    }
    if starts_with(target, "wiki://") {
        proof {
            reveal_strlit("wiki://");
            assert("wiki://"@ =~= scheme());
        }
        match graph.node_for_slug(target) {
            Some(idx) => Some(idx),
            None => {
                let node = PageNode {
                    slug: target.to_owned(),
                    title: target.to_owned(),
                    page_type: "external".to_owned(),
                    external: true,
                };
                let idx = graph.add_node(node);
                Some(idx)
            },
        }
    } else {
        proof {
            reveal_strlit("wiki://");
            assert("wiki://"@ =~= scheme());
        }
        graph.node_for_slug(target)
    }
}

/// `link_all` on the graph, for targets that fit its size limits.
fn link_targets(graph: &mut WikiGraph, from: usize, targets: &Vec<String>, rel: &str)
    requires
        from < old(graph).nodes().len(),
        old(graph).nodes().len() + targets.len() + 1 < u32::MAX,
        old(graph).edge_list().len() + targets.len() + 1 < u32::MAX,
    ensures
        gview(*final(graph)) == link_all(gview(*old(graph)), from as int, views(targets@), rel@),
{
    let ghost g0 = gview(*graph);
    let ghost tv = views(targets@);
    let mut i: usize = 0;
    while i < targets.len()
        invariant
            i <= targets.len() == tv.len(),
            tv == views(targets@),
            from < g0.0.len(),
            g0.0.len() + targets.len() + 1 < u32::MAX,
            g0.1.len() + targets.len() + 1 < u32::MAX,
            gview(*graph) == link_all(g0, from as int, tv.take(i as int), rel@),
        decreases targets.len() - i,
    {
        proof {
            lemma_link_all_grows(g0, from as int, tv.take(i as int), rel@);
            assert(tv.take(i as int + 1).drop_last() =~= tv.take(i as int));
        }
        graph.lemma_wf();
        let to = resolve_or_external(targets[i].as_str(), graph);
        match to {
            Some(t) => {
                if t != from {
                    let w = LabeledEdge { relation: rel.to_owned() };
                    graph.add_edge(from, t, w);
                }
            },
            None => {},
        }
        i += 1;
    }
    proof {
        assert(tv.take(targets.len() as int) =~= tv);
    }
}

/// The declared edge fields of one page.
fn link_fields(
    graph: &mut WikiGraph,
    from: usize,
    decls: &Vec<EdgeDecl>,
    fields: &Vec<EdgeField>,
    rel: &Option<String>,
    Ghost(budget): Ghost<int>,
)
    requires
        from < old(graph).nodes().len(),
        fields_weight(fields@.map_values(|x: EdgeField| field_view(x))) <= budget,
        old(graph).nodes().len() + budget + 1 < u32::MAX,
        old(graph).edge_list().len() + budget + 1 < u32::MAX,
    ensures
        gview(*final(graph)) == fields_step(
            gview(*old(graph)),
            from as int,
            decls@.map_values(|x: EdgeDecl| decl_view(x)),
            fields@.map_values(|x: EdgeField| field_view(x)),
            opt_chars(*rel),
        ),
{
    let ghost g0 = gview(*graph);
    let ghost dv = decls@.map_values(|x: EdgeDecl| decl_view(x));
    let ghost fv = fields@.map_values(|x: EdgeField| field_view(x));
    let mut i: usize = 0;
    while i < fields.len()
        invariant
            i <= fields.len() == fv.len(),
            fv == fields@.map_values(|x: EdgeField| field_view(x)),
            dv == decls@.map_values(|x: EdgeDecl| decl_view(x)),
            from < g0.0.len(),
            fields_weight(fv) <= budget,
            g0.0.len() + budget + 1 < u32::MAX,
            g0.1.len() + budget + 1 < u32::MAX,
            gview(*graph) == fields_step(g0, from as int, dv, fv.take(i as int), opt_chars(*rel)),
        decreases fields.len() - i,
    {
        proof {
            let pre = fv.take(i as int + 1);
            assert(pre.drop_last() =~= fv.take(i as int));
            lemma_fields_step_grows(g0, from as int, dv, fv.take(i as int), opt_chars(*rel));
            lemma_fields_weight_prefix(fv, i as int + 1);
            lemma_fields_weight_prefix(fv, i as int);
        }
        let r = relation_for(decls, fields[i].field.as_str());
        if relation_passes(rel, r.as_str()) {
            link_targets(graph, from, &fields[i].targets, r.as_str());
        }
        i += 1;
    }
    proof {
        assert(fv.take(fields.len() as int) =~= fv);
    }
}

proof fn lemma_fields_weight_prefix(fv: Seq<(Seq<char>, Seq<Seq<char>>)>, i: int)
    requires
        0 <= i <= fv.len(),
    ensures
        0 <= fields_weight(fv.take(i)) <= fields_weight(fv),
    decreases fv.len() - i,
{
    if i < fv.len() {
        lemma_fields_weight_prefix(fv, i + 1);
        assert(fv.take(i + 1).drop_last() =~= fv.take(i));
        lemma_fields_step_grows((Seq::empty(), Seq::empty()), 0, Seq::empty(), fv.take(i), None);
    } else {
        assert(fv.take(i) =~= fv);
        lemma_fields_step_grows((Seq::empty(), Seq::empty()), 0, Seq::empty(), fv, None);
    }
}

proof fn lemma_docs_weight_prefix(dv: Seq<DocV>, i: int)
    requires
        0 <= i <= dv.len(),
    ensures
        0 <= docs_weight(dv.take(i)) <= docs_weight(dv),
    decreases dv.len() - i,
{
    if i < dv.len() {
        lemma_docs_weight_prefix(dv, i + 1);
        assert(dv.take(i + 1).drop_last() =~= dv.take(i));
        lemma_fields_step_grows((Seq::empty(), Seq::empty()), 0, Seq::empty(), dv[i].5, None);
        lemma_docs_weight_nonneg(dv.take(i));
    } else {
        assert(dv.take(i) =~= dv);
        lemma_docs_weight_nonneg(dv);
    }
}

/// The edges of one page.
fn link_doc(graph: &mut WikiGraph, doc: &GraphDoc, rel: &Option<String>, Ghost(budget): Ghost<int>)
    requires
        doc_view(*doc).3.len() + fields_weight(doc_view(*doc).5) <= budget,
        old(graph).nodes().len() + budget + 1 < u32::MAX,
        old(graph).edge_list().len() + budget + 1 < u32::MAX,
    ensures
        gview(*final(graph)) == doc_step(gview(*old(graph)), doc_view(*doc), opt_chars(*rel)),
{
    let ghost g0 = gview(*graph);
    let ghost d = doc_view(*doc);
    proof {
        lemma_last_with_slug(g0.0, d.0);
        lemma_fields_step_grows(g0, 0, d.4, d.5, opt_chars(*rel));
    }
    match graph.node_for_slug(doc.slug.as_str()) {
        None => {},
        Some(from) => {
            link_fields(graph, from, &doc.edge_decls, &doc.edge_fields, rel, Ghost(budget));
            proof {
                lemma_fields_step_grows(g0, from as int, d.4, d.5, opt_chars(*rel));
            }
            if relation_passes(rel, "links-to") {
                link_targets(graph, from, &doc.body_links, "links-to");
            }
        },
    }
}

/// Build the concept graph from the indexed pages: one node per page whose
/// type passes the filter, then for each such page its declared edge fields
/// (under their declared relation) and its body links (as `links-to`), where
/// the relation filter passes. A `wiki://` target gets a placeholder node; a
/// plain slug that is no page, and a link to the page itself, add no edge.
/// With a root in the filter, the result is its neighbourhood of the filter's
/// depth (3 by default).
pub fn build_graph(docs: &Vec<GraphDoc>, filter: &GraphFilter) -> (r: WikiGraph)
    requires
        2 * docs_weight(doc_views(docs@)) + 1 < u32::MAX,
    ensures
        gview(r) == built_graph(
            doc_views(docs@),
            views(filter.types@),
            opt_chars(filter.relation),
            opt_chars(filter.root),
            filter.depth,
        ),
        r.nodes().len() <= 2 * docs_weight(doc_views(docs@)),
        r.edge_list().len() <= docs_weight(doc_views(docs@)),
{
    let ghost dv = doc_views(docs@);
    let ghost types = views(filter.types@);
    let ghost kept = kept_docs(dv, types);
    proof {
        lemma_kept_weight(dv, types);
        lemma_docs_weight_nonneg(dv);
        lemma_docs_weight_len(dv);
    }
    // First pass: a node per kept page.
    let mut graph = WikiGraph::new();
    let mut kept_idx: Vec<usize> = Vec::new();
    let mut i: usize = 0;
    while i < docs.len()
        invariant
            i <= docs.len() == dv.len(),
            dv == doc_views(docs@),
            types == views(filter.types@),
            kept_docs(dv, types).len() <= dv.len(),
            dv.len() <= docs_weight(dv),
            2 * docs_weight(dv) + 1 < u32::MAX,
            kept_docs(dv.take(i as int), types).len() <= i,
            graph.nodes() == kept_docs(dv.take(i as int), types).map_values(|d: DocV| doc_node(d)),
            graph.edge_list() == Seq::<EdgeV>::empty(),
            kept_idx@.len() == kept_docs(dv.take(i as int), types).len(),
            forall|j: int|
                0 <= j < kept_idx@.len() ==> #[trigger] kept_idx@[j] < i && dv[kept_idx@[j] as int]
                    == kept_docs(dv.take(i as int), types)[j],
        decreases docs.len() - i,
    {
        proof {
            assert(dv.take(i as int + 1).drop_last() =~= dv.take(i as int));
            lemma_kept_weight(dv.take(i as int), types);
            lemma_docs_weight_prefix(dv, i as int);
            assert(dv[i as int] == doc_view(docs@[i as int]));
        }
        let d = &docs[i];
        if filter.types.len() == 0 || contains_str(&filter.types, d.page_type.as_str()) {
            let node = PageNode {
                slug: d.slug.clone(),
                title: d.title.clone(),
                page_type: d.page_type.clone(),
                external: false,
            };
            graph.add_node(node);
            kept_idx.push(i);
            proof {
                let k1 = kept_docs(dv.take(i as int + 1), types);
                assert(k1.map_values(|x: DocV| doc_node(x)) =~= kept_docs(dv.take(i as int), types).map_values(
                    |x: DocV| doc_node(x),
                ).push(doc_node(dv[i as int])));
            }
        }
        i += 1;
    }
    proof {
        assert(dv.take(docs.len() as int) =~= dv);
    }
    // Second pass: the edges of each kept page.
    let ghost g0 = gview(graph);
    let mut j: usize = 0;
    while j < kept_idx.len()
        invariant
            j <= kept_idx@.len() == kept.len(),
            kept == kept_docs(dv, types),
            dv == doc_views(docs@),
            dv.len() == docs.len(),
            forall|k: int|
                0 <= k < kept_idx@.len() ==> #[trigger] kept_idx@[k] < docs.len() && dv[kept_idx@[k] as int]
                    == kept[k],
            g0 == (kept.map_values(|d: DocV| doc_node(d)), Seq::<EdgeV>::empty()),
            kept.len() + docs_weight(kept) <= 2 * docs_weight(dv),
            docs_weight(kept) <= docs_weight(dv),
            2 * docs_weight(dv) + 1 < u32::MAX,
            gview(graph) == docs_step(g0, kept.take(j as int), opt_chars(filter.relation)),
            graph.nodes().len() <= kept.len() + docs_weight(kept.take(j as int)),
            graph.edge_list().len() <= docs_weight(kept.take(j as int)),
        decreases kept_idx@.len() - j,
    {
        let k = kept_idx[j];
        proof {
            assert(kept.take(j as int + 1).drop_last() =~= kept.take(j as int));
            lemma_docs_weight_prefix(kept, j as int + 1);
            lemma_docs_weight_prefix(kept, j as int);
            assert(dv[k as int] == doc_view(docs@[k as int]));
            lemma_doc_step_grows(gview(graph), kept[j as int], opt_chars(filter.relation));
        }
        let ghost budget = docs_weight(kept.take(j as int + 1)) - docs_weight(kept.take(j as int)) - 1;
        link_doc(&mut graph, &docs[k], &filter.relation, Ghost(budget));
        j += 1;
    }
    proof {
        assert(kept.take(kept.len() as int) =~= kept);
        crate::subgraph::lemma_sub_spec_size(graph.nodes(), graph.edge_list(), match opt_chars(filter.root) {
            Some(r) => r,
            None => Seq::empty(),
        }, match filter.depth {
            Some(d) => d as nat,
            None => 3,
        });
    }
    match &filter.root {
        Some(root) => {
            let depth = match filter.depth {
                Some(d) => d,
                None => 3,
            };
            subgraph(&graph, root.as_str(), depth)
        },
        None => graph,
    }
}

// ── Laws ─────────────────────────────────────────────────────────────────────

/// The shape a graph under construction keeps: it starts with the page nodes
/// `base`; every later node is a placeholder whose slug and title are a
/// `wiki://` URI, of type `external`, and no two placeholders share a URI;
/// every edge joins two nodes, is no self-loop, leaves a page node and passes
/// the relation filter.
pub open spec fn shape_ok(g: GraphV, rel: Option<Seq<char>>, base: Seq<NodeV>) -> bool {
    &&& base.len() <= g.0.len()
    &&& forall|i: int| 0 <= i < base.len() ==> #[trigger] g.0[i] == base[i]
    &&& forall|i: int| 0 <= i < base.len() ==> !(#[trigger] base[i]).3
    &&& forall|i: int|
        base.len() <= i < g.0.len() ==> (#[trigger] g.0[i]).3 && g.0[i].0 == g.0[i].1 && g.0[i].2
            == external_type() && has_prefix(g.0[i].0, scheme())
    &&& forall|i: int, j: int|
        base.len() <= i < j < g.0.len() ==> (#[trigger] g.0[i]).0 != (#[trigger] g.0[j]).0
    &&& forall|e: int|
        0 <= e < g.1.len() ==> {
            let x = #[trigger] g.1[e];
            &&& 0 <= x.0 < g.0.len()
            &&& 0 <= x.1 < g.0.len()
            &&& x.0 != x.1
            &&& !g.0[x.0].3
            &&& rel_ok(rel, x.2)
        }
}

/// `h` keeps the nodes of `g` in place and adds nodes after them only.
pub open spec fn grows(g: GraphV, h: GraphV) -> bool {
    &&& g.0.len() <= h.0.len()
    &&& forall|i: int| 0 <= i < g.0.len() ==> #[trigger] h.0[i] == g.0[i]
}

proof fn lemma_resolve_shape(g: GraphV, target: Seq<char>, rel: Option<Seq<char>>, base: Seq<NodeV>)
    requires
        shape_ok(g, rel, base),
    ensures
        shape_ok(resolve_target(g, target).0, rel, base),
        grows(g, resolve_target(g, target).0),
        resolve_target(g, target).0.1 == g.1,
        resolve_target(g, target).1 matches Some(t) ==> 0 <= t < resolve_target(g, target).0.0.len(),
{
    lemma_last_with_slug(g.0, target);
    let (g2, to) = resolve_target(g, target);
    if has_prefix(target, scheme()) && last_with_slug(g.0, target) is None {
        let n = g.0.len() as int;
        assert(g2.0 == g.0.push((target, target, external_type(), true)));
        assert forall|i: int| 0 <= i < base.len() implies #[trigger] g2.0[i] == base[i] by {
            assert(g2.0[i] == g.0[i]);
        }
        assert forall|i: int| base.len() <= i < g2.0.len() implies (#[trigger] g2.0[i]).3 && g2.0[i].0
            == g2.0[i].1 && g2.0[i].2 == external_type() && has_prefix(g2.0[i].0, scheme()) by {
            if i < n {
                assert(g2.0[i] == g.0[i]);
            }
        }
        assert forall|i: int, j: int| base.len() <= i < j < g2.0.len() implies (#[trigger] g2.0[i]).0
            != (#[trigger] g2.0[j]).0 by {
            assert(g2.0[i] == g.0[i]);
            if j < n {
                assert(g2.0[j] == g.0[j]);
            }
        }
        assert forall|e: int| 0 <= e < g2.1.len() implies {
            let x = #[trigger] g2.1[e];
            &&& 0 <= x.0 < g2.0.len()
            &&& 0 <= x.1 < g2.0.len()
            &&& x.0 != x.1
            &&& !g2.0[x.0].3
            &&& rel_ok(rel, x.2)
        } by {
            let x = g.1[e];
            assert(g2.0[x.0] == g.0[x.0]);
        }
    }
}

proof fn lemma_link_step_shape(
    g: GraphV,
    from: int,
    target: Seq<char>,
    r: Seq<char>,
    rel: Option<Seq<char>>,
    base: Seq<NodeV>,
)
    requires
        shape_ok(g, rel, base),
        0 <= from < g.0.len(),
        !g.0[from].3,
        rel_ok(rel, r),
    ensures
        shape_ok(link_step(g, from, target, r), rel, base),
        grows(g, link_step(g, from, target, r)),
{
    lemma_resolve_shape(g, target, rel, base);
    let (g2, to) = resolve_target(g, target);
    assert(g2.0[from] == g.0[from]);
    match to {
        Some(t) => {
            if t != from {
                let h = (g2.0, g2.1.push((from, t, r)));
                assert forall|e: int| 0 <= e < h.1.len() implies {
                    let x = #[trigger] h.1[e];
                    &&& 0 <= x.0 < h.0.len()
                    &&& 0 <= x.1 < h.0.len()
                    &&& x.0 != x.1
                    &&& !h.0[x.0].3
                    &&& rel_ok(rel, x.2)
                } by {
                    if e < g2.1.len() {
                        assert(h.1[e] == g2.1[e]);
                    }
                }
            }
        },
        None => {},
    }
}

proof fn lemma_link_all_shape(
    g: GraphV,
    from: int,
    targets: Seq<Seq<char>>,
    r: Seq<char>,
    rel: Option<Seq<char>>,
    base: Seq<NodeV>,
)
    requires
        shape_ok(g, rel, base),
        0 <= from < g.0.len(),
        !g.0[from].3,
        rel_ok(rel, r),
    ensures
        shape_ok(link_all(g, from, targets, r), rel, base),
        grows(g, link_all(g, from, targets, r)),
    decreases targets.len(),
{
    if targets.len() > 0 {
        lemma_link_all_shape(g, from, targets.drop_last(), r, rel, base);
        let g1 = link_all(g, from, targets.drop_last(), r);
        assert(g1.0[from] == g.0[from]);
        lemma_link_step_shape(g1, from, targets.last(), r, rel, base);
    }
}

proof fn lemma_fields_step_shape(
    g: GraphV,
    from: int,
    decls: Seq<(Seq<char>, Seq<char>)>,
    fields: Seq<(Seq<char>, Seq<Seq<char>>)>,
    rel: Option<Seq<char>>,
    base: Seq<NodeV>,
)
    requires
        shape_ok(g, rel, base),
        0 <= from < g.0.len(),
        !g.0[from].3,
    ensures
        shape_ok(fields_step(g, from, decls, fields, rel), rel, base),
        grows(g, fields_step(g, from, decls, fields, rel)),
    decreases fields.len(),
{
    if fields.len() > 0 {
        lemma_fields_step_shape(g, from, decls, fields.drop_last(), rel, base);
        let g1 = fields_step(g, from, decls, fields.drop_last(), rel);
        assert(g1.0[from] == g.0[from]);
        let f = fields.last();
        let r = relation_from(decls, f.0, 0);
        if rel_ok(rel, r) {
            lemma_link_all_shape(g1, from, f.1, r, rel, base);
        }
    }
}

proof fn lemma_doc_step_shape(g: GraphV, d: DocV, rel: Option<Seq<char>>, base: Seq<NodeV>)
    requires
        shape_ok(g, rel, base),
        !has_prefix(d.0, scheme()),
    ensures
        shape_ok(doc_step(g, d, rel), rel, base),
        grows(g, doc_step(g, d, rel)),
{
    lemma_last_with_slug(g.0, d.0);
    match last_with_slug(g.0, d.0) {
        None => {},
        Some(from) => {
            assert(g.0[from].0 == d.0);
            if from >= base.len() {
                assert(has_prefix(g.0[from].0, scheme()));
            }
            assert(g.0[from] == base[from]);
            lemma_fields_step_shape(g, from, d.4, d.5, rel, base);
            let g1 = fields_step(g, from, d.4, d.5, rel);
            assert(g1.0[from] == g.0[from]);
            if rel_ok(rel, links_to()) {
                lemma_link_all_shape(g1, from, d.3, links_to(), rel, base);
            }
        },
    }
}

proof fn lemma_docs_step_shape(g: GraphV, docs: Seq<DocV>, rel: Option<Seq<char>>, base: Seq<NodeV>)
    requires
        shape_ok(g, rel, base),
        forall|k: int| 0 <= k < docs.len() ==> !has_prefix((#[trigger] docs[k]).0, scheme()),
    ensures
        shape_ok(docs_step(g, docs, rel), rel, base),
    decreases docs.len(),
{
    if docs.len() > 0 {
        let u = docs.drop_last();
        assert forall|k: int| 0 <= k < u.len() implies !has_prefix((#[trigger] u[k]).0, scheme()) by {
            assert(u[k] == docs[k]);
        }
        lemma_docs_step_shape(g, u, rel, base);
        assert(docs[docs.len() - 1] == docs.last());
        lemma_doc_step_shape(docs_step(g, u, rel), docs.last(), rel, base);
    }
}

proof fn lemma_kept_docs_from(docs: Seq<DocV>, types: Seq<Seq<char>>)
    ensures
        forall|k: int| 0 <= k < kept_docs(docs, types).len() ==> docs.contains(
            #[trigger] kept_docs(docs, types)[k],
        ),
    decreases docs.len(),
{
    if docs.len() > 0 {
        let u = docs.drop_last();
        lemma_kept_docs_from(u, types);
        let rest = kept_docs(u, types);
        assert forall|k: int| 0 <= k < kept_docs(docs, types).len() implies docs.contains(
            #[trigger] kept_docs(docs, types)[k],
        ) by {
            if k < rest.len() {
                assert(kept_docs(docs, types)[k] == rest[k]);
                assert(u.contains(rest[k]));
                let j = choose|j: int| 0 <= j < u.len() && u[j] == rest[k];
                assert(docs[j] == u[j]);
            } else {
                assert(docs[docs.len() - 1] == docs.last());
            }
        }
    }
}

/// The full graph of pages whose slugs are no `wiki://` URIs: its first
/// nodes are the pages that pass the type filter, one each, in order; every
/// other node is a placeholder for a `wiki://` link target, its slug and title
/// that URI and its type `external`, one per URI; no edge is a self-loop;
/// every edge leaves a page node; and with a relation filter every edge has
/// that relation.
pub proof fn law_built_graph_shape(
    docs: Seq<DocV>,
    types: Seq<Seq<char>>,
    rel: Option<Seq<char>>,
    depth: Option<usize>,
)
    requires
        forall|k: int| 0 <= k < docs.len() ==> !has_prefix((#[trigger] docs[k]).0, scheme()),
    ensures
        ({
            let g = built_graph(docs, types, rel, None, depth);
            let base = kept_docs(docs, types).map_values(|d: DocV| doc_node(d));
            &&& base.len() <= g.0.len()
            &&& forall|i: int| 0 <= i < base.len() ==> #[trigger] g.0[i] == base[i]
            &&& forall|i: int|
                base.len() <= i < g.0.len() ==> (#[trigger] g.0[i]).3 && g.0[i].0 == g.0[i].1
                    && g.0[i].2 == "external"@ && has_prefix(g.0[i].0, scheme())
            &&& forall|i: int, j: int|
                base.len() <= i < j < g.0.len() ==> (#[trigger] g.0[i]).0 != (#[trigger] g.0[j]).0
            &&& forall|e: int|
                0 <= e < g.1.len() ==> (#[trigger] g.1[e]).0 != g.1[e].1 && !g.0[g.1[e].0].3
                    && (rel matches Some(x) ==> g.1[e].2 == x)
        }),
{
    let kept = kept_docs(docs, types);
    let base = kept.map_values(|d: DocV| doc_node(d));
    let g0: GraphV = (base, Seq::empty());
    assert(shape_ok(g0, rel, base));
    lemma_kept_docs_from(docs, types);
    assert forall|k: int| 0 <= k < kept.len() implies !has_prefix((#[trigger] kept[k]).0, scheme()) by {
        assert(docs.contains(kept[k]));
        let j = choose|j: int| 0 <= j < docs.len() && docs[j] == kept[k];
        assert(!has_prefix(docs[j].0, scheme()));
    }
    lemma_docs_step_shape(g0, kept, rel, base);
    let g = built_graph(docs, types, rel, None, depth);
    assert(g == docs_step(g0, kept, rel));
}

proof fn lemma_link_all_keeps_nodes(g: GraphV, from: int, targets: Seq<Seq<char>>, r: Seq<char>)
    ensures
        grows(g, link_all(g, from, targets, r)),
    decreases targets.len(),
{
    if targets.len() > 0 {
        lemma_link_all_keeps_nodes(g, from, targets.drop_last(), r);
        let g1 = link_all(g, from, targets.drop_last(), r);
        let (g2, to) = resolve_target(g1, targets.last());
        assert(grows(g1, g2));
    }
}

proof fn lemma_fields_step_keeps_nodes(
    g: GraphV,
    from: int,
    decls: Seq<(Seq<char>, Seq<char>)>,
    fields: Seq<(Seq<char>, Seq<Seq<char>>)>,
    rel: Option<Seq<char>>,
)
    ensures
        grows(g, fields_step(g, from, decls, fields, rel)),
    decreases fields.len(),
{
    if fields.len() > 0 {
        lemma_fields_step_keeps_nodes(g, from, decls, fields.drop_last(), rel);
        let g1 = fields_step(g, from, decls, fields.drop_last(), rel);
        let f = fields.last();
        lemma_link_all_keeps_nodes(g1, from, f.1, relation_from(decls, f.0, 0));
    }
}

proof fn lemma_docs_step_keeps_nodes(g: GraphV, docs: Seq<DocV>, rel: Option<Seq<char>>)
    ensures
        grows(g, docs_step(g, docs, rel)),
    decreases docs.len(),
{
    if docs.len() > 0 {
        lemma_docs_step_keeps_nodes(g, docs.drop_last(), rel);
        let g1 = docs_step(g, docs.drop_last(), rel);
        let d = docs.last();
        match last_with_slug(g1.0, d.0) {
            None => {},
            Some(from) => {
                lemma_fields_step_keeps_nodes(g1, from, d.4, d.5, rel);
                let g2 = fields_step(g1, from, d.4, d.5, rel);
                lemma_link_all_keeps_nodes(g2, from, d.3, links_to());
            },
        }
    }
}

/// The pages the type filter keeps are the pages whose type it lets through,
/// in their order.
pub proof fn law_kept_docs_filter(docs: Seq<DocV>, types: Seq<Seq<char>>)
    ensures
        kept_docs(docs, types) == docs.filter(|d: DocV| type_ok(types, d.2)),
    decreases docs.len(),
{
    reveal_with_fuel(Seq::filter, 1);
    if docs.len() > 0 {
        law_kept_docs_filter(docs.drop_last(), types);
    }
}

/// Without a root, the built graph starts with one node per kept page, in
/// order, each carrying that page's own slug, title and type and marked as a
/// local page (not external).
pub proof fn law_built_graph_page_nodes(
    docs: Seq<DocV>,
    types: Seq<Seq<char>>,
    rel: Option<Seq<char>>,
    depth: Option<usize>,
)
    ensures
        ({
            let g = built_graph(docs, types, rel, None, depth);
            let kept = kept_docs(docs, types);
            &&& kept.len() <= g.0.len()
            &&& forall|i: int|
                0 <= i < kept.len() ==> (#[trigger] g.0[i]).0 == kept[i].0 && g.0[i].1 == kept[i].1
                    && g.0[i].2 == kept[i].2 && !g.0[i].3
        }),
{
    let kept = kept_docs(docs, types);
    let base = kept.map_values(|d: DocV| doc_node(d));
    let g0: GraphV = (base, Seq::empty());
    lemma_docs_step_keeps_nodes(g0, kept, rel);
    let g = built_graph(docs, types, rel, None, depth);
    assert(g == docs_step(g0, kept, rel));
    assert forall|i: int| 0 <= i < kept.len() implies (#[trigger] g.0[i]).0 == kept[i].0 && g.0[i].1
        == kept[i].1 && g.0[i].2 == kept[i].2 && !g.0[i].3 by {
        assert(g.0[i] == g0.0[i]);
        assert(g0.0[i] == doc_node(kept[i]));
    }
}

} // verus!
