//! Related-page suggestions: which page is asked about, which pages share its
//! tags, lie two hops away in the graph or sit in its community, and which
//! frontmatter field a suggested link belongs in.
use vstd::prelude::*;

use crate::communities::{community_in, CommunityData};
use crate::config::GlobalConfig;
use crate::edge_targets::{decl_full_view, DeclV};
use crate::graph::{edges_in_range, EdgeV, NodeV, WikiGraph};
use crate::graph_build::EdgeDecl;
use crate::links::views;
use crate::render::{join, join_strings};
use crate::render_llms::{sort_strings, sorted_strs};
use crate::slug::{
    check_slug, opt_str_view, resolve_uri, scheme, Slug, WikiError, WikiFailure, WikiUri,
};
use crate::text::{has_prefix, push_str, str_eq};

verus! {

// ── The page asked about ─────────────────────────────────────────────────────

/// The wiki and slug a suggestion request is about: a `wiki://` URI resolves
/// as `WikiUri::resolve` does (giving the entry's name); a bare slug is taken
/// in the wiki named by the flag, else the default wiki.
pub open spec fn subject_of(
    input: Seq<char>,
    flag: Option<Seq<char>>,
    global: GlobalConfig,
) -> Result<(Seq<char>, Seq<char>), WikiFailure> {
    if has_prefix(input, scheme()) {
        match resolve_uri(input, flag, global.wikis@, global.global.default_wiki@) {
            Ok((i, sl)) => Ok((global.wikis@[i].name@, sl)),
            Err(f) => Err(f),
        }
    } else {
        let name = match flag {
            Some(f) => Some(f),
            None => if global.global.default_wiki@.len() == 0 {
                None
            } else {
                Some(global.global.default_wiki@)
            },
        };
        match name {
            None => Err(WikiFailure::NoDefaultWiki),
            Some(n) => match check_slug(input) {
                Ok(sl) => Ok((n, sl)),
                Err(k) => Err(WikiFailure::InvalidSlug(k)),
            },
        }
    }
}

/// The wiki name and slug a suggestion request is about.
pub fn suggest_subject(slug_or_uri: &str, wiki_flag: Option<&str>, global: &GlobalConfig) -> (r:
    Result<(String, Slug), WikiError>)
    ensures
        match subject_of(slug_or_uri@, opt_str_view(wiki_flag), *global) {
            Ok((w, s)) => r matches Ok((name, slug)) && name@ == w && slug@ == s,
            Err(f) => r matches Err(e) && e.kind() == f,
        },
{
    let cs = crate::text::to_chars(slug_or_uri);
    let sch = crate::text::to_chars("wiki://");
    proof {
        reveal_strlit("wiki://");
        assert("wiki://"@ =~= scheme());
        crate::links::lemma_prefix_at(cs@, 0, scheme());
        assert(cs@.subrange(0, cs@.len() as int) =~= cs@);
    }
    if crate::text::occurs_at_exec(&cs, 0, &sch) {
        let (entry, slug) = WikiUri::resolve(slug_or_uri, wiki_flag, global)?;
        Ok((entry.name, slug))
    } else {
        let name: String = match wiki_flag {
            Some(f) => f.to_owned(),
            None => match global.global.default_wiki_opt() {
                Some(d) => d.to_owned(),
                None => {
                    return Err(WikiError::NoDefaultWiki);
                },
            },
        };
        match Slug::try_from(slug_or_uri) {
            Ok(slug) => Ok((name, slug)),
            Err(e) => Err(WikiError::InvalidSlug(e)),
        }
    }
}

/// The `wiki://` URI of a page.
pub fn suggestion_uri(wiki: &str, slug: &str) -> (r: String)
    ensures
        r@ == "wiki://"@ + wiki@ + "/"@ + slug@,
{
    let mut u = "wiki://".to_string();
    push_str(&mut u, wiki);
    push_str(&mut u, "/");
    push_str(&mut u, slug);
    u
}

// ── Shared tags ──────────────────────────────────────────────────────────────

/// The tags of `tags` (in order, repeats kept) that are among `input`.
pub open spec fn shared(tags: Seq<Seq<char>>, input: Seq<Seq<char>>) -> Seq<Seq<char>>
    decreases tags.len(),
{
    if tags.len() == 0 {
        Seq::empty()
    } else if input.contains(tags.last()) {
        shared(tags.drop_last(), input).push(tags.last())
    } else {
        shared(tags.drop_last(), input)
    }
}

fn contains_string(v: &Vec<String>, s: &str) -> (r: bool)
    ensures
        r == views(v@).contains(s@),
{
    let mut i: usize = 0;
    while i < v.len()
        invariant
            i <= v@.len(),
            forall|k: int| 0 <= k < i ==> v@[k]@ != s@,
        decreases v@.len() - i,
    {
        if str_eq(v[i].as_str(), s) {
            proof {
                assert(views(v@)[i as int] == s@);
            }
            return true;
        }
        i += 1;
    }
    proof {
        assert forall|k: int| 0 <= k < views(v@).len() implies views(v@)[k] != s@ by {
            assert(views(v@)[k] == v@[k]@);
        }
    }
    false
}

/// A candidate page's tags that the page asked about has too, in the
/// candidate's order.
pub fn shared_tags(candidate_tags: &Vec<String>, input_tags: &Vec<String>) -> (r: Vec<String>)
    ensures
        views(r@) == shared(views(candidate_tags@), views(input_tags@)),
{
    let ghost tv = views(candidate_tags@);
    let mut out: Vec<String> = Vec::new();
    let mut i: usize = 0;
    while i < candidate_tags.len()
        invariant
            i <= candidate_tags@.len(),
            tv == views(candidate_tags@),
            views(out@) == shared(tv.take(i as int), views(input_tags@)),
        decreases candidate_tags@.len() - i,
    {
        proof {
            assert(tv.take(i as int + 1).drop_last() =~= tv.take(i as int));
            assert(tv.take(i as int + 1).last() == candidate_tags@[i as int]@);
        }
        if contains_string(input_tags, candidate_tags[i].as_str()) {
            let ghost before = views(out@);
            out.push(candidate_tags[i].clone());
            proof {
                assert(views(out@) =~= before.push(candidate_tags@[i as int]@));
            }
        }
        i += 1;
    }
    proof {
        assert(tv.take(candidate_tags@.len() as int) =~= tv);
    }
    out
}

/// The reason given for a tag-overlap suggestion.
pub fn shared_tags_reason(tags: &Vec<String>) -> (r: String)
    ensures
        r@ == "shares tags: "@ + join(views(tags@), ", "@),
{
    let mut out = "shares tags: ".to_string();
    let list = join_strings(tags, ", ");
    push_str(&mut out, list.as_str());
    out
}

// ── Two hops away ────────────────────────────────────────────────────────────

/// Some edge joins `a` and `b`, in either direction.
pub open spec fn adjacent(edges: Seq<EdgeV>, a: int, b: int) -> bool {
    exists|e: int|
        0 <= e < edges.len() && ((#[trigger] edges[e].0 == a && edges[e].1 == b) || (edges[e].0 == b
            && edges[e].1 == a))
}

/// Page `n` is two hops from `root` and no closer, and not already linked
/// (its slug is not in `linked`).
pub open spec fn two_hop(nodes: Seq<NodeV>, edges: Seq<EdgeV>, root: int, linked: Seq<Seq<char>>, n: int) -> bool {
    &&& 0 <= n < nodes.len()
    &&& n != root
    &&& !adjacent(edges, root, n)
    &&& exists|m: int| #[trigger] adjacent(edges, root, m) && adjacent(edges, m, n)
    &&& !linked.contains(nodes[n].0)
}

/// Some edge among the first `f` joins a neighbour of `root` to `x`.
spec fn reached_within(edges: Seq<EdgeV>, root: int, f: int, x: int) -> bool {
    exists|e: int|
        0 <= e < f && ((adjacent(edges, root, #[trigger] edges[e].0) && edges[e].1 == x) || (
        adjacent(edges, root, edges[e].1) && edges[e].0 == x))
}

/// Among the first `f` edges, one joins `root` and `x`.
spec fn near_within(edges: Seq<EdgeV>, root: int, f: int, x: int) -> bool {
    exists|e: int|
        0 <= e < f && ((#[trigger] edges[e].0 == root && edges[e].1 == x) || (edges[e].0 == x
            && edges[e].1 == root))
}

fn mark_neighbours(graph: &WikiGraph, root: usize) -> (near: Vec<bool>)
    requires
        root < graph.nodes().len(),
    ensures
        near@.len() == graph.nodes().len(),
        forall|x: int| 0 <= x < near@.len() ==> #[trigger] near@[x] == adjacent(graph.edge_list(), root as int, x),
{
    graph.lemma_wf();
    let ghost edges = graph.edge_list();
    let n = graph.node_count();
    let ne = graph.edge_count();
    let mut near: Vec<bool> = Vec::new();
    let mut i: usize = 0;
    while i < n
        invariant
            i <= n,
            near@.len() == i,
            forall|k: int| 0 <= k < i ==> !(#[trigger] near@[k]),
        decreases n - i,
    {
        near.push(false);
        i += 1;
    }
    let mut e: usize = 0;
    while e < ne
        invariant
            e <= ne,
            ne == edges.len(),
            n == graph.nodes().len(),
            edges == graph.edge_list(),
            edges_in_range(n as int, edges),
            near@.len() == n,
            forall|x: int| 0 <= x < n ==> #[trigger] near@[x] == near_within(edges, root as int, e as int, x),
        decreases ne - e,
    {
        let (a, b, _) = graph.edge(e);
        assert(0 <= edges[e as int].0 < n && 0 <= edges[e as int].1 < n);
        let ghost before = near@;
        if a == root {
            near.set(b, true);
        }
        if b == root {
            near.set(a, true);
        }
        proof {
            assert forall|x: int| 0 <= x < n implies #[trigger] near@[x] == near_within(
                edges,
                root as int,
                e + 1,
                x,
            ) by {
                if near_within(edges, root as int, e as int, x) {
                    let w = choose|w: int|
                        0 <= w < e && ((#[trigger] edges[w].0 == root && edges[w].1 == x) || (
                        edges[w].0 == x && edges[w].1 == root));
                    assert(0 <= w < e + 1);
                }
                if near_within(edges, root as int, e + 1, x) && !near_within(edges, root as int, e as int, x) {
                    let w = choose|w: int|
                        0 <= w < e + 1 && ((#[trigger] edges[w].0 == root && edges[w].1 == x) || (
                        edges[w].0 == x && edges[w].1 == root));
                    assert(w == e);
                }
                if (a == root && x == b) || (b == root && x == a) {
                    assert(edges[e as int].0 == a && edges[e as int].1 == b);
                }
            }
        }
        e += 1;
    }
    proof {
        assert forall|x: int| 0 <= x < n implies near_within(edges, root as int, ne as int, x)
            == adjacent(edges, root as int, x) by {
            if adjacent(edges, root as int, x) {
                let w = choose|w: int|
                    0 <= w < edges.len() && ((#[trigger] edges[w].0 == root && edges[w].1 == x) || (
                    edges[w].0 == x && edges[w].1 == root));
                assert(0 <= w < ne);
            }
            if near_within(edges, root as int, ne as int, x) {
                let w = choose|w: int|
                    0 <= w < ne && ((#[trigger] edges[w].0 == root && edges[w].1 == x) || (
                    edges[w].0 == x && edges[w].1 == root));
                assert(0 <= w < edges.len());
            }
        }
    }
    near
}

/// The pages two hops from `root` (and no closer) whose slugs are not among
/// `linked`, in strictly increasing index order (so none twice), each with a
/// neighbour of `root` it is reached through.
pub fn two_hop_candidates(graph: &WikiGraph, root: usize, linked: &Vec<String>) -> (r: Vec<(usize, usize)>)
    requires
        root < graph.nodes().len(),
    ensures
        forall|k: int|
            0 <= k < r@.len() ==> two_hop(graph.nodes(), graph.edge_list(), root as int, views(linked@), #[trigger] r@[k].0 as int)
                && adjacent(graph.edge_list(), root as int, r@[k].1 as int) && adjacent(
                graph.edge_list(),
                r@[k].1 as int,
                r@[k].0 as int,
            ),
        forall|n: int|
            two_hop(graph.nodes(), graph.edge_list(), root as int, views(linked@), n) ==> exists|k: int|
                0 <= k < r@.len() && (#[trigger] r@[k]).0 == n,
        forall|a: int, b: int| 0 <= a < b < r@.len() ==> (#[trigger] r@[a]).0 < (#[trigger] r@[b]).0,
{
    graph.lemma_wf();
    let ghost nodes = graph.nodes();
    let ghost edges = graph.edge_list();
    let n = graph.node_count();
    let ne = graph.edge_count();
    let near = mark_neighbours(graph, root);
    // through[x] == n: no way found yet
    let mut through: Vec<usize> = Vec::new();
    let mut i: usize = 0;
    while i < n
        invariant
            i <= n,
            through@.len() == i,
            forall|k: int| 0 <= k < i ==> #[trigger] through@[k] == n,
        decreases n - i,
    {
        through.push(n);
        i += 1;
    }
    let mut e: usize = 0;
    while e < ne
        invariant
            e <= ne,
            ne == edges.len(),
            n == nodes.len(),
            nodes == graph.nodes(),
            edges == graph.edge_list(),
            edges_in_range(n as int, edges),
            near@.len() == n,
            forall|x: int| 0 <= x < n ==> #[trigger] near@[x] == adjacent(edges, root as int, x),
            through@.len() == n,
            forall|x: int|
                0 <= x < n ==> (#[trigger] through@[x] == n <==> !reached_within(edges, root as int, e as int, x)),
            forall|x: int|
                0 <= x < n && #[trigger] through@[x] != n ==> through@[x] < n && adjacent(edges, root as int, through@[x] as int)
                    && adjacent(edges, through@[x] as int, x),
        decreases ne - e,
    {
        let (a, b, _) = graph.edge(e);
        assert(0 <= edges[e as int].0 < n && 0 <= edges[e as int].1 < n);
        let ghost before = through@;
        proof {
            assert(adjacent(edges, a as int, b as int));
            assert(adjacent(edges, b as int, a as int));
        }
        if near[a] && through[b] == n {
            through.set(b, a);
        }
        if near[b] && through[a] == n {
            through.set(a, b);
        }
        proof {
            assert forall|x: int| 0 <= x < n implies (#[trigger] through@[x] == n <==> !reached_within(
                edges,
                root as int,
                e + 1,
                x,
            )) by {
                if reached_within(edges, root as int, e as int, x) {
                    let w = choose|w: int|
                        0 <= w < e && ((adjacent(edges, root as int, #[trigger] edges[w].0) && edges[w].1
                            == x) || (adjacent(edges, root as int, edges[w].1) && edges[w].0 == x));
                    assert(0 <= w < e + 1);
                }
                if reached_within(edges, root as int, e + 1, x) && !reached_within(edges, root as int, e as int, x) {
                    let w = choose|w: int|
                        0 <= w < e + 1 && ((adjacent(edges, root as int, #[trigger] edges[w].0)
                            && edges[w].1 == x) || (adjacent(edges, root as int, edges[w].1) && edges[w].0
                            == x));
                    assert(w == e);
                }
                if (near@[a as int] && x == b) || (near@[b as int] && x == a) {
                    assert(edges[e as int].0 == a && edges[e as int].1 == b);
                    assert(reached_within(edges, root as int, e + 1, x));
                }
            }
        }
        e += 1;
    }
    let mut out: Vec<(usize, usize)> = Vec::new();
    let mut x: usize = 0;
    while x < n
        invariant
            x <= n,
            ne == edges.len(),
            n == nodes.len(),
            nodes == graph.nodes(),
            edges == graph.edge_list(),
            near@.len() == n,
            forall|y: int| 0 <= y < n ==> #[trigger] near@[y] == adjacent(edges, root as int, y),
            through@.len() == n,
            forall|y: int|
                0 <= y < n ==> (#[trigger] through@[y] == n <==> !reached_within(edges, root as int, ne as int, y)),
            forall|y: int|
                0 <= y < n && #[trigger] through@[y] != n ==> through@[y] < n && adjacent(edges, root as int, through@[y] as int)
                    && adjacent(edges, through@[y] as int, y),
            forall|k: int|
                0 <= k < out@.len() ==> two_hop(nodes, edges, root as int, views(linked@), #[trigger] out@[k].0 as int)
                    && adjacent(edges, root as int, out@[k].1 as int) && adjacent(edges, out@[k].1 as int, out@[k].0 as int)
                    && out@[k].0 < x,
            forall|y: int|
                0 <= y < x && two_hop(nodes, edges, root as int, views(linked@), y) ==> exists|k: int|
                    0 <= k < out@.len() && (#[trigger] out@[k]).0 == y,
            forall|a: int, b: int| 0 <= a < b < out@.len() ==> (#[trigger] out@[a]).0 < (#[trigger] out@[b]).0,
        decreases n - x,
    {
        let ghost xi = x as int;
        proof {
            // reached through some edge <==> two steps away through some neighbour
            if reached_within(edges, root as int, ne as int, xi) {
                let w = choose|w: int|
                    0 <= w < ne && ((adjacent(edges, root as int, #[trigger] edges[w].0) && edges[w].1 == xi)
                        || (adjacent(edges, root as int, edges[w].1) && edges[w].0 == xi));
                if adjacent(edges, root as int, edges[w].0) && edges[w].1 == xi {
                    assert(adjacent(edges, edges[w].0, xi));
                    assert(adjacent(edges, root as int, edges[w].0) && adjacent(edges, edges[w].0, xi));
                } else {
                    assert(adjacent(edges, edges[w].1, xi));
                    assert(adjacent(edges, root as int, edges[w].1) && adjacent(edges, edges[w].1, xi));
                }
            }
            if exists|m: int| #[trigger] adjacent(edges, root as int, m) && adjacent(edges, m, xi) {
                let m = choose|m: int| #[trigger] adjacent(edges, root as int, m) && adjacent(edges, m, xi);
                let w = choose|w: int|
                    0 <= w < edges.len() && ((#[trigger] edges[w].0 == m && edges[w].1 == xi) || (edges[w].0
                        == xi && edges[w].1 == m));
                assert(reached_within(edges, root as int, ne as int, xi));
            }
        }
        let slug = graph.node(x).slug.as_str();
        if x != root && !near[x] && through[x] != n && !contains_string(linked, slug) {
            let ghost before = out@;
            out.push((x, through[x]));
            proof {
                assert(out@[before.len() as int] == (x, through@[xi]));
                assert forall|k: int| 0 <= k < out@.len() implies two_hop(
                    nodes,
                    edges,
                    root as int,
                    views(linked@),
                    #[trigger] out@[k].0 as int,
                ) && adjacent(edges, root as int, out@[k].1 as int) && adjacent(
                    edges,
                    out@[k].1 as int,
                    out@[k].0 as int,
                ) && out@[k].0 < x + 1 by {
                    if k < before.len() {
                        assert(out@[k] == before[k]);
                    }
                }
                assert forall|y: int|
                    0 <= y < x + 1 && two_hop(nodes, edges, root as int, views(linked@), y) implies exists|k: int|
                    0 <= k < out@.len() && (#[trigger] out@[k]).0 == y by {
                    if y < x {
                        let k = choose|k: int| 0 <= k < before.len() && (#[trigger] before[k]).0 == y;
                        assert(out@[k] == before[k]);
                    } else {
                        assert(out@[before.len() as int].0 == y);
                    }
                }
            }
        } else {
            proof {
                assert forall|y: int|
                    0 <= y < x + 1 && two_hop(nodes, edges, root as int, views(linked@), y) implies exists|k: int|
                    0 <= k < out@.len() && (#[trigger] out@[k]).0 == y by {
                    if y == x {
                        assert(nodes[xi] == nodes[y]);
                    }
                }
            }
        }
        x += 1;
    }
    out
}

// ── Community peers ──────────────────────────────────────────────────────────

/// The peers of community `c`: the map's slugs in community `c` other than
/// `slug`, not among `linked` nor `taken`, in map order.
pub open spec fn peers_of(
    m: Seq<(String, usize)>,
    c: usize,
    slug: Seq<char>,
    linked: Seq<Seq<char>>,
    taken: Seq<Seq<char>>,
) -> Seq<Seq<char>>
    decreases m.len(),
{
    if m.len() == 0 {
        Seq::empty()
    } else {
        let rest = peers_of(m.drop_last(), c, slug, linked, taken);
        let p = m.last();
        if p.1 == c && p.0@ != slug && !linked.contains(p.0@) && !taken.contains(p.0@) {
            rest.push(p.0@)
        } else {
            rest
        }
    }
}

/// Up to `limit` pages of `slug`'s community, not `slug` itself nor among
/// `linked` or `taken`, in ascending order. Empty when `slug` has no community.
pub fn community_peers(
    data: &CommunityData,
    slug: &str,
    linked: &Vec<String>,
    taken: &Vec<String>,
    limit: usize,
) -> (r: Vec<String>)
    ensures
        match community_in(data.map@, slug@, 0) {
            Some(c) => {
                let all = sorted_strs(peers_of(data.map@, c, slug@, views(linked@), views(taken@)));
                views(r@) == if all.len() > limit {
                    all.take(limit as int)
                } else {
                    all
                }
            },
            None => r@.len() == 0,
        },
{
    let mine = match data.community_of(slug) {
        Some(c) => c,
        None => {
            return Vec::new();
        },
    };
    let mut peers: Vec<String> = Vec::new();
    let mut i: usize = 0;
    while i < data.map.len()
        invariant
            i <= data.map@.len(),
            views(peers@) == peers_of(data.map@.take(i as int), mine, slug@, views(linked@), views(taken@)),
        decreases data.map@.len() - i,
    {
        proof {
            assert(data.map@.take(i as int + 1).drop_last() =~= data.map@.take(i as int));
            assert(data.map@.take(i as int + 1).last() == data.map@[i as int]);
        }
        let p = &data.map[i];
        if p.1 == mine && !str_eq(p.0.as_str(), slug) && !contains_string(linked, p.0.as_str())
            && !contains_string(taken, p.0.as_str()) {
            let ghost before = views(peers@);
            peers.push(p.0.clone());
            proof {
                assert(views(peers@) =~= before.push(p.0@));
            }
        }
        i += 1;
    }
    proof {
        assert(data.map@.take(data.map@.len() as int) =~= data.map@);
    }
    let sorted = sort_strings(&peers);
    proof {
        assert(views(sorted@) == sorted_strs(views(peers@)));
    }
    let mut out: Vec<String> = Vec::new();
    let mut k: usize = 0;
    while k < sorted.len() && k < limit
        invariant
            k <= sorted@.len(),
            k <= limit,
            views(out@) == views(sorted@).take(k as int),
        decreases sorted@.len() - k,
    {
        let ghost before = views(out@);
        out.push(sorted[k].clone());
        proof {
            assert(views(sorted@)[k as int] == sorted@[k as int]@);
            assert(views(out@) =~= before.push(sorted@[k as int]@));
            assert(views(out@) =~= views(sorted@).take(k as int + 1));
        }
        k += 1;
    }
    proof {
        if views(sorted@).len() <= limit {
            assert(views(sorted@).take(k as int) =~= views(sorted@));
        }
    }
    out
}

// ── The field a suggested link goes in ───────────────────────────────────────

/// Page types that are sources.
pub open spec fn source_types() -> Seq<Seq<char>> {
    seq![
        "paper"@,
        "article"@,
        "documentation"@,
        "clipping"@,
        "transcript"@,
        "note"@,
        "data"@,
        "book-chapter"@,
        "thread"@,
    ]
}

/// `t` is a source type.
pub open spec fn is_source(t: Seq<char>) -> bool {
    source_types().contains(t)
}

fn is_source_type(t: &str) -> (r: bool)
    ensures
        r == is_source(t@),
{
    let names = [
        "paper",
        "article",
        "documentation",
        "clipping",
        "transcript",
        "note",
        "data",
        "book-chapter",
        "thread",
    ];
    let mut i: usize = 0;
    while i < 9
        invariant
            i <= 9,
            names@.map_values(|s: &str| s@) == source_types(),
            forall|k: int| 0 <= k < i ==> source_types()[k] != t@,
        decreases 9 - i,
    {
        proof {
            assert(names@.map_values(|s: &str| s@)[i as int] == names@[i as int]@);
        }
        if str_eq(names[i], t) {
            return true;
        }
        i += 1;
    }
    false
}

/// The field for a link to a page of type `candidate` from a page whose type
/// declares `decls`: the first declaration that lists `candidate` among its
/// target types, or (for a source candidate) lists any source type; else
/// `[[wikilink]]`.
pub open spec fn field_for(decls: Seq<DeclV>, candidate: Seq<char>, i: int) -> Seq<char>
    decreases decls.len() - i,
{
    if i < 0 || i >= decls.len() {
        "[[wikilink]]"@
    } else if decls[i].2.contains(candidate) || (is_source(candidate) && exists|k: int|
        0 <= k < decls[i].2.len() && is_source(#[trigger] decls[i].2[k])) {
        decls[i].0
    } else {
        field_for(decls, candidate, i + 1)
    }
}

/// The frontmatter field a suggested link to a page of type `candidate_type`
/// belongs in, given the edge declarations of the suggesting page's type.
pub fn suggest_field(decls: &Vec<EdgeDecl>, candidate_type: &str) -> (r: String)
    ensures
        r@ == field_for(decls@.map_values(|d: EdgeDecl| decl_full_view(d)), candidate_type@, 0),
{
    let ghost dv = decls@.map_values(|d: EdgeDecl| decl_full_view(d));
    let cand_source = is_source_type(candidate_type);
    let mut i: usize = 0;
    while i < decls.len()
        invariant
            i <= decls@.len(),
            dv == decls@.map_values(|d: EdgeDecl| decl_full_view(d)),
            cand_source == is_source(candidate_type@),
            field_for(dv, candidate_type@, 0) == field_for(dv, candidate_type@, i as int),
        decreases decls@.len() - i,
    {
        let d = &decls[i];
        proof {
            assert(dv[i as int] == decl_full_view(*d));
        }
        if contains_string(&d.target_types, candidate_type) {
            return d.field.clone();
        }
        if cand_source {
            let mut k: usize = 0;
            while k < d.target_types.len()
                invariant
                    k <= d.target_types@.len(),
                    i < decls@.len(),
                    dv == decls@.map_values(|d: EdgeDecl| decl_full_view(d)),
                    *d == decls@[i as int],
                    cand_source,
                    cand_source == is_source(candidate_type@),
                    field_for(dv, candidate_type@, 0) == field_for(dv, candidate_type@, i as int),
                    dv[i as int].2 == views(d.target_types@),
                    !dv[i as int].2.contains(candidate_type@),
                    forall|q: int| 0 <= q < k ==> !is_source(#[trigger] views(d.target_types@)[q]),
                decreases d.target_types@.len() - k,
            {
                if is_source_type(d.target_types[k].as_str()) {
                    proof {
                        assert(views(d.target_types@)[k as int] == d.target_types@[k as int]@);
                        assert(is_source(dv[i as int].2[k as int]));
                    }
                    return d.field.clone();
                }
                proof {
                    assert(views(d.target_types@)[k as int] == d.target_types@[k as int]@);
                }
                k += 1;
            }
        }
        i += 1;
    }
    "[[wikilink]]".to_string()
}

} // verus!
