//! A plain-language description of the concept graph for language models.
use vstd::prelude::*;

use crate::graph::{edges_in_range, incident_ids, Direction, EdgeV, NodeV, WikiGraph};
use crate::lint_report::{str_less, str_lt};
use crate::links::views;
use crate::render::{decimal, decimal_string, decimal_u64, join, join_strings};
use crate::text::{push_str, str_eq};

verus! {

// ── Tallies ──────────────────────────────────────────────────────────────────

/// The distinct strings of `s`, in order of first appearance.
pub open spec fn distinct(s: Seq<Seq<char>>) -> Seq<Seq<char>>
    decreases s.len(),
{
    if s.len() == 0 {
        Seq::empty()
    } else {
        let rest = distinct(s.drop_last());
        if rest.contains(s.last()) {
            rest
        } else {
            rest.push(s.last())
        }
    }
}

/// How often `x` occurs in `s`.
pub open spec fn count_of(s: Seq<Seq<char>>, x: Seq<char>) -> nat
    decreases s.len(),
{
    if s.len() == 0 {
        0
    } else {
        count_of(s.drop_last(), x) + if s.last() == x {
            1nat
        } else {
            0nat
        }
    }
}

/// Each distinct string of `s` with the number of its occurrences.
pub open spec fn tally(s: Seq<Seq<char>>) -> Seq<(nat, Seq<char>)> {
    distinct(s).map_values(|x: Seq<char>| (count_of(s, x), x))
}

/// Counted strings as values.
pub open spec fn pair_views(v: Seq<(u64, String)>) -> Seq<(nat, Seq<char>)> {
    v.map_values(|p: (u64, String)| (p.0 as nat, p.1@))
}

proof fn lemma_distinct_unique(s: Seq<Seq<char>>)
    ensures
        forall|a: int, b: int| 0 <= a < b < distinct(s).len() ==> distinct(s)[a] != distinct(s)[b],
    decreases s.len(),
{
    if s.len() > 0 {
        lemma_distinct_unique(s.drop_last());
        let rest = distinct(s.drop_last());
        if !rest.contains(s.last()) {
            assert forall|a: int, b: int| 0 <= a < b < distinct(s).len() implies distinct(s)[a]
                != distinct(s)[b] by {
                if b == rest.len() {
                    assert(distinct(s)[a] == rest[a]);
                }
            }
        }
    }
}

proof fn lemma_count_absent(s: Seq<Seq<char>>, x: Seq<char>)
    requires
        !distinct(s).contains(x),
    ensures
        count_of(s, x) == 0,
    decreases s.len(),
{
    if s.len() > 0 {
        let rest = distinct(s.drop_last());
        if rest.contains(x) {
            let k = choose|k: int| 0 <= k < rest.len() && rest[k] == x;
            assert(distinct(s)[k] == x);
        }
        if s.last() == x {
            if rest.contains(x) {
            } else {
                assert(distinct(s)[rest.len() as int] == x);
            }
        }
        lemma_count_absent(s.drop_last(), x);
    }
}

proof fn lemma_count_le(s: Seq<Seq<char>>, x: Seq<char>)
    ensures
        count_of(s, x) <= s.len(),
    decreases s.len(),
{
    if s.len() > 0 {
        lemma_count_le(s.drop_last(), x);
    }
}

/// Each distinct key with the number of its occurrences, in order of first appearance.
pub(crate) fn tally_strings(keys: &Vec<String>) -> (r: Vec<(u64, String)>)
    ensures
        pair_views(r@) == tally(views(keys@)),
{
    let ghost kv = views(keys@);
    let mut out: Vec<(u64, String)> = Vec::new();
    let mut i: usize = 0;
    while i < keys.len()
        invariant
            i <= keys.len(),
            kv == views(keys@),
            pair_views(out@) == tally(kv.take(i as int)),
            forall|k: int| 0 <= k < out@.len() ==> #[trigger] out@[k].0 <= i,
        decreases keys.len() - i,
    {
        let ghost t0 = kv.take(i as int);
        let ghost t1 = kv.take(i as int + 1);
        proof {
            assert(t1.drop_last() =~= t0);
            assert(t1.last() == keys@[i as int]@);
        }
        let key = keys[i].as_str();
        let ghost dv = distinct(t0);
        proof {
            assert(pair_views(out@).len() == out@.len());
        }
        let mut k: usize = 0;
        while k < out.len() && !str_eq(out[k].1.as_str(), key)
            invariant
                k <= out@.len() == dv.len(),
                dv == distinct(t0),
                pair_views(out@) == tally(t0),
                forall|j: int| 0 <= j < k ==> dv[j] != key@,
            decreases out@.len() - k,
        {
            proof {
                assert(pair_views(out@)[k as int].1 == out@[k as int].1@);
            }
            k += 1;
        }
        let ghost before = out@;
        if k < out.len() {
            proof {
                assert(pair_views(out@)[k as int].1 == out@[k as int].1@);
                assert(dv[k as int] == key@);
                assert(distinct(t1) == dv);
                lemma_count_le(t0, key@);
            }
            let (c, name) = out.remove(k);
            out.insert(k, (c + 1, name));
            proof {
                lemma_distinct_unique(t0);
                assert forall|j: int| 0 <= j < out@.len() implies #[trigger] pair_views(out@)[j]
                    == tally(t1)[j] by {
                    assert(tally(t0)[j] == pair_views(before)[j]);
                    if j != k {
                        assert(out@[j] == before[j]);
                    }
                }
                assert(pair_views(out@) =~= tally(t1));
            }
        } else {
            proof {
                assert(!dv.contains(key@));
                assert(distinct(t1) == dv.push(key@));
                lemma_count_absent(t0, key@);
            }
            out.push((1, keys[i].clone()));
            proof {
                assert forall|j: int| 0 <= j < out@.len() implies #[trigger] pair_views(out@)[j]
                    == tally(t1)[j] by {
                    if j < before.len() {
                        assert(tally(t0)[j] == pair_views(before)[j]);
                        assert(out@[j] == before[j]);
                    }
                }
                assert(pair_views(out@) =~= tally(t1));
            }
        }
        i += 1;
    }
    proof {
        assert(kv.take(keys.len() as int) =~= kv);
    }
    out
}

// ── Ordering ─────────────────────────────────────────────────────────────────

/// `a` sorts before `b`: by larger count first, then (with `by_name`) by name.
pub open spec fn plt(a: (nat, Seq<char>), b: (nat, Seq<char>), by_name: bool) -> bool {
    a.0 > b.0 || (by_name && a.0 == b.0 && str_lt(a.1, b.1))
}

/// Where `x` goes in the sorted `s`.
pub open spec fn pair_pos(s: Seq<(nat, Seq<char>)>, x: (nat, Seq<char>), by_name: bool) -> int
    decreases s.len(),
{
    if s.len() == 0 {
        0
    } else if plt(x, s.last(), by_name) {
        pair_pos(s.drop_last(), x, by_name)
    } else {
        s.len() as int
    }
}

/// The pairs in stable order by `plt`.
pub open spec fn sort_pairs(s: Seq<(nat, Seq<char>)>, by_name: bool) -> Seq<(nat, Seq<char>)>
    decreases s.len(),
{
    if s.len() == 0 {
        Seq::empty()
    } else {
        let t = sort_pairs(s.drop_last(), by_name);
        t.insert(pair_pos(t, s.last(), by_name), s.last())
    }
}

proof fn lemma_pair_pos_bounds(s: Seq<(nat, Seq<char>)>, x: (nat, Seq<char>), by_name: bool)
    ensures
        0 <= pair_pos(s, x, by_name) <= s.len(),
    decreases s.len(),
{
    if s.len() > 0 {
        lemma_pair_pos_bounds(s.drop_last(), x, by_name);
    }
}

pub(crate) proof fn lemma_sort_pairs_len(s: Seq<(nat, Seq<char>)>, by_name: bool)
    ensures
        sort_pairs(s, by_name).len() == s.len(),
    decreases s.len(),
{
    if s.len() > 0 {
        lemma_sort_pairs_len(s.drop_last(), by_name);
        lemma_pair_pos_bounds(sort_pairs(s.drop_last(), by_name), s.last(), by_name);
    }
}

fn pair_less(a: &(u64, String), b: &(u64, String), by_name: bool) -> (r: bool)
    ensures
        r == plt((a.0 as nat, a.1@), (b.0 as nat, b.1@), by_name),
{
    a.0 > b.0 || (by_name && a.0 == b.0 && str_less(a.1.as_str(), b.1.as_str()))
}

/// Sort counted strings by larger count first, then (with `by_name`) by name,
/// keeping the order of equal keys.
pub(crate) fn sort_counted(v: Vec<(u64, String)>, by_name: bool) -> (r: Vec<(u64, String)>)
    ensures
        pair_views(r@) == sort_pairs(pair_views(v@), by_name),
{
    let ghost pv = pair_views(v@);
    let mut out: Vec<(u64, String)> = Vec::new();
    let mut i: usize = 0;
    while i < v.len()
        invariant
            i <= v.len(),
            pv == pair_views(v@),
            pair_views(out@) == sort_pairs(pv.take(i as int), by_name),
            out@.len() == i,
        decreases v.len() - i,
    {
        proof {
            assert(pv.take(i as int + 1).drop_last() =~= pv.take(i as int));
            assert(pv.take(i as int + 1).last() == (v@[i as int].0 as nat, v@[i as int].1@));
        }
        let x = (v[i].0, v[i].1.clone());
        let ghost xs = (x.0 as nat, x.1@);
        let ghost sorted = pair_views(out@);
        let mut p = out.len();
        proof {
            assert(sorted.take(p as int) =~= sorted);
        }
        while p > 0 && pair_less(&x, &out[p - 1], by_name)
            invariant
                p <= out@.len(),
                sorted == pair_views(out@),
                xs == (x.0 as nat, x.1@),
                pair_pos(sorted, xs, by_name) == pair_pos(sorted.take(p as int), xs, by_name),
            decreases p,
        {
            proof {
                let t = sorted.take(p as int);
                assert(t.drop_last() =~= sorted.take(p - 1));
                assert(t.last() == (out@[p - 1].0 as nat, out@[p - 1].1@));
            }
            p -= 1;
        }
        proof {
            if p > 0 {
                assert(sorted.take(p as int).last() == (out@[p - 1].0 as nat, out@[p - 1].1@));
            }
        }
        let ghost pos = p as int;
        out.insert(p, x);
        proof {
            assert(pair_views(out@) =~= sorted.insert(pos, xs));
        }
        i += 1;
    }
    proof {
        assert(pv.take(v.len() as int) =~= pv);
    }
    out
}

/// Sort strings into ascending order.
pub fn sort_strings(v: &Vec<String>) -> (r: Vec<String>)
    ensures
        views(r@) == sort_pairs(views(v@).map_values(|s: Seq<char>| (0nat, s)), true).map_values(
            |p: (nat, Seq<char>)| p.1,
        ),
{
    let mut pairs: Vec<(u64, String)> = Vec::new();
    let mut i: usize = 0;
    while i < v.len()
        invariant
            i <= v.len(),
            pair_views(pairs@) == views(v@).take(i as int).map_values(|s: Seq<char>| (0nat, s)),
        decreases v.len() - i,
    {
        let ghost before = pair_views(pairs@);
        pairs.push((0, v[i].clone()));
        proof {
            assert(pair_views(pairs@) =~= before.push((0nat, v@[i as int]@)));
            assert(views(v@).take(i as int + 1).map_values(|s: Seq<char>| (0nat, s)) =~= views(
                v@,
            ).take(i as int).map_values(|s: Seq<char>| (0nat, s)).push((0nat, v@[i as int]@)));
        }
        i += 1;
    }
    proof {
        assert(views(v@).take(v.len() as int) =~= views(v@));
    }
    let sorted = sort_counted(pairs, true);
    let mut out: Vec<String> = Vec::new();
    let mut k: usize = 0;
    while k < sorted.len()
        invariant
            k <= sorted.len(),
            views(out@) == pair_views(sorted@).take(k as int).map_values(|p: (nat, Seq<char>)| p.1),
        decreases sorted.len() - k,
    {
        let ghost before = views(out@);
        out.push(sorted[k].1.clone());
        proof {
            assert(views(out@) =~= before.push(sorted@[k as int].1@));
            assert(pair_views(sorted@).take(k as int + 1).map_values(|p: (nat, Seq<char>)| p.1)
                =~= pair_views(sorted@).take(k as int).map_values(|p: (nat, Seq<char>)| p.1).push(
                sorted@[k as int].1@,
            ));
        }
        k += 1;
    }
    proof {
        assert(pair_views(sorted@).take(sorted.len() as int) =~= pair_views(sorted@));
    }
    out
}

// ── The description ──────────────────────────────────────────────────────────

/// The degree of node `i`: edges leaving it plus edges entering it.
pub open spec fn degree(edges: Seq<EdgeV>, i: int) -> nat
    decreases edges.len(),
{
    if edges.len() == 0 {
        0
    } else {
        degree(edges.drop_last(), i) + (if edges.last().0 == i {
            1nat
        } else {
            0nat
        }) + (if edges.last().1 == i {
            1nat
        } else {
            0nat
        })
    }
}

/// The titles of the placeholder nodes, in index order.
pub open spec fn ext_titles(nodes: Seq<NodeV>) -> Seq<Seq<char>>
    decreases nodes.len(),
{
    if nodes.len() == 0 {
        Seq::empty()
    } else {
        ext_titles(nodes.drop_last()) + if nodes.last().3 {
            seq![nodes.last().1]
        } else {
            Seq::empty()
        }
    }
}

/// The types of the local nodes, in index order.
pub open spec fn local_types(nodes: Seq<NodeV>) -> Seq<Seq<char>>
    decreases nodes.len(),
{
    if nodes.len() == 0 {
        Seq::empty()
    } else {
        local_types(nodes.drop_last()) + if !nodes.last().3 {
            seq![nodes.last().2]
        } else {
            Seq::empty()
        }
    }
}

/// The titles of the local nodes of type `t`, in index order.
pub open spec fn type_titles(nodes: Seq<NodeV>, t: Seq<char>) -> Seq<Seq<char>>
    decreases nodes.len(),
{
    if nodes.len() == 0 {
        Seq::empty()
    } else {
        type_titles(nodes.drop_last(), t) + if !nodes.last().3 && nodes.last().2 == t {
            seq![nodes.last().1]
        } else {
            Seq::empty()
        }
    }
}

/// The titles of the nodes with no edges, in index order.
pub open spec fn isolated_titles(nodes: Seq<NodeV>, edges: Seq<EdgeV>) -> Seq<Seq<char>>
    decreases nodes.len(),
{
    if nodes.len() == 0 {
        Seq::empty()
    } else {
        isolated_titles(nodes.drop_last(), edges) + if degree(edges, nodes.len() - 1) == 0 {
            seq![nodes.last().1]
        } else {
            Seq::empty()
        }
    }
}

/// Strings in ascending order.
pub open spec fn sorted_strs(s: Seq<Seq<char>>) -> Seq<Seq<char>> {
    sort_pairs(s.map_values(|x: Seq<char>| (0nat, x)), true).map_values(|p: (nat, Seq<char>)| p.1)
}

/// The type groups: each type of a local node with its node count, the
/// largest group first, ties by type name.
pub open spec fn type_groups(nodes: Seq<NodeV>) -> Seq<(nat, Seq<char>)> {
    sort_pairs(tally(local_types(nodes)), true)
}

/// A sample of sorted titles: all of them, or the first eight and `...`.
pub open spec fn sample(titles: Seq<Seq<char>>) -> Seq<char> {
    if titles.len() > 8 {
        join(titles.take(8), ", "@) + ", ..."@
    } else {
        join(titles, ", "@)
    }
}

/// The line of one type group.
pub open spec fn group_line(nodes: Seq<NodeV>, g: (nat, Seq<char>)) -> Seq<char> {
    "**"@ + g.1 + "** ("@ + decimal(g.0) + " nodes): "@ + sample(sorted_strs(type_titles(nodes, g.1)))
        + "\n"@
}

/// The lines of the first `k` groups.
pub open spec fn group_lines(nodes: Seq<NodeV>, gs: Seq<(nat, Seq<char>)>) -> Seq<char>
    decreases gs.len(),
{
    if gs.len() == 0 {
        Seq::empty()
    } else {
        group_lines(nodes, gs.drop_last()) + group_line(nodes, gs.last())
    }
}

/// Each node's degree and title, in index order.
pub open spec fn degree_list(nodes: Seq<NodeV>, edges: Seq<EdgeV>) -> Seq<(nat, Seq<char>)> {
    Seq::new(nodes.len(), |i: int| (degree(edges, i), nodes[i].1))
}

/// The hub entries: the (at most five) nodes of highest degree, stable by
/// index, those with edges, as `title (n edges)`.
pub open spec fn hubs_of(ds: Seq<(nat, Seq<char>)>) -> Seq<Seq<char>>
    decreases ds.len(),
{
    if ds.len() == 0 {
        Seq::empty()
    } else {
        hubs_of(ds.drop_last()) + if ds.last().0 > 0 {
            seq![ds.last().1 + " ("@ + decimal(ds.last().0) + " edges)"@]
        } else {
            Seq::empty()
        }
    }
}

pub open spec fn hubs(nodes: Seq<NodeV>, edges: Seq<EdgeV>) -> Seq<Seq<char>> {
    let sorted = sort_pairs(degree_list(nodes, edges), false);
    hubs_of(
        if sorted.len() > 5 {
            sorted.take(5)
        } else {
            sorted
        },
    )
}

/// The relation lines.
pub open spec fn relation_lines(rs: Seq<(nat, Seq<char>)>) -> Seq<char>
    decreases rs.len(),
{
    if rs.len() == 0 {
        Seq::empty()
    } else {
        relation_lines(rs.drop_last()) + "- `"@ + rs.last().1 + "` ("@ + decimal(rs.last().0) + ")\n"@
    }
}

/// The relations of the edges with their counts, most frequent first, ties by name.
pub open spec fn relations(edges: Seq<EdgeV>) -> Seq<(nat, Seq<char>)> {
    sort_pairs(tally(edges.map_values(|e: EdgeV| e.2)), true)
}

/// The plain-language description of a graph: its size and type groups (with
/// sample titles), its key hubs, its edges by relation, its isolated nodes and
/// its external references; each section only when it has something to say.
pub open spec fn llms(nodes: Seq<NodeV>, edges: Seq<EdgeV>) -> Seq<char> {
    let gs = type_groups(nodes);
    let hs = hubs(nodes, edges);
    let rs = relations(edges);
    let iso = isolated_titles(nodes, edges);
    let ext = sorted_strs(ext_titles(nodes));
    "The wiki graph has "@ + decimal(nodes.len()) + " nodes and "@ + decimal(edges.len())
        + " edges across "@ + decimal(gs.len()) + " type groups.\n\n"@ + group_lines(nodes, gs) + (
    if hs.len() > 0 {
        "\nKey hubs: "@ + join(hs, ", "@) + "\n"@
    } else {
        Seq::empty()
    }) + (if rs.len() > 0 {
        "\n**Edges by relation:**\n"@ + relation_lines(rs)
    } else {
        Seq::empty()
    }) + (if iso.len() > 0 {
        "\n"@ + "**Isolated nodes ("@ + decimal(iso.len()) + "):** "@ + join(iso, ", "@) + "\n"@
    } else {
        Seq::empty()
    }) + (if ext.len() > 0 {
        "\n"@ + "**External references ("@ + decimal(ext.len()) + "):** "@ + join(ext, ", "@) + "\n"@
    } else {
        Seq::empty()
    })
}

// ── Executable description ───────────────────────────────────────────────────

/// Each node's degree.
fn degrees(graph: &WikiGraph) -> (r: Vec<u64>)
    ensures
        r@.len() == graph.nodes().len(),
        forall|i: int| 0 <= i < r@.len() ==> #[trigger] r@[i] as nat == degree(graph.edge_list(), i),
{
    graph.lemma_wf();
    let n = graph.node_count();
    let ne = graph.edge_count();
    let ghost edges = graph.edge_list();
    let mut d: Vec<u64> = Vec::new();
    let mut i: usize = 0;
    while i < n
        invariant
            i <= n,
            d@.len() == i,
            forall|j: int| 0 <= j < i ==> #[trigger] d@[j] == 0,
        decreases n - i,
    {
        d.push(0);
        i += 1;
    }
    let mut e: usize = 0;
    while e < ne
        invariant
            e <= ne == edges.len() <= u32::MAX,
            edges == graph.edge_list(),
            n == graph.nodes().len() == d@.len(),
            edges_in_range(n as int, edges),
            forall|j: int| 0 <= j < n ==> #[trigger] d@[j] as nat == degree(edges.take(e as int), j),
            forall|j: int| 0 <= j < n ==> #[trigger] d@[j] <= 2 * e,
        decreases ne - e,
    {
        let (a, b, _lbl) = graph.edge(e);
        assert(0 <= edges[e as int].0 < n && 0 <= edges[e as int].1 < n);
        let ghost before = d@;
        let da = d[a];
        d.set(a, da + 1);
        let db = d[b];
        d.set(b, db + 1);
        proof {
            let t1 = edges.take(e as int + 1);
            assert(t1.drop_last() =~= edges.take(e as int));
            assert(t1.last() == edges[e as int]);
            assert forall|j: int| 0 <= j < n implies #[trigger] d@[j] as nat == degree(t1, j) by {
                assert(degree(t1, j) == degree(edges.take(e as int), j) + (if a == j {
                    1nat
                } else {
                    0nat
                }) + (if b == j {
                    1nat
                } else {
                    0nat
                }));
            }
        }
        e += 1;
    }
    proof {
        assert(edges.take(ne as int) =~= edges);
    }
    d
}

/// The titles of the placeholder nodes.
fn external_titles(graph: &WikiGraph) -> (r: Vec<String>)
    ensures
        views(r@) == ext_titles(graph.nodes()),
{
    let ghost nodes = graph.nodes();
    let n = graph.node_count();
    let mut out: Vec<String> = Vec::new();
    let mut i: usize = 0;
    while i < n
        invariant
            i <= n == nodes.len(),
            nodes == graph.nodes(),
            views(out@) == ext_titles(nodes.take(i as int)),
        decreases n - i,
    {
        proof {
            assert(nodes.take(i as int + 1).drop_last() =~= nodes.take(i as int));
        }
        let node = graph.node(i);
        let ghost before = views(out@);
        if node.external {
            out.push(node.title.clone());
            proof {
                assert(views(out@) =~= before + seq![nodes[i as int].1]);
            }
        } else {
            proof {
                assert(views(out@) =~= before + Seq::<Seq<char>>::empty());
            }
        }
        i += 1;
    }
    proof {
        assert(nodes.take(n as int) =~= nodes);
    }
    out
}

/// The types of the local nodes.
fn local_type_list(graph: &WikiGraph) -> (r: Vec<String>)
    ensures
        views(r@) == local_types(graph.nodes()),
{
    let ghost nodes = graph.nodes();
    let n = graph.node_count();
    let mut out: Vec<String> = Vec::new();
    let mut i: usize = 0;
    while i < n
        invariant
            i <= n == nodes.len(),
            nodes == graph.nodes(),
            views(out@) == local_types(nodes.take(i as int)),
        decreases n - i,
    {
        proof {
            assert(nodes.take(i as int + 1).drop_last() =~= nodes.take(i as int));
        }
        let node = graph.node(i);
        let ghost before = views(out@);
        if !node.external {
            out.push(node.page_type.clone());
            proof {
                assert(views(out@) =~= before + seq![nodes[i as int].2]);
            }
        } else {
            proof {
                assert(views(out@) =~= before + Seq::<Seq<char>>::empty());
            }
        }
        i += 1;
    }
    proof {
        assert(nodes.take(n as int) =~= nodes);
    }
    out
}

/// The titles of the local nodes of type `t`.
fn titles_of_type(graph: &WikiGraph, t: &str) -> (r: Vec<String>)
    ensures
        views(r@) == type_titles(graph.nodes(), t@),
{
    let ghost nodes = graph.nodes();
    let n = graph.node_count();
    let mut out: Vec<String> = Vec::new();
    let mut i: usize = 0;
    while i < n
        invariant
            i <= n == nodes.len(),
            nodes == graph.nodes(),
            views(out@) == type_titles(nodes.take(i as int), t@),
        decreases n - i,
    {
        proof {
            assert(nodes.take(i as int + 1).drop_last() =~= nodes.take(i as int));
        }
        let node = graph.node(i);
        let ghost before = views(out@);
        if !node.external && str_eq(node.page_type.as_str(), t) {
            out.push(node.title.clone());
            proof {
                assert(views(out@) =~= before + seq![nodes[i as int].1]);
            }
        } else {
            proof {
                assert(views(out@) =~= before + Seq::<Seq<char>>::empty());
            }
        }
        i += 1;
    }
    proof {
        assert(nodes.take(n as int) =~= nodes);
    }
    out
}

/// The relation of each edge, in order.
fn relation_list(graph: &WikiGraph) -> (r: Vec<String>)
    ensures
        views(r@) == graph.edge_list().map_values(|e: EdgeV| e.2),
{
    let ne = graph.edge_count();
    let mut out: Vec<String> = Vec::new();
    let mut e: usize = 0;
    while e < ne
        invariant
            e <= ne == graph.edge_list().len(),
            views(out@) == graph.edge_list().take(e as int).map_values(|x: EdgeV| x.2),
        decreases ne - e,
    {
        let (_a, _b, lbl) = graph.edge(e);
        let ghost before = views(out@);
        out.push(lbl.relation.clone());
        proof {
            assert(views(out@) =~= before.push(graph.edge_list()[e as int].2));
            assert(graph.edge_list().take(e as int + 1).map_values(|x: EdgeV| x.2) =~= graph.edge_list().take(
                e as int,
            ).map_values(|x: EdgeV| x.2).push(graph.edge_list()[e as int].2));
        }
        e += 1;
    }
    proof {
        assert(graph.edge_list().take(ne as int) =~= graph.edge_list());
    }
    out
}

/// The sample of sorted titles.
fn sample_of(titles: &Vec<String>) -> (r: String)
    ensures
        r@ == sample(views(titles@)),
{
    if titles.len() > 8 {
        let mut first: Vec<String> = Vec::new();
        let mut i: usize = 0;
        while i < 8
            invariant
                i <= 8 < titles.len(),
                views(first@) == views(titles@).take(i as int),
            decreases 8 - i,
        {
            let ghost before = views(first@);
            first.push(titles[i].clone());
            proof {
                assert(views(first@) =~= before.push(titles@[i as int]@));
                assert(views(titles@).take(i as int + 1) =~= views(titles@).take(i as int).push(
                    titles@[i as int]@,
                ));
            }
            i += 1;
        }
        let mut s = join_strings(&first, ", ");
        push_str(&mut s, ", ...");
        s
    } else {
        join_strings(titles, ", ")
    }
}

/// The type groups and their lines.
fn groups_text(graph: &WikiGraph) -> (r: (usize, String))
    ensures
        r.0 == type_groups(graph.nodes()).len(),
        r.1@ == group_lines(graph.nodes(), type_groups(graph.nodes())),
{
    let ghost nodes = graph.nodes();
    let types = local_type_list(graph);
    let groups = sort_counted(tally_strings(&types), true);
    let mut group_text = String::new();
    let mut g: usize = 0;
    while g < groups.len()
        invariant
            g <= groups@.len(),
            nodes == graph.nodes(),
            pair_views(groups@) == type_groups(nodes),
            group_text@ == group_lines(nodes, pair_views(groups@).take(g as int)),
        decreases groups@.len() - g,
    {
        proof {
            let gv = pair_views(groups@);
            assert(gv.take(g as int + 1).drop_last() =~= gv.take(g as int));
            assert(gv.take(g as int + 1).last() == (groups@[g as int].0 as nat, groups@[g as int].1@));
        }
        let t = groups[g].1.as_str();
        let titles = sort_strings(&titles_of_type(graph, t));
        proof {
            assert(views(titles@) == sorted_strs(type_titles(nodes, t@)));
        }
        push_str(&mut group_text, "**");
        push_str(&mut group_text, t);
        push_str(&mut group_text, "** (");
        let cs = decimal_u64(groups[g].0);
        push_str(&mut group_text, cs.as_str());
        push_str(&mut group_text, " nodes): ");
        let sm = sample_of(&titles);
        push_str(&mut group_text, sm.as_str());
        push_str(&mut group_text, "\n");
        g += 1;
    }
    proof {
        assert(pair_views(groups@).take(groups@.len() as int) =~= pair_views(groups@));
    }

    proof {
        lemma_sort_pairs_len(tally(local_types(nodes)), true);
    }
    (groups.len(), group_text)
}

/// The hub entries.
fn hub_entries(graph: &WikiGraph, deg: &Vec<u64>) -> (r: Vec<String>)
    requires
        deg@.len() == graph.nodes().len(),
        forall|j: int| 0 <= j < deg@.len() ==> #[trigger] deg@[j] as nat == degree(graph.edge_list(), j),
    ensures
        views(r@) == hubs(graph.nodes(), graph.edge_list()),
{
    let ghost nodes = graph.nodes();
    let ghost edges = graph.edge_list();
    let n = graph.node_count();
    // Hubs: highest degree first, ties in index order.
    let mut dl: Vec<(u64, String)> = Vec::new();
    let mut i: usize = 0;
    while i < n
        invariant
            i <= n == nodes.len() == deg@.len(),
            nodes == graph.nodes(),
            edges == graph.edge_list(),
            forall|j: int| 0 <= j < n ==> #[trigger] deg@[j] as nat == degree(edges, j),
            pair_views(dl@) == degree_list(nodes, edges).take(i as int),
        decreases n - i,
    {
        let node = graph.node(i);
        let ghost before = pair_views(dl@);
        dl.push((deg[i], node.title.clone()));
        proof {
            assert(pair_views(dl@) =~= before.push((degree(edges, i as int), nodes[i as int].1)));
            assert(degree_list(nodes, edges).take(i as int + 1) =~= degree_list(nodes, edges).take(
                i as int,
            ).push((degree(edges, i as int), nodes[i as int].1)));
        }
        i += 1;
    }
    proof {
        assert(degree_list(nodes, edges).take(n as int) =~= degree_list(nodes, edges));
    }
    let by_degree = sort_counted(dl, false);
    proof {
        lemma_sort_pairs_len(degree_list(nodes, edges), false);
    }
    let top = if by_degree.len() > 5 {
        5
    } else {
        by_degree.len()
    };
    let ghost tv = pair_views(by_degree@).take(top as int);
    let mut hub_list: Vec<String> = Vec::new();
    let mut k: usize = 0;
    while k < top
        invariant
            k <= top <= by_degree@.len(),
            tv == pair_views(by_degree@).take(top as int),
            views(hub_list@) == hubs_of(tv.take(k as int)),
        decreases top - k,
    {
        proof {
            assert(tv.take(k as int + 1).drop_last() =~= tv.take(k as int));
            assert(tv.take(k as int + 1).last() == (by_degree@[k as int].0 as nat, by_degree@[k as int].1@));
        }
        let ghost before = views(hub_list@);
        if by_degree[k].0 > 0 {
            let mut h = by_degree[k].1.clone();
            push_str(&mut h, " (");
            let ds = decimal_u64(by_degree[k].0);
            push_str(&mut h, ds.as_str());
            push_str(&mut h, " edges)");
            hub_list.push(h);
            proof {
                assert(views(hub_list@) =~= before + seq![h@]);
            }
        } else {
            proof {
                assert(views(hub_list@) =~= before + Seq::<Seq<char>>::empty());
            }
        }
        k += 1;
    }
    proof {
        assert(tv.take(top as int) =~= tv);
        let sorted = sort_pairs(degree_list(nodes, edges), false);
        if sorted.len() <= 5 {
            assert(tv =~= sorted);
        }
    }

    hub_list
}

/// The relation lines, and whether there are any.
fn relations_text(graph: &WikiGraph) -> (r: (usize, String))
    ensures
        r.0 == relations(graph.edge_list()).len(),
        r.1@ == relation_lines(relations(graph.edge_list())),
{
    let ghost edges = graph.edge_list();
    // Relations, most frequent first.
    let rels = sort_counted(tally_strings(&relation_list(graph)), true);
    let mut rel_text = String::new();
    let mut r: usize = 0;
    while r < rels.len()
        invariant
            r <= rels@.len(),
            pair_views(rels@) == relations(edges),
            rel_text@ == relation_lines(pair_views(rels@).take(r as int)),
        decreases rels@.len() - r,
    {
        proof {
            let rv = pair_views(rels@);
            assert(rv.take(r as int + 1).drop_last() =~= rv.take(r as int));
            assert(rv.take(r as int + 1).last() == (rels@[r as int].0 as nat, rels@[r as int].1@));
        }
        push_str(&mut rel_text, "- `");
        push_str(&mut rel_text, rels[r].1.as_str());
        push_str(&mut rel_text, "` (");
        let cs = decimal_u64(rels[r].0);
        push_str(&mut rel_text, cs.as_str());
        push_str(&mut rel_text, ")\n");
        r += 1;
    }
    proof {
        assert(pair_views(rels@).take(rels@.len() as int) =~= pair_views(rels@));
    }

    proof {
        lemma_sort_pairs_len(tally(edges.map_values(|e: EdgeV| e.2)), true);
    }
    (rels.len(), rel_text)
}

/// The titles of the nodes without edges.
fn isolated(graph: &WikiGraph, deg: &Vec<u64>) -> (r: Vec<String>)
    requires
        deg@.len() == graph.nodes().len(),
        forall|j: int| 0 <= j < deg@.len() ==> #[trigger] deg@[j] as nat == degree(graph.edge_list(), j),
    ensures
        views(r@) == isolated_titles(graph.nodes(), graph.edge_list()),
{
    let ghost nodes = graph.nodes();
    let ghost edges = graph.edge_list();
    let n = graph.node_count();
    // Isolated nodes, in index order.
    let mut iso: Vec<String> = Vec::new();
    let mut i: usize = 0;
    while i < n
        invariant
            i <= n == nodes.len() == deg@.len(),
            nodes == graph.nodes(),
            edges == graph.edge_list(),
            forall|j: int| 0 <= j < n ==> #[trigger] deg@[j] as nat == degree(edges, j),
            views(iso@) == isolated_titles(nodes.take(i as int), edges),
        decreases n - i,
    {
        proof {
            assert(nodes.take(i as int + 1).drop_last() =~= nodes.take(i as int));
            assert(deg@[i as int] as nat == degree(edges, i as int));
        }
        let ghost before = views(iso@);
        if deg[i] == 0 {
            iso.push(graph.node(i).title.clone());
            proof {
                assert(views(iso@) =~= before + seq![nodes[i as int].1]);
            }
        } else {
            proof {
                assert(views(iso@) =~= before + Seq::<Seq<char>>::empty());
            }
        }
        i += 1;
    }
    proof {
        assert(nodes.take(n as int) =~= nodes);
    }

    iso
}

/// A titled list section: `\n` + head + the count + `):** ` + the items
/// joined + `\n`, or nothing for no items.
fn list_section(head: &str, items: &Vec<String>) -> (r: String)
    ensures
        r@ == if items@.len() > 0 {
            "\n"@ + head@ + decimal(items@.len()) + "):** "@ + join(views(items@), ", "@) + "\n"@
        } else {
            Seq::empty()
        },
{
    let mut out = String::new();
    if items.len() > 0 {
        push_str(&mut out, "\n");
        push_str(&mut out, head);
        push_str(&mut out, decimal_string(items.len()).as_str());
        push_str(&mut out, "):** ");
        push_str(&mut out, join_strings(items, ", ").as_str());
        push_str(&mut out, "\n");
    }
    out
}

/// The first part of the description: its size and its type groups.
fn llms_head(graph: &WikiGraph) -> (r: String)
    ensures
        r@ == "The wiki graph has "@ + decimal(graph.nodes().len()) + " nodes and "@ + decimal(
            graph.edge_list().len(),
        ) + " edges across "@ + decimal(type_groups(graph.nodes()).len()) + " type groups.\n\n"@
            + group_lines(graph.nodes(), type_groups(graph.nodes())),
{
    let (ngroups, group_text) = groups_text(graph);
    let mut out = "The wiki graph has ".to_owned();
    push_str(&mut out, decimal_string(graph.node_count()).as_str());
    push_str(&mut out, " nodes and ");
    push_str(&mut out, decimal_string(graph.edge_count()).as_str());
    push_str(&mut out, " edges across ");
    push_str(&mut out, decimal_string(ngroups).as_str());
    push_str(&mut out, " type groups.\n\n");
    push_str(&mut out, group_text.as_str());
    out
}

/// Render the graph as a plain-language description for language models.
pub fn render_llms(graph: &WikiGraph) -> (r: String)
    ensures
        r@ == llms(graph.nodes(), graph.edge_list()),
{
    let ghost nodes = graph.nodes();
    let ghost edges = graph.edge_list();
    let deg = degrees(graph);
    let mut out = llms_head(graph);
    let hub_list = hub_entries(graph, &deg);
    if hub_list.len() > 0 {
        push_str(&mut out, "\nKey hubs: ");
        push_str(&mut out, join_strings(&hub_list, ", ").as_str());
        push_str(&mut out, "\n");
    }
    let ghost p2 = out@;
    let (nrels, rel_text) = relations_text(graph);
    if nrels > 0 {
        push_str(&mut out, "\n**Edges by relation:**\n");
        push_str(&mut out, rel_text.as_str());
    }
    let ghost p3 = out@;
    let iso = isolated(graph, &deg);
    let iso_text = list_section("**Isolated nodes (", &iso);
    push_str(&mut out, iso_text.as_str());
    let ext = sort_strings(&external_titles(graph));
    let ext_text = list_section("**External references (", &ext);
    push_str(&mut out, ext_text.as_str());
    proof {
        assert(out@ =~= llms(nodes, edges));
    }
    out
}

// ── Laws of the ordering ─────────────────────────────────────────────────────

proof fn lemma_plt_facts(a: (nat, Seq<char>), b: (nat, Seq<char>), c: (nat, Seq<char>), by_name: bool)
    ensures
        plt(a, b, by_name) ==> !plt(b, a, by_name),
        !plt(a, b, by_name) && !plt(b, c, by_name) ==> !plt(a, c, by_name),
{
    crate::lint_report::lemma_str_lt_irrefl(a.1);
    if plt(a, b, by_name) && plt(b, a, by_name) && a.0 == b.0 {
        crate::lint_report::lemma_str_lt_trans(a.1, b.1, a.1);
    }
    if by_name && !plt(a, b, by_name) && !plt(b, c, by_name) && plt(a, c, by_name) {
        // a.0 <= b.0 <= c.0 and a.0 >= c.0: all counts equal
        if a.1 != b.1 {
            crate::lint_report::lemma_str_lt_total(a.1, b.1);
        }
        if b.1 != c.1 {
            crate::lint_report::lemma_str_lt_total(b.1, c.1);
        }
        if str_lt(b.1, a.1) && str_lt(c.1, b.1) {
            crate::lint_report::lemma_str_lt_trans(c.1, b.1, a.1);
            crate::lint_report::lemma_str_lt_trans(a.1, c.1, a.1);
        }
        if str_lt(b.1, a.1) && b.1 == c.1 {
            crate::lint_report::lemma_str_lt_trans(a.1, c.1, a.1);
        }
        if a.1 == b.1 && str_lt(c.1, b.1) {
            crate::lint_report::lemma_str_lt_trans(a.1, c.1, a.1);
        }
    }
}

/// No pair sorts before one that comes earlier.
pub open spec fn pairs_sorted(s: Seq<(nat, Seq<char>)>, by_name: bool) -> bool {
    forall|i: int, j: int| 0 <= i < j < s.len() ==> !plt(#[trigger] s[j], #[trigger] s[i], by_name)
}

proof fn lemma_pair_pos_split(t: Seq<(nat, Seq<char>)>, x: (nat, Seq<char>), by_name: bool)
    ensures
        forall|i: int| pair_pos(t, x, by_name) <= i < t.len() ==> plt(x, #[trigger] t[i], by_name),
        pair_pos(t, x, by_name) > 0 ==> !plt(x, t[pair_pos(t, x, by_name) - 1], by_name),
    decreases t.len(),
{
    lemma_pair_pos_bounds(t, x, by_name);
    if t.len() > 0 && plt(x, t.last(), by_name) {
        let u = t.drop_last();
        lemma_pair_pos_split(u, x, by_name);
        lemma_pair_pos_bounds(u, x, by_name);
        assert forall|i: int| pair_pos(t, x, by_name) <= i < t.len() implies plt(x, #[trigger] t[i], by_name) by {
            if i < u.len() {
                assert(t[i] == u[i]);
            }
        }
    }
}

/// Sorting pairs puts them in order (larger counts first, and with `by_name`
/// equal counts by name) and keeps every pair, each as often as it came.
pub proof fn law_sorted_pairs_ordered(s: Seq<(nat, Seq<char>)>, by_name: bool)
    ensures
        pairs_sorted(sort_pairs(s, by_name), by_name),
        sort_pairs(s, by_name).to_multiset() == s.to_multiset(),
    decreases s.len(),
{
    broadcast use vstd::seq_lib::group_to_multiset_ensures;

    if s.len() > 0 {
        let u = s.drop_last();
        law_sorted_pairs_ordered(u, by_name);
        let t = sort_pairs(u, by_name);
        let x = s.last();
        let p = pair_pos(t, x, by_name);
        lemma_pair_pos_bounds(t, x, by_name);
        lemma_pair_pos_split(t, x, by_name);
        let r = t.insert(p, x);
        assert forall|i: int, j: int| 0 <= i < j < r.len() implies !plt(#[trigger] r[j], #[trigger] r[i], by_name) by {
            if j < p {
                assert(r[i] == t[i] && r[j] == t[j]);
            } else if j == p {
                assert(r[i] == t[i]);
                if i < p - 1 {
                    assert(!plt(t[p - 1], t[i], by_name));
                }
                lemma_plt_facts(x, t[p - 1], t[i], by_name);
            } else if i == p {
                assert(r[j] == t[j - 1]);
                lemma_plt_facts(x, t[j - 1], x, by_name);
            } else if i < p {
                assert(r[i] == t[i] && r[j] == t[j - 1]);
            } else {
                assert(r[i] == t[i - 1] && r[j] == t[j - 1]);
            }
        }
        vstd::seq_lib::to_multiset_insert(t, p, x);
        assert(u.push(x) =~= s);
    }
}

/// Sorting strings puts them in ascending order (no string before one it
/// sorts after) and keeps them without repeats when there were none.
pub proof fn law_sorted_strs(s: Seq<Seq<char>>)
    ensures
        forall|i: int, j: int|
            0 <= i < j < sorted_strs(s).len() ==> !str_lt(
                #[trigger] sorted_strs(s)[j],
                #[trigger] sorted_strs(s)[i],
            ),
        s.no_duplicates() ==> sorted_strs(s).no_duplicates(),
{
    broadcast use vstd::seq_lib::group_to_multiset_ensures;

    let m = s.map_values(|x: Seq<char>| (0nat, x));
    let t = sort_pairs(m, true);
    law_sorted_pairs_ordered(m, true);
    let r = sorted_strs(s);
    assert(r == t.map_values(|p: (nat, Seq<char>)| p.1));
    assert forall|k: int| 0 <= k < t.len() implies (#[trigger] t[k]).0 == 0 by {
        assert(t.to_multiset().contains(t[k]));
        assert(m.to_multiset().contains(t[k]));
        assert(m.contains(t[k]));
        let q = choose|q: int| 0 <= q < m.len() && m[q] == t[k];
        assert(m[q] == (0nat, s[q]));
    }
    assert forall|i: int, j: int| 0 <= i < j < r.len() implies !str_lt(
        #[trigger] r[j],
        #[trigger] r[i],
    ) by {
        assert(t[i].0 == 0 && t[j].0 == 0);
        assert(!plt(t[j], t[i], true));
    }
    if s.no_duplicates() {
        assert(m.no_duplicates()) by {
            assert forall|i: int, j: int| 0 <= i < m.len() && 0 <= j < m.len() && i != j implies m[i]
                != m[j] by {
                assert(m[i] == (0nat, s[i]) && m[j] == (0nat, s[j]));
            }
        }
        m.lemma_multiset_has_no_duplicates();
        t.lemma_multiset_has_no_duplicates_conv();
        assert forall|i: int, j: int| 0 <= i < r.len() && 0 <= j < r.len() && i != j implies r[i]
            != r[j] by {
            assert(t[i].0 == 0 && t[j].0 == 0);
            assert(t[i] != t[j]);
        }
    }
}

/// A node's degree counts every edge touching it: the edges leaving it plus
/// the edges entering it (a self-loop counting twice), so it is zero exactly
/// when no edge touches the node.
pub proof fn law_degree_counts_both_ends(edges: Seq<EdgeV>, i: int)
    ensures
        degree(edges, i) == incident_ids(edges, i, Direction::Outgoing, false).len() + incident_ids(
            edges,
            i,
            Direction::Incoming,
            false,
        ).len(),
        degree(edges, i) == 0 <==> forall|e: int|
            0 <= e < edges.len() ==> (#[trigger] edges[e]).0 != i && edges[e].1 != i,
    decreases edges.len(),
{
    if edges.len() > 0 {
        let u = edges.drop_last();
        law_degree_counts_both_ends(u, i);
        if degree(edges, i) == 0 {
            assert forall|e: int| 0 <= e < edges.len() implies (#[trigger] edges[e]).0 != i && edges[e].1
                != i by {
                if e < u.len() {
                    assert(edges[e] == u[e]);
                }
            }
        }
        if forall|e: int| 0 <= e < edges.len() ==> (#[trigger] edges[e]).0 != i && edges[e].1 != i {
            assert forall|e: int| 0 <= e < u.len() implies (#[trigger] u[e]).0 != i && u[e].1 != i by {
                assert(edges[e] == u[e]);
            }
            assert(edges[edges.len() - 1] == edges.last());
        }
    }
}

/// The isolated nodes are exactly the nodes no edge touches: the title of
/// every such node is listed, and every listed title is that of such a node.
pub proof fn law_isolated_untouched(nodes: Seq<NodeV>, edges: Seq<EdgeV>)
    ensures
        forall|j: int|
            0 <= j < nodes.len() && (forall|e: int|
                0 <= e < edges.len() ==> (#[trigger] edges[e]).0 != j && edges[e].1 != j)
                ==> isolated_titles(nodes, edges).contains(#[trigger] nodes[j].1),
        forall|x: Seq<char>| #[trigger]
            isolated_titles(nodes, edges).contains(x) ==> exists|j: int|
                0 <= j < nodes.len() && nodes[j].1 == x && forall|e: int|
                    0 <= e < edges.len() ==> (#[trigger] edges[e]).0 != j && edges[e].1 != j,
    decreases nodes.len(),
{
    if nodes.len() > 0 {
        let u = nodes.drop_last();
        let n = nodes.len() - 1;
        law_isolated_untouched(u, edges);
        law_degree_counts_both_ends(edges, n);
        let a = isolated_titles(u, edges);
        let tail = if degree(edges, n) == 0 {
            seq![nodes.last().1]
        } else {
            Seq::<Seq<char>>::empty()
        };
        assert(isolated_titles(nodes, edges) == a + tail);
        assert forall|j: int|
            0 <= j < nodes.len() && (forall|e: int|
                0 <= e < edges.len() ==> (#[trigger] edges[e]).0 != j && edges[e].1 != j) implies (a
            + tail).contains(#[trigger] nodes[j].1) by {
            if j < n {
                assert(u[j] == nodes[j]);
                assert(a.contains(u[j].1));
                let k = choose|k: int| 0 <= k < a.len() && a[k] == u[j].1;
                assert((a + tail)[k] == nodes[j].1);
            } else {
                law_degree_counts_both_ends(edges, j);
                assert((a + tail)[a.len() as int] == nodes[j].1);
            }
        }
        assert forall|x: Seq<char>| #[trigger] (a + tail).contains(x) implies exists|j: int|
            0 <= j < nodes.len() && nodes[j].1 == x && forall|e: int|
                0 <= e < edges.len() ==> (#[trigger] edges[e]).0 != j && edges[e].1 != j by {
            let k = choose|k: int| 0 <= k < (a + tail).len() && (a + tail)[k] == x;
            if k < a.len() {
                assert(a[k] == x);
                assert(a.contains(x));
                let j = choose|j: int|
                    0 <= j < u.len() && u[j].1 == x && forall|e: int|
                        0 <= e < edges.len() ==> (#[trigger] edges[e]).0 != j && edges[e].1 != j;
                assert(nodes[j] == u[j]);
            } else {
                assert(nodes[n].1 == x);
            }
        }
    }
}

} // verus!
