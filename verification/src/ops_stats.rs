//! Wiki statistics: staleness buckets, index health and structural notes.
use vstd::prelude::*;

use crate::graph::{center_of, NodeV, WikiGraph};
use crate::lint::{date_days, parse_date_days};
use crate::links::views;
use crate::render::{decimal, decimal_string};
use crate::text::push_str;

verus! {

/// How much detail `stats` returns for its expensive list fields.
#[derive(Debug, Clone, Copy, PartialEq, Eq, Structural)]
pub enum StatsDetail {
    /// The number of central pages only.
    Summary,
    /// The full list of central pages.
    Full,
}

impl Default for StatsDetail {
    fn default() -> (r: Self)
        ensures
            r == StatsDetail::Summary,
    {
        StatsDetail::Summary
    }
}

/// Options of a `stats` call.
#[derive(Debug)]
pub struct StatsOptions {
    /// How much detail to return.
    pub detail: StatsDetail,
}

impl Default for StatsOptions {
    fn default() -> (r: Self)
        ensures
            r.detail == StatsDetail::Summary,
    {
        StatsOptions { detail: StatsDetail::Summary }
    }
}

/// Pages by the age of their `last_updated` date.
#[derive(Debug)]
pub struct StalenessBuckets {
    /// Updated within the last 7 days.
    pub fresh: usize,
    /// Updated 7 to 30 days ago.
    pub stale_7d: usize,
    /// Updated more than 30 days ago, or undated.
    pub stale_30d: usize,
}

/// Health of the search index.
#[derive(Debug)]
pub struct IndexHealth {
    /// The index is out of date.
    pub stale: bool,
    /// Time of the last successful build, if known.
    pub built: Option<String>,
}

/// Buckets as a triple.
pub open spec fn buckets(b: StalenessBuckets) -> (nat, nat, nat) {
    (b.fresh as nat, b.stale_7d as nat, b.stale_30d as nat)
}

/// The sum of bucket counts.
pub open spec fn sum_buckets(bs: Seq<StalenessBuckets>) -> (nat, nat, nat)
    decreases bs.len(),
{
    if bs.len() == 0 {
        (0, 0, 0)
    } else {
        let s = sum_buckets(bs.drop_last());
        let b = buckets(bs.last());
        (s.0 + b.0, s.1 + b.1, s.2 + b.2)
    }
}

/// Add up the buckets of several index segments.
pub fn merge_buckets(fruits: &Vec<StalenessBuckets>) -> (r: StalenessBuckets)
    requires
        sum_buckets(fruits@).0 <= usize::MAX,
        sum_buckets(fruits@).1 <= usize::MAX,
        sum_buckets(fruits@).2 <= usize::MAX,
    ensures
        buckets(r) == sum_buckets(fruits@),
{
    let mut acc = StalenessBuckets { fresh: 0, stale_7d: 0, stale_30d: 0 };
    let mut i: usize = 0;
    while i < fruits.len()
        invariant
            i <= fruits@.len(),
            sum_buckets(fruits@).0 <= usize::MAX,
            sum_buckets(fruits@).1 <= usize::MAX,
            sum_buckets(fruits@).2 <= usize::MAX,
            buckets(acc) == sum_buckets(fruits@.take(i as int)),
        decreases fruits@.len() - i,
    {
        proof {
            assert(fruits@.take(i as int + 1).drop_last() =~= fruits@.take(i as int));
            assert(fruits@.take(i as int + 1).last() == fruits@[i as int]);
            lemma_sum_prefix(fruits@, i as int + 1);
        }
        acc = StalenessBuckets {
            fresh: acc.fresh + fruits[i].fresh,
            stale_7d: acc.stale_7d + fruits[i].stale_7d,
            stale_30d: acc.stale_30d + fruits[i].stale_30d,
        };
        i += 1;
    }
    proof {
        assert(fruits@.take(fruits@.len() as int) =~= fruits@);
    }
    acc
}

proof fn lemma_sum_prefix(bs: Seq<StalenessBuckets>, i: int)
    requires
        0 <= i <= bs.len(),
    ensures
        sum_buckets(bs.take(i)).0 <= sum_buckets(bs).0,
        sum_buckets(bs.take(i)).1 <= sum_buckets(bs).1,
        sum_buckets(bs.take(i)).2 <= sum_buckets(bs).2,
    decreases bs.len() - i,
{
    if i < bs.len() {
        lemma_sum_prefix(bs, i + 1);
        assert(bs.take(i + 1).drop_last() =~= bs.take(i));
    } else {
        assert(bs.take(i) =~= bs);
    }
}

/// The bucket of one page's date (days from the common era; `None` when the
/// page has no date): `0` fresh, `1` seven to thirty days old, `2` older.
pub open spec fn bucket_of(date: Option<Seq<char>>, seven_days_ago: i32, thirty_days_ago: i32) -> int {
    match date {
        None => 2,
        Some(s) => match date_days(s) {
            Some(d) => if d >= seven_days_ago {
                0
            } else if d >= thirty_days_ago {
                1
            } else {
                2
            },
            None => 2,
        },
    }
}

/// The buckets of the first pages' dates.
pub open spec fn count_buckets(dates: Seq<Option<Seq<char>>>, seven: i32, thirty: i32) -> (nat, nat, nat)
    decreases dates.len(),
{
    if dates.len() == 0 {
        (0, 0, 0)
    } else {
        let s = count_buckets(dates.drop_last(), seven, thirty);
        let b = bucket_of(dates.last(), seven, thirty);
        (s.0 + if b == 0 {
            1nat
        } else {
            0nat
        }, s.1 + if b == 1 {
            1nat
        } else {
            0nat
        }, s.2 + if b == 2 {
            1nat
        } else {
            0nat
        })
    }
}

/// Dates as values.
pub open spec fn date_views(v: Seq<Option<String>>) -> Seq<Option<Seq<char>>> {
    v.map_values(
        |d: Option<String>|
            match d {
                Some(s) => Some(s@),
                None => None,
            },
    )
}

/// Every page falls in exactly one staleness bucket: the three counts add up
/// to the number of pages.
pub proof fn law_buckets_cover_pages(dates: Seq<Option<Seq<char>>>, seven: i32, thirty: i32)
    ensures
        count_buckets(dates, seven, thirty).0 + count_buckets(dates, seven, thirty).1
            + count_buckets(dates, seven, thirty).2 == dates.len(),
    decreases dates.len(),
{
    if dates.len() > 0 {
        law_buckets_cover_pages(dates.drop_last(), seven, thirty);
    }
}

/// Bucket the pages by the age of their `last_updated` dates, given the
/// days (from the common era) of seven and thirty days ago.
pub fn staleness_buckets(dates: &Vec<Option<String>>, seven_days_ago: i32, thirty_days_ago: i32) -> (r:
    StalenessBuckets)
    ensures
        buckets(r) == count_buckets(date_views(dates@), seven_days_ago, thirty_days_ago),
{
    let ghost dv = date_views(dates@);
    let mut acc = StalenessBuckets { fresh: 0, stale_7d: 0, stale_30d: 0 };
    let mut i: usize = 0;
    while i < dates.len()
        invariant
            i <= dates@.len(),
            dv == date_views(dates@),
            buckets(acc) == count_buckets(dv.take(i as int), seven_days_ago, thirty_days_ago),
            acc.fresh + acc.stale_7d + acc.stale_30d == i,
        decreases dates@.len() - i,
    {
        proof {
            assert(dv.take(i as int + 1).drop_last() =~= dv.take(i as int));
            assert(dv.take(i as int + 1).last() == dv[i as int]);
            law_buckets_cover_pages(dv.take(i as int), seven_days_ago, thirty_days_ago);
        }
        let b: u8 = match &dates[i] {
            None => 2,
            Some(s) => match parse_date_days(s.as_str()) {
                Some(d) => if d >= seven_days_ago {
                    0
                } else if d >= thirty_days_ago {
                    1
                } else {
                    2
                },
                None => 2,
            },
        };
        if b == 0 {
            acc.fresh = acc.fresh + 1;
        } else if b == 1 {
            acc.stale_7d = acc.stale_7d + 1;
        } else {
            acc.stale_30d = acc.stale_30d + 1;
        }
        i += 1;
    }
    proof {
        assert(dv.take(dates@.len() as int) =~= dv);
    }
    acc
}


/// The slugs of the local pages among the given node indices, in order.
pub open spec fn local_slugs_of(nodes: Seq<NodeV>, idx: Seq<int>) -> Seq<Seq<char>>
    decreases idx.len(),
{
    if idx.len() == 0 {
        Seq::empty()
    } else {
        local_slugs_of(nodes, idx.drop_last()) + if !nodes[idx.last()].3 {
            seq![nodes[idx.last()].0]
        } else {
            Seq::empty()
        }
    }
}

/// The central pages of the graph: the slugs of the local pages of least
/// eccentricity, in index order.
pub fn center_slugs(graph: &WikiGraph) -> (r: Vec<String>)
    ensures
        views(r@) == local_slugs_of(graph.nodes(), center_of(graph.nodes(), graph.edge_list())),
{
    let cs = graph.center();
    let ghost cv = cs@.map_values(|x: usize| x as int);
    let mut out: Vec<String> = Vec::new();
    let mut k: usize = 0;
    while k < cs.len()
        invariant
            k <= cs@.len(),
            cv == cs@.map_values(|x: usize| x as int),
            forall|j: int| 0 <= j < cs@.len() ==> #[trigger] cs@[j] < graph.nodes().len(),
            views(out@) == local_slugs_of(graph.nodes(), cv.take(k as int)),
        decreases cs@.len() - k,
    {
        proof {
            assert(cv.take(k as int + 1).drop_last() =~= cv.take(k as int));
            assert(cv.take(k as int + 1).last() == cs@[k as int] as int);
        }
        let p = cs[k];
        let node = graph.node(p);
        let ghost before = views(out@);
        if !node.external {
            out.push(node.slug.clone());
            proof {
                assert(views(out@) =~= before + seq![graph.nodes()[p as int].0]);
            }
        } else {
            proof {
                assert(views(out@) =~= before + Seq::<Seq<char>>::empty());
            }
        }
        k += 1;
    }
    proof {
        assert(cv.take(cs@.len() as int) =~= cv);
    }
    out
}

/// The central pages as returned: the full list with `Full` detail, else
/// only their number.
pub fn center_output(center: Vec<String>, detail: StatsDetail) -> (r: (Vec<String>, Option<usize>))
    ensures
        detail == StatsDetail::Full ==> r.0@ == center@ && r.1 is None,
        detail == StatsDetail::Summary ==> r.0@.len() == 0 && r.1 == Some(center@.len() as usize),
{
    match detail {
        StatsDetail::Full => (center, None),
        StatsDetail::Summary => {
            let n = center.len();
            (Vec::new(), Some(n))
        },
    }
}

/// The note when the graph is too large for the structural algorithms.
pub open spec fn too_large_note(local: nat, max_n: nat) -> Seq<char> {
    "graph too large for diameter computation ("@ + decimal(local) + " nodes > max_nodes_for_diameter="@
        + decimal(max_n) + ")"@
}

/// The note explaining why structural algorithms were skipped for a graph
/// of `local_count` local pages.
pub fn structural_note_too_large(local_count: usize, max_n: usize) -> (r: String)
    ensures
        r@ == too_large_note(local_count as nat, max_n as nat),
{
    let mut s = "graph too large for diameter computation (".to_owned();
    push_str(&mut s, decimal_string(local_count).as_str());
    push_str(&mut s, " nodes > max_nodes_for_diameter=");
    push_str(&mut s, decimal_string(max_n).as_str());
    push_str(&mut s, ")");
    s
}

} // verus!
