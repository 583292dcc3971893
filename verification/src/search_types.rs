//! Search and listing options and facet counts.
use std::collections::HashMap;
use vstd::prelude::*;

use crate::links::views;

verus! {

/// Distribution counts of pages by type, status and tag.
#[derive(Debug)]
pub struct FacetCounts {
    /// Pages per frontmatter type.
    pub types: HashMap<String, u64>,
    /// Pages per frontmatter status.
    pub status: HashMap<String, u64>,
    /// Pages per tag.
    pub tags: HashMap<String, u64>,
}

impl FacetCounts {
    /// Whether all three distributions are empty.
    pub fn is_empty(&self) -> (r: bool)
        ensures
            r == (self.types@.len() == 0 && self.status@.len() == 0 && self.tags@.len() == 0),
    {
        self.types.is_empty() && self.status.is_empty() && self.tags.is_empty()
    }
}

/// Tag filter match mode.
#[derive(Debug, Clone, Copy, PartialEq, Eq, Structural)]
pub enum TagsMode {
    /// Every listed tag must match.
    And,
    /// Any listed tag may match.
    Or,
}

impl Default for TagsMode {
    fn default() -> (r: Self)
        ensures
            r == TagsMode::And,
    {
        TagsMode::And
    }
}

/// Sort field of list operations.
#[derive(Debug, Clone, Copy, PartialEq, Eq, Structural)]
pub enum SortField {
    Slug,
    Confidence,
    Status,
}

impl Default for SortField {
    fn default() -> (r: Self)
        ensures
            r == SortField::Slug,
    {
        SortField::Slug
    }
}

/// Sort direction.
#[derive(Debug, Clone, Copy, PartialEq, Eq, Structural)]
pub enum SortOrder {
    Asc,
    Desc,
}

impl Default for SortOrder {
    fn default() -> (r: Self)
        ensures
            r == SortOrder::Asc,
    {
        SortOrder::Asc
    }
}

// ── Filters ──────────────────────────────────────────────────────────────────

/// One filter of a search or list query, beside the text query itself.
#[derive(Debug)]
pub enum FilterClause {
    /// The field must hold this term.
    Must(String, String),
    /// The field must not hold this term.
    MustNot(String, String),
    /// The field must hold at least one of these terms.
    AnyOf(String, Vec<String>),
}

/// A clause as (kind: 0 must, 1 must not, 2 any of; field; terms).
pub open spec fn clause_view(c: FilterClause) -> (nat, Seq<char>, Seq<Seq<char>>) {
    match c {
        FilterClause::Must(f, v) => (0nat, f@, seq![v@]),
        FilterClause::MustNot(f, v) => (1nat, f@, seq![v@]),
        FilterClause::AnyOf(f, vs) => (2nat, f@, views(vs@)),
    }
}

pub open spec fn clause_views(cs: Seq<FilterClause>) -> Seq<(nat, Seq<char>, Seq<Seq<char>>)> {
    cs.map_values(|c: FilterClause| clause_view(c))
}

/// The tag clauses: one `must` per tag, or a single `any of` all tags; none
/// when no tag is given.
pub open spec fn tag_clauses(tags: Seq<Seq<char>>, mode: TagsMode) -> Seq<(nat, Seq<char>, Seq<Seq<char>>)> {
    if tags.len() == 0 {
        Seq::empty()
    } else {
        match mode {
            TagsMode::And => tags.map_values(|t: Seq<char>| (0nat, "tags"@, seq![t])),
            TagsMode::Or => seq![(2nat, "tags"@, tags)],
        }
    }
}

/// The type, status and tag filters of a list query, in that order.
pub open spec fn list_filter_spec(
    page_type: Option<Seq<char>>,
    status: Option<Seq<char>>,
    tags: Seq<Seq<char>>,
    mode: TagsMode,
) -> Seq<(nat, Seq<char>, Seq<Seq<char>>)> {
    let a: Seq<(nat, Seq<char>, Seq<Seq<char>>)> = match page_type {
        Some(t) => seq![(0nat, "type"@, seq![t])],
        None => Seq::empty(),
    };
    let b: Seq<(nat, Seq<char>, Seq<Seq<char>>)> = match status {
        Some(st) => seq![(0nat, "status"@, seq![st])],
        None => Seq::empty(),
    };
    a + b + tag_clauses(tags, mode)
}

/// The filters of a search: section pages excluded unless asked for, then
/// the list filters.
pub open spec fn search_filter_spec(
    include_sections: bool,
    page_type: Option<Seq<char>>,
    status: Option<Seq<char>>,
    tags: Seq<Seq<char>>,
    mode: TagsMode,
) -> Seq<(nat, Seq<char>, Seq<Seq<char>>)> {
    let s: Seq<(nat, Seq<char>, Seq<Seq<char>>)> = if include_sections {
        Seq::empty()
    } else {
        seq![(1nat, "type"@, seq!["section"@])]
    };
    s + list_filter_spec(page_type, status, tags, mode)
}

pub open spec fn opt_string_view(o: Option<String>) -> Option<Seq<char>> {
    match o {
        Some(s) => Some(s@),
        None => None,
    }
}

fn push_clause(out: &mut Vec<FilterClause>, c: FilterClause)
    ensures
        clause_views(final(out)@) == clause_views(old(out)@).push(clause_view(c)),
{
    out.push(c);
    proof {
        assert(clause_views(final(out)@) =~= clause_views(old(out)@).push(clause_view(c)));
    }
}

/// The type, status and tag filters of a list query.
pub fn list_filters(page_type: &Option<String>, status: &Option<String>, tags: &Vec<String>, mode: TagsMode) -> (r:
    Vec<FilterClause>)
    ensures
        clause_views(r@) == list_filter_spec(
            opt_string_view(*page_type),
            opt_string_view(*status),
            views(tags@),
            mode,
        ),
{
    let mut out: Vec<FilterClause> = Vec::new();
    add_list_filters(&mut out, page_type, status, tags, mode);
    proof {
        assert(clause_views(out@) =~= Seq::<(nat, Seq<char>, Seq<Seq<char>>)>::empty() + list_filter_spec(
            opt_string_view(*page_type),
            opt_string_view(*status),
            views(tags@),
            mode,
        ));
    }
    out
}

fn add_list_filters(
    out: &mut Vec<FilterClause>,
    page_type: &Option<String>,
    status: &Option<String>,
    tags: &Vec<String>,
    mode: TagsMode,
)
    ensures
        clause_views(final(out)@) == clause_views(old(out)@) + list_filter_spec(
            opt_string_view(*page_type),
            opt_string_view(*status),
            views(tags@),
            mode,
        ),
{
    let ghost start = clause_views(out@);
    if let Some(t) = page_type {
        push_clause(out, FilterClause::Must("type".to_string(), t.clone()));
    }
    if let Some(st) = status {
        push_clause(out, FilterClause::Must("status".to_string(), st.clone()));
    }
    let ghost mid = clause_views(out@);
    let ghost tv = views(tags@);
    if tags.len() > 0 {
        match mode {
            TagsMode::And => {
                let mut i: usize = 0;
                while i < tags.len()
                    invariant
                        i <= tags@.len(),
                        tv == views(tags@),
                        clause_views(out@) == mid + tv.take(i as int).map_values(
                            |t: Seq<char>| (0nat, "tags"@, seq![t]),
                        ),
                    decreases tags@.len() - i,
                {
                    push_clause(out, FilterClause::Must("tags".to_string(), tags[i].clone()));
                    proof {
                        assert(tv.take(i as int + 1).map_values(|t: Seq<char>| (0nat, "tags"@, seq![t]))
                            =~= tv.take(i as int).map_values(|t: Seq<char>| (0nat, "tags"@, seq![t])).push(
                            (0nat, "tags"@, seq![tags@[i as int]@]),
                        ));
                    }
                    i += 1;
                }
                proof {
                    assert(tv.take(tags@.len() as int) =~= tv);
                }
            },
            TagsMode::Or => {
                let mut all: Vec<String> = Vec::new();
                let mut i: usize = 0;
                while i < tags.len()
                    invariant
                        i <= tags@.len(),
                        views(all@) == views(tags@).take(i as int),
                    decreases tags@.len() - i,
                {
                    let ghost before = views(all@);
                    all.push(tags[i].clone());
                    proof {
                        assert(views(all@) =~= before.push(tags@[i as int]@));
                        assert(views(tags@).take(i as int + 1) =~= views(tags@).take(i as int).push(tags@[i as int]@));
                        assert(views(all@) =~= views(tags@).take(i as int + 1));
                    }
                    i += 1;
                }
                proof {
                    assert(views(tags@).take(tags@.len() as int) =~= views(tags@));
                }
                push_clause(out, FilterClause::AnyOf("tags".to_string(), all));
            },
        }
    }
    proof {
        assert(clause_views(out@) =~= start + list_filter_spec(
            opt_string_view(*page_type),
            opt_string_view(*status),
            views(tags@),
            mode,
        ));
    }
}

/// The filters of a search query.
pub fn search_filters(
    include_sections: bool,
    page_type: &Option<String>,
    status: &Option<String>,
    tags: &Vec<String>,
    mode: TagsMode,
) -> (r: Vec<FilterClause>)
    ensures
        clause_views(r@) == search_filter_spec(
            include_sections,
            opt_string_view(*page_type),
            opt_string_view(*status),
            views(tags@),
            mode,
        ),
{
    let mut out: Vec<FilterClause> = Vec::new();
    if !include_sections {
        push_clause(&mut out, FilterClause::MustNot("type".to_string(), "section".to_string()));
    }
    add_list_filters(&mut out, page_type, status, tags, mode);
    out
}

// ── Paging ───────────────────────────────────────────────────────────────────

/// A page size of zero.
#[derive(Debug, Clone, Copy, PartialEq, Eq, Structural)]
pub enum PageError {
    ZeroPageSize,
}

impl PageError {
    /// The error's message.
    pub fn message(&self) -> (r: String)
        ensures
            r@ == "page_size must be at least 1"@,
    {
        "page_size must be at least 1".to_string()
    }
}

/// The window of a 1-based page: the offset of its first entry and the number
/// of leading entries to fetch (through its last entry).
pub fn page_window(page: usize, page_size: usize) -> (r: Result<(usize, usize), PageError>)
    requires
        page_size > 0 ==> page >= 1,
        page * page_size <= usize::MAX,
    ensures
        page_size == 0 <==> r is Err,
        r matches Ok((offset, limit)) ==> offset == (page - 1) * page_size && limit == page * page_size,
{
    if page_size == 0 {
        return Err(PageError::ZeroPageSize);
    }
    proof {
        assert((page - 1) * page_size + page_size == page * page_size) by (nonlinear_arith);
        assert((page - 1) * page_size <= page * page_size) by (nonlinear_arith)
            requires page >= 1;
    }
    let offset = (page - 1) * page_size;
    Ok((offset, offset + page_size))
}

// ── Facet counts ─────────────────────────────────────────────────────────────

/// Where `key` is among the counted keys at or after `i`.
pub open spec fn key_pos(acc: Seq<(nat, Seq<char>)>, key: Seq<char>, i: int) -> Option<int>
    decreases acc.len() - i,
{
    if i < 0 || i >= acc.len() {
        None
    } else if acc[i].1 == key {
        Some(i)
    } else {
        key_pos(acc, key, i + 1)
    }
}

/// Add `n` to the count of `key`, appending the key when it is new.
pub open spec fn add_count(acc: Seq<(nat, Seq<char>)>, key: Seq<char>, n: nat) -> Seq<(nat, Seq<char>)> {
    match key_pos(acc, key, 0) {
        Some(i) => acc.update(i, ((acc[i].0 + n) as nat, key)),
        None => acc.push((n, key)),
    }
}

/// Add the counts of `pairs`, in order.
pub open spec fn merge_into(acc: Seq<(nat, Seq<char>)>, pairs: Seq<(nat, Seq<char>)>) -> Seq<(nat, Seq<char>)>
    decreases pairs.len(),
{
    if pairs.len() == 0 {
        acc
    } else {
        let a = merge_into(acc, pairs.drop_last());
        add_count(a, pairs.last().1, pairs.last().0)
    }
}

/// The counts of all partial results summed per key, keys in order of first appearance.
pub open spec fn merge_all(fruits: Seq<Seq<(nat, Seq<char>)>>) -> Seq<(nat, Seq<char>)>
    decreases fruits.len(),
{
    if fruits.len() == 0 {
        Seq::empty()
    } else {
        merge_into(merge_all(fruits.drop_last()), fruits.last())
    }
}

/// The sum of the counts of `pairs`.
pub open spec fn count_total(pairs: Seq<(nat, Seq<char>)>) -> nat
    decreases pairs.len(),
{
    if pairs.len() == 0 {
        0
    } else {
        count_total(pairs.drop_last()) + pairs.last().0
    }
}

/// The sum of all counts of all partial results.
pub open spec fn fruits_total(fruits: Seq<Seq<(nat, Seq<char>)>>) -> nat
    decreases fruits.len(),
{
    if fruits.len() == 0 {
        0
    } else {
        fruits_total(fruits.drop_last()) + count_total(fruits.last())
    }
}

/// The facet of merged counts: all of them, or, with a positive `top_n`
/// smaller than their number, the `top_n` largest (earlier keys first among equal counts).
pub open spec fn facet_of(merged: Seq<(nat, Seq<char>)>, top_n: usize) -> Seq<(nat, Seq<char>)> {
    if top_n > 0 && merged.len() > top_n {
        crate::render_llms::sort_pairs(merged, false).take(top_n as int)
    } else {
        merged
    }
}

proof fn lemma_key_pos(acc: Seq<(nat, Seq<char>)>, key: Seq<char>, i: int)
    requires
        0 <= i,
    ensures
        key_pos(acc, key, i) matches Some(k) ==> i <= k < acc.len() && acc[k].1 == key,
        key_pos(acc, key, i) is None ==> forall|j: int| i <= j < acc.len() ==> acc[j].1 != key,
    decreases acc.len() - i,
{
    if i < acc.len() && acc[i].1 != key {
        lemma_key_pos(acc, key, i + 1);
    }
}

proof fn lemma_add_count_total(acc: Seq<(nat, Seq<char>)>, key: Seq<char>, n: nat)
    ensures
        count_total(add_count(acc, key, n)) == count_total(acc) + n,
        forall|k: int| 0 <= k < add_count(acc, key, n).len() ==> #[trigger] add_count(acc, key, n)[k].0 <= count_total(
            add_count(acc, key, n),
        ),
{
    lemma_key_pos(acc, key, 0);
    match key_pos(acc, key, 0) {
        Some(i) => {
            lemma_total_update(acc, i, ((acc[i].0 + n) as nat, key));
        },
        None => {
            assert(acc.push((n, key)).drop_last() =~= acc);
        },
    }
    lemma_entries_le_total(add_count(acc, key, n));
}

proof fn lemma_total_update(acc: Seq<(nat, Seq<char>)>, i: int, x: (nat, Seq<char>))
    requires
        0 <= i < acc.len(),
    ensures
        count_total(acc.update(i, x)) == count_total(acc) - acc[i].0 + x.0,
    decreases acc.len(),
{
    if i < acc.len() - 1 {
        lemma_total_update(acc.drop_last(), i, x);
        assert(acc.update(i, x).drop_last() =~= acc.drop_last().update(i, x));
    } else {
        assert(acc.update(i, x).drop_last() =~= acc.drop_last());
    }
}

proof fn lemma_entries_le_total(acc: Seq<(nat, Seq<char>)>)
    ensures
        forall|k: int| 0 <= k < acc.len() ==> #[trigger] acc[k].0 <= count_total(acc),
    decreases acc.len(),
{
    if acc.len() > 0 {
        lemma_entries_le_total(acc.drop_last());
        assert forall|k: int| 0 <= k < acc.len() implies #[trigger] acc[k].0 <= count_total(acc) by {
            if k < acc.len() - 1 {
                assert(acc[k] == acc.drop_last()[k]);
            }
        }
    }
}

proof fn lemma_merge_into_total(acc: Seq<(nat, Seq<char>)>, pairs: Seq<(nat, Seq<char>)>)
    ensures
        count_total(merge_into(acc, pairs)) == count_total(acc) + count_total(pairs),
    decreases pairs.len(),
{
    if pairs.len() > 0 {
        lemma_merge_into_total(acc, pairs.drop_last());
        lemma_add_count_total(merge_into(acc, pairs.drop_last()), pairs.last().1, pairs.last().0);
    }
}

/// Merging partial counts keeps the total: the merged counts add up to the
/// sum of all partial counts.
pub proof fn law_merge_keeps_total(fruits: Seq<Seq<(nat, Seq<char>)>>)
    ensures
        count_total(merge_all(fruits)) == fruits_total(fruits),
    decreases fruits.len(),
{
    if fruits.len() > 0 {
        law_merge_keeps_total(fruits.drop_last());
        lemma_merge_into_total(merge_all(fruits.drop_last()), fruits.last());
    }
}

/// Partial results as values.
pub open spec fn fruit_views(v: Seq<Vec<(u64, String)>>) -> Seq<Seq<(nat, Seq<char>)>> {
    v.map_values(|f: Vec<(u64, String)>| crate::render_llms::pair_views(f@))
}

fn add_count_exec(acc: &mut Vec<(u64, String)>, key: &String, n: u64)
    requires
        count_total(crate::render_llms::pair_views(old(acc)@)) + n <= u64::MAX,
    ensures
        crate::render_llms::pair_views(final(acc)@) == add_count(crate::render_llms::pair_views(old(acc)@), key@, n as nat),
{
    let ghost pv = crate::render_llms::pair_views(acc@);
    proof {
        lemma_key_pos(pv, key@, 0);
        lemma_entries_le_total(pv);
    }
    let mut i: usize = 0;
    while i < acc.len()
        invariant
            i <= acc@.len(),
            pv == crate::render_llms::pair_views(acc@),
            key_pos(pv, key@, 0) == key_pos(pv, key@, i as int),
            *acc == *old(acc),
            pv == crate::render_llms::pair_views(old(acc)@),
            count_total(pv) + n <= u64::MAX,
            forall|k: int| 0 <= k < pv.len() ==> #[trigger] pv[k].0 <= count_total(pv),
        decreases acc@.len() - i,
    {
        proof {
            assert(pv[i as int] == (acc@[i as int].0 as nat, acc@[i as int].1@));
        }
        if crate::text::str_eq(acc[i].1.as_str(), key.as_str()) {
            proof {
                assert(acc@[i as int].0 <= count_total(pv));
            }
            let v = acc[i].0 + n;
            acc.set(i, (v, key.clone()));
            proof {
                assert(crate::render_llms::pair_views(acc@) =~= pv.update(i as int, ((pv[i as int].0 + n) as nat, key@)));
            }
            return;
        }
        i += 1;
    }
    acc.push((n, key.clone()));
    proof {
        assert(crate::render_llms::pair_views(acc@) =~= pv.push((n as nat, key@)));
    }
}

/// Merge partial facet counts (each a list of (count, value)): counts of
/// equal values are summed, values in order of first appearance; with a
/// positive `top_n` smaller than the number of values, only the `top_n`
/// largest counts are kept.
pub fn merge_facet_counts(fruits: &Vec<Vec<(u64, String)>>, top_n: usize) -> (r: Vec<(u64, String)>)
    requires
        fruits_total(fruit_views(fruits@)) <= u64::MAX,
    ensures
        crate::render_llms::pair_views(r@) == facet_of(merge_all(fruit_views(fruits@)), top_n),
{
    let ghost fv = fruit_views(fruits@);
    let mut acc: Vec<(u64, String)> = Vec::new();
    let mut i: usize = 0;
    proof {
        assert(crate::render_llms::pair_views(acc@) =~= Seq::<(nat, Seq<char>)>::empty());
    }
    while i < fruits.len()
        invariant
            i <= fruits@.len(),
            fv == fruit_views(fruits@),
            fruits_total(fv) <= u64::MAX,
            crate::render_llms::pair_views(acc@) == merge_all(fv.take(i as int)),
        decreases fruits@.len() - i,
    {
        proof {
            assert(fv.take(i as int + 1).drop_last() =~= fv.take(i as int));
            assert(fv.take(i as int + 1).last() == crate::render_llms::pair_views(fruits@[i as int]@));
            lemma_fruits_prefix(fv, i as int + 1);
            law_merge_keeps_total(fv.take(i as int));
        }
        let f = &fruits[i];
        let ghost base = crate::render_llms::pair_views(acc@);
        let ghost fp = crate::render_llms::pair_views(f@);
        let mut j: usize = 0;
        while j < f.len()
            invariant
                j <= f@.len(),
                fp == crate::render_llms::pair_views(f@),
                count_total(base) + count_total(fp) <= u64::MAX,
                crate::render_llms::pair_views(acc@) == merge_into(base, fp.take(j as int)),
            decreases f@.len() - j,
        {
            proof {
                assert(fp.take(j as int + 1).drop_last() =~= fp.take(j as int));
                assert(fp.take(j as int + 1).last() == (f@[j as int].0 as nat, f@[j as int].1@));
                lemma_merge_into_total(base, fp.take(j as int));
                lemma_count_prefix(fp, j as int + 1);
            }
            add_count_exec(&mut acc, &f[j].1, f[j].0);
            j += 1;
        }
        proof {
            assert(fp.take(f@.len() as int) =~= fp);
        }
        i += 1;
    }
    proof {
        assert(fv.take(fruits@.len() as int) =~= fv);
    }
    if top_n > 0 && acc.len() > top_n {
        let sorted = crate::render_llms::sort_counted(acc, false);
        proof {
            crate::render_llms::lemma_sort_pairs_len(crate::render_llms::pair_views(acc@), false);
        }
        let mut out: Vec<(u64, String)> = Vec::new();
        let mut k: usize = 0;
        while k < top_n
            invariant
                k <= top_n,
                top_n <= sorted@.len(),
                crate::render_llms::pair_views(out@) == crate::render_llms::pair_views(sorted@).take(k as int),
            decreases top_n - k,
        {
            let ghost before = crate::render_llms::pair_views(out@);
            out.push((sorted[k].0, sorted[k].1.clone()));
            proof {
                assert(crate::render_llms::pair_views(sorted@)[k as int] == (sorted@[k as int].0 as nat, sorted@[k as int].1@));
                assert(crate::render_llms::pair_views(out@) =~= before.push((sorted@[k as int].0 as nat, sorted@[k as int].1@)));
                assert(crate::render_llms::pair_views(out@) =~= crate::render_llms::pair_views(sorted@).take(k as int + 1));
            }
            k += 1;
        }
        out
    } else {
        acc
    }
}

proof fn lemma_count_prefix(pairs: Seq<(nat, Seq<char>)>, n: int)
    requires
        0 <= n <= pairs.len(),
    ensures
        count_total(pairs.take(n)) <= count_total(pairs),
    decreases pairs.len() - n,
{
    if n < pairs.len() {
        lemma_count_prefix(pairs, n + 1);
        assert(pairs.take(n + 1).drop_last() =~= pairs.take(n));
    } else {
        assert(pairs.take(n) =~= pairs);
    }
}

proof fn lemma_fruits_prefix(fruits: Seq<Seq<(nat, Seq<char>)>>, n: int)
    requires
        0 <= n <= fruits.len(),
    ensures
        fruits_total(fruits.take(n)) <= fruits_total(fruits),
        n > 0 ==> fruits_total(fruits.take(n - 1)) + count_total(fruits[n - 1]) == fruits_total(fruits.take(n)),
    decreases fruits.len() - n,
{
    if n > 0 {
        assert(fruits.take(n).drop_last() =~= fruits.take(n - 1));
    }
    if n < fruits.len() {
        lemma_fruits_prefix(fruits, n + 1);
        assert(fruits.take(n + 1).drop_last() =~= fruits.take(n));
    } else {
        assert(fruits.take(n) =~= fruits);
    }
}

} // verus!
