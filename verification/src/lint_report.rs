//! Running the lint rules and shaping their report.
use vstd::prelude::*;

use crate::graph::WikiGraph;
use crate::lint::{
    broken_findings, fview, fviews, missing_findings, orphan_findings, record_slugs, rule_broken_link,
    rule_missing_fields, rule_orphan, rule_stale, rule_unknown_type, severity_name, stale_findings,
    unknown_findings, DocRecord, FindingV, LintFinding, Severity, TypeInfo,
};
use crate::lint_graph::{
    ap_findings, bridge_findings, periphery_findings, rule_articulation_point, rule_bridge,
    rule_periphery,
};
use crate::links::views;
use crate::slug::lowercase;
use crate::text::{
    has_prefix, split_on, split_trimmed, starts_with, str_eq, to_chars, trim, trim_all, trim_bounds,
};

verus! {

// ── Ordering findings ────────────────────────────────────────────────────────

/// Lexicographic order on strings, by character (which is the byte order of
/// their UTF-8 encodings).
pub open spec fn str_lt(a: Seq<char>, b: Seq<char>) -> bool
    decreases a.len(),
{
    if a.len() == 0 {
        b.len() > 0
    } else if b.len() == 0 {
        false
    } else if a[0] != b[0] {
        a[0] < b[0]
    } else {
        str_lt(a.drop_first(), b.drop_first())
    }
}

/// Whether `a` sorts before `b`.
pub fn str_less(a: &str, b: &str) -> (r: bool)
    ensures
        r == str_lt(a@, b@),
{
    let x = to_chars(a);
    let y = to_chars(b);
    proof {
        assert(x@.subrange(0, x.len() as int) =~= x@);
        assert(y@.subrange(0, y.len() as int) =~= y@);
    }
    let mut i: usize = 0;
    while i < x.len() && i < y.len() && x[i] == y[i]
        invariant
            i <= x.len(),
            i <= y.len(),
            x@ == a@,
            y@ == b@,
            str_lt(a@, b@) == str_lt(x@.subrange(i as int, x.len() as int), y@.subrange(
                i as int,
                y.len() as int,
            )),
        decreases x.len() - i,
    {
        proof {
            let xs = x@.subrange(i as int, x.len() as int);
            let ys = y@.subrange(i as int, y.len() as int);
            assert(xs.drop_first() =~= x@.subrange(i + 1, x.len() as int));
            assert(ys.drop_first() =~= y@.subrange(i + 1, y.len() as int));
        }
        i += 1;
    }
    proof {
        assert(x@.subrange(0, x.len() as int) =~= x@);
        assert(y@.subrange(0, y.len() as int) =~= y@);
    }
    if i == x.len() {
        i < y.len()
    } else if i == y.len() {
        false
    } else {
        x[i] < y[i]
    }
}

/// Finding `x` sorts before `y`: by slug, then by rule.
pub open spec fn flt(x: FindingV, y: FindingV) -> bool {
    str_lt(x.0, y.0) || (x.0 == y.0 && str_lt(x.1, y.1))
}

/// Where `x` goes in the sorted `s`: after every finding it does not sort before.
pub open spec fn ins_pos(s: Seq<FindingV>, x: FindingV) -> int
    decreases s.len(),
{
    if s.len() == 0 {
        0
    } else if flt(x, s.last()) {
        ins_pos(s.drop_last(), x)
    } else {
        s.len() as int
    }
}

/// The findings in stable order by slug, then rule.
pub open spec fn sort_findings(s: Seq<FindingV>) -> Seq<FindingV>
    decreases s.len(),
{
    if s.len() == 0 {
        Seq::empty()
    } else {
        let t = sort_findings(s.drop_last());
        t.insert(ins_pos(t, s.last()), s.last())
    }
}

proof fn lemma_ins_pos_bounds(s: Seq<FindingV>, x: FindingV)
    ensures
        0 <= ins_pos(s, x) <= s.len(),
    decreases s.len(),
{
    if s.len() > 0 {
        lemma_ins_pos_bounds(s.drop_last(), x);
    }
}

proof fn lemma_sort_len(s: Seq<FindingV>)
    ensures
        sort_findings(s).len() == s.len(),
    decreases s.len(),
{
    if s.len() > 0 {
        lemma_sort_len(s.drop_last());
        lemma_ins_pos_bounds(sort_findings(s.drop_last()), s.last());
    }
}

fn finding_lt(a: &LintFinding, b: &LintFinding) -> (r: bool)
    ensures
        r == flt(fview(*a), fview(*b)),
{
    str_less(a.slug.as_str(), b.slug.as_str()) || (str_eq(a.slug.as_str(), b.slug.as_str())
        && str_less(a.rule.as_str(), b.rule.as_str()))
}

/// Sort findings by slug, then rule, keeping the order of equal keys.
pub fn sort_lint_findings(fs: Vec<LintFinding>) -> (r: Vec<LintFinding>)
    ensures
        fviews(r@) == sort_findings(fviews(fs@)),
{
    let ghost fv = fviews(fs@);
    let mut out: Vec<LintFinding> = Vec::new();
    let mut i: usize = 0;
    while i < fs.len()
        invariant
            i <= fs.len(),
            fv == fviews(fs@),
            fviews(out@) == sort_findings(fv.take(i as int)),
            out@.len() == i,
        decreases fs.len() - i,
    {
        proof {
            assert(fv.take(i as int + 1).drop_last() =~= fv.take(i as int));
            assert(fv.take(i as int + 1).last() == fview(fs@[i as int]));
        }
        let x = fs[i].clone();
        let ghost sorted = fviews(out@);
        let mut p = out.len();
        proof {
            assert(sorted.take(p as int) =~= sorted);
        }
        while p > 0 && finding_lt(&x, &out[p - 1])
            invariant
                p <= out@.len(),
                sorted == fviews(out@),
                ins_pos(sorted, fview(x)) == ins_pos(sorted.take(p as int), fview(x)),
            decreases p,
        {
            proof {
                let t = sorted.take(p as int);
                assert(t.drop_last() =~= sorted.take(p - 1));
                assert(t.last() == fview(out@[p - 1]));
            }
            p -= 1;
        }
        proof {
            if p > 0 {
                assert(sorted.take(p as int).last() == fview(out@[p - 1]));
            }
            assert(sorted.take(p as int).len() == p);
        }
        let ghost pos = p as int;
        out.insert(p, x);
        proof {
            assert(fviews(out@) =~= sorted.insert(pos, fview(x)));
        }
        i += 1;
    }
    proof {
        assert(fv.take(fs.len() as int) =~= fv);
    }
    out
}

// ── Filters and counts ───────────────────────────────────────────────────────

/// The findings whose slug starts with `prefix`.
pub open spec fn keep_prefix(fs: Seq<FindingV>, prefix: Seq<char>) -> Seq<FindingV>
    decreases fs.len(),
{
    if fs.len() == 0 {
        Seq::empty()
    } else {
        keep_prefix(fs.drop_last(), prefix) + if has_prefix(fs.last().0, prefix) {
            seq![fs.last()]
        } else {
            Seq::empty()
        }
    }
}

/// The findings whose severity is named `name`.
pub open spec fn keep_severity(fs: Seq<FindingV>, name: Seq<char>) -> Seq<FindingV>
    decreases fs.len(),
{
    if fs.len() == 0 {
        Seq::empty()
    } else {
        keep_severity(fs.drop_last(), name) + if severity_name(fs.last().2) == name {
            seq![fs.last()]
        } else {
            Seq::empty()
        }
    }
}

/// The number of findings of severity `s`.
pub open spec fn count_severity(fs: Seq<FindingV>, s: Severity) -> nat
    decreases fs.len(),
{
    if fs.len() == 0 {
        0
    } else {
        count_severity(fs.drop_last(), s) + if fs.last().2 == s {
            1nat
        } else {
            0nat
        }
    }
}

/// The number of findings of rule `r`.
pub open spec fn count_rule(fs: Seq<FindingV>, r: Seq<char>) -> nat
    decreases fs.len(),
{
    if fs.len() == 0 {
        0
    } else {
        count_rule(fs.drop_last(), r) + if fs.last().1 == r {
            1nat
        } else {
            0nat
        }
    }
}

/// The rules of the findings, each once, in order of first appearance.
pub open spec fn rules_in(fs: Seq<FindingV>) -> Seq<Seq<char>>
    decreases fs.len(),
{
    if fs.len() == 0 {
        Seq::empty()
    } else {
        let rest = rules_in(fs.drop_last());
        if rest.contains(fs.last().1) {
            rest
        } else {
            rest.push(fs.last().1)
        }
    }
}

/// The finding count of each rule, rules in order of first appearance.
pub open spec fn by_rule(fs: Seq<FindingV>) -> Seq<(Seq<char>, nat)> {
    rules_in(fs).map_values(|r: Seq<char>| (r, count_rule(fs, r)))
}

proof fn lemma_count_bounds(fs: Seq<FindingV>, s: Severity, r: Seq<char>)
    ensures
        count_severity(fs, s) <= fs.len(),
        count_rule(fs, r) <= fs.len(),
    decreases fs.len(),
{
    if fs.len() > 0 {
        lemma_count_bounds(fs.drop_last(), s, r);
    }
}

proof fn lemma_keep_len(fs: Seq<FindingV>, p: Seq<char>)
    ensures
        keep_prefix(fs, p).len() <= fs.len(),
        keep_severity(fs, p).len() <= fs.len(),
    decreases fs.len(),
{
    if fs.len() > 0 {
        lemma_keep_len(fs.drop_last(), p);
    }
}

fn filter_prefix(fs: Vec<LintFinding>, prefix: &str) -> (r: Vec<LintFinding>)
    ensures
        fviews(r@) == keep_prefix(fviews(fs@), prefix@),
{
    let ghost fv = fviews(fs@);
    let mut out: Vec<LintFinding> = Vec::new();
    let mut i: usize = 0;
    while i < fs.len()
        invariant
            i <= fs.len(),
            fv == fviews(fs@),
            fviews(out@) == keep_prefix(fv.take(i as int), prefix@),
        decreases fs.len() - i,
    {
        proof {
            assert(fv.take(i as int + 1).drop_last() =~= fv.take(i as int));
            assert(fv.take(i as int + 1).last() == fview(fs@[i as int]));
        }
        let ghost before = fviews(out@);
        if starts_with(fs[i].slug.as_str(), prefix) {
            out.push(fs[i].clone());
            proof {
                assert(fviews(out@) =~= before + seq![fview(fs@[i as int])]);
            }
        } else {
            proof {
                assert(fviews(out@) =~= before + Seq::<FindingV>::empty());
            }
        }
        i += 1;
    }
    proof {
        assert(fv.take(fs.len() as int) =~= fv);
    }
    out
}

fn filter_severity(fs: Vec<LintFinding>, name: &str) -> (r: Vec<LintFinding>)
    ensures
        fviews(r@) == keep_severity(fviews(fs@), name@),
{
    let ghost fv = fviews(fs@);
    let mut out: Vec<LintFinding> = Vec::new();
    let mut i: usize = 0;
    while i < fs.len()
        invariant
            i <= fs.len(),
            fv == fviews(fs@),
            fviews(out@) == keep_severity(fv.take(i as int), name@),
        decreases fs.len() - i,
    {
        proof {
            assert(fv.take(i as int + 1).drop_last() =~= fv.take(i as int));
            assert(fv.take(i as int + 1).last() == fview(fs@[i as int]));
        }
        let ghost before = fviews(out@);
        let sev = fs[i].severity.to_string();
        if str_eq(sev.as_str(), name) {
            out.push(fs[i].clone());
            proof {
                assert(fviews(out@) =~= before + seq![fview(fs@[i as int])]);
            }
        } else {
            proof {
                assert(fviews(out@) =~= before + Seq::<FindingV>::empty());
            }
        }
        i += 1;
    }
    proof {
        assert(fv.take(fs.len() as int) =~= fv);
    }
    out
}

fn count_sev(fs: &Vec<LintFinding>, s: Severity) -> (r: usize)
    ensures
        r == count_severity(fviews(fs@), s),
{
    let ghost fv = fviews(fs@);
    let mut n: usize = 0;
    let mut i: usize = 0;
    while i < fs.len()
        invariant
            i <= fs.len(),
            fv == fviews(fs@),
            n == count_severity(fv.take(i as int), s),
            n <= i,
        decreases fs.len() - i,
    {
        proof {
            assert(fv.take(i as int + 1).drop_last() =~= fv.take(i as int));
            assert(fv.take(i as int + 1).last() == fview(fs@[i as int]));
        }
        if fs[i].severity == s {
            n += 1;
        }
        i += 1;
    }
    proof {
        assert(fv.take(fs.len() as int) =~= fv);
    }
    n
}

/// Counted rules as values.
pub open spec fn entries(v: Seq<(String, usize)>) -> Seq<(Seq<char>, nat)> {
    v.map_values(|e: (String, usize)| (e.0@, e.1 as nat))
}

/// The finding count of each rule.
fn count_by_rule(fs: &Vec<LintFinding>) -> (r: Vec<(String, usize)>)
    ensures
        entries(r@) == by_rule(fviews(fs@)),
{
    let ghost fv = fviews(fs@);
    let mut out: Vec<(String, usize)> = Vec::new();
    let mut i: usize = 0;
    while i < fs.len()
        invariant
            i <= fs.len(),
            fv == fviews(fs@),
            entries(out@) == by_rule(fv.take(i as int)),
            forall|k: int| 0 <= k < out@.len() ==> #[trigger] out@[k].1 <= i,
        decreases fs.len() - i,
    {
        let ghost t0 = fv.take(i as int);
        let ghost t1 = fv.take(i as int + 1);
        proof {
            assert(t1.drop_last() =~= t0);
            assert(t1.last() == fview(fs@[i as int]));
        }
        let rule = fs[i].rule.as_str();
        let ghost rv = rules_in(t0);
        proof {
            assert(entries(out@).len() == out@.len());
            assert(by_rule(t0).len() == rv.len());
        }
        let mut k: usize = 0;
        while k < out.len() && !str_eq(out[k].0.as_str(), rule)
            invariant
                k <= out@.len() == rv.len(),
                rv == rules_in(t0),
                entries(out@) == by_rule(t0),
                forall|j: int| 0 <= j < k ==> rv[j] != rule@,
            decreases out@.len() - k,
        {
            proof {
                assert(entries(out@)[k as int].0 == out@[k as int].0@);
            }
            k += 1;
        }
        let ghost before = out@;
        if k < out.len() {
            proof {
                assert(entries(out@)[k as int].0 == out@[k as int].0@);
                assert(rv[k as int] == rule@);
                assert(rules_in(t1) == rv);
                lemma_count_bounds(t0, Severity::Error, rule@);
            }
            let (name, c) = out.remove(k);
            out.insert(k, (name, c + 1));
            proof {
                assert forall|j: int| 0 <= j < out@.len() implies #[trigger] entries(out@)[j] == by_rule(t1)[j] by {
                    assert(by_rule(t0)[j] == entries(before)[j]);
                    if j != k {
                        assert(out@[j] == before[j]);
                        assert(rv[j] != rule@) by {
                            lemma_rules_in_distinct(t0);
                        }
                    }
                }
                assert(entries(out@) =~= by_rule(t1));
            }
        } else {
            proof {
                assert(!rv.contains(rule@));
                assert(rules_in(t1) == rv.push(rule@));
                lemma_count_zero(t0, rule@);
            }
            out.push((fs[i].rule.clone(), 1));
            proof {
                assert forall|j: int| 0 <= j < out@.len() implies #[trigger] entries(out@)[j] == by_rule(t1)[j] by {
                    if j < before.len() {
                        assert(by_rule(t0)[j] == entries(before)[j]);
                        assert(out@[j] == before[j]);
                    }
                }
                assert(entries(out@) =~= by_rule(t1));
            }
        }
        i += 1;
    }
    proof {
        assert(fv.take(fs.len() as int) =~= fv);
    }
    out
}

/// The rules listed once each.
proof fn lemma_rules_in_distinct(fs: Seq<FindingV>)
    ensures
        forall|a: int, b: int|
            0 <= a < b < rules_in(fs).len() ==> rules_in(fs)[a] != rules_in(fs)[b],
    decreases fs.len(),
{
    if fs.len() > 0 {
        lemma_rules_in_distinct(fs.drop_last());
        let rest = rules_in(fs.drop_last());
        if !rest.contains(fs.last().1) {
            assert forall|a: int, b: int|
                0 <= a < b < rules_in(fs).len() implies rules_in(fs)[a] != rules_in(fs)[b] by {
                if b == rest.len() {
                    assert(rules_in(fs)[a] == rest[a]);
                }
            }
        }
    }
}

/// A rule that does not occur has no findings.
proof fn lemma_count_zero(fs: Seq<FindingV>, r: Seq<char>)
    requires
        !rules_in(fs).contains(r),
    ensures
        count_rule(fs, r) == 0,
    decreases fs.len(),
{
    if fs.len() > 0 {
        let rest = rules_in(fs.drop_last());
        if rest.contains(r) {
            let k = choose|k: int| 0 <= k < rest.len() && rest[k] == r;
            if rest.contains(fs.last().1) {
                assert(rules_in(fs)[k] == r);
            } else {
                assert(rules_in(fs)[k] == r);
            }
        }
        if fs.last().1 == r {
            if rest.contains(fs.last().1) {
                assert(rules_in(fs) == rest);
            } else {
                assert(rules_in(fs)[rest.len() as int] == r);
            }
        }
        lemma_count_zero(fs.drop_last(), r);
    }
}

// ── Rule selection ───────────────────────────────────────────────────────────

/// The rules run when none are named.
pub open spec fn default_rules() -> Seq<Seq<char>> {
    seq![
        "orphan"@,
        "broken-link"@,
        "broken-cross-wiki-link"@,
        "missing-fields"@,
        "stale"@,
        "unknown-type"@,
        "articulation-point"@,
        "bridge"@,
        "periphery"@,
    ]
}

/// Rule `name` is selected: by default when no (or an empty) list is given,
/// else when it is one of the comma-separated, trimmed names.
pub open spec fn rule_on(rules: Option<Seq<char>>, name: Seq<char>) -> bool {
    match rules {
        None => default_rules().contains(name),
        Some(s) => if s.len() == 0 {
            default_rules().contains(name)
        } else {
            trim_all(split_on(s, ',')).contains(name)
        },
    }
}

/// Whether rule `name` is selected by `rules`.
pub fn rule_active(rules: Option<&str>, name: &str) -> (r: bool)
    ensures
        r == rule_on(
            match rules {
                Some(s) => Some(s@),
                None => None,
            },
            name@,
        ),
{
    let defaults: [&str; 9] = [
        "orphan",
        "broken-link",
        "broken-cross-wiki-link",
        "missing-fields",
        "stale",
        "unknown-type",
        "articulation-point",
        "bridge",
        "periphery",
    ];
    let use_defaults = match rules {
        None => true,
        Some(s) => s.is_empty(),
    };
    if use_defaults {
        proof {
            assert(defaults@.map_values(|x: &str| x@) =~= default_rules());
        }
        let mut k: usize = 0;
        while k < 9
            invariant
                k <= 9,
                defaults@.map_values(|x: &str| x@) == default_rules(),
                rule_on(opt_view(rules), name@) == default_rules().contains(name@),
                forall|j: int| 0 <= j < k ==> default_rules()[j] != name@,
            decreases 9 - k,
        {
            if str_eq(defaults[k], name) {
                assert(defaults@.map_values(|x: &str| x@)[k as int] == defaults@[k as int]@);
                assert(default_rules()[k as int] == name@);
                assert(default_rules().contains(name@));
                return true;
            }
            assert(default_rules()[k as int] == defaults@[k as int]@);
            k += 1;
        }
        return false;
    }
    let s = match rules {
        Some(s) => s,
        None => "",
    };
    let pieces = split_trimmed(s, ',');
    let ghost pv = pieces@.map_values(|x: String| x@);
    let mut k: usize = 0;
    while k < pieces.len()
        invariant
            k <= pieces@.len() == pv.len(),
            pv == pieces@.map_values(|x: String| x@),
            pv == trim_all(split_on(s@, ',')),
            opt_view(rules) == Some(s@),
            s@.len() != 0,
            forall|j: int| 0 <= j < k ==> pv[j] != name@,
        decreases pieces@.len() - k,
    {
        if str_eq(pieces[k].as_str(), name) {
            assert(pv[k as int] == name@);
            return true;
        }
        assert(pv[k as int] == pieces@[k as int]@);
        k += 1;
    }
    false
}

// ── Reports ──────────────────────────────────────────────────────────────────

/// Options for a lint run. All fields default to their zero or `None` values.
pub struct LintOptions<'a> {
    /// Comma-separated rule names; `None` runs all rules.
    pub rules: Option<&'a str>,
    /// Restrict to `error` or `warning`; `None` keeps all severities.
    pub severity: Option<&'a str>,
    /// Return counts only, without the findings.
    pub summary: bool,
    /// Restrict findings to slugs starting with this prefix.
    pub path_prefix: Option<&'a str>,
    /// Maximum findings per response; `None` returns all.
    pub page_size: Option<usize>,
    /// Zero-based offset into the sorted findings.
    pub cursor: Option<usize>,
}

impl<'a> Default for LintOptions<'a> {
    fn default() -> (r: Self)
        ensures
            r.rules is None,
            r.severity is None,
            !r.summary,
            r.path_prefix is None,
            r.page_size is None,
            r.cursor is None,
    {
        LintOptions {
            rules: None,
            severity: None,
            summary: false,
            path_prefix: None,
            page_size: None,
            cursor: None,
        }
    }
}

/// Aggregate results of a lint run against a wiki.
#[derive(Debug)]
pub struct LintReport {
    /// Name of the wiki that was linted.
    pub wiki: String,
    /// Number of findings after the prefix and severity filters, before pagination.
    pub total: usize,
    /// Number of error findings among them.
    pub errors: usize,
    /// Number of warning findings among them.
    pub warnings: usize,
    /// The findings of the requested page (none in summary mode).
    pub findings: Vec<LintFinding>,
    /// Whether more findings follow the page.
    pub has_more: bool,
    /// Offset of the next page, when there is one.
    pub next_cursor: Option<usize>,
    /// Finding count per rule, in summary mode only.
    pub by_rule: Option<Vec<(String, usize)>>,
}

/// An optional string as an optional character sequence.
pub open spec fn opt_view(o: Option<&str>) -> Option<Seq<char>> {
    match o {
        Some(s) => Some(s@),
        None => None,
    }
}

/// The findings left after the prefix filter, then the severity filter
/// (against the trimmed, lower-cased severity asked for), in sorted order.
pub open spec fn kept_findings(fs: Seq<FindingV>, prefix: Option<Seq<char>>, severity: Option<Seq<char>>) -> Seq<
    FindingV,
> {
    let a = match prefix {
        Some(p) => keep_prefix(fs, p),
        None => fs,
    };
    let b = match severity {
        Some(s) => keep_severity(a, lowercase(trim(s))),
        None => a,
    };
    sort_findings(b)
}

/// Whether the requested page cannot be formed: its end lies beyond `usize`.
pub open spec fn page_fails(page_size: Option<usize>, cursor: Option<usize>) -> bool {
    match page_size {
        Some(size) => {
            let start = match cursor {
                Some(c) => c as int,
                None => 0,
            };
            start + size > usize::MAX
        },
        None => false,
    }
}

/// The report of a list of findings, or `None` when the page's end lies beyond
/// `usize`. The cursor is a zero-based offset into the kept findings; a cursor
/// at or past their end gives an empty page with nothing more to come.
pub open spec fn report_of(wiki: Seq<char>, fs: Seq<FindingV>, opts: LintOptions) -> Option<
    (Seq<char>, nat, nat, nat, Seq<FindingV>, bool, Option<int>, Option<Seq<(Seq<char>, nat)>>),
> {
    let sorted = kept_findings(fs, opt_view(opts.path_prefix), opt_view(opts.severity));
    let len = sorted.len() as int;
    if page_fails(opts.page_size, opts.cursor) {
        None
    } else {
        let (page, more, next): (Seq<FindingV>, bool, Option<int>) = match opts.page_size {
            Some(size) => {
                let start = match opts.cursor {
                    Some(c) => c as int,
                    None => 0,
                };
                let end = if start + size < len {
                    start + size
                } else {
                    len
                };
                (if start <= end {
                    sorted.subrange(start, end)
                } else {
                    Seq::empty()
                }, end < len, if end < len {
                    Some(end)
                } else {
                    None
                })
            },
            None => (sorted, false, None),
        };
        Some(
            (
                wiki,
                len as nat,
                count_severity(sorted, Severity::Error),
                count_severity(sorted, Severity::Warning),
                if opts.summary {
                    Seq::empty()
                } else {
                    page
                },
                more,
                next,
                if opts.summary {
                    Some(by_rule(sorted))
                } else {
                    None
                },
            ),
        )
    }
}

/// A report as values.
pub open spec fn report_view(r: LintReport) -> (
    Seq<char>,
    nat,
    nat,
    nat,
    Seq<FindingV>,
    bool,
    Option<int>,
    Option<Seq<(Seq<char>, nat)>>,
) {
    (
        r.wiki@,
        r.total as nat,
        r.errors as nat,
        r.warnings as nat,
        fviews(r.findings@),
        r.has_more,
        match r.next_cursor {
            Some(c) => Some(c as int),
            None => None,
        },
        match r.by_rule {
            Some(v) => Some(entries(v@)),
            None => None,
        },
    )
}

/// Filter, sort, count and page a list of findings. A cursor past the last
/// finding gives an empty page; `None` only when the page's end lies beyond
/// `usize`.
pub fn lint_report(wiki: &str, findings: Vec<LintFinding>, opts: &LintOptions) -> (r: Option<
    LintReport,
>)
    ensures
        match report_of(wiki@, fviews(findings@), *opts) {
            Some(v) => r matches Some(rep) && report_view(rep) == v,
            None => r is None,
        },
{
    let ghost fv = fviews(findings@);
    let a = match opts.path_prefix {
        Some(p) => filter_prefix(findings, p),
        None => findings,
    };
    let b = match opts.severity {
        Some(sev) => {
            let cs = to_chars(sev);
            let (x, y) = trim_bounds(&cs);
            let t = crate::text::from_char_range(&cs, x, y);
            let low = crate::slug::to_lowercase(t.as_str());
            filter_severity(a, low.as_str())
        },
        None => a,
    };
    let sorted = sort_lint_findings(b);
    let ghost sv = fviews(sorted@);
    proof {
        assert(sv == kept_findings(fv, opt_view(opts.path_prefix), opt_view(opts.severity)));
    }
    let total = sorted.len();
    let errors = count_sev(&sorted, Severity::Error);
    let warnings = count_sev(&sorted, Severity::Warning);
    let by = if opts.summary {
        Some(count_by_rule(&sorted))
    } else {
        None
    };
    let (page, more, next) = match opts.page_size {
        Some(size) => {
            let start = match opts.cursor {
                Some(c) => c,
                None => 0,
            };
            if size > usize::MAX - start {
                return None;
            }
            let end = if start + size < total {
                start + size
            } else {
                total
            };
            let mut page: Vec<LintFinding> = Vec::new();
            if start < end {
                let mut k = start;
                while k < end
                    invariant
                        start <= k <= end <= total == sorted@.len(),
                        fviews(page@) == fviews(sorted@).subrange(start as int, k as int),
                    decreases end - k,
                {
                    let ghost before = page@;
                    let item = sorted[k].clone();
                    page.push(item);
                    proof {
                        assert(fview(item) == fviews(sorted@)[k as int]);
                        assert(fviews(page@) =~= fviews(before).push(fview(item)));
                        assert(fviews(page@) =~= fviews(sorted@).subrange(start as int, k + 1));
                    }
                    k += 1;
                }
            } else {
                proof {
                    assert(fviews(page@) =~= Seq::<FindingV>::empty());
                    assert(fviews(sorted@).subrange(start as int, end as int) =~= Seq::<
                        FindingV,
                    >::empty() || start > end);
                }
            }
            let more = end < total;
            (page, more, if more {
                Some(end)
            } else {
                None
            })
        },
        None => (sorted, false, None),
    };
    let out = if opts.summary {
        Vec::new()
    } else {
        page
    };
    let rep = LintReport {
        wiki: wiki.to_owned(),
        total,
        errors,
        warnings,
        findings: out,
        has_more: more,
        next_cursor: next,
        by_rule: by,
    };
    proof {
        assert(fviews(rep.findings@) == if opts.summary {
            Seq::<FindingV>::empty()
        } else {
            fviews(page@)
        });
    }
    Some(rep)
}

// ── Running the rules ────────────────────────────────────────────────────────

/// Everything the lint rules read about a wiki.
pub struct LintInput {
    /// One record per indexed page with a slug.
    pub records: Vec<DocRecord>,
    /// The page types the registry knows.
    pub types: Vec<TypeInfo>,
    /// The names of the mounted wikis.
    pub mounted: Vec<String>,
    /// The index schema has a `last_updated` field.
    pub has_last_updated_field: bool,
    /// Pages last updated before this day (days from the common era) are old.
    pub stale_threshold_days: i32,
    /// The full concept graph of the wiki.
    pub graph: WikiGraph,
    /// The file path of each graph node, in index order.
    pub node_paths: Vec<String>,
    /// The periphery rule is skipped above this many local pages.
    pub max_nodes_for_diameter: usize,
}

/// The findings of the selected rules, rule after rule, before any filter.
pub open spec fn rule_findings(input: LintInput, rules: Option<Seq<char>>) -> Seq<FindingV> {
    let recs = input.records@;
    let nodes = input.graph.nodes();
    let edges = input.graph.edge_list();
    let paths = views(input.node_paths@);
    let none = Seq::<FindingV>::empty();
    (if rule_on(rules, "orphan"@) {
        orphan_findings(recs, recs)
    } else {
        none
    }) + (if rule_on(rules, "broken-link"@) || rule_on(rules, "broken-cross-wiki-link"@) {
        broken_findings(
            recs,
            record_slugs(recs),
            rule_on(rules, "broken-cross-wiki-link"@),
            views(input.mounted@).to_set(),
        )
    } else {
        none
    }) + (if rule_on(rules, "missing-fields"@) {
        missing_findings(recs, input.types@)
    } else {
        none
    }) + (if rule_on(rules, "stale"@) && input.has_last_updated_field {
        stale_findings(recs, input.stale_threshold_days)
    } else {
        none
    }) + (if rule_on(rules, "unknown-type"@) {
        unknown_findings(recs, input.types@)
    } else {
        none
    }) + (if rule_on(rules, "articulation-point"@) {
        ap_findings(nodes, edges, paths)
    } else {
        none
    }) + (if rule_on(rules, "bridge"@) {
        bridge_findings(nodes, edges, paths)
    } else {
        none
    }) + (if rule_on(rules, "periphery"@) {
        periphery_findings(nodes, edges, paths, input.max_nodes_for_diameter)
    } else {
        none
    })
}

/// Whether the selected rules read the concept graph.
pub fn needs_graph(rules: Option<&str>) -> (r: bool)
    ensures
        r == (rule_on(opt_view(rules), "articulation-point"@) || rule_on(opt_view(rules), "bridge"@)
            || rule_on(opt_view(rules), "periphery"@)),
{
    rule_active(rules, "articulation-point") || rule_active(rules, "bridge") || rule_active(
        rules,
        "periphery",
    )
}

fn append_findings(dst: &mut Vec<LintFinding>, src: Vec<LintFinding>)
    ensures
        fviews(final(dst)@) == fviews(old(dst)@) + fviews(src@),
{
    let mut s = src;
    dst.append(&mut s);
    proof {
        assert(fviews(dst@) =~= fviews(old(dst)@) + fviews(src@));
    }
}

/// Run the selected lint rules against a wiki and report the findings,
/// filtered, sorted and paged as `opts` asks (a cursor past the end gives an
/// empty page); `None` only when the page's end lies beyond `usize`.
pub fn run_lint(wiki_name: &str, input: &LintInput, opts: &LintOptions) -> (r: Option<LintReport>)
    requires
        input.node_paths@.len() == input.graph.nodes().len(),
    ensures
        match report_of(wiki_name@, rule_findings(*input, opt_view(opts.rules)), *opts) {
            Some(v) => r matches Some(rep) && report_view(rep) == v,
            None => r is None,
        },
{
    let rules = opts.rules;
    let mut all: Vec<LintFinding> = Vec::new();
    let ghost none = Seq::<FindingV>::empty();
    if rule_active(rules, "orphan") {
        append_findings(&mut all, rule_orphan(&input.records));
    }
    let ghost s1 = fviews(all@);
    let cross = rule_active(rules, "broken-cross-wiki-link");
    if rule_active(rules, "broken-link") || cross {
        append_findings(&mut all, rule_broken_link(&input.records, cross, &input.mounted));
    }
    let ghost s2 = fviews(all@);
    if rule_active(rules, "missing-fields") {
        append_findings(&mut all, rule_missing_fields(&input.records, &input.types));
    }
    let ghost s3 = fviews(all@);
    if rule_active(rules, "stale") && input.has_last_updated_field {
        append_findings(&mut all, rule_stale(&input.records, input.stale_threshold_days));
    }
    let ghost s4 = fviews(all@);
    if rule_active(rules, "unknown-type") {
        append_findings(&mut all, rule_unknown_type(&input.records, &input.types));
    }
    let ghost s5 = fviews(all@);
    if rule_active(rules, "articulation-point") {
        append_findings(&mut all, rule_articulation_point(&input.graph, &input.node_paths));
    }
    let ghost s6 = fviews(all@);
    if rule_active(rules, "bridge") {
        append_findings(&mut all, rule_bridge(&input.graph, &input.node_paths));
    }
    let ghost s7 = fviews(all@);
    if rule_active(rules, "periphery") {
        append_findings(
            &mut all,
            rule_periphery(&input.graph, &input.node_paths, input.max_nodes_for_diameter),
        );
    }
    proof {
        assert(fviews(all@) =~= rule_findings(*input, opt_view(opts.rules)));
    }
    lint_report(wiki_name, all, opts)
}

// ── Laws ─────────────────────────────────────────────────────────────────────

pub proof fn lemma_str_lt_irrefl(a: Seq<char>)
    ensures
        !str_lt(a, a),
    decreases a.len(),
{
    if a.len() > 0 {
        lemma_str_lt_irrefl(a.drop_first());
    }
}

pub proof fn lemma_str_lt_trans(a: Seq<char>, b: Seq<char>, c: Seq<char>)
    requires
        str_lt(a, b),
        str_lt(b, c),
    ensures
        str_lt(a, c),
    decreases a.len(),
{
    if a.len() > 0 && b.len() > 0 && c.len() > 0 && a[0] == b[0] && b[0] == c[0] {
        lemma_str_lt_trans(a.drop_first(), b.drop_first(), c.drop_first());
    }
}

pub proof fn lemma_str_lt_total(a: Seq<char>, b: Seq<char>)
    requires
        a != b,
    ensures
        str_lt(a, b) || str_lt(b, a),
    decreases a.len(),
{
    if a.len() > 0 && b.len() > 0 && a[0] == b[0] {
        if a.drop_first() == b.drop_first() {
            assert(a =~= seq![a[0]] + a.drop_first());
            assert(b =~= seq![b[0]] + b.drop_first());
        }
        lemma_str_lt_total(a.drop_first(), b.drop_first());
    } else if a.len() > 0 && b.len() > 0 {
    } else if a.len() == 0 && b.len() == 0 {
        assert(a =~= b);
    }
}

proof fn lemma_flt_facts(x: FindingV, y: FindingV, z: FindingV)
    ensures
        !flt(x, x),
        flt(x, y) && flt(y, z) ==> flt(x, z),
        (x.0, x.1) != (y.0, y.1) ==> flt(x, y) || flt(y, x),
        flt(x, y) ==> !flt(y, x),
{
    lemma_str_lt_irrefl(x.0);
    lemma_str_lt_irrefl(x.1);
    if flt(x, y) && flt(y, z) {
        if str_lt(x.0, y.0) && str_lt(y.0, z.0) {
            lemma_str_lt_trans(x.0, y.0, z.0);
        }
        if x.0 == y.0 && str_lt(x.1, y.1) && y.0 == z.0 && str_lt(y.1, z.1) {
            lemma_str_lt_trans(x.1, y.1, z.1);
        }
    }
    if x.0 != y.0 {
        lemma_str_lt_total(x.0, y.0);
    } else if x.1 != y.1 {
        lemma_str_lt_total(x.1, y.1);
    }
    if flt(x, y) && flt(y, x) {
        if str_lt(x.0, y.0) && str_lt(y.0, x.0) {
            lemma_str_lt_trans(x.0, y.0, x.0);
        }
        if x.0 == y.0 && str_lt(x.1, y.1) && str_lt(y.1, x.1) {
            lemma_str_lt_trans(x.1, y.1, x.1);
        }
    }
}

/// No finding sorts before one that comes earlier.
pub open spec fn findings_sorted(s: Seq<FindingV>) -> bool {
    forall|i: int, j: int| 0 <= i < j < s.len() ==> !flt(#[trigger] s[j], #[trigger] s[i])
}

proof fn lemma_ins_pos_split(t: Seq<FindingV>, x: FindingV)
    ensures
        forall|i: int| ins_pos(t, x) <= i < t.len() ==> flt(x, #[trigger] t[i]),
        ins_pos(t, x) > 0 ==> !flt(x, t[ins_pos(t, x) - 1]),
    decreases t.len(),
{
    lemma_ins_pos_bounds(t, x);
    if t.len() > 0 && flt(x, t.last()) {
        let u = t.drop_last();
        lemma_ins_pos_split(u, x);
        lemma_ins_pos_bounds(u, x);
        assert forall|i: int| ins_pos(t, x) <= i < t.len() implies flt(x, #[trigger] t[i]) by {
            if i < u.len() {
                assert(t[i] == u[i]);
            }
        }
    }
}

proof fn lemma_insert_sorted(t: Seq<FindingV>, x: FindingV)
    requires
        findings_sorted(t),
    ensures
        findings_sorted(t.insert(ins_pos(t, x), x)),
{
    let p = ins_pos(t, x);
    lemma_ins_pos_bounds(t, x);
    lemma_ins_pos_split(t, x);
    let r = t.insert(p, x);
    assert forall|i: int, j: int| 0 <= i < j < r.len() implies !flt(#[trigger] r[j], #[trigger] r[i]) by {
        if j < p {
            assert(r[i] == t[i] && r[j] == t[j]);
        } else if j == p {
            // r[j] == x, r[i] == t[i] with i < p: t[i] <= t[p-1] <= x
            assert(r[i] == t[i]);
            let y = t[p - 1];
            if i < p - 1 {
                assert(!flt(t[p - 1], t[i]));
            }
            lemma_flt_facts(x, y, t[i]);
            lemma_flt_facts(y, x, t[i]);
            lemma_flt_facts(x, t[i], y);
            lemma_flt_facts(t[i], y, x);
            lemma_flt_facts(y, t[i], x);
            lemma_flt_facts(t[i], x, y);
        } else if i == p {
            assert(r[j] == t[j - 1]);
            lemma_flt_facts(x, t[j - 1], x);
        } else if i < p {
            assert(r[i] == t[i] && r[j] == t[j - 1]);
            if j - 1 < p {
            } else {
                assert(!flt(t[j - 1], t[i]));
            }
        } else {
            assert(r[i] == t[i - 1] && r[j] == t[j - 1]);
        }
    }
}

/// Sorting findings gives them in order (no finding before one it sorts
/// after) and keeps every finding, each as often as it came.
pub proof fn law_sorted_findings_ordered(s: Seq<FindingV>)
    ensures
        findings_sorted(sort_findings(s)),
        sort_findings(s).to_multiset() == s.to_multiset(),
    decreases s.len(),
{
    broadcast use vstd::seq_lib::group_to_multiset_ensures;

    if s.len() > 0 {
        let u = s.drop_last();
        law_sorted_findings_ordered(u);
        let t = sort_findings(u);
        lemma_insert_sorted(t, s.last());
        lemma_ins_pos_bounds(t, s.last());
        vstd::seq_lib::to_multiset_insert(t, ins_pos(t, s.last()), s.last());
        assert(u.push(s.last()) =~= s);
    }
}

proof fn lemma_error_warning_total(fs: Seq<FindingV>)
    ensures
        count_severity(fs, Severity::Error) + count_severity(fs, Severity::Warning) == fs.len(),
    decreases fs.len(),
{
    if fs.len() > 0 {
        lemma_error_warning_total(fs.drop_last());
    }
}

/// In every report, errors and warnings add up to the total, and a page never
/// holds more findings than the total.
pub proof fn law_report_counts(wiki: Seq<char>, fs: Seq<FindingV>, opts: LintOptions)
    requires
        report_of(wiki, fs, opts) is Some,
    ensures
        ({
            let r = report_of(wiki, fs, opts).unwrap();
            r.2 + r.3 == r.1 && r.4.len() <= r.1
        }),
{
    let sorted = kept_findings(fs, opt_view(opts.path_prefix), opt_view(opts.severity));
    lemma_error_warning_total(sorted);
}


/// The sum of the counts of a per-rule summary.
pub open spec fn sum_counts(v: Seq<(Seq<char>, nat)>) -> nat
    decreases v.len(),
{
    if v.len() == 0 {
        0
    } else {
        sum_counts(v.drop_last()) + v.last().1
    }
}

spec fn rule_counts(rs: Seq<Seq<char>>, fs: Seq<FindingV>) -> Seq<(Seq<char>, nat)> {
    rs.map_values(|r: Seq<char>| (r, count_rule(fs, r)))
}

spec fn occurrences(rs: Seq<Seq<char>>, r: Seq<char>) -> nat
    decreases rs.len(),
{
    if rs.len() == 0 {
        0
    } else {
        occurrences(rs.drop_last(), r) + if rs.last() == r {
            1nat
        } else {
            0nat
        }
    }
}

proof fn lemma_rule_counts_step(rs: Seq<Seq<char>>, fs: Seq<FindingV>)
    requires
        fs.len() > 0,
    ensures
        sum_counts(rule_counts(rs, fs)) == sum_counts(rule_counts(rs, fs.drop_last())) + occurrences(
            rs,
            fs.last().1,
        ),
    decreases rs.len(),
{
    if rs.len() > 0 {
        lemma_rule_counts_step(rs.drop_last(), fs);
        assert(rule_counts(rs, fs).drop_last() =~= rule_counts(rs.drop_last(), fs));
        assert(rule_counts(rs, fs.drop_last()).drop_last() =~= rule_counts(rs.drop_last(), fs.drop_last()));
    }
}

proof fn lemma_rule_counts_empty(rs: Seq<Seq<char>>, fs: Seq<FindingV>)
    requires
        fs.len() == 0,
    ensures
        sum_counts(rule_counts(rs, fs)) == 0,
    decreases rs.len(),
{
    if rs.len() > 0 {
        lemma_rule_counts_empty(rs.drop_last(), fs);
        assert(rule_counts(rs, fs).drop_last() =~= rule_counts(rs.drop_last(), fs));
    }
}

proof fn lemma_occurrences_once(rs: Seq<Seq<char>>, r: Seq<char>)
    requires
        rs.contains(r),
        forall|a: int, b: int| 0 <= a < b < rs.len() ==> rs[a] != rs[b],
    ensures
        occurrences(rs, r) == 1,
    decreases rs.len(),
{
    let u = rs.drop_last();
    if rs.last() == r {
        lemma_occurrences_none(u, r);
    } else {
        let k = choose|k: int| 0 <= k < rs.len() && rs[k] == r;
        assert(u[k] == r);
        lemma_occurrences_once(u, r);
    }
}

proof fn lemma_occurrences_none(rs: Seq<Seq<char>>, r: Seq<char>)
    requires
        forall|a: int| 0 <= a < rs.len() ==> rs[a] != r,
    ensures
        occurrences(rs, r) == 0,
    decreases rs.len(),
{
    if rs.len() > 0 {
        lemma_occurrences_none(rs.drop_last(), r);
    }
}

proof fn lemma_rules_in_covers(fs: Seq<FindingV>)
    ensures
        forall|i: int| 0 <= i < fs.len() ==> rules_in(fs).contains(#[trigger] fs[i].1),
    decreases fs.len(),
{
    if fs.len() > 0 {
        let u = fs.drop_last();
        lemma_rules_in_covers(u);
        let rest = rules_in(u);
        assert forall|i: int| 0 <= i < fs.len() implies rules_in(fs).contains(#[trigger] fs[i].1) by {
            if i < u.len() {
                assert(u[i] == fs[i]);
                let k = choose|k: int| 0 <= k < rest.len() && rest[k] == u[i].1;
                if !rest.contains(fs.last().1) {
                    assert(rules_in(fs)[k] == rest[k]);
                }
            } else {
                if !rest.contains(fs.last().1) {
                    assert(rules_in(fs)[rest.len() as int] == fs.last().1);
                }
            }
        }
    }
}

proof fn lemma_sum_over_rules(rs: Seq<Seq<char>>, fs: Seq<FindingV>)
    requires
        forall|a: int, b: int| 0 <= a < b < rs.len() ==> rs[a] != rs[b],
        forall|i: int| 0 <= i < fs.len() ==> rs.contains(#[trigger] fs[i].1),
    ensures
        sum_counts(rule_counts(rs, fs)) == fs.len(),
    decreases fs.len(),
{
    if fs.len() == 0 {
        lemma_rule_counts_empty(rs, fs);
    } else {
        let u = fs.drop_last();
        assert forall|i: int| 0 <= i < u.len() implies rs.contains(#[trigger] u[i].1) by {
            assert(u[i] == fs[i]);
        }
        lemma_sum_over_rules(rs, u);
        lemma_rule_counts_step(rs, fs);
        assert(fs[fs.len() - 1] == fs.last());
        lemma_occurrences_once(rs, fs.last().1);
    }
}

/// The per-rule counts of a summary add up to the number of findings.
pub proof fn law_by_rule_total(fs: Seq<FindingV>)
    ensures
        sum_counts(by_rule(fs)) == fs.len(),
{
    lemma_rules_in_distinct(fs);
    lemma_rules_in_covers(fs);
    lemma_sum_over_rules(rules_in(fs), fs);
    assert(by_rule(fs) =~= rule_counts(rules_in(fs), fs));
}

/// What a lint run reports, for the findings of its rules: a report exactly
/// when the page's end fits in `usize`; the report names the wiki; its total
/// is the number of kept findings, of which errors and warnings add up to the
/// total; the kept findings are in (slug, rule) order and so are those of the
/// page; in summary mode the findings are left out and per-rule counts, which
/// add up to the total, are given, and otherwise no counts are.
pub proof fn law_run_lint_report(wiki: Seq<char>, input: LintInput, opts: LintOptions)
    ensures
        ({
            let fs = rule_findings(input, opt_view(opts.rules));
            let kept = kept_findings(fs, opt_view(opts.path_prefix), opt_view(opts.severity));
            &&& findings_sorted(kept)
            &&& (report_of(wiki, fs, opts) is Some <==> !page_fails(opts.page_size, opts.cursor))
            &&& report_of(wiki, fs, opts) matches Some(r) ==> {
                &&& r.0 == wiki
                &&& r.1 == kept.len()
                &&& r.2 + r.3 == r.1
                &&& findings_sorted(r.4)
                &&& (r.7 is Some <==> opts.summary)
                &&& (r.7 matches Some(b) ==> sum_counts(b) == r.1)
                &&& (opts.summary ==> r.4.len() == 0)
            }
        }),
{
    let fs = rule_findings(input, opt_view(opts.rules));
    let a = match opt_view(opts.path_prefix) {
        Some(p) => keep_prefix(fs, p),
        None => fs,
    };
    let b = match opt_view(opts.severity) {
        Some(sv) => keep_severity(a, lowercase(trim(sv))),
        None => a,
    };
    let kept = kept_findings(fs, opt_view(opts.path_prefix), opt_view(opts.severity));
    assert(kept == sort_findings(b));
    law_sorted_findings_ordered(b);
    law_by_rule_total(kept);
    if report_of(wiki, fs, opts) is Some {
        law_report_counts(wiki, fs, opts);
        let r = report_of(wiki, fs, opts)->0;
        if !opts.summary {
            if let Some(size) = opts.page_size {
                let start = match opts.cursor {
                    Some(c) => c as int,
                    None => 0,
                };
                let len = kept.len() as int;
                let end = if start + size < len {
                    start + size
                } else {
                    len
                };
                if start <= end {
                    assert forall|i: int, j: int| 0 <= i < j < r.4.len() implies !flt(
                        #[trigger] r.4[j],
                        #[trigger] r.4[i],
                    ) by {
                        assert(r.4[i] == kept[start + i] && r.4[j] == kept[start + j]);
                    }
                }
            }
        }
    }
}

} // verus!
