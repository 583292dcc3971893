//! Lint rules over the indexed pages of a wiki.
use vstd::hash_set::StringHashSet;
use vstd::prelude::*;

use crate::links::views;
use crate::slug::{check_slug, index_md, join_path, md_ext, scheme, Slug};
use crate::text::{has_prefix, has_suffix, push_str, starts_with, str_eq, to_chars};

verus! {

// ── Findings ─────────────────────────────────────────────────────────────────

/// Severity level of a lint finding.
#[derive(Debug, Clone, Copy, PartialEq, Eq, Structural)]
pub enum Severity {
    /// A definite problem that should be fixed.
    Error,
    /// A potential issue that may warrant attention.
    Warning,
}

/// The lower-case name of a severity.
pub open spec fn severity_name(s: Severity) -> Seq<char> {
    match s {
        Severity::Error => "error"@,
        Severity::Warning => "warning"@,
    }
}

impl Severity {
    /// The lower-case name: `error` or `warning`.
    pub fn to_string(&self) -> (r: String)
        ensures
            r@ == severity_name(*self),
    {
        match self {
            Severity::Error => "error".to_owned(),
            Severity::Warning => "warning".to_owned(),
        }
    }
}

/// A single lint finding for a wiki page.
#[derive(Debug)]
pub struct LintFinding {
    /// Slug of the page with the finding.
    pub slug: String,
    /// Name of the lint rule that produced this finding.
    pub rule: String,
    /// Severity of the finding.
    pub severity: Severity,
    /// Human-readable description of the issue.
    pub message: String,
    /// Filesystem path of the page file.
    pub path: String,
}

/// A finding as (slug, rule, severity, message, path).
pub type FindingV = (Seq<char>, Seq<char>, Severity, Seq<char>, Seq<char>);

pub open spec fn fview(f: LintFinding) -> FindingV {
    (f.slug@, f.rule@, f.severity, f.message@, f.path@)
}

pub open spec fn fviews(fs: Seq<LintFinding>) -> Seq<FindingV> {
    fs.map_values(|f: LintFinding| fview(f))
}

impl Clone for LintFinding {
    fn clone(&self) -> (r: Self)
        ensures
            fview(r) == fview(*self),
    {
        LintFinding {
            slug: self.slug.clone(),
            rule: self.rule.clone(),
            severity: self.severity,
            message: self.message.clone(),
            path: self.path.clone(),
        }
    }
}

fn finding(slug: &String, rule: &str, severity: Severity, message: String, path: &String) -> (r:
    LintFinding)
    ensures
        fview(r) == (slug@, rule@, severity, message@, path@),
{
    LintFinding {
        slug: slug.clone(),
        rule: rule.to_owned(),
        severity,
        message,
        path: path.clone(),
    }
}

fn concat2(a: &str, b: &str) -> (r: String)
    ensures
        r@ == a@ + b@,
{
    let mut s = a.to_owned();
    push_str(&mut s, b);
    s
}

// ── Page records ─────────────────────────────────────────────────────────────

/// Per-page data the lint rules read, taken from the index in one pass.
#[derive(Debug)]
pub struct DocRecord {
    /// Slug of the page (never empty).
    pub slug: String,
    /// Frontmatter type.
    pub page_type: String,
    /// Frontmatter status.
    pub status: String,
    /// Frontmatter `last_updated` date, as written.
    pub last_updated: String,
    /// The index schema has no confidence field at all.
    pub confidence_field_absent: bool,
    /// Whether the page's confidence is below the lint threshold; `None` when
    /// the page declares no confidence.
    pub confidence_low: Option<bool>,
    /// Body `[[wikilinks]]`.
    pub body_links: Vec<String>,
    /// Frontmatter `sources`.
    pub sources: Vec<String>,
    /// Frontmatter `concepts`.
    pub concepts: Vec<String>,
    /// Frontmatter `document_refs`.
    pub document_refs: Vec<String>,
    /// Frontmatter `superseded_by`.
    pub superseded_by: Vec<String>,
    /// For each required field of any type: whether the page has it (`true`
    /// also when the index cannot tell).
    pub fields_present: Vec<(String, bool)>,
    /// Filesystem path of the page file, as `slug_path` gives it.
    pub path: String,
}

/// A page type the registry knows, with its required frontmatter fields.
#[derive(Debug)]
pub struct TypeInfo {
    /// Type name.
    pub name: String,
    /// Required fields, in declaration order.
    pub required: Vec<String>,
}

/// The link fields of a record, each named, in the order the rules visit them.
pub open spec fn link_fields(r: DocRecord) -> Seq<(Seq<char>, Seq<Seq<char>>)> {
    seq![
        ("body_links"@, views(r.body_links@)),
        ("sources"@, views(r.sources@)),
        ("concepts"@, views(r.concepts@)),
        ("document_refs"@, views(r.document_refs@)),
        ("superseded_by"@, views(r.superseded_by@)),
    ]
}

/// Some record links to `s` from one of its link fields.
pub open spec fn linked(recs: Seq<DocRecord>, s: Seq<char>) -> bool {
    exists|i: int, f: int|
        0 <= i < recs.len() && 0 <= f < 5 && (#[trigger] link_fields(recs[i])[f]).1.contains(s)
}

// ── Slug paths ───────────────────────────────────────────────────────────────

/// `Path::join`: a relative path goes under the root, an absolute one replaces it.
pub open spec fn path_join(root: Seq<char>, rel: Seq<char>) -> Seq<char> {
    if rel.len() > 0 && rel[0] == '/' {
        rel
    } else {
        join_path(root, rel)
    }
}

/// The file path of a slug: the flat file when it exists, else the bundle's
/// `index.md` when that exists, else the would-be flat path of the raw slug.
pub open spec fn slug_path_of(slug: Seq<char>, root: Seq<char>, flat_is_file: bool, bundle_is_file: bool) -> Seq<
    char,
> {
    match check_slug(slug) {
        Ok(t) => if flat_is_file {
            join_path(root, t + md_ext())
        } else if bundle_is_file {
            join_path(join_path(root, t), index_md())
        } else {
            path_join(root, slug + md_ext())
        },
        Err(_) => path_join(root, slug + md_ext()),
    }
}

/// The flat and bundle files to probe for a slug, or `None` when it is no valid slug.
pub fn slug_probes(slug: &str, wiki_root: &str) -> (r: Option<(String, String)>)
    ensures
        match check_slug(slug@) {
            Ok(t) => r matches Some(p) && p.0@ == join_path(wiki_root@, t + md_ext()) && p.1@
                == join_path(join_path(wiki_root@, t), index_md()),
            Err(_) => r is None,
        },
{
    match Slug::try_from(slug) {
        Ok(s) => Some((s.flat_path(wiki_root), s.bundle_path(wiki_root))),
        Err(_) => None,
    }
}

/// Resolve a slug to its file path, given whether its flat and bundle files
/// exist; falls back to the would-be flat path.
pub fn slug_path(slug: &str, wiki_root: &str, flat_is_file: bool, bundle_is_file: bool) -> (r:
    String)
    ensures
        r@ == slug_path_of(slug@, wiki_root@, flat_is_file, bundle_is_file),
{
    match Slug::try_from(slug) {
        Ok(s) => {
            match s.resolve(wiki_root, flat_is_file, bundle_is_file) {
                Ok(p) => {
                    return p;
                },
                Err(_) => {},
            }
        },
        Err(_) => {},
    }
    let rel = concat2(slug, ".md");
    proof {
        reveal_strlit(".md");
        assert(".md"@ =~= md_ext());
    }
    let cs = to_chars(rel.as_str());
    if cs.len() > 0 && cs[0] == '/' {
        rel
    } else {
        crate::slug::join(wiki_root, rel.as_str())
    }
}

// ── Rule: orphan ─────────────────────────────────────────────────────────────

/// A page the orphan rule considers: not a section, not an index page.
pub open spec fn orphan_candidate(r: DocRecord) -> bool {
    r.page_type@ != "section"@ && r.slug@ != "index"@ && !has_suffix(r.slug@, "/index"@)
}

/// The orphan findings for `recs`, where `all` is every record.
pub open spec fn orphan_findings(recs: Seq<DocRecord>, all: Seq<DocRecord>) -> Seq<FindingV>
    decreases recs.len(),
{
    if recs.len() == 0 {
        Seq::empty()
    } else {
        let r = recs.last();
        orphan_findings(recs.drop_last(), all) + if orphan_candidate(r) && !linked(all, r.slug@) {
            seq![(r.slug@, "orphan"@, Severity::Warning, "no incoming links"@, r.path@)]
        } else {
            Seq::empty()
        }
    }
}

/// Insert every value of a list into a set.
fn insert_all(set: &mut StringHashSet, items: &Vec<String>)
    ensures
        final(set)@ == old(set)@.union(views(items@).to_set()),
{
    let mut i: usize = 0;
    while i < items.len()
        invariant
            i <= items.len(),
            set@ == old(set)@.union(views(items@).take(i as int).to_set()),
        decreases items.len() - i,
    {
        set.insert(items[i].clone());
        proof {
            let t1 = views(items@).take(i as int + 1);
            assert(t1 =~= views(items@).take(i as int).push(items@[i as int]@));
            views(items@).take(i as int).lemma_push_to_set_commute(items@[i as int]@);
        }
        i += 1;
    }
    proof {
        assert(views(items@).take(items.len() as int) =~= views(items@));
    }
}

/// Every slug some record links to.
fn linked_set(records: &Vec<DocRecord>) -> (r: StringHashSet)
    ensures
        forall|s: Seq<char>| #[trigger] r@.contains(s) <==> linked(records@, s),
{
    let mut set = StringHashSet::new();
    let mut i: usize = 0;
    while i < records.len()
        invariant
            i <= records.len(),
            forall|s: Seq<char>| #[trigger]
                set@.contains(s) <==> linked(records@.take(i as int), s),
        decreases records.len() - i,
    {
        let r = &records[i];
        let ghost before = set@;
        insert_all(&mut set, &r.body_links);
        insert_all(&mut set, &r.sources);
        insert_all(&mut set, &r.concepts);
        insert_all(&mut set, &r.document_refs);
        insert_all(&mut set, &r.superseded_by);
        proof {
            let t1 = records@.take(i as int + 1);
            let t0 = records@.take(i as int);
            assert forall|s: Seq<char>| #[trigger] set@.contains(s) <==> linked(t1, s) by {
                let lf = link_fields(records@[i as int]);
                if set@.contains(s) && !before.contains(s) {
                    let f: int = if views(r.body_links@).contains(s) {
                        0
                    } else if views(r.sources@).contains(s) {
                        1
                    } else if views(r.concepts@).contains(s) {
                        2
                    } else if views(r.document_refs@).contains(s) {
                        3
                    } else {
                        4
                    };
                    assert(t1[i as int] == records@[i as int]);
                    assert(link_fields(t1[i as int])[f].1.contains(s));
                }
                if set@.contains(s) && before.contains(s) {
                    let (a, f) = choose|a: int, f: int|
                        0 <= a < t0.len() && 0 <= f < 5 && (#[trigger] link_fields(t0[a])[f]).1.contains(s);
                    assert(t1[a] == t0[a]);
                }
                if linked(t1, s) {
                    let (a, f) = choose|a: int, f: int|
                        0 <= a < t1.len() && 0 <= f < 5 && (#[trigger] link_fields(t1[a])[f]).1.contains(s);
                    if a < i {
                        assert(t0[a] == t1[a]);
                        assert(linked(t0, s));
                    } else {
                        assert(t1[a] == records@[i as int]);
                        if f == 0 {
                            assert(views(r.body_links@).to_set().contains(s));
                        } else if f == 1 {
                            assert(views(r.sources@).to_set().contains(s));
                        } else if f == 2 {
                            assert(views(r.concepts@).to_set().contains(s));
                        } else if f == 3 {
                            assert(views(r.document_refs@).to_set().contains(s));
                        } else {
                            assert(views(r.superseded_by@).to_set().contains(s));
                        }
                    }
                }
            }
        }
        i += 1;
    }
    proof {
        assert(records@.take(records.len() as int) =~= records@);
    }
    set
}

/// Pages that no page links to, except section pages and index pages.
pub fn rule_orphan(records: &Vec<DocRecord>) -> (r: Vec<LintFinding>)
    ensures
        fviews(r@) == orphan_findings(records@, records@),
{
    let linked_slugs = linked_set(records);
    let mut out: Vec<LintFinding> = Vec::new();
    let mut i: usize = 0;
    while i < records.len()
        invariant
            i <= records.len(),
            forall|s: Seq<char>| #[trigger] linked_slugs@.contains(s) <==> linked(records@, s),
            fviews(out@) == orphan_findings(records@.take(i as int), records@),
        decreases records.len() - i,
    {
        proof {
            assert(records@.take(i as int + 1).drop_last() =~= records@.take(i as int));
        }
        let r = &records[i];
        let ghost before = fviews(out@);
        let candidate = !str_eq(r.page_type.as_str(), "section") && !str_eq(r.slug.as_str(), "index")
            && !ends_with_index(r.slug.as_str());
        if candidate && !linked_slugs.contains(r.slug.as_str()) {
            out.push(
                finding(&r.slug, "orphan", Severity::Warning, "no incoming links".to_owned(), &r.path),
            );
            proof {
                assert(fviews(out@) =~= before.push(fview(out@.last())));
            }
        } else {
            proof {
                assert(fviews(out@) =~= before);
            }
        }
        i += 1;
    }
    proof {
        assert(records@.take(records.len() as int) =~= records@);
    }
    out
}

/// Whether `s` ends with `/index`.
fn ends_with_index(s: &str) -> (r: bool)
    ensures
        r == has_suffix(s@, "/index"@),
{
    let cs = to_chars(s);
    let pat = to_chars("/index");
    if pat.len() > cs.len() {
        return false;
    }
    let off = cs.len() - pat.len();
    let mut i: usize = 0;
    while i < pat.len()
        invariant
            i <= pat.len(),
            off + pat.len() == cs.len(),
            cs@ == s@,
            pat@ == "/index"@,
            forall|j: int| 0 <= j < i ==> cs@[off + j] == pat@[j],
        decreases pat.len() - i,
    {
        if cs[off + i] != pat[i] {
            assert(cs@.subrange(off as int, cs.len() as int)[i as int] != pat@[i as int]);
            return false;
        }
        i += 1;
    }
    assert(cs@.subrange(off as int, cs.len() as int) =~= pat@);
    true
}

// ── Rule: broken-link ────────────────────────────────────────────────────────

/// The wiki a `wiki://` link names: the text after the scheme up to the first `/`.
pub open spec fn uri_wiki(target: Seq<char>) -> Seq<char> {
    let rest = target.subrange(7, target.len() as int);
    match crate::slug::find_char(rest, '/') {
        Some(k) => rest.subrange(0, k),
        None => rest,
    }
}

/// The findings for one link of record `r` found in field `field`.
pub open spec fn link_finding(
    r: DocRecord,
    field: Seq<char>,
    target: Seq<char>,
    known: Set<Seq<char>>,
    check_cross: bool,
    mounted: Set<Seq<char>>,
) -> Seq<FindingV> {
    if has_prefix(target, scheme()) {
        if check_cross && !mounted.contains(uri_wiki(target)) {
            seq![
                (
                    r.slug@,
                    "broken-cross-wiki-link"@,
                    Severity::Warning,
                    "cross-wiki link to unmounted wiki: "@ + target,
                    r.path@,
                ),
            ]
        } else {
            Seq::empty()
        }
    } else if !known.contains(target) {
        seq![(r.slug@, "broken-link"@, Severity::Error, "broken link in "@ + field + ": "@ + target, r.path@)]
    } else {
        Seq::empty()
    }
}

/// The findings for the links of one field, in order.
pub open spec fn field_findings(
    r: DocRecord,
    field: Seq<char>,
    targets: Seq<Seq<char>>,
    known: Set<Seq<char>>,
    check_cross: bool,
    mounted: Set<Seq<char>>,
) -> Seq<FindingV>
    decreases targets.len(),
{
    if targets.len() == 0 {
        Seq::empty()
    } else {
        field_findings(r, field, targets.drop_last(), known, check_cross, mounted) + link_finding(
            r,
            field,
            targets.last(),
            known,
            check_cross,
            mounted,
        )
    }
}

/// The findings for the first `k` link fields of a record.
pub open spec fn record_link_findings(
    r: DocRecord,
    k: int,
    known: Set<Seq<char>>,
    check_cross: bool,
    mounted: Set<Seq<char>>,
) -> Seq<FindingV>
    decreases k,
{
    if k <= 0 {
        Seq::empty()
    } else {
        let (field, targets) = link_fields(r)[k - 1];
        record_link_findings(r, k - 1, known, check_cross, mounted) + field_findings(
            r,
            field,
            targets,
            known,
            check_cross,
            mounted,
        )
    }
}

/// The broken-link findings of the records, in order.
pub open spec fn broken_findings(
    recs: Seq<DocRecord>,
    known: Set<Seq<char>>,
    check_cross: bool,
    mounted: Set<Seq<char>>,
) -> Seq<FindingV>
    decreases recs.len(),
{
    if recs.len() == 0 {
        Seq::empty()
    } else {
        broken_findings(recs.drop_last(), known, check_cross, mounted) + record_link_findings(
            recs.last(),
            5,
            known,
            check_cross,
            mounted,
        )
    }
}

/// The slugs of the records.
pub open spec fn record_slugs(recs: Seq<DocRecord>) -> Set<Seq<char>> {
    recs.map_values(|r: DocRecord| r.slug@).to_set()
}

fn slug_set(records: &Vec<DocRecord>) -> (r: StringHashSet)
    ensures
        r@ == record_slugs(records@),
{
    let mut set = StringHashSet::new();
    let mut i: usize = 0;
    while i < records.len()
        invariant
            i <= records.len(),
            set@ == records@.take(i as int).map_values(|r: DocRecord| r.slug@).to_set(),
        decreases records.len() - i,
    {
        set.insert(records[i].slug.clone());
        proof {
            let t1 = records@.take(i as int + 1).map_values(|r: DocRecord| r.slug@);
            let t0 = records@.take(i as int).map_values(|r: DocRecord| r.slug@);
            assert(t1 =~= t0.push(records@[i as int].slug@));
            t0.lemma_push_to_set_commute(records@[i as int].slug@);
        }
        i += 1;
    }
    proof {
        assert(records@.take(records.len() as int) =~= records@);
    }
    set
}

fn string_set(items: &Vec<String>) -> (r: StringHashSet)
    ensures
        r@ == views(items@).to_set(),
{
    let mut set = StringHashSet::new();
    insert_all(&mut set, items);
    proof {
        assert(set@ =~= views(items@).to_set());
    }
    set
}

/// The wiki named by a `wiki://` link.
fn uri_wiki_exec(target: &str) -> (r: String)
    requires
        has_prefix(target@, scheme()),
    ensures
        r@ == uri_wiki(target@),
{
    let cs = to_chars(target);
    let mut j: usize = 7;
    while j < cs.len() && cs[j] != '/'
        invariant
            7 <= j <= cs.len(),
            cs@ == target@,
            forall|k: int| 7 <= k < j ==> cs@[k] != '/',
        decreases cs.len() - j,
    {
        j += 1;
    }
    proof {
        let rest = target@.subrange(7, target@.len() as int);
        crate::text::lemma_find_from(rest, seq!['/'], 0);
        assert forall|k: int| 0 <= k < j - 7 implies !crate::text::occurs_at(rest, k, seq!['/']) by {
            assert(rest.subrange(k, k + 1)[0] == cs@[7 + k]);
        }
        if j < cs.len() {
            assert(rest.subrange(j - 7, j - 7 + 1) =~= seq!['/']);
            crate::text::lemma_find_from_is(rest, seq!['/'], 0, (j - 7) as int);
            assert(rest.subrange(0, j - 7) =~= cs@.subrange(7, j as int));
        } else {
            assert forall|k: int| 0 <= k implies !crate::text::occurs_at(rest, k, seq!['/']) by {
                if k < rest.len() {
                    assert(rest.subrange(k, k + 1)[0] == cs@[7 + k]);
                }
            }
            crate::text::lemma_find_from_none(rest, seq!['/'], 0);
            assert(rest =~= cs@.subrange(7, j as int));
        }
    }
    crate::text::from_char_range(&cs, 7, j)
}

fn field_links(
    out: &mut Vec<LintFinding>,
    r: &DocRecord,
    field: &str,
    targets: &Vec<String>,
    known: &StringHashSet,
    check_cross: bool,
    mounted: &StringHashSet,
)
    ensures
        fviews(final(out)@) == fviews(old(out)@) + field_findings(
            *r,
            field@,
            views(targets@),
            known@,
            check_cross,
            mounted@,
        ),
{
    let ghost tv = views(targets@);
    let ghost start = fviews(out@);
    let mut i: usize = 0;
    while i < targets.len()
        invariant
            i <= targets.len() == tv.len(),
            tv == views(targets@),
            fviews(out@) == start + field_findings(*r, field@, tv.take(i as int), known@, check_cross, mounted@),
        decreases targets.len() - i,
    {
        proof {
            assert(tv.take(i as int + 1).drop_last() =~= tv.take(i as int));
            assert(tv.take(i as int + 1).last() == targets@[i as int]@);
        }
        let t = targets[i].as_str();
        let ghost before = fviews(out@);
        if starts_with(t, "wiki://") {
            proof {
                reveal_strlit("wiki://");
                assert("wiki://"@ =~= scheme());
            }
            if check_cross {
                let w = uri_wiki_exec(t);
                if !mounted.contains(w.as_str()) {
                    let msg = concat2("cross-wiki link to unmounted wiki: ", t);
                    out.push(finding(&r.slug, "broken-cross-wiki-link", Severity::Warning, msg, &r.path));
                }
            }
        } else {
            proof {
                reveal_strlit("wiki://");
                assert("wiki://"@ =~= scheme());
            }
            if !known.contains(t) {
                let mut msg = concat2("broken link in ", field);
                push_str(&mut msg, ": ");
                push_str(&mut msg, t);
                out.push(finding(&r.slug, "broken-link", Severity::Error, msg, &r.path));
            }
        }
        proof {
            assert(fviews(out@) =~= before + link_finding(*r, field@, targets@[i as int]@, known@, check_cross, mounted@));
        }
        i += 1;
    }
    proof {
        assert(tv.take(targets.len() as int) =~= tv);
    }
}

/// Links to pages that do not exist (`broken-link`), and, with `check_cross_wiki`,
/// `wiki://` links to wikis that are not mounted (`broken-cross-wiki-link`).
pub fn rule_broken_link(records: &Vec<DocRecord>, check_cross_wiki: bool, mounted: &Vec<String>) -> (r:
    Vec<LintFinding>)
    ensures
        fviews(r@) == broken_findings(
            records@,
            record_slugs(records@),
            check_cross_wiki,
            views(mounted@).to_set(),
        ),
{
    let known = slug_set(records);
    let mset = string_set(mounted);
    let mut out: Vec<LintFinding> = Vec::new();
    let mut i: usize = 0;
    while i < records.len()
        invariant
            i <= records.len(),
            known@ == record_slugs(records@),
            mset@ == views(mounted@).to_set(),
            fviews(out@) == broken_findings(records@.take(i as int), known@, check_cross_wiki, mset@),
        decreases records.len() - i,
    {
        proof {
            assert(records@.take(i as int + 1).drop_last() =~= records@.take(i as int));
            assert(records@.take(i as int + 1).last() == records@[i as int]);
        }
        let r = &records[i];
        let ghost before = fviews(out@);
        field_links(&mut out, r, "body_links", &r.body_links, &known, check_cross_wiki, &mset);
        field_links(&mut out, r, "sources", &r.sources, &known, check_cross_wiki, &mset);
        field_links(&mut out, r, "concepts", &r.concepts, &known, check_cross_wiki, &mset);
        field_links(&mut out, r, "document_refs", &r.document_refs, &known, check_cross_wiki, &mset);
        field_links(&mut out, r, "superseded_by", &r.superseded_by, &known, check_cross_wiki, &mset);
        proof {
            reveal_with_fuel(record_link_findings, 6);
            assert(fviews(out@) =~= before + record_link_findings(*r, 5, known@, check_cross_wiki, mset@));
        }
        i += 1;
    }
    proof {
        assert(records@.take(records.len() as int) =~= records@);
    }
    out
}

// ── Rules: missing-fields, unknown-type ──────────────────────────────────────

/// The index of the first type named `t` at or after `i`.
pub open spec fn find_type(types: Seq<TypeInfo>, t: Seq<char>, i: int) -> Option<int>
    decreases types.len() - i,
{
    if i < 0 || i >= types.len() {
        None
    } else if types[i].name@ == t {
        Some(i)
    } else {
        find_type(types, t, i + 1)
    }
}

/// Whether field `f` is recorded present: the first entry for it, or `true`
/// when there is none.
pub open spec fn present_from(fp: Seq<(String, bool)>, f: Seq<char>, i: int) -> bool
    decreases fp.len() - i,
{
    if i < 0 || i >= fp.len() {
        true
    } else if fp[i].0@ == f {
        fp[i].1
    } else {
        present_from(fp, f, i + 1)
    }
}

/// The missing-field findings of one record over the first `k` required fields.
pub open spec fn missing_of(r: DocRecord, required: Seq<Seq<char>>, k: int) -> Seq<FindingV>
    decreases k,
{
    if k <= 0 {
        Seq::empty()
    } else {
        missing_of(r, required, k - 1) + if !present_from(r.fields_present@, required[k - 1], 0) {
            seq![
                (
                    r.slug@,
                    "missing-fields"@,
                    Severity::Error,
                    "required field missing: "@ + required[k - 1],
                    r.path@,
                ),
            ]
        } else {
            Seq::empty()
        }
    }
}

/// The missing-field findings of the records, in order: pages of a known type
/// lacking a field that type requires.
pub open spec fn missing_findings(recs: Seq<DocRecord>, types: Seq<TypeInfo>) -> Seq<FindingV>
    decreases recs.len(),
{
    if recs.len() == 0 {
        Seq::empty()
    } else {
        let r = recs.last();
        missing_findings(recs.drop_last(), types) + if r.page_type@.len() > 0 {
            match find_type(types, r.page_type@, 0) {
                Some(t) => missing_of(r, views(types[t].required@), types[t].required@.len() as int),
                None => Seq::empty(),
            }
        } else {
            Seq::empty()
        }
    }
}

/// The unknown-type findings of the records, in order.
pub open spec fn unknown_findings(recs: Seq<DocRecord>, types: Seq<TypeInfo>) -> Seq<FindingV>
    decreases recs.len(),
{
    if recs.len() == 0 {
        Seq::empty()
    } else {
        let r = recs.last();
        unknown_findings(recs.drop_last(), types) + if r.page_type@.len() > 0 && find_type(
            types,
            r.page_type@,
            0,
        ) is None {
            seq![(r.slug@, "unknown-type"@, Severity::Error, "unknown type: "@ + r.page_type@, r.path@)]
        } else {
            Seq::empty()
        }
    }
}

proof fn lemma_find_type(types: Seq<TypeInfo>, t: Seq<char>, i: int)
    requires
        0 <= i,
    ensures
        find_type(types, t, i) matches Some(k) ==> i <= k < types.len() && types[k].name@ == t,
    decreases types.len() - i,
{
    if i < types.len() && types[i].name@ != t {
        lemma_find_type(types, t, i + 1);
    }
}

fn find_type_exec(types: &Vec<TypeInfo>, t: &str) -> (r: Option<usize>)
    ensures
        r matches Some(k) ==> k < types@.len(),
        match find_type(types@, t@, 0) {
            Some(k) => r matches Some(x) && x as int == k,
            None => r is None,
        },
{
    proof {
        lemma_find_type(types@, t@, 0);
    }
    let mut i: usize = 0;
    while i < types.len()
        invariant
            i <= types.len(),
            find_type(types@, t@, 0) matches Some(k) ==> 0 <= k < types@.len(),
            find_type(types@, t@, 0) == find_type(types@, t@, i as int),
        decreases types.len() - i,
    {
        if str_eq(types[i].name.as_str(), t) {
            proof {
                lemma_find_type(types@, t@, 0);
            }
            return Some(i);
        }
        i += 1;
    }
    None
}

fn field_present(fp: &Vec<(String, bool)>, f: &str) -> (r: bool)
    ensures
        r == present_from(fp@, f@, 0),
{
    let mut i: usize = 0;
    while i < fp.len()
        invariant
            i <= fp.len(),
            present_from(fp@, f@, 0) == present_from(fp@, f@, i as int),
        decreases fp.len() - i,
    {
        if str_eq(fp[i].0.as_str(), f) {
            return fp[i].1;
        }
        i += 1;
    }
    true
}

/// Pages of a known type that lack a field the type requires.
pub fn rule_missing_fields(records: &Vec<DocRecord>, types: &Vec<TypeInfo>) -> (r: Vec<LintFinding>)
    ensures
        fviews(r@) == missing_findings(records@, types@),
{
    let mut out: Vec<LintFinding> = Vec::new();
    let mut i: usize = 0;
    while i < records.len()
        invariant
            i <= records.len(),
            fviews(out@) == missing_findings(records@.take(i as int), types@),
        decreases records.len() - i,
    {
        proof {
            assert(records@.take(i as int + 1).drop_last() =~= records@.take(i as int));
            assert(records@.take(i as int + 1).last() == records@[i as int]);
        }
        let r = &records[i];
        let ghost before = fviews(out@);
        if !r.page_type.as_str().is_empty() {
            match find_type_exec(types, r.page_type.as_str()) {
                Some(t) => {
                    let req = &types[t].required;
                    let ghost rv = views(req@);
                    proof {
                        assert(find_type(types@, r.page_type@, 0) == Some(t as int));
                    }
                    let mut k: usize = 0;
                    while k < req.len()
                        invariant
                            k <= req.len() == rv.len(),
                            rv == views(req@),
                            t < types@.len(),
                            req@ == types@[t as int].required@,
                            find_type(types@, r.page_type@, 0) == Some(t as int),
                            r.page_type@.len() > 0,
                            fviews(out@) == before + missing_of(*r, rv, k as int),
                        decreases req.len() - k,
                    {
                        let f = req[k].as_str();
                        let ghost mid = fviews(out@);
                        proof {
                            assert(rv[k as int] == f@);
                        }
                        if !field_present(&r.fields_present, f) {
                            let msg = concat2("required field missing: ", f);
                            out.push(finding(&r.slug, "missing-fields", Severity::Error, msg, &r.path));
                            proof {
                                assert(fviews(out@) =~= mid.push(fview(out@.last())));
                            }
                        } else {
                            proof {
                                assert(fviews(out@) =~= mid);
                            }
                        }
                        k += 1;
                    }
                    proof {
                        assert(fviews(out@) =~= before + missing_of(*r, views(types@[t as int].required@), types@[t as int].required@.len() as int));
                        assert(find_type(types@, r.page_type@, 0) == Some(t as int));
                        assert(r.page_type@.len() > 0);
                    }
                },
                None => {
                    proof {
                        assert(fviews(out@) =~= before + Seq::<FindingV>::empty());
                    }
                },
            }
        } else {
            proof {
                assert(fviews(out@) =~= before + Seq::<FindingV>::empty());
            }
        }
        i += 1;
    }
    proof {
        assert(records@.take(records.len() as int) =~= records@);
    }
    out
}

/// Pages whose type the registry does not know.
pub fn rule_unknown_type(records: &Vec<DocRecord>, types: &Vec<TypeInfo>) -> (r: Vec<LintFinding>)
    ensures
        fviews(r@) == unknown_findings(records@, types@),
{
    let mut out: Vec<LintFinding> = Vec::new();
    let mut i: usize = 0;
    while i < records.len()
        invariant
            i <= records.len(),
            fviews(out@) == unknown_findings(records@.take(i as int), types@),
        decreases records.len() - i,
    {
        proof {
            assert(records@.take(i as int + 1).drop_last() =~= records@.take(i as int));
            assert(records@.take(i as int + 1).last() == records@[i as int]);
        }
        let r = &records[i];
        let ghost before = fviews(out@);
        if !r.page_type.as_str().is_empty() && find_type_exec(types, r.page_type.as_str()).is_none() {
            let msg = concat2("unknown type: ", r.page_type.as_str());
            out.push(finding(&r.slug, "unknown-type", Severity::Error, msg, &r.path));
            proof {
                assert(fviews(out@) =~= before.push(fview(out@.last())));
            }
        } else {
            proof {
                assert(fviews(out@) =~= before);
            }
        }
        i += 1;
    }
    proof {
        assert(records@.take(records.len() as int) =~= records@);
    }
    out
}

// ── Rule: stale ──────────────────────────────────────────────────────────────

/// What `NaiveDate::parse_from_str(s, "%Y-%m-%d")` yields, as days from the
/// start of the common era (`Datelike::num_days_from_ce`); `None` when `s` is
/// no such date.
pub uninterp spec fn date_days(s: Seq<char>) -> Option<int>;

/// Calls `chrono::NaiveDate::parse_from_str` with the format `%Y-%m-%d`, and
/// `num_days_from_ce` on the date it gives; the result is named `date_days`.
#[verifier::external_body]
pub(crate) fn parse_date_days(s: &str) -> (r: Option<i32>)
    ensures
        match r {
            Some(d) => date_days(s@) == Some(d as int),
            None => date_days(s@) is None,
        },
{
    match chrono::NaiveDate::parse_from_str(s, "%Y-%m-%d") {
        Ok(d) => Some(chrono::Datelike::num_days_from_ce(&d)),
        Err(_) => None,
    }
}

/// A page is old when its date is before the threshold or is no date at all.
pub open spec fn is_old(r: DocRecord, threshold: i32) -> bool {
    match date_days(r.last_updated@) {
        Some(d) => d < threshold,
        None => true,
    }
}

/// A page has low confidence when the schema has no confidence field, or its
/// confidence is below the threshold.
pub open spec fn is_low_confidence(r: DocRecord) -> bool {
    r.confidence_field_absent || r.confidence_low == Some(true)
}

/// The stale findings of the records, in order.
pub open spec fn stale_findings(recs: Seq<DocRecord>, threshold: i32) -> Seq<FindingV>
    decreases recs.len(),
{
    if recs.len() == 0 {
        Seq::empty()
    } else {
        let r = recs.last();
        stale_findings(recs.drop_last(), threshold) + if (r.status@ == "active"@ || r.status@.len()
            == 0) && is_old(r, threshold) && is_low_confidence(r) {
            seq![
                (
                    r.slug@,
                    "stale"@,
                    Severity::Warning,
                    "stale page: "@ + if r.last_updated@.len() == 0 {
                        "no last_updated date"@
                    } else {
                        "last updated "@ + r.last_updated@
                    },
                    r.path@,
                ),
            ]
        } else {
            Seq::empty()
        }
    }
}

/// Active pages last updated before `threshold_days` (days from the common
/// era) or undated, whose confidence is low or not tracked.
pub fn rule_stale(records: &Vec<DocRecord>, threshold_days: i32) -> (r: Vec<LintFinding>)
    ensures
        fviews(r@) == stale_findings(records@, threshold_days),
{
    let mut out: Vec<LintFinding> = Vec::new();
    let mut i: usize = 0;
    while i < records.len()
        invariant
            i <= records.len(),
            fviews(out@) == stale_findings(records@.take(i as int), threshold_days),
        decreases records.len() - i,
    {
        proof {
            assert(records@.take(i as int + 1).drop_last() =~= records@.take(i as int));
            assert(records@.take(i as int + 1).last() == records@[i as int]);
        }
        let r = &records[i];
        let ghost before = fviews(out@);
        let active = str_eq(r.status.as_str(), "active") || r.status.as_str().is_empty();
        let old = match parse_date_days(r.last_updated.as_str()) {
            Some(d) => d < threshold_days,
            None => true,
        };
        let low = r.confidence_field_absent || match r.confidence_low {
            Some(b) => b,
            None => false,
        };
        if active && old && low {
            let note = if r.last_updated.as_str().is_empty() {
                "no last_updated date".to_owned()
            } else {
                concat2("last updated ", r.last_updated.as_str())
            };
            let msg = concat2("stale page: ", note.as_str());
            out.push(finding(&r.slug, "stale", Severity::Warning, msg, &r.path));
            proof {
                assert(fviews(out@) =~= before.push(fview(out@.last())));
            }
        } else {
            proof {
                assert(fviews(out@) =~= before);
            }
        }
        i += 1;
    }
    proof {
        assert(records@.take(records.len() as int) =~= records@);
    }
    out
}

/// A cross-wiki link `wiki://W/S` (with `W` free of `/`) is flagged, when
/// cross-wiki links are checked, exactly when `W` is not among the mounted
/// wikis: the finding is then a warning `broken-cross-wiki-link` naming the
/// link. When cross-wiki links are not checked it is never flagged.
pub proof fn law_cross_wiki_link_flagged(
    r: DocRecord,
    field: Seq<char>,
    w: Seq<char>,
    rest: Seq<char>,
    known: Set<Seq<char>>,
    check_cross: bool,
    mounted: Set<Seq<char>>,
)
    requires
        forall|j: int| 0 <= j < w.len() ==> w[j] != '/',
    ensures
        ({
            let target = scheme() + w + seq!['/'] + rest;
            let f = link_finding(r, field, target, known, check_cross, mounted);
            &&& (f.len() > 0 <==> check_cross && !mounted.contains(w))
            &&& f.len() <= 1
            &&& f.len() == 1 ==> f[0].0 == r.slug@ && f[0].1 == "broken-cross-wiki-link"@ && f[0].2
                == Severity::Warning && f[0].3 == "cross-wiki link to unmounted wiki: "@ + target
        }),
{
    let target = scheme() + w + seq!['/'] + rest;
    let tail = w + seq!['/'] + rest;
    assert(target.subrange(0, 7) =~= scheme());
    assert(target.subrange(7, target.len() as int) =~= tail);
    let k = w.len() as int;
    assert(tail.subrange(k, k + 1) =~= seq!['/']);
    assert forall|j: int| 0 <= j < k implies !crate::text::occurs_at(tail, j, seq!['/']) by {
        assert(tail.subrange(j, j + 1) =~= seq![w[j]]);
        if tail.subrange(j, j + 1) == seq!['/'] {
            assert(seq![w[j]][0] == seq!['/'][0]);
        }
    }
    crate::text::lemma_find_from_is(tail, seq!['/'], 0, k);
    assert(tail.subrange(0, k) =~= w);
    assert(uri_wiki(target) == w);
}

} // verus!
