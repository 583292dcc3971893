//! Ingest helpers: line-ending normalization, change filtering, and the
//! frontmatter/body split used before redaction.
use vstd::prelude::*;

use crate::config::RedactConfig;
use crate::links::views;
use crate::render::{decimal, decimal_string};
use crate::text::push_str;
use crate::pathutil::{
    path_eq, path_strip_prefix, path_without_extension, same_path, strip_prefix_of,
    without_extension,
};
use crate::redact::{
    active_patterns, builtin_specs, custom_views, match_views, redact_body, redact_lines,
    redact_text, RedactionMatch, RedactionReport,
};
use crate::text::{
    find_from, find_from_exec, from_chars, has_prefix, lemma_find_from, lines_exec, lines_of,
    occurs_at_exec, to_chars,
};

verus! {

/// `\r\n` pairs replaced by `\n`, scanning left to right.
pub open spec fn replace_crlf(s: Seq<char>) -> Seq<char>
    decreases s.len(),
{
    if s.len() == 0 {
        Seq::empty()
    } else if s.len() >= 2 && s[0] == '\r' && s[1] == '\n' {
        seq!['\n'] + replace_crlf(s.subrange(2, s.len() as int))
    } else {
        seq![s[0]] + replace_crlf(s.drop_first())
    }
}

/// Every `\r` replaced by `\n`.
pub open spec fn cr_to_lf(s: Seq<char>) -> Seq<char> {
    s.map_values(|c: char| if c == '\r' { '\n' } else { c })
}

/// Normalize line endings: CRLF becomes LF, then any lone CR becomes LF.
pub fn normalize_line_endings(input: &str) -> (r: String)
    ensures
        r@ == normalized(input@),
{
    let cs = to_chars(input);
    let mut a: Vec<char> = Vec::new();
    let mut i: usize = 0;
    proof {
        assert(cs@.subrange(0, cs@.len() as int) =~= cs@);
    }
    while i < cs.len()
        invariant
            i <= cs.len(),
            cs@ == input@,
            a@ + replace_crlf(cs@.subrange(i as int, cs@.len() as int)) == replace_crlf(cs@),
        decreases cs.len() - i,
    {
        let ghost rest = cs@.subrange(i as int, cs@.len() as int);
        let ghost pre = a@;
        if i + 1 < cs.len() && cs[i] == '\r' && cs[i + 1] == '\n' {
            a.push('\n');
            proof {
                assert(rest.subrange(2, rest.len() as int) =~= cs@.subrange(i + 2, cs@.len() as int));
                assert(a@ + replace_crlf(cs@.subrange(i + 2, cs@.len() as int)) =~= pre + (seq!['\n']
                    + replace_crlf(cs@.subrange(i + 2, cs@.len() as int))));
            }
            i += 2;
        } else {
            let c = cs[i];
            a.push(c);
            proof {
                assert(rest.drop_first() =~= cs@.subrange(i + 1, cs@.len() as int));
                assert(a@ + replace_crlf(cs@.subrange(i + 1, cs@.len() as int)) =~= pre + (seq![c]
                    + replace_crlf(cs@.subrange(i + 1, cs@.len() as int))));
            }
            i += 1;
        }
    }
    proof {
        assert(replace_crlf(cs@.subrange(i as int, cs@.len() as int)) =~= Seq::<char>::empty());
        assert(a@ + Seq::<char>::empty() =~= a@);
    }
    let mut b: Vec<char> = Vec::new();
    let mut j: usize = 0;
    while j < a.len()
        invariant
            j <= a.len(),
            b@ == cr_to_lf(a@).take(j as int),
        decreases a.len() - j,
    {
        let c = a[j];
        b.push(if c == '\r' { '\n' } else { c });
        j += 1;
        assert(b@ =~= cr_to_lf(a@).take(j as int));
    }
    assert(cr_to_lf(a@).take(a@.len() as int) =~= cr_to_lf(a@));
    from_chars(&b)
}

/// Normalized text.
pub open spec fn normalized(s: Seq<char>) -> Seq<char> {
    cr_to_lf(replace_crlf(s))
}

proof fn lemma_replace_crlf_plain(t: Seq<char>)
    requires
        !t.contains('\r'),
    ensures
        replace_crlf(t) == t,
    decreases t.len(),
{
    if t.len() > 0 {
        assert(t[0] != '\r');
        assert forall|i: int| 0 <= i < t.drop_first().len() implies t.drop_first()[i] != '\r' by {
            assert(t.drop_first()[i] == t[i + 1]);
        }
        lemma_replace_crlf_plain(t.drop_first());
        assert(t =~= seq![t[0]] + t.drop_first());
    }
}

/// Normalized text holds no carriage return, and normalizing it again
/// changes nothing.
pub proof fn law_normalize_line_endings(s: Seq<char>)
    ensures
        !normalized(s).contains('\r'),
        normalized(normalized(s)) == normalized(s),
{
    let t = normalized(s);
    assert forall|i: int| 0 <= i < t.len() implies t[i] != '\r' by {}
    lemma_replace_crlf_plain(t);
    assert(cr_to_lf(t) =~= t);
}

// ── Options and report ───────────────────────────────────────────────────────

/// Options of an ingest.
#[derive(Debug)]
pub struct IngestOptions {
    /// Validate only; write and commit nothing.
    pub dry_run: bool,
    /// Commit the ingested files.
    pub auto_commit: bool,
    /// When set and non-empty, only these paths (relative to the wiki root)
    /// are validated; other files count as unchanged.
    pub changed_paths: Option<Vec<String>>,
    /// When set, redact each page body before validation.
    pub redact: Option<RedactConfig>,
}

impl Default for IngestOptions {
    fn default() -> (r: Self)
        ensures
            !r.dry_run,
            !r.auto_commit,
            r.changed_paths is None,
            r.redact is None,
    {
        IngestOptions { dry_run: false, auto_commit: false, changed_paths: None, redact: None }
    }
}

/// What an ingest did.
#[derive(Debug)]
pub struct IngestReport {
    /// Pages validated.
    pub pages_validated: usize,
    /// Non-Markdown files found.
    pub assets_found: usize,
    /// Validation warnings.
    pub warnings: Vec<String>,
    /// Hash of the commit made, if any.
    pub commit: String,
    /// Files skipped as unchanged.
    pub unchanged_count: usize,
    /// Redactions applied, per page.
    pub redacted: Vec<RedactionReport>,
}

impl Default for IngestReport {
    fn default() -> (r: Self)
        ensures
            r.pages_validated == 0,
            r.assets_found == 0,
            r.warnings@.len() == 0,
            r.commit@.len() == 0,
            r.unchanged_count == 0,
            r.redacted@.len() == 0,
    {
        IngestReport {
            pages_validated: 0,
            assets_found: 0,
            warnings: Vec::new(),
            commit: String::new(),
            unchanged_count: 0,
            redacted: Vec::new(),
        }
    }
}

// ── Changed files ────────────────────────────────────────────────────────────

/// A path relative to the wiki root, or the path itself when it is not under it.
pub open spec fn rel_path(abs_path: Seq<char>, wiki_root: Seq<char>) -> Seq<char> {
    match path_strip_prefix(abs_path, wiki_root) {
        Some(r) => r,
        None => abs_path,
    }
}

/// A file is skipped when a non-empty set of changed paths is given and it is
/// not among them.
pub open spec fn skips(abs_path: Seq<char>, wiki_root: Seq<char>, changed: Option<Seq<Seq<char>>>) -> bool {
    match changed {
        None => false,
        Some(set) => set.len() > 0 && !(exists|i: int|
            0 <= i < set.len() && path_eq(#[trigger] set[i], rel_path(abs_path, wiki_root))),
    }
}

/// Whether a file counts as unchanged and is not validated.
pub fn should_skip(abs_path: &str, wiki_root: &str, changed: &Option<Vec<String>>) -> (r: bool)
    ensures
        r == skips(
            abs_path@,
            wiki_root@,
            match changed {
                Some(v) => Some(views(v@)),
                None => None,
            },
        ),
{
    let set = match changed {
        None => {
            return false;
        },
        Some(set) => set,
    };
    if set.len() == 0 {
        return false;
    }
    let rel = match strip_prefix_of(abs_path, wiki_root) {
        Some(r) => r,
        None => abs_path.to_owned(),
    };
    let mut i: usize = 0;
    while i < set.len()
        invariant
            i <= set@.len(),
            set@.len() > 0,
            changed matches Some(v) && v@ == set@,
            rel@ == rel_path(abs_path@, wiki_root@),
            forall|j: int| 0 <= j < i ==> !path_eq(set@[j]@, rel@),
        decreases set@.len() - i,
    {
        if same_path(set[i].as_str(), rel.as_str()) {
            assert(views(set@)[i as int] == set@[i as int]@);
            assert(path_eq(views(set@)[i as int], rel_path(abs_path@, wiki_root@)));
            assert(views(set@).len() > 0);
            assert(!skips(abs_path@, wiki_root@, Some(views(set@))));
            return false;
        }
        i += 1;
    }
    proof {
        assert forall|j: int| 0 <= j < views(set@).len() implies !path_eq(
            #[trigger] views(set@)[j],
            rel_path(abs_path@, wiki_root@),
        ) by {
            assert(views(set@)[j] == set@[j]@);
        }
    }
    true
}

/// The slug of a page file: its path relative to the wiki root without extension.
pub open spec fn slug_of_path(abs_path: Seq<char>, wiki_root: Seq<char>) -> Seq<char> {
    path_without_extension(rel_path(abs_path, wiki_root))
}

/// The slug of a page file.
pub fn slug_from_path(abs_path: &str, wiki_root: &str) -> (r: String)
    ensures
        r@ == slug_of_path(abs_path@, wiki_root@),
{
    let rel = match strip_prefix_of(abs_path, wiki_root) {
        Some(r) => r,
        None => abs_path.to_owned(),
    };
    without_extension(rel.as_str())
}

// ── Redaction of a page ──────────────────────────────────────────────────────

/// Where the body of a page starts (a character index), when the page opens
/// with `---` and a later `\n---` is followed by at least one more
/// character: just after that character.
pub open spec fn body_start(content: Seq<char>) -> Option<int> {
    if has_prefix(content, "---"@) {
        match find_from(content, "\n---"@, 3) {
            Some(k) => if k + 4 < content.len() {
                Some(k + 5)
            } else {
                None
            },
            None => None,
        }
    } else {
        None
    }
}

/// The split point falls inside a multi-byte character: the byte offset the
/// page split computes is then no character boundary.
pub open spec fn split_in_char(content: Seq<char>) -> bool {
    match body_start(content) {
        Some(s) => (content[s - 1] as u32) >= 0x80,
        None => false,
    }
}

/// The start of a page's body, if it has frontmatter.
pub fn find_body_start(content: &str) -> (r: Option<usize>)
    ensures
        match body_start(content@) {
            Some(s) => r matches Some(x) && x as int == s,
            None => r is None,
        },
{
    let cs = to_chars(content);
    let open = to_chars("---");
    let close = to_chars("\n---");
    proof {
        reveal_strlit("\n---");
        lemma_find_from(cs@, close@, 3);
        crate::links::lemma_prefix_at(cs@, 0, open@);
        assert(cs@.subrange(0, cs@.len() as int) =~= cs@);
    }
    if !occurs_at_exec(&cs, 0, &open) {
        return None;
    }
    match find_from_exec(&cs, &close, 3) {
        Some(k) => if k < cs.len() - 4 {
            Some(k + 5)
        } else {
            None
        },
        None => None,
    }
}

/// The page opens with `---` and a later line starts with `---`.
pub open spec fn frontmatter_delimited(content: Seq<char>) -> bool {
    has_prefix(content, "---"@) && find_from(content, "\n---"@, 3) is Some
}

/// Whether a page opens with a `---` frontmatter block that is closed.
pub fn has_frontmatter_block(content: &str) -> (r: bool)
    ensures
        r == frontmatter_delimited(content@),
{
    let cs = to_chars(content);
    let open = to_chars("---");
    let close = to_chars("\n---");
    proof {
        crate::links::lemma_prefix_at(cs@, 0, open@);
        assert(cs@.subrange(0, cs@.len() as int) =~= cs@);
    }
    occurs_at_exec(&cs, 0, &open) && find_from_exec(&cs, &close, 3).is_some()
}

/// What redaction does to a page: the text to write back, if any, and the
/// report of its matches, if any.
#[derive(Debug)]
pub struct PageRedaction {
    /// The redacted page, when something was redacted.
    pub write: Option<String>,
    /// The matches, with line numbers counted over the whole page.
    pub report: Option<RedactionReport>,
}

/// Redaction never touches a page's frontmatter: when a page has a body, what
/// is written back starts with the page's frontmatter unchanged.
pub proof fn law_redaction_keeps_frontmatter(content: Seq<char>, slug: Seq<char>, cfg: RedactConfig)
    requires
        body_start(content) is Some,
        page_redaction(content, slug, cfg).0 is Some,
    ensures
        ({
            let s = body_start(content).unwrap();
            let w = page_redaction(content, slug, cfg).0.unwrap();
            s <= w.len() && w.subrange(0, s) == content.subrange(0, s)
        }),
{
    lemma_find_from(content, "\n---"@, 3);
    let s = body_start(content).unwrap();
    let w = page_redaction(content, slug, cfg).0.unwrap();
    let front = content.subrange(0, s);
    let (b, m) = redact_text(patterns_of(cfg), content.subrange(s, content.len() as int));
    assert(w == front + b);
    assert(w.subrange(0, s) =~= front);
}

/// The matches shifted down by `n` lines.
pub open spec fn shift_lines(m: Seq<(Seq<char>, int)>, n: int) -> Seq<(Seq<char>, int)> {
    m.map_values(|x: (Seq<char>, int)| (x.0, x.1 + n))
}

/// The patterns in force for a redaction config.
pub open spec fn patterns_of(cfg: RedactConfig) -> Seq<(Seq<char>, Seq<char>, Seq<char>)> {
    active_patterns(builtin_specs(), views(cfg.disable@), custom_views(cfg.patterns@))
}

/// Redaction of a page: with frontmatter, only the body is redacted and the
/// match lines count the frontmatter's lines too; without, the whole page.
/// Nothing is written or reported when nothing matched.
pub open spec fn page_redaction(content: Seq<char>, slug: Seq<char>, cfg: RedactConfig) -> (
    Option<Seq<char>>,
    Option<(Seq<char>, Seq<(Seq<char>, int)>)>,
) {
    match body_start(content) {
        Some(s) => {
            let front = content.subrange(0, s);
            let (b, m) = redact_text(patterns_of(cfg), content.subrange(s, content.len() as int));
            if m.len() > 0 {
                (Some(front + b), Some((slug, shift_lines(m, lines_of(front).len() as int))))
            } else {
                (None, None)
            }
        },
        None => {
            let (t, m) = redact_text(patterns_of(cfg), content);
            if m.len() > 0 {
                (Some(t), Some((slug, m)))
            } else {
                (None, None)
            }
        },
    }
}

proof fn lemma_lines_len(s: Seq<char>)
    ensures
        lines_of(s).len() <= s.len(),
    decreases s.len(),
{
    if s.len() > 0 {
        match crate::text::find_c(s, '\n') {
            None => {},
            Some(k) => {
                lemma_find_from(s, seq!['\n'], 0);
                lemma_lines_len(s.subrange(k + 1, s.len() as int));
            },
        }
    }
}

proof fn lemma_redact_lines_bound(pats: Seq<(Seq<char>, Seq<char>, Seq<char>)>, lines: Seq<Seq<char>>)
    ensures
        forall|k: int|
            0 <= k < redact_lines(pats, lines).1.len() ==> 0 <= #[trigger] redact_lines(
                pats,
                lines,
            ).1[k].1 <= lines.len(),
    decreases lines.len(),
{
    if lines.len() > 0 {
        let p = lines.drop_last();
        lemma_redact_lines_bound(pats, p);
        let m = redact_lines(pats, p).1;
        let names = crate::redact::apply_patterns(pats, lines.last()).1;
        let tail = names.map_values(|n: Seq<char>| (n, lines.len() as int));
        let all = redact_lines(pats, lines).1;
        assert(all == m + tail);
        assert forall|k: int| 0 <= k < all.len() implies 0 <= #[trigger] all[k].1 <= lines.len() by {
            if k < m.len() {
                assert(all[k] == m[k]);
            } else {
                assert(all[k] == tail[k - m.len()]);
            }
        }
    }
}

/// Redact a page's body (or the whole page when it has no frontmatter) with
/// the patterns in force for `cfg`; `slug` names the page in the report.
pub fn redact_page(content: &str, slug: &str, cfg: &RedactConfig) -> (r: PageRedaction)
    requires
        content@.len() <= usize::MAX,
        !split_in_char(content@),
    ensures
        (
            match r.write {
                Some(w) => Some(w@),
                None => None,
            },
            match r.report {
                Some(rep) => Some((rep.slug@, match_views(rep.matches@))),
                None => None,
            },
        ) == page_redaction(content@, slug@, *cfg),
{
    let cs = to_chars(content);
    match find_body_start(content) {
        Some(s) => {
            let front = crate::text::from_char_range(&cs, 0, s);
            let body = crate::text::from_char_range(&cs, s, cs.len());
            let (redacted, matches) = redact_body(body.as_str(), cfg);
            if matches.len() == 0 {
                return PageRedaction { write: None, report: None };
            }
            let fcs = to_chars(front.as_str());
            let fm_lines = lines_exec(&fcs).len();
            proof {
                lemma_lines_len(front@);
                lemma_lines_len(body@);
                lemma_redact_lines_bound(patterns_of(*cfg), lines_of(body@));
                assert(cs@.subrange(0, s as int) + cs@.subrange(s as int, cs@.len() as int) =~= cs@);
            }
            let ghost mv = match_views(matches@);
            let mut adjusted: Vec<RedactionMatch> = Vec::new();
            let mut i: usize = 0;
            while i < matches.len()
                invariant
                    i <= matches@.len(),
                    mv == match_views(matches@),
                    fm_lines as int == lines_of(front@).len(),
                    fm_lines <= front@.len(),
                    front@.len() + lines_of(body@).len() <= content@.len() <= usize::MAX,
                    forall|k: int| 0 <= k < mv.len() ==> 0 <= #[trigger] mv[k].1 <= lines_of(body@).len(),
                    match_views(adjusted@) == shift_lines(mv.take(i as int), fm_lines as int),
                decreases matches@.len() - i,
            {
                proof {
                    assert(mv[i as int].1 == matches@[i as int].line_number as int);
                }
                let m = RedactionMatch {
                    pattern_name: matches[i].pattern_name.clone(),
                    line_number: matches[i].line_number + fm_lines,
                };
                let ghost before = match_views(adjusted@);
                adjusted.push(m);
                proof {
                    assert(match_views(adjusted@) =~= before.push((mv[i as int].0, mv[i as int].1 + fm_lines)));
                    assert(shift_lines(mv.take(i as int + 1), fm_lines as int) =~= shift_lines(
                        mv.take(i as int),
                        fm_lines as int,
                    ).push((mv[i as int].0, mv[i as int].1 + fm_lines)));
                }
                i += 1;
            }
            proof {
                assert(mv.take(matches@.len() as int) =~= mv);
            }
            let mut out = front;
            crate::text::push_str(&mut out, redacted.as_str());
            PageRedaction {
                write: Some(out),
                report: Some(RedactionReport { slug: slug.to_owned(), matches: adjusted }),
            }
        },
        None => {
            let (redacted, matches) = redact_body(content, cfg);
            if matches.len() == 0 {
                return PageRedaction { write: None, report: None };
            }
            PageRedaction {
                write: Some(redacted),
                report: Some(RedactionReport { slug: slug.to_owned(), matches }),
            }
        },
    }
}

// ── Planning an ingest ───────────────────────────────────────────────────────

/// Which files an ingest validates, and what it counts.
#[derive(Debug)]
pub struct IngestPlan {
    /// Files to validate, in walk order.
    pub validate: Vec<String>,
    /// Files skipped as unchanged.
    pub unchanged_count: usize,
    /// Non-Markdown files found in a directory walk.
    pub assets_found: usize,
}

/// The plan for the first `n` files: a file given directly is validated
/// unless skipped; in a directory walk a `.md` file is validated unless
/// skipped and any other file counts as an asset.
pub open spec fn plan_of(
    files: Seq<Seq<char>>,
    n: int,
    single_file: bool,
    root: Seq<char>,
    changed: Option<Seq<Seq<char>>>,
) -> (Seq<Seq<char>>, nat, nat)
    decreases n,
{
    if n <= 0 {
        (Seq::empty(), 0, 0)
    } else {
        let (v, u, a) = plan_of(files, n - 1, single_file, root, changed);
        let f = files[n - 1];
        if !single_file && crate::pathutil::path_extension(f) != Some("md"@) {
            (v, u, a + 1)
        } else if skips(f, root, changed) {
            (v, u + 1, a)
        } else {
            (v.push(f), u, a)
        }
    }
}

proof fn lemma_plan_bounds(
    files: Seq<Seq<char>>,
    n: int,
    single_file: bool,
    root: Seq<char>,
    changed: Option<Seq<Seq<char>>>,
)
    requires
        0 <= n <= files.len(),
    ensures
        plan_of(files, n, single_file, root, changed).0.len() + plan_of(files, n, single_file, root, changed).1
            + plan_of(files, n, single_file, root, changed).2 == n,
    decreases n,
{
    if n > 0 {
        lemma_plan_bounds(files, n - 1, single_file, root, changed);
    }
}

/// The Markdown files among the first `n` files of a walk, in order.
pub open spec fn md_files(files: Seq<Seq<char>>, n: int) -> Seq<Seq<char>>
    decreases n,
{
    if n <= 0 {
        Seq::empty()
    } else if crate::pathutil::path_extension(files[n - 1]) == Some("md"@) {
        md_files(files, n - 1).push(files[n - 1])
    } else {
        md_files(files, n - 1)
    }
}

/// In a directory walk, every Markdown file is either validated or counted
/// unchanged and every other file is an asset; validated files are Markdown
/// files, in walk order; without a non-empty set of changed paths nothing is
/// unchanged and every Markdown file is validated.
pub proof fn law_walk_plan_counts(
    files: Seq<Seq<char>>,
    n: int,
    root: Seq<char>,
    changed: Option<Seq<Seq<char>>>,
)
    requires
        0 <= n <= files.len(),
    ensures
        plan_of(files, n, false, root, changed).0.len() + plan_of(files, n, false, root, changed).1
            == md_files(files, n).len(),
        plan_of(files, n, false, root, changed).2 == n - md_files(files, n).len(),
        forall|i: int|
            0 <= i < plan_of(files, n, false, root, changed).0.len() ==> crate::pathutil::path_extension(
                #[trigger] plan_of(files, n, false, root, changed).0[i],
            ) == Some("md"@),
        (changed is None || changed->0.len() == 0) ==> plan_of(files, n, false, root, changed).1 == 0
            && plan_of(files, n, false, root, changed).0 == md_files(files, n),
    decreases n,
{
    if n > 0 {
        law_walk_plan_counts(files, n - 1, root, changed);
        let (v, u, a) = plan_of(files, n - 1, false, root, changed);
        let f = files[n - 1];
        if crate::pathutil::path_extension(f) == Some("md"@) && !skips(f, root, changed) {
            assert forall|i: int| 0 <= i < v.push(f).len() implies crate::pathutil::path_extension(
                #[trigger] v.push(f)[i],
            ) == Some("md"@) by {
                if i < v.len() {
                    assert(v.push(f)[i] == v[i]);
                }
            }
        }
    }
}

/// Sort the files an ingest found: `single_file` when the ingested path is a
/// file itself (then `files` holds just it), else the files of the walk.
pub fn plan_ingest(files: &Vec<String>, single_file: bool, wiki_root: &str, changed: &Option<Vec<String>>) -> (r:
    IngestPlan)
    ensures
        ({
            let p = plan_of(
                views(files@),
                files@.len() as int,
                single_file,
                wiki_root@,
                match changed {
                    Some(v) => Some(views(v@)),
                    None => None,
                },
            );
            views(r.validate@) == p.0 && r.unchanged_count == p.1 && r.assets_found == p.2
        }),
{
    let ghost fv = views(files@);
    let ghost ch = match changed {
        Some(v) => Some(views(v@)),
        None => None,
    };
    let mut validate: Vec<String> = Vec::new();
    let mut unchanged: usize = 0;
    let mut assets: usize = 0;
    let mut i: usize = 0;
    while i < files.len()
        invariant
            i <= files@.len(),
            fv == views(files@),
            ch == match changed {
                Some(v) => Some(views(v@)),
                None => None,
            },
            views(validate@) == plan_of(fv, i as int, single_file, wiki_root@, ch).0,
            unchanged == plan_of(fv, i as int, single_file, wiki_root@, ch).1,
            assets == plan_of(fv, i as int, single_file, wiki_root@, ch).2,
        decreases files@.len() - i,
    {
        proof {
            lemma_plan_bounds(fv, i as int, single_file, wiki_root@, ch);
            assert(fv[i as int] == files@[i as int]@);
        }
        let f = files[i].as_str();
        let is_md = match crate::pathutil::extension_of(f) {
            Some(e) => crate::text::str_eq(e.as_str(), "md"),
            None => false,
        };
        if !single_file && !is_md {
            assets += 1;
        } else if should_skip(f, wiki_root, changed) {
            unchanged += 1;
        } else {
            let ghost before = views(validate@);
            validate.push(files[i].clone());
            proof {
                assert(views(validate@) =~= before.push(f@));
            }
        }
        i += 1;
    }
    IngestPlan { validate, unchanged_count: unchanged, assets_found: assets }
}

/// The commit message of an ingest.
pub open spec fn commit_message(path: Seq<char>, pages: nat, assets: nat) -> Seq<char> {
    "ingest: "@ + path + " — +"@ + decimal(pages) + " pages, +"@ + decimal(assets) + " assets"@
}

/// The commit message of an ingest of `path`.
pub fn ingest_commit_message(path: &str, pages: usize, assets: usize) -> (r: String)
    ensures
        r@ == commit_message(path@, pages as nat, assets as nat),
{
    let mut m = "ingest: ".to_string();
    push_str(&mut m, path);
    push_str(&mut m, " — +");
    push_str(&mut m, decimal_string(pages).as_str());
    push_str(&mut m, " pages, +");
    push_str(&mut m, decimal_string(assets).as_str());
    push_str(&mut m, " assets");
    m
}

} // verus!
