//! Index lifecycle records: build reports, health, and how stale an index is.
use vstd::prelude::*;

use crate::lint_report::str_lt;
use crate::links::views;
use crate::render_llms::{law_sorted_strs, sort_strings, sorted_strs};
use crate::pathutil::{extension_of, file_name_of, path_extension, path_file_name};
use crate::slug::{from_path_outcome, Slug, SlugPathError};
use crate::text::{from_char_range, lemma_rfind_char, push_str, rfind_char, rfind_char_exec, str_eq, to_chars};

verus! {

/// Result of a full index rebuild.
#[derive(Debug)]
pub struct IndexReport {
    /// Name of the wiki that was indexed.
    pub wiki: String,
    /// Number of pages added to the index.
    pub pages_indexed: usize,
    /// Number of files skipped for read errors or invalid paths.
    pub skipped: usize,
    /// Wall-clock time of the rebuild in milliseconds.
    pub duration_ms: u64,
}

/// Result of an incremental index update.
#[derive(Debug)]
pub struct UpdateReport {
    /// Number of pages added or re-indexed.
    pub updated: usize,
    /// Number of pages removed from the index.
    pub deleted: usize,
}

impl Default for UpdateReport {
    fn default() -> (r: Self)
        ensures
            r.updated == 0,
            r.deleted == 0,
    {
        UpdateReport { updated: 0, deleted: 0 }
    }
}

/// Current health of a wiki's search index: healthy when it opens, can be
/// queried and is not stale; otherwise `degraded_reason` says why.
#[derive(Debug)]
pub struct IndexStatus {
    /// Wiki name.
    pub wiki: String,
    /// Path of the search-index directory.
    pub path: String,
    /// Time of the last successful build, if any.
    pub built: Option<String>,
    /// Number of pages in the index.
    pub pages: usize,
    /// Number of section pages in the index.
    pub sections: usize,
    /// The index is behind the current HEAD commit or schema.
    pub stale: bool,
    /// The index directory can be opened.
    pub openable: bool,
    /// The index can be queried.
    pub queryable: bool,
    /// Why the index is degraded, when it is.
    pub degraded_reason: Option<String>,
}

/// How stale an index is, which picks the cheapest rebuild.
#[derive(Debug)]
pub enum StalenessKind {
    /// Index matches the current HEAD and schema.
    Current,
    /// HEAD moved but the schema did not: an incremental update suffices.
    CommitChanged,
    /// Only these types' schemas changed: a partial rebuild suffices.
    TypesChanged(Vec<String>),
    /// The schema changed in a way that needs a full rebuild.
    FullRebuildNeeded,
}

/// The state persisted beside the index.
#[derive(Debug)]
pub struct IndexState {
    /// Hash of the combined type registry.
    pub schema_hash: String,
    /// Time the index was last built.
    pub built: String,
    /// Number of pages at the last build.
    pub pages: usize,
    /// Number of section pages at the last build.
    pub sections: usize,
    /// HEAD commit at the last build.
    pub commit: String,
    /// Per-type content hashes at the last build, as (type, hash).
    pub types: Vec<(String, String)>,
}

/// The first hash recorded for type `name` at or after `i`.
pub open spec fn hash_from(types: Seq<(Seq<char>, Seq<char>)>, name: Seq<char>, i: int) -> Option<
    Seq<char>,
>
    decreases types.len() - i,
{
    if i < 0 || i >= types.len() {
        None
    } else if types[i].0 == name {
        Some(types[i].1)
    } else {
        hash_from(types, name, i + 1)
    }
}

/// Type hashes as values.
pub open spec fn type_hashes(v: Seq<(String, String)>) -> Seq<(Seq<char>, Seq<char>)> {
    v.map_values(|p: (String, String)| (p.0@, p.1@))
}

/// The types recorded at the last build whose hash is gone or differs now.
pub open spec fn changed_old(old: Seq<(Seq<char>, Seq<char>)>, cur: Seq<(Seq<char>, Seq<char>)>) -> Seq<
    Seq<char>,
>
    decreases old.len(),
{
    if old.len() == 0 {
        Seq::empty()
    } else {
        let (n, h) = old.last();
        changed_old(old.drop_last(), cur) + if hash_from(cur, n, 0) != Some(h) {
            seq![n]
        } else {
            Seq::empty()
        }
    }
}

/// The types present now that were not recorded at the last build.
pub open spec fn changed_new(cur: Seq<(Seq<char>, Seq<char>)>, old: Seq<(Seq<char>, Seq<char>)>) -> Seq<
    Seq<char>,
>
    decreases cur.len(),
{
    if cur.len() == 0 {
        Seq::empty()
    } else {
        changed_new(cur.drop_last(), old) + if hash_from(old, cur.last().0, 0) is None {
            seq![cur.last().0]
        } else {
            Seq::empty()
        }
    }
}

/// No type is listed twice: the lists stand for maps from type to hash.
pub open spec fn distinct_types(t: Seq<(Seq<char>, Seq<char>)>) -> bool {
    forall|i: int, j: int| 0 <= i < j < t.len() ==> #[trigger] t[i].0 != #[trigger] t[j].0
}

proof fn lemma_hash_from_some(t: Seq<(Seq<char>, Seq<char>)>, x: Seq<char>, i: int, k: int)
    requires
        0 <= i <= k < t.len(),
        t[k].0 == x,
    ensures
        hash_from(t, x, i) is Some,
    decreases k - i,
{
    if t[i].0 != x {
        lemma_hash_from_some(t, x, i + 1, k);
    }
}

proof fn lemma_changed_old(old: Seq<(Seq<char>, Seq<char>)>, cur: Seq<(Seq<char>, Seq<char>)>)
    ensures
        forall|x: Seq<char>| #[trigger] changed_old(old, cur).contains(x) ==> exists|k: int|
            0 <= k < old.len() && old[k].0 == x,
        distinct_types(old) ==> changed_old(old, cur).no_duplicates(),
    decreases old.len(),
{
    if old.len() > 0 {
        let u = old.drop_last();
        lemma_changed_old(u, cur);
        let a = changed_old(u, cur);
        let (n, h) = old.last();
        let tail = if hash_from(cur, n, 0) != Some(h) {
            seq![n]
        } else {
            Seq::<Seq<char>>::empty()
        };
        assert(changed_old(old, cur) == a + tail);
        assert forall|x: Seq<char>| #[trigger] (a + tail).contains(x) implies exists|k: int|
            0 <= k < old.len() && old[k].0 == x by {
            let i = choose|i: int| 0 <= i < (a + tail).len() && (a + tail)[i] == x;
            if i < a.len() {
                assert(a[i] == x);
                assert(a.contains(x));
                let k = choose|k: int| 0 <= k < u.len() && u[k].0 == x;
                assert(old[k] == u[k]);
            } else {
                assert(old[old.len() - 1].0 == x);
            }
        }
        if distinct_types(old) {
            assert(distinct_types(u)) by {
                assert forall|i: int, j: int| 0 <= i < j < u.len() implies #[trigger] u[i].0
                    != #[trigger] u[j].0 by {
                    assert(u[i] == old[i] && u[j] == old[j]);
                }
            }
            assert forall|i: int, j: int| 0 <= i < a.len() && 0 <= j < tail.len() implies a[i]
                != tail[j] by {
                assert(a.contains(a[i]));
                let k = choose|k: int| 0 <= k < u.len() && u[k].0 == a[i];
                assert(old[k] == u[k]);
                assert(old[k].0 != old[old.len() - 1].0);
            }
            vstd::seq_lib::lemma_no_dup_in_concat(a, tail);
        }
    }
}

proof fn lemma_changed_new(cur: Seq<(Seq<char>, Seq<char>)>, old: Seq<(Seq<char>, Seq<char>)>)
    ensures
        forall|x: Seq<char>| #[trigger] changed_new(cur, old).contains(x) ==> hash_from(old, x, 0)
            is None,
        distinct_types(cur) ==> changed_new(cur, old).no_duplicates(),
        forall|x: Seq<char>| #[trigger] changed_new(cur, old).contains(x) ==> exists|k: int|
            0 <= k < cur.len() && cur[k].0 == x,
    decreases cur.len(),
{
    if cur.len() > 0 {
        let u = cur.drop_last();
        lemma_changed_new(u, old);
        let a = changed_new(u, old);
        let n = cur.last().0;
        let tail = if hash_from(old, n, 0) is None {
            seq![n]
        } else {
            Seq::<Seq<char>>::empty()
        };
        assert(changed_new(cur, old) == a + tail);
        assert forall|x: Seq<char>| #[trigger] (a + tail).contains(x) implies hash_from(old, x, 0)
            is None && exists|k: int| 0 <= k < cur.len() && cur[k].0 == x by {
            let i = choose|i: int| 0 <= i < (a + tail).len() && (a + tail)[i] == x;
            if i < a.len() {
                assert(a[i] == x);
                assert(a.contains(x));
                let k = choose|k: int| 0 <= k < u.len() && u[k].0 == x;
                assert(cur[k] == u[k]);
            } else {
                assert(cur[cur.len() - 1].0 == x);
            }
        }
        if distinct_types(cur) {
            assert(distinct_types(u)) by {
                assert forall|i: int, j: int| 0 <= i < j < u.len() implies #[trigger] u[i].0
                    != #[trigger] u[j].0 by {
                    assert(u[i] == cur[i] && u[j] == cur[j]);
                }
            }
            assert forall|i: int, j: int| 0 <= i < a.len() && 0 <= j < tail.len() implies a[i]
                != tail[j] by {
                assert(a.contains(a[i]));
                let k = choose|k: int| 0 <= k < u.len() && u[k].0 == a[i];
                assert(cur[k] == u[k]);
                assert(cur[k].0 != cur[cur.len() - 1].0);
            }
            vstd::seq_lib::lemma_no_dup_in_concat(a, tail);
        }
    }
}

/// With each list naming a type at most once, the changed types (those
/// whose hash is gone or differs, then those that are new) hold no type twice.
pub proof fn law_changed_types_distinct(
    old: Seq<(Seq<char>, Seq<char>)>,
    cur: Seq<(Seq<char>, Seq<char>)>,
)
    requires
        distinct_types(old),
        distinct_types(cur),
    ensures
        (changed_old(old, cur) + changed_new(cur, old)).no_duplicates(),
{
    lemma_changed_old(old, cur);
    lemma_changed_new(cur, old);
    let a = changed_old(old, cur);
    let b = changed_new(cur, old);
    assert forall|i: int, j: int| 0 <= i < a.len() && 0 <= j < b.len() implies a[i] != b[j] by {
        assert(a.contains(a[i]));
        assert(b.contains(b[j]));
        let k = choose|k: int| 0 <= k < old.len() && old[k].0 == a[i];
        lemma_hash_from_some(old, a[i], 0, k);
    }
    vstd::seq_lib::lemma_no_dup_in_concat(a, b);
}

/// How stale an index is, as a value: `0` current, `1` commit changed, `2`
/// these types changed, `3` full rebuild needed.
pub open spec fn staleness_of(
    state: Option<(Seq<char>, Seq<char>, Seq<(Seq<char>, Seq<char>)>)>,
    head: Seq<char>,
    schema_hash: Seq<char>,
    cur: Seq<(Seq<char>, Seq<char>)>,
) -> (int, Seq<Seq<char>>) {
    match state {
        None => (3, Seq::empty()),
        Some((commit, hash, old)) => if commit == head && hash == schema_hash {
            (0, Seq::empty())
        } else if hash == schema_hash {
            (1, Seq::empty())
        } else {
            let changed = changed_old(old, cur) + changed_new(cur, old);
            if changed.len() == 0 {
                (3, Seq::empty())
            } else {
                (2, sorted_strs(changed))
            }
        },
    }
}

/// A staleness kind as a value.
pub open spec fn kind_view(k: StalenessKind) -> (int, Seq<Seq<char>>) {
    match k {
        StalenessKind::Current => (0, Seq::empty()),
        StalenessKind::CommitChanged => (1, Seq::empty()),
        StalenessKind::TypesChanged(v) => (2, views(v@)),
        StalenessKind::FullRebuildNeeded => (3, Seq::empty()),
    }
}

fn find_hash<'a>(types: &'a Vec<(String, String)>, name: &str) -> (r: Option<&'a String>)
    ensures
        match hash_from(type_hashes(types@), name@, 0) {
            Some(h) => r matches Some(x) && x@ == h,
            None => r is None,
        },
{
    let ghost tv = type_hashes(types@);
    let mut i: usize = 0;
    while i < types.len()
        invariant
            i <= types.len(),
            tv == type_hashes(types@),
            hash_from(tv, name@, 0) == hash_from(tv, name@, i as int),
        decreases types.len() - i,
    {
        proof {
            assert(tv[i as int] == (types@[i as int].0@, types@[i as int].1@));
        }
        if str_eq(types[i].0.as_str(), name) {
            return Some(&types[i].1);
        }
        i += 1;
    }
    None
}

/// Classify how stale an index is from its persisted state (`None` when it
/// cannot be read), the current HEAD, the current schema hash and the current
/// per-type hashes. Changed types are reported in sorted order.
pub fn classify_staleness(
    state: Option<&IndexState>,
    head: &str,
    schema_hash: &str,
    current_types: &Vec<(String, String)>,
) -> (r: StalenessKind)
    ensures
        kind_view(r) == staleness_of(
            match state {
                Some(s) => Some((s.commit@, s.schema_hash@, type_hashes(s.types@))),
                None => None,
            },
            head@,
            schema_hash@,
            type_hashes(current_types@),
        ),
        r matches StalenessKind::TypesChanged(v) ==> forall|i: int, j: int|
            0 <= i < j < v@.len() ==> !str_lt(#[trigger] v@[j]@, #[trigger] v@[i]@),
        r matches StalenessKind::TypesChanged(v) ==> (state matches Some(st) && distinct_types(
            type_hashes(st.types@),
        ) && distinct_types(type_hashes(current_types@))) ==> views(v@).no_duplicates(),
{
    let s = match state {
        None => {
            return StalenessKind::FullRebuildNeeded;
        },
        Some(s) => s,
    };
    let same_schema = str_eq(s.schema_hash.as_str(), schema_hash);
    if str_eq(s.commit.as_str(), head) && same_schema {
        return StalenessKind::Current;
    }
    if same_schema {
        return StalenessKind::CommitChanged;
    }
    let ghost old = type_hashes(s.types@);
    let ghost cur = type_hashes(current_types@);
    let mut changed: Vec<String> = Vec::new();
    let mut i: usize = 0;
    while i < s.types.len()
        invariant
            i <= s.types@.len(),
            old == type_hashes(s.types@),
            cur == type_hashes(current_types@),
            views(changed@) == changed_old(old.take(i as int), cur),
        decreases s.types@.len() - i,
    {
        proof {
            assert(old.take(i as int + 1).drop_last() =~= old.take(i as int));
            assert(old.take(i as int + 1).last() == (s.types@[i as int].0@, s.types@[i as int].1@));
        }
        let (name, hash) = (&s.types[i].0, &s.types[i].1);
        let differs = match find_hash(current_types, name.as_str()) {
            Some(h) => !str_eq(h.as_str(), hash.as_str()),
            None => true,
        };
        let ghost before = views(changed@);
        if differs {
            changed.push(name.clone());
            proof {
                assert(views(changed@) =~= before + seq![name@]);
            }
        } else {
            proof {
                assert(views(changed@) =~= before + Seq::<Seq<char>>::empty());
            }
        }
        i += 1;
    }
    proof {
        assert(old.take(s.types@.len() as int) =~= old);
    }
    let ghost first = views(changed@);
    let mut j: usize = 0;
    while j < current_types.len()
        invariant
            j <= current_types@.len(),
            old == type_hashes(s.types@),
            cur == type_hashes(current_types@),
            views(changed@) == first + changed_new(cur.take(j as int), old),
        decreases current_types@.len() - j,
    {
        proof {
            assert(cur.take(j as int + 1).drop_last() =~= cur.take(j as int));
            assert(cur.take(j as int + 1).last() == (current_types@[j as int].0@, current_types@[j as int].1@));
        }
        let name = &current_types[j].0;
        let ghost before = views(changed@);
        if find_hash(&s.types, name.as_str()).is_none() {
            changed.push(name.clone());
            proof {
                assert(views(changed@) =~= before + seq![name@]);
            }
        } else {
            proof {
                assert(views(changed@) =~= before + Seq::<Seq<char>>::empty());
            }
        }
        j += 1;
    }
    proof {
        assert(cur.take(current_types@.len() as int) =~= cur);
    }
    if changed.len() == 0 {
        StalenessKind::FullRebuildNeeded
    } else {
        let sorted = sort_strings(&changed);
        proof {
            law_sorted_strs(views(changed@));
            assert(views(sorted@) == sorted_strs(views(changed@)));
            assert forall|i: int, j: int| 0 <= i < j < sorted@.len() implies !str_lt(
                #[trigger] sorted@[j]@,
                #[trigger] sorted@[i]@,
            ) by {
                assert(views(sorted@)[i] == sorted@[i]@ && views(sorted@)[j] == sorted@[j]@);
                assert(!str_lt(sorted_strs(views(changed@))[j], sorted_strs(views(changed@))[i]));
            }
            if distinct_types(old) && distinct_types(cur) {
                law_changed_types_distinct(old, cur);
            }
        }
        StalenessKind::TypesChanged(sorted)
    }
}

/// Why an index is degraded: unopenable before unqueryable before stale.
pub open spec fn degraded_reason_of(openable: bool, queryable: bool, stale: bool) -> Option<Seq<char>> {
    if !openable {
        Some("search index directory cannot be opened by Tantivy; run wiki_index_rebuild to recover"@)
    } else if !queryable {
        Some("search index reader failed to initialize; run wiki_index_rebuild to recover"@)
    } else if stale {
        Some(
            "index is behind the current HEAD commit or schema — rebuild needed; run wiki_index_rebuild to recover"@,
        )
    } else {
        None
    }
}

/// Why an index is degraded, if it is.
pub fn degraded_reason(openable: bool, queryable: bool, stale: bool) -> (r: Option<String>)
    ensures
        match degraded_reason_of(openable, queryable, stale) {
            Some(m) => r matches Some(s) && s@ == m,
            None => r is None,
        },
{
    if !openable {
        Some("search index directory cannot be opened by Tantivy; run wiki_index_rebuild to recover".to_owned())
    } else if !queryable {
        Some("search index reader failed to initialize; run wiki_index_rebuild to recover".to_owned())
    } else if stale {
        Some(
            "index is behind the current HEAD commit or schema — rebuild needed; run wiki_index_rebuild to recover".to_owned(),
        )
    } else {
        None
    }
}

/// The build facts of an index status from its persisted state (`None` when
/// it cannot be read): when it was built, its page and section counts, and
/// whether it is stale against the current HEAD and schema hash.
pub fn state_summary(state: Option<&IndexState>, head: &str, schema_hash: &str) -> (r: (
    Option<String>,
    usize,
    usize,
    bool,
))
    ensures
        match state {
            Some(s) => r.0 == Some(s.built) && r.1 == s.pages && r.2 == s.sections && r.3 == (
            s.commit@ != head@ || s.schema_hash@ != schema_hash@),
            None => r.0 is None && r.1 == 0 && r.2 == 0 && r.3,
        },
{
    match state {
        Some(s) => {
            let stale = !str_eq(s.commit.as_str(), head) || !str_eq(s.schema_hash.as_str(), schema_hash);
            (Some(s.built.clone()), s.pages, s.sections, stale)
        },
        None => (None, 0, 0, true),
    }
}

/// The status of an index from what was found on disk: its persisted state
/// (`None` when it cannot be read), the current HEAD and schema hash, and
/// whether the index opens and answers a query.
pub fn index_status(
    wiki: &str,
    path: &str,
    state: Option<&IndexState>,
    head: &str,
    schema_hash: &str,
    openable: bool,
    queryable: bool,
) -> (r: IndexStatus)
    ensures
        r.wiki@ == wiki@,
        r.path@ == path@,
        match state {
            Some(s) => r.built == Some(s.built) && r.pages == s.pages && r.sections == s.sections && r.stale
                == (s.commit@ != head@ || s.schema_hash@ != schema_hash@),
            None => r.built is None && r.pages == 0 && r.sections == 0 && r.stale,
        },
        r.openable == openable,
        r.queryable == queryable,
        match degraded_reason_of(openable, queryable, r.stale) {
            Some(m) => r.degraded_reason matches Some(s) && s@ == m,
            None => r.degraded_reason is None,
        },
{
    let (built, pages, sections, stale) = state_summary(state, head, schema_hash);
    let degraded = degraded_reason(openable, queryable, stale);
    IndexStatus {
        wiki: wiki.to_owned(),
        path: path.to_owned(),
        built,
        pages,
        sections,
        stale,
        openable,
        queryable,
        degraded_reason: degraded,
    }
}

// ── Index maintenance when a wiki is mounted ─────────────────────────────────

/// What to do with a wiki's index when the wiki is mounted.
#[derive(Debug)]
pub enum StartupAction {
    /// The index was never built: build it.
    Build,
    /// Apply the commits since the last build.
    Update,
    /// Re-index the pages of these types; on failure, rebuild everything.
    RebuildTypes(Vec<String>),
    /// Rebuild the whole index.
    Rebuild,
    /// Leave the stale index as it is and warn.
    WarnStale,
    /// Nothing to do.
    Nothing,
}

/// The action as a value: (0 build, 1 update, 2 types, 3 rebuild, 4 warn,
/// 5 nothing; the types for 2).
pub open spec fn startup_view(a: StartupAction) -> (int, Seq<Seq<char>>) {
    match a {
        StartupAction::Build => (0, Seq::empty()),
        StartupAction::Update => (1, Seq::empty()),
        StartupAction::RebuildTypes(v) => (2, views(v@)),
        StartupAction::Rebuild => (3, Seq::empty()),
        StartupAction::WarnStale => (4, Seq::empty()),
        StartupAction::Nothing => (5, Seq::empty()),
    }
}

/// The action for a mounted wiki. `status` is the index status when it could
/// be read, as (whether a build time is recorded, whether it is stale);
/// `staleness` is how stale the index is, `None` when that could not be
/// determined (it is only read when the index was built and `auto_rebuild` is on).
pub open spec fn startup_of(
    status: Option<(bool, bool)>,
    auto_rebuild: bool,
    staleness: Option<(int, Seq<Seq<char>>)>,
) -> (int, Seq<Seq<char>>) {
    let first_build = match status {
        Some((built, _)) => !built,
        None => true,
    };
    if first_build {
        (0, Seq::empty())
    } else if auto_rebuild {
        match staleness {
            Some((k, t)) => if k == 0 {
                (5, Seq::empty())
            } else if k == 1 {
                (1, Seq::empty())
            } else if k == 2 {
                (2, t)
            } else {
                (3, Seq::empty())
            },
            None => (3, Seq::empty()),
        }
    } else {
        match status {
            Some((_, true)) => (4, Seq::empty()),
            _ => (5, Seq::empty()),
        }
    }
}

/// Decide what to do with a wiki's index when it is mounted.
pub fn startup_action(status: Option<(bool, bool)>, auto_rebuild: bool, staleness: Option<StalenessKind>) -> (r:
    StartupAction)
    ensures
        startup_view(r) == startup_of(
            status,
            auto_rebuild,
            match staleness {
                Some(k) => Some(kind_view(k)),
                None => None,
            },
        ),
{
    let first_build = match status {
        Some((built, _)) => !built,
        None => true,
    };
    if first_build {
        return StartupAction::Build;
    }
    if auto_rebuild {
        match staleness {
            Some(StalenessKind::Current) => StartupAction::Nothing,
            Some(StalenessKind::CommitChanged) => StartupAction::Update,
            Some(StalenessKind::TypesChanged(types)) => StartupAction::RebuildTypes(types),
            Some(StalenessKind::FullRebuildNeeded) => StartupAction::Rebuild,
            None => StartupAction::Rebuild,
        }
    } else {
        match status {
            Some((_, true)) => StartupAction::WarnStale,
            _ => StartupAction::Nothing,
        }
    }
}

// ── Frontmatter fields to index ──────────────────────────────────────────────

/// An alias as (source field, canonical field).
pub type AliasV = (Seq<char>, Seq<char>);

/// `f` is the source of some alias.
pub open spec fn alias_source(aliases: Seq<AliasV>, f: Seq<char>) -> bool {
    exists|a: int| 0 <= a < aliases.len() && (#[trigger] aliases[a]).0 == f
}

/// The first `n` fields that are no alias source, each with its position.
pub open spec fn plain_fields(fields: Seq<Seq<char>>, aliases: Seq<AliasV>, n: int) -> Seq<(Seq<char>, int)>
    decreases n,
{
    if n <= 0 {
        Seq::empty()
    } else {
        plain_fields(fields, aliases, n - 1) + if !alias_source(aliases, fields[n - 1]) {
            seq![(fields[n - 1], n - 1)]
        } else {
            Seq::empty()
        }
    }
}

/// The position of the first field named `f` at or after `i`.
pub open spec fn field_pos(fields: Seq<Seq<char>>, f: Seq<char>, i: int) -> Option<int>
    decreases fields.len() - i,
{
    if i < 0 || i >= fields.len() {
        None
    } else if fields[i] == f {
        Some(i)
    } else {
        field_pos(fields, f, i + 1)
    }
}

/// The names resolved so far.
pub open spec fn resolved_names(r: Seq<(Seq<char>, int)>) -> Seq<Seq<char>> {
    r.map_values(|p: (Seq<char>, int)| p.0)
}

/// After the first `m` aliases: each alias whose canonical name is not yet
/// resolved and whose source field is present adds its canonical name, with
/// the source's position.
pub open spec fn aliased_fields(fields: Seq<Seq<char>>, aliases: Seq<AliasV>, m: int, start: Seq<(Seq<char>, int)>) -> Seq<
    (Seq<char>, int),
>
    decreases m,
{
    if m <= 0 {
        start
    } else {
        let r = aliased_fields(fields, aliases, m - 1, start);
        let (src, canon) = aliases[m - 1];
        if resolved_names(r).contains(canon) {
            r
        } else {
            match field_pos(fields, src, 0) {
                Some(j) => r.push((canon, j)),
                None => r,
            }
        }
    }
}

/// The fields of a page to index, under their canonical names, each with the
/// position of the field that holds its value: first the fields that are no
/// alias source, in order; then, alias by alias, the canonical name of an alias
/// whose canonical field is not yet there and whose source field is.
pub open spec fn resolved_fields(fields: Seq<Seq<char>>, aliases: Seq<AliasV>) -> Seq<(Seq<char>, int)> {
    aliased_fields(fields, aliases, aliases.len() as int, plain_fields(fields, aliases, fields.len() as int))
}

/// Aliases as values.
pub open spec fn alias_views(v: Seq<(String, String)>) -> Seq<AliasV> {
    v.map_values(|p: (String, String)| (p.0@, p.1@))
}

fn is_alias_source(aliases: &Vec<(String, String)>, f: &str) -> (r: bool)
    ensures
        r == alias_source(alias_views(aliases@), f@),
{
    let ghost av = alias_views(aliases@);
    let mut a: usize = 0;
    while a < aliases.len()
        invariant
            a <= aliases@.len(),
            av == alias_views(aliases@),
            forall|k: int| 0 <= k < a ==> (#[trigger] av[k]).0 != f@,
        decreases aliases@.len() - a,
    {
        proof {
            assert(av[a as int] == (aliases@[a as int].0@, aliases@[a as int].1@));
        }
        if str_eq(aliases[a].0.as_str(), f) {
            return true;
        }
        a += 1;
    }
    false
}

/// Choose the frontmatter fields of a page to index and their canonical
/// names, given the page's field names in order and its type's aliases
/// (source field, canonical field). Each result pairs a canonical name with
/// the position of the field holding the value.
pub fn resolve_fields(fields: &Vec<String>, aliases: &Vec<(String, String)>) -> (r: Vec<(String, usize)>)
    ensures
        r@.map_values(|p: (String, usize)| (p.0@, p.1 as int)) == resolved_fields(views(fields@), alias_views(aliases@)),
{
    let ghost fv = views(fields@);
    let ghost av = alias_views(aliases@);
    let mut out: Vec<(String, usize)> = Vec::new();
    let mut i: usize = 0;
    while i < fields.len()
        invariant
            i <= fields@.len(),
            fv == views(fields@),
            av == alias_views(aliases@),
            out@.map_values(|p: (String, usize)| (p.0@, p.1 as int)) == plain_fields(fv, av, i as int),
        decreases fields@.len() - i,
    {
        proof {
            assert(fv[i as int] == fields@[i as int]@);
        }
        if !is_alias_source(aliases, fields[i].as_str()) {
            let ghost before = out@.map_values(|p: (String, usize)| (p.0@, p.1 as int));
            out.push((fields[i].clone(), i));
            proof {
                assert(out@.map_values(|p: (String, usize)| (p.0@, p.1 as int)) =~= before.push((fv[i as int], i as int)));
            }
        }
        proof {
            assert(out@.map_values(|p: (String, usize)| (p.0@, p.1 as int)) =~= plain_fields(fv, av, i as int + 1));
        }
        i += 1;
    }
    let ghost start = plain_fields(fv, av, fields@.len() as int);
    let mut a: usize = 0;
    while a < aliases.len()
        invariant
            a <= aliases@.len(),
            fv == views(fields@),
            av == alias_views(aliases@),
            out@.map_values(|p: (String, usize)| (p.0@, p.1 as int)) == aliased_fields(fv, av, a as int, start),
        decreases aliases@.len() - a,
    {
        let ghost ov = out@.map_values(|p: (String, usize)| (p.0@, p.1 as int));
        proof {
            assert(av[a as int] == (aliases@[a as int].0@, aliases@[a as int].1@));
        }
        let canon = aliases[a].1.as_str();
        let mut seen = false;
        let mut k: usize = 0;
        while k < out.len()
            invariant
                k <= out@.len(),
                ov == out@.map_values(|p: (String, usize)| (p.0@, p.1 as int)),
                seen ==> (exists|q: int| 0 <= q < k && #[trigger] ov[q].0 == canon@),
                !seen ==> (forall|q: int| 0 <= q < k ==> #[trigger] ov[q].0 != canon@),
            decreases out@.len() - k,
        {
            proof {
                assert(ov[k as int] == (out@[k as int].0@, out@[k as int].1 as int));
            }
            if str_eq(out[k].0.as_str(), canon) {
                seen = true;
                assert(ov[k as int].0 == canon@);
            }
            k += 1;
        }
        proof {
            if seen {
                let q = choose|q: int| 0 <= q < k && #[trigger] ov[q].0 == canon@;
                assert(resolved_names(ov)[q] == canon@);
            }
            if resolved_names(ov).contains(canon@) {
                let q = choose|q: int| 0 <= q < resolved_names(ov).len() && resolved_names(ov)[q] == canon@;
                assert(ov[q].0 == canon@);
                assert(seen);
            }
        }
        if !seen {
            let src = aliases[a].0.as_str();
            let mut j: usize = 0;
            while j < fields.len() && !str_eq(fields[j].as_str(), src)
                invariant
                    j <= fields@.len(),
                    fv == views(fields@),
                    field_pos(fv, src@, 0) == field_pos(fv, src@, j as int),
                decreases fields@.len() - j,
            {
                proof {
                    assert(fv[j as int] == fields@[j as int]@);
                }
                j += 1;
            }
            if j < fields.len() {
                proof {
                    assert(fv[j as int] == fields@[j as int]@);
                }
                out.push((aliases[a].1.clone(), j));
                proof {
                    assert(out@.map_values(|p: (String, usize)| (p.0@, p.1 as int)) =~= ov.push((canon@, j as int)));
                }
            }
        }
        a += 1;
    }
    out
}

// ── Rebuild: one walked file ─────────────────────────────────────────────────

/// A walked file is a page when its extension is `md`.
pub open spec fn is_page_path(path: Seq<char>) -> bool {
    path_extension(path) == Some("md"@)
}

/// A page is a bundle page when its file is named `index.md`.
pub open spec fn is_bundle_path(path: Seq<char>) -> bool {
    path_file_name(path) == Some("index.md"@)
}

/// The directory a page's relative links resolve against: the slug itself
/// for a bundle page, else the slug up to its last `/` (empty at the top).
pub open spec fn source_dir_of(slug: Seq<char>, bundle: bool) -> Seq<char> {
    if bundle {
        slug
    } else {
        match rfind_char(slug, '/') {
            Some(k) => slug.take(k),
            None => Seq::empty(),
        }
    }
}

/// The URI of a page of a wiki.
pub open spec fn page_uri_of(wiki: Seq<char>, slug: Seq<char>) -> Seq<char> {
    "wiki://"@ + wiki + "/"@ + slug
}

/// Whether a walked file is a page (its extension is `md`).
pub fn is_page_file(path: &str) -> (r: bool)
    ensures
        r == is_page_path(path@),
{
    match extension_of(path) {
        Some(e) => str_eq(e.as_str(), "md"),
        None => false,
    }
}

/// Whether a page file is a bundle page (named `index.md`).
pub fn is_bundle_file(path: &str) -> (r: bool)
    ensures
        r == is_bundle_path(path@),
{
    match file_name_of(path) {
        Some(n) => str_eq(n.as_str(), "index.md"),
        None => false,
    }
}

/// The directory a page's relative links resolve against (see `source_dir_of`).
pub fn page_source_dir(slug: &str, bundle: bool) -> (r: String)
    ensures
        r@ == source_dir_of(slug@, bundle),
{
    let cs = to_chars(slug);
    if bundle {
        return crate::text::from_chars(&cs);
    }
    proof {
        assert(cs@.subrange(0, cs@.len() as int) =~= cs@);
        lemma_rfind_char(cs@, '/');
    }
    match rfind_char_exec(&cs, cs.len(), '/') {
        Some(k) => {
            let r = from_char_range(&cs, 0, k);
            proof {
                assert(cs@.subrange(0, k as int) =~= cs@.take(k as int));
            }
            r
        },
        None => String::new(),
    }
}

/// The URI of a page of a wiki: `wiki://<wiki>/<slug>`.
pub fn page_uri(wiki: &str, slug: &str) -> (r: String)
    ensures
        r@ == page_uri_of(wiki@, slug@),
{
    let mut r = "wiki://".to_string();
    push_str(&mut r, wiki);
    push_str(&mut r, "/");
    push_str(&mut r, slug);
    r
}

/// What a rebuild indexes for one page: its slug, its URI and the directory
/// its relative links resolve against.
pub struct RebuildEntry {
    pub slug: Slug,
    pub uri: String,
    pub source_dir: String,
}

/// The slug result of a rebuild step.
pub open spec fn entry_slug(r: Result<RebuildEntry, SlugPathError>) -> Result<Slug, SlugPathError> {
    match r {
        Ok(e) => Ok(e.slug),
        Err(x) => Err(x),
    }
}

/// What a rebuild does with one walked file of the wiki: `None` for a file
/// that is not a page (left alone); `Some(Err(..))` for a page whose path
/// gives no valid slug (skipped); else what to index for it.
pub fn rebuild_file(path: &str, wiki_root: &str, wiki: &str) -> (r: Option<
    Result<RebuildEntry, SlugPathError>,
>)
    ensures
        !is_page_path(path@) ==> r is None,
        is_page_path(path@) ==> (r matches Some(x) && (from_path_outcome(
            path@,
            wiki_root@,
            '/',
            entry_slug(x),
        ) || from_path_outcome(path@, wiki_root@, '\\', entry_slug(x)))),
        r matches Some(Ok(e)) ==> e.uri@ == page_uri_of(wiki@, e.slug@) && e.source_dir@
            == source_dir_of(e.slug@, is_bundle_path(path@)),
{
    if !is_page_file(path) {
        return None;
    }
    match Slug::from_path(path, wiki_root) {
        Err(e) => Some(Err(e)),
        Ok(slug) => {
            let uri = page_uri(wiki, slug.as_str());
            let bundle = is_bundle_file(path);
            let source_dir = page_source_dir(slug.as_str(), bundle);
            Some(Ok(RebuildEntry { slug, uri, source_dir }))
        },
    }
}

} // verus!
