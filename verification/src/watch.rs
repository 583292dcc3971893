//! Decisions of the filesystem watcher: which changes matter and what to do.
use vstd::prelude::*;

use crate::index_manager::UpdateReport;
use crate::pathutil::{extension_of, path_extension, path_starts_with, starts_with_path};
use crate::render::{decimal, decimal_string};
use crate::slug::join_path;
use crate::text::{find_from, find_from_exec, lemma_find_from, push_str, str_eq, to_chars};

verus! {

/// A schema file: under a `/schemas/` directory, with extension `json`.
pub open spec fn schema_path(p: Seq<char>) -> bool {
    find_from(p, "/schemas/"@, 0) is Some && path_extension(p) == Some("json"@)
}

/// Whether a path is a schema file.
pub fn is_schema_path(path: &str) -> (r: bool)
    ensures
        r == schema_path(path@),
{
    let cs = to_chars(path);
    let pat = to_chars("/schemas/");
    proof {
        lemma_find_from(cs@, pat@, 0);
    }
    let found = find_from_exec(&cs, &pat, 0).is_some();
    if !found {
        return false;
    }
    match extension_of(path) {
        Some(e) => str_eq(e.as_str(), "json"),
        None => false,
    }
}

/// A set of values kept as a list without repeats.
pub open spec fn set_insert<T>(s: Seq<T>, x: T) -> Seq<T> {
    if s.contains(x) {
        s
    } else {
        s.push(x)
    }
}

/// Pairs as values.
pub open spec fn pair_strs(v: Seq<(String, String)>) -> Seq<(Seq<char>, Seq<char>)> {
    v.map_values(|p: (String, String)| (p.0@, p.1@))
}

/// Record a changed path: a schema file marks its wiki for a rebuild, any
/// other file is a changed page of its wiki. Repeats are kept once.
pub fn classify_event(
    wiki_name: &str,
    path: &str,
    md_changes: &mut Vec<(String, String)>,
    schema_wikis: &mut Vec<String>,
)
    ensures
        schema_path(path@) ==> pair_strs(final(md_changes)@) == pair_strs(old(md_changes)@)
            && crate::links::views(final(schema_wikis)@) == set_insert(
            crate::links::views(old(schema_wikis)@),
            wiki_name@,
        ),
        !schema_path(path@) ==> crate::links::views(final(schema_wikis)@) == crate::links::views(
            old(schema_wikis)@,
        ) && pair_strs(final(md_changes)@) == set_insert(
            pair_strs(old(md_changes)@),
            (wiki_name@, path@),
        ),
{
    if is_schema_path(path) {
        let mut i: usize = 0;
        while i < schema_wikis.len()
            invariant
                i <= schema_wikis@.len(),
                schema_path(path@),
                *schema_wikis == *old(schema_wikis),
                *md_changes == *old(md_changes),
                forall|j: int| 0 <= j < i ==> schema_wikis@[j]@ != wiki_name@,
            decreases schema_wikis@.len() - i,
        {
            if str_eq(schema_wikis[i].as_str(), wiki_name) {
                proof {
                    assert(crate::links::views(schema_wikis@)[i as int] == wiki_name@);
                }
                return ;
            }
            i += 1;
        }
        let ghost before = crate::links::views(schema_wikis@);
        proof {
            assert(!before.contains(wiki_name@)) by {
                if before.contains(wiki_name@) {
                    let j = choose|j: int| 0 <= j < before.len() && before[j] == wiki_name@;
                    assert(schema_wikis@[j]@ == wiki_name@);
                }
            }
        }
        schema_wikis.push(wiki_name.to_owned());
        proof {
            assert(crate::links::views(schema_wikis@) =~= before.push(wiki_name@));
        }
    } else {
        let mut i: usize = 0;
        while i < md_changes.len()
            invariant
                i <= md_changes@.len(),
                !schema_path(path@),
                *schema_wikis == *old(schema_wikis),
                *md_changes == *old(md_changes),
                forall|j: int|
                    0 <= j < i ==> (md_changes@[j].0@, md_changes@[j].1@) != (wiki_name@, path@),
            decreases md_changes@.len() - i,
        {
            if str_eq(md_changes[i].0.as_str(), wiki_name) && str_eq(md_changes[i].1.as_str(), path) {
                proof {
                    assert(pair_strs(md_changes@)[i as int] == (wiki_name@, path@));
                }
                return ;
            }
            i += 1;
        }
        let ghost before = pair_strs(md_changes@);
        proof {
            assert(!before.contains((wiki_name@, path@))) by {
                if before.contains((wiki_name@, path@)) {
                    let j = choose|j: int| 0 <= j < before.len() && before[j] == (wiki_name@, path@);
                    assert((md_changes@[j].0@, md_changes@[j].1@) == (wiki_name@, path@));
                }
            }
        }
        md_changes.push((wiki_name.to_owned(), path.to_owned()));
        proof {
            assert(pair_strs(md_changes@) =~= before.push((wiki_name@, path@)));
        }
    }
}

/// What the watcher does after a burst of changes.
#[derive(Debug)]
pub enum WatchAction {
    /// Incrementally ingest these changed pages.
    IngestPages(Vec<String>),
    /// Rebuild the index of the wikis whose schemas changed.
    RebuildIndex,
}

/// The action for a burst of changes: a schema change means a rebuild,
/// which takes priority; else changed pages are ingested; else nothing.
pub fn watch_action(md_changes: &Vec<(String, String)>, schema_wikis: &Vec<String>) -> (r: Option<
    WatchAction,
>)
    ensures
        schema_wikis@.len() > 0 ==> r matches Some(WatchAction::RebuildIndex),
        schema_wikis@.len() == 0 && md_changes@.len() > 0 ==> (r matches Some(
            WatchAction::IngestPages(ps),
        ) && crate::links::views(ps@) == md_changes@.map_values(|p: (String, String)| p.1@)),
        schema_wikis@.len() == 0 && md_changes@.len() == 0 ==> r is None,
{
    if schema_wikis.len() > 0 {
        return Some(WatchAction::RebuildIndex);
    }
    if md_changes.len() == 0 {
        return None;
    }
    let mut paths: Vec<String> = Vec::new();
    let mut i: usize = 0;
    while i < md_changes.len()
        invariant
            i <= md_changes@.len(),
            crate::links::views(paths@) == md_changes@.take(i as int).map_values(
                |p: (String, String)| p.1@,
            ),
        decreases md_changes@.len() - i,
    {
        let ghost before = crate::links::views(paths@);
        paths.push(md_changes[i].1.clone());
        proof {
            assert(crate::links::views(paths@) =~= before.push(md_changes@[i as int].1@));
            assert(md_changes@.take(i as int + 1).map_values(|p: (String, String)| p.1@)
                =~= md_changes@.take(i as int).map_values(|p: (String, String)| p.1@).push(
                md_changes@[i as int].1@,
            ));
        }
        i += 1;
    }
    proof {
        assert(md_changes@.take(md_changes@.len() as int) =~= md_changes@);
    }
    Some(WatchAction::IngestPages(paths))
}

/// The number of paths under `root`, component-wise.
pub open spec fn count_under(paths: Seq<Seq<char>>, root: Seq<char>) -> nat
    decreases paths.len(),
{
    if paths.len() == 0 {
        0
    } else {
        count_under(paths.drop_last(), root) + if path_starts_with(paths.last(), root) {
            1nat
        } else {
            0nat
        }
    }
}

/// How many of the changed paths lie under a wiki root.
pub fn paths_under(paths: &Vec<String>, root: &str) -> (r: usize)
    ensures
        r == count_under(crate::links::views(paths@), root@),
{
    let ghost pv = crate::links::views(paths@);
    let mut n: usize = 0;
    let mut i: usize = 0;
    while i < paths.len()
        invariant
            i <= paths.len(),
            pv == crate::links::views(paths@),
            n == count_under(pv.take(i as int), root@),
            n <= i,
        decreases paths.len() - i,
    {
        proof {
            assert(pv.take(i as int + 1).drop_last() =~= pv.take(i as int));
            assert(pv.take(i as int + 1).last() == paths@[i as int]@);
        }
        if starts_with_path(paths[i].as_str(), root) {
            n += 1;
        }
        i += 1;
    }
    proof {
        assert(pv.take(paths.len() as int) =~= pv);
    }
    n
}

/// The notice sent after an ingest that changed pages; none when nothing changed.
pub open spec fn ingest_notice_of(wiki: Seq<char>, updated: nat, deleted: nat) -> Option<Seq<char>> {
    if updated > 0 || deleted > 0 {
        Some("Wiki \""@ + wiki + "\" updated: "@ + decimal(updated + deleted) + " page(s) changed."@)
    } else {
        None
    }
}

/// The notice for agent sessions after a watcher-triggered ingest.
pub fn ingest_notice(wiki_name: &str, report: &UpdateReport) -> (r: Option<String>)
    requires
        report.updated + report.deleted <= usize::MAX,
    ensures
        match ingest_notice_of(wiki_name@, report.updated as nat, report.deleted as nat) {
            Some(m) => r matches Some(s) && s@ == m,
            None => r is None,
        },
{
    if report.updated > 0 || report.deleted > 0 {
        let mut m = "Wiki \"".to_owned();
        push_str(&mut m, wiki_name);
        push_str(&mut m, "\" updated: ");
        push_str(&mut m, decimal_string(report.updated + report.deleted).as_str());
        push_str(&mut m, " page(s) changed.");
        Some(m)
    } else {
        None
    }
}

/// A watched wiki as (name, wiki root, repository root).
pub type WatchDir = (String, String, String);

/// The watched wiki a changed path belongs to: the first whose wiki root
/// holds it as a `.md` file, or whose `schemas` directory holds it as a
/// schema file.
pub open spec fn route_from(path: Seq<char>, dirs: Seq<(Seq<char>, Seq<char>, Seq<char>)>, i: int) -> Option<
    int,
>
    decreases dirs.len() - i,
{
    if i < 0 || i >= dirs.len() {
        None
    } else if path_starts_with(path, dirs[i].1) && path_extension(path) == Some("md"@) {
        Some(i)
    } else if path_starts_with(path, join_path(dirs[i].2, "schemas"@)) && schema_path(path) {
        Some(i)
    } else {
        route_from(path, dirs, i + 1)
    }
}

/// Watched directories as values.
pub open spec fn dir_views(dirs: Seq<WatchDir>) -> Seq<(Seq<char>, Seq<char>, Seq<char>)> {
    dirs.map_values(|d: WatchDir| (d.0@, d.1@, d.2@))
}

/// The index of the watched wiki a changed path belongs to, if any.
pub fn route_event(path: &str, dirs: &Vec<WatchDir>) -> (r: Option<usize>)
    ensures
        match route_from(path@, dir_views(dirs@), 0) {
            Some(k) => r matches Some(x) && x as int == k,
            None => r is None,
        },
{
    let ghost dv = dir_views(dirs@);
    let mut i: usize = 0;
    while i < dirs.len()
        invariant
            i <= dirs.len(),
            dv == dir_views(dirs@),
            route_from(path@, dv, 0) == route_from(path@, dv, i as int),
        decreases dirs.len() - i,
    {
        proof {
            assert(dv[i as int] == (dirs@[i as int].0@, dirs@[i as int].1@, dirs@[i as int].2@));
        }
        let is_md = match extension_of(path) {
            Some(e) => str_eq(e.as_str(), "md"),
            None => false,
        };
        if starts_with_path(path, dirs[i].1.as_str()) && is_md {
            return Some(i);
        }
        proof {
            reveal_strlit("schemas");
        }
        let schemas = crate::slug::join(dirs[i].2.as_str(), "schemas");
        if starts_with_path(path, schemas.as_str()) && is_schema_path(path) {
            return Some(i);
        }
        i += 1;
    }
    None
}

/// Adding a value to a list without repeats keeps it without repeats, and the
/// value is then in it: repeated events are recorded once.
pub proof fn law_set_insert_keeps_distinct<T>(s: Seq<T>, x: T)
    requires
        s.no_duplicates(),
    ensures
        set_insert(s, x).no_duplicates(),
        set_insert(s, x).contains(x),
        set_insert(set_insert(s, x), x) == set_insert(s, x),
{
    if !s.contains(x) {
        assert(s.push(x)[s.len() as int] == x);
        assert forall|i: int, j: int| 0 <= i < s.push(x).len() && 0 <= j < s.push(x).len() && i != j implies s.push(
            x,
        )[i] != s.push(x)[j] by {
            if i < s.len() && j < s.len() {
            } else if i < s.len() {
                assert(s.push(x)[i] == s[i]);
            } else {
                assert(s.push(x)[j] == s[j]);
            }
        }
    }
}

} // verus!
