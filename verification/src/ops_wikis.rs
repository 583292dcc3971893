//! Operations over the registered wikis: listing them and migrating their schemas.
use vstd::prelude::*;

use crate::config::{GlobalConfig, WikiEntry};
use crate::default_schemas::{is_stock_schema, stock_content};
use crate::lint_report::{str_less, str_lt};
use crate::links::views;
use crate::text::str_eq;

verus! {

// ── Listing ──────────────────────────────────────────────────────────────────

/// The registered wikis named `name`, in order.
pub open spec fn named(wikis: Seq<WikiEntry>, name: Seq<char>) -> Seq<WikiEntry>
    decreases wikis.len(),
{
    if wikis.len() == 0 {
        Seq::empty()
    } else {
        named(wikis.drop_last(), name) + if wikis.last().name@ == name {
            seq![wikis.last()]
        } else {
            Seq::empty()
        }
    }
}

/// The registered wikis, or those named `name`.
pub open spec fn select_wikis(wikis: Seq<WikiEntry>, name: Option<Seq<char>>) -> Seq<WikiEntry> {
    match name {
        Some(n) => named(wikis, n),
        None => wikis,
    }
}

fn select(config: &GlobalConfig, name: Option<&str>) -> (r: Vec<WikiEntry>)
    ensures
        r@ == select_wikis(
            config.wikis@,
            match name {
                Some(n) => Some(n@),
                None => None,
            },
        ),
{
    let mut out: Vec<WikiEntry> = Vec::new();
    let mut i: usize = 0;
    while i < config.wikis.len()
        invariant
            i <= config.wikis@.len(),
            out@ == select_wikis(
                config.wikis@.take(i as int),
                match name {
                    Some(n) => Some(n@),
                    None => None,
                },
            ),
        decreases config.wikis@.len() - i,
    {
        proof {
            assert(config.wikis@.take(i as int + 1).drop_last() =~= config.wikis@.take(i as int));
            assert(config.wikis@.take(i as int + 1).last() == config.wikis@[i as int]);
        }
        let ghost before = out@;
        let keep = match name {
            Some(n) => str_eq(config.wikis[i].name.as_str(), n),
            None => true,
        };
        if keep {
            out.push(config.wikis[i].clone());
            proof {
                assert(out@ =~= before + seq![config.wikis@[i as int]]);
            }
        } else {
            proof {
                assert(out@ =~= before + Seq::<WikiEntry>::empty());
            }
        }
        i += 1;
    }
    proof {
        assert(config.wikis@.take(config.wikis@.len() as int) =~= config.wikis@);
    }
    out
}

/// List the registered wikis, or only those named `name`.
pub fn spaces_list(config: &GlobalConfig, name: Option<&str>) -> (r: Vec<WikiEntry>)
    ensures
        r@ == select_wikis(
            config.wikis@,
            match name {
                Some(n) => Some(n@),
                None => None,
            },
        ),
{
    select(config, name)
}

// ── Schema migration ─────────────────────────────────────────────────────────

/// A `.json` file of a wiki's `schemas` directory, with its content.
#[derive(Debug)]
pub struct SchemaFile {
    /// File name.
    pub file_name: String,
    /// File content.
    pub content: String,
}

/// What migration did, or would do, to one wiki.
#[derive(Debug)]
pub struct WikiMigrateReport {
    /// Wiki name.
    pub name: String,
    /// Stock schema files removed (or to remove in a dry run).
    pub deleted: Vec<String>,
    /// Custom schema files kept.
    pub kept_custom: Vec<String>,
    /// Nothing to remove: no stock schema file was found.
    pub already_clean: bool,
}

/// What migration did to each wiki.
#[derive(Debug)]
pub struct MigrateReport {
    /// One report per migrated wiki, in registration order.
    pub wikis: Vec<WikiMigrateReport>,
}

/// A schema file as (name, stock).
pub type FileV = (Seq<char>, bool);

/// Where `x` goes among files sorted by name.
pub open spec fn file_pos(s: Seq<FileV>, x: FileV) -> int
    decreases s.len(),
{
    if s.len() == 0 {
        0
    } else if str_lt(x.0, s.last().0) {
        file_pos(s.drop_last(), x)
    } else {
        s.len() as int
    }
}

/// The files in stable order by name.
pub open spec fn sort_files(s: Seq<FileV>) -> Seq<FileV>
    decreases s.len(),
{
    if s.len() == 0 {
        Seq::empty()
    } else {
        let t = sort_files(s.drop_last());
        t.insert(file_pos(t, s.last()), s.last())
    }
}

/// The names of the stock (`true`) or custom (`false`) files, in order.
pub open spec fn names_where(s: Seq<FileV>, stock: bool) -> Seq<Seq<char>>
    decreases s.len(),
{
    if s.len() == 0 {
        Seq::empty()
    } else {
        names_where(s.drop_last(), stock) + if s.last().1 == stock {
            seq![s.last().0]
        } else {
            Seq::empty()
        }
    }
}

/// Each file as its name and whether its content is a stock schema.
pub open spec fn file_views(v: Seq<SchemaFile>, stock: Seq<String>) -> Seq<FileV> {
    v.map_values(|f: SchemaFile| (f.file_name@, stock_content(f.content@, stock)))
}

proof fn lemma_file_pos_bounds(s: Seq<FileV>, x: FileV)
    ensures
        0 <= file_pos(s, x) <= s.len(),
    decreases s.len(),
{
    if s.len() > 0 {
        lemma_file_pos_bounds(s.drop_last(), x);
    }
}

/// Sorting keeps exactly the files it was given.
proof fn lemma_sort_files_contains(s: Seq<FileV>)
    ensures
        forall|x: FileV| #[trigger] sort_files(s).contains(x) <==> s.contains(x),
    decreases s.len(),
{
    if s.len() > 0 {
        let u = s.drop_last();
        lemma_sort_files_contains(u);
        let t = sort_files(u);
        let p = file_pos(t, s.last());
        lemma_file_pos_bounds(t, s.last());
        let r = t.insert(p, s.last());
        assert forall|x: FileV| #[trigger] r.contains(x) <==> s.contains(x) by {
            if r.contains(x) {
                let k = choose|k: int| 0 <= k < r.len() && r[k] == x;
                if k < p {
                    assert(t[k] == x);
                    assert(t.contains(x));
                    let j = choose|j: int| 0 <= j < u.len() && u[j] == x;
                    assert(s[j] == x);
                } else if k == p {
                    assert(s[s.len() - 1] == x);
                } else {
                    assert(t[k - 1] == x);
                    assert(t.contains(x));
                    let j = choose|j: int| 0 <= j < u.len() && u[j] == x;
                    assert(s[j] == x);
                }
            }
            if s.contains(x) {
                let j = choose|j: int| 0 <= j < s.len() && s[j] == x;
                if j == s.len() - 1 {
                    assert(r[p] == x);
                } else {
                    assert(u[j] == x);
                    assert(t.contains(x));
                    let k = choose|k: int| 0 <= k < t.len() && t[k] == x;
                    if k < p {
                        assert(r[k] == x);
                    } else {
                        assert(r[k + 1] == x);
                    }
                }
            }
        }
    }
}

/// A name is listed among the stock (or custom) files exactly when some file
/// with that flag has that name.
proof fn lemma_names_where_contains(s: Seq<FileV>, stock: bool)
    ensures
        forall|n: Seq<char>| #[trigger] names_where(s, stock).contains(n) <==> exists|k: int|
            0 <= k < s.len() && s[k].0 == n && s[k].1 == stock,
    decreases s.len(),
{
    if s.len() > 0 {
        let u = s.drop_last();
        lemma_names_where_contains(u, stock);
        let tail = if s.last().1 == stock {
            seq![s.last().0]
        } else {
            Seq::<Seq<char>>::empty()
        };
        assert forall|n: Seq<char>| #[trigger] names_where(s, stock).contains(n) <==> exists|k: int|
            0 <= k < s.len() && s[k].0 == n && s[k].1 == stock by {
            let a = names_where(u, stock);
            if (a + tail).contains(n) {
                let i = choose|i: int| 0 <= i < (a + tail).len() && (a + tail)[i] == n;
                if i < a.len() {
                    assert(a[i] == n);
                    assert(a.contains(n));
                    let k = choose|k: int| 0 <= k < u.len() && u[k].0 == n && u[k].1 == stock;
                    assert(s[k] == u[k]);
                } else {
                    assert(s[s.len() - 1].0 == n && s[s.len() - 1].1 == stock);
                }
            }
            if exists|k: int| 0 <= k < s.len() && s[k].0 == n && s[k].1 == stock {
                let k = choose|k: int| 0 <= k < s.len() && s[k].0 == n && s[k].1 == stock;
                if k < s.len() - 1 {
                    assert(u[k] == s[k]);
                    assert(a.contains(n));
                    let i = choose|i: int| 0 <= i < a.len() && a[i] == n;
                    assert((a + tail)[i] == n);
                } else {
                    assert((a + tail)[a.len() as int] == n);
                }
            }
        }
    }
}

/// `a` does not sort after `b`, and `b` not after `c`: then `a` not after `c`.
proof fn lemma_str_nlt_trans(a: Seq<char>, b: Seq<char>, c: Seq<char>)
    requires
        !str_lt(b, a),
        !str_lt(c, b),
    ensures
        !str_lt(c, a),
{
    crate::lint_report::lemma_str_lt_irrefl(a);
    if str_lt(c, a) {
        if a != b {
            crate::lint_report::lemma_str_lt_total(a, b);
        }
        if b != c {
            crate::lint_report::lemma_str_lt_total(b, c);
        }
        if a != b && b != c {
            crate::lint_report::lemma_str_lt_trans(a, b, c);
            crate::lint_report::lemma_str_lt_trans(a, c, a);
        } else if a != b {
            crate::lint_report::lemma_str_lt_trans(a, c, a);
        } else if b != c {
            crate::lint_report::lemma_str_lt_trans(a, c, a);
        }
    }
}

proof fn lemma_file_pos_split(t: Seq<FileV>, x: FileV)
    ensures
        forall|i: int| file_pos(t, x) <= i < t.len() ==> str_lt(x.0, (#[trigger] t[i]).0),
        file_pos(t, x) > 0 ==> !str_lt(x.0, t[file_pos(t, x) - 1].0),
    decreases t.len(),
{
    lemma_file_pos_bounds(t, x);
    if t.len() > 0 && str_lt(x.0, t.last().0) {
        let u = t.drop_last();
        lemma_file_pos_split(u, x);
        lemma_file_pos_bounds(u, x);
        assert forall|i: int| file_pos(t, x) <= i < t.len() implies str_lt(x.0, (#[trigger] t[i]).0) by {
            if i < u.len() {
                assert(t[i] == u[i]);
            }
        }
    }
}

/// Files sorted by name: no file's name sorts before that of an earlier one.
pub open spec fn files_sorted(s: Seq<FileV>) -> bool {
    forall|i: int, j: int| 0 <= i < j < s.len() ==> !str_lt((#[trigger] s[j]).0, (#[trigger] s[i]).0)
}

proof fn lemma_sort_files_sorted(s: Seq<FileV>)
    ensures
        files_sorted(sort_files(s)),
    decreases s.len(),
{
    if s.len() > 0 {
        let u = s.drop_last();
        lemma_sort_files_sorted(u);
        let t = sort_files(u);
        let x = s.last();
        let p = file_pos(t, x);
        lemma_file_pos_bounds(t, x);
        lemma_file_pos_split(t, x);
        let r = t.insert(p, x);
        assert forall|i: int, j: int| 0 <= i < j < r.len() implies !str_lt(
            (#[trigger] r[j]).0,
            (#[trigger] r[i]).0,
        ) by {
            if j < p {
                assert(r[i] == t[i] && r[j] == t[j]);
            } else if j == p {
                assert(r[i] == t[i]);
                if i < p - 1 {
                    assert(!str_lt(t[p - 1].0, t[i].0));
                } else {
                    crate::lint_report::lemma_str_lt_irrefl(t[i].0);
                }
                lemma_str_nlt_trans(t[i].0, t[p - 1].0, x.0);
            } else if i == p {
                assert(r[j] == t[j - 1]);
                crate::lint_report::lemma_str_lt_irrefl(x.0);
                if str_lt(t[j - 1].0, x.0) {
                    crate::lint_report::lemma_str_lt_trans(x.0, t[j - 1].0, x.0);
                }
            } else if i < p {
                assert(r[i] == t[i] && r[j] == t[j - 1]);
            } else {
                assert(r[i] == t[i - 1] && r[j] == t[j - 1]);
            }
        }
    }
}

proof fn lemma_names_where_sorted(s: Seq<FileV>, stock: bool)
    requires
        files_sorted(s),
    ensures
        forall|i: int, j: int|
            0 <= i < j < names_where(s, stock).len() ==> !str_lt(
                #[trigger] names_where(s, stock)[j],
                #[trigger] names_where(s, stock)[i],
            ),
    decreases s.len(),
{
    if s.len() > 0 {
        let u = s.drop_last();
        assert(files_sorted(u)) by {
            assert forall|i: int, j: int| 0 <= i < j < u.len() implies !str_lt(
                (#[trigger] u[j]).0,
                (#[trigger] u[i]).0,
            ) by {
                assert(u[i] == s[i] && u[j] == s[j]);
            }
        }
        lemma_names_where_sorted(u, stock);
        lemma_names_where_contains(u, stock);
        let a = names_where(u, stock);
        let x = s.last();
        if x.1 == stock {
            let r = a + seq![x.0];
            assert forall|i: int, j: int| 0 <= i < j < r.len() implies !str_lt(
                #[trigger] r[j],
                #[trigger] r[i],
            ) by {
                if j < a.len() {
                    assert(r[i] == a[i] && r[j] == a[j]);
                } else {
                    assert(r[i] == a[i]);
                    assert(a.contains(a[i]));
                    let k = choose|k: int| 0 <= k < u.len() && u[k].0 == a[i] && u[k].1 == stock;
                    assert(s[k] == u[k]);
                    assert(!str_lt(s[s.len() - 1].0, s[k].0));
                }
            }
            assert(names_where(s, stock) == r);
        } else {
            assert(names_where(s, stock) =~= a);
        }
    }
}

/// Migration lists the deleted files and the kept ones each in name order;
/// when no two schema files share a name, no file is both deleted and kept.
pub proof fn law_migration_sorted_and_disjoint(files: Seq<SchemaFile>, stock: Seq<String>)
    ensures
        forall|i: int, j: int|
            0 <= i < j < names_where(sort_files(file_views(files, stock)), true).len() ==> !str_lt(
                #[trigger] names_where(sort_files(file_views(files, stock)), true)[j],
                #[trigger] names_where(sort_files(file_views(files, stock)), true)[i],
            ),
        forall|i: int, j: int|
            0 <= i < j < names_where(sort_files(file_views(files, stock)), false).len() ==> !str_lt(
                #[trigger] names_where(sort_files(file_views(files, stock)), false)[j],
                #[trigger] names_where(sort_files(file_views(files, stock)), false)[i],
            ),
        (forall|i: int, j: int|
            0 <= i < j < files.len() ==> (#[trigger] files[i]).file_name@ != (#[trigger] files[j]).file_name@)
            ==> forall|n: Seq<char>| #[trigger]
            names_where(sort_files(file_views(files, stock)), true).contains(n) ==> !names_where(
                sort_files(file_views(files, stock)),
                false,
            ).contains(n),
{
    let sv = sort_files(file_views(files, stock));
    lemma_sort_files_sorted(file_views(files, stock));
    lemma_names_where_sorted(sv, true);
    lemma_names_where_sorted(sv, false);
    law_deleted_iff_stock(files, stock);
    if forall|i: int, j: int|
        0 <= i < j < files.len() ==> (#[trigger] files[i]).file_name@ != (#[trigger] files[j]).file_name@ {
        assert forall|n: Seq<char>| #[trigger] names_where(sv, true).contains(n) implies !names_where(
            sv,
            false,
        ).contains(n) by {
            if names_where(sv, false).contains(n) {
                let k1 = choose|k: int|
                    0 <= k < files.len() && files[k].file_name@ == n && stock_content(files[k].content@, stock);
                let k2 = choose|k: int|
                    0 <= k < files.len() && files[k].file_name@ == n && !stock_content(
                        files[k].content@,
                        stock,
                    );
                if k1 < k2 {
                    assert(files[k1].file_name@ != files[k2].file_name@);
                } else if k2 < k1 {
                    assert(files[k2].file_name@ != files[k1].file_name@);
                }
            }
        }
    }
}

/// Migration deletes a file exactly when its content is one of the stock
/// schemas: the name of every file with stock content is among the deleted
/// names and that of every other file among the kept ones; each deleted name
/// is that of a file with stock content, and each kept name that of a file
/// without.
pub proof fn law_deleted_iff_stock(files: Seq<SchemaFile>, stock: Seq<String>)
    ensures
        forall|k: int|
            0 <= k < files.len() ==> (stock_content(files[k].content@, stock) ==> names_where(
                sort_files(file_views(files, stock)),
                true,
            ).contains(#[trigger] files[k].file_name@)),
        forall|k: int|
            0 <= k < files.len() ==> (!stock_content(files[k].content@, stock) ==> names_where(
                sort_files(file_views(files, stock)),
                false,
            ).contains(#[trigger] files[k].file_name@)),
        forall|n: Seq<char>| #[trigger]
            names_where(sort_files(file_views(files, stock)), true).contains(n) ==> exists|k: int|
                0 <= k < files.len() && files[k].file_name@ == n && stock_content(
                    files[k].content@,
                    stock,
                ),
        forall|n: Seq<char>| #[trigger]
            names_where(sort_files(file_views(files, stock)), false).contains(n) ==> exists|k: int|
                0 <= k < files.len() && files[k].file_name@ == n && !stock_content(
                    files[k].content@,
                    stock,
                ),
{
    let fv = file_views(files, stock);
    let sv = sort_files(fv);
    lemma_sort_files_contains(fv);
    lemma_names_where_contains(sv, true);
    lemma_names_where_contains(sv, false);
    assert forall|k: int| 0 <= k < files.len() implies (stock_content(files[k].content@, stock)
        ==> names_where(sv, true).contains(#[trigger] files[k].file_name@)) && (!stock_content(
        files[k].content@,
        stock,
    ) ==> names_where(sv, false).contains(files[k].file_name@)) by {
        let x = fv[k];
        assert(fv.contains(x));
        assert(sv.contains(x));
        let j = choose|j: int| 0 <= j < sv.len() && sv[j] == x;
        assert(sv[j].0 == files[k].file_name@);
    }
    assert forall|n: Seq<char>| #[trigger] names_where(sv, true).contains(n) implies exists|k: int|
        0 <= k < files.len() && files[k].file_name@ == n && stock_content(files[k].content@, stock) by {
        let j = choose|j: int| 0 <= j < sv.len() && sv[j].0 == n && sv[j].1 == true;
        assert(sv.contains(sv[j]));
        assert(fv.contains(sv[j]));
        let k = choose|k: int| 0 <= k < fv.len() && fv[k] == sv[j];
        assert(files[k].file_name@ == n);
    }
    assert forall|n: Seq<char>| #[trigger] names_where(sv, false).contains(n) implies exists|k: int|
        0 <= k < files.len() && files[k].file_name@ == n && !stock_content(files[k].content@, stock) by {
        let j = choose|j: int| 0 <= j < sv.len() && sv[j].0 == n && sv[j].1 == false;
        assert(sv.contains(sv[j]));
        assert(fv.contains(sv[j]));
        let k = choose|k: int| 0 <= k < fv.len() && fv[k] == sv[j];
        assert(files[k].file_name@ == n);
    }
}

/// Each file's name with whether its content is one of the stock schemas.
fn classify_files(files: &Vec<SchemaFile>, stock: &Vec<String>) -> (r: Vec<(String, bool)>)
    ensures
        r@.map_values(|p: (String, bool)| (p.0@, p.1)) == file_views(files@, stock@),
{
    let mut out: Vec<(String, bool)> = Vec::new();
    let mut i: usize = 0;
    while i < files.len()
        invariant
            i <= files.len(),
            out@.map_values(|p: (String, bool)| (p.0@, p.1)) == file_views(files@, stock@).take(
                i as int,
            ),
        decreases files.len() - i,
    {
        let flag = is_stock_schema(files[i].content.as_str(), stock);
        let ghost pre = out@;
        out.push((files[i].file_name.clone(), flag));
        proof {
            assert(out@.map_values(|p: (String, bool)| (p.0@, p.1)) =~= pre.map_values(
                |p: (String, bool)| (p.0@, p.1),
            ).push((files@[i as int].file_name@, flag)));
            assert(file_views(files@, stock@).take(i + 1) =~= file_views(files@, stock@).take(
                i as int,
            ).push((files@[i as int].file_name@, flag)));
        }
        i += 1;
    }
    proof {
        assert(file_views(files@, stock@).take(files@.len() as int) =~= file_views(files@, stock@));
    }
    out
}

fn sort_schema_files(files: &Vec<(String, bool)>) -> (r: Vec<(String, bool)>)
    ensures
        r@.map_values(|p: (String, bool)| (p.0@, p.1)) == sort_files(
            files@.map_values(|p: (String, bool)| (p.0@, p.1)),
        ),
{
    let ghost fv = files@.map_values(|p: (String, bool)| (p.0@, p.1));
    let mut out: Vec<(String, bool)> = Vec::new();
    let mut i: usize = 0;
    while i < files.len()
        invariant
            i <= files.len(),
            fv == files@.map_values(|p: (String, bool)| (p.0@, p.1)),
            out@.map_values(|p: (String, bool)| (p.0@, p.1)) == sort_files(fv.take(i as int)),
        decreases files.len() - i,
    {
        proof {
            assert(fv.take(i as int + 1).drop_last() =~= fv.take(i as int));
            assert(fv.take(i as int + 1).last() == (files@[i as int].0@, files@[i as int].1));
        }
        let x = (files[i].0.clone(), files[i].1);
        let ghost sorted = out@.map_values(|p: (String, bool)| (p.0@, p.1));
        let mut p = out.len();
        proof {
            assert(sorted.take(p as int) =~= sorted);
        }
        while p > 0 && str_less(x.0.as_str(), out[p - 1].0.as_str())
            invariant
                p <= out@.len(),
                sorted == out@.map_values(|q: (String, bool)| (q.0@, q.1)),
                file_pos(sorted, (x.0@, x.1)) == file_pos(sorted.take(p as int), (x.0@, x.1)),
            decreases p,
        {
            proof {
                let t = sorted.take(p as int);
                assert(t.drop_last() =~= sorted.take(p - 1));
                assert(t.last() == (out@[p - 1].0@, out@[p - 1].1));
            }
            p -= 1;
        }
        proof {
            if p > 0 {
                assert(sorted.take(p as int).last() == (out@[p - 1].0@, out@[p - 1].1));
            }
        }
        let ghost pos = p as int;
        let ghost xv = (x.0@, x.1);
        out.insert(p, x);
        proof {
            assert(out@.map_values(|q: (String, bool)| (q.0@, q.1)) =~= sorted.insert(pos, xv));
        }
        i += 1;
    }
    proof {
        assert(fv.take(files.len() as int) =~= fv);
    }
    out
}

/// The report of one wiki from its schema files: by name, the files whose
/// content is one of the `stock` schema contents (JSON equality, see
/// `is_stock_schema`) are removed and the others kept as custom; it was
/// already clean when no stock file was found.
pub fn migrate_one(name: &str, files: &Vec<SchemaFile>, stock: &Vec<String>) -> (r:
    WikiMigrateReport)
    ensures
        r.name@ == name@,
        views(r.deleted@) == names_where(sort_files(file_views(files@, stock@)), true),
        views(r.kept_custom@) == names_where(sort_files(file_views(files@, stock@)), false),
        r.already_clean == (r.deleted@.len() == 0),
{
    let flagged = classify_files(files, stock);
    let sorted = sort_schema_files(&flagged);
    let ghost sv = sorted@.map_values(|p: (String, bool)| (p.0@, p.1));
    let mut deleted: Vec<String> = Vec::new();
    let mut kept: Vec<String> = Vec::new();
    let mut i: usize = 0;
    while i < sorted.len()
        invariant
            i <= sorted@.len(),
            sv == sorted@.map_values(|p: (String, bool)| (p.0@, p.1)),
            views(deleted@) == names_where(sv.take(i as int), true),
            views(kept@) == names_where(sv.take(i as int), false),
        decreases sorted@.len() - i,
    {
        proof {
            assert(sv.take(i as int + 1).drop_last() =~= sv.take(i as int));
            assert(sv.take(i as int + 1).last() == (sorted@[i as int].0@, sorted@[i as int].1));
        }
        let ghost d0 = views(deleted@);
        let ghost k0 = views(kept@);
        if sorted[i].1 {
            deleted.push(sorted[i].0.clone());
            proof {
                assert(views(deleted@) =~= d0 + seq![sorted@[i as int].0@]);
                assert(views(kept@) =~= k0 + Seq::<Seq<char>>::empty());
            }
        } else {
            kept.push(sorted[i].0.clone());
            proof {
                assert(views(kept@) =~= k0 + seq![sorted@[i as int].0@]);
                assert(views(deleted@) =~= d0 + Seq::<Seq<char>>::empty());
            }
        }
        i += 1;
    }
    proof {
        assert(sv.take(sorted@.len() as int) =~= sv);
    }
    let already_clean = deleted.len() == 0;
    WikiMigrateReport { name: name.to_owned(), deleted, kept_custom: kept, already_clean }
}

/// The wikis a migration visits: the one named, or all of them.
pub fn migrate_targets(config: &GlobalConfig, wiki_name: Option<&str>) -> (r: Vec<WikiEntry>)
    ensures
        r@ == select_wikis(
            config.wikis@,
            match wiki_name {
                Some(n) => Some(n@),
                None => None,
            },
        ),
{
    select(config, wiki_name)
}

/// Migrate the wikis named by `wiki_name` (all when `None`), given the schema
/// files found in each of them, in the order `migrate_targets` lists them, and
/// the stock schema contents that a file may be a copy of.
pub fn wiki_migrate(
    config: &GlobalConfig,
    wiki_name: Option<&str>,
    scans: &Vec<Vec<SchemaFile>>,
    stock: &Vec<String>,
) -> (r: MigrateReport)
    requires
        scans@.len() == select_wikis(
            config.wikis@,
            match wiki_name {
                Some(n) => Some(n@),
                None => None,
            },
        ).len(),
    ensures
        r.wikis@.len() == scans@.len(),
        forall|i: int|
            0 <= i < r.wikis@.len() ==> (#[trigger] r.wikis@[i]).name@ == select_wikis(
                config.wikis@,
                match wiki_name {
                    Some(n) => Some(n@),
                    None => None,
                },
            )[i].name@ && views(r.wikis@[i].deleted@) == names_where(
                sort_files(file_views(scans@[i]@, stock@)),
                true,
            ) && views(r.wikis@[i].kept_custom@) == names_where(
                sort_files(file_views(scans@[i]@, stock@)),
                false,
            ) && r.wikis@[i].already_clean == (r.wikis@[i].deleted@.len() == 0),
{
    let targets = select(config, wiki_name);
    let mut reports: Vec<WikiMigrateReport> = Vec::new();
    let mut i: usize = 0;
    while i < targets.len()
        invariant
            i <= targets@.len() == scans@.len(),
            targets@ == select_wikis(
                config.wikis@,
                match wiki_name {
                    Some(n) => Some(n@),
                    None => None,
                },
            ),
            reports@.len() == i,
            forall|k: int|
                0 <= k < i ==> (#[trigger] reports@[k]).name@ == targets@[k].name@ && views(
                    reports@[k].deleted@,
                ) == names_where(sort_files(file_views(scans@[k]@, stock@)), true) && views(
                    reports@[k].kept_custom@,
                ) == names_where(sort_files(file_views(scans@[k]@, stock@)), false)
                    && reports@[k].already_clean == (reports@[k].deleted@.len() == 0),
        decreases targets@.len() - i,
    {
        let rep = migrate_one(targets[i].name.as_str(), &scans[i], stock);
        reports.push(rep);
        i += 1;
    }
    MigrateReport { wikis: reports }
}

} // verus!
