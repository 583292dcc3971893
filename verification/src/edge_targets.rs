//! After an ingest, every declared edge whose field names target types is
//! checked: a target page of another type gives a warning.
use vstd::prelude::*;
use vstd::hash_map::StringHashMap;

use crate::graph_build::{field_view, EdgeDecl, EdgeField, GraphDoc};
use crate::links::views;
use crate::ops_graph::{debug_quoted, debug_str};
use crate::render::{join, join_strings};
use crate::text::{push_str, str_eq};

verus! {

/// The type of the last page with slug `s` among the first `n` pages, if any
/// (pages with an empty slug are not registered).
pub open spec fn type_of_slug(pages: Seq<(Seq<char>, Seq<char>)>, n: int, s: Seq<char>) -> Option<
    Seq<char>,
>
    decreases n,
{
    if n <= 0 {
        None
    } else if pages[n - 1].0 == s && s.len() > 0 {
        Some(pages[n - 1].1)
    } else {
        type_of_slug(pages, n - 1, s)
    }
}

/// The type names listed as `Debug` shows a `Vec<String>`: each quoted, comma
/// separated, in brackets.
pub open spec fn debug_types(types: Seq<Seq<char>>) -> Seq<char> {
    "["@ + join(types.map_values(|t: Seq<char>| debug_str(t)), ", "@) + "]"@
}

/// The warning for one mistyped target.
pub open spec fn target_warning(
    slug: Seq<char>,
    relation: Seq<char>,
    target: Seq<char>,
    target_type: Seq<char>,
    expected: Seq<Seq<char>>,
) -> Seq<char> {
    slug + ": edge '"@ + relation + "' target '"@ + target + "' has type '"@ + target_type
        + "', expected one of "@ + debug_types(expected)
}

/// The values of the first field named `f`, if the page has one.
pub open spec fn values_of(fields: Seq<(Seq<char>, Seq<Seq<char>>)>, f: Seq<char>, i: int) -> Option<
    Seq<Seq<char>>,
>
    decreases fields.len() - i,
{
    if i < 0 || i >= fields.len() {
        None
    } else if fields[i].0 == f {
        Some(fields[i].1)
    } else {
        values_of(fields, f, i + 1)
    }
}

/// The warnings for the first `n` values of one declared field.
pub open spec fn value_warnings(
    pages: Seq<(Seq<char>, Seq<char>)>,
    slug: Seq<char>,
    relation: Seq<char>,
    expected: Seq<Seq<char>>,
    values: Seq<Seq<char>>,
    n: int,
) -> Seq<Seq<char>>
    decreases n,
{
    if n <= 0 {
        Seq::empty()
    } else {
        let rest = value_warnings(pages, slug, relation, expected, values, n - 1);
        let v = values[n - 1];
        match type_of_slug(pages, pages.len() as int, v) {
            Some(t) => if !expected.contains(t) {
                rest.push(target_warning(slug, relation, v, t, expected))
            } else {
                rest
            },
            None => rest,
        }
    }
}

/// A declaration as (field, relation, target types).
pub type DeclV = (Seq<char>, Seq<char>, Seq<Seq<char>>);

/// The warnings for the first `n` declarations of a page.
pub open spec fn decl_warnings(
    pages: Seq<(Seq<char>, Seq<char>)>,
    slug: Seq<char>,
    decls: Seq<DeclV>,
    fields: Seq<(Seq<char>, Seq<Seq<char>>)>,
    n: int,
) -> Seq<Seq<char>>
    decreases n,
{
    if n <= 0 {
        Seq::empty()
    } else {
        let rest = decl_warnings(pages, slug, decls, fields, n - 1);
        let d = decls[n - 1];
        if d.2.len() == 0 {
            rest
        } else {
            match values_of(fields, d.0, 0) {
                Some(vals) => rest + value_warnings(pages, slug, d.1, d.2, vals, vals.len() as int),
                None => rest,
            }
        }
    }
}

/// A page as (slug, type, declarations, field values).
pub type PageV = (Seq<char>, Seq<char>, Seq<DeclV>, Seq<(Seq<char>, Seq<Seq<char>>)>);

pub open spec fn decl_full_view(d: EdgeDecl) -> DeclV {
    (d.field@, d.relation@, views(d.target_types@))
}

pub open spec fn page_view(d: GraphDoc) -> PageV {
    (
        d.slug@,
        d.page_type@,
        d.edge_decls@.map_values(|x: EdgeDecl| decl_full_view(x)),
        field_views(d.edge_fields@),
    )
}

/// Each field as (name, values).
pub open spec fn field_views(fs: Seq<EdgeField>) -> Seq<(Seq<char>, Seq<Seq<char>>)> {
    fs.map_values(|x: EdgeField| field_view(x))
}

pub open spec fn page_views(ds: Seq<GraphDoc>) -> Seq<PageV> {
    ds.map_values(|d: GraphDoc| page_view(d))
}

/// Each page's slug and type.
pub open spec fn slug_types(ps: Seq<PageV>) -> Seq<(Seq<char>, Seq<char>)> {
    ps.map_values(|p: PageV| (p.0, p.1))
}

/// The warnings for the first `n` pages.
pub open spec fn edge_warnings(ps: Seq<PageV>, n: int) -> Seq<Seq<char>>
    decreases n,
{
    if n <= 0 {
        Seq::empty()
    } else {
        edge_warnings(ps, n - 1) + decl_warnings(
            slug_types(ps),
            ps[n - 1].0,
            ps[n - 1].2,
            ps[n - 1].3,
            ps[n - 1].2.len() as int,
        )
    }
}

fn debug_type_list(types: &Vec<String>) -> (r: String)
    ensures
        r@ == debug_types(views(types@)),
{
    let mut quoted: Vec<String> = Vec::new();
    let mut i: usize = 0;
    while i < types.len()
        invariant
            i <= types@.len(),
            views(quoted@) == views(types@).take(i as int).map_values(|t: Seq<char>| debug_str(t)),
        decreases types@.len() - i,
    {
        let q = debug_quoted(types[i].as_str());
        let ghost before = views(quoted@);
        quoted.push(q);
        proof {
            assert(views(quoted@) =~= before.push(debug_str(types@[i as int]@)));
            assert(views(types@).take(i as int + 1).map_values(|t: Seq<char>| debug_str(t)) =~= views(
                types@,
            ).take(i as int).map_values(|t: Seq<char>| debug_str(t)).push(debug_str(types@[i as int]@)));
        }
        i += 1;
    }
    proof {
        assert(views(types@).take(types@.len() as int) =~= views(types@));
    }
    let mut out = "[".to_string();
    let inner = join_strings(&quoted, ", ");
    push_str(&mut out, inner.as_str());
    push_str(&mut out, "]");
    out
}

/// Where the first field named `f` is, if the page has one.
fn field_index(fields: &Vec<EdgeField>, f: &str) -> (r: Option<usize>)
    ensures
        match values_of(field_views(fields@), f@, 0) {
            Some(vals) => r matches Some(k) && k < fields@.len() && views(fields@[k as int].targets@)
                == vals,
            None => r is None,
        },
{
    let ghost fv = field_views(fields@);
    let mut i: usize = 0;
    while i < fields.len()
        invariant
            i <= fields@.len(),
            fv == field_views(fields@),
            values_of(fv, f@, 0) == values_of(fv, f@, i as int),
        decreases fields@.len() - i,
    {
        if str_eq(fields[i].field.as_str(), f) {
            return Some(i);
        }
        i += 1;
    }
    None
}

/// A map from each non-empty slug to the type of the last page with it.
fn slug_type_map(docs: &Vec<GraphDoc>) -> (r: StringHashMap<String>)
    ensures
        forall|s: Seq<char>|
            #[trigger] r@.contains_key(s) <==> type_of_slug(
                slug_types(page_views(docs@)),
                docs@.len() as int,
                s,
            ) is Some,
        forall|s: Seq<char>|
            #[trigger] r@.contains_key(s) ==> Some(r@[s]@) == type_of_slug(
                slug_types(page_views(docs@)),
                docs@.len() as int,
                s,
            ),
{
    let ghost pages = slug_types(page_views(docs@));
    let mut m: StringHashMap<String> = StringHashMap::new();
    let mut i: usize = 0;
    while i < docs.len()
        invariant
            i <= docs@.len(),
            pages == slug_types(page_views(docs@)),
            pages.len() == docs@.len(),
            forall|s: Seq<char>|
                #[trigger] m@.contains_key(s) <==> type_of_slug(pages, i as int, s) is Some,
            forall|s: Seq<char>|
                #[trigger] m@.contains_key(s) ==> Some(m@[s]@) == type_of_slug(pages, i as int, s),
        decreases docs@.len() - i,
    {
        proof {
            assert(pages[i as int] == (docs@[i as int].slug@, docs@[i as int].page_type@));
        }
        if !docs[i].slug.as_str().is_empty() {
            m.insert(docs[i].slug.clone(), docs[i].page_type.clone());
        }
        i += 1;
    }
    m
}

fn contains_str(v: &Vec<String>, s: &str) -> (r: bool)
    ensures
        r == views(v@).contains(s@),
{
    let mut i: usize = 0;
    while i < v.len()
        invariant
            i <= v@.len(),
            forall|k: int| 0 <= k < i ==> v@[k]@ != s@,
        decreases v@.len() - i,
    {
        if str_eq(v[i].as_str(), s) {
            proof {
                assert(views(v@)[i as int] == s@);
            }
            return true;
        }
        i += 1;
    }
    proof {
        assert forall|k: int| 0 <= k < views(v@).len() implies views(v@)[k] != s@ by {
            assert(views(v@)[k] == v@[k]@);
        }
    }
    false
}

/// For each page, each declared edge field that names target types, and each
/// of its targets that is a known page of another type, a warning naming the
/// page, the relation, the target, its type and the types expected.
pub fn edge_target_warnings(docs: &Vec<GraphDoc>) -> (r: Vec<String>)
    ensures
        views(r@) == edge_warnings(page_views(docs@), docs@.len() as int),
{
    let ghost ps = page_views(docs@);
    let ghost pages = slug_types(ps);
    let types = slug_type_map(docs);
    let mut out: Vec<String> = Vec::new();
    let mut i: usize = 0;
    while i < docs.len()
        invariant
            i <= docs@.len(),
            ps == page_views(docs@),
            pages == slug_types(ps),
            pages.len() == docs@.len(),
            forall|s: Seq<char>|
                #[trigger] types@.contains_key(s) <==> type_of_slug(pages, pages.len() as int, s) is Some,
            forall|s: Seq<char>|
                #[trigger] types@.contains_key(s) ==> Some(types@[s]@) == type_of_slug(
                    pages,
                    pages.len() as int,
                    s,
                ),
            views(out@) == edge_warnings(ps, i as int),
        decreases docs@.len() - i,
    {
        let doc = &docs[i];
        let ghost p = ps[i as int];
        proof {
            assert(p == page_view(*doc));
        }
        let mut j: usize = 0;
        while j < doc.edge_decls.len()
            invariant
                j <= doc.edge_decls@.len(),
                i < docs@.len(),
                *doc == docs@[i as int],
                p == page_view(*doc),
                p.2.len() == doc.edge_decls@.len(),
                forall|s: Seq<char>|
                    #[trigger] types@.contains_key(s) <==> type_of_slug(pages, pages.len() as int, s) is Some,
                forall|s: Seq<char>|
                    #[trigger] types@.contains_key(s) ==> Some(types@[s]@) == type_of_slug(
                        pages,
                        pages.len() as int,
                        s,
                    ),
                views(out@) == edge_warnings(ps, i as int) + decl_warnings(pages, p.0, p.2, p.3, j as int),
            decreases doc.edge_decls@.len() - j,
        {
            let decl = &doc.edge_decls[j];
            proof {
                assert(p.2[j as int] == decl_full_view(*decl));
            }
            if decl.target_types.len() > 0 {
                match field_index(&doc.edge_fields, decl.field.as_str()) {
                    Some(k) => {
                        let vals = &doc.edge_fields[k].targets;
                        let ghost base = views(out@);
                        let mut q: usize = 0;
                        while q < vals.len()
                            invariant
                                q <= vals@.len(),
                                forall|s: Seq<char>|
                                    #[trigger] types@.contains_key(s) <==> type_of_slug(
                                        pages,
                                        pages.len() as int,
                                        s,
                                    ) is Some,
                                forall|s: Seq<char>|
                                    #[trigger] types@.contains_key(s) ==> Some(types@[s]@)
                                        == type_of_slug(pages, pages.len() as int, s),
                                views(out@) == base + value_warnings(
                                    pages,
                                    doc.slug@,
                                    decl.relation@,
                                    views(decl.target_types@),
                                    views(vals@),
                                    q as int,
                                ),
                            decreases vals@.len() - q,
                        {
                            let v = &vals[q];
                            proof {
                                assert(views(vals@)[q as int] == v@);
                            }
                            match types.get(v.as_str()) {
                                Some(t) => {
                                    if !contains_str(&decl.target_types, t.as_str()) {
                                        let mut w = doc.slug.clone();
                                        push_str(&mut w, ": edge '");
                                        push_str(&mut w, decl.relation.as_str());
                                        push_str(&mut w, "' target '");
                                        push_str(&mut w, v.as_str());
                                        push_str(&mut w, "' has type '");
                                        push_str(&mut w, t.as_str());
                                        push_str(&mut w, "', expected one of ");
                                        let dl = debug_type_list(&decl.target_types);
                                        push_str(&mut w, dl.as_str());
                                        let ghost before = views(out@);
                                        out.push(w);
                                        proof {
                                            assert(views(out@) =~= before.push(w@));
                                        }
                                    }
                                },
                                None => {},
                            }
                            q += 1;
                        }
                    },
                    None => {},
                }
            }
            j += 1;
        }
        proof {
            assert(edge_warnings(ps, i as int + 1) == edge_warnings(ps, i as int) + decl_warnings(
                pages,
                p.0,
                p.2,
                p.3,
                p.2.len() as int,
            ));
        }
        i += 1;
    }
    out
}

} // verus!
