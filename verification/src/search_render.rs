//! Search results and page lists rendered as Markdown lines for language models.
use vstd::prelude::*;

use crate::text::push_str;

verus! {

/// A result as (title, uri, summary).
pub type ResultV = (Seq<char>, Seq<char>, Option<Seq<char>>);

/// One result line: a link to the page, then its summary when it has a
/// non-empty one.
pub open spec fn result_line(r: ResultV) -> Seq<char> {
    match r.2 {
        Some(s) => if s.len() > 0 {
            "- ["@ + r.0 + "]("@ + r.1 + "): "@ + s + "\n"@
        } else {
            "- ["@ + r.0 + "]("@ + r.1 + ")\n"@
        },
        None => "- ["@ + r.0 + "]("@ + r.1 + ")\n"@,
    }
}

/// The lines of the results, in order.
pub open spec fn result_lines(rs: Seq<ResultV>) -> Seq<char>
    decreases rs.len(),
{
    if rs.len() == 0 {
        Seq::empty()
    } else {
        result_lines(rs.drop_last()) + result_line(rs.last())
    }
}

/// The rendering of search results: one line per result, or a note that
/// nothing was found.
pub open spec fn search_text(rs: Seq<ResultV>) -> Seq<char> {
    if rs.len() == 0 {
        "No results found.\n"@
    } else {
        result_lines(rs)
    }
}

/// Results as values.
pub open spec fn result_views(v: Seq<(String, String, Option<String>)>) -> Seq<ResultV> {
    v.map_values(
        |r: (String, String, Option<String>)|
            (
                r.0@,
                r.1@,
                match r.2 {
                    Some(s) => Some(s@),
                    None => None,
                },
            ),
    )
}

/// Render search results, each given as (title, uri, summary), as Markdown
/// lines with no score and no excerpt.
pub fn render_search_llms(results: &Vec<(String, String, Option<String>)>) -> (r: String)
    ensures
        r@ == search_text(result_views(results@)),
{
    if results.len() == 0 {
        return "No results found.\n".to_string();
    }
    let ghost rv = result_views(results@);
    let mut out = String::new();
    let mut i: usize = 0;
    while i < results.len()
        invariant
            i <= results@.len(),
            rv == result_views(results@),
            out@ == result_lines(rv.take(i as int)),
        decreases results@.len() - i,
    {
        proof {
            assert(rv.take(i as int + 1).drop_last() =~= rv.take(i as int));
            assert(rv.take(i as int + 1).last() == rv[i as int]);
        }
        let (title, uri, summary) = &results[i];
        push_str(&mut out, "- [");
        push_str(&mut out, title.as_str());
        push_str(&mut out, "](");
        push_str(&mut out, uri.as_str());
        match summary {
            Some(s) => {
                if s.as_str().is_empty() {
                    push_str(&mut out, ")\n");
                } else {
                    push_str(&mut out, "): ");
                    push_str(&mut out, s.as_str());
                    push_str(&mut out, "\n");
                }
            },
            None => {
                push_str(&mut out, ")\n");
            },
        }
        proof {
            assert(out@ =~= result_lines(rv.take(i as int)) + result_line(rv[i as int]));
        }
        i += 1;
    }
    proof {
        assert(rv.take(results@.len() as int) =~= rv);
    }
    out
}

// ── Page lists ───────────────────────────────────────────────────────────────

/// A listed page.
#[derive(Debug)]
pub struct ListedPage {
    pub title: String,
    pub uri: String,
    pub page_type: String,
    pub status: String,
    pub summary: Option<String>,
}

/// A listed page as (title, uri, type, status, summary, empty when there is none).
pub type ListedV = (Seq<char>, Seq<char>, Seq<char>, Seq<char>, Seq<char>);

pub open spec fn listed_view(p: ListedPage) -> ListedV {
    (
        p.title@,
        p.uri@,
        p.page_type@,
        p.status@,
        match p.summary {
            Some(s) => s@,
            None => Seq::empty(),
        },
    )
}

pub open spec fn listed_views(v: Seq<ListedPage>) -> Seq<ListedV> {
    v.map_values(|p: ListedPage| listed_view(p))
}

/// The line of a listed page; archived pages are struck through.
pub open spec fn page_line(p: ListedV) -> Seq<char> {
    let link = "["@ + p.0 + "]("@ + p.1 + ")"@;
    let body = if p.4.len() == 0 {
        link
    } else {
        link + ": "@ + p.4
    };
    if p.3 == "archived"@ {
        "- ~~"@ + body + "~~\n"@
    } else {
        "- "@ + body + "\n"@
    }
}

/// The lines of the pages of type `t`, in order.
pub open spec fn type_lines(ps: Seq<ListedV>, t: Seq<char>) -> Seq<char>
    decreases ps.len(),
{
    if ps.len() == 0 {
        Seq::empty()
    } else {
        type_lines(ps.drop_last(), t) + if ps.last().2 == t {
            page_line(ps.last())
        } else {
            Seq::empty()
        }
    }
}

/// The sections of the groups, in order.
pub open spec fn group_sections(gs: Seq<(nat, Seq<char>)>, ps: Seq<ListedV>) -> Seq<char>
    decreases gs.len(),
{
    if gs.len() == 0 {
        Seq::empty()
    } else {
        let g = gs.last();
        group_sections(gs.drop_last(), ps) + "## "@ + g.1 + " ("@ + crate::render::decimal(g.0) + ")\n\n"@
            + type_lines(ps, g.1) + "\n"@
    }
}

/// The page types, in order.
pub open spec fn listed_types(ps: Seq<ListedV>) -> Seq<Seq<char>> {
    ps.map_values(|p: ListedV| p.2)
}

/// The rendering of a page list: a section per type, the most numerous type
/// first (ties by name), pages in the order given; then, when there is more
/// than one page of results, which page this is.
pub open spec fn list_text(ps: Seq<ListedV>, total: nat, page: nat, page_size: nat) -> Seq<char> {
    let groups = crate::render_llms::sort_pairs(crate::render_llms::tally(listed_types(ps)), true);
    group_sections(groups, ps) + if total > page_size {
        let per = if page_size > 1 {
            page_size
        } else {
            1
        };
        "_Page "@ + crate::render::decimal(page) + "/"@ + crate::render::decimal(
            ((total + page_size - 1) / per as int) as nat,
        ) + " — "@ + crate::render::decimal(total) + " total pages_\n"@
    } else {
        Seq::empty()
    }
}

fn type_lines_exec(pages: &Vec<ListedPage>, t: &str, out: &mut String)
    ensures
        final(out)@ == old(out)@ + type_lines(listed_views(pages@), t@),
{
    let ghost pv = listed_views(pages@);
    let ghost start = out@;
    let mut i: usize = 0;
    while i < pages.len()
        invariant
            i <= pages@.len(),
            pv == listed_views(pages@),
            out@ == start + type_lines(pv.take(i as int), t@),
        decreases pages@.len() - i,
    {
        proof {
            assert(pv.take(i as int + 1).drop_last() =~= pv.take(i as int));
            assert(pv.take(i as int + 1).last() == pv[i as int]);
        }
        let p = &pages[i];
        if crate::text::str_eq(p.page_type.as_str(), t) {
            let ghost before = out@;
            let archived = crate::text::str_eq(p.status.as_str(), "archived");
            if archived {
                push_str(out, "- ~~");
            } else {
                push_str(out, "- ");
            }
            push_str(out, "[");
            push_str(out, p.title.as_str());
            push_str(out, "](");
            push_str(out, p.uri.as_str());
            push_str(out, ")");
            match &p.summary {
                Some(s) => {
                    if !s.as_str().is_empty() {
                        push_str(out, ": ");
                        push_str(out, s.as_str());
                    }
                },
                None => {},
            }
            if archived {
                push_str(out, "~~\n");
            } else {
                push_str(out, "\n");
            }
            proof {
                assert(pv[i as int] == listed_view(*p));
                assert(out@ =~= before + page_line(pv[i as int]));
            }
        }
        proof {
            assert(start + type_lines(pv.take(i as int + 1), t@) =~= out@);
        }
        i += 1;
    }
    proof {
        assert(pv.take(pages@.len() as int) =~= pv);
    }
}

/// Render a page of a page list as Markdown for language models. `pages`
/// come in the order to list them within each type.
pub fn render_list_llms(pages: &Vec<ListedPage>, total: usize, page: usize, page_size: usize) -> (r: String)
    requires
        total > page_size ==> total + page_size - 1 <= usize::MAX,
    ensures
        r@ == list_text(listed_views(pages@), total as nat, page as nat, page_size as nat),
{
    let ghost pv = listed_views(pages@);
    let mut types: Vec<String> = Vec::new();
    let mut i: usize = 0;
    while i < pages.len()
        invariant
            i <= pages@.len(),
            pv == listed_views(pages@),
            crate::links::views(types@) == listed_types(pv).take(i as int),
        decreases pages@.len() - i,
    {
        let ghost before = crate::links::views(types@);
        types.push(pages[i].page_type.clone());
        proof {
            assert(crate::links::views(types@) =~= before.push(pages@[i as int].page_type@));
            assert(listed_types(pv).take(i as int + 1) =~= listed_types(pv).take(i as int).push(pv[i as int].2));
        }
        i += 1;
    }
    proof {
        assert(listed_types(pv).take(pages@.len() as int) =~= listed_types(pv));
    }
    let counted = crate::render_llms::tally_strings(&types);
    let groups = crate::render_llms::sort_counted(counted, true);
    let ghost gv = crate::render_llms::pair_views(groups@);
    let mut out = String::new();
    let mut g: usize = 0;
    while g < groups.len()
        invariant
            g <= groups@.len(),
            gv == crate::render_llms::pair_views(groups@),
            pv == listed_views(pages@),
            out@ == group_sections(gv.take(g as int), pv),
        decreases groups@.len() - g,
    {
        proof {
            assert(gv.take(g as int + 1).drop_last() =~= gv.take(g as int));
            assert(gv.take(g as int + 1).last() == gv[g as int]);
            assert(gv[g as int] == (groups@[g as int].0 as nat, groups@[g as int].1@));
        }
        let ghost before = out@;
        push_str(&mut out, "## ");
        push_str(&mut out, groups[g].1.as_str());
        push_str(&mut out, " (");
        push_str(&mut out, crate::render::decimal_u64(groups[g].0).as_str());
        push_str(&mut out, ")\n\n");
        type_lines_exec(pages, groups[g].1.as_str(), &mut out);
        push_str(&mut out, "\n");
        proof {
            assert(out@ =~= group_sections(gv.take(g as int + 1), pv));
        }
        g += 1;
    }
    proof {
        assert(gv.take(groups@.len() as int) =~= gv);
    }
    if total > page_size {
        let per = if page_size > 1 {
            page_size
        } else {
            1
        };
        let sum = if page_size > 0 {
            total + (page_size - 1)
        } else {
            total - 1
        };
        let total_pages = sum / per;
        push_str(&mut out, "_Page ");
        push_str(&mut out, crate::render::decimal_string(page).as_str());
        push_str(&mut out, "/");
        push_str(&mut out, crate::render::decimal_string(total_pages).as_str());
        push_str(&mut out, " — ");
        push_str(&mut out, crate::render::decimal_string(total).as_str());
        push_str(&mut out, " total pages_\n");
    }
    out
}

} // verus!
