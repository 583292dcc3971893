//! The graph operation: output formats, parameters and their filter.
use vstd::prelude::*;

use crate::graph_build::{opt_chars, GraphFilter};
use crate::links::views;
use crate::render::{graph_md, wrap_graph_md, GraphReport};
use crate::text::{has_suffix, push_str, split_on, split_trimmed, str_eq, to_chars, trim_all};

verus! {

/// Runtime graph output format.
#[derive(Debug, Clone, Copy, PartialEq, Eq, Structural)]
pub enum GraphRenderFormat {
    Mermaid,
    Dot,
    Llms,
    Json,
    Summary,
}

/// The name of a format.
pub open spec fn format_name(f: GraphRenderFormat) -> Seq<char> {
    match f {
        GraphRenderFormat::Mermaid => "mermaid"@,
        GraphRenderFormat::Dot => "dot"@,
        GraphRenderFormat::Llms => "llms"@,
        GraphRenderFormat::Json => "json"@,
        GraphRenderFormat::Summary => "summary"@,
    }
}

/// The format a name denotes, if any.
pub open spec fn format_of(s: Seq<char>) -> Option<GraphRenderFormat> {
    if s == "mermaid"@ {
        Some(GraphRenderFormat::Mermaid)
    } else if s == "dot"@ {
        Some(GraphRenderFormat::Dot)
    } else if s == "llms"@ {
        Some(GraphRenderFormat::Llms)
    } else if s == "json"@ {
        Some(GraphRenderFormat::Json)
    } else if s == "summary"@ {
        Some(GraphRenderFormat::Summary)
    } else {
        None
    }
}

/// What `format!("{:?}", s)` gives for a string: the string quoted and escaped
/// as `str`'s `Debug` implementation does.
pub uninterp spec fn debug_str(s: Seq<char>) -> Seq<char>;

/// Formats `s` with `str`'s `Debug` implementation; the result is named `debug_str`.
#[verifier::external_body]
pub(crate) fn debug_quoted(s: &str) -> (r: String)
    ensures
        r@ == debug_str(s@),
{
    format!("{s:?}")
}

/// The error for a name that is no format.
pub open spec fn unknown_format_message(s: Seq<char>) -> Seq<char> {
    "unknown graph format "@ + debug_str(s) + ": expected mermaid, dot, llms, json, or summary"@
}

impl GraphRenderFormat {
    /// The name of the format.
    pub fn as_str(&self) -> (r: &'static str)
        ensures
            r@ == format_name(*self),
    {
        match self {
            GraphRenderFormat::Mermaid => "mermaid",
            GraphRenderFormat::Dot => "dot",
            GraphRenderFormat::Llms => "llms",
            GraphRenderFormat::Json => "json",
            GraphRenderFormat::Summary => "summary",
        }
    }

    /// The format a name denotes, or an error naming the accepted formats.
    pub fn parse(s: &str) -> (r: Result<GraphRenderFormat, String>)
        ensures
            match format_of(s@) {
                Some(f) => r == Ok::<GraphRenderFormat, String>(f),
                None => r matches Err(m) && m@ == unknown_format_message(s@),
            },
    {
        if str_eq(s, "mermaid") {
            Ok(GraphRenderFormat::Mermaid)
        } else if str_eq(s, "dot") {
            Ok(GraphRenderFormat::Dot)
        } else if str_eq(s, "llms") {
            Ok(GraphRenderFormat::Llms)
        } else if str_eq(s, "json") {
            Ok(GraphRenderFormat::Json)
        } else if str_eq(s, "summary") {
            Ok(GraphRenderFormat::Summary)
        } else {
            let mut m = "unknown graph format ".to_owned();
            let q = debug_quoted(s);
            push_str(&mut m, q.as_str());
            push_str(&mut m, ": expected mermaid, dot, llms, json, or summary");
            Err(m)
        }
    }
}

impl std::str::FromStr for GraphRenderFormat {
    type Err = String;

    fn from_str(s: &str) -> (r: Result<GraphRenderFormat, String>)
        ensures
            match format_of(s@) {
                Some(f) => r == Ok::<GraphRenderFormat, String>(f),
                None => r matches Err(m) && m@ == unknown_format_message(s@),
            },
    {
        GraphRenderFormat::parse(s)
    }
}

/// Rendered graph output plus its report.
#[derive(Debug)]
pub struct GraphResult {
    /// Rendered graph string.
    pub rendered: String,
    /// Metadata about the generated graph.
    pub report: GraphReport,
}

/// Parameters of the graph operation.
pub struct GraphParams<'a> {
    /// Output format; `None` falls back to the wiki's configured format.
    pub format: Option<GraphRenderFormat>,
    /// Slug of the root node for a subgraph.
    pub root: Option<String>,
    /// Maximum hops from the root.
    pub depth: Option<usize>,
    /// Comma-separated page types to include.
    pub type_filter: Option<&'a str>,
    /// Relation label to keep.
    pub relation: Option<String>,
    /// File to write the output to; `None` returns it only.
    pub output: Option<&'a str>,
    /// Merge all mounted wikis into one graph.
    pub cross_wiki: bool,
    /// Number of top hubs in the summary format (10 by default).
    pub limit: Option<usize>,
}

/// The output format: the one asked for, else the configured one.
pub open spec fn format_for(asked: Option<GraphRenderFormat>, configured: Seq<char>) -> Result<
    GraphRenderFormat,
    Seq<char>,
> {
    match asked {
        Some(f) => Ok(f),
        None => match format_of(configured) {
            Some(f) => Ok(f),
            None => Err(unknown_format_message(configured)),
        },
    }
}

/// The output format to use: the one asked for, else the configured one.
pub fn resolve_format(asked: Option<GraphRenderFormat>, configured: &str) -> (r: Result<
    GraphRenderFormat,
    String,
>)
    ensures
        match format_for(asked, configured@) {
            Ok(f) => r == Ok::<GraphRenderFormat, String>(f),
            Err(m) => r matches Err(e) && e@ == m,
        },
{
    match asked {
        Some(f) => Ok(f),
        None => GraphRenderFormat::parse(configured),
    }
}

/// The page types a type filter names: its comma-separated, trimmed pieces.
pub open spec fn filter_types(type_filter: Option<Seq<char>>) -> Seq<Seq<char>> {
    match type_filter {
        Some(t) => trim_all(split_on(t, ',')),
        None => Seq::empty(),
    }
}

/// The graph filter of the parameters: their root, depth (the configured
/// depth by default), types and relation.
pub fn graph_filter(params: &GraphParams, default_depth: u32, max_pages: usize) -> (r: GraphFilter)
    ensures
        r.root == params.root,
        r.depth == Some(
            match params.depth {
                Some(d) => d,
                None => default_depth as usize,
            },
        ),
        views(r.types@) == filter_types(
            match params.type_filter {
                Some(t) => Some(t@),
                None => None,
            },
        ),
        r.relation == params.relation,
        r.max_pages == max_pages,
{
    let types = match params.type_filter {
        Some(t) => split_trimmed(t, ','),
        None => Vec::new(),
    };
    proof {
        assert(views(types@) =~= types@.map_values(|x: String| x@));
    }
    GraphFilter {
        root: crate::config::clone_opt_string(&params.root),
        depth: Some(
            match params.depth {
                Some(d) => d,
                None => default_depth as usize,
            },
        ),
        types,
        relation: crate::config::clone_opt_string(&params.relation),
        max_pages,
    }
}

/// The top-hub count of the summary format.
pub fn hub_limit(params: &GraphParams) -> (r: usize)
    ensures
        r == match params.limit {
            Some(n) => n,
            None => 10,
        },
{
    match params.limit {
        Some(n) => n,
        None => 10,
    }
}

/// What goes to the output file, if any, and where the output went: a `.md`
/// file gets the rendering wrapped as Markdown, any other file the rendering
/// itself; with no file the output goes to `stdout`.
pub open spec fn output_of(
    rendered: Seq<char>,
    format: GraphRenderFormat,
    output: Option<Seq<char>>,
    now: Seq<char>,
    filter: GraphFilter,
) -> (Option<Seq<char>>, Seq<char>) {
    match output {
        Some(path) => (
            Some(
                if has_suffix(path, ".md"@) {
                    graph_md(
                        rendered,
                        format_name(format),
                        now,
                        opt_chars(filter.root),
                        filter.depth,
                        views(filter.types@),
                    )
                } else {
                    rendered
                },
            ),
            path,
        ),
        None => (None, "stdout"@),
    }
}

fn ends_with_md(s: &str) -> (r: bool)
    ensures
        r == has_suffix(s@, ".md"@),
{
    let cs = to_chars(s);
    let pat = to_chars(".md");
    if pat.len() > cs.len() {
        return false;
    }
    let off = cs.len() - pat.len();
    let mut i: usize = 0;
    while i < pat.len()
        invariant
            i <= pat.len(),
            off + pat.len() == cs.len(),
            cs@ == s@,
            pat@ == ".md"@,
            forall|j: int| 0 <= j < i ==> cs@[off + j] == pat@[j],
        decreases pat.len() - i,
    {
        if cs[off + i] != pat[i] {
            assert(cs@.subrange(off as int, cs.len() as int)[i as int] != pat@[i as int]);
            return false;
        }
        i += 1;
    }
    assert(cs@.subrange(off as int, cs.len() as int) =~= pat@);
    true
}

/// The content to write to the output file, if any, and the output's name;
/// `now` is the RFC 3339 time of generation.
pub fn graph_output(
    rendered: &str,
    format: GraphRenderFormat,
    output: Option<&str>,
    filter: &GraphFilter,
    now: &str,
) -> (r: (Option<String>, String))
    ensures
        (
            match r.0 {
                Some(c) => Some(c@),
                None => None,
            },
            r.1@,
        ) == output_of(
            rendered@,
            format,
            match output {
                Some(p) => Some(p@),
                None => None,
            },
            now@,
            *filter,
        ),
{
    match output {
        Some(path) => {
            let content = if ends_with_md(path) {
                wrap_graph_md(rendered, format.as_str(), filter, now)
            } else {
                rendered.to_owned()
            };
            (Some(content), path.to_owned())
        },
        None => (None, "stdout".to_owned()),
    }
}

} // verus!
