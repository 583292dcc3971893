//! Global and per-wiki configuration, and how the two are merged.
use vstd::prelude::*;

use crate::text::trim;

verus! {

/// A copy of `v`, element by element.
pub fn clone_strings(v: &Vec<String>) -> (r: Vec<String>)
    ensures
        r@ == v@,
{
    let mut r: Vec<String> = Vec::new();
    let mut i: usize = 0;
    while i < v.len()
        invariant
            i <= v.len(),
            r@ == v@.take(i as int),
        decreases v.len() - i,
    {
        r.push(v[i].clone());
        i += 1;
        assert(r@ =~= v@.take(i as int));
    }
    assert(v@.take(v.len() as int) =~= v@);
    r
}

/// A copy of an optional string.
pub fn clone_opt_string(o: &Option<String>) -> (r: Option<String>)
    ensures
        r == *o,
{
    match o {
        Some(s) => Some(s.clone()),
        None => None,
    }
}

// ── Section structs ──────────────────────────────────────────────────────────

#[derive(Debug)]
pub struct GlobalSection {
    pub default_wiki: String,
}

impl Clone for GlobalSection {
    fn clone(&self) -> (r: Self)
        ensures
            r == *self,
    {
        GlobalSection { default_wiki: self.default_wiki.clone() }
    }
}

impl Default for GlobalSection {
    fn default() -> (r: Self)
        ensures
            r.default_wiki@ == Seq::<char>::empty(),
    {
        GlobalSection { default_wiki: String::new() }
    }
}

impl GlobalSection {
    /// The configured default wiki, absent when the setting is empty.
    pub fn default_wiki_opt(&self) -> (r: Option<&str>)
        ensures
            r is None <==> self.default_wiki@.len() == 0,
            r matches Some(s) ==> s@ == self.default_wiki@,
    {
        let s = self.default_wiki.as_str();
        if s.is_empty() {
            None
        } else {
            Some(s)
        }
    }
}

/// A registered wiki space.
#[derive(Debug)]
pub struct WikiEntry {
    pub name: String,
    pub path: String,
    pub description: Option<String>,
    pub remote: Option<String>,
}

impl Clone for WikiEntry {
    fn clone(&self) -> (r: Self)
        ensures
            r == *self,
    {
        WikiEntry {
            name: self.name.clone(),
            path: self.path.clone(),
            description: clone_opt_string(&self.description),
            remote: clone_opt_string(&self.remote),
        }
    }
}

#[derive(Debug)]
pub struct Defaults {
    pub search_top_k: u32,
    pub search_excerpt: bool,
    pub search_sections: bool,
    pub page_mode: String,
    pub list_page_size: u32,
}

impl Clone for Defaults {
    fn clone(&self) -> (r: Self)
        ensures
            r == *self,
    {
        Defaults {
            search_top_k: self.search_top_k,
            search_excerpt: self.search_excerpt,
            search_sections: self.search_sections,
            page_mode: self.page_mode.clone(),
            list_page_size: self.list_page_size,
        }
    }
}

impl Default for Defaults {
    fn default() -> (r: Self)
        ensures
            r.search_top_k == 10,
            r.search_excerpt,
            !r.search_sections,
            r.page_mode@ == seq!['f', 'l', 'a', 't'],
            r.list_page_size == 20,
    {
        Defaults {
            search_top_k: default_search_top_k(),
            search_excerpt: default_true(),
            search_sections: false,
            page_mode: default_page_mode(),
            list_page_size: default_list_page_size(),
        }
    }
}

#[derive(Debug)]
pub struct ReadConfig {
    pub no_frontmatter: bool,
}

impl Clone for ReadConfig {
    fn clone(&self) -> (r: Self)
        ensures
            r == *self,
    {
        ReadConfig { no_frontmatter: self.no_frontmatter }
    }
}

impl Default for ReadConfig {
    fn default() -> (r: Self)
        ensures
            !r.no_frontmatter,
    {
        ReadConfig { no_frontmatter: false }
    }
}

#[derive(Debug)]
pub struct IndexConfig {
    pub auto_rebuild: bool,
}

impl Clone for IndexConfig {
    fn clone(&self) -> (r: Self)
        ensures
            r == *self,
    {
        IndexConfig { auto_rebuild: self.auto_rebuild }
    }
}

impl Default for IndexConfig {
    fn default() -> (r: Self)
        ensures
            !r.auto_rebuild,
    {
        IndexConfig { auto_rebuild: false }
    }
}

/// Graph rendering settings. `types` is the `type` key of the configuration file.
#[derive(Debug)]
pub struct GraphConfig {
    pub format: String,
    pub depth: u32,
    pub types: Vec<String>,
    pub output: String,
}

impl Clone for GraphConfig {
    fn clone(&self) -> (r: Self)
        ensures
            r.format == self.format,
            r.depth == self.depth,
            r.types@ == self.types@,
            r.output == self.output,
    {
        GraphConfig {
            format: self.format.clone(),
            depth: self.depth,
            types: clone_strings(&self.types),
            output: self.output.clone(),
        }
    }
}

impl Default for GraphConfig {
    fn default() -> (r: Self)
        ensures
            r.format@ == seq!['m', 'e', 'r', 'm', 'a', 'i', 'd'],
            r.depth == 3,
            r.types@.len() == 0,
            r.output@.len() == 0,
    {
        GraphConfig {
            format: default_graph_format(),
            depth: default_graph_depth(),
            types: Vec::new(),
            output: String::new(),
        }
    }
}

#[derive(Debug)]
pub struct ServeConfig {
    pub sse: bool,
    pub sse_port: u16,
    pub acp: bool,
}

impl Clone for ServeConfig {
    fn clone(&self) -> (r: Self)
        ensures
            r == *self,
    {
        ServeConfig { sse: self.sse, sse_port: self.sse_port, acp: self.acp }
    }
}

impl Default for ServeConfig {
    fn default() -> (r: Self)
        ensures
            !r.sse,
            r.sse_port == 8080,
            !r.acp,
    {
        ServeConfig { sse: false, sse_port: default_sse_port(), acp: false }
    }
}

#[derive(Debug)]
pub struct LintConfig {
    pub fix_missing_stubs: bool,
    pub fix_empty_sections: bool,
}

impl Clone for LintConfig {
    fn clone(&self) -> (r: Self)
        ensures
            r == *self,
    {
        LintConfig {
            fix_missing_stubs: self.fix_missing_stubs,
            fix_empty_sections: self.fix_empty_sections,
        }
    }
}

impl Default for LintConfig {
    fn default() -> (r: Self)
        ensures
            r.fix_missing_stubs,
            r.fix_empty_sections,
    {
        LintConfig { fix_missing_stubs: default_true(), fix_empty_sections: default_true() }
    }
}

#[derive(Debug)]
pub struct ValidationConfig {
    pub type_strictness: String,
}

impl Clone for ValidationConfig {
    fn clone(&self) -> (r: Self)
        ensures
            r == *self,
    {
        ValidationConfig { type_strictness: self.type_strictness.clone() }
    }
}

impl Default for ValidationConfig {
    fn default() -> (r: Self)
        ensures
            r.type_strictness@ == seq!['l', 'o', 'o', 's', 'e'],
    {
        ValidationConfig { type_strictness: default_type_strictness() }
    }
}

#[derive(Debug)]
pub struct SchemaConfig {
    pub custom_types: Vec<String>,
}

/// A user-defined redaction pattern: a name, a regular expression and the text
/// that replaces each match.
#[derive(Debug)]
pub struct CustomPattern {
    pub name: String,
    pub pattern: String,
    pub replacement: String,
}

/// Redaction settings: built-in patterns to disable (by name) and custom patterns.
#[derive(Debug)]
pub struct RedactConfig {
    pub disable: Vec<String>,
    pub patterns: Vec<CustomPattern>,
}

// ── Composite configs ────────────────────────────────────────────────────────

#[derive(Debug)]
pub struct GlobalConfig {
    pub global: GlobalSection,
    pub wikis: Vec<WikiEntry>,
    pub defaults: Defaults,
    pub read: ReadConfig,
    pub index: IndexConfig,
    pub graph: GraphConfig,
    pub serve: ServeConfig,
    pub validation: ValidationConfig,
    pub lint: LintConfig,
}

#[derive(Debug)]
pub struct WikiConfig {
    pub name: String,
    pub description: String,
    pub defaults: Option<Defaults>,
    pub validation: Option<ValidationConfig>,
    pub lint: Option<LintConfig>,
}

impl Default for GlobalConfig {
    /// No wikis registered, and every section at its own default.
    fn default() -> (r: Self)
        ensures
            r.global.default_wiki@ == Seq::<char>::empty(),
            r.wikis@.len() == 0,
            r.defaults.search_top_k == 10,
            r.defaults.search_excerpt,
            !r.defaults.search_sections,
            r.defaults.page_mode@ == seq!['f', 'l', 'a', 't'],
            r.defaults.list_page_size == 20,
            !r.read.no_frontmatter,
            !r.index.auto_rebuild,
            r.graph.format@ == seq!['m', 'e', 'r', 'm', 'a', 'i', 'd'],
            r.graph.depth == 3,
            r.graph.types@.len() == 0,
            r.graph.output@.len() == 0,
            !r.serve.sse,
            r.serve.sse_port == 8080,
            !r.serve.acp,
            r.validation.type_strictness@ == seq!['l', 'o', 'o', 's', 'e'],
            r.lint.fix_missing_stubs,
            r.lint.fix_empty_sections,
    {
        GlobalConfig {
            global: GlobalSection::default(),
            wikis: Vec::new(),
            defaults: Defaults::default(),
            read: ReadConfig::default(),
            index: IndexConfig::default(),
            graph: GraphConfig::default(),
            serve: ServeConfig::default(),
            validation: ValidationConfig::default(),
            lint: LintConfig::default(),
        }
    }
}

impl Default for WikiConfig {
    /// An unnamed wiki without description that overrides no section.
    fn default() -> (r: Self)
        ensures
            r.name@ == Seq::<char>::empty(),
            r.description@ == Seq::<char>::empty(),
            r.defaults is None,
            r.validation is None,
            r.lint is None,
    {
        WikiConfig {
            name: String::new(),
            description: String::new(),
            defaults: None,
            validation: None,
            lint: None,
        }
    }
}

#[derive(Debug)]
pub struct ResolvedConfig {
    pub defaults: Defaults,
    pub read: ReadConfig,
    pub index: IndexConfig,
    pub graph: GraphConfig,
    pub serve: ServeConfig,
    pub validation: ValidationConfig,
    pub lint: LintConfig,
}

// ── Default value helpers ────────────────────────────────────────────────────

fn default_search_top_k() -> (r: u32)
    ensures
        r == 10,
{
    10
}

fn default_true() -> (r: bool)
    ensures
        r,
{
    true
}

fn default_page_mode() -> (r: String)
    ensures
        r@ == seq!['f', 'l', 'a', 't'],
{
    crate::text::from_chars(&['f', 'l', 'a', 't'])
}

fn default_list_page_size() -> (r: u32)
    ensures
        r == 20,
{
    20
}

fn default_graph_format() -> (r: String)
    ensures
        r@ == seq!['m', 'e', 'r', 'm', 'a', 'i', 'd'],
{
    crate::text::from_chars(&['m', 'e', 'r', 'm', 'a', 'i', 'd'])
}

fn default_graph_depth() -> (r: u32)
    ensures
        r == 3,
{
    3
}

fn default_sse_port() -> (r: u16)
    ensures
        r == 8080,
{
    8080
}

fn default_type_strictness() -> (r: String)
    ensures
        r@ == seq!['l', 'o', 'o', 's', 'e'],
{
    crate::text::from_chars(&['l', 'o', 'o', 's', 'e'])
}

// ── Functions ────────────────────────────────────────────────────────────────

/// Merge the global configuration with a wiki's own overrides: a wiki's
/// `defaults`, `validation` and `lint` sections replace the global ones; every
/// other section comes from the global configuration.
pub fn resolve(global: &GlobalConfig, per_wiki: &WikiConfig) -> (r: ResolvedConfig)
    ensures
        r.defaults == (match per_wiki.defaults {
            Some(d) => d,
            None => global.defaults,
        }),
        r.validation == (match per_wiki.validation {
            Some(v) => v,
            None => global.validation,
        }),
        r.lint == (match per_wiki.lint {
            Some(l) => l,
            None => global.lint,
        }),
        r.read == global.read,
        r.index == global.index,
        r.serve == global.serve,
        r.graph.format == global.graph.format,
        r.graph.depth == global.graph.depth,
        r.graph.types@ == global.graph.types@,
        r.graph.output == global.graph.output,
{
    let defaults = if let Some(pw) = &per_wiki.defaults {
        Defaults {
            search_top_k: pw.search_top_k,
            search_excerpt: pw.search_excerpt,
            search_sections: pw.search_sections,
            page_mode: pw.page_mode.clone(),
            list_page_size: pw.list_page_size,
        }
    } else {
        global.defaults.clone()
    };
    let validation = if let Some(pw) = &per_wiki.validation {
        pw.clone()
    } else {
        global.validation.clone()
    };
    let lint = if let Some(pw) = &per_wiki.lint {
        pw.clone()
    } else {
        global.lint.clone()
    };
    ResolvedConfig {
        defaults,
        read: global.read.clone(),
        index: global.index.clone(),
        graph: global.graph.clone(),
        serve: global.serve.clone(),
        validation,
        lint,
    }
}

// ── Schema type declarations ─────────────────────────────────────────────────

/// `- type:` as characters.
pub open spec fn type_marker() -> Seq<char> {
    seq!['-', ' ', 't', 'y', 'p', 'e', ':']
}

/// `` - `type: `` as characters.
pub open spec fn quoted_type_marker() -> Seq<char> {
    seq!['-', ' ', '`', 't', 'y', 'p', 'e', ':']
}

/// Repeatedly strip a leading `p` (`str::trim_start_matches`).
pub open spec fn strip_all_prefix(s: Seq<char>, p: Seq<char>) -> Seq<char>
    decreases s.len(),
{
    if p.len() > 0 && crate::text::has_prefix(s, p) {
        strip_all_prefix(s.subrange(p.len() as int, s.len() as int), p)
    } else {
        s
    }
}

/// Repeatedly strip a trailing `c` (`str::trim_end_matches`).
pub open spec fn strip_all_suffix_char(s: Seq<char>, c: char) -> Seq<char>
    decreases s.len(),
{
    if s.len() > 0 && s.last() == c {
        strip_all_suffix_char(s.drop_last(), c)
    } else {
        s
    }
}

/// The custom type a schema line declares, if any.
pub open spec fn schema_line_type(line: Seq<char>) -> Option<Seq<char>> {
    let t = trim(line);
    if crate::text::has_prefix(t, type_marker()) || crate::text::has_prefix(
        t,
        quoted_type_marker(),
    ) {
        let after = trim(
            strip_all_suffix_char(
                trim(strip_all_prefix(strip_all_prefix(t, type_marker()), quoted_type_marker())),
                '`',
            ),
        );
        if after.len() == 0 {
            None
        } else {
            Some(after)
        }
    } else {
        None
    }
}

/// The custom types declared by a sequence of lines, in order.
pub open spec fn schema_types(lines: Seq<Seq<char>>) -> Seq<Seq<char>>
    decreases lines.len(),
{
    if lines.len() == 0 {
        Seq::empty()
    } else {
        let rest = schema_types(lines.drop_last());
        match schema_line_type(lines.last()) {
            Some(t) => rest.push(t),
            None => rest,
        }
    }
}

} // verus!
