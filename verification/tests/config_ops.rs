use llm_wiki::config::{
    resolve, Defaults, GlobalConfig, GlobalSection, GraphConfig, IndexConfig, LintConfig, ReadConfig,
    ServeConfig, ValidationConfig, WikiConfig,
};
use llm_wiki::ingest::{
    find_body_start, ingest_commit_message, plan_ingest, should_skip, slug_from_path, IngestOptions, IngestReport,
};
use llm_wiki::ops_graph::{graph_filter, hub_limit, resolve_format, GraphParams, GraphRenderFormat};

fn global() -> GlobalConfig {
    GlobalConfig {
        global: GlobalSection { default_wiki: "main".to_string() },
        wikis: vec![],
        defaults: Defaults::default(),
        read: ReadConfig::default(),
        index: IndexConfig::default(),
        graph: GraphConfig::default(),
        serve: ServeConfig::default(),
        validation: ValidationConfig::default(),
        lint: LintConfig::default(),
    }
}

#[test]
fn wiki_sections_override_global_ones() {
    let g = global();
    let mut own = Defaults::default();
    own.search_top_k = 42;
    let w = WikiConfig {
        name: "w".to_string(),
        description: String::new(),
        defaults: Some(own),
        validation: None,
        lint: None,
    };
    let r = resolve(&g, &w);
    assert_eq!(r.defaults.search_top_k, 42);
    assert_eq!(r.validation.type_strictness, g.validation.type_strictness);
    assert_eq!(r.graph.format, "mermaid");
    assert_eq!(r.graph.depth, 3);
}

#[test]
fn default_sections() {
    let d = Defaults::default();
    assert_eq!(d.search_top_k, 10);
    assert_eq!(d.page_mode, "flat");
    assert_eq!(d.list_page_size, 20);
    assert_eq!(ServeConfig::default().sse_port, 8080);
    assert_eq!(ValidationConfig::default().type_strictness, "loose");
}

#[test]
fn graph_formats_parse_by_name() {
    assert!(matches!(GraphRenderFormat::parse("dot"), Ok(GraphRenderFormat::Dot)));
    assert_eq!(GraphRenderFormat::Mermaid.as_str(), "mermaid");
    let err = GraphRenderFormat::parse("svg").unwrap_err();
    assert_eq!(err, "unknown graph format \"svg\": expected mermaid, dot, llms, json, or summary");
    assert!(matches!(resolve_format(None, "llms"), Ok(GraphRenderFormat::Llms)));
    assert!(matches!(resolve_format(Some(GraphRenderFormat::Json), "bogus"), Ok(GraphRenderFormat::Json)));
}

fn params<'a>(type_filter: Option<&'a str>) -> GraphParams<'a> {
    GraphParams {
        format: None,
        root: Some("a".to_string()),
        depth: None,
        type_filter,
        relation: None,
        output: None,
        cross_wiki: false,
        limit: None,
    }
}

#[test]
fn graph_filter_splits_and_trims_types() {
    let f = graph_filter(&params(Some("concept, paper ,")), 3, 1000);
    assert_eq!(f.types, vec!["concept".to_string(), "paper".to_string(), String::new()]);
    assert_eq!(f.depth, Some(3));
    assert_eq!(f.root.as_deref(), Some("a"));
    assert_eq!(f.max_pages, 1000);
    assert_eq!(hub_limit(&params(None)), 10);
}

#[test]
fn changed_path_filter() {
    let changed = Some(vec!["concepts/a.md".to_string()]);
    assert!(!should_skip("/w/concepts/a.md", "/w", &changed));
    assert!(should_skip("/w/concepts/b.md", "/w", &changed));
    assert!(!should_skip("/w/concepts/b.md", "/w", &None));
    assert!(!should_skip("/w/concepts/b.md", "/w", &Some(vec![])));
}

#[test]
fn page_slugs_and_body_split() {
    assert_eq!(slug_from_path("/w/concepts/a.md", "/w"), "concepts/a");
    assert_eq!(find_body_start("---\nt: x\n---\nbody"), Some(13));
    assert_eq!(find_body_start("no frontmatter"), None);
    assert_eq!(find_body_start("---\nt: x\n---"), None);
}

#[test]
fn ingest_defaults() {
    let o = IngestOptions::default();
    assert!(!o.dry_run && !o.auto_commit && o.changed_paths.is_none() && o.redact.is_none());
    let r = IngestReport::default();
    assert_eq!((r.pages_validated, r.assets_found, r.unchanged_count), (0, 0, 0));
}

#[test]
fn ingest_plan_sorts_files() {
    let files = vec![
        "/w/a.md".to_string(),
        "/w/img.png".to_string(),
        "/w/b.md".to_string(),
    ];
    let changed = Some(vec!["a.md".to_string()]);
    let p = plan_ingest(&files, false, "/w", &changed);
    assert_eq!(p.validate, vec!["/w/a.md".to_string()]);
    assert_eq!(p.unchanged_count, 1);
    assert_eq!(p.assets_found, 1);
    let single = plan_ingest(&vec!["/w/notes.txt".to_string()], true, "/w", &None);
    assert_eq!(single.validate.len(), 1);
    assert_eq!(single.assets_found, 0);
}

#[test]
fn ingest_commit_message_counts() {
    assert_eq!(ingest_commit_message("concepts", 3, 1), "ingest: concepts — +3 pages, +1 assets");
}

#[test]
fn config_defaults_match_section_defaults() {
    let g = GlobalConfig::default();
    assert!(g.wikis.is_empty());
    assert_eq!(g.global.default_wiki, "");
    assert_eq!(g.defaults.search_top_k, 10);
    assert_eq!(g.defaults.page_mode, "flat");
    assert_eq!(g.defaults.list_page_size, 20);
    assert_eq!(g.graph.format, "mermaid");
    assert_eq!(g.graph.depth, 3);
    assert_eq!(g.serve.sse_port, 8080);
    assert_eq!(g.validation.type_strictness, "loose");
    assert!(g.lint.fix_missing_stubs && g.lint.fix_empty_sections);
    let w = WikiConfig::default();
    assert_eq!(w.name, "");
    assert!(w.defaults.is_none() && w.validation.is_none() && w.lint.is_none());
}
