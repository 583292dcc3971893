use llm_wiki::index_manager::{page_source_dir, page_uri, rebuild_file};
use llm_wiki::communities::{CommunityData, CommunityStats};
use llm_wiki::config::{
    Defaults, GlobalConfig, GlobalSection, GraphConfig, IndexConfig, LintConfig, ReadConfig,
    ServeConfig, ValidationConfig, WikiEntry,
};
use llm_wiki::edge_targets::edge_target_warnings;
use llm_wiki::graph::{LabeledEdge, PageNode, WikiGraph};
use llm_wiki::graph_build::{EdgeDecl, EdgeField, GraphDoc};
use llm_wiki::index_manager::{
    classify_staleness, degraded_reason, index_status, resolve_fields, startup_action, state_summary, IndexState, StalenessKind, StartupAction,
};
use llm_wiki::default_schemas::is_stock_schema;
use llm_wiki::ops_wikis::{migrate_one, SchemaFile};
use llm_wiki::search_types::{list_filters, merge_facet_counts, page_window, search_filters, FilterClause, PageError, TagsMode};
use llm_wiki::search_render::{render_list_llms, render_search_llms, ListedPage};
use llm_wiki::slug::WikiError;
use llm_wiki::suggest::{
    community_peers, shared_tags, shared_tags_reason, suggest_field, suggest_subject, suggestion_uri,
    two_hop_candidates,
};

fn config(default: &str, names: &[&str]) -> GlobalConfig {
    GlobalConfig {
        global: GlobalSection { default_wiki: default.to_string() },
        wikis: names
            .iter()
            .map(|n| WikiEntry { name: n.to_string(), path: format!("/w/{n}"), description: None, remote: None })
            .collect(),
        defaults: Defaults::default(),
        read: ReadConfig::default(),
        index: IndexConfig::default(),
        graph: GraphConfig::default(),
        serve: ServeConfig::default(),
        validation: ValidationConfig::default(),
        lint: LintConfig::default(),
    }
}

fn strings(v: &[&str]) -> Vec<String> {
    v.iter().map(|s| s.to_string()).collect()
}

// ── suggestions ───────────────────────────────────────────────────────────

#[test]
fn subject_from_uri_or_bare_slug() {
    let cfg = config("research", &["research", "notes"]);
    let (w, s) = suggest_subject("wiki://notes/a/b", None, &cfg).unwrap();
    assert_eq!((w.as_str(), s.as_str()), ("notes", "a/b"));
    let (w2, s2) = suggest_subject("concepts/moe", None, &cfg).unwrap();
    assert_eq!((w2.as_str(), s2.as_str()), ("research", "concepts/moe"));
    let (w3, _) = suggest_subject("concepts/moe", Some("elsewhere"), &cfg).unwrap();
    assert_eq!(w3, "elsewhere");
    assert!(matches!(suggest_subject("x", None, &config("", &[])), Err(WikiError::NoDefaultWiki)));
    assert!(matches!(suggest_subject("a.md", None, &cfg), Err(WikiError::InvalidSlug(_))));
}

#[test]
fn suggestion_uris_name_the_wiki() {
    assert_eq!(suggestion_uri("research", "concepts/moe"), "wiki://research/concepts/moe");
}

#[test]
fn shared_tags_keep_candidate_order() {
    let shared = shared_tags(&strings(&["rust", "async", "io"]), &strings(&["io", "rust"]));
    assert_eq!(shared, strings(&["rust", "io"]));
    assert_eq!(shared_tags_reason(&shared), "shares tags: rust, io");
    assert!(shared_tags(&strings(&["x"]), &strings(&["y"])).is_empty());
}

fn node(slug: &str) -> PageNode {
    PageNode { slug: slug.to_string(), title: slug.to_uppercase(), page_type: "concept".to_string(), external: false }
}

#[test]
fn two_hop_candidates_skip_neighbours_and_linked_pages() {
    // root -- a -- b, root <- c -- d, a -- c
    let mut g = WikiGraph::new();
    for s in ["root", "a", "b", "c", "d"] {
        g.add_node(node(s));
    }
    let e = |g: &mut WikiGraph, x: usize, y: usize| {
        g.add_edge(x, y, LabeledEdge { relation: "links-to".to_string() });
    };
    e(&mut g, 0, 1);
    e(&mut g, 1, 2);
    e(&mut g, 3, 0);
    e(&mut g, 3, 4);
    e(&mut g, 1, 3);
    let all = two_hop_candidates(&g, 0, &vec![]);
    let nodes: Vec<usize> = all.iter().map(|p| p.0).collect();
    assert_eq!(nodes, vec![2, 4]);
    assert_eq!(all[0].1, 1);
    assert_eq!(all[1].1, 3);
    let without_b = two_hop_candidates(&g, 0, &strings(&["b"]));
    assert_eq!(without_b.iter().map(|p| p.0).collect::<Vec<_>>(), vec![4]);
}

#[test]
fn community_peers_are_sorted_and_capped() {
    let data = CommunityData {
        local_count: 5,
        map: vec![
            ("me".to_string(), 1),
            ("zeta".to_string(), 1),
            ("alpha".to_string(), 1),
            ("linked".to_string(), 1),
            ("other".to_string(), 2),
        ],
        stats: CommunityStats { count: 2, largest: 4, smallest: 1 },
    };
    let peers = community_peers(&data, "me", &strings(&["linked"]), &vec![], 10);
    assert_eq!(peers, strings(&["alpha", "zeta"]));
    assert_eq!(community_peers(&data, "me", &vec![], &strings(&["alpha"]), 1), strings(&["linked"]));
    assert!(community_peers(&data, "unknown", &vec![], &vec![], 10).is_empty());
}

fn decl(field: &str, targets: &[&str]) -> EdgeDecl {
    EdgeDecl { field: field.to_string(), relation: format!("rel-{field}"), target_types: strings(targets) }
}

#[test]
fn suggest_field_follows_edge_declarations() {
    let decls = vec![decl("sources", &["paper", "article"]), decl("concepts", &["concept"])];
    assert_eq!(suggest_field(&decls, "concept"), "concepts");
    assert_eq!(suggest_field(&decls, "paper"), "sources");
    // a source type not listed still goes to a field that takes sources
    assert_eq!(suggest_field(&decls, "transcript"), "sources");
    assert_eq!(suggest_field(&decls, "query-result"), "[[wikilink]]");
    assert_eq!(suggest_field(&vec![], "concept"), "[[wikilink]]");
}

// ── edge targets ──────────────────────────────────────────────────────────

fn gdoc(slug: &str, page_type: &str, decls: Vec<EdgeDecl>, fields: Vec<EdgeField>) -> GraphDoc {
    GraphDoc {
        slug: slug.to_string(),
        title: slug.to_string(),
        page_type: page_type.to_string(),
        body_links: vec![],
        edge_decls: decls,
        edge_fields: fields,
    }
}

#[test]
fn mistyped_edge_targets_are_reported() {
    let docs = vec![
        gdoc(
            "c1",
            "concept",
            vec![decl("sources", &["paper"])],
            vec![EdgeField { field: "sources".to_string(), targets: strings(&["p1", "n1", "missing"]) }],
        ),
        gdoc("p1", "paper", vec![], vec![]),
        gdoc("n1", "note", vec![], vec![]),
    ];
    let w = edge_target_warnings(&docs);
    assert_eq!(w, strings(&["c1: edge 'rel-sources' target 'n1' has type 'note', expected one of [\"paper\"]"]));
}

#[test]
fn untyped_declarations_are_not_checked() {
    let docs = vec![
        gdoc(
            "c1",
            "concept",
            vec![decl("sources", &[])],
            vec![EdgeField { field: "sources".to_string(), targets: strings(&["n1"]) }],
        ),
        gdoc("n1", "note", vec![], vec![]),
    ];
    assert!(edge_target_warnings(&docs).is_empty());
}

// ── search and list filters ───────────────────────────────────────────────

fn describe(cs: &[FilterClause]) -> Vec<String> {
    cs.iter()
        .map(|c| match c {
            FilterClause::Must(f, v) => format!("+{f}:{v}"),
            FilterClause::MustNot(f, v) => format!("-{f}:{v}"),
            FilterClause::AnyOf(f, vs) => format!("+{f}:({})", vs.join("|")),
        })
        .collect()
}

#[test]
fn search_filters_exclude_sections_and_combine_tags() {
    let and = search_filters(false, &Some("concept".to_string()), &None, &strings(&["a", "b"]), TagsMode::And);
    assert_eq!(describe(&and), strings(&["-type:section", "+type:concept", "+tags:a", "+tags:b"]));
    let or = search_filters(true, &None, &Some("active".to_string()), &strings(&["a", "b"]), TagsMode::Or);
    assert_eq!(describe(&or), strings(&["+status:active", "+tags:(a|b)"]));
    assert!(list_filters(&None, &None, &vec![], TagsMode::Or).is_empty());
}

#[test]
fn page_windows() {
    assert_eq!(page_window(1, 20).unwrap(), (0, 20));
    assert_eq!(page_window(3, 10).unwrap(), (20, 30));
    assert_eq!(page_window(2, 0).unwrap_err(), PageError::ZeroPageSize);
    assert_eq!(page_window(0, 0).unwrap_err(), PageError::ZeroPageSize);
    assert_eq!(PageError::ZeroPageSize.message(), "page_size must be at least 1");
}

// ── index state ───────────────────────────────────────────────────────────

fn state(commit: &str, schema: &str, types: &[(&str, &str)]) -> IndexState {
    IndexState {
        schema_hash: schema.to_string(),
        built: "2026-01-01T00:00:00Z".to_string(),
        pages: 10,
        sections: 2,
        commit: commit.to_string(),
        types: types.iter().map(|(a, b)| (a.to_string(), b.to_string())).collect(),
    }
}

#[test]
fn staleness_is_classified() {
    let cur = vec![("concept".to_string(), "h1".to_string()), ("paper".to_string(), "h2".to_string())];
    assert!(matches!(classify_staleness(None, "c", "s", &cur), StalenessKind::FullRebuildNeeded));
    let s = state("c", "s", &[("concept", "h1"), ("paper", "h2")]);
    assert!(matches!(classify_staleness(Some(&s), "c", "s", &cur), StalenessKind::Current));
    assert!(matches!(classify_staleness(Some(&s), "c2", "s", &cur), StalenessKind::CommitChanged));
    let changed = state("c", "old", &[("concept", "h1"), ("paper", "old")]);
    match classify_staleness(Some(&changed), "c", "s", &cur) {
        StalenessKind::TypesChanged(t) => assert_eq!(t, strings(&["paper"])),
        other => panic!("unexpected {:?}", other),
    }
}

#[test]
fn index_status_pieces() {
    let s = state("c", "s", &[]);
    let (built, pages, sections, stale) = state_summary(Some(&s), "c", "s");
    assert_eq!(built.as_deref(), Some("2026-01-01T00:00:00Z"));
    assert_eq!((pages, sections, stale), (10, 2, false));
    assert!(state_summary(None, "c", "s").3);
    assert!(degraded_reason(true, true, false).is_none());
    assert!(degraded_reason(false, true, false).unwrap().contains("cannot be opened"));
}

#[test]
fn migration_removes_stock_schemas_only() {
    let stock = strings(&[PAPER, CONCEPT]);
    let files = vec![
        SchemaFile { file_name: "paper.json".to_string(), content: PAPER.to_string() },
        SchemaFile { file_name: "custom.json".to_string(), content: "{\"x\": 1}".to_string() },
        SchemaFile {
            file_name: "concept.json".to_string(),
            content: "{ \"type\" : \"object\",\r\n  \"title\": \"concept\" }".to_string(),
        },
    ];
    let r = migrate_one("w", &files, &stock);
    assert_eq!(r.deleted, strings(&["concept.json", "paper.json"]));
    assert_eq!(r.kept_custom, strings(&["custom.json"]));
    assert!(!r.already_clean);
    assert!(migrate_one("w", &vec![], &stock).already_clean);
}

const PAPER: &str = "{\"title\": \"paper\", \"type\": \"object\"}";
const CONCEPT: &str = "{\"title\": \"concept\", \"type\": \"object\"}";

#[test]
fn invalid_json_is_not_stock() {
    assert!(!is_stock_schema("{ not valid json", &strings(&[PAPER, CONCEPT])));
}

#[test]
fn reformatted_stock_schema_is_stock() {
    let pretty = "{\n  \"type\": \"object\",\n  \"title\": \"paper\"\n}\n";
    assert!(is_stock_schema(pretty, &strings(&[PAPER, CONCEPT])));
}

#[test]
fn schema_with_extra_key_is_not_stock() {
    let changed = "{\"title\": \"paper\", \"type\": \"object\", \"x-custom\": true}";
    assert!(!is_stock_schema(changed, &strings(&[PAPER, CONCEPT])));
    assert!(!is_stock_schema(PAPER, &vec![]));
}

#[test]
fn mounting_picks_the_cheapest_index_work() {
    assert!(matches!(startup_action(None, true, None), StartupAction::Build));
    assert!(matches!(startup_action(Some((false, true)), true, None), StartupAction::Build));
    assert!(matches!(startup_action(Some((true, false)), true, Some(StalenessKind::Current)), StartupAction::Nothing));
    assert!(matches!(startup_action(Some((true, true)), true, Some(StalenessKind::CommitChanged)), StartupAction::Update));
    match startup_action(Some((true, true)), true, Some(StalenessKind::TypesChanged(strings(&["paper"])))) {
        StartupAction::RebuildTypes(t) => assert_eq!(t, strings(&["paper"])),
        other => panic!("unexpected {:?}", other),
    }
    assert!(matches!(startup_action(Some((true, true)), true, None), StartupAction::Rebuild));
    assert!(matches!(startup_action(Some((true, true)), false, None), StartupAction::WarnStale));
    assert!(matches!(startup_action(Some((true, false)), false, None), StartupAction::Nothing));
}

#[test]
fn facet_counts_are_merged_and_capped() {
    let fruits = vec![
        vec![(2u64, "draft".to_string()), (1u64, "active".to_string())],
        vec![(3u64, "active".to_string()), (1u64, "archived".to_string())],
    ];
    let all = merge_facet_counts(&fruits, 0);
    assert_eq!(
        all,
        vec![(2, "draft".to_string()), (4, "active".to_string()), (1, "archived".to_string())]
    );
    let top = merge_facet_counts(&fruits, 2);
    assert_eq!(top, vec![(4, "active".to_string()), (2, "draft".to_string())]);
    let total: u64 = all.iter().map(|p| p.0).sum();
    assert_eq!(total, 7);
}

#[test]
fn search_results_render_as_links() {
    let rs = vec![
        ("MoE".to_string(), "wiki://r/concepts/moe".to_string(), Some("Sparse experts".to_string())),
        ("Attention".to_string(), "wiki://r/concepts/attention".to_string(), None),
    ];
    assert_eq!(
        render_search_llms(&rs),
        "- [MoE](wiki://r/concepts/moe): Sparse experts\n- [Attention](wiki://r/concepts/attention)\n"
    );
    assert_eq!(render_search_llms(&vec![]), "No results found.\n");
}

fn listed(title: &str, page_type: &str, status: &str, summary: Option<&str>) -> ListedPage {
    ListedPage {
        title: title.to_string(),
        uri: format!("wiki://w/{}", title.to_lowercase()),
        page_type: page_type.to_string(),
        status: status.to_string(),
        summary: summary.map(|s| s.to_string()),
    }
}

#[test]
fn page_lists_group_by_type() {
    let pages = vec![
        listed("A", "paper", "active", None),
        listed("B", "concept", "archived", Some("old")),
        listed("C", "concept", "active", Some("")),
    ];
    let text = render_list_llms(&pages, 3, 1, 20);
    assert_eq!(
        text,
        "## concept (2)\n\n- ~~[B](wiki://w/b): old~~\n- [C](wiki://w/c)\n\n## paper (1)\n\n- [A](wiki://w/a)\n\n"
    );
    let paged = render_list_llms(&pages, 45, 2, 20);
    assert!(paged.ends_with("_Page 2/3 — 45 total pages_\n"), "{paged}");
}

#[test]
fn aliased_fields_fill_missing_canonical_names() {
    let fields = strings(&["title", "summary_text", "tags", "abstract"]);
    let aliases = vec![
        ("summary_text".to_string(), "summary".to_string()),
        ("abstract".to_string(), "summary".to_string()),
        ("labels".to_string(), "tags".to_string()),
    ];
    let r = resolve_fields(&fields, &aliases);
    assert_eq!(
        r,
        vec![("title".to_string(), 0), ("tags".to_string(), 2), ("summary".to_string(), 1)]
    );
}

#[test]
fn index_status_reports_health() {
    let s = state("c", "h", &[]);
    let ok = index_status("w", "/idx", Some(&s), "c", "h", true, true);
    assert!(!ok.stale && ok.degraded_reason.is_none());
    assert_eq!((ok.pages, ok.sections), (10, 2));
    let stale = index_status("w", "/idx", Some(&s), "c2", "h", true, true);
    assert!(stale.stale);
    assert!(stale.degraded_reason.unwrap().contains("rebuild needed"));
    let missing = index_status("w", "/idx", None, "c", "h", false, false);
    assert!(missing.built.is_none() && missing.stale);
    assert!(missing.degraded_reason.unwrap().contains("cannot be opened"));
}

#[test]
fn rebuild_file_reads_pages_only() {
    assert!(rebuild_file("/w/notes.txt", "/w", "main").is_none());
    let e = rebuild_file("/w/concepts/moe.md", "/w", "main").unwrap().unwrap();
    assert_eq!(e.slug.as_str(), "concepts/moe");
    assert_eq!(e.uri, "wiki://main/concepts/moe");
    assert_eq!(e.source_dir, "concepts");
    let b = rebuild_file("/w/concepts/moe/index.md", "/w", "main").unwrap().unwrap();
    assert_eq!(b.slug.as_str(), "concepts/moe");
    assert_eq!(b.source_dir, "concepts/moe");
    assert!(rebuild_file("/elsewhere/x.md", "/w", "main").unwrap().is_err());
    assert_eq!(page_source_dir("top", false), "");
    assert_eq!(page_uri("w", "a/b"), "wiki://w/a/b");
}

#[test]
fn changed_types_are_sorted_and_listed_once() {
    let cur: Vec<(String, String)> = vec![
        ("zeta".to_string(), "z2".to_string()),
        ("concept".to_string(), "h1".to_string()),
        ("alpha".to_string(), "a1".to_string()),
    ];
    let old = state("c", "old", &[("zeta", "z1"), ("concept", "h1"), ("beta", "b1")]);
    match classify_staleness(Some(&old), "c", "s", &cur) {
        StalenessKind::TypesChanged(t) => assert_eq!(t, strings(&["alpha", "beta", "zeta"])),
        other => panic!("unexpected {:?}", other),
    }
}
