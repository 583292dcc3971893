use chrono::Datelike;
use llm_wiki::graph::{LabeledEdge, PageNode, WikiGraph};
use llm_wiki::lint::{
    rule_broken_link, rule_missing_fields, rule_orphan, rule_stale, rule_unknown_type, slug_path, DocRecord,
    LintFinding, Severity, TypeInfo,
};
use llm_wiki::lint_graph::{build_undirected, rule_articulation_point, rule_bridge, rule_periphery};
use llm_wiki::lint_report::{lint_report, sort_lint_findings, LintOptions};

fn make_graph(slugs: &[&str], edges: &[(&str, &str)]) -> WikiGraph {
    let mut g = WikiGraph::new();
    for s in slugs {
        g.add_node(PageNode {
            slug: s.to_string(),
            title: s.to_string(),
            page_type: "page".to_string(),
            external: false,
        });
    }
    for (a, b) in edges {
        let ia = g.node_for_slug(a).unwrap();
        let ib = g.node_for_slug(b).unwrap();
        g.add_edge(ia, ib, LabeledEdge { relation: "links-to".to_string() });
    }
    g
}

fn paths_of(g: &WikiGraph) -> Vec<String> {
    (0..g.node_count()).map(|i| format!("/wiki/{}.md", g.node(i).slug)).collect()
}

#[test]
fn build_undirected_excludes_external() {
    let mut g = WikiGraph::new();
    let local = g.add_node(PageNode {
        slug: "a".into(),
        title: "a".into(),
        page_type: "page".into(),
        external: false,
    });
    let ext = g.add_node(PageNode {
        slug: "b".into(),
        title: "b".into(),
        page_type: "page".into(),
        external: true,
    });
    g.add_edge(local, ext, LabeledEdge { relation: "links-to".into() });
    let (n, edges, locals) = build_undirected(&g);
    assert_eq!(n, 1);
    assert_eq!(edges.len(), 0);
    assert_eq!(locals, vec![0]);
}

#[test]
fn articulation_point_detected() {
    let g = make_graph(&["a", "b", "c"], &[("a", "b"), ("b", "c")]);
    let findings = rule_articulation_point(&g, &paths_of(&g));
    let slugs: Vec<String> = findings.iter().map(|f| f.slug.clone()).collect();
    assert!(slugs.contains(&"b".to_string()), "b must be AP, got: {slugs:?}");
}

#[test]
fn no_articulation_points_in_cycle() {
    let g = make_graph(&["a", "b", "c"], &[("a", "b"), ("b", "c"), ("c", "a")]);
    assert!(rule_articulation_point(&g, &paths_of(&g)).is_empty());
}

#[test]
fn bridge_detected() {
    let g = make_graph(&["a", "b", "c"], &[("a", "b"), ("b", "c")]);
    let findings = rule_bridge(&g, &paths_of(&g));
    assert_eq!(findings.len(), 2);
    let msgs: Vec<&str> = findings.iter().map(|f| f.message.as_str()).collect();
    let has_ab = msgs.iter().any(|m| m.contains("a → b") || m.contains("b → a"));
    let has_bc = msgs.iter().any(|m| m.contains("b → c") || m.contains("c → b"));
    assert!(has_ab && has_bc, "{msgs:?}");
}

#[test]
fn rule_articulation_point_produces_finding_for_connector() {
    let g = make_graph(&["a", "b", "c"], &[("a", "b"), ("b", "c")]);
    let findings = rule_articulation_point(&g, &paths_of(&g));
    assert_eq!(findings.len(), 1);
    assert_eq!(findings[0].slug, "b");
    assert_eq!(findings[0].rule, "articulation-point");
    assert_eq!(findings[0].severity, Severity::Warning);
    assert!(findings[0].message.contains("disconnect"));
    assert_eq!(findings[0].path, "/wiki/b.md");
}

#[test]
fn rule_articulation_point_empty_for_cycle() {
    let g = make_graph(&["a", "b", "c"], &[("a", "b"), ("b", "c"), ("c", "a")]);
    assert!(rule_articulation_point(&g, &paths_of(&g)).is_empty());
}

#[test]
fn rule_bridge_produces_findings_with_correct_fields() {
    let g = make_graph(&["a", "b", "c"], &[("a", "b"), ("b", "c")]);
    let findings = rule_bridge(&g, &paths_of(&g));
    assert_eq!(findings.len(), 2);
    for f in &findings {
        assert_eq!(f.rule, "bridge");
        assert_eq!(f.severity, Severity::Warning);
        assert!(f.message.contains("→"), "message must contain arrow, got: {}", f.message);
        assert!(f.message.contains("is a bridge"));
    }
    let slugs: Vec<&str> = findings.iter().map(|f| f.slug.as_str()).collect();
    assert!(slugs.contains(&"a") || slugs.contains(&"b"));
}

#[test]
fn rule_bridge_empty_for_cycle() {
    let g = make_graph(&["a", "b", "c"], &[("a", "b"), ("b", "c"), ("c", "a")]);
    assert!(rule_bridge(&g, &paths_of(&g)).is_empty());
}

#[test]
fn rule_periphery_produces_findings() {
    let g = make_graph(&["a", "b", "c"], &[("a", "b"), ("b", "c"), ("c", "a")]);
    let findings = rule_periphery(&g, &paths_of(&g), 100);
    assert!(!findings.is_empty());
    for f in &findings {
        assert_eq!(f.rule, "periphery");
        assert_eq!(f.severity, Severity::Warning);
        assert!(f.message.contains("isolated"));
    }
}

#[test]
fn rule_periphery_skips_above_threshold() {
    let g = make_graph(&["a", "b", "c"], &[("a", "b"), ("b", "c"), ("c", "a")]);
    assert!(rule_periphery(&g, &paths_of(&g), 2).is_empty());
}

fn make_record(slug: &str, page_type: &str) -> DocRecord {
    DocRecord {
        slug: slug.to_string(),
        page_type: page_type.to_string(),
        status: String::new(),
        last_updated: String::new(),
        confidence_field_absent: false,
        confidence_low: None,
        body_links: vec![],
        sources: vec![],
        concepts: vec![],
        document_refs: vec![],
        superseded_by: vec![],
        fields_present: vec![],
        path: slug_path(slug, "/wiki", true, false),
    }
}

/// Days from the common era of the day before today.
fn yesterday() -> i32 {
    (chrono::Utc::now().date_naive() - chrono::Duration::days(1)).num_days_from_ce()
}

fn concept_type() -> TypeInfo {
    TypeInfo { name: "concept".to_string(), required: vec!["title".to_string(), "read_when".to_string()] }
}

#[test]
fn rule_orphan_flags_unlinked_page() {
    let mut a = make_record("a", "note");
    a.body_links = vec!["b".to_string()];
    let mut b = make_record("b", "note");
    b.body_links = vec!["a".to_string()];
    let c = make_record("c", "note");
    let findings = rule_orphan(&vec![a, b, c]);
    assert_eq!(findings.len(), 1);
    assert_eq!(findings[0].slug, "c");
    assert_eq!(findings[0].rule, "orphan");
    assert_eq!(findings[0].severity, Severity::Warning);
    assert_eq!(findings[0].path, "/wiki/c.md");
}

#[test]
fn rule_orphan_skips_section_and_index_slugs() {
    let sec = make_record("intro", "section");
    let idx = make_record("projects/index", "note");
    let bare_idx = make_record("index", "note");
    let findings = rule_orphan(&vec![sec, idx, bare_idx]);
    assert!(findings.is_empty(), "got findings: {findings:?}");
}

#[test]
fn rule_unknown_type_flags_unrecognised_type() {
    let r = make_record("some-page", "ghost");
    let findings = rule_unknown_type(&vec![r], &vec![concept_type()]);
    assert_eq!(findings.len(), 1);
    assert_eq!(findings[0].rule, "unknown-type");
    assert_eq!(findings[0].severity, Severity::Error);
    assert!(findings[0].message.contains("ghost"));
}

#[test]
fn rule_broken_link_flags_missing_slug() {
    let mut a = make_record("a", "note");
    a.body_links = vec!["nonexistent".to_string()];
    let b = make_record("b", "note");
    let findings = rule_broken_link(&vec![a, b], false, &vec![]);
    assert_eq!(findings.len(), 1);
    assert_eq!(findings[0].slug, "a");
    assert_eq!(findings[0].rule, "broken-link");
    assert_eq!(findings[0].severity, Severity::Error);
    assert!(findings[0].message.contains("nonexistent"));
}

#[test]
fn rule_stale_flags_old_page_with_no_confidence_field() {
    let mut r = make_record("old-page", "note");
    r.last_updated = "2000-01-01".to_string();
    r.confidence_field_absent = true;
    let findings = rule_stale(&vec![r], yesterday());
    assert_eq!(findings.len(), 1);
    assert_eq!(findings[0].rule, "stale");
    assert_eq!(findings[0].severity, Severity::Warning);
    assert!(findings[0].message.contains("2000-01-01"));
}

#[test]
fn rule_stale_skips_non_active_status() {
    let mut r = make_record("archived-page", "note");
    r.last_updated = "2000-01-01".to_string();
    r.status = "archived".to_string();
    r.confidence_field_absent = true;
    let findings = rule_stale(&vec![r], yesterday());
    assert!(findings.is_empty(), "archived pages must not be flagged");
}

#[test]
fn rule_stale_skips_high_confidence_page() {
    let mut r = make_record("solid-page", "note");
    r.last_updated = "2000-01-01".to_string();
    // confidence 0.9 against a threshold of 0.7
    r.confidence_low = Some(false);
    r.confidence_field_absent = false;
    let findings = rule_stale(&vec![r], yesterday());
    assert!(findings.is_empty(), "high-confidence page must not be flagged");
}

#[test]
fn rule_missing_fields_flags_absent_required_field() {
    let t = concept_type();
    let mut r = make_record("test-page", &t.name);
    r.fields_present = t.required.iter().map(|f| (f.clone(), false)).collect();
    let findings = rule_missing_fields(&vec![r], &vec![t]);
    assert!(!findings.is_empty(), "expected findings for absent required fields");
    for f in &findings {
        assert_eq!(f.rule, "missing-fields");
        assert_eq!(f.severity, Severity::Error);
    }
}

#[test]
fn rule_missing_fields_no_findings_when_all_present() {
    let t = concept_type();
    let mut r = make_record("test-page", &t.name);
    r.fields_present = t.required.iter().map(|f| (f.clone(), true)).collect();
    let findings = rule_missing_fields(&vec![r], &vec![t]);
    assert!(findings.is_empty(), "expected no findings: {findings:?}");
}

#[test]
fn rule_broken_link_cross_wiki_flagged_when_unmounted() {
    let mut a = make_record("a", "note");
    a.body_links = vec!["wiki://other-wiki/some-page".to_string()];
    let mounted = vec!["my-wiki".to_string()];
    let findings = rule_broken_link(&vec![a], true, &mounted);
    assert_eq!(findings.len(), 1);
    assert_eq!(findings[0].rule, "broken-cross-wiki-link");
    assert_eq!(findings[0].severity, Severity::Warning);
}

// ── reports ───────────────────────────────────────────────────────────────

fn finding(slug: &str, rule: &str, severity: Severity) -> LintFinding {
    LintFinding {
        slug: slug.to_string(),
        rule: rule.to_string(),
        severity,
        message: String::new(),
        path: String::new(),
    }
}

#[test]
fn findings_sort_by_slug_then_rule() {
    let sorted = sort_lint_findings(vec![
        finding("b", "orphan", Severity::Warning),
        finding("a", "stale", Severity::Warning),
        finding("a", "broken-link", Severity::Error),
    ]);
    let keys: Vec<(String, String)> = sorted.iter().map(|f| (f.slug.clone(), f.rule.clone())).collect();
    assert_eq!(
        keys,
        vec![
            ("a".to_string(), "broken-link".to_string()),
            ("a".to_string(), "stale".to_string()),
            ("b".to_string(), "orphan".to_string()),
        ]
    );
}

#[test]
fn report_counts_add_up_and_pages() {
    let fs = vec![
        finding("c", "orphan", Severity::Warning),
        finding("a", "broken-link", Severity::Error),
        finding("b", "orphan", Severity::Warning),
    ];
    let mut opts = LintOptions::default();
    opts.page_size = Some(2);
    let r = lint_report("w", fs, &opts).unwrap();
    assert_eq!(r.total, 3);
    assert_eq!(r.errors + r.warnings, r.total);
    assert_eq!(r.errors, 1);
    assert_eq!(r.findings.len(), 2);
    assert_eq!(r.findings[0].slug, "a");
    assert!(r.has_more);
    assert_eq!(r.next_cursor, Some(2));
}

#[test]
fn report_cursor_past_end_gives_empty_page() {
    let mut opts = LintOptions::default();
    opts.page_size = Some(2);
    opts.cursor = Some(5);
    let r = lint_report("w", vec![finding("a", "orphan", Severity::Warning)], &opts).unwrap();
    assert!(r.findings.is_empty());
    assert!(!r.has_more);
    assert_eq!(r.next_cursor, None);
    assert_eq!(r.total, 1);
}

#[test]
fn report_page_end_beyond_usize_is_refused() {
    let mut opts = LintOptions::default();
    opts.page_size = Some(usize::MAX);
    opts.cursor = Some(1);
    assert!(lint_report("w", vec![finding("a", "orphan", Severity::Warning)], &opts).is_none());
}

#[test]
fn summary_report_counts_by_rule() {
    let fs = vec![
        finding("a", "orphan", Severity::Warning),
        finding("b", "orphan", Severity::Warning),
        finding("c", "stale", Severity::Warning),
    ];
    let mut opts = LintOptions::default();
    opts.summary = true;
    let r = lint_report("w", fs, &opts).unwrap();
    assert!(r.findings.is_empty());
    let by = r.by_rule.unwrap();
    let total: usize = by.iter().map(|(_, n)| *n).sum();
    assert_eq!(total, r.total);
    assert!(by.contains(&("orphan".to_string(), 2)));
    assert!(by.contains(&("stale".to_string(), 1)));
}
