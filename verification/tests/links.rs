use llm_wiki::links::{extract_body_wikilinks, extract_links, extract_parsed_links, ParsedLink, ParsedPage};

// ── bundle layout (source_dir == slug) ───────────────────────────────────────

#[test]
fn bundle_dotslash_resolves_into_slug_dir() {
    let links = extract_body_wikilinks("[glossary](./glossary.md)", Some("technology/concurrency"));
    assert!(links.iter().any(|l| l == "technology/concurrency/glossary"), "got: {:?}", links);
}

#[test]
fn bundle_dotdot_resolves_to_sibling_dir() {
    let links =
        extract_body_wikilinks("[patterns](../concurrency/patterns.md)", Some("technology/concurrency"));
    assert!(links.iter().any(|l| l == "technology/concurrency/patterns"), "got: {:?}", links);
}

#[test]
fn bundle_dotdot_no_md_extension() {
    let links = extract_body_wikilinks("[ractor](../ractor)", Some("technology/concurrency"));
    assert!(links.iter().any(|l| l == "technology/ractor"), "got: {:?}", links);
}

// ── flat layout (source_dir == parent of slug) ────────────────────────────

#[test]
fn flat_dotslash_resolves_into_parent_dir() {
    let links = extract_body_wikilinks("[glossary](./glossary.md)", Some("technology"));
    assert!(links.iter().any(|l| l == "technology/glossary"), "got: {:?}", links);
}

#[test]
fn flat_dotdot_resolves_above_parent_dir() {
    let links = extract_body_wikilinks("[ractor](../ractor)", Some("technology"));
    assert!(links.iter().any(|l| l == "ractor"), "got: {:?}", links);
}

// ── layout-independent cases ──────────────────────────────────────────────

#[test]
fn wikilink_absolute_slug_unchanged() {
    let links = extract_body_wikilinks("[[technology/ractor]]", Some("technology/concurrency"));
    assert!(links.iter().any(|l| l == "technology/ractor"), "got: {:?}", links);
}

#[test]
fn external_https_link_excluded() {
    let links = extract_body_wikilinks("[ext](https://example.com)", Some("technology/concurrency"));
    assert!(
        !links.iter().any(|l| l.contains("example.com")),
        "external link should be filtered out, got: {:?}",
        links
    );
}

#[test]
fn root_level_flat_page_empty_source_dir() {
    let links = extract_body_wikilinks("[other](./other.md)", Some(""));
    assert!(links.iter().any(|l| l == "other"), "got: {:?}", links);
}

#[test]
fn no_source_dir_leaves_relative_dest_unchanged() {
    let links = extract_body_wikilinks("[glossary](./glossary.md)", None);
    assert!(
        links.iter().any(|l| l == "./glossary.md"),
        "without source_dir, raw dest should be preserved, got: {:?}",
        links
    );
}

// ── further cases ─────────────────────────────────────────────────────────

#[test]
fn wikilinks_and_markdown_links_keep_order_without_repeats() {
    let links = extract_body_wikilinks("see [[a]] and [[b]], then [[a]] again and [c](c.md)", Some(""));
    assert_eq!(links, vec!["a".to_string(), "b".to_string(), "c".to_string()]);
}

#[test]
fn mailto_and_http_links_are_dropped() {
    let links = extract_body_wikilinks("[m](mailto:x@y.z) [h](http://x.y)", Some("t"));
    assert!(links.is_empty(), "got: {:?}", links);
}

#[test]
fn frontmatter_links_come_before_body_links() {
    let page = ParsedPage {
        sources: vec!["src/one".to_string()],
        concepts: vec!["concepts/two".to_string(), "src/one".to_string()],
        body: "text [[concepts/three]] and [[src/one]]".to_string(),
    };
    let links = extract_links(&page);
    assert_eq!(
        links,
        vec!["src/one".to_string(), "concepts/two".to_string(), "concepts/three".to_string()]
    );
}

#[test]
fn parsed_links_split_wiki_uris() {
    let page = ParsedPage {
        sources: vec!["wiki://other/page".to_string()],
        concepts: vec![],
        body: "[[local/page]]".to_string(),
    };
    let links = extract_parsed_links(&page);
    assert_eq!(links.len(), 2);
    match &links[0] {
        ParsedLink::CrossWiki { wiki, slug } => {
            assert_eq!(wiki, "other");
            assert_eq!(slug, "page");
        }
        other => panic!("expected a cross-wiki link, got {:?}", other),
    }
    match &links[1] {
        ParsedLink::Local(s) => assert_eq!(s, "local/page"),
        other => panic!("expected a local link, got {:?}", other),
    }
}

#[test]
fn parsed_link_as_raw_gives_the_slug() {
    assert_eq!(ParsedLink::parse("wiki://research/concepts/moe").as_raw(), "concepts/moe");
    assert_eq!(ParsedLink::parse("concepts/moe").as_raw(), "concepts/moe");
    assert_eq!(ParsedLink::parse("wiki://noslash").as_raw(), "wiki://noslash");
}

#[test]
fn wikilink_and_uri_link_to_same_slug_listed_once() {
    let links = extract_body_wikilinks("[[s]] and [x](wiki://w/s)", None);
    assert_eq!(links, vec!["s".to_string()]);
}
