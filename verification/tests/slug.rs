use llm_wiki::config::{
    Defaults, GlobalConfig, GlobalSection, GraphConfig, IndexConfig, LintConfig, ReadConfig,
    ServeConfig, ValidationConfig, WikiEntry,
};
use llm_wiki::slug::{
    default_wiki, resolve_name, resolve_read_target, NormalizedSlug, ReadTarget, Slug,
    SlugPathError, SlugRejection, WikiError, WikiUri,
};

fn config(default: &str, names: &[&str]) -> GlobalConfig {
    GlobalConfig {
        global: GlobalSection { default_wiki: default.to_string() },
        wikis: names
            .iter()
            .map(|n| WikiEntry {
                name: n.to_string(),
                path: format!("/wikis/{n}"),
                description: None,
                remote: None,
            })
            .collect(),
        defaults: Defaults::default(),
        read: ReadConfig::default(),
        index: IndexConfig::default(),
        graph: GraphConfig::default(),
        serve: ServeConfig::default(),
        validation: ValidationConfig::default(),
        lint: LintConfig::default(),
    }
}

// ── Slug construction ─────────────────────────────────────────────────────

#[test]
fn slug_rejects_empty() {
    assert!(Slug::try_from("").is_err());
    assert!(Slug::try_from("   ").is_err());
}

#[test]
fn slug_rejects_leading_slash() {
    assert!(Slug::try_from("/concepts/page").is_err());
}

#[test]
fn slug_rejects_path_traversal() {
    assert!(Slug::try_from("../etc/passwd").is_err());
    assert!(Slug::try_from("concepts/../../etc/passwd").is_err());
}

#[test]
fn slug_rejects_hidden_components() {
    assert!(Slug::try_from(".hidden/page").is_err());
    assert!(Slug::try_from("concepts/.dotfile").is_err());
}

#[test]
fn slug_rejects_file_extension() {
    assert!(Slug::try_from("concepts/page.md").is_err());
    assert!(Slug::try_from("concepts/page.txt").is_err());
    assert!(Slug::try_from("concepts/page.").is_err());
    assert!(Slug::try_from("top-level.").is_err());
}

#[test]
fn slug_accepts_valid_paths() {
    assert!(Slug::try_from("concepts/moe").is_ok());
    assert!(Slug::try_from("concepts/mixture-of-experts").is_ok());
    assert!(Slug::try_from("a/b/c").is_ok());
    assert!(Slug::try_from("top-level").is_ok());
}

// ── Normalization ─────────────────────────────────────────────────────────

#[test]
fn normalize_lowercases_all_segments() {
    let slug = Slug::try_from("Concepts/MOE").unwrap();
    assert_eq!(slug.normalize(), "concepts/moe");
}

#[test]
fn normalize_already_lowercase_is_identity() {
    let slug = Slug::try_from("concepts/moe").unwrap();
    assert_eq!(slug.normalize(), "concepts/moe");
}

#[test]
fn normalize_nested_path() {
    let slug = Slug::try_from("A/B/C-Deep").unwrap();
    assert_eq!(slug.normalize(), "a/b/c-deep");
}

// ── NormalizedSlug round-trips ────────────────────────────────────────────

#[test]
fn normalized_slug_display_and_as_str() {
    let slug = Slug::try_from("concepts/moe").unwrap().normalize();
    assert_eq!(slug.as_str(), "concepts/moe");
    assert_eq!(slug.to_string(), "concepts/moe");
}

#[test]
fn normalized_slug_partial_eq_str() {
    let slug = Slug::try_from("concepts/moe").unwrap().normalize();
    assert_eq!(slug, "concepts/moe");
    assert_ne!(slug, "concepts/MOE");
}

#[test]
fn normalized_slug_partial_eq_string() {
    let slug = Slug::try_from("concepts/moe").unwrap().normalize();
    assert_eq!(slug, String::from("concepts/moe"));
}

// ── resolve_read_target ───────────────────────────────────────────────────

#[test]
fn resolve_read_target_rejects_traversal_in_asset_parent() {
    let result = resolve_read_target("../etc/passwd.pub", "/tmp/wiki", false, false, false);
    assert!(result.is_err(), "traversal asset path must be rejected before any filesystem probe");
    let result2 = resolve_read_target("concepts/../../etc/passwd.pdf", "/tmp/wiki", false, false, false);
    assert!(result2.is_err(), "multi-component traversal asset path must be rejected");
}

#[test]
fn resolve_read_target_valid_asset_not_found_returns_err() {
    let result = resolve_read_target("concepts/diagram.png", "/tmp/wiki", false, false, false);
    assert!(result.is_err(), "asset not on disk must return Err");
}

// ── from_normalized (internal) ────────────────────────────────────────────

#[test]
fn from_normalized_wraps_without_transformation() {
    let s = NormalizedSlug::from_normalized("concepts/moe".to_string());
    assert_eq!(s.as_str(), "concepts/moe");
}

// ── further cases ─────────────────────────────────────────────────────────

#[test]
fn slug_trims_surrounding_whitespace() {
    let s = Slug::try_from("  concepts/moe  ").unwrap();
    assert_eq!(s.as_str(), "concepts/moe");
}

#[test]
fn slug_rejection_kinds() {
    assert_eq!(Slug::try_from("").unwrap_err().kind, SlugRejection::Empty);
    assert_eq!(Slug::try_from("/a").unwrap_err().kind, SlugRejection::LeadingSlash);
    assert_eq!(Slug::try_from("a/../b").unwrap_err().kind, SlugRejection::PathTraversal);
    assert_eq!(Slug::try_from("a/.b").unwrap_err().kind, SlugRejection::HiddenComponent);
    assert_eq!(Slug::try_from("a/b.md").unwrap_err().kind, SlugRejection::FileExtension);
}

#[test]
fn slug_title_is_title_cased_last_segment() {
    let s = Slug::try_from("concepts/mixture-of-experts").unwrap();
    assert_eq!(s.title(), "Mixture of Experts");
}

#[test]
fn slug_title_capitalizes_opening_joining_word() {
    let s = Slug::try_from("books/the-art-of-war").unwrap();
    assert_eq!(s.title(), "The Art of War");
    let t = Slug::try_from("a--b").unwrap();
    assert_eq!(t.title(), "A  B");
}

#[test]
fn slug_page_paths() {
    let s = Slug::try_from("concepts/moe").unwrap();
    assert_eq!(s.flat_path("/w"), "/w/concepts/moe.md");
    assert_eq!(s.bundle_path("/w"), "/w/concepts/moe/index.md");
    assert_eq!(s.resolve("/w", false, true).unwrap(), "/w/concepts/moe/index.md");
    assert!(matches!(s.resolve("/w", false, false), Err(WikiError::SlugNotFound(_))));
}

#[test]
fn slug_from_flat_and_bundle_paths() {
    let flat = Slug::from_path("/w/concepts/moe.md", "/w").unwrap();
    assert_eq!(flat.as_str(), "concepts/moe");
    let bundle = Slug::from_path("/w/concepts/moe/index.md", "/w").unwrap();
    assert_eq!(bundle.as_str(), "concepts/moe");
    assert!(matches!(Slug::from_path("/elsewhere/x.md", "/w"), Err(SlugPathError::NotUnderRoot)));
    assert!(matches!(Slug::from_path("/w/.hidden.md", "/w"), Err(SlugPathError::Invalid(_))));
}

#[test]
fn resolve_read_target_prefers_flat_then_bundle_then_asset() {
    match resolve_read_target("concepts/moe", "/w", true, true, false).unwrap() {
        ReadTarget::Page(p) => assert_eq!(p, "/w/concepts/moe.md"),
        other => panic!("unexpected {:?}", other),
    }
    match resolve_read_target("concepts/moe", "/w", false, true, false).unwrap() {
        ReadTarget::Page(p) => assert_eq!(p, "/w/concepts/moe/index.md"),
        other => panic!("unexpected {:?}", other),
    }
    match resolve_read_target("concepts/diagram.png", "/w", false, false, true).unwrap() {
        ReadTarget::Asset(parent, file) => {
            assert_eq!(parent, "concepts");
            assert_eq!(file, "diagram.png");
        }
        other => panic!("unexpected {:?}", other),
    }
}

// ── wiki:// URIs ──────────────────────────────────────────────────────────

#[test]
fn uri_parse_splits_wiki_and_slug() {
    let u = WikiUri::parse("wiki://research/concepts/moe").unwrap();
    assert_eq!(u.wiki.as_deref(), Some("research"));
    assert_eq!(u.slug.as_str(), "concepts/moe");
    let bare = WikiUri::parse("concepts/moe").unwrap();
    assert_eq!(bare.wiki, None);
    assert!(matches!(WikiUri::parse("wiki://"), Err(WikiError::InvalidUri(_))));
}

#[test]
fn uri_resolve_uses_named_or_default_wiki() {
    let cfg = config("research", &["research", "notes"]);
    let (e, s) = WikiUri::resolve("wiki://notes/a/b", None, &cfg).unwrap();
    assert_eq!(e.name, "notes");
    assert_eq!(s.as_str(), "a/b");
    // An unregistered first segment is part of the slug in the default wiki.
    let (e2, s2) = WikiUri::resolve("wiki://concepts/moe", None, &cfg).unwrap();
    assert_eq!(e2.name, "research");
    assert_eq!(s2.as_str(), "concepts/moe");
    let (e3, s3) = WikiUri::resolve("concepts/moe", Some("notes"), &cfg).unwrap();
    assert_eq!(e3.name, "notes");
    assert_eq!(s3.as_str(), "concepts/moe");
}

#[test]
fn uri_resolve_errors() {
    let none = config("", &["research"]);
    assert!(matches!(WikiUri::resolve("concepts/moe", None, &none), Err(WikiError::NoDefaultWiki)));
    let cfg = config("research", &["research"]);
    assert!(matches!(WikiUri::resolve("x", Some("missing"), &cfg), Err(WikiError::UnknownWiki(_))));
    assert!(matches!(WikiUri::resolve("../x", None, &cfg), Err(WikiError::InvalidSlug(_))));
}

#[test]
fn resolve_name_and_default_wiki() {
    let cfg = config("research", &["research"]);
    assert_eq!(resolve_name("research", &cfg).unwrap().path, "/wikis/research");
    assert!(matches!(resolve_name("x", &cfg), Err(WikiError::UnknownWiki(_))));
    assert_eq!(default_wiki(&cfg).unwrap(), "research");
    assert!(matches!(default_wiki(&config("", &[])), Err(WikiError::NoDefaultWiki)));
}

#[test]
fn error_messages() {
    assert_eq!(WikiError::UnknownWiki("x".to_string()).message(), "wiki not found: x");
    assert_eq!(WikiError::PageNotFound("a/b".to_string()).message(), "page not found: a/b");
    assert_eq!(WikiError::SlugNotFound("a/b".to_string()).message(), "page not found for slug: a/b");
    let e = llm_wiki::slug::Slug::try_from("..").unwrap_err();
    assert_eq!(
        WikiError::InvalidAssetParent("../x".to_string(), e).message(),
        "asset path has invalid parent slug: \"../x\""
    );
}

#[test]
fn title_capitalizes_words_other_than_of() {
    let s = Slug::try_from("notes/the-state-and-the-art").unwrap();
    assert_eq!(s.title(), "The State And The Art");
}
