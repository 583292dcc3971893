use llm_wiki::config::{CustomPattern, RedactConfig};
use llm_wiki::ingest::{normalize_line_endings, redact_page};
use llm_wiki::redact::{build_patterns, redact_body, redact_error};

#[test]
fn redact_absolute_path_in_error() {
    let msg = "failed to open /home/user/wikis/my-wiki/state.toml: No such file";
    assert_eq!(redact_error(msg), "failed to open <path>: No such file");
}

#[test]
fn redact_multiple_paths() {
    let msg = "copy /tmp/build/a.idx to /var/data/b.idx failed";
    assert_eq!(redact_error(msg), "copy <path> to <path> failed");
}

#[test]
fn path_free_message_unchanged() {
    let msg = "permission denied";
    assert_eq!(redact_error(msg), "permission denied");
}

#[test]
fn very_short_path_not_redacted() {
    let msg = "error at /ab";
    assert_eq!(redact_error(msg), "error at /ab");
}

#[test]
fn tilde_path_fully_redacted() {
    let msg = "config not found at ~/.config/llm-wiki/config.toml";
    assert_eq!(redact_error(msg), "config not found at <path>");
}

#[test]
fn tilde_user_path_redacted() {
    let msg = "open ~user/wikis/foo failed";
    assert_eq!(redact_error(msg), "open <path> failed");
}

// ── body redaction ────────────────────────────────────────────────────────

fn no_config() -> RedactConfig {
    RedactConfig { disable: vec![], patterns: vec![] }
}

#[test]
fn custom_pattern_redacts_and_reports_line() {
    let cfg = RedactConfig {
        disable: vec![],
        patterns: vec![CustomPattern {
            name: "ticket".to_string(),
            pattern: "TICKET-[0-9]+".to_string(),
            replacement: "[REDACTED:ticket]".to_string(),
        }],
    };
    let (out, matches) = redact_body("line one\nsee TICKET-42 here\n", &cfg);
    assert_eq!(out, "line one\nsee [REDACTED:ticket] here\n");
    assert_eq!(matches.len(), 1);
    assert_eq!(matches[0].pattern_name, "ticket");
    assert_eq!(matches[0].line_number, 2);
}

#[test]
fn builtin_email_pattern_redacts() {
    let (out, matches) = redact_body("contact: someone@example.com", &no_config());
    assert_eq!(out, "contact: [REDACTED:email]");
    assert_eq!(matches.len(), 1);
    assert_eq!(matches[0].pattern_name, "email");
    assert_eq!(matches[0].line_number, 1);
}

#[test]
fn plain_body_is_unchanged() {
    let (out, matches) = redact_body("nothing to see\nhere", &no_config());
    assert_eq!(out, "nothing to see\nhere");
    assert!(matches.is_empty());
}

#[test]
fn disabling_every_builtin_leaves_only_custom_patterns() {
    assert_eq!(build_patterns(&no_config()).len(), 6);
    let names: Vec<String> = ["github-pat", "openai-key", "anthropic-key", "aws-access-key", "bearer-token", "email"]
        .iter()
        .map(|s| s.to_string())
        .collect();
    let cfg = RedactConfig { disable: names, patterns: vec![] };
    assert!(build_patterns(&cfg).is_empty());
}

#[test]
fn invalid_custom_pattern_is_skipped() {
    let cfg = RedactConfig {
        disable: vec![],
        patterns: vec![CustomPattern {
            name: "bad".to_string(),
            pattern: "(".to_string(),
            replacement: "x".to_string(),
        }],
    };
    let n_builtin = build_patterns(&no_config()).len();
    assert_eq!(build_patterns(&cfg).len(), n_builtin);
}

// ── pages ─────────────────────────────────────────────────────────────────

#[test]
fn page_redaction_keeps_frontmatter_and_shifts_lines() {
    let cfg = RedactConfig {
        disable: vec![],
        patterns: vec![CustomPattern {
            name: "ticket".to_string(),
            pattern: "TICKET-[0-9]+".to_string(),
            replacement: "[T]".to_string(),
        }],
    };
    let page = "---\ntitle: x\n---\nbody TICKET-1\n";
    let r = redact_page(page, "notes/x", &cfg);
    assert_eq!(r.write.as_deref(), Some("---\ntitle: x\n---\nbody [T]\n"));
    let report = r.report.unwrap();
    assert_eq!(report.slug, "notes/x");
    assert_eq!(report.matches[0].line_number, 4);
}

#[test]
fn page_without_matches_is_left_alone() {
    let r = redact_page("---\ntitle: x\n---\nplain\n", "x", &no_config());
    assert!(r.write.is_none());
    assert!(r.report.is_none());
}

#[test]
fn line_endings_are_normalized() {
    assert_eq!(normalize_line_endings("a\r\nb\rc\n"), "a\nb\nc\n");
    assert_eq!(normalize_line_endings("\r\r\n"), "\n\n");
    let once = normalize_line_endings("x\r\ny\r");
    assert_eq!(normalize_line_endings(&once), once);
}

#[test]
fn body_without_secrets_comes_back_unchanged() {
    for body in ["plain text\nno secrets here\n", "one line", "", "a\n\nb"] {
        let (text, matches) = redact_body(body, &no_config());
        assert_eq!(text, body);
        assert!(matches.is_empty());
    }
}
