use std::sync::atomic::{AtomicBool, Ordering};
use std::sync::Arc;

use llm_wiki::acp::{clear_active_run, get_cancelled, AcpSession, SessionMap};
use llm_wiki::index_manager::UpdateReport;
use llm_wiki::watch::{classify_event, ingest_notice, is_schema_path, route_event, watch_action, WatchAction, WatchDir};

// ── classify_event ─────────────────────────────────────────────────────────

#[test]
fn classify_event_markdown_goes_to_md_changes() {
    let mut md: Vec<(String, String)> = Vec::new();
    let mut schema: Vec<String> = Vec::new();
    classify_event("mywiki", "/repo/wiki/concepts/foo.md", &mut md, &mut schema);
    assert_eq!(md.len(), 1);
    assert!(schema.is_empty());
}

#[test]
fn classify_event_schema_json_goes_to_schema_wikis() {
    let mut md: Vec<(String, String)> = Vec::new();
    let mut schema: Vec<String> = Vec::new();
    classify_event("mywiki", "/repo/schemas/concept.json", &mut md, &mut schema);
    assert!(md.is_empty());
    assert!(schema.contains(&"mywiki".to_string()));
}

#[test]
fn classify_event_non_json_schema_path_treated_as_md() {
    let mut md: Vec<(String, String)> = Vec::new();
    let mut schema: Vec<String> = Vec::new();
    classify_event("mywiki", "/repo/schemas/types.yaml", &mut md, &mut schema);
    assert_eq!(md.len(), 1);
    assert!(schema.is_empty());
}

#[test]
fn classify_event_multiple_events_same_wiki_deduplicated() {
    let mut md: Vec<(String, String)> = Vec::new();
    let mut schema: Vec<String> = Vec::new();
    let path = "/repo/wiki/foo.md";
    classify_event("mywiki", path, &mut md, &mut schema);
    classify_event("mywiki", path, &mut md, &mut schema);
    assert_eq!(md.len(), 1, "duplicate events for same path must be deduplicated");
}

#[test]
fn rebuilding_flag_skip_contract() {
    let flag = AtomicBool::new(false);
    let already_running = flag.swap(true, Ordering::AcqRel);
    assert!(!already_running, "first swap must return false — rebuild should proceed");
    let already_running = flag.swap(true, Ordering::AcqRel);
    assert!(already_running, "second swap must return true — rebuild should be skipped");
}

#[test]
fn schema_changes_take_priority_over_pages() {
    let md = vec![("w".to_string(), "/r/wiki/a.md".to_string())];
    assert!(matches!(watch_action(&md, &vec!["w".to_string()]), Some(WatchAction::RebuildIndex)));
    match watch_action(&md, &vec![]) {
        Some(WatchAction::IngestPages(p)) => assert_eq!(p, vec!["/r/wiki/a.md".to_string()]),
        other => panic!("unexpected {:?}", other),
    }
    assert!(watch_action(&vec![], &vec![]).is_none());
}

#[test]
fn schema_paths_need_the_schemas_dir_and_json() {
    assert!(is_schema_path("/r/schemas/x.json"));
    assert!(!is_schema_path("/r/schemas/x.yaml"));
    assert!(!is_schema_path("/r/other/x.json"));
}

#[test]
fn events_are_routed_to_their_wiki() {
    let dirs: Vec<WatchDir> = vec![
        ("one".to_string(), "/r1/wiki".to_string(), "/r1".to_string()),
        ("two".to_string(), "/r2/wiki".to_string(), "/r2".to_string()),
    ];
    assert_eq!(route_event("/r2/wiki/a.md", &dirs), Some(1));
    assert_eq!(route_event("/r1/schemas/t.json", &dirs), Some(0));
    assert_eq!(route_event("/r1/wiki/a.txt", &dirs), None);
    assert_eq!(route_event("/elsewhere/a.md", &dirs), None);
}

#[test]
fn ingest_notice_only_when_something_changed() {
    assert!(ingest_notice("w", &UpdateReport { updated: 0, deleted: 0 }).is_none());
    let n = ingest_notice("w", &UpdateReport { updated: 2, deleted: 1 }).unwrap();
    assert_eq!(n, "Wiki \"w\" updated: 3 page(s) changed.");
}

// ── sessions ──────────────────────────────────────────────────────────────

fn make_sessions() -> SessionMap {
    SessionMap::new()
}

fn insert_session(sessions: &mut SessionMap, id: &str) {
    sessions.insert(
        id.to_string(),
        AcpSession {
            id: id.to_string(),
            label: None,
            wiki: None,
            created_at: 0,
            active_run: Some("run-1".to_string()),
            cancelled: Arc::new(AtomicBool::new(false)),
        },
    );
}

#[test]
fn get_cancelled_unknown_session_returns_none() {
    let sessions = make_sessions();
    assert!(get_cancelled(&sessions, "ghost").is_none());
}

#[test]
fn get_cancelled_known_session_returns_flag() {
    let mut sessions = make_sessions();
    insert_session(&mut sessions, "s1");
    let flag = get_cancelled(&sessions, "s1").expect("flag must exist");
    assert!(!flag.load(Ordering::Relaxed), "flag starts false");
}

#[test]
fn get_cancelled_flag_is_shared_with_session() {
    let mut sessions = make_sessions();
    insert_session(&mut sessions, "s2");
    let flag = get_cancelled(&sessions, "s2").unwrap();
    sessions.get("s2").unwrap().cancelled.store(true, Ordering::Relaxed);
    assert!(flag.load(Ordering::Relaxed), "shared Arc — mutation visible");
}

#[test]
fn clear_active_run_unknown_session_is_noop() {
    let mut sessions = make_sessions();
    clear_active_run(&mut sessions, "nobody");
    assert!(sessions.is_empty());
}

#[test]
fn clear_active_run_clears_active_run_field() {
    let mut sessions = make_sessions();
    insert_session(&mut sessions, "s3");
    assert!(sessions.get("s3").unwrap().active_run.is_some());
    clear_active_run(&mut sessions, "s3");
    assert!(sessions.get("s3").unwrap().active_run.is_none());
}

#[test]
fn clear_active_run_does_not_remove_session() {
    let mut sessions = make_sessions();
    insert_session(&mut sessions, "s4");
    clear_active_run(&mut sessions, "s4");
    assert!(sessions.contains_key("s4"));
}
