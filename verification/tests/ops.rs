use chrono::Datelike;
use llm_wiki::ops_logs::{latest_log_index, logging_plan, logs_path, tail_lines, LogRotation};
use llm_wiki::ops_stats::{
    center_output, merge_buckets, staleness_buckets, structural_note_too_large, StalenessBuckets,
    StatsDetail,
};
use llm_wiki::pathutil::strip_verbatim_prefix;

// ── pathutil ──────────────────────────────────────────────────────────────

#[test]
fn strips_verbatim_disk_prefix() {
    let p = String::from(r"\\?\C:\Users\me\wikis\ddlc\wiki\log.md");
    assert_eq!(strip_verbatim_prefix(p), String::from(r"C:\Users\me\wikis\ddlc\wiki\log.md"));
}

#[test]
fn strips_verbatim_unc_prefix() {
    let p = String::from(r"\\?\UNC\server\share\wiki");
    assert_eq!(strip_verbatim_prefix(p), String::from(r"\\server\share\wiki"));
}

#[test]
fn leaves_plain_windows_path_unchanged() {
    let p = String::from(r"C:\Users\me\wiki");
    assert_eq!(strip_verbatim_prefix(p.clone()), p);
}

#[test]
fn leaves_posix_path_unchanged() {
    let p = String::from("/home/me/wikis/ddlc/wiki/log.md");
    assert_eq!(strip_verbatim_prefix(p.clone()), p);
}

// ── stats ─────────────────────────────────────────────────────────────────

#[test]
fn staleness_merge_fruits_accumulates_all_buckets() {
    let fruits = vec![
        StalenessBuckets { fresh: 3, stale_7d: 2, stale_30d: 1 },
        StalenessBuckets { fresh: 1, stale_7d: 0, stale_30d: 4 },
    ];
    let merged = merge_buckets(&fruits);
    assert_eq!(merged.fresh, 4);
    assert_eq!(merged.stale_7d, 2);
    assert_eq!(merged.stale_30d, 5);
}

#[test]
fn staleness_merge_fruits_empty_input_yields_zeros() {
    let merged = merge_buckets(&vec![]);
    assert_eq!(merged.fresh, 0);
    assert_eq!(merged.stale_7d, 0);
    assert_eq!(merged.stale_30d, 0);
}

#[test]
fn stats_detail_default_is_summary() {
    assert_eq!(StatsDetail::default(), StatsDetail::Summary);
}

/// Days from the common era of a date, as `chrono` counts them.
fn ce_days(y: i32, m: u32, d: u32) -> i32 {
    chrono::NaiveDate::from_ymd_opt(y, m, d).unwrap().num_days_from_ce()
}

#[test]
fn staleness_buckets_split_by_age() {
    let seven = ce_days(2026, 8, 14);
    let thirty = ce_days(2026, 7, 22);
    let dates = vec![
        Some("2026-08-20".to_string()),
        Some("2026-08-14".to_string()),
        Some("2026-08-01".to_string()),
        Some("2026-07-01".to_string()),
        Some("not a date".to_string()),
        None,
    ];
    let b = staleness_buckets(&dates, seven, thirty);
    assert_eq!((b.fresh, b.stale_7d, b.stale_30d), (2, 1, 3));
    assert_eq!(b.fresh + b.stale_7d + b.stale_30d, dates.len());
}

#[test]
fn center_output_keeps_list_only_in_full_detail() {
    let center = vec!["a".to_string(), "b".to_string()];
    let (full, n) = center_output(center.clone(), StatsDetail::Full);
    assert_eq!(full, center);
    assert_eq!(n, None);
    let (summary, count) = center_output(center, StatsDetail::Summary);
    assert!(summary.is_empty());
    assert_eq!(count, Some(2));
}

#[test]
fn structural_note_names_the_limit() {
    let note = structural_note_too_large(5000, 2000);
    assert!(note.contains("5000"), "{note}");
    assert!(note.contains("2000"), "{note}");
}

// ── logs ──────────────────────────────────────────────────────────────────

#[test]
fn logs_path_is_sibling_logs_dir() {
    let p = logs_path("/state/config.toml");
    assert_eq!(p, "/state/logs");
}

#[test]
fn logs_tail_returns_last_n_lines() {
    let content = (1..=10).map(|i| format!("line {i}")).collect::<Vec<_>>().join("\n");
    assert_eq!(tail_lines(&content, 3), "line 8\nline 9\nline 10");
    assert_eq!(tail_lines("one\ntwo", 5), "one\ntwo");
    assert_eq!(tail_lines("", 2), "");
}

#[test]
fn latest_log_is_the_greatest_name() {
    let names = vec!["2026-08-19.log".to_string(), "2026-08-21.log".to_string(), "2026-08-20.log".to_string()];
    assert_eq!(latest_log_index(&names), Some(1));
    assert_eq!(latest_log_index(&vec![]), None);
}

#[test]
fn logging_plan_follows_configuration() {
    let cli = logging_plan(false, "/var/log/wiki", "json", "hourly", 3);
    assert!(!cli.json);
    assert!(cli.file_dir.is_none());
    let serve = logging_plan(true, "/var/log/wiki", "json", "hourly", 3);
    assert!(serve.json);
    assert_eq!(serve.file_dir.as_deref(), Some("/var/log/wiki"));
    assert_eq!(serve.rotation, LogRotation::Hourly);
    assert_eq!(serve.max_files, Some(3));
    let plain = logging_plan(true, "", "text", "weekly", 0);
    assert!(!plain.json && plain.file_dir.is_none());
    assert_eq!(plain.rotation, LogRotation::Daily);
    assert_eq!(plain.max_files, None);
}
