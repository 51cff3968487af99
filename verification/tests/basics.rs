use git_bulk_clean::config::is_valid_reflog_expire;
use git_bulk_clean::repo::{dedup_sorted, RepoKind};
use git_bulk_clean::report::{format_timestamp, sanitize_for_log};

#[test]
fn dedup_empty() {
    assert!(dedup_sorted(vec![vec![], vec![]]).is_empty());
}

#[test]
fn dedup_no_overlap() {
    let got = dedup_sorted(vec![
        vec!["/a/1".into(), "/a/2".into()],
        vec!["/b/3".into()],
    ]);
    assert_eq!(got, ["/a/1", "/a/2", "/b/3"]);
}

#[test]
fn dedup_full_overlap() {
    let got = dedup_sorted(vec![
        vec!["/x".into(), "/y".into()],
        vec!["/x".into(), "/y".into()],
    ]);
    assert_eq!(got, ["/x", "/y"]);
}

#[test]
fn dedup_partial_overlap() {
    let got = dedup_sorted(vec![
        vec!["/a".into(), "/b".into()],
        vec!["/b".into(), "/c".into()],
    ]);
    assert_eq!(got, ["/a", "/b", "/c"]);
}

#[test]
fn dedup_sorted_order() {
    let got = dedup_sorted(vec![vec!["/z".into(), "/a".into()], vec!["/m".into()]]);
    assert_eq!(got, ["/a", "/m", "/z"]);
}

#[test]
fn log_timestamp_format() {
    assert_eq!(format_timestamp(3661), "01:01:01");
}

#[test]
fn format_timestamp_zero_is_midnight() {
    assert_eq!(format_timestamp(0), "00:00:00");
}

#[test]
fn format_timestamp_noon() {
    assert_eq!(format_timestamp(12 * 3600), "12:00:00");
}

#[test]
fn format_timestamp_wraps_at_86400() {
    assert_eq!(format_timestamp(86400), "00:00:00");
    assert_eq!(format_timestamp(86400 + 3661), "01:01:01");
}

#[test]
fn reflog_expire_valid_values_accepted() {
    for v in [
        "never",
        "30.days.ago",
        "7.days.ago",
        "1.year.ago",
        "2024-01-01",
        "90 days ago",
    ] {
        assert!(is_valid_reflog_expire(v), "expected valid for {v:?}");
    }
}

#[test]
fn reflog_expire_dangerous_values_rejected() {
    // git parses these case-insensitively, so the guard must too
    for v in ["now", "all", "NOW", "All", " now "] {
        assert!(!is_valid_reflog_expire(v), "expected invalid for {v:?}");
    }
}

#[test]
fn reflog_expire_never_accepted_case_insensitively() {
    for v in ["never", "NEVER", "Never"] {
        assert!(is_valid_reflog_expire(v), "expected valid for {v:?}");
    }
}

#[test]
fn reflog_expire_invalid_chars_rejected() {
    assert!(!is_valid_reflog_expire("; rm -rf /"));
    assert!(!is_valid_reflog_expire("$(whoami)"));
    assert!(!is_valid_reflog_expire("1970-01-01T00:00:00Z")); // colons not allowed
}

#[test]
fn sanitize_log_str_passes_normal_paths() {
    assert_eq!(
        sanitize_for_log("/home/user/repos/project"),
        "/home/user/repos/project"
    );
}

#[test]
fn sanitize_log_str_replaces_newline() {
    assert_eq!(
        sanitize_for_log("path\nfake-log-entry"),
        "path?fake-log-entry"
    );
}

#[test]
fn sanitize_log_str_replaces_ansi_escape() {
    assert_eq!(sanitize_for_log("\x1b[31mred\x1b[0m"), "?[31mred?[0m");
}

#[test]
fn sanitize_log_str_replaces_carriage_return() {
    assert_eq!(sanitize_for_log("path\r\nwindows"), "path??windows");
}

#[test]
fn repo_kind_from_is_bare_maps_both_variants() {
    assert_eq!(RepoKind::from_is_bare(true), RepoKind::Bare);
    assert_eq!(RepoKind::from_is_bare(false), RepoKind::Normal);
}

#[test]
fn repo_kind_is_bare_and_label() {
    assert!(RepoKind::Bare.is_bare());
    assert!(!RepoKind::Normal.is_bare());
    assert_eq!(RepoKind::Bare.label(), "bare");
    assert_eq!(RepoKind::Normal.label(), "norm");
}
