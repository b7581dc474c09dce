use codexswitch_cli::error::ProfileError;
use codexswitch_cli::status::{
    error_summary, is_http_401_message, parse_usize, plain_error_lines, require_tty_with,
    split_lines, unavailable_parts, usage_workers, usage_concurrency, usage_message_parts, DEFAULT_USAGE_CONCURRENCY,
    MAX_USAGE_CONCURRENCY,
};

#[test]
fn usage_concurrency_defaults_and_clamps() {
    assert_eq!(usage_concurrency(None), DEFAULT_USAGE_CONCURRENCY);
    assert_eq!(usage_concurrency(Some("0")), DEFAULT_USAGE_CONCURRENCY);
    assert_eq!(usage_concurrency(Some("oops")), DEFAULT_USAGE_CONCURRENCY);
    assert_eq!(usage_concurrency(Some("3")), 3);
    assert_eq!(usage_concurrency(Some("999")), MAX_USAGE_CONCURRENCY);
}

#[test]
fn usage_concurrency_trims_and_accepts_a_plus() {
    assert_eq!(usage_concurrency(Some(" 7 ")), 7);
    assert_eq!(usage_concurrency(Some("+5")), 5);
    assert_eq!(usage_concurrency(Some("-5")), DEFAULT_USAGE_CONCURRENCY);
    assert_eq!(usage_concurrency(Some("128")), 128);
    assert_eq!(usage_concurrency(Some("1")), 1);
}

#[test]
fn parse_usize_matches_std() {
    for s in ["0", "42", "+42", "", "+", "4 2", "x1", "00012", "18446744073709551615", "18446744073709551616"] {
        assert_eq!(parse_usize(s), s.parse::<usize>().ok(), "input {s:?}");
    }
}

#[test]
fn split_lines_matches_std() {
    for s in ["", "a", "a\n", "a\r\nb", "\n", "a\n\nb\n", "x\r"] {
        let expected: Vec<String> = s.lines().map(str::to_string).collect();
        assert_eq!(split_lines(s), expected, "input {s:?}");
    }
}

#[test]
fn message_parts_split_summary_and_detail() {
    let (summary, detail) = usage_message_parts("  first \n\n second\n third  ");
    assert_eq!(summary, "first");
    assert_eq!(detail.as_deref(), Some("second\nthird"));
    let (summary, detail) = usage_message_parts("only");
    assert_eq!(summary, "only");
    assert!(detail.is_none());
    let (summary, detail) = usage_message_parts("");
    assert_eq!(summary, "");
    assert!(detail.is_none());
}

#[test]
fn error_summary_uses_the_first_line() {
    assert_eq!(error_summary("Usage error", "boom\ndetail"), "Usage error: boom");
}

#[test]
fn plain_error_lines_merges_unexpected_status_into_summary() {
    let lines = plain_error_lines(
        "deactivated_workspace\nunexpected status 402 Payment Required\nURL: http://localhost/backend-api/wham/usage",
        false,
    );

    assert_eq!(
        lines[0],
        "Error: deactivated_workspace (unexpected status 402 Payment Required)"
    );
    assert_eq!(lines[1], " URL: http://localhost/backend-api/wham/usage");
}

#[test]
fn plain_error_lines_without_status_line() {
    let lines = plain_error_lines("boom\nsecond\nthird", false);
    assert_eq!(lines, vec!["Error: boom", "second", " third"]);
    assert!(plain_error_lines("", false).is_empty());
}

#[test]
fn is_http_401_message_variants() {
    assert!(is_http_401_message("Error: Unauthorized (401)"));
    assert!(is_http_401_message("Token refresh failed (401)"));
    assert!(is_http_401_message("the server said UNAUTHORIZED"));
    assert!(!is_http_401_message("Error: Payment required (402)"));
}

#[test]
fn require_tty_with_variants() {
    assert!(require_tty_with(true, "load").is_ok());
    let err = require_tty_with(false, "load").unwrap_err();
    assert!(matches!(err, ProfileError::TtyRequired(ref a) if a == "load"));
    assert!(err.message().contains("requires a TTY"));
}

#[test]
fn unavailable_parts_indent_the_details() {
    let (summary, lines) = unavailable_parts("\n  missing token \n\n first detail\r\n  second  \n");
    assert_eq!(summary, "missing token");
    assert_eq!(lines, vec!["      first detail".to_string(), "      second".to_string()]);
    let (summary, lines) = unavailable_parts("only one line");
    assert_eq!(summary, "only one line");
    assert!(lines.is_empty());
    let (summary, lines) = unavailable_parts("");
    assert_eq!(summary, "");
    assert!(lines.is_empty());
}

#[test]
fn usage_workers_follow_the_entry_count() {
    assert_eq!(usage_workers(true, 10, 4), 4);
    assert_eq!(usage_workers(true, 3, 32), 3);
    assert_eq!(usage_workers(true, 2, 32), 1);
    assert_eq!(usage_workers(false, 10, 4), 1);
}
