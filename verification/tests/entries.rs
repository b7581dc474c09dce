use codexswitch_cli::entries::{
    profile_email_plan, push_separator, render_entries, status_profile_json, status_usage_from_message,
    make_error, status_all_lines, unavailable_usage, Entry, RenderCtx, StatusUsage,
};
use codexswitch_cli::details::DetailText;
use codexswitch_cli::entries::{current_entry, saved_entry, UNSAVED_WARNING};
use codexswitch_cli::identity::TokenSummary;
use codexswitch_cli::index::{ProfileIndexEntry, ProfilesIndex};
use codexswitch_cli::labels::Labels;
use codexswitch_cli::managed_files::managed_files_for_save;
use codexswitch_cli::store::TokensMap;
use codexswitch_cli::strmap::StrMap;
use codexswitch_cli::ui::strip_ansi;

fn entry(id: &str, display: &str, details: &[&str], always: bool) -> Entry {
    Entry {
        id: Some(id.to_string()),
        label: None,
        email: Some(format!("{id}@example.com")),
        plan: Some("team".to_string()),
        is_api_key: false,
        is_saved: true,
        managed_files: managed_files_for_save(false),
        display: display.to_string(),
        details: details.iter().map(|s| s.to_string()).collect(),
        warnings: Vec::new(),
        usage: None,
        error_summary: None,
        always_show_details: always,
        is_current: false,
    }
}

fn ctx(show_usage: bool, show_id: bool, use_color: bool) -> RenderCtx {
    RenderCtx { show_usage, show_current_marker: false, show_id, use_color, plain: false }
}

#[test]
fn render_helpers() {
    let e = entry("alpha@example.com-team", "Display", &["detail"], true);
    let lines = render_entries(&vec![e], &ctx(false, true, false), true);
    assert!(!lines.is_empty());
    assert_eq!(lines[0], "Display [id: alpha@example.com-team] [files: auth.json]");
    assert_eq!(lines[1], "");
    assert_eq!(lines[2], " detail");
    let mut v = vec!["a".to_string()];
    push_separator(&mut v, false, true);
    assert_eq!(v, vec!["a", ""]);
    let mut plain = vec!["a".to_string()];
    push_separator(&mut plain, true, false);
    assert_eq!(plain, vec!["a"]);
}

#[test]
fn render_entries_preserves_ansi_display_in_color_mode() {
    colored::control::set_override(true);
    let e = entry("alpha@example.com-team", "\u{1b}[32malpha@example.com\u{1b}[0m", &[], false);
    let lines = render_entries(&vec![e], &ctx(false, false, true), true);
    colored::control::unset_override();

    assert!(!lines.is_empty());
    assert!(lines[0].contains("\u{1b}[32m"));
    assert_eq!(strip_ansi(&lines[0]), "alpha@example.com [files: auth.json]");
}

#[test]
fn render_entries_status_all_has_extra_gap_between_profiles() {
    let entries = vec![
        entry("one", "One", &["5 hour: 10% left"], true),
        entry("two", "Two", &["5 hour: 20% left"], true),
    ];
    let lines = render_entries(&entries, &ctx(true, false, false), true);
    let first_profile_last_line = 2;
    assert_eq!(lines[first_profile_last_line + 1], "");
    assert_eq!(lines[first_profile_last_line + 2], "");
}

#[test]
fn compact_entries_show_their_error_on_the_header() {
    let mut e = entry("one", "One", &["hidden"], false);
    e.error_summary = Some("Error: bad".to_string());
    let lines = render_entries(&vec![e], &ctx(false, false, false), false);
    assert_eq!(lines, vec!["One [files: auth.json]  Error: bad"]);
}

#[test]
fn multi_line_details_are_indented_once() {
    let e = entry("one", "One", &["first\n\nsecond", ""], true);
    let lines = render_entries(&vec![e], &ctx(false, false, false), false);
    assert_eq!(lines, vec!["One [files: auth.json]", "", " first", "", "second", ""]);
}

#[test]
fn status_json_moves_usage_error_into_error() {
    let mut e = entry("one", "One", &[], false);
    e.usage = Some(StatusUsage {
        state: "error".to_string(),
        buckets: Vec::new(),
        status_code: Some(402),
        summary: Some("unexpected status 402: {\"detail\":\"x\"}".to_string()),
        detail: Some("more".to_string()),
    });
    let json = status_profile_json(e);
    let usage = json.usage.unwrap();
    assert_eq!(usage.state, "error");
    assert!(usage.summary.is_none() && usage.status_code.is_none() && usage.detail.is_none());
    let err = json.error.unwrap();
    assert_eq!(err.summary.message, "unexpected status 402");
    assert!(err.summary.response.is_some());
    assert_eq!(err.status_code, Some(402));
    assert_eq!(err.detail.as_deref(), Some("more"));
}

#[test]
fn status_json_prefers_the_entry_summary() {
    let mut e = entry("one", "One", &[], false);
    e.error_summary = Some("Auth error: expired".to_string());
    e.usage = Some(StatusUsage {
        state: "error".to_string(),
        buckets: Vec::new(),
        status_code: None,
        summary: Some("ignored".to_string()),
        detail: None,
    });
    let err = status_profile_json(e).error.unwrap();
    assert_eq!(err.summary.message, "Auth error: expired");

    let mut ok = entry("two", "Two", &[], false);
    ok.usage = Some(StatusUsage { state: "ok".to_string(), buckets: Vec::new(), status_code: None, summary: None, detail: None });
    let json = status_profile_json(ok);
    assert!(json.error.is_none());
    assert_eq!(json.usage.unwrap().state, "ok");
}

#[test]
fn email_and_plan_fall_back_to_the_index() {
    let mut fallback = codexswitch_cli::index::ProfileIndexEntry::default();
    fallback.email = Some("idx@example.com".to_string());
    let (email, plan) = profile_email_plan(None, Some(&fallback));
    assert_eq!(email.as_deref(), Some("idx@example.com"));
    assert!(plan.is_none());
    let (email, plan) = profile_email_plan(None, None);
    assert!(email.is_none() && plan.is_none());
}

#[test]
fn usage_states_are_summarised_from_messages() {
    let u = status_usage_from_message("error", Some(500), "server failed\n detail one \n\ndetail two");
    assert_eq!(u.state, "error");
    assert_eq!(u.status_code, Some(500));
    assert_eq!(u.summary.as_deref(), Some("server failed"));
    assert_eq!(u.detail.as_deref(), Some("detail one\ndetail two"));
    let u = unavailable_usage("no access token");
    assert_eq!(u.state, "unavailable");
    assert_eq!(u.status_code, None);
    assert_eq!(u.summary.as_deref(), Some("no access token"));
    assert_eq!(u.detail, None);
}

#[test]
fn make_error_takes_email_and_plan_from_the_index() {
    let mut fallback = codexswitch_cli::index::ProfileIndexEntry::default();
    fallback.email = Some("x@ex.com".to_string());
    fallback.plan = Some("pro".to_string());
    fallback.is_api_key = true;
    let e = make_error(
        Some("id-1".to_string()),
        Some("work".to_string()),
        Some(&fallback),
        vec!["auth.json".to_string()],
        "shown".to_string(),
        "file missing\nmore",
        false,
    );
    assert_eq!(e.id.as_deref(), Some("id-1"));
    assert_eq!(e.label.as_deref(), Some("work"));
    assert_eq!(e.email.as_deref(), Some("x@ex.com"));
    assert_eq!(e.plan.as_deref(), Some("pro"));
    assert!(e.is_api_key);
    assert!(e.is_saved);
    assert_eq!(e.display, "shown");
    assert_eq!(e.details, vec!["Error: file missing\nmore".to_string()]);
    assert_eq!(e.error_summary.as_deref(), Some("Error: file missing"));
    assert!(e.usage.is_none());
    assert!(!e.is_current);
    let e = make_error(None, None, None, Vec::new(), "d".to_string(), "bad", true);
    assert!(!e.is_saved);
    assert_eq!(e.email, None);
    assert!(!e.is_api_key);
    assert!(e.is_current);
}

#[test]
fn status_all_lines_lay_out_the_error_current_and_others() {
    let c = RenderCtx { show_usage: true, show_current_marker: true, show_id: false, use_color: false, plain: false };
    let mut current = entry("cur", "Current", &["usage"], false);
    current.is_current = true;
    let others = vec![entry("a", "A", &["ua"], false), entry("b", "B", &[], false)];
    let lines = status_all_lines(Some("bad url"), Some(&current), &others, &c).unwrap();
    assert_eq!(
        lines,
        vec![
            "Error: bad url",
            "",
            "Current <- active [files: auth.json]",
            "",
            " usage",
            "",
            "",
            "A [files: auth.json]",
            "",
            " ua",
            "",
            "",
            "B [files: auth.json]",
            "",
        ]
    );
    assert!(status_all_lines(None, None, &Vec::new(), &c).is_none());
    let only = status_all_lines(None, None, &vec![entry("a", "A", &[], false)], &c).unwrap();
    assert_eq!(only, vec!["A [files: auth.json]", ""]);
}

#[test]
fn colored_headers_strip_to_the_plain_lines() {
    let mut e = entry("alpha", "\u{1b}[32malpha@example.com\u{1b}[0m", &[], false);
    e.is_current = true;
    let colored = RenderCtx { show_usage: false, show_current_marker: true, show_id: true, use_color: true, plain: false };
    let plain = RenderCtx { use_color: false, ..colored };
    let lines = render_entries(&vec![e], &colored, true);
    let e2 = {
        let mut x = entry("alpha", "\u{1b}[32malpha@example.com\u{1b}[0m", &[], false);
        x.is_current = true;
        x
    };
    let plain_lines = render_entries(&vec![e2], &plain, true);
    assert_eq!(lines.len(), plain_lines.len());
    assert!(lines[0].contains("\u{1b}[32m"));
    assert_eq!(strip_ansi(&lines[0]), strip_ansi(&plain_lines[0]));
    assert_eq!(strip_ansi(&lines[0]), "alpha@example.com [id: alpha] <- active [files: auth.json]");
}

fn summary_tokens(email: &str) -> TokenSummary {
    TokenSummary {
        email: Some(email.to_string()),
        plan: Some("free".to_string()),
        account_id: Some("acct".to_string()),
        is_api_key: false,
        identity: None,
    }
}

fn details(lines: &[&str], refreshed: bool) -> DetailText {
    DetailText { lines: lines.iter().map(|s| s.to_string()).collect(), summary: None, usage: None, refreshed }
}

#[test]
fn active_entry_is_saved_or_warned_unsaved() {
    let mut labels = Labels::new();
    labels.insert("work".to_string(), "p1".to_string());
    let mut index = ProfilesIndex::default();
    let mut entry = ProfileIndexEntry::default();
    entry.managed_files = vec!["auth.json".to_string(), "config.toml".to_string()];
    index.profiles.insert("p1".to_string(), entry);

    let e = current_entry(
        Ok(summary_tokens("a@ex.com")), Some("p1"), &labels, &index, true, false,
        "shown".to_string(), details(&["usage"], false), None, true, true, false,
    );
    assert_eq!(e.id.as_deref(), Some("p1"));
    assert!(e.is_saved && e.is_current);
    assert_eq!(e.label.as_deref(), Some("work"));
    assert_eq!(e.managed_files, vec!["auth.json", "config.toml"]);
    assert_eq!(e.details, vec!["usage"]);
    assert!(e.warnings.is_empty());
    assert!(e.always_show_details);

    let e = current_entry(
        Ok(summary_tokens("b@ex.com")), None, &labels, &index, false, true,
        "shown".to_string(), details(&["usage"], false), None, true, false, true,
    );
    assert_eq!(e.id, None);
    assert!(!e.is_saved);
    assert_eq!(e.managed_files, vec!["auth.json", "config.toml"]);
    assert_eq!(e.warnings, vec![UNSAVED_WARNING]);
    assert_eq!(e.details, vec!["usage".to_string(), UNSAVED_WARNING.to_string()]);
    assert!(e.always_show_details);

    let e = current_entry(
        Ok(summary_tokens("a@ex.com")), Some("p1"), &labels, &index, true, false,
        "shown".to_string(), details(&["usage"], true), Some("copy failed".to_string()), true, false, true,
    );
    assert_eq!(e.details, vec!["Error: copy failed"]);
    assert_eq!(e.error_summary.as_deref(), Some("Error: copy failed"));

    let e = current_entry(
        Err("unreadable".to_string()), None, &labels, &index, false, false,
        "shown".to_string(), details(&[], false), None, false, false, true,
    );
    assert!(!e.is_saved && e.is_current);
    assert_eq!(e.details, vec!["Error: unreadable"]);
    assert_eq!(e.managed_files, vec!["auth.json"]);
}

#[test]
fn saved_entries_show_their_credentials_or_the_reason() {
    let labels = Labels::new();
    let mut tokens: TokensMap = StrMap::new();
    tokens.insert("ok".to_string(), Ok(summary_tokens("a@ex.com")));
    tokens.insert("bad".to_string(), Err("unreadable".to_string()));
    let index = ProfilesIndex::default();

    let e = saved_entry("ok", &labels, &tokens, &index, false, "shown".to_string(), details(&["u"], false), true, false);
    assert_eq!(e.email.as_deref(), Some("a@ex.com"));
    assert_eq!(e.details, vec!["u"]);
    assert!(e.always_show_details && e.is_saved);

    let e = saved_entry("bad", &labels, &tokens, &index, false, "shown".to_string(), details(&[], false), false, true);
    assert_eq!(e.label.as_deref(), Some("bad"));
    assert_eq!(e.details, vec!["Error: unreadable"]);
    assert!(e.is_current);

    let e = saved_entry("gone", &labels, &tokens, &index, true, "shown".to_string(), details(&[], false), false, false);
    assert_eq!(e.details, vec!["Error: file missing"]);
    assert_eq!(e.managed_files, vec!["auth.json", "config.toml"]);
}
