use codexswitch_cli::details::{
    after_first_fetch, after_refresh, after_second_fetch, current_entry_flags, first_detail_step,
    DetailInputs, DetailOutcome, DetailStep, FetchResult, RefreshResult,
};
use codexswitch_cli::details::{detail_text, UsageAnswer, API_KEY_USAGE_MESSAGE};

fn inputs() -> DetailInputs {
    DetailInputs {
        is_api_key: false,
        show_usage: true,
        has_profile_error: false,
        error_is_missing_email_plan: false,
        has_access_token: true,
        has_account_id: true,
        has_email: true,
        has_plan: true,
        has_base_url_error: false,
        has_base_url: true,
    }
}

#[test]
fn ready_profiles_fetch_usage() {
    assert!(matches!(first_detail_step(&inputs()), DetailStep::Fetch));
}

#[test]
fn api_key_profiles_have_no_usage() {
    let mut i = inputs();
    i.is_api_key = true;
    assert!(matches!(first_detail_step(&i), DetailStep::Done(DetailOutcome::ApiKeyUnavailable, false)));
    i.show_usage = false;
    assert!(matches!(first_detail_step(&i), DetailStep::Done(DetailOutcome::Empty, false)));
}

#[test]
fn missing_access_shows_usage_unavailable() {
    let mut i = inputs();
    i.has_profile_error = true;
    i.has_access_token = false;
    assert!(matches!(first_detail_step(&i), DetailStep::Done(DetailOutcome::UsageUnavailable, false)));
    i.has_email = false;
    assert!(matches!(first_detail_step(&i), DetailStep::Done(DetailOutcome::ProfileFailed, false)));
}

#[test]
fn missing_email_and_plan_alone_still_fetches() {
    let mut i = inputs();
    i.has_profile_error = true;
    i.error_is_missing_email_plan = true;
    assert!(matches!(first_detail_step(&i), DetailStep::Fetch));
}

#[test]
fn base_url_problems_stop_before_fetching() {
    let mut i = inputs();
    i.has_base_url_error = true;
    assert!(matches!(first_detail_step(&i), DetailStep::Done(DetailOutcome::BaseUrlFailed, false)));
    let mut j = inputs();
    j.has_base_url = false;
    assert!(matches!(first_detail_step(&j), DetailStep::Done(DetailOutcome::Empty, false)));
}

#[test]
fn unauthorized_fetch_refreshes_then_fetches_again() {
    assert!(matches!(after_first_fetch(FetchResult::Unauthorized), DetailStep::Refresh));
    assert!(matches!(
        after_refresh(RefreshResult::Refreshed { has_access_token: true, has_account_id: false }, true),
        DetailStep::Fetch
    ));
    assert!(matches!(
        after_refresh(RefreshResult::Refreshed { has_access_token: false, has_account_id: true }, true),
        DetailStep::Done(DetailOutcome::RefreshIncomplete, true)
    ));
    assert!(matches!(after_refresh(RefreshResult::Failed, true), DetailStep::Done(DetailOutcome::RefreshFailed, false)));
    assert!(matches!(after_second_fetch(FetchResult::Unauthorized), DetailStep::Done(DetailOutcome::UsageUnauthorized, true)));
    assert!(matches!(after_second_fetch(FetchResult::Fetched), DetailStep::Done(DetailOutcome::Usage, true)));
    assert!(matches!(after_first_fetch(FetchResult::Failed), DetailStep::Done(DetailOutcome::UsageFailed, false)));
}

#[test]
fn unsaved_current_profile_always_shows_details() {
    assert_eq!(current_entry_flags(false, true, false, true), (true, true));
    assert_eq!(current_entry_flags(true, true, true, false), (false, true));
    assert_eq!(current_entry_flags(true, true, false, false), (false, false));
}

#[test]
fn detail_text_for_each_outcome() {
    let d = detail_text(DetailOutcome::Empty, false, None, None, UsageAnswer::NoRequest, None, false);
    assert!(d.lines.is_empty() && d.summary.is_none() && d.usage.is_none() && !d.refreshed);

    let d = detail_text(DetailOutcome::ApiKeyUnavailable, false, None, None, UsageAnswer::NoRequest, None, false);
    assert_eq!(d.lines, vec![format!("Error: {API_KEY_USAGE_MESSAGE}")]);
    assert_eq!(d.usage.unwrap().state, "unavailable");

    let d = detail_text(DetailOutcome::UsageUnavailable, false, None, None, UsageAnswer::NoRequest, None, false);
    assert_eq!(d.lines, vec!["Usage unavailable.".to_string(), "      Sign in again with `codex login` to see usage.".to_string()]);

    let d = detail_text(DetailOutcome::ProfileFailed, false, Some("bad auth\nmore"), None, UsageAnswer::NoRequest, None, false);
    assert_eq!(d.lines, vec!["Error: bad auth\nmore".to_string()]);
    assert_eq!(d.summary.as_deref(), Some("Error: bad auth"));
    let u = d.usage.unwrap();
    assert_eq!(u.state, "error");
    assert_eq!(u.detail.as_deref(), Some("more"));

    let d = detail_text(DetailOutcome::BaseUrlFailed, false, None, Some("no url"), UsageAnswer::NoRequest, None, false);
    assert_eq!(d.summary.as_deref(), Some("Usage error: no url"));

    let d = detail_text(
        DetailOutcome::Usage,
        true,
        None,
        None,
        UsageAnswer::Fetched(vec!["5h: 40% left".to_string()], vec![serde_json::from_str("{\"left_percent\": 40}").unwrap()]),
        None,
        false,
    );
    assert_eq!(d.lines, vec!["5h: 40% left".to_string()]);
    let u = d.usage.unwrap();
    assert_eq!(u.state, "ok");
    assert_eq!(u.buckets.len(), 1);
    assert_eq!(u.buckets[0]["left_percent"], 40);
    assert!(d.refreshed);

    let failed = || UsageAnswer::Failed {
        status_code: Some(401),
        message: "unauthorized (401)".to_string(),
        plain_message: "request failed\nunexpected status 401".to_string(),
    };
    let d = detail_text(DetailOutcome::UsageUnauthorized, true, None, None, failed(), None, false);
    assert_eq!(d.lines, vec!["Error: request failed (unexpected status 401)".to_string()]);
    assert_eq!(d.summary.as_deref(), Some("Auth error: unauthorized (401)"));
    assert_eq!(d.usage.unwrap().status_code, Some(401));
    let d = detail_text(DetailOutcome::UsageFailed, false, None, None, failed(), None, false);
    assert_eq!(d.summary.as_deref(), Some("Usage error: unauthorized (401)"));

    let d = detail_text(DetailOutcome::RefreshIncomplete, true, None, None, UsageAnswer::NoRequest, None, false);
    assert_eq!(d.lines, vec!["Error: The credentials do not identify a complete account.".to_string()]);
    let d = detail_text(DetailOutcome::RefreshFailed, false, None, None, UsageAnswer::NoRequest, Some("refresh denied"), false);
    assert_eq!(d.summary.as_deref(), Some("Auth error: refresh denied"));
}
