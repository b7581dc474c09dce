//! What is shown under a profile when usage is asked for: the decisions
//! around fetching usage, refreshing expired credentials and fetching again.
use vstd::prelude::*;

verus! {

/// What the details of a profile end up as.
#[derive(Debug)]
pub enum DetailOutcome {
    /// Nothing to show.
    Empty,
    /// An API-key profile has no usage to show.
    ApiKeyUnavailable,
    /// Usage is unavailable: the credentials lack an access token or account.
    UsageUnavailable,
    /// The credentials are unusable; the profile error is shown.
    ProfileFailed,
    /// The usage service address could not be read; its error is shown.
    BaseUrlFailed,
    /// Usage was fetched.
    Usage,
    /// The service refused the credentials even after a refresh.
    UsageUnauthorized,
    /// Fetching usage failed otherwise.
    UsageFailed,
    /// The refreshed credentials lack an access token or account.
    RefreshIncomplete,
    /// Refreshing the credentials failed.
    RefreshFailed,
}

/// The next step of showing a profile's details.
#[derive(Debug)]
pub enum DetailStep {
    /// Stop: what the details are, and whether the credentials were refreshed.
    Done(DetailOutcome, bool),
    /// Fetch usage (the first or the second time).
    Fetch,
    /// Refresh the credentials.
    Refresh,
}

/// What is known of a profile before any request.
#[derive(Debug)]
pub struct DetailInputs {
    pub is_api_key: bool,
    pub show_usage: bool,
    /// The credentials have a problem (the profile error).
    pub has_profile_error: bool,
    /// That problem is only that the email and plan are missing.
    pub error_is_missing_email_plan: bool,
    pub has_access_token: bool,
    pub has_account_id: bool,
    pub has_email: bool,
    pub has_plan: bool,
    pub has_base_url_error: bool,
    pub has_base_url: bool,
}

/// The first step for a profile: API-key profiles have no usage; a profile
/// error stops (as "usage unavailable" when only the access is missing and
/// the account is known, and not at all when only the email and plan are
/// missing); without usage asked for there is nothing more; a bad service
/// address stops; without an address, access token or account there is
/// nothing to fetch; otherwise usage is fetched.
pub open spec fn first_step_of(i: DetailInputs) -> DetailStep {
    let missing_access = !i.has_access_token || !i.has_account_id;
    let missing_identity_only = i.error_is_missing_email_plan && !missing_access;
    if i.is_api_key {
        DetailStep::Done(
            if i.show_usage {
                DetailOutcome::ApiKeyUnavailable
            } else {
                DetailOutcome::Empty
            },
            false,
        )
    } else if i.has_profile_error && !missing_identity_only {
        if i.show_usage && missing_access && i.has_email && i.has_plan {
            DetailStep::Done(DetailOutcome::UsageUnavailable, false)
        } else {
            DetailStep::Done(DetailOutcome::ProfileFailed, false)
        }
    } else if !i.show_usage {
        DetailStep::Done(DetailOutcome::Empty, false)
    } else if i.has_base_url_error {
        DetailStep::Done(DetailOutcome::BaseUrlFailed, false)
    } else if !i.has_base_url || !i.has_access_token || !i.has_account_id {
        DetailStep::Done(DetailOutcome::Empty, false)
    } else {
        DetailStep::Fetch
    }
}

/// The first step for a profile (see `first_step_of`).
pub fn first_detail_step(i: &DetailInputs) -> (s: DetailStep)
    ensures
        s == first_step_of(*i),
{
    let missing_access = !i.has_access_token || !i.has_account_id;
    let missing_identity_only = i.error_is_missing_email_plan && !missing_access;
    if i.is_api_key {
        if i.show_usage {
            DetailStep::Done(DetailOutcome::ApiKeyUnavailable, false)
        } else {
            DetailStep::Done(DetailOutcome::Empty, false)
        }
    } else if i.has_profile_error && !missing_identity_only {
        if i.show_usage && missing_access && i.has_email && i.has_plan {
            DetailStep::Done(DetailOutcome::UsageUnavailable, false)
        } else {
            DetailStep::Done(DetailOutcome::ProfileFailed, false)
        }
    } else if !i.show_usage {
        DetailStep::Done(DetailOutcome::Empty, false)
    } else if i.has_base_url_error {
        DetailStep::Done(DetailOutcome::BaseUrlFailed, false)
    } else if !i.has_base_url || !i.has_access_token || !i.has_account_id {
        DetailStep::Done(DetailOutcome::Empty, false)
    } else {
        DetailStep::Fetch
    }
}

/// How a usage request ended.
#[derive(Debug)]
pub enum FetchResult {
    Fetched,
    /// The service answered 401.
    Unauthorized,
    Failed,
}

/// The step after the first usage request: a 401 asks for a refresh.
pub fn after_first_fetch(r: FetchResult) -> (s: DetailStep)
    ensures
        s == match r {
            FetchResult::Fetched => DetailStep::Done(DetailOutcome::Usage, false),
            FetchResult::Unauthorized => DetailStep::Refresh,
            FetchResult::Failed => DetailStep::Done(DetailOutcome::UsageFailed, false),
        },
{
    match r {
        FetchResult::Fetched => DetailStep::Done(DetailOutcome::Usage, false),
        FetchResult::Unauthorized => DetailStep::Refresh,
        FetchResult::Failed => DetailStep::Done(DetailOutcome::UsageFailed, false),
    }
}

/// How a refresh of the credentials ended: when it worked, whether the
/// refreshed credentials have an access token and an account id.
#[derive(Debug)]
pub enum RefreshResult {
    Refreshed { has_access_token: bool, has_account_id: bool },
    Failed,
}

/// The step after a refresh: usage is fetched again when the refreshed
/// credentials (or the account they had) allow it. `had_account_id` tells
/// whether the credentials had an account id before the refresh.
pub fn after_refresh(r: RefreshResult, had_account_id: bool) -> (s: DetailStep)
    ensures
        s == match r {
            RefreshResult::Refreshed { has_access_token, has_account_id } => if has_access_token && (
            has_account_id || had_account_id) {
                DetailStep::Fetch
            } else {
                DetailStep::Done(DetailOutcome::RefreshIncomplete, true)
            },
            RefreshResult::Failed => DetailStep::Done(DetailOutcome::RefreshFailed, false),
        },
{
    match r {
        RefreshResult::Refreshed { has_access_token, has_account_id } => {
            if has_access_token && (has_account_id || had_account_id) {
                DetailStep::Fetch
            } else {
                DetailStep::Done(DetailOutcome::RefreshIncomplete, true)
            }
        },
        RefreshResult::Failed => DetailStep::Done(DetailOutcome::RefreshFailed, false),
    }
}

/// The outcome of the usage request made after a refresh.
pub fn after_second_fetch(r: FetchResult) -> (s: DetailStep)
    ensures
        s == match r {
            FetchResult::Fetched => DetailStep::Done(DetailOutcome::Usage, true),
            FetchResult::Unauthorized => DetailStep::Done(DetailOutcome::UsageUnauthorized, true),
            FetchResult::Failed => DetailStep::Done(DetailOutcome::UsageFailed, true),
        },
{
    match r {
        FetchResult::Fetched => DetailStep::Done(DetailOutcome::Usage, true),
        FetchResult::Unauthorized => DetailStep::Done(DetailOutcome::UsageUnauthorized, true),
        FetchResult::Failed => DetailStep::Done(DetailOutcome::UsageFailed, true),
    }
}

/// Whether the profile with these details counts as active but unsaved,
/// and whether its details always show: the active profile is unsaved when
/// no saved profile holds it and its credentials could be saved; its
/// details always show when it is unsaved, or when its plan is free and
/// usage is not shown.
pub fn current_entry_flags(saved_id_known: bool, can_save: bool, plan_is_free: bool, show_usage: bool) -> (r: (
    bool,
    bool,
))
    ensures
        r.0 == (!saved_id_known && can_save),
        r.1 == (r.0 || (plan_is_free && !show_usage)),
{
    let is_unsaved = !saved_id_known && can_save;
    (is_unsaved, is_unsaved || (plan_is_free && !show_usage))
}

} // verus!

verus! {

/// What is shown for an API-key profile when usage is asked for.
pub const API_KEY_USAGE_MESSAGE: &'static str =
    "Usage is unavailable for API key profiles.\nUsage windows are shown for ChatGPT accounts only.";

/// What is shown when the credentials lack the access that usage needs.
pub const USAGE_UNAVAILABLE_MESSAGE: &'static str = "Usage unavailable.\nSign in again with `codex login` to see usage.";

/// What a usage request answered, as far as the details need it.
#[derive(Debug)]
pub enum UsageAnswer {
    /// No request was made.
    NoRequest,
    /// The lines that show the usage windows, and the windows themselves
    /// as the service's JSON.
    Fetched(Vec<String>, Vec<serde_json::Value>),
    /// The request failed: its HTTP status, and its message (full and plain).
    Failed { status_code: Option<u16>, message: String, plain_message: String },
}

/// The details of a profile as shown: the lines under it, its error
/// summary, its usage state, and whether its credentials were refreshed.
#[derive(Debug)]
pub struct DetailText {
    pub lines: Vec<String>,
    pub summary: Option<String>,
    pub usage: Option<crate::entries::StatusUsage>,
    pub refreshed: bool,
}

/// `d` shows the error `message` under the heading `label`: one line
/// `Error: <message>`, the summary `<label>: <summary>`, usage in the
/// `error` state summarised from the message.
pub open spec fn shows_error(d: DetailText, label: Seq<char>, message: Seq<char>) -> bool {
    &&& crate::text::views(d.lines@) == seq!["Error: "@ + message]
    &&& d.summary matches Some(s) && s@ == crate::status::summary_line(label, message)
    &&& d.usage matches Some(u) && u.state@ == "error"@ && u.status_code is None && (u.summary matches Some(
        x,
    ) && x@ == crate::status::message_parts(message).0) && crate::identity::opt_view(u.detail)
        == crate::status::message_parts(message).1
}

/// `u` is the `unavailable` usage state summarised from `message`.
pub open spec fn unavailable_state(u: Option<crate::entries::StatusUsage>, message: Seq<char>) -> bool {
    &&& u matches Some(x) && x.state@ == "unavailable"@ && x.status_code is None
    &&& u matches Some(x) && (x.summary matches Some(m) && m@ == crate::status::message_parts(message).0)
    &&& u matches Some(x) && crate::identity::opt_view(x.detail) == crate::status::message_parts(message).1
}

/// `u` is the `ok` usage state.
pub open spec fn ok_state(u: Option<crate::entries::StatusUsage>) -> bool {
    u matches Some(x) && x.state@ == "ok"@ && x.status_code is None && x.summary is None && x.detail is None
}

/// The usage windows of an answer: those fetched, else none.
pub open spec fn answer_buckets(a: UsageAnswer) -> Seq<serde_json::Value> {
    match a {
        UsageAnswer::Fetched(_, b) => b@,
        _ => Seq::empty(),
    }
}

/// The characters of an optional string slice, empty when there is none.
pub open spec fn text_or_empty(s: Option<&str>) -> Seq<char> {
    match s {
        Some(x) => x@,
        None => Seq::empty(),
    }
}

fn error_text(label: &str, message: &str, refreshed: bool) -> (d: DetailText)
    ensures
        shows_error(d, label@, message@),
        d.refreshed == refreshed,
{
    let mut line = String::from_str("Error: ");
    line.append(message);
    let mut lines: Vec<String> = Vec::new();
    lines.push(line);
    proof {
        assert(crate::text::views(lines@) =~= seq!["Error: "@ + message@]);
    }
    DetailText {
        lines,
        summary: Some(crate::status::error_summary(label, message)),
        usage: Some(crate::entries::status_usage_from_message("error", None, message)),
        refreshed,
    }
}

fn str_or_empty(s: Option<&str>) -> (r: &str)
    ensures
        r@ == text_or_empty(s),
{
    match s {
        Some(x) => x,
        None => {
            proof {
                reveal_strlit("");
            }
            ""
        },
    }
}

/// The details shown for each outcome of the detail steps: nothing; the
/// API-key or "usage unavailable" notice; the profile, service address,
/// refresh or incomplete-account error; the fetched usage lines; or the
/// failed request's lines under `Auth error` (refused even after a refresh)
/// or `Usage error`.
pub fn detail_text(
    outcome: DetailOutcome,
    refreshed: bool,
    problem: Option<&str>,
    base_url_error: Option<&str>,
    answer: UsageAnswer,
    refresh_error: Option<&str>,
    use_color: bool,
) -> (d: DetailText)
    ensures
        d.refreshed == refreshed,
        match outcome {
            DetailOutcome::Empty => d.lines@.len() == 0 && d.summary is None && d.usage is None,
            DetailOutcome::ApiKeyUnavailable => crate::text::views(d.lines@) == seq!["Error: "@ + API_KEY_USAGE_MESSAGE@]
                && d.summary is None && unavailable_state(d.usage, API_KEY_USAGE_MESSAGE@),
            DetailOutcome::UsageUnavailable => crate::text::views(d.lines@) == seq![
                crate::status::message_parts(USAGE_UNAVAILABLE_MESSAGE@).0,
            ] + crate::status::indented_details(USAGE_UNAVAILABLE_MESSAGE@) && d.summary is None && unavailable_state(
                d.usage,
                USAGE_UNAVAILABLE_MESSAGE@,
            ),
            DetailOutcome::ProfileFailed => shows_error(d, "Error"@, text_or_empty(problem)),
            DetailOutcome::BaseUrlFailed => shows_error(d, "Usage error"@, text_or_empty(base_url_error)),
            DetailOutcome::Usage => d.summary is None && ok_state(d.usage) && d.usage->0.buckets@ == answer_buckets(
                answer,
            ) && match answer {
                UsageAnswer::Fetched(ls, _) => crate::text::views(d.lines@) == crate::text::views(ls@),
                _ => d.lines@.len() == 0,
            },
            DetailOutcome::UsageUnauthorized | DetailOutcome::UsageFailed => match answer {
                UsageAnswer::Failed { status_code, message, plain_message } => {
                    let label = if outcome is UsageUnauthorized {
                        "Auth error"@
                    } else {
                        "Usage error"@
                    };
                    &&& d.lines@.len() == crate::status::error_lines(plain_message@).len()
                    &&& !use_color ==> crate::text::views(d.lines@) == crate::status::error_lines(plain_message@)
                    &&& d.summary matches Some(s) && s@ == crate::status::summary_line(label, message@)
                    &&& d.usage matches Some(u) && u.state@ == "error"@ && u.status_code == status_code
                        && (u.summary matches Some(x) && x@ == crate::status::message_parts(message@).0)
                        && crate::identity::opt_view(u.detail) == crate::status::message_parts(message@).1
                },
                _ => d.lines@.len() == 0 && d.summary is None && d.usage is None,
            },
            DetailOutcome::RefreshIncomplete => shows_error(
                d,
                "Auth error"@,
                crate::error::message_of(crate::error::ProfileError::IncompleteAccount),
            ),
            DetailOutcome::RefreshFailed => shows_error(d, "Auth error"@, text_or_empty(refresh_error)),
        },
{
    match outcome {
        DetailOutcome::Empty => DetailText { lines: Vec::new(), summary: None, usage: None, refreshed },
        DetailOutcome::ApiKeyUnavailable => {
            let mut line = String::from_str("Error: ");
            line.append(API_KEY_USAGE_MESSAGE);
            let mut lines: Vec<String> = Vec::new();
            lines.push(line);
            proof {
                assert(crate::text::views(lines@) =~= seq!["Error: "@ + API_KEY_USAGE_MESSAGE@]);
            }
            DetailText {
                lines,
                summary: None,
                usage: Some(crate::entries::unavailable_usage(API_KEY_USAGE_MESSAGE)),
                refreshed,
            }
        },
        DetailOutcome::UsageUnavailable => {
            let (summary, rest) = crate::status::unavailable_parts(USAGE_UNAVAILABLE_MESSAGE);
            let mut lines: Vec<String> = Vec::new();
            lines.push(summary);
            let ghost first = lines@;
            let mut rest = rest;
            let ghost r0 = crate::text::views(rest@);
            lines.append(&mut rest);
            proof {
                assert(crate::text::views(lines@) =~= crate::text::views(first) + r0);
            }
            DetailText {
                lines,
                summary: None,
                usage: Some(crate::entries::unavailable_usage(USAGE_UNAVAILABLE_MESSAGE)),
                refreshed,
            }
        },
        DetailOutcome::ProfileFailed => error_text("Error", str_or_empty(problem), refreshed),
        DetailOutcome::BaseUrlFailed => error_text("Usage error", str_or_empty(base_url_error), refreshed),
        DetailOutcome::Usage => {
            let (lines, buckets) = match answer {
                UsageAnswer::Fetched(ls, b) => (ls, b),
                _ => (Vec::new(), Vec::new()),
            };
            DetailText {
                lines,
                summary: None,
                usage: Some(
                    crate::entries::StatusUsage {
                        state: String::from_str("ok"),
                        buckets,
                        status_code: None,
                        summary: None,
                        detail: None,
                    },
                ),
                refreshed,
            }
        },
        DetailOutcome::UsageUnauthorized => failed_text("Auth error", answer, refreshed, use_color),
        DetailOutcome::UsageFailed => failed_text("Usage error", answer, refreshed, use_color),
        DetailOutcome::RefreshIncomplete => error_text(
            "Auth error",
            crate::error::ProfileError::IncompleteAccount.message().as_str(),
            refreshed,
        ),
        DetailOutcome::RefreshFailed => error_text("Auth error", str_or_empty(refresh_error), refreshed),
    }
}

fn failed_text(label: &str, answer: UsageAnswer, refreshed: bool, use_color: bool) -> (d: DetailText)
    ensures
        d.refreshed == refreshed,
        match answer {
            UsageAnswer::Failed { status_code, message, plain_message } => {
                &&& d.lines@.len() == crate::status::error_lines(plain_message@).len()
                &&& !use_color ==> crate::text::views(d.lines@) == crate::status::error_lines(plain_message@)
                &&& d.summary matches Some(s) && s@ == crate::status::summary_line(label@, message@)
                &&& d.usage matches Some(u) && u.state@ == "error"@ && u.status_code == status_code && (u.summary matches Some(
                    x,
                ) && x@ == crate::status::message_parts(message@).0) && crate::identity::opt_view(u.detail)
                    == crate::status::message_parts(message@).1
            },
            _ => d.lines@.len() == 0 && d.summary is None && d.usage is None,
        },
{
    match answer {
        UsageAnswer::Failed { status_code, message, plain_message } => DetailText {
            lines: crate::status::plain_error_lines(plain_message.as_str(), use_color),
            summary: Some(crate::status::error_summary(label, message.as_str())),
            usage: Some(crate::entries::status_usage_from_message("error", status_code, message.as_str())),
            refreshed,
        },
        _ => DetailText { lines: Vec::new(), summary: None, usage: None, refreshed },
    }
}

} // verus!
