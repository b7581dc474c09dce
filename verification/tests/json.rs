use codexswitch_cli::json_output::{
    extract_embedded_json_object, find_json_object_end, status_error_summary_json,
    strip_embedded_json_segment,
};
use codexswitch_cli::json_response::{JsonEnvelope, JsonError, JSON_SCHEMA_VERSION};

fn chars(s: &str) -> Vec<char> {
    s.chars().collect()
}

#[test]
fn embedded_json_summary_is_split_into_message_and_response() {
    let summary =
        status_error_summary_json("unexpected status 402: {\"detail\":{\"code\":\"deactivated\"}}");

    assert_eq!(summary.message, "unexpected status 402");
    let expected: serde_json::Value =
        serde_json::from_str("{\"detail\": {\"code\": \"deactivated\"}}").unwrap();
    assert_eq!(summary.response, Some(expected));
}

#[test]
fn plain_error_summary_remains_text() {
    let summary = status_error_summary_json("network unavailable");

    assert_eq!(summary.message, "network unavailable");
    assert!(summary.response.is_none());
}

#[test]
fn summary_keeps_text_after_the_object() {
    let summary = status_error_summary_json("failed: {\"a\":1}, retry later");
    assert_eq!(summary.message, "failed, retry later");
    let only = status_error_summary_json("{\"a\":1}");
    assert_eq!(only.message, "");
    assert!(only.response.is_some());
}

#[test]
fn unparsable_braces_are_not_an_object() {
    let summary = status_error_summary_json("bad {not json} here");
    assert_eq!(summary.message, "bad {not json} here");
    assert!(summary.response.is_none());
}

#[test]
fn object_end_skips_braces_in_strings() {
    let text = chars("x {\"a\":\"}\\\"{\",\"b\":{}} y");
    assert_eq!(find_json_object_end(&text, 2), Some(21));
    assert_eq!(find_json_object_end(&chars("{{}"), 0), None);
    assert_eq!(find_json_object_end(&chars("}"), 0), None);
}

#[test]
fn extract_finds_the_first_parsable_object() {
    let text = chars("{oops} then {\"k\": true}");
    let (start, end, value) = extract_embedded_json_object(&text).unwrap();
    assert_eq!((start, end), (12, 23));
    let expected: serde_json::Value = serde_json::from_str("{\"k\": true}").unwrap();
    assert_eq!(value, expected);
}

#[test]
fn strip_segment_joins_the_sides() {
    let text = chars("left :  {x} ,  right");
    assert_eq!(strip_embedded_json_segment(&text, 8, 11), "left, right");
    assert_eq!(strip_embedded_json_segment(&chars("{x}"), 0, 3), "");
    assert_eq!(strip_embedded_json_segment(&chars("a: {x}"), 3, 6), "a");
}

#[test]
fn envelope_success_and_failure() {
    let ok = JsonEnvelope::success("list", serde_json::from_str("{\"profiles\": []}").unwrap());
    assert_eq!(ok.schema_version, JSON_SCHEMA_VERSION);
    assert_eq!(ok.schema_version, 1);
    assert_eq!(ok.command, "list");
    assert!(ok.success);
    assert!(ok.error.is_none());

    let failed = JsonEnvelope::failure("delete", "Label 'missing' was not found.");
    assert!(!failed.success);
    assert_eq!(failed.command, "delete");
    assert!(failed.data.is_none());
    let JsonError { message } = failed.error.unwrap();
    assert_eq!(message, "Label 'missing' was not found.");
}
