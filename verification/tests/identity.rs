use codexswitch_cli::identity::{
    current_snowflake_millis, matches_identity, pick_primary, snowflake_step, ProfileIdentityKey,
    TokenSummary, SNOWFLAKE_EPOCH_MS,
};
use codexswitch_cli::text::u64_to_decimal;

fn key(user: &str, plan: &str) -> ProfileIdentityKey {
    ProfileIdentityKey {
        principal_id: user.to_string(),
        workspace_or_org_id: "acct-1".to_string(),
        plan_type: plan.to_string(),
    }
}

fn summary(identity: Option<ProfileIdentityKey>) -> TokenSummary {
    TokenSummary {
        email: Some("same@example.com".to_string()),
        plan: Some("pro".to_string()),
        account_id: Some("acct-1".to_string()),
        is_api_key: false,
        identity,
    }
}

fn is_snowflake_id(id: &str) -> bool {
    id.len() >= 10 && id.bytes().all(|byte| byte.is_ascii_digit())
}

#[test]
fn snowflake_profile_ids_are_numeric_and_unique() {
    let now = current_snowflake_millis(SNOWFLAKE_EPOCH_MS + 86_400_000);
    let (state1, first) = snowflake_step(now, 0, 7);
    let (_, second) = snowflake_step(now, state1, 7);
    let first = u64_to_decimal(first);
    let second = u64_to_decimal(second);
    assert_ne!(first, second);
    assert!(is_snowflake_id(&first));
    assert!(is_snowflake_id(&second));
}

#[test]
fn snowflake_millis_count_from_the_epoch() {
    assert_eq!(current_snowflake_millis(SNOWFLAKE_EPOCH_MS + 5), 5);
    assert_eq!(current_snowflake_millis(3), 0);
}

#[test]
fn snowflake_step_layout() {
    let (state, id) = snowflake_step(10, 0, 3);
    assert_eq!(state, 10 << 12);
    assert_eq!(id, (10 << 22) | (3 << 12));
    let (state2, id2) = snowflake_step(10, state, 3);
    assert_eq!(state2, (10 << 12) | 1);
    assert_eq!(id2, (10 << 22) | (3 << 12) | 1);
    let (state3, _) = snowflake_step(10, (10 << 12) | 4095, 3);
    assert_eq!(state3, 11 << 12);
}

#[test]
fn matches_identity_compares_all_parts() {
    let k = key("user-1", "pro");
    assert!(matches_identity(&summary(Some(key("user-1", "pro"))), &k));
    assert!(!matches_identity(&summary(Some(key("user-1", "team"))), &k));
    assert!(!matches_identity(&summary(Some(key("user-2", "pro"))), &k));
    assert!(!matches_identity(&summary(None), &k));
}

#[test]
fn pick_primary_takes_the_least_id() {
    let ids = vec!["b".to_string(), "a2".to_string(), "a10".to_string()];
    assert_eq!(pick_primary(&ids).unwrap(), "a10");
    assert!(pick_primary(&Vec::new()).is_none());
}
