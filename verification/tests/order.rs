use codexswitch_cli::identity::{ProfileIdentityKey, TokenSummary};
use codexswitch_cli::index::{ProfileIndexEntry, ProfilesIndex};
use codexswitch_cli::labels::Labels;
use codexswitch_cli::order::{ids_without_current, ordered_profile_ids, Snapshot};
use codexswitch_cli::store::TokensMap;
use codexswitch_cli::strmap::StrMap;

fn make_tokens(account_id: &str, email: &str, plan: &str) -> TokenSummary {
    TokenSummary {
        email: Some(email.to_string()),
        plan: Some(plan.to_string()),
        account_id: Some(account_id.to_string()),
        is_api_key: false,
        identity: Some(ProfileIdentityKey {
            principal_id: format!("user-{account_id}"),
            workspace_or_org_id: account_id.to_string(),
            plan_type: plan.to_string(),
        }),
    }
}

#[test]
fn ordered_profile_ids_prefers_current_then_label_then_email() {
    let mut labels = Labels::new();
    labels.insert("alpha".to_string(), "id-a".to_string());
    labels.insert("beta".to_string(), "id-b".to_string());
    labels.insert("zeta".to_string(), "id-z".to_string());

    let mut tokens: TokensMap = StrMap::new();
    tokens.insert("id-z".to_string(), Ok(make_tokens("acct-z", "z@ex.com", "team")));
    tokens.insert("id-a".to_string(), Ok(make_tokens("acct-a", "a@ex.com", "team")));
    tokens.insert("id-u1".to_string(), Ok(make_tokens("acct-u1", "c@ex.com", "team")));
    tokens.insert("id-u2".to_string(), Ok(make_tokens("acct-u2", "b@ex.com", "team")));
    tokens.insert("id-b".to_string(), Ok(make_tokens("acct-b", "d@ex.com", "team")));

    let snapshot = Snapshot { labels, tokens, index: ProfilesIndex::default() };
    let ordered = ordered_profile_ids(&snapshot, Some("id-z"));
    assert_eq!(ordered, vec!["id-z", "id-a", "id-b", "id-u2", "id-u1"]);
}

#[test]
fn ordering_falls_back_to_index_label_and_email_then_id() {
    let labels = Labels::new();
    let mut tokens: TokensMap = StrMap::new();
    tokens.insert("B".to_string(), Err("unreadable".to_string()));
    tokens.insert("a".to_string(), Err("unreadable".to_string()));
    tokens.insert("c".to_string(), Err("unreadable".to_string()));
    tokens.insert("d".to_string(), Err("unreadable".to_string()));
    let mut index = ProfilesIndex::default();
    let mut labelled = ProfileIndexEntry::default();
    labelled.label = Some("  Zed ".to_string());
    index.profiles.insert("d".to_string(), labelled);
    let mut mailed = ProfileIndexEntry::default();
    mailed.email = Some("m@ex.com".to_string());
    index.profiles.insert("c".to_string(), mailed);
    let snapshot = Snapshot { labels, tokens, index };
    let ordered = ordered_profile_ids(&snapshot, None);
    assert_eq!(ordered, vec!["d", "c", "a", "B"]);
}

#[test]
fn ordering_of_nothing_is_empty() {
    let snapshot = Snapshot { labels: Labels::new(), tokens: StrMap::new(), index: ProfilesIndex::default() };
    assert!(ordered_profile_ids(&snapshot, Some("x")).is_empty());
}

#[test]
fn listing_leaves_out_the_current_profile() {
    let ordered = vec!["cur".to_string(), "a".to_string(), "b".to_string()];
    assert_eq!(ids_without_current(&ordered, Some("cur")), vec!["a", "b"]);
    assert_eq!(ids_without_current(&ordered, None), ordered);
}
