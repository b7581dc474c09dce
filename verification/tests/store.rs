use codexswitch_cli::error::ProfileError;
use codexswitch_cli::identity::{ProfileIdentityKey, TokenSummary};
use codexswitch_cli::index::{ProfileIndexEntry, ProfilesIndex};
use codexswitch_cli::labels::{label_for_id, resolve_label_id};
use codexswitch_cli::store::{
    cached_profile_ids, current_saved_id, load_profile_tokens_map, load_snapshot, resolve_save_id,
    resolve_sync_id, unsaved_reason, ProfileStore,
};

fn key(user: &str, plan: &str) -> ProfileIdentityKey {
    ProfileIdentityKey {
        principal_id: user.to_string(),
        workspace_or_org_id: "acct-1".to_string(),
        plan_type: plan.to_string(),
    }
}

fn tokens(user: &str, plan: &str) -> TokenSummary {
    TokenSummary {
        email: Some("a@b.com".to_string()),
        plan: Some(plan.to_string()),
        account_id: Some("acct-1".to_string()),
        is_api_key: false,
        identity: Some(key(user, plan)),
    }
}

fn file(id: &str, t: TokenSummary) -> (String, Result<TokenSummary, String>) {
    (format!("/home/u/.codex/codexswitch/profiles/{id}/auth.json"), Ok(t))
}

#[test]
fn resolve_save_and_sync_ids() {
    let files = vec![file("one", tokens("user-1", "pro"))];
    let t = tokens("user-1", "pro");
    let id = resolve_save_id(&files, &t, "fresh".to_string()).unwrap();
    assert_eq!(id, "one");
    let id = resolve_sync_id(&files, &t);
    assert_eq!(id.as_deref(), Some("one"));
}

#[test]
fn resolve_save_id_takes_fresh_id_for_a_new_account() {
    let files = vec![file("one", tokens("user-1", "pro"))];
    let id = resolve_save_id(&files, &tokens("user-1", "team"), "fresh".to_string()).unwrap();
    assert_eq!(id, "fresh");
    assert!(resolve_sync_id(&files, &tokens("user-2", "pro")).is_none());
}

#[test]
fn resolve_save_id_refuses_incomplete_credentials() {
    let mut t = tokens("user-1", "pro");
    t.identity = None;
    let err = resolve_save_id(&Vec::new(), &t, "fresh".to_string()).unwrap_err();
    assert!(matches!(err, ProfileError::IncompleteAccount));
    assert!(resolve_sync_id(&Vec::new(), &t).is_none());
}

#[test]
fn resolve_save_id_picks_least_matching_profile() {
    let files = vec![
        file("b", tokens("user-1", "pro")),
        file("a", tokens("user-1", "pro")),
        file("0", tokens("user-2", "pro")),
    ];
    assert_eq!(resolve_save_id(&files, &tokens("user-1", "pro"), "f".to_string()).unwrap(), "a");
}

#[test]
fn load_profile_tokens_map_handles_invalid() {
    let files = vec![
        file("valid", tokens("user-1", "pro")),
        ("/p/bad/auth.json".to_string(), Err("not-json".to_string())),
    ];
    let map = load_profile_tokens_map(files);
    assert!(map.contains_key("valid"));
    let bad = map.get("bad").expect("bad entry retained");
    assert!(bad.is_err());
}

#[test]
fn load_profile_tokens_map_ignores_unnamed_files() {
    let files = vec![("auth.json".to_string(), Err("x".to_string()))];
    let map = load_profile_tokens_map(files);
    assert_eq!(map.len(), 0);
}

#[test]
fn cached_ids_and_current_profile() {
    let map = load_profile_tokens_map(vec![
        file("z", tokens("user-1", "pro")),
        file("m", tokens("user-1", "pro")),
        file("q", tokens("user-2", "pro")),
    ]);
    assert_eq!(cached_profile_ids(&map, &key("user-1", "pro")), vec!["m", "z"]);
    let current = tokens("user-1", "pro");
    assert_eq!(current_saved_id(Some(&current), &map).as_deref(), Some("m"));
    assert!(unsaved_reason(Some(&current), &map).is_none());
    let other = tokens("user-3", "pro");
    assert!(current_saved_id(Some(&other), &map).is_none());
    assert_eq!(
        unsaved_reason(Some(&other), &map).as_deref(),
        Some("The current credentials match no saved profile.")
    );
    assert!(unsaved_reason(None, &map).is_none());
}

#[test]
fn profiles_index_prunes_missing_profiles() {
    let mut index = ProfilesIndex::default();
    index.profiles.insert("missing".to_string(), ProfileIndexEntry::default());
    codexswitch_cli::index::prune_profiles_index(&mut index, &Vec::new());
    assert_eq!(index.profiles.len(), 0);
}

#[test]
fn store_load_adds_entries_and_reads_labels() {
    let mut index = ProfilesIndex::default();
    let mut e = ProfileIndexEntry::default();
    e.label = Some(" work ".to_string());
    index.profiles.insert("a".to_string(), e);
    index.profiles.insert("gone".to_string(), ProfileIndexEntry::default());
    let store = ProfileStore::load(index, &vec!["a".to_string(), "b".to_string()]);
    assert_eq!(store.profiles_index.profiles.len(), 2);
    assert!(store.profiles_index.profiles.contains_key("b"));
    assert!(!store.profiles_index.profiles.contains_key("gone"));
    assert_eq!(resolve_label_id(&store.labels, "work").unwrap(), "a");
}

#[test]
fn labels_survive_save_and_load() {
    let mut store = ProfileStore::load(ProfilesIndex::default(), &vec!["a".to_string(), "b".to_string()]);
    codexswitch_cli::labels::assign_label(&mut store.labels, "work", "a").unwrap();
    codexswitch_cli::labels::assign_label(&mut store.labels, "home", "b").unwrap();
    let saved = vec!["a".to_string()];
    store.save(&saved);
    assert!(resolve_label_id(&store.labels, "home").is_err());
    let reloaded = ProfileStore::load(store.profiles_index, &saved);
    assert_eq!(resolve_label_id(&reloaded.labels, "work").unwrap(), "a");
    assert_eq!(label_for_id(&reloaded.labels, "a").as_deref(), Some("work"));
    assert_eq!(reloaded.labels.len(), 1);
}

#[test]
fn snapshot_has_an_entry_per_saved_profile() {
    let map = load_profile_tokens_map(vec![file("a", tokens("user-1", "pro"))]);
    let snapshot = load_snapshot(map, ProfilesIndex::default());
    assert!(snapshot.index.profiles.contains_key("a"));
    assert_eq!(snapshot.tokens.len(), 1);
}
