use codexswitch_cli::commands::{
    check_selected_profile, clear_profile_label, delete_profile, load_profile, rename_profile_label,
    resolve_label_target_id, save_profile, set_profile_label, sync_current,
};
use codexswitch_cli::error::ProfileError;
use codexswitch_cli::identity::{ProfileIdentityKey, TokenSummary};
use codexswitch_cli::index::{ProfileIndexEntry, ProfilesIndex};
use codexswitch_cli::labels::{label_for_id, resolve_label_id};
use codexswitch_cli::select::{pick_many, Candidate};
use codexswitch_cli::store::{load_profile_tokens_map, resolve_save_id, ProfileStore};

fn tokens(user: &str, plan: &str) -> TokenSummary {
    TokenSummary {
        email: Some("same@example.com".to_string()),
        plan: Some(plan.to_string()),
        account_id: Some("acct-1".to_string()),
        is_api_key: false,
        identity: Some(ProfileIdentityKey {
            principal_id: user.to_string(),
            workspace_or_org_id: "acct-1".to_string(),
            plan_type: plan.to_string(),
        }),
    }
}

fn path_of(id: &str) -> String {
    format!("/p/{id}/auth.json")
}

fn empty_store(ids: &[&str]) -> ProfileStore {
    let ids: Vec<String> = ids.iter().map(|s| s.to_string()).collect();
    ProfileStore::load(ProfilesIndex::default(), &ids)
}

/// Saves `t` the way the save command does and returns the id it went to.
fn save(
    files: &mut Vec<(String, Result<TokenSummary, String>)>,
    store: &mut ProfileStore,
    t: &TokenSummary,
    fresh: &str,
    label: Option<&str>,
) -> String {
    let id = resolve_save_id(files, t, fresh.to_string()).unwrap();
    let saved = save_profile(store, &id, t, label, false, "/c/config.toml", true).unwrap();
    if !files.iter().any(|(p, _)| p == &path_of(&id)) {
        files.push((path_of(&id), Ok(t.clone_summary())));
    }
    saved.id
}

trait CloneSummary {
    fn clone_summary(&self) -> TokenSummary;
}

impl CloneSummary for TokenSummary {
    fn clone_summary(&self) -> TokenSummary {
        TokenSummary {
            email: self.email.clone(),
            plan: self.plan.clone(),
            account_id: self.account_id.clone(),
            is_api_key: self.is_api_key,
            identity: self.identity.as_ref().map(|k| ProfileIdentityKey {
                principal_id: k.principal_id.clone(),
                workspace_or_org_id: k.workspace_or_org_id.clone(),
                plan_type: k.plan_type.clone(),
            }),
        }
    }
}

#[test]
fn composite_identity_repeated_save_dedupes() {
    let mut files = Vec::new();
    let mut store = empty_store(&[]);
    let t = tokens("user-1", "pro");
    let first = save(&mut files, &mut store, &t, "1001", None);
    let second = save(&mut files, &mut store, &t, "1002", None);
    assert_eq!(first, second);
    assert_eq!(files.len(), 1);
}

#[test]
fn composite_identity_keeps_team_and_pro_separate() {
    let mut files = Vec::new();
    let mut store = empty_store(&[]);
    let first = save(&mut files, &mut store, &tokens("user-1", "pro"), "1001", None);
    let second = save(&mut files, &mut store, &tokens("user-1", "team"), "1002", None);
    assert_ne!(first, second);
    assert_eq!(files.len(), 2);
}

#[test]
fn composite_identity_separates_users_in_same_workspace_plan() {
    let mut files = Vec::new();
    let mut store = empty_store(&[]);
    let first = save(&mut files, &mut store, &tokens("user-1", "pro"), "1001", None);
    let second = save(&mut files, &mut store, &tokens("user-2", "pro"), "1002", None);
    assert_ne!(first, second);
    assert_eq!(files.len(), 2);
}

#[test]
fn save_records_label_and_files() {
    let mut store = empty_store(&["a"]);
    let saved =
        save_profile(&mut store, "a", &tokens("u", "pro"), Some(" team "), true, "/c/config.toml", true)
            .unwrap();
    assert_eq!(saved.id, "a");
    assert_eq!(saved.label.as_deref(), Some("team"));
    assert_eq!(saved.managed_files, vec!["auth.json", "config.toml"]);
    let entry = store.profiles_index.profiles.get("a").unwrap();
    assert_eq!(entry.label.as_deref(), Some("team"));
    assert_eq!(entry.email.as_deref(), Some("same@example.com"));
    assert_eq!(entry.principal_id.as_deref(), Some("u"));
    assert_eq!(entry.plan_type_key.as_deref(), Some("pro"));
    assert_eq!(entry.managed_files, vec!["auth.json", "config.toml"]);
}

#[test]
fn save_without_config_file_is_refused() {
    let mut store = empty_store(&["a"]);
    let err =
        save_profile(&mut store, "a", &tokens("u", "pro"), Some("team"), true, "/c/config.toml", false)
            .unwrap_err();
    assert_eq!(err.message(), "Error: Config file not found: /c/config.toml");
    assert_eq!(store.labels.len(), 0);
    assert!(store.profiles_index.profiles.get("a").unwrap().email.is_none());
}

#[test]
fn save_with_a_taken_label_is_refused() {
    let mut store = empty_store(&["a", "b"]);
    codexswitch_cli::labels::assign_label(&mut store.labels, "team", "b").unwrap();
    let err = save_profile(&mut store, "a", &tokens("u", "pro"), Some("team"), false, "/c", true)
        .unwrap_err();
    assert!(matches!(err, ProfileError::LabelExists(ref l) if l == "team"));
}

#[test]
fn label_set_clear_rename() {
    let mut store = empty_store(&["a", "b"]);
    let (id, label) = set_profile_label(&mut store, None, Some("a"), " alpha ").unwrap();
    assert_eq!((id.as_str(), label.as_str()), ("a", "alpha"));
    let (id, label) = set_profile_label(&mut store, Some("alpha"), None, "newalpha").unwrap();
    assert_eq!((id.as_str(), label.as_str()), ("a", "newalpha"));
    assert!(resolve_label_id(&store.labels, "alpha").is_err());
    let (id, old, new) = rename_profile_label(&mut store, "newalpha", "renamed").unwrap();
    assert_eq!((id.as_str(), old.as_str(), new.as_str()), ("a", "newalpha", "renamed"));
    assert_eq!(label_for_id(&store.labels, "a").as_deref(), Some("renamed"));
    let id = clear_profile_label(&mut store, None, Some("a")).unwrap();
    assert_eq!(id, "a");
    assert!(label_for_id(&store.labels, "a").is_none());
}

#[test]
fn label_commands_report_missing_targets() {
    let mut store = empty_store(&["a"]);
    let err = resolve_label_target_id(&store, None, Some("zz")).unwrap_err();
    assert!(matches!(err, ProfileError::IdNoMatch(ref id) if id == "zz"));
    assert_eq!(err.message(), "Profile id 'zz' matches no saved profile.");
    let err = clear_profile_label(&mut store, Some("nope"), None).unwrap_err();
    assert!(matches!(err, ProfileError::LabelNotFound(_)));
    let err = set_profile_label(&mut store, None, Some("a"), "  ").unwrap_err();
    assert!(matches!(err, ProfileError::LabelEmpty));
    let err = rename_profile_label(&mut store, " ", "x").unwrap_err();
    assert!(matches!(err, ProfileError::LabelEmpty));
}

#[test]
fn delete_profile_by_label() {
    let mut store = empty_store(&["one"]);
    save_profile(&mut store, "one", &tokens("u", "pro"), Some("team"), false, "/c", true).unwrap();
    let candidates = vec![Candidate { id: "one".to_string(), display: "One".to_string() }];
    let picked = pick_many(Some("team"), &Vec::new(), &store.labels, &candidates).unwrap().unwrap();
    let ids: Vec<String> = picked.iter().map(|c| c.id.clone()).collect();
    delete_profile(&mut store, &ids);
    assert_eq!(store.labels.len(), 0);
    assert_eq!(store.profiles_index.profiles.len(), 0);
}

#[test]
fn load_checks_and_records() {
    let map = load_profile_tokens_map(vec![
        (path_of("a"), Ok(tokens("u", "pro"))),
        (path_of("bad"), Err("Error: not json".to_string())),
    ]);
    assert!(check_selected_profile(&map, "a").is_ok());
    let err = check_selected_profile(&map, "bad").unwrap_err();
    assert!(matches!(err, ProfileError::SelectedInvalid(ref m) if m == "not json"));
    assert!(matches!(check_selected_profile(&map, "x"), Err(ProfileError::ProfileNotFound)));

    let mut store = empty_store(&["a"]);
    let loaded = load_profile(&mut store, &map, "a", false, "/p/a/config.toml").unwrap();
    assert_eq!(loaded.managed_files, vec!["auth.json"]);
    assert_eq!(store.profiles_index.profiles.get("a").unwrap().email.as_deref(), Some("same@example.com"));

    let mut entry = ProfileIndexEntry::default();
    entry.managed_files = vec!["auth.json".to_string(), "config.toml".to_string()];
    store.profiles_index.profiles.insert("a".to_string(), entry);
    let err = load_profile(&mut store, &map, "a", false, "/p/a/config.toml").unwrap_err();
    assert_eq!(
        err.message(),
        "Error: Saved profile 'a' includes config.toml but /p/a/config.toml is missing."
    );
    let loaded = load_profile(&mut store, &map, "a", true, "/p/a/config.toml").unwrap();
    assert_eq!(loaded.managed_files, vec!["auth.json", "config.toml"]);
}

#[test]
fn sync_keeps_the_index_label() {
    let mut index = ProfilesIndex::default();
    let mut e = ProfileIndexEntry::default();
    e.label = Some("work".to_string());
    index.profiles.insert("a".to_string(), e);
    sync_current(&mut index, "a", &tokens("u", "team"), vec!["auth.json".to_string()]);
    let e = index.profiles.get("a").unwrap();
    assert_eq!(e.label.as_deref(), Some("work"));
    assert_eq!(e.plan.as_deref(), Some("team"));
}
