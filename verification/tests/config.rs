use codexswitch_cli::config_snapshot::{
    applied_text, apply_snapshot, document_contents, snapshot_text, managed_config_keys, normalize_keys, parse_config,
    selected_snapshot,
};
use codexswitch_cli::error::ProfileError;

fn doc(text: &str) -> toml_edit::DocumentMut {
    parse_config(text, "/c.toml").expect("parse")
}

fn keys_of(settings: &str) -> Option<Vec<String>> {
    managed_config_keys(Some(&doc(settings)), "/s.toml").expect("keys")
}

#[test]
fn configured_keys_are_saved_and_replaced_selectively() {
    let keys = keys_of("managed_config_keys = [\"chatgpt_base_url\"]\n").unwrap();
    let source = doc("chatgpt_base_url = \"https://new.example\"\napproval_policy = \"never\"\n");
    let mut target =
        doc("chatgpt_base_url = \"https://old.example\"\napproval_policy = \"on-request\"\n");

    let snapshot = selected_snapshot(&source, &keys);
    let snapshot_contents = document_contents(&snapshot);
    assert!(snapshot_contents.contains("https://new.example"));
    assert!(!snapshot_contents.contains("approval_policy"));

    let stored = doc(&snapshot_contents);
    apply_snapshot(&stored, &mut target, &keys);
    let contents = document_contents(&target);
    assert!(contents.contains("https://new.example"));
    assert!(contents.contains("approval_policy = \"on-request\""));
}

#[test]
fn empty_managed_key_list_saves_nothing_and_changes_nothing() {
    let keys = keys_of("managed_config_keys = []\n").unwrap();
    let source = doc("model_provider = \"custom\"\napproval_policy = \"never\"\n");
    let snapshot = selected_snapshot(&source, &keys);
    assert!(document_contents(&snapshot).trim().is_empty());
    let mut target = doc("approval_policy = \"on-request\"\n");
    apply_snapshot(&snapshot, &mut target, &keys);
    assert_eq!(document_contents(&target), "approval_policy = \"on-request\"\n");
}

#[test]
fn settings_without_managed_keys_keep_full_config_default() {
    assert!(keys_of("some_future_setting = true\n").is_none());
    assert!(managed_config_keys(None, "/s.toml").unwrap().is_none());
}

#[test]
fn managed_keys_must_be_strings_in_an_array() {
    let err = managed_config_keys(Some(&doc("managed_config_keys = \"model\"\n")), "/s.toml").unwrap_err();
    assert_eq!(
        err.message(),
        "CodexSwitch config /s.toml field 'managed_config_keys' must be an array of top-level config keys."
    );
    let err = managed_config_keys(Some(&doc("managed_config_keys = [1]\n")), "/s.toml").unwrap_err();
    assert!(matches!(err, ProfileError::ConfigKeysNotStrings(_, _)));
}

#[test]
fn normalize_keys_trims_dedupes_and_rejects_dotted() {
    let keys = vec![" model ".to_string(), "model".to_string(), "model_provider".to_string()];
    assert_eq!(normalize_keys(keys, "/s.toml").unwrap(), vec!["model", "model_provider"]);
    let err = normalize_keys(vec!["a.b".to_string()], "/s.toml").unwrap_err();
    assert_eq!(
        err.message(),
        "CodexSwitch config /s.toml managed config key 'a.b' must be a non-empty top-level key."
    );
    assert!(normalize_keys(vec!["  ".to_string()], "/s.toml").is_err());
}

#[test]
fn apply_replaces_tables_and_removes_missing_keys() {
    let keys = vec!["model_provider".to_string(), "model_providers".to_string(), "model".to_string()];
    let snapshot = doc(
        "model_provider = \"custom\"\n\n[model_providers.custom]\nbase_url = \"https://provider.example/v1\"\n",
    );
    let mut target = doc(
        "model = \"old\"\nmodel_provider = \"old\"\napproval_policy = \"on-request\"\n\n[model_providers.old]\nbase_url = \"https://old.example/v1\"\n\n[mcp_servers.keep]\ncommand = \"server\"\n",
    );
    apply_snapshot(&snapshot, &mut target, &keys);
    let contents = document_contents(&target);
    assert!(contents.contains("model_provider = \"custom\""));
    assert!(contents.contains("[model_providers.custom]"));
    assert!(!contents.contains("old.example"));
    assert!(!contents.contains("model = \"old\""));
    assert!(contents.contains("approval_policy"));
    assert!(contents.contains("[mcp_servers.keep]"));
}

#[test]
fn unparsable_config_reports_its_path() {
    let err = parse_config("a = ", "/bad.toml").unwrap_err();
    assert!(err.starts_with("Could not parse config /bad.toml: "));
}

#[test]
fn save_and_load_texts_keep_only_managed_keys() {
    let keys = vec!["chatgpt_base_url".to_string()];
    let source = "chatgpt_base_url = \"https://new.example\"\napproval_policy = \"never\"\n";
    let saved = snapshot_text(Some(&keys), source, "/src.toml").unwrap();
    assert!(saved.contains("https://new.example"));
    assert!(!saved.contains("approval_policy"));
    assert_eq!(snapshot_text(None, source, "/src.toml").unwrap(), source);

    let target = "chatgpt_base_url = \"https://old.example\"\napproval_policy = \"on-request\"\n";
    let loaded = applied_text(Some(&keys), &saved, "/snap.toml", Some(target), "/t.toml").unwrap();
    assert!(loaded.contains("https://new.example"));
    assert!(loaded.contains("approval_policy = \"on-request\""));
    let fresh = applied_text(Some(&keys), &saved, "/snap.toml", None, "/t.toml").unwrap();
    assert!(fresh.contains("https://new.example"));
    assert_eq!(applied_text(None, &saved, "/snap.toml", Some(target), "/t.toml").unwrap(), saved);

    let bad = applied_text(Some(&keys), "= broken", "/snap.toml", Some(target), "/t.toml").unwrap_err();
    assert!(bad.starts_with("Could not parse config /snap.toml: "));
    let bad = applied_text(Some(&keys), &saved, "/snap.toml", Some("= broken"), "/t.toml").unwrap_err();
    assert!(bad.starts_with("Could not parse config /t.toml: "));
}
