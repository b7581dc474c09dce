use codexswitch_cli::identity::TokenSummary;
use codexswitch_cli::index::{
    has_legacy_schema, labels_from_index, normalize_index_version, profiles_index_version,
    repair_profiles_metadata, sync_profiles_index, update_profiles_index_entry, IndexRead,
    ProfileIndexEntry, ProfilesIndex, PROFILES_INDEX_VERSION,
};
use codexswitch_cli::labels::{resolve_label_id, Labels};

fn strings(v: &[&str]) -> Vec<String> {
    v.iter().map(|s| s.to_string()).collect()
}

#[test]
fn read_profiles_index_does_not_rewrite_when_legacy_strings_only_appear_in_values() {
    let raw = "{\"version\":3,\"profiles\":{\"id\":{\"label\":\"default_profile_id update_cache active_profile_id last_used\",\"is_api_key\":false}}}";
    assert!(!has_legacy_schema(raw));
}

#[test]
fn legacy_keys_at_top_level_are_detected() {
    assert!(has_legacy_schema("{\"version\":1,\"active_profile_id\":null,\"profiles\":{}}"));
    assert!(has_legacy_schema("{\"last_used\":1}"));
    assert!(!has_legacy_schema("not json"));
    assert!(!has_legacy_schema("[\"last_used\"]"));
}

#[test]
fn index_version_is_brought_up_to_date() {
    assert_eq!(profiles_index_version(), PROFILES_INDEX_VERSION);
    let mut index = ProfilesIndex::default();
    index.version = 1;
    assert!(normalize_index_version(&mut index));
    assert_eq!(index.version, 3);
    assert!(!normalize_index_version(&mut index));
}

#[test]
fn labels_from_index_trims_and_prefers_least_id() {
    let mut index = ProfilesIndex::default();
    for (id, label) in [("b", " work "), ("a", "work"), ("c", "  "), ("d", "home")] {
        let mut e = ProfileIndexEntry::default();
        e.label = Some(label.to_string());
        index.profiles.insert(id.to_string(), e);
    }
    let labels = labels_from_index(&index);
    assert_eq!(labels.len(), 2);
    assert_eq!(resolve_label_id(&labels, "work").unwrap(), "a");
    assert_eq!(resolve_label_id(&labels, "home").unwrap(), "d");
}

#[test]
fn sync_writes_each_profiles_label() {
    let mut index = ProfilesIndex::default();
    index.profiles.insert("a".to_string(), ProfileIndexEntry::default());
    let mut stale = ProfileIndexEntry::default();
    stale.label = Some("old".to_string());
    index.profiles.insert("b".to_string(), stale);
    let mut labels = Labels::new();
    labels.insert("work".to_string(), "a".to_string());
    sync_profiles_index(&mut index, &labels);
    assert_eq!(index.profiles.get("a").unwrap().label.as_deref(), Some("work"));
    assert!(index.profiles.get("b").unwrap().label.is_none());
}

#[test]
fn update_entry_normalizes_files() {
    let mut index = ProfilesIndex::default();
    let t = TokenSummary { email: None, plan: None, account_id: Some("acct".to_string()), is_api_key: false, identity: None };
    update_profiles_index_entry(&mut index, "id", Some(&t), None, Some(strings(&[" extra ", "config.toml", "extra"])));
    let e = index.profiles.get("id").unwrap();
    assert_eq!(e.account_id.as_deref(), Some("acct"));
    assert_eq!(e.managed_files, vec!["auth.json", "config.toml", "extra"]);
}

#[test]
fn repair_initializes_a_missing_index() {
    let plan = repair_profiles_metadata(IndexRead::Missing, &strings(&["a"]), &strings(&["a"]));
    assert!(plan.should_write);
    assert_eq!(plan.repairs, vec!["Initialized profiles index", "Indexed 1 saved profile"]);
    assert!(plan.index.profiles.contains_key("a"));
}

#[test]
fn repair_normalizes_prunes_and_indexes() {
    let mut index = ProfilesIndex::default();
    index.version = 2;
    index.profiles.insert("gone1".to_string(), ProfileIndexEntry::default());
    index.profiles.insert("gone2".to_string(), ProfileIndexEntry::default());
    index.profiles.insert("kept".to_string(), ProfileIndexEntry::default());
    let plan = repair_profiles_metadata(
        IndexRead::Parsed(index, false),
        &strings(&["kept", "new1", "new2", "notready"]),
        &strings(&["new1", "new2", "kept"]),
    );
    assert_eq!(
        plan.repairs,
        vec![
            "Normalized profiles index format",
            "Pruned 2 stale profile index entries",
            "Indexed 2 saved profiles",
        ]
    );
    assert_eq!(plan.index.version, 3);
    assert_eq!(plan.index.profiles.len(), 3);
    assert!(!plan.index.profiles.contains_key("notready"));
}

#[test]
fn repair_of_a_healthy_index_changes_nothing() {
    let mut index = ProfilesIndex::default();
    index.profiles.insert("a".to_string(), ProfileIndexEntry::default());
    let plan = repair_profiles_metadata(IndexRead::Parsed(index, false), &strings(&["a"]), &strings(&["a"]));
    assert!(!plan.should_write);
    assert!(plan.repairs.is_empty());
}

#[test]
fn repair_rebuilds_an_invalid_index() {
    let plan = repair_profiles_metadata(
        IndexRead::Invalid("/c/profiles.json.bak".to_string()),
        &Vec::new(),
        &Vec::new(),
    );
    assert!(plan.should_write);
    assert_eq!(
        plan.repairs,
        vec!["Backed up invalid profiles index to /c/profiles.json.bak", "Rebuilt invalid profiles index"]
    );
}

#[test]
fn a_second_repair_changes_nothing() {
    let mut index = ProfilesIndex::default();
    index.version = 2;
    index.profiles.insert("gone".to_string(), ProfileIndexEntry::default());
    index.profiles.insert("kept".to_string(), ProfileIndexEntry::default());
    let saved = strings(&["kept", "new"]);
    let ready = strings(&["kept", "new"]);
    let first = repair_profiles_metadata(IndexRead::Parsed(index, true), &saved, &ready);
    assert!(first.should_write);
    let second = repair_profiles_metadata(IndexRead::Parsed(first.index, false), &saved, &ready);
    assert!(!second.should_write);
    assert!(second.repairs.is_empty());
    assert_eq!(second.index.version, 3);
    assert!(second.index.profiles.contains_key("kept"));
    assert!(second.index.profiles.contains_key("new"));
    assert!(!second.index.profiles.contains_key("gone"));
}
