use codexswitch_cli::error::ProfileError;
use codexswitch_cli::identity::TokenSummary;
use codexswitch_cli::index::ProfilesIndex;
use codexswitch_cli::labels::{resolve_label_id, Labels};
use codexswitch_cli::store::ProfileStore;
use codexswitch_cli::transfer::{
    check_bundle_version, config_file_text, export_bundle, exported_contents, profile_file_bytes,
    ExportBundle, BUNDLE_VERSION, check_import_profile, import_managed_files, record_import, resolve_export_ids,
    validate_import_profile_id, ImportedProfile,
};

fn strings(v: &[&str]) -> Vec<String> {
    v.iter().map(|s| s.to_string()).collect()
}

#[test]
fn import_ids_must_be_one_plain_component() {
    for id in ["abc", "123456789012", "a/", "a/.", "a//", ".hidden"] {
        assert!(validate_import_profile_id(id).is_ok(), "{id:?}");
    }
    for id in ["", ".", "..", "./a", "/a", "a/b", "../a", "a/..", "//"] {
        let err = validate_import_profile_id(id).unwrap_err();
        assert!(matches!(err, ProfileError::ImportUnsafeId(_)), "{id:?}");
    }
    let err = validate_import_profile_id("profiles").unwrap_err();
    assert_eq!(err.message(), "Error: Imported profile id 'profiles' is reserved.");
    assert!(matches!(validate_import_profile_id("update"), Err(ProfileError::ImportReservedId(_))));
}

#[test]
fn import_checks_duplicates_existing_and_labels() {
    let mut seen = Vec::new();
    let mut staged = Labels::new();
    let existing = strings(&["old"]);
    check_import_profile(&mut seen, &mut staged, &existing, "a", Some("work")).unwrap();
    assert_eq!(seen, vec!["a"]);
    let err = check_import_profile(&mut seen, &mut staged, &existing, "a", None).unwrap_err();
    assert_eq!(err.message(), "Error: Import bundle contains duplicate profile id 'a'.");
    let err = check_import_profile(&mut seen, &mut staged, &existing, "old", None).unwrap_err();
    assert_eq!(err.message(), "Error: Profile 'old' already exists.");
    let err = check_import_profile(&mut seen, &mut staged, &existing, "b", Some("work")).unwrap_err();
    assert!(matches!(err, ProfileError::LabelExists(_)));
    assert_eq!(resolve_label_id(&staged, "work").unwrap(), "a");
}

#[test]
fn imported_managed_files_follow_the_config() {
    let files = import_managed_files("a", strings(&["config.toml", "auth.json"]), true).unwrap();
    assert_eq!(files, vec!["auth.json", "config.toml"]);
    let files = import_managed_files("a", Vec::new(), true).unwrap();
    assert_eq!(files, vec!["auth.json", "config.toml"]);
    let err = import_managed_files("a", strings(&["config.toml"]), false).unwrap_err();
    assert_eq!(
        err.message(),
        "Error: Exported profile 'a' includes config.toml but no config_toml field."
    );
    assert_eq!(import_managed_files("a", Vec::new(), false).unwrap(), vec!["auth.json"]);
}

#[test]
fn export_ids_by_label_ids_or_all() {
    let mut store = ProfileStore::load(ProfilesIndex::default(), &strings(&["b", "a", "c"]));
    codexswitch_cli::labels::assign_label(&mut store.labels, "work", "c").unwrap();
    let available = strings(&["b", "a", "c"]);
    assert_eq!(resolve_export_ids(&store, Some("work"), &Vec::new(), &available).unwrap(), vec!["c"]);
    assert_eq!(resolve_export_ids(&store, None, &Vec::new(), &available).unwrap(), vec!["a", "b", "c"]);
    assert_eq!(
        resolve_export_ids(&store, None, &strings(&["c", "a", "c"]), &available).unwrap(),
        vec!["c", "a"]
    );
    let err = resolve_export_ids(&store, None, &strings(&["a", "x"]), &available).unwrap_err();
    assert!(matches!(err, ProfileError::IdNoMatch(ref id) if id == "x"));
    assert!(matches!(
        resolve_export_ids(&store, Some("nope"), &Vec::new(), &available),
        Err(ProfileError::LabelNotFound(_))
    ));
}

#[test]
fn recording_an_import_labels_and_indexes_it() {
    let mut store = ProfileStore::load(ProfilesIndex::default(), &Vec::new());
    let p = ImportedProfile {
        id: "a".to_string(),
        label: Some("work".to_string()),
        tokens: TokenSummary {
            email: Some("a@b.c".to_string()),
            plan: None,
            account_id: None,
            is_api_key: true,
            identity: None,
        },
        managed_files: strings(&["auth.json"]),
    };
    record_import(&mut store, &p).unwrap();
    assert_eq!(resolve_label_id(&store.labels, "work").unwrap(), "a");
    let e = store.profiles_index.profiles.get("a").unwrap();
    assert!(e.is_api_key);
    assert_eq!(e.label.as_deref(), Some("work"));
}

#[test]
fn bundle_contents_are_read_and_written() {
    let v = exported_contents("a", "{\"tokens\": {\"x\": 1}}").unwrap();
    assert_eq!(v, serde_json::from_str::<serde_json::Value>("{\"tokens\":{\"x\":1}}").unwrap());
    let err = exported_contents("a", "not json").unwrap_err();
    let detail = serde_json::from_str::<serde_json::Value>("not json").unwrap_err().to_string();
    assert!(matches!(err, ProfileError::ExportInvalidJson(ref x, ref m) if x == "a" && *m == detail));
    assert_eq!(err.message(), format!("Error: Saved profile 'a' is invalid JSON: {detail}"));

    let bytes = profile_file_bytes(&v);
    let mut expected = serde_json::to_vec_pretty(&v).unwrap();
    expected.push(b'\n');
    assert_eq!(bytes, expected);

    assert_eq!(config_file_text("k = 1".to_string()), "k = 1\n");
    assert_eq!(config_file_text("k = 1\n".to_string()), "k = 1\n");
    assert_eq!(config_file_text(String::new()), "\n");

    let bundle = export_bundle(Vec::new());
    assert_eq!(bundle.version, BUNDLE_VERSION);
    assert!(check_bundle_version(&bundle).is_ok());
    let old = ExportBundle { version: 2, profiles: Vec::new() };
    assert!(matches!(check_bundle_version(&old), Err(ProfileError::ImportVersion(2))));
}
