use codexswitch_cli::paths::{
    index_backup_candidate, path_with_extension, profile_config_path_for_id, profile_dir_for_id,
    profile_id_from_path, profile_path_for_id,
};

#[test]
fn profile_paths_and_ids() {
    assert_eq!(profile_dir_for_id("/p", "42"), "/p/42");
    assert_eq!(profile_path_for_id("/p", "42"), "/p/42/auth.json");
    assert_eq!(profile_config_path_for_id("/p", "42"), "/p/42/config.toml");
    assert_eq!(profile_id_from_path(&profile_path_for_id("/p", "42")).as_deref(), Some("42"));
}

#[test]
fn profile_id_from_other_files_is_the_stem() {
    assert_eq!(profile_id_from_path("/p/work.json").as_deref(), Some("work"));
    assert_eq!(profile_id_from_path("/p/.hidden").as_deref(), Some(".hidden"));
    assert_eq!(profile_id_from_path("auth.json"), None);
    assert_eq!(profile_id_from_path("/p/.json"), Some(".json".to_string()));
}

#[test]
fn with_extension_matches_std() {
    for (p, e) in [
        ("/a/profiles.json", "json.bak"),
        ("/a/b", "x"),
        ("/a/b.c.d", "e"),
        ("/a/.cfg", "bak"),
        ("/a/b.txt", ""),
        ("name.json", "json.bak.2"),
    ] {
        let expected = std::path::Path::new(p).with_extension(e);
        assert_eq!(path_with_extension(p, e), expected.to_str().unwrap(), "{p:?} {e:?}");
    }
}

#[test]
fn backup_candidates_count_up() {
    assert_eq!(index_backup_candidate("/c/profiles.json", 0), "/c/profiles.json.bak");
    assert_eq!(index_backup_candidate("/c/profiles.json", 3), "/c/profiles.json.bak.3");
}

#[test]
fn profile_id_reads_paths_by_their_components() {
    assert_eq!(profile_id_from_path("/p/42/auth.json/").as_deref(), Some("42"));
    assert_eq!(profile_id_from_path("/p//42/./auth.json").as_deref(), Some("42"));
    assert_eq!(profile_id_from_path("/p/work.json/").as_deref(), Some("work"));
    assert_eq!(profile_id_from_path("a/.."), None);
    assert_eq!(profile_id_from_path("/p/../auth.json"), None);
    assert_eq!(profile_id_from_path("./auth.json"), None);
    assert_eq!(profile_id_from_path("/"), None);
    assert_eq!(profile_id_from_path("a/."), Some("a".to_string()));
}
