use codexswitch_cli::index::ProfileIndexEntry;
use codexswitch_cli::managed_files::{
    format_managed_files, format_managed_files_line, format_managed_files_suffix,
    managed_files_contains_config, managed_files_for_profile, managed_files_for_save,
    normalize_managed_files,
};

fn strings(v: &[&str]) -> Vec<String> {
    v.iter().map(|s| s.to_string()).collect()
}

#[test]
fn files_for_save() {
    assert_eq!(managed_files_for_save(false), vec!["auth.json"]);
    assert_eq!(managed_files_for_save(true), vec!["auth.json", "config.toml"]);
    assert!(managed_files_contains_config(&managed_files_for_save(true)));
    assert!(!managed_files_contains_config(&managed_files_for_save(false)));
}

#[test]
fn normalize_puts_auth_then_config_then_others() {
    let out = normalize_managed_files(strings(&["x", " config.toml ", "", "auth.json", "x", " y "]));
    assert_eq!(out, vec!["auth.json", "config.toml", "x", "y"]);
    assert_eq!(normalize_managed_files(out.clone()), out);
    assert_eq!(normalize_managed_files(Vec::new()), vec!["auth.json"]);
}

#[test]
fn files_of_a_profile() {
    assert_eq!(managed_files_for_profile(None, false), vec!["auth.json"]);
    assert_eq!(managed_files_for_profile(None, true), vec!["auth.json", "config.toml"]);
    let mut e = ProfileIndexEntry::default();
    e.managed_files = strings(&["auth.json", "notes.txt"]);
    assert_eq!(managed_files_for_profile(Some(&e), true), vec!["auth.json", "config.toml", "notes.txt"]);
}

#[test]
fn files_formatting() {
    let files = managed_files_for_save(true);
    assert_eq!(format_managed_files(&files), "auth.json + config.toml");
    assert_eq!(format_managed_files_line(&files, false), "[files: auth.json + config.toml]");
    assert_eq!(format_managed_files_suffix(&files, false), " [files: auth.json + config.toml]");
}

#[test]
fn normalized_files_name_nothing_twice() {
    let out = normalize_managed_files(strings(&[" x ", "config.toml", "x", "auth.json", " config.toml", "y", ""]));
    assert_eq!(out, strings(&["auth.json", "config.toml", "x", "y"]));
    let mut seen = std::collections::HashSet::new();
    assert!(out.iter().all(|f| seen.insert(f.clone())));
}
