use codexswitch_cli::error::ProfileError;
use codexswitch_cli::labels::{
    assign_label, label_for_id, labels_by_id, prune_labels, remove_labels_for_id, resolve_label_id,
    trim_label, Labels,
};
use codexswitch_cli::strmap::StrMap;

#[test]
fn label_helpers() {
    let mut labels = Labels::new();
    assign_label(&mut labels, "Team", "id").unwrap();
    assert_eq!(label_for_id(&labels, "id").unwrap(), "Team");
    assert_eq!(resolve_label_id(&labels, "Team").unwrap(), "id");
    remove_labels_for_id(&mut labels, "id");
    assert_eq!(labels.len(), 0);
    assert!(trim_label(" ").is_err());
}

#[test]
fn assign_label_trims_and_replaces_other_labels_of_the_profile() {
    let mut labels: Labels = StrMap::new();
    assign_label(&mut labels, "  work ", "a").unwrap();
    assign_label(&mut labels, "job", "a").unwrap();
    assert_eq!(labels.len(), 1);
    assert_eq!(resolve_label_id(&labels, "job").unwrap(), "a");
    assert!(matches!(
        resolve_label_id(&labels, "work"),
        Err(ProfileError::LabelNotFound(ref l)) if l == "work"
    ));
}

#[test]
fn assign_label_refuses_a_label_of_another_profile() {
    let mut labels: Labels = StrMap::new();
    assign_label(&mut labels, "work", "a").unwrap();
    let err = assign_label(&mut labels, " work", "b").unwrap_err();
    assert!(matches!(err, ProfileError::LabelExists(ref l) if l == "work"));
    assert_eq!(err.message(), "Label 'work' already exists.");
    assert_eq!(resolve_label_id(&labels, "work").unwrap(), "a");
    assert!(label_for_id(&labels, "b").is_none());
}

#[test]
fn assign_label_refuses_an_empty_label() {
    let mut labels: Labels = StrMap::new();
    assert!(matches!(assign_label(&mut labels, "   ", "a"), Err(ProfileError::LabelEmpty)));
    assert_eq!(labels.len(), 0);
}

#[test]
fn resolve_label_id_reports_missing_label() {
    let labels: Labels = StrMap::new();
    let err = resolve_label_id(&labels, " missing ").unwrap_err();
    assert_eq!(err.message(), "Label 'missing' was not found.");
}

#[test]
fn label_for_id_picks_the_least_label() {
    let mut labels: Labels = StrMap::new();
    labels.insert("zeta".to_string(), "a".to_string());
    labels.insert("alpha".to_string(), "a".to_string());
    labels.insert("beta".to_string(), "b".to_string());
    assert_eq!(label_for_id(&labels, "a").unwrap(), "alpha");
    let by_id = labels_by_id(&labels);
    assert_eq!(by_id.get("a").unwrap(), "alpha");
    assert_eq!(by_id.get("b").unwrap(), "beta");
}

#[test]
fn prune_labels_keeps_labels_of_saved_profiles() {
    let mut labels: Labels = StrMap::new();
    labels.insert("work".to_string(), "a".to_string());
    labels.insert("old".to_string(), "gone".to_string());
    prune_labels(&mut labels, &vec!["a".to_string()]);
    assert_eq!(labels.len(), 1);
    assert_eq!(resolve_label_id(&labels, "work").unwrap(), "a");
}
