use codexswitch_cli::error::ProfileError;
use codexswitch_cli::labels::Labels;
use codexswitch_cli::identity::TokenSummary;
use codexswitch_cli::index::{ProfileIndexEntry, ProfilesIndex};
use codexswitch_cli::order::Snapshot;
use codexswitch_cli::store::TokensMap;
use codexswitch_cli::strmap::StrMap;
use codexswitch_cli::select::{
    build_candidates, candidate_facts, CandidateFacts, confirm_delete_profiles_with, handle_inquire_result, pick_many, pick_one,
    prompt_unsaved_load_with, require_selection, select_by_id, select_by_label, select_many_by_id,
    Candidate, LoadChoice, PromptOutcome,
};

fn cands(ids: &[&str]) -> Vec<Candidate> {
    ids.iter().map(|id| Candidate { id: id.to_string(), display: format!("shown {id}") }).collect()
}

#[test]
fn prompt_unsaved_load_with_variants() {
    let err = prompt_unsaved_load_with(false, PromptOutcome::Chosen(LoadChoice::Cancel)).unwrap_err();
    assert!(err.message().contains("not saved"));
    assert!(matches!(
        prompt_unsaved_load_with(true, PromptOutcome::Chosen(LoadChoice::SaveAndContinue)).unwrap(),
        LoadChoice::SaveAndContinue
    ));
    assert!(matches!(
        prompt_unsaved_load_with(true, PromptOutcome::Chosen(LoadChoice::ContinueWithoutSaving)).unwrap(),
        LoadChoice::ContinueWithoutSaving
    ));
    assert!(matches!(
        prompt_unsaved_load_with(true, PromptOutcome::Chosen(LoadChoice::Cancel)).unwrap(),
        LoadChoice::Cancel
    ));
    let choice = prompt_unsaved_load_with(true, PromptOutcome::Cancelled).unwrap();
    assert!(matches!(choice, LoadChoice::Cancel));
}

#[test]
fn confirm_delete_profiles_with_variants() {
    let err = confirm_delete_profiles_with(false, PromptOutcome::Chosen(true)).unwrap_err();
    assert!(err.message().contains("requires confirmation"));
    assert!(confirm_delete_profiles_with(true, PromptOutcome::Chosen(true)).unwrap());
    let err = confirm_delete_profiles_with(true, PromptOutcome::Cancelled).unwrap_err();
    assert_eq!(err.message(), "Cancelled.");
}

#[test]
fn handle_inquire_result_variants() {
    assert_eq!(handle_inquire_result(PromptOutcome::Chosen(1), "selection").unwrap(), 1);
    let err = handle_inquire_result::<()>(PromptOutcome::Cancelled, "selection").unwrap_err();
    assert_eq!(err.message(), "Cancelled.");
    let err = handle_inquire_result::<()>(PromptOutcome::Failed("io".to_string()), "selection").unwrap_err();
    assert_eq!(err.message(), "Could not read the selection: io");
}

#[test]
fn selection_by_id_and_label() {
    let c = cands(&["a", "b"]);
    assert_eq!(select_by_id("b", &c).unwrap().display, "shown b");
    let err = select_by_id("z", &c).unwrap_err();
    assert!(matches!(err, ProfileError::IdNoMatch(ref id) if id == "z"));
    let mut labels = Labels::new();
    labels.insert("work".to_string(), "b".to_string());
    labels.insert("gone".to_string(), "x".to_string());
    assert_eq!(select_by_label(" work", &labels, &c).unwrap().id, "b");
    assert!(matches!(select_by_label("gone", &labels, &c), Err(ProfileError::LabelNoMatch(_))));
    assert!(matches!(select_by_label("none", &labels, &c), Err(ProfileError::LabelNotFound(_))));
}

#[test]
fn select_many_dedupes_and_stops_at_unknown() {
    let c = cands(&["a", "b", "c"]);
    let ids: Vec<String> = ["c", "a", "c"].iter().map(|s| s.to_string()).collect();
    let picked = select_many_by_id(&ids, &c).unwrap();
    let got: Vec<&str> = picked.iter().map(|x| x.id.as_str()).collect();
    assert_eq!(got, vec!["c", "a"]);
    let bad: Vec<String> = ["a", "q", "r"].iter().map(|s| s.to_string()).collect();
    assert!(matches!(select_many_by_id(&bad, &c), Err(ProfileError::IdNoMatch(ref id)) if id == "q"));
}

#[test]
fn picking_without_selector_asks_the_user() {
    let c = cands(&["a"]);
    let labels = Labels::new();
    assert!(pick_one(None, None, &labels, &c).is_none());
    assert!(pick_many(None, &Vec::new(), &labels, &c).is_none());
    assert_eq!(pick_one(None, Some("a"), &labels, &c).unwrap().unwrap().id, "a");
    assert!(matches!(require_selection(Vec::new()), Err(ProfileError::Cancelled)));
    assert_eq!(require_selection(c).unwrap().len(), 1);
}

#[test]
fn candidate_facts_take_labels_tokens_then_index() {

    let mut labels = Labels::new();
    labels.insert("work".to_string(), "a".to_string());
    let mut tokens: TokensMap = StrMap::new();
    tokens.insert(
        "a".to_string(),
        Ok(TokenSummary {
            email: Some("a@ex.com".to_string()),
            plan: Some("team".to_string()),
            account_id: None,
            is_api_key: false,
            identity: None,
        }),
    );
    tokens.insert("b".to_string(), Err("unreadable".to_string()));
    let mut index = ProfilesIndex::default();
    let mut entry = ProfileIndexEntry::default();
    entry.email = Some("b@ex.com".to_string());
    entry.plan = Some("plus".to_string());
    index.profiles.insert("b".to_string(), entry);
    let snapshot = Snapshot { labels, tokens, index };
    let ordered = vec!["a".to_string(), "b".to_string(), "c".to_string()];
    let facts = candidate_facts(&ordered, &snapshot, Some("b"));
    assert_eq!(facts.len(), 3);
    assert_eq!(facts[0].id, "a");
    assert_eq!(facts[0].label.as_deref(), Some("work"));
    assert_eq!(facts[0].email.as_deref(), Some("a@ex.com"));
    assert_eq!(facts[0].plan.as_deref(), Some("team"));
    assert!(!facts[0].is_current);
    assert_eq!(facts[1].label, None);
    assert_eq!(facts[1].email.as_deref(), Some("b@ex.com"));
    assert_eq!(facts[1].plan.as_deref(), Some("plus"));
    assert!(facts[1].is_current);
    assert_eq!(facts[2].email, None);
    assert_eq!(facts[2].plan, None);
    assert!(!facts[2].is_current);
}

#[test]
fn build_candidates_marks_the_active_profile() {
    let facts = vec![
        CandidateFacts { id: "a".to_string(), label: None, email: None, plan: None, is_current: false },
        CandidateFacts { id: "b".to_string(), label: None, email: None, plan: None, is_current: true },
    ];
    let displays = vec!["one".to_string(), "two".to_string()];
    let out = build_candidates(&facts, &displays, false);
    assert_eq!(out.len(), 2);
    assert_eq!(out[0].id, "a");
    assert_eq!(out[0].display, "one");
    assert_eq!(out[1].id, "b");
    assert_eq!(out[1].display, "two <- active");
}
