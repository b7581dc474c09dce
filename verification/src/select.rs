//! Choosing saved profiles by label or by id among the offered candidates.
use vstd::prelude::*;

use crate::error::ProfileError;
use crate::entries::{active_marker, current_profile_marker, dim_italic_start, profile_email_plan};
use crate::identity::opt_view;
use crate::index::index_view;
use crate::labels::{has_label_for, is_first_label_for, label_map, labels_by_id, resolve_label_id, Labels};
use crate::order::Snapshot;
use crate::ui::style_reset;
use crate::text::{str_eq, trim, vec_contains_str, views};

verus! {

/// A profile offered for selection: its id and how it is shown.
#[derive(Debug)]
pub struct Candidate {
    pub id: String,
    pub display: String,
}

impl Candidate {
    /// A copy of the candidate.
    pub fn copy(&self) -> (r: Candidate)
        ensures
            r.id@ == self.id@,
            r.display@ == self.display@,
    {
        Candidate { id: self.id.clone(), display: self.display.clone() }
    }
}

/// `i` is the first position in `cands` whose id is `id`.
pub open spec fn is_first_with_id(cands: Seq<Candidate>, id: Seq<char>, i: int) -> bool {
    &&& 0 <= i < cands.len()
    &&& cands[i].id@ == id
    &&& forall|j: int| 0 <= j < i ==> (#[trigger] cands[j]).id@ != id
}

/// Some candidate has id `id`.
pub open spec fn has_id(cands: Seq<Candidate>, id: Seq<char>) -> bool {
    exists|i: int| 0 <= i < cands.len() && (#[trigger] cands[i]).id@ == id
}

/// `c` copies the first candidate whose id is `id`.
pub open spec fn copies_first_with_id(cands: Seq<Candidate>, id: Seq<char>, c: Candidate) -> bool {
    exists|i: int| #[trigger] is_first_with_id(cands, id, i) && c.id@ == cands[i].id@
        && c.display@ == cands[i].display@
}

/// What selecting `id` among `cands` gives: the first candidate with that
/// id, or `IdNoMatch` when none has it.
pub open spec fn selects_by_id(cands: Seq<Candidate>, id: Seq<char>, r: Result<Candidate, ProfileError>) -> bool {
    &&& r is Ok <==> has_id(cands, id)
    &&& r matches Ok(c) ==> copies_first_with_id(cands, id, c)
    &&& r matches Err(e) ==> e matches ProfileError::IdNoMatch(x) && x@ == id
}

/// The first candidate whose id is `id`; refused when none has it.
pub fn select_by_id(id: &str, candidates: &Vec<Candidate>) -> (r: Result<Candidate, ProfileError>)
    ensures
        selects_by_id(candidates@, id@, r),
{
    let mut i: usize = 0;
    while i < candidates.len()
        invariant
            i <= candidates@.len(),
            forall|j: int| 0 <= j < i ==> (#[trigger] candidates@[j]).id@ != id@,
        decreases candidates.len() - i,
    {
        if str_eq(candidates[i].id.as_str(), id) {
            let c = candidates[i].copy();
            assert(is_first_with_id(candidates@, id@, i as int));
            return Ok(c);
        }
        i = i + 1;
    }
    Err(ProfileError::IdNoMatch(String::from_str(id)))
}

/// What selecting by label `raw` gives: refused when the label is empty or
/// names no profile; otherwise the first candidate with the id it names, or
/// `LabelNoMatch` when none has it.
pub open spec fn selects_by_label(
    m: Map<Seq<char>, Seq<char>>,
    cands: Seq<Candidate>,
    raw: Seq<char>,
    r: Result<Candidate, ProfileError>,
) -> bool {
    if trim(raw).len() == 0 {
        r matches Err(ProfileError::LabelEmpty)
    } else if !m.contains_key(trim(raw)) {
        r matches Err(ProfileError::LabelNotFound(l)) && l@ == trim(raw)
    } else {
        let id = m[trim(raw)];
        &&& r is Ok <==> has_id(cands, id)
        &&& r matches Ok(c) ==> copies_first_with_id(cands, id, c)
        &&& r matches Err(e) ==> e matches ProfileError::LabelNoMatch(l) && l@ == raw
    }
}

/// The candidate named by `label`. Refused when the label is empty or names
/// no profile, and when the profile it names is not among the candidates.
pub fn select_by_label(label: &str, labels: &Labels, candidates: &Vec<Candidate>) -> (r: Result<Candidate, ProfileError>)
    ensures
        selects_by_label(label_map(labels), candidates@, label@, r),
{
    let id = resolve_label_id(labels, label)?;
    match select_by_id(id.as_str(), candidates) {
        Ok(c) => Ok(c),
        Err(_) => Err(ProfileError::LabelNoMatch(String::from_str(label))),
    }
}

/// The ids of `s` in order, each kept at its first occurrence only.
pub open spec fn dedup(s: Seq<Seq<char>>) -> Seq<Seq<char>>
    decreases s.len(),
{
    if s.len() == 0 {
        Seq::empty()
    } else {
        let d = dedup(s.drop_last());
        if d.contains(s.last()) {
            d
        } else {
            d.push(s.last())
        }
    }
}

/// `dedup` keeps exactly the members of `s`.
pub proof fn lemma_dedup_members(s: Seq<Seq<char>>)
    ensures
        forall|x: Seq<char>| #[trigger] dedup(s).contains(x) <==> s.contains(x),
    decreases s.len(),
{
    if s.len() > 0 {
        lemma_dedup_members(s.drop_last());
        let d = dedup(s.drop_last());
        assert forall|x: Seq<char>| #[trigger] dedup(s).contains(x) <==> s.contains(x) by {
            if s.drop_last().contains(x) {
                let j = choose|j: int| 0 <= j < s.drop_last().len() && s.drop_last()[j] == x;
                assert(s[j] == x);
            }
            if s.contains(x) {
                let j = choose|j: int| 0 <= j < s.len() && s[j] == x;
                if j < s.len() - 1 {
                    assert(s.drop_last()[j] == x);
                }
            }
            if !d.contains(s.last()) && d.push(s.last()).contains(x) {
                let j = choose|j: int| 0 <= j < d.push(s.last()).len() && d.push(s.last())[j] == x;
                if j < d.len() {
                    assert(d[j] == x);
                }
            }
            if !d.contains(s.last()) && d.contains(x) {
                let j = choose|j: int| 0 <= j < d.len() && d[j] == x;
                assert(d.push(s.last())[j] == x);
            }
            if !d.contains(s.last()) && x == s.last() {
                assert(d.push(s.last())[d.len() as int] == x);
            }
        }
    }
}

/// One candidate per distinct id of `ids`, in the order the ids first
/// occur. Refused at the first of those ids that no candidate has.
pub fn select_many_by_id(ids: &Vec<String>, candidates: &Vec<Candidate>) -> (r: Result<Vec<Candidate>, ProfileError>)
    ensures
        r is Ok <==> forall|k: int|
            0 <= k < dedup(views(ids@)).len() ==> has_id(candidates@, #[trigger] dedup(views(ids@))[k]),
        r matches Ok(v) ==> v@.len() == dedup(views(ids@)).len() && forall|k: int|
            0 <= k < v@.len() ==> copies_first_with_id(
                candidates@,
                dedup(views(ids@))[k],
                #[trigger] v@[k],
            ),
        r matches Err(e) ==> names_first_missing(candidates@, dedup(views(ids@)), e),
{
    let mut selections: Vec<Candidate> = Vec::new();
    let mut seen: Vec<String> = Vec::new();
    let mut i: usize = 0;
    while i < ids.len()
        invariant
            i <= ids@.len(),
            views(seen@) == dedup(views(ids@).take(i as int)),
            selections@.len() == seen@.len(),
            forall|k: int|
                0 <= k < selections@.len() ==> copies_first_with_id(
                    candidates@,
                    views(seen@)[k],
                    #[trigger] selections@[k],
                ),
            forall|k: int| 0 <= k < seen@.len() ==> has_id(candidates@, #[trigger] views(seen@)[k]),
        decreases ids.len() - i,
    {
        let ghost before = views(ids@).take(i as int);
        assert(views(ids@).take(i + 1).drop_last() =~= before);
        assert(views(ids@).take(i + 1).last() == ids@[i as int]@);
        if vec_contains_str(&seen, ids[i].as_str()) {
            i = i + 1;
            continue;
        }
        match select_by_id(ids[i].as_str(), candidates) {
            Ok(c) => {
                selections.push(c);
                seen.push(ids[i].clone());
                proof {
                    assert(views(seen@) =~= dedup(before).push(ids@[i as int]@));
                    assert forall|k: int| 0 <= k < selections@.len() implies copies_first_with_id(
                        candidates@,
                        views(seen@)[k],
                        #[trigger] selections@[k],
                    ) by {
                        if k < selections@.len() - 1 {
                            assert(views(seen@)[k] == dedup(before)[k]);
                        }
                    }
                }
            },
            Err(e) => {
                proof {
                    lemma_dedup_prefix(views(ids@), i as int + 1);
                    let d = dedup(views(ids@).take(i + 1));
                    let full = dedup(views(ids@));
                    let k = seen@.len() as int;
                    assert(d == dedup(before).push(ids@[i as int]@));
                    assert(full.take(d.len() as int) == d);
                    assert(full[k] == d[k]);
                    assert forall|j: int| 0 <= j < k implies has_id(candidates@, #[trigger] full[j]) by {
                        assert(full[j] == d[j]);
                        assert(d[j] == views(seen@)[j]);
                    }
                }
                return Err(e);
            },
        }
        i = i + 1;
    }
    proof {
        assert(views(ids@).take(ids@.len() as int) =~= views(ids@));
    }
    Ok(selections)
}

/// `dedup` of a prefix is a prefix of `dedup`.
pub proof fn lemma_dedup_prefix(s: Seq<Seq<char>>, n: int)
    requires
        0 <= n <= s.len(),
    ensures
        dedup(s).take(dedup(s.take(n)).len() as int) == dedup(s.take(n)),
        dedup(s.take(n)).len() <= dedup(s).len(),
    decreases s.len() - n,
{
    if n == s.len() {
        assert(s.take(n) =~= s);
        assert(dedup(s).take(dedup(s).len() as int) =~= dedup(s));
    } else {
        lemma_dedup_prefix(s, n + 1);
        let a = dedup(s.take(n));
        let b = dedup(s.take(n + 1));
        assert(s.take(n + 1).drop_last() =~= s.take(n));
        assert(b == a || b == a.push(s[n]));
        assert(dedup(s).take(a.len() as int) =~= b.take(a.len() as int));
        assert(b.take(a.len() as int) =~= a);
    }
}

} // verus!

verus! {

/// What a prompt gave: the user's choice, a cancellation, or a failure
/// with its message.
#[derive(Debug)]
pub enum PromptOutcome<T> {
    Chosen(T),
    Cancelled,
    Failed(String),
}

/// What to do when loading while the current profile is not saved.
#[derive(Debug)]
pub enum LoadChoice {
    SaveAndContinue,
    ContinueWithoutSaving,
    Cancel,
}

/// The value a prompt gave; refused when it was cancelled or failed (the
/// failure reported with what was asked for).
pub fn handle_inquire_result<T>(outcome: PromptOutcome<T>, context: &str) -> (r: Result<T, ProfileError>)
    ensures
        match outcome {
            PromptOutcome::Chosen(v) => r == Ok::<T, ProfileError>(v),
            PromptOutcome::Cancelled => r matches Err(ProfileError::Cancelled),
            PromptOutcome::Failed(m) => r matches Err(ProfileError::PromptFailed(c, x)) && c@ == context@
                && x@ == m@,
        },
{
    match outcome {
        PromptOutcome::Chosen(v) => Ok(v),
        PromptOutcome::Cancelled => Err(ProfileError::Cancelled),
        PromptOutcome::Failed(m) => Err(ProfileError::PromptFailed(String::from_str(context), m)),
    }
}

/// The answer to the delete confirmation: refused without a terminal, and
/// when the prompt was cancelled or failed.
pub fn confirm_delete_profiles_with(is_tty: bool, outcome: PromptOutcome<bool>) -> (r: Result<bool, ProfileError>)
    ensures
        !is_tty ==> r matches Err(ProfileError::DeleteConfirmRequired),
        is_tty ==> match outcome {
            PromptOutcome::Chosen(v) => r == Ok::<bool, ProfileError>(v),
            PromptOutcome::Cancelled => r matches Err(ProfileError::Cancelled),
            PromptOutcome::Failed(m) => r matches Err(ProfileError::PromptFailed(c, x)) && c@ == "deletion"@
                && x@ == m@,
        },
{
    if !is_tty {
        return Err(ProfileError::DeleteConfirmRequired);
    }
    handle_inquire_result(outcome, "deletion")
}

/// The choice when loading with an unsaved current profile: refused
/// without a terminal; a cancelled prompt cancels.
pub fn prompt_unsaved_load_with(is_tty: bool, outcome: PromptOutcome<LoadChoice>) -> (r: Result<LoadChoice, ProfileError>)
    ensures
        !is_tty ==> r matches Err(ProfileError::CurrentNotSaved),
        is_tty ==> match outcome {
            PromptOutcome::Chosen(c) => r == Ok::<LoadChoice, ProfileError>(c),
            PromptOutcome::Cancelled => r matches Ok(LoadChoice::Cancel),
            PromptOutcome::Failed(m) => r matches Err(ProfileError::PromptFailed(c, x)) && c@ == "load choice"@
                && x@ == m@,
        },
{
    if !is_tty {
        return Err(ProfileError::CurrentNotSaved);
    }
    match outcome {
        PromptOutcome::Chosen(c) => Ok(c),
        PromptOutcome::Cancelled => Ok(LoadChoice::Cancel),
        PromptOutcome::Failed(m) => Err(ProfileError::PromptFailed(String::from_str("load choice"), m)),
    }
}

/// The profiles picked in a multi-selection; refused as cancelled when none
/// was picked.
pub fn require_selection(selected: Vec<Candidate>) -> (r: Result<Vec<Candidate>, ProfileError>)
    ensures
        selected@.len() == 0 ==> r matches Err(ProfileError::Cancelled),
        selected@.len() > 0 ==> r == Ok::<Vec<Candidate>, ProfileError>(selected),
{
    if selected.len() == 0 {
        Err(ProfileError::Cancelled)
    } else {
        Ok(selected)
    }
}

/// The profile a command picks: by label, else by id; `None` when neither
/// is given, and the user must be asked.
pub fn pick_one(label: Option<&str>, id: Option<&str>, labels: &Labels, candidates: &Vec<Candidate>) -> (r: Option<
    Result<Candidate, ProfileError>,
>)
    ensures
        match label {
            Some(l) => r matches Some(res) && selects_by_label(label_map(labels), candidates@, l@, res),
            None => match id {
                Some(i) => r matches Some(res) && selects_by_id(candidates@, i@, res),
                None => r is None,
            },
        },
{
    match label {
        Some(l) => Some(select_by_label(l, labels, candidates)),
        None => match id {
            Some(i) => Some(select_by_id(i, candidates)),
            None => None,
        },
    }
}

/// `e` names the first of `ids` that no candidate has.
pub open spec fn names_first_missing(cands: Seq<Candidate>, ids: Seq<Seq<char>>, e: ProfileError) -> bool {
    exists|k: int|
        0 <= k < ids.len() && !has_id(cands, #[trigger] ids[k]) && (forall|j: int|
            0 <= j < k ==> has_id(cands, #[trigger] ids[j])) && (e matches ProfileError::IdNoMatch(x) && x@
            == ids[k])
}

/// The profiles a command picks: the one a label names, else those of the
/// ids given; `None` when neither is given, and the user must be asked.
pub fn pick_many(label: Option<&str>, ids: &Vec<String>, labels: &Labels, candidates: &Vec<Candidate>) -> (r: Option<
    Result<Vec<Candidate>, ProfileError>,
>)
    ensures
        label is None && ids@.len() == 0 <==> r is None,
        label matches Some(l) ==> (r matches Some(res) && (exists|one: Result<Candidate, ProfileError>|
            selects_by_label(label_map(labels), candidates@, l@, one) && match one {
                Ok(c) => res matches Ok(v) && v@ == seq![c],
                Err(e) => res == Err::<Vec<Candidate>, ProfileError>(e),
            })),
        label is None && ids@.len() > 0 ==> (r matches Some(res) && (res is Ok <==> forall|k: int|
            0 <= k < dedup(views(ids@)).len() ==> has_id(candidates@, #[trigger] dedup(views(ids@))[k]))
            && (res matches Ok(v) ==> v@.len() == dedup(views(ids@)).len() && forall|k: int|
            0 <= k < v@.len() ==> copies_first_with_id(candidates@, dedup(views(ids@))[k], #[trigger] v@[k]))
            && (res matches Err(e) ==> names_first_missing(candidates@, dedup(views(ids@)), e))),
{
    match label {
        Some(l) => {
            let one = select_by_label(l, labels, candidates);
            let ghost g = one;
            match one {
                Ok(c) => {
                    let mut v: Vec<Candidate> = Vec::new();
                    v.push(c);
                    assert(v@ =~= seq![c]);
                    Some(Ok(v))
                },
                Err(e) => Some(Err(e)),
            }
        },
        None => if ids.len() > 0 {
            Some(select_many_by_id(ids, candidates))
        } else {
            None
        },
    }
}

} // verus!

verus! {

/// What a candidate is shown from: its id, its label, its email and plan,
/// and whether it is the active profile.
#[derive(Debug)]
pub struct CandidateFacts {
    pub id: String,
    pub label: Option<String>,
    pub email: Option<String>,
    pub plan: Option<String>,
    pub is_current: bool,
}

/// `f` holds what the snapshot says of profile `id`: the first label that
/// names it, the email and plan of its credentials when they were read, else
/// those of its index entry, and whether it is the profile `current` names.
pub open spec fn facts_of(snapshot: &Snapshot, current: Option<Seq<char>>, id: Seq<char>, f: CandidateFacts) -> bool {
    &&& f.id@ == id
    &&& match f.label {
        Some(l) => is_first_label_for(label_map(&snapshot.labels), l@, id),
        None => !has_label_for(label_map(&snapshot.labels), id),
    }
    &&& f.is_current == (current == Some(id))
    &&& if snapshot.tokens@.contains_key(id) && snapshot.tokens@[id] is Ok {
        opt_view(f.email) == opt_view(snapshot.tokens@[id]->Ok_0.email) && opt_view(f.plan)
            == opt_view(snapshot.tokens@[id]->Ok_0.plan)
    } else if index_view(&snapshot.index).contains_key(id) {
        opt_view(f.email) == index_view(&snapshot.index)[id].email && opt_view(f.plan)
            == index_view(&snapshot.index)[id].plan
    } else {
        f.email is None && f.plan is None
    }
}

/// The facts of each id of `ordered`, in that order.
pub fn candidate_facts(ordered: &Vec<String>, snapshot: &Snapshot, current_saved_id: Option<&str>) -> (r: Vec<
    CandidateFacts,
>)
    ensures
        r@.len() == ordered@.len(),
        forall|i: int|
            0 <= i < r@.len() ==> facts_of(
                snapshot,
                match current_saved_id {
                    Some(c) => Some(c@),
                    None => None,
                },
                ordered@[i]@,
                #[trigger] r@[i],
            ),
{
    let ghost current = match current_saved_id {
        Some(c) => Some(c@),
        None => None::<Seq<char>>,
    };
    let by_id = labels_by_id(&snapshot.labels);
    let mut out: Vec<CandidateFacts> = Vec::new();
    let mut i: usize = 0;
    while i < ordered.len()
        invariant
            i <= ordered@.len(),
            out@.len() == i,
            current == match current_saved_id {
                Some(c) => Some(c@),
                None => None::<Seq<char>>,
            },
            forall|id: Seq<char>| #[trigger]
                by_id@.contains_key(id) <==> has_label_for(label_map(&snapshot.labels), id),
            forall|id: Seq<char>| #[trigger]
                by_id@.contains_key(id) ==> is_first_label_for(label_map(&snapshot.labels), by_id@[id]@, id),
            forall|k: int| 0 <= k < i ==> facts_of(snapshot, current, ordered@[k]@, #[trigger] out@[k]),
        decreases ordered@.len() - i,
    {
        let id = &ordered[i];
        let label = match by_id.get(id.as_str()) {
            Some(l) => Some(l.clone()),
            None => None,
        };
        let tokens = match snapshot.tokens.get(id.as_str()) {
            Some(Ok(t)) => Some(t),
            _ => None,
        };
        let entry = snapshot.index.profiles.get(id.as_str());
        let (email, plan) = profile_email_plan(tokens, entry);
        let is_current = match current_saved_id {
            Some(c) => str_eq(c, id.as_str()),
            None => false,
        };
        let f = CandidateFacts { id: id.clone(), label, email, plan, is_current };
        proof {
            assert(index_view(&snapshot.index).contains_key(id@) <==> snapshot.index.profiles@.contains_key(id@));
            if let Some(e) = entry {
                assert(index_view(&snapshot.index)[id@] == e@);
            }
        }
        out.push(f);
        i = i + 1;
    }
    out
}

/// The candidates offered for `facts`, each shown as its display with the
/// active marker after it when it is the active profile.
pub fn build_candidates(facts: &Vec<CandidateFacts>, displays: &Vec<String>, use_color: bool) -> (r: Vec<Candidate>)
    requires
        facts@.len() == displays@.len(),
    ensures
        r@.len() == facts@.len(),
        forall|i: int|
            0 <= i < r@.len() ==> (#[trigger] r@[i]).id@ == facts@[i].id@ && (if !facts@[i].is_current {
                r@[i].display@ == displays@[i]@
            } else if !use_color {
                r@[i].display@ == displays@[i]@ + active_marker()
            } else {
                r@[i].display@ == displays@[i]@ + active_marker() || r@[i].display@ == displays@[i]@
                    + dim_italic_start() + active_marker() + style_reset()
            }),
{
    let mut out: Vec<Candidate> = Vec::new();
    let mut i: usize = 0;
    while i < facts.len()
        invariant
            i <= facts@.len(),
            facts@.len() == displays@.len(),
            out@.len() == i,
            forall|k: int|
                0 <= k < i ==> (#[trigger] out@[k]).id@ == facts@[k].id@ && (if !facts@[k].is_current {
                    out@[k].display@ == displays@[k]@
                } else if !use_color {
                    out@[k].display@ == displays@[k]@ + active_marker()
                } else {
                    out@[k].display@ == displays@[k]@ + active_marker() || out@[k].display@
                        == displays@[k]@ + dim_italic_start() + active_marker() + style_reset()
                }),
        decreases facts@.len() - i,
    {
        let mut display = displays[i].clone();
        if facts[i].is_current {
            let marker = current_profile_marker(use_color);
            display.append(marker.as_str());
            proof {
                assert(displays@[i as int]@ + (dim_italic_start() + active_marker() + style_reset())
                    =~= displays@[i as int]@ + dim_italic_start() + active_marker() + style_reset());
            }
        }
        out.push(Candidate { id: facts[i].id.clone(), display });
        i = i + 1;
    }
    out
}

} // verus!
