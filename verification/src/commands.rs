//! What the profile commands decide and change in the store, apart from
//! reading and writing files: label edits, saves, deletions, and the checks
//! and updates of a load.
use vstd::prelude::*;

use crate::error::ProfileError;
use crate::identity::{opt_view, TokenSummary};
use crate::index::{
    entry_or_empty, index_labels, index_view, labels_from_index, update_profiles_index_entry, updated_entry,
    EntryView, ProfilesIndex,
};
use crate::labels::{
    assign_label, first_label, label_for_id, label_map, label_resolution, lemma_label_for_id_is_first_label,
    remove_labels_for_id, resolve_label_id, trim_label, without_id,
};
use crate::managed_files::{
    auth_name, config_name, managed_files_contains_config, managed_files_for_profile,
    managed_files_for_save, profile_files_of,
};
use crate::store::{ProfileStore, TokensMap};
use crate::text::{str_eq, trim, views};

verus! {

/// The profile a label command points at: the one `label` names (trimmed)
/// when a label is given, else `id` when the index has an entry for it.
pub open spec fn label_target(
    m: Map<Seq<char>, Seq<char>>,
    idx: Map<Seq<char>, EntryView>,
    label: Option<Seq<char>>,
    id: Option<Seq<char>>,
) -> Option<Seq<char>> {
    match label {
        Some(l) => if trim(l).len() > 0 && m.contains_key(trim(l)) {
            Some(m[trim(l)])
        } else {
            None
        },
        None => match id {
            Some(i) => if idx.contains_key(i) {
                Some(i)
            } else {
                None
            },
            None => None,
        },
    }
}

/// The error reported when a label command points at no profile.
pub open spec fn label_target_error(label: Option<Seq<char>>, id: Option<Seq<char>>, e: ProfileError) -> bool {
    match label {
        Some(l) => if trim(l).len() == 0 {
            e matches ProfileError::LabelEmpty
        } else {
            e matches ProfileError::LabelNotFound(x) && x@ == trim(l)
        },
        None => e matches ProfileError::IdNoMatch(x) && Some(x@) == id,
    }
}

/// The characters of an optional string slice.
pub open spec fn opt_str(o: Option<&str>) -> Option<Seq<char>> {
    match o {
        Some(s) => Some(s@),
        None => None,
    }
}

/// The profile a label command points at (see `label_target`).
pub fn resolve_label_target_id(store: &ProfileStore, label: Option<&str>, id: Option<&str>) -> (r: Result<String, ProfileError>)
    requires
        label is Some || id is Some,
    ensures
        match label_target(label_map(&store.labels), index_view(&store.profiles_index), opt_str(label), opt_str(id)) {
            Some(t) => r matches Ok(x) && x@ == t,
            None => r matches Err(e) && label_target_error(opt_str(label), opt_str(id), e),
        },
{
    match label {
        Some(l) => resolve_label_id(&store.labels, l),
        None => {
            let i = id.unwrap();
            if store.profiles_index.profiles.contains_key(i) {
                Ok(String::from_str(i))
            } else {
                Err(ProfileError::IdNoMatch(String::from_str(i)))
            }
        },
    }
}

/// The labels once `label` (trimmed) is given to `id`: the other labels of
/// `id` are dropped.
pub open spec fn labels_after_assign(m: Map<Seq<char>, Seq<char>>, label: Seq<char>, id: Seq<char>) -> Map<
    Seq<char>,
    Seq<char>,
> {
    without_id(m, id).insert(trim(label), id)
}

/// Whether `label` can be given to `id` in `m`: it is not empty once
/// trimmed and names no other profile.
pub open spec fn label_assignable(m: Map<Seq<char>, Seq<char>>, label: Seq<char>, id: Seq<char>) -> bool {
    trim(label).len() > 0 && (m.contains_key(trim(label)) ==> m[trim(label)] == id)
}

/// The error of giving `label` to `id` when it cannot be given.
pub open spec fn assign_error(m: Map<Seq<char>, Seq<char>>, label: Seq<char>, e: ProfileError) -> bool {
    if trim(label).len() == 0 {
        e matches ProfileError::LabelEmpty
    } else {
        e matches ProfileError::LabelExists(x) && x@ == trim(label)
    }
}

/// What a save reports: the profile's id, its label, and its managed files.
#[derive(Debug)]
pub struct SavedProfile {
    pub id: String,
    pub label: Option<String>,
    pub managed_files: Vec<String>,
}

/// Records a save of credentials `tokens` into profile `id`: gives it
/// `label` when one is given, then, unless the config is to be included and
/// is missing, records the credentials, the profile's least label and its
/// managed files (`auth.json`, and `config.toml` when included) in its index
/// entry. The store is left unchanged when the save is refused.
pub fn save_profile(
    store: &mut ProfileStore,
    id: &str,
    tokens: &TokenSummary,
    label: Option<&str>,
    include_config: bool,
    config_path: &str,
    config_exists: bool,
) -> (r: Result<SavedProfile, ProfileError>)
    ensures
        ({
            let m0 = label_map(&old(store).labels);
            let label_ok = match label {
                Some(l) => label_assignable(m0, l@, id@),
                None => true,
            };
            let m1 = match label {
                Some(l) => labels_after_assign(m0, l@, id@),
                None => m0,
            };
            let files = if include_config {
                seq![auth_name(), config_name()]
            } else {
                seq![auth_name()]
            };
            &&& !label_ok ==> (r matches Err(e) && assign_error(m0, label->0@, e))
            &&& label_ok && include_config && !config_exists ==> (r matches Err(
                ProfileError::ConfigNotFound(p),
            ) && p@ == config_path@)
            &&& r is Ok <==> label_ok && (include_config ==> config_exists)
            &&& r is Err ==> label_map(&final(store).labels) == m0 && index_view(
                &final(store).profiles_index,
            ) == index_view(&old(store).profiles_index)
            &&& r matches Ok(s) ==> {
                &&& s.id@ == id@
                &&& views(s.managed_files@) == files
                &&& opt_view(s.label) == first_label(m1, id@)
                &&& label_map(&final(store).labels) == m1
                &&& final(store).profiles_index.version == old(store).profiles_index.version
                &&& index_view(&final(store).profiles_index) == index_view(&old(store).profiles_index).insert(
                    id@,
                    updated_entry(
                        entry_or_empty(index_view(&old(store).profiles_index), id@),
                        Some(*tokens),
                        first_label(m1, id@),
                        Some(files),
                    ),
                )
            }
        }),
{
    let managed_files = managed_files_for_save(include_config);
    let ghost m0 = label_map(&store.labels);
    match label {
        Some(l) => {
            let t = trim_label(l)?;
            match store.labels.get(t) {
                Some(existing) => {
                    if !str_eq(existing.as_str(), id) {
                        return Err(ProfileError::LabelExists(String::from_str(t)));
                    }
                },
                None => {},
            }
        },
        None => {},
    }
    if include_config && !config_exists {
        return Err(ProfileError::ConfigNotFound(String::from_str(config_path)));
    }
    match label {
        Some(l) => {
            let assigned = assign_label(&mut store.labels, l, id);
            assert(assigned is Ok);
        },
        None => {},
    }
    let label_display = label_for_id(&store.labels, id);
    proof {
        lemma_label_for_id_is_first_label(label_map(&store.labels), opt_view(label_display), id@);
    }
    let files_copy = crate::index::clone_strings(&managed_files);
    let shown = crate::identity::clone_opt(&label_display);
    update_profiles_index_entry(
        &mut store.profiles_index,
        id,
        Some(tokens),
        label_display,
        Some(files_copy),
    );
    Ok(SavedProfile { id: String::from_str(id), label: shown, managed_files })
}

/// Gives label `to` (trimmed) to the profile that `label` or `id` points
/// at, and reports that profile's id and the label. The store is unchanged
/// when refused.
pub fn set_profile_label(store: &mut ProfileStore, label: Option<&str>, id: Option<&str>, to: &str) -> (r: Result<(String, String), ProfileError>)
    requires
        label is Some || id is Some,
    ensures
        ({
            let m0 = label_map(&old(store).labels);
            match label_target(m0, index_view(&old(store).profiles_index), opt_str(label), opt_str(id)) {
                None => r matches Err(e) && label_target_error(opt_str(label), opt_str(id), e),
                Some(t) => if label_assignable(m0, to@, t) {
                    r matches Ok((x, y)) && x@ == t && y@ == trim(to@) && label_map(&final(store).labels)
                        == labels_after_assign(m0, to@, t)
                } else {
                    r matches Err(e) && assign_error(m0, to@, e)
                },
            }
        }),
        r is Err ==> label_map(&final(store).labels) == label_map(&old(store).labels),
        final(store).profiles_index == old(store).profiles_index,
{
    let target_id = resolve_label_target_id(store, label, id)?;
    let target_label = trim_label(to)?;
    assign_label(&mut store.labels, to, target_id.as_str())?;
    Ok((target_id, String::from_str(target_label)))
}

/// Removes the labels of the profile that `label` or `id` points at, and
/// reports its id. The store is unchanged when refused.
pub fn clear_profile_label(store: &mut ProfileStore, label: Option<&str>, id: Option<&str>) -> (r: Result<String, ProfileError>)
    requires
        label is Some || id is Some,
    ensures
        ({
            let m0 = label_map(&old(store).labels);
            match label_target(m0, index_view(&old(store).profiles_index), opt_str(label), opt_str(id)) {
                None => r matches Err(e) && label_target_error(opt_str(label), opt_str(id), e)
                    && label_map(&final(store).labels) == m0,
                Some(t) => r matches Ok(x) && x@ == t && label_map(&final(store).labels) == without_id(m0, t),
            }
        }),
        final(store).profiles_index == old(store).profiles_index,
{
    let target_id = resolve_label_target_id(store, label, id)?;
    remove_labels_for_id(&mut store.labels, target_id.as_str());
    Ok(target_id)
}

/// Moves label `label` (trimmed) of a profile to `to` (trimmed), and reports
/// the profile's id, the old label and the new one. The store is unchanged
/// when refused.
pub fn rename_profile_label(store: &mut ProfileStore, label: &str, to: &str) -> (r: Result<(String, String, String), ProfileError>)
    ensures
        ({
            let m0 = label_map(&old(store).labels);
            if trim(label@).len() == 0 {
                r matches Err(ProfileError::LabelEmpty)
            } else if !m0.contains_key(trim(label@)) {
                r matches Err(ProfileError::LabelNotFound(x)) && x@ == trim(label@)
            } else if label_assignable(m0, to@, m0[trim(label@)]) {
                r matches Ok((i, a, b)) && i@ == m0[trim(label@)] && a@ == trim(label@) && b@ == trim(to@)
                    && label_map(&final(store).labels) == labels_after_assign(m0, to@, m0[trim(label@)])
            } else {
                r matches Err(e) && assign_error(m0, to@, e)
            }
        }),
        r is Err ==> label_map(&final(store).labels) == label_map(&old(store).labels),
        final(store).profiles_index == old(store).profiles_index,
{
    let old_label = trim_label(label)?;
    let target_id = resolve_label_id(&store.labels, label)?;
    let new_label = trim_label(to)?;
    assign_label(&mut store.labels, to, target_id.as_str())?;
    Ok((target_id, String::from_str(old_label), String::from_str(new_label)))
}

/// Forgets the deleted profiles `ids`: their labels and index entries.
pub fn delete_profile(store: &mut ProfileStore, ids: &Vec<String>)
    ensures
        label_map(&final(store).labels) == Map::new(
            |l: Seq<char>| label_map(&old(store).labels).contains_key(l) && !views(ids@).contains(
                label_map(&old(store).labels)[l],
            ),
            |l: Seq<char>| label_map(&old(store).labels)[l],
        ),
        final(store).profiles_index.version == old(store).profiles_index.version,
        index_view(&final(store).profiles_index) == index_view(&old(store).profiles_index).remove_keys(
            views(ids@).to_set(),
        ),
{
    let ghost m0 = label_map(&store.labels);
    let ghost i0 = index_view(&store.profiles_index);
    let mut k: usize = 0;
    while k < ids.len()
        invariant
            k <= ids@.len(),
            store.profiles_index.version == old(store).profiles_index.version,
            label_map(&store.labels) == Map::new(
                |l: Seq<char>| m0.contains_key(l) && !views(ids@).take(k as int).contains(m0[l]),
                |l: Seq<char>| m0[l],
            ),
            index_view(&store.profiles_index) == i0.remove_keys(views(ids@).take(k as int).to_set()),
        decreases ids.len() - k,
    {
        let ghost t0 = views(ids@).take(k as int);
        let ghost t1 = views(ids@).take(k + 1);
        assert(t1 =~= t0.push(ids@[k as int]@));
        proof {
            assert forall|x: Seq<char>| #[trigger] t1.contains(x) <==> t0.contains(x) || x == ids@[k as int]@ by {
                if t1.contains(x) {
                    let j = choose|j: int| 0 <= j < t1.len() && t1[j] == x;
                    if j < k {
                        assert(t0[j] == x);
                    }
                }
                if t0.contains(x) {
                    let j = choose|j: int| 0 <= j < t0.len() && t0[j] == x;
                    assert(t1[j] == x);
                }
                if x == ids@[k as int]@ {
                    assert(t1[k as int] == x);
                }
            }
        }
        remove_labels_for_id(&mut store.labels, ids[k].as_str());
        let ghost before = index_view(&store.profiles_index);
        store.profiles_index.profiles.remove(ids[k].as_str());
        proof {
            assert(index_view(&store.profiles_index) =~= before.remove(ids@[k as int]@));
            assert(label_map(&store.labels) =~= Map::new(
                |l: Seq<char>| m0.contains_key(l) && !t1.contains(m0[l]),
                |l: Seq<char>| m0[l],
            ));
            assert(index_view(&store.profiles_index) =~= i0.remove_keys(t1.to_set()));
        }
        k = k + 1;
    }
    proof {
        assert(views(ids@).take(ids@.len() as int) =~= views(ids@));
    }
}

/// The characters `Error: ` that start an error message.
pub open spec fn error_prefix() -> Seq<char> {
    seq!['E', 'r', 'r', 'o', 'r', ':', ' ']
}

/// `m` without a leading `Error: `.
pub open spec fn without_error_prefix(m: Seq<char>) -> Seq<char> {
    if m.len() >= 7 && m.take(7) == error_prefix() {
        m.skip(7)
    } else {
        m
    }
}

/// The check of a profile picked for loading: its credentials were read.
/// Refused as invalid, with the read error, when they could not be read,
/// and as not found when the profile is not saved.
pub fn check_selected_profile(tokens: &TokensMap, id: &str) -> (r: Result<(), ProfileError>)
    ensures
        !tokens@.contains_key(id@) ==> r matches Err(ProfileError::ProfileNotFound),
        tokens@.contains_key(id@) ==> match tokens@[id@] {
            Ok(_) => r is Ok,
            Err(msg) => r matches Err(ProfileError::SelectedInvalid(x)) && x@ == without_error_prefix(msg@),
        },
{
    match tokens.get(id) {
        Some(Ok(_)) => Ok(()),
        Some(Err(msg)) => {
            let cs = crate::text::to_chars(msg.as_str());
            let prefix = crate::text::to_chars("Error: ");
            proof {
                reveal_strlit("Error: ");
                assert(prefix@ =~= error_prefix());
            }
            let mut starts = cs.len() >= 7;
            let mut j: usize = 0;
            while starts && j < 7
                invariant
                    j <= 7,
                    prefix@ == error_prefix(),
                    cs@ == msg@,
                    starts ==> cs@.len() >= 7 && forall|q: int| 0 <= q < j ==> cs@[q] == prefix@[q],
                    !starts ==> !(cs@.len() >= 7 && cs@.take(7) == error_prefix()),
                decreases 7 - j,
            {
                if cs[j] != prefix[j] {
                    starts = false;
                    assert(cs@.take(7)[j as int] != error_prefix()[j as int]);
                }
                j = j + 1;
            }
            let text = if starts {
                assert(cs@.take(7) =~= error_prefix());
                crate::text::from_chars_range(cs.as_slice(), 7, cs.len())
            } else {
                crate::text::from_chars(cs.as_slice())
            };
            proof {
                if starts {
                    assert(cs@.subrange(7, cs@.len() as int) =~= cs@.skip(7));
                }
            }
            Err(ProfileError::SelectedInvalid(text))
        },
        None => Err(ProfileError::ProfileNotFound),
    }
}

/// The credentials read for `id`, when they were read.
pub open spec fn read_tokens_of(m: Map<Seq<char>, Result<TokenSummary, String>>, id: Seq<char>) -> Option<TokenSummary> {
    if m.contains_key(id) {
        match m[id] {
            Ok(t) => Some(t),
            Err(_) => None,
        }
    } else {
        None
    }
}

/// What a load reports: the profile's id, its label and its managed files.
#[derive(Debug)]
pub struct LoadedProfile {
    pub id: String,
    pub label: Option<String>,
    pub managed_files: Vec<String>,
}

/// Records a load of profile `id` whose `config.toml` is saved or not
/// (`config_path` being where it would be): refused when the profile
/// manages `config.toml` but it is not saved; otherwise its index entry gets
/// the credentials that were read, its least label and its managed files.
pub fn load_profile(
    store: &mut ProfileStore,
    tokens: &TokensMap,
    id: &str,
    config_saved: bool,
    config_path: &str,
) -> (r: Result<LoadedProfile, ProfileError>)
    ensures
        ({
            let i0 = index_view(&old(store).profiles_index);
            let files = profile_files_of(
                if i0.contains_key(id@) {
                    Some(i0[id@].managed_files)
                } else {
                    None
                },
                config_saved,
            );
            let lbl = first_label(label_map(&old(store).labels), id@);
            &&& files.contains(config_name()) && !config_saved ==> (r matches Err(
                ProfileError::SavedConfigMissing(a, b),
            ) && a@ == id@ && b@ == config_path@ && index_view(&final(store).profiles_index) == i0)
            &&& !(files.contains(config_name()) && !config_saved) ==> (r matches Ok(l) && l.id@ == id@
                && views(l.managed_files@) == files && opt_view(l.label) == lbl && index_view(
                &final(store).profiles_index,
            ) == i0.insert(
                id@,
                updated_entry(entry_or_empty(i0, id@), read_tokens_of(tokens@, id@), lbl, Some(files)),
            ))
            &&& final(store).labels == old(store).labels
            &&& final(store).profiles_index.version == old(store).profiles_index.version
        }),
{
    let managed_files = managed_files_for_profile(store.profiles_index.profiles.get(id), config_saved);
    if managed_files_contains_config(&managed_files) && !config_saved {
        return Err(ProfileError::SavedConfigMissing(String::from_str(id), String::from_str(config_path)));
    }
    let label = label_for_id(&store.labels, id);
    proof {
        lemma_label_for_id_is_first_label(label_map(&store.labels), opt_view(label), id@);
    }
    let read: Option<&TokenSummary> = match tokens.get(id) {
        Some(Ok(t)) => Some(t),
        _ => None,
    };
    let shown = crate::identity::clone_opt(&label);
    let files_copy = crate::index::clone_strings(&managed_files);
    update_profiles_index_entry(&mut store.profiles_index, id, read, label, Some(files_copy));
    Ok(LoadedProfile { id: String::from_str(id), label: shown, managed_files })
}

/// Records a sync of the current credentials `tokens` into profile `id`
/// with managed files `files`: its index entry gets the credentials, the
/// label the index gives the profile, and the files.
pub fn sync_current(index: &mut ProfilesIndex, id: &str, tokens: &TokenSummary, files: Vec<String>)
    ensures
        final(index).version == old(index).version,
        index_view(final(index)) == index_view(old(index)).insert(
            id@,
            updated_entry(
                entry_or_empty(index_view(old(index)), id@),
                Some(*tokens),
                first_label(index_labels(index_view(old(index))), id@),
                Some(views(files@)),
            ),
        ),
{
    let labels = labels_from_index(index);
    let label = label_for_id(&labels, id);
    proof {
        lemma_label_for_id_is_first_label(label_map(&labels), opt_view(label), id@);
    }
    update_profiles_index_entry(index, id, Some(tokens), label, Some(files));
}

} // verus!
