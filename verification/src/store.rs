//! The saved profiles as read from disk: each id with its credentials or the
//! reason they could not be read.
use vstd::prelude::*;

use crate::identity::{matches_identity, summary_matches, IdentityView, ProfileIdentityKey, TokenSummary};
use crate::paths::{path_profile_id, profile_id_from_path};
use crate::index::{
    entry_or_empty, index_labels, index_view, labels_from_index, prune_profiles_index,
    sync_profiles_index, EntryView, ProfileIndexEntry, ProfilesIndex,
};
use crate::labels::{first_label, label_map, prune_labels, Labels};
use crate::order::Snapshot;
use crate::strmap::StrMap;
use crate::text::{insert_sorted, strictly_sorted, views};

verus! {

/// Each saved profile id with what reading its credentials gave.
pub type TokensMap = StrMap<Result<TokenSummary, String>>;

/// The table that a listing of credential files describes: each file's
/// profile id with its read result; a later file of the same id wins, and
/// files that name no id are skipped.
pub open spec fn tokens_map_of(files: Seq<(String, Result<TokenSummary, String>)>) -> Map<
    Seq<char>,
    Result<TokenSummary, String>,
>
    decreases files.len(),
{
    if files.len() == 0 {
        Map::empty()
    } else {
        let prev = tokens_map_of(files.drop_last());
        match path_profile_id(files.last().0@) {
            Some(id) => prev.insert(id, files.last().1),
            None => prev,
        }
    }
}

/// The saved profiles, by id, from the listing of their credential files
/// (each path with the result of reading it).
pub fn load_profile_tokens_map(files: Vec<(String, Result<TokenSummary, String>)>) -> (map: TokensMap)
    ensures
        map@ == tokens_map_of(files@),
{
    let ghost f0 = files@;
    let mut files = files;
    let mut map: TokensMap = StrMap::new();
    let mut done: usize = 0;
    let total = files.len();
    while files.len() > 0
        invariant
            total == f0.len(),
            done + files@.len() == f0.len(),
            files@ == f0.skip(done as int),
            map@ == tokens_map_of(f0.take(done as int)),
        decreases files.len(),
    {
        let (path, result) = files.remove(0);
        assert(f0.take(done + 1).drop_last() =~= f0.take(done as int));
        assert(f0.take(done + 1).last() == (path, result));
        match profile_id_from_path(path.as_str()) {
            Some(stem) => {
                map.insert(stem, result);
            },
            None => {},
        }
        assert(files@ =~= f0.skip(done + 1));
        done = done + 1;
    }
    assert(f0.take(done as int) =~= f0);
    map
}

/// The ids of the saved profiles that hold the account `identity`.
pub open spec fn matching_ids(m: Map<Seq<char>, Result<TokenSummary, String>>, identity: IdentityView) -> Set<Seq<char>> {
    Set::new(
        |id: Seq<char>|
            m.contains_key(id) && match m[id] {
                Ok(t) => summary_matches(t, identity),
                Err(_) => false,
            },
    )
}

/// The ids of the saved profiles (read successfully) that hold the account
/// `identity`, in increasing order.
pub fn cached_profile_ids(tokens_map: &TokensMap, identity: &ProfileIdentityKey) -> (ids: Vec<String>)
    ensures
        strictly_sorted(views(ids@)),
        views(ids@).to_set() == matching_ids(tokens_map@, identity@),
{
    let n = tokens_map.len();
    let mut ids: Vec<String> = Vec::new();
    let mut i: usize = 0;
    while i < n
        invariant
            n == tokens_map.key_order().len(),
            i <= n,
            forall|a: int, b: int|
                0 <= a < n && 0 <= b < n && a != b ==> tokens_map.key_order()[a]
                    != tokens_map.key_order()[b],
            forall|k: Seq<char>| #[trigger] tokens_map@.contains_key(k) <==> tokens_map.key_order().contains(k),
            strictly_sorted(views(ids@)),
            views(ids@).to_set() == Set::new(
                |id: Seq<char>|
                    (exists|j: int| 0 <= j < i && tokens_map.key_order()[j] == id)
                        && matching_ids(tokens_map@, identity@).contains(id),
            ),
        decreases n - i,
    {
        let (id, result) = tokens_map.entry_at(i);
        let ghost idv = id@;
        let hit = match result {
            Ok(t) => matches_identity(t, identity),
            Err(_) => false,
        };
        proof {
            assert(hit == matching_ids(tokens_map@, identity@).contains(idv));
            if hit {
                assert(!views(ids@).contains(idv)) by {
                    if views(ids@).contains(idv) {
                        assert(views(ids@).to_set().contains(idv));
                        let j = choose|j: int| 0 <= j < i && tokens_map.key_order()[j] == idv;
                    }
                }
            }
        }
        if hit {
            insert_sorted(&mut ids, id.clone());
        }
        proof {
            let target = Set::new(
                |x: Seq<char>|
                    (exists|j: int| 0 <= j < i + 1 && tokens_map.key_order()[j] == x)
                        && matching_ids(tokens_map@, identity@).contains(x),
            );
            assert forall|x: Seq<char>| #[trigger] target.contains(x) == views(ids@).to_set().contains(x) by {
                if exists|j: int| 0 <= j < i + 1 && tokens_map.key_order()[j] == x {
                    let j = choose|j: int| 0 <= j < i + 1 && tokens_map.key_order()[j] == x;
                    if j == i {
                        assert(x == idv);
                    }
                }
                if x == idv {
                    assert(tokens_map.key_order()[i as int] == idv);
                }
            }
            assert(views(ids@).to_set() =~= target);
        }
        i = i + 1;
    }
    proof {
        assert(views(ids@).to_set() =~= matching_ids(tokens_map@, identity@)) by {
            assert forall|x: Seq<char>| #[trigger] matching_ids(tokens_map@, identity@).contains(x) implies (exists|j: int|
                0 <= j < n && tokens_map.key_order()[j] == x) by {
                assert(tokens_map.key_order().contains(x));
            }
        }
    }
    ids
}

} // verus!

verus! {

/// `m` is in `s` and comes before every other member of `s`.
pub open spec fn is_least(s: Seq<Seq<char>>, m: Seq<char>) -> bool {
    &&& s.contains(m)
    &&& forall|i: int| 0 <= i < s.len() ==> s[i] == m || crate::text::seq_lt(m, #[trigger] s[i])
}

/// The profile ids of the listed credential files that read successfully
/// and hold the account `k`, in listing order.
pub open spec fn scanned_ids(files: Seq<(String, Result<TokenSummary, String>)>, k: IdentityView) -> Seq<Seq<char>>
    decreases files.len(),
{
    if files.len() == 0 {
        Seq::empty()
    } else {
        let prev = scanned_ids(files.drop_last(), k);
        match files.last().1 {
            Ok(t) => if summary_matches(t, k) {
                match path_profile_id(files.last().0@) {
                    Some(id) => prev.push(id),
                    None => prev,
                }
            } else {
                prev
            },
            Err(_) => prev,
        }
    }
}

/// The ids of the listed profiles that hold the account `identity`.
pub fn scan_profile_ids(files: &Vec<(String, Result<TokenSummary, String>)>, identity: &ProfileIdentityKey) -> (ids: Vec<String>)
    ensures
        views(ids@) == scanned_ids(files@, identity@),
{
    let mut ids: Vec<String> = Vec::new();
    let mut i: usize = 0;
    while i < files.len()
        invariant
            i <= files@.len(),
            views(ids@) == scanned_ids(files@.take(i as int), identity@),
        decreases files.len() - i,
    {
        assert(files@.take(i + 1).drop_last() =~= files@.take(i as int));
        assert(files@.take(i + 1).last() == files@[i as int]);
        let (path, result) = (&files[i].0, &files[i].1);
        match result {
            Ok(t) => {
                if matches_identity(t, identity) {
                    match profile_id_from_path(path.as_str()) {
                        Some(stem) => {
                            let ghost before = views(ids@);
                            ids.push(stem);
                            assert(views(ids@) =~= before.push(ids@.last()@));
                        },
                        None => {},
                    }
                }
            },
            Err(_) => {},
        }
        i = i + 1;
    }
    assert(files@.take(files@.len() as int) =~= files@);
    ids
}

/// The id a save of `tokens` goes to: the least id among the listed
/// profiles that hold the same account, or `fresh_id` when none does.
/// Credentials without a complete identity are refused.
pub fn resolve_save_id(
    files: &Vec<(String, Result<TokenSummary, String>)>,
    tokens: &TokenSummary,
    fresh_id: String,
) -> (r: Result<String, crate::error::ProfileError>)
    ensures
        tokens.identity is None ==> r == Err::<String, crate::error::ProfileError>(
            crate::error::ProfileError::IncompleteAccount,
        ),
        tokens.identity matches Some(k) ==> (r matches Ok(id) && (if scanned_ids(files@, k@).len() > 0 {
            is_least(scanned_ids(files@, k@), id@)
        } else {
            id@ == fresh_id@
        })),
{
    match &tokens.identity {
        None => Err(crate::error::ProfileError::IncompleteAccount),
        Some(k) => {
            let candidates = scan_profile_ids(files, k);
            match crate::identity::pick_primary(&candidates) {
                Some(id) => {
                    assert(is_least(views(candidates@), id@)) by {
                        assert forall|i: int| 0 <= i < views(candidates@).len() implies views(candidates@)[i] == id@
                            || crate::text::seq_lt(id@, #[trigger] views(candidates@)[i]) by {
                            assert(views(candidates@)[i] == candidates@[i]@);
                        }
                    }
                    Ok(id)
                },
                None => Ok(fresh_id),
            }
        },
    }
}

/// The id that current credentials are synced into: the least id among the
/// listed profiles holding the same account; none when there is none or the
/// credentials carry no complete identity.
pub fn resolve_sync_id(files: &Vec<(String, Result<TokenSummary, String>)>, tokens: &TokenSummary) -> (r: Option<String>)
    ensures
        tokens.identity is None ==> r is None,
        tokens.identity matches Some(k) ==> (if scanned_ids(files@, k@).len() > 0 {
            r matches Some(id) && is_least(scanned_ids(files@, k@), id@)
        } else {
            r is None
        }),
{
    match &tokens.identity {
        None => None,
        Some(k) => {
            let candidates = scan_profile_ids(files, k);
            let r = crate::identity::pick_primary(&candidates);
            proof {
                if r is Some {
                    let id = r->0;
                    assert forall|i: int| 0 <= i < views(candidates@).len() implies views(candidates@)[i] == id@
                        || crate::text::seq_lt(id@, #[trigger] views(candidates@)[i]) by {
                        assert(views(candidates@)[i] == candidates@[i]@);
                    }
                }
            }
            r
        },
    }
}

} // verus!

verus! {

/// `m` is in `s` and comes before every other member of `s`.
pub open spec fn is_least_in(s: Set<Seq<char>>, m: Seq<char>) -> bool {
    &&& s.contains(m)
    &&& forall|x: Seq<char>| #[trigger] s.contains(x) ==> x == m || crate::text::seq_lt(m, x)
}

/// The identity that the current credentials carry, if they were read and
/// carry one.
pub open spec fn current_identity(current: Option<TokenSummary>) -> Option<IdentityView> {
    match current {
        Some(t) => match t.identity {
            Some(k) => Some(k@),
            None => None,
        },
        None => None,
    }
}

/// The saved profile that holds the current account: the least id among the
/// saved profiles with the same identity.
pub fn current_saved_id(current: Option<&TokenSummary>, tokens_map: &TokensMap) -> (r: Option<String>)
    ensures
        match current_identity(match current {
            Some(t) => Some(*t),
            None => None,
        }) {
            Some(k) => if matching_ids(tokens_map@, k) != Set::<Seq<char>>::empty() {
                r matches Some(id) && is_least_in(matching_ids(tokens_map@, k), id@)
            } else {
                r is None
            },
            None => r is None,
        },
{
    let t = match current {
        Some(t) => t,
        None => return None,
    };
    let k = match &t.identity {
        Some(k) => k,
        None => return None,
    };
    let candidates = cached_profile_ids(tokens_map, k);
    let r = crate::identity::pick_primary(&candidates);
    proof {
        let s = matching_ids(tokens_map@, k@);
        assert(views(candidates@).to_set() == s);
        if r is Some {
            let id = r->0;
            assert forall|x: Seq<char>| #[trigger] s.contains(x) implies x == id@ || crate::text::seq_lt(id@, x) by {
                assert(views(candidates@).to_set().contains(x));
                let i = choose|i: int| 0 <= i < views(candidates@).len() && views(candidates@)[i] == x;
                assert(candidates@[i]@ == x);
            }
            assert(views(candidates@).to_set().contains(id@));
        } else {
            assert(views(candidates@) =~= Seq::<Seq<char>>::empty());
            assert(s =~= Set::<Seq<char>>::empty());
        }
    }
    r
}

/// What `unsaved_reason` reports.
pub open spec fn unsaved_message() -> Seq<char> {
    "The current credentials match no saved profile."@
}

/// Why the current credentials count as unsaved: they carry an identity that
/// no saved profile holds. None when they are saved, unreadable or carry no
/// identity.
pub fn unsaved_reason(current: Option<&TokenSummary>, tokens_map: &TokensMap) -> (r: Option<String>)
    ensures
        match current_identity(match current {
            Some(t) => Some(*t),
            None => None,
        }) {
            Some(k) => if matching_ids(tokens_map@, k) == Set::<Seq<char>>::empty() {
                r matches Some(msg) && msg@ == unsaved_message()
            } else {
                r is None
            },
            None => r is None,
        },
{
    let t = match current {
        Some(t) => t,
        None => return None,
    };
    let k = match &t.identity {
        Some(k) => k,
        None => return None,
    };
    let candidates = cached_profile_ids(tokens_map, k);
    proof {
        let s = matching_ids(tokens_map@, k@);
        if candidates@.len() == 0 {
            assert(views(candidates@) =~= Seq::<Seq<char>>::empty());
            assert(s =~= Set::<Seq<char>>::empty());
        } else {
            assert(views(candidates@).to_set().contains(candidates@[0]@)) by {
                assert(views(candidates@)[0] == candidates@[0]@);
            }
        }
    }
    if candidates.len() == 0 {
        Some(String::from_str("The current credentials match no saved profile."))
    } else {
        None
    }
}

} // verus!

verus! {

/// The index entries once loaded: one for each saved profile, the recorded
/// one or else an empty one; entries of profiles not saved are gone.
pub open spec fn loaded_entries(m: Map<Seq<char>, EntryView>, ids: Set<Seq<char>>) -> Map<Seq<char>, EntryView> {
    Map::new(|k: Seq<char>| ids.contains(k), |k: Seq<char>| entry_or_empty(m, k))
}

/// The labels of `m` that name a saved profile.
pub open spec fn saved_labels(m: Map<Seq<char>, Seq<char>>, ids: Set<Seq<char>>) -> Map<Seq<char>, Seq<char>> {
    Map::new(|l: Seq<char>| m.contains_key(l) && ids.contains(m[l]), |l: Seq<char>| m[l])
}

/// The entries of `m`, each recording the least label that `labels` gives
/// its profile (or none).
pub open spec fn synced_entries(m: Map<Seq<char>, EntryView>, labels: Map<Seq<char>, Seq<char>>) -> Map<
    Seq<char>,
    EntryView,
> {
    Map::new(
        |id: Seq<char>| m.contains_key(id),
        |id: Seq<char>| EntryView { label: first_label(labels, id), ..m[id] },
    )
}

/// The labels and the index, as a command works on them.
#[derive(Debug)]
pub struct ProfileStore {
    pub labels: Labels,
    pub profiles_index: ProfilesIndex,
}

impl ProfileStore {
    /// The store for the saved profiles `saved_ids`, from the index as read:
    /// entries of profiles no longer saved are dropped, each saved profile
    /// gets an entry, and the labels are those the entries give.
    pub fn load(index: ProfilesIndex, saved_ids: &Vec<String>) -> (s: Self)
        ensures
            s.profiles_index.version == index.version,
            index_view(&s.profiles_index) == loaded_entries(index_view(&index), views(saved_ids@).to_set()),
            label_map(&s.labels) == index_labels(index_view(&s.profiles_index)),
            crate::laws::labels_well_formed(label_map(&s.labels)),
    {
        let ghost m0 = index_view(&index);
        let ghost ids = views(saved_ids@);
        let mut index = index;
        prune_profiles_index(&mut index, saved_ids);
        let ghost version = index.version;
        let mut i: usize = 0;
        while i < saved_ids.len()
            invariant
                i <= saved_ids@.len(),
                ids == views(saved_ids@),
                index.version == version,
                index_view(&index) == Map::new(
                    |k: Seq<char>| (ids.contains(k) && m0.contains_key(k)) || ids.take(i as int).contains(k),
                    |k: Seq<char>| entry_or_empty(m0, k),
                ),
            decreases saved_ids.len() - i,
        {
            let ghost before = index_view(&index);
            assert(ids[i as int] == saved_ids@[i as int]@);
            assert(ids.contains(ids[i as int]));
            if !index.profiles.contains_key(saved_ids[i].as_str()) {
                assert(!before.contains_key(ids[i as int]));
                assert(!m0.contains_key(ids[i as int]));
                let e = ProfileIndexEntry::default();
                index.profiles.insert(saved_ids[i].clone(), e);
                assert(index_view(&index) =~= before.insert(ids[i as int], crate::index::empty_entry()));
            } else {
                assert(before.contains_key(ids[i as int]));
            }
            proof {
                let t1 = ids.take(i + 1);
                let t0 = ids.take(i as int);
                assert forall|k: Seq<char>| #[trigger] t1.contains(k) <==> t0.contains(k) || k == ids[i as int] by {
                    if t1.contains(k) {
                        let j = choose|j: int| 0 <= j < t1.len() && t1[j] == k;
                        if j < i {
                            assert(t0[j] == k);
                        }
                    }
                    if t0.contains(k) {
                        let j = choose|j: int| 0 <= j < t0.len() && t0[j] == k;
                        assert(t1[j] == k);
                    }
                    if k == ids[i as int] {
                        assert(t1[i as int] == k);
                    }
                }
                assert(index_view(&index) =~= Map::new(
                    |k: Seq<char>| (ids.contains(k) && m0.contains_key(k)) || ids.take(i + 1).contains(k),
                    |k: Seq<char>| entry_or_empty(m0, k),
                ));
            }
            i = i + 1;
        }
        proof {
            assert(ids.take(saved_ids@.len() as int) =~= ids);
            assert(index_view(&index) =~= loaded_entries(m0, ids.to_set()));
        }
        let labels = labels_from_index(&index);
        ProfileStore { labels, profiles_index: index }
    }

    /// Gets the store ready to be written once the saved profiles are
    /// `saved_ids`: labels and entries of other profiles are dropped, and each
    /// entry records the least label of its profile.
    pub fn save(&mut self, saved_ids: &Vec<String>)
        ensures
            label_map(&final(self).labels) == saved_labels(label_map(&old(self).labels), views(saved_ids@).to_set()),
            final(self).profiles_index.version == old(self).profiles_index.version,
            index_view(&final(self).profiles_index) == synced_entries(
                index_view(&old(self).profiles_index).restrict(views(saved_ids@).to_set()),
                label_map(&final(self).labels),
            ),
    {
        prune_labels(&mut self.labels, saved_ids);
        prune_profiles_index(&mut self.profiles_index, saved_ids);
        sync_profiles_index(&mut self.profiles_index, &self.labels);
        proof {
            assert(label_map(&self.labels) =~= saved_labels(label_map(&old(self).labels), views(saved_ids@).to_set()));
            assert(Set::new(|k: Seq<char>| views(saved_ids@).contains(k)) =~= views(saved_ids@).to_set());
            assert(index_view(&self.profiles_index) =~= synced_entries(
                index_view(&old(self).profiles_index).restrict(views(saved_ids@).to_set()),
                label_map(&self.labels),
            ));
        }
    }
}

/// What a listing command reads: the credentials of the saved profiles, and
/// the index loaded for them (see `ProfileStore::load`) with its labels.
pub fn load_snapshot(tokens: TokensMap, index: ProfilesIndex) -> (s: Snapshot)
    ensures
        s.tokens@ == tokens@,
        s.index.version == index.version,
        index_view(&s.index) == loaded_entries(index_view(&index), tokens@.dom()),
        label_map(&s.labels) == index_labels(index_view(&s.index)),
{
    let ids = tokens.keys();
    let store = ProfileStore::load(index, &ids);
    proof {
        assert(views(ids@).to_set() =~= tokens@.dom());
    }
    Snapshot { labels: store.labels, tokens, index: store.profiles_index }
}

} // verus!
