//! The profiles index: per-profile metadata (account, email, plan, label,
//! managed files) kept beside the saved credentials.
use vstd::prelude::*;

use crate::identity::{clone_opt, opt_view, TokenSummary};
use crate::managed_files::{normalize_managed_files, normalized_files};
use crate::strmap::{assoc_map, keys_distinct, lemma_assoc_map, StrMap};
use crate::json_response::{json_object_keys, json_shape};
use crate::text::{decimal, str_eq, u64_to_decimal, vec_contains_str, views};

verus! {

/// The index format version that this library writes.
pub const PROFILES_INDEX_VERSION: u8 = 3;

/// The metadata kept for one saved profile.
#[derive(Debug)]
pub struct ProfileIndexEntry {
    pub account_id: Option<String>,
    pub email: Option<String>,
    pub plan: Option<String>,
    pub label: Option<String>,
    pub is_api_key: bool,
    pub principal_id: Option<String>,
    pub workspace_or_org_id: Option<String>,
    pub plan_type_key: Option<String>,
    pub managed_files: Vec<String>,
}

/// The characters of an index entry's fields.
pub struct EntryView {
    pub account_id: Option<Seq<char>>,
    pub email: Option<Seq<char>>,
    pub plan: Option<Seq<char>>,
    pub label: Option<Seq<char>>,
    pub is_api_key: bool,
    pub principal_id: Option<Seq<char>>,
    pub workspace_or_org_id: Option<Seq<char>>,
    pub plan_type_key: Option<Seq<char>>,
    pub managed_files: Seq<Seq<char>>,
}

impl View for ProfileIndexEntry {
    type V = EntryView;

    open spec fn view(&self) -> EntryView {
        EntryView {
            account_id: opt_view(self.account_id),
            email: opt_view(self.email),
            plan: opt_view(self.plan),
            label: opt_view(self.label),
            is_api_key: self.is_api_key,
            principal_id: opt_view(self.principal_id),
            workspace_or_org_id: opt_view(self.workspace_or_org_id),
            plan_type_key: opt_view(self.plan_type_key),
            managed_files: views(self.managed_files@),
        }
    }
}

/// An entry that records nothing yet.
pub open spec fn empty_entry() -> EntryView {
    EntryView {
        account_id: None,
        email: None,
        plan: None,
        label: None,
        is_api_key: false,
        principal_id: None,
        workspace_or_org_id: None,
        plan_type_key: None,
        managed_files: Seq::empty(),
    }
}

impl Default for ProfileIndexEntry {
    fn default() -> (e: Self)
        ensures
            e@ == empty_entry(),
    {
        let e = ProfileIndexEntry {
            account_id: None,
            email: None,
            plan: None,
            label: None,
            is_api_key: false,
            principal_id: None,
            workspace_or_org_id: None,
            plan_type_key: None,
            managed_files: Vec::new(),
        };
        assert(views(e.managed_files@) =~= Seq::<Seq<char>>::empty());
        e
    }
}

/// A copy of a list of strings.
pub fn clone_strings(v: &Vec<String>) -> (r: Vec<String>)
    ensures
        views(r@) == views(v@),
{
    let mut r: Vec<String> = Vec::new();
    let mut i: usize = 0;
    while i < v.len()
        invariant
            i <= v@.len(),
            views(r@) == views(v@).take(i as int),
        decreases v.len() - i,
    {
        let ghost before = views(r@);
        r.push(v[i].clone());
        assert(views(r@) =~= before.push(v@[i as int]@));
        assert(views(v@).take(i + 1) =~= views(v@).take(i as int).push(v@[i as int]@));
        i = i + 1;
    }
    assert(views(v@).take(v@.len() as int) =~= views(v@));
    r
}

impl ProfileIndexEntry {
    /// A copy of the entry.
    pub fn copy(&self) -> (r: Self)
        ensures
            r@ == self@,
    {
        ProfileIndexEntry {
            account_id: clone_opt(&self.account_id),
            email: clone_opt(&self.email),
            plan: clone_opt(&self.plan),
            label: clone_opt(&self.label),
            is_api_key: self.is_api_key,
            principal_id: clone_opt(&self.principal_id),
            workspace_or_org_id: clone_opt(&self.workspace_or_org_id),
            plan_type_key: clone_opt(&self.plan_type_key),
            managed_files: clone_strings(&self.managed_files),
        }
    }
}

/// The index: its format version and an entry per profile id.
#[derive(Debug)]
pub struct ProfilesIndex {
    pub version: u8,
    pub profiles: StrMap<ProfileIndexEntry>,
}

/// The entries of the index, by id characters.
pub open spec fn index_view(index: &ProfilesIndex) -> Map<Seq<char>, EntryView> {
    index.profiles@.map_values(|e: ProfileIndexEntry| e@)
}

impl Default for ProfilesIndex {
    fn default() -> (i: Self)
        ensures
            i.version == 3,
            index_view(&i) == Map::<Seq<char>, EntryView>::empty(),
    {
        let i = ProfilesIndex { version: PROFILES_INDEX_VERSION, profiles: StrMap::new() };
        assert(index_view(&i) =~= Map::<Seq<char>, EntryView>::empty());
        i
    }
}

/// The index format version that this library writes.
pub fn profiles_index_version() -> (v: u8)
    ensures
        v == 3,
{
    PROFILES_INDEX_VERSION
}

/// `e` with what credentials tell of the account.
pub open spec fn with_tokens(e: EntryView, t: TokenSummary) -> EntryView {
    let e1 = EntryView {
        email: opt_view(t.email),
        plan: opt_view(t.plan),
        account_id: opt_view(t.account_id),
        is_api_key: t.is_api_key,
        ..e
    };
    match t.identity {
        Some(k) => EntryView {
            principal_id: Some(k.principal_id@),
            workspace_or_org_id: Some(k.workspace_or_org_id@),
            plan_type_key: Some(k.plan_type@),
            ..e1
        },
        None => e1,
    }
}

/// `e` after an update with optional credentials, label and file list.
pub open spec fn updated_entry(
    e: EntryView,
    tokens: Option<TokenSummary>,
    label: Option<Seq<char>>,
    files: Option<Seq<Seq<char>>>,
) -> EntryView {
    let e1 = match tokens {
        Some(t) => with_tokens(e, t),
        None => e,
    };
    let e2 = match label {
        Some(l) => EntryView { label: Some(l), ..e1 },
        None => e1,
    };
    match files {
        Some(f) => EntryView { managed_files: normalized_files(f), ..e2 },
        None => e2,
    }
}

/// The entry for `id`, or an empty one.
pub open spec fn entry_or_empty(m: Map<Seq<char>, EntryView>, id: Seq<char>) -> EntryView {
    if m.contains_key(id) {
        m[id]
    } else {
        empty_entry()
    }
}

/// Records what is known of profile `id`: the account details from its
/// credentials, its label and its managed files, each when given; the
/// entry is created when missing.
pub fn update_profiles_index_entry(
    index: &mut ProfilesIndex,
    id: &str,
    tokens: Option<&TokenSummary>,
    label: Option<String>,
    managed_files: Option<Vec<String>>,
)
    ensures
        final(index).version == old(index).version,
        index_view(final(index)) == index_view(old(index)).insert(
            id@,
            updated_entry(
                entry_or_empty(index_view(old(index)), id@),
                match tokens {
                    Some(t) => Some(*t),
                    None => None,
                },
                opt_view(label),
                match managed_files {
                    Some(f) => Some(views(f@)),
                    None => None,
                },
            ),
        ),
{
    let ghost m = index_view(index);
    let mut entry = match index.profiles.remove(id) {
        Some(e) => e,
        None => ProfileIndexEntry::default(),
    };
    assert(entry@ == entry_or_empty(m, id@));
    match tokens {
        Some(t) => {
            entry.email = clone_opt(&t.email);
            entry.plan = clone_opt(&t.plan);
            entry.account_id = clone_opt(&t.account_id);
            entry.is_api_key = t.is_api_key;
            match &t.identity {
                Some(k) => {
                    entry.principal_id = Some(k.principal_id.clone());
                    entry.workspace_or_org_id = Some(k.workspace_or_org_id.clone());
                    entry.plan_type_key = Some(k.plan_type.clone());
                },
                None => {},
            }
        },
        None => {},
    }
    match label {
        Some(l) => {
            entry.label = Some(l);
        },
        None => {},
    }
    match managed_files {
        Some(f) => {
            entry.managed_files = normalize_managed_files(f);
        },
        None => {},
    }
    let ghost e = entry@;
    index.profiles.insert(String::from_str(id), entry);
    assert(index_view(index) =~= m.insert(id@, e));
}

} // verus!

verus! {

/// Drops the entries of profiles that are not among `saved_ids`.
pub fn prune_profiles_index(index: &mut ProfilesIndex, saved_ids: &Vec<String>)
    ensures
        final(index).version == old(index).version,
        index_view(final(index)) == index_view(old(index)).restrict(
            Set::new(|k: Seq<char>| views(saved_ids@).contains(k)),
        ),
{
    index.profiles.retain_keys_in(saved_ids);
    assert(index_view(index) =~= index_view(old(index)).restrict(
        Set::new(|k: Seq<char>| views(saved_ids@).contains(k)),
    ));
}

/// The label an entry gives its profile: trimmed, and only when not empty.
pub open spec fn entry_label(e: EntryView) -> Option<Seq<char>> {
    match e.label {
        Some(l) => if crate::text::trim(l).len() > 0 {
            Some(crate::text::trim(l))
        } else {
            None
        },
        None => None,
    }
}

/// `id` is the least profile id (in string order) whose entry gives label `l`.
pub open spec fn is_first_id_for_label(m: Map<Seq<char>, EntryView>, id: Seq<char>, l: Seq<char>) -> bool {
    &&& m.contains_key(id)
    &&& entry_label(m[id]) == Some(l)
    &&& forall|id2: Seq<char>| #[trigger]
        m.contains_key(id2) && entry_label(m[id2]) == Some(l) ==> id2 == id || crate::text::seq_lt(id, id2)
}

/// The labels that the entries of `m` give: each non-empty trimmed label
/// names the least profile id whose entry gives it.
pub open spec fn index_labels(m: Map<Seq<char>, EntryView>) -> Map<Seq<char>, Seq<char>> {
    Map::new(
        |l: Seq<char>| exists|id: Seq<char>| m.contains_key(id) && entry_label(m[id]) == Some(l),
        |l: Seq<char>| choose|id: Seq<char>| is_first_id_for_label(m, id, l),
    )
}

/// At most one id is the least one giving label `l`.
pub proof fn lemma_first_id_for_label_unique(m: Map<Seq<char>, EntryView>, a: Seq<char>, b: Seq<char>, l: Seq<char>)
    requires
        is_first_id_for_label(m, a, l),
        is_first_id_for_label(m, b, l),
    ensures
        a == b,
{
    crate::text::lemma_seq_lt_strict_total(a, b);
}

/// The labels that the index records: each non-empty trimmed label names the
/// least profile id whose entry gives it.
pub fn labels_from_index(index: &ProfilesIndex) -> (labels: crate::labels::Labels)
    ensures
        forall|l: Seq<char>| #[trigger]
            labels@.contains_key(l) <==> exists|id: Seq<char>|
                index_view(index).contains_key(id) && entry_label(index_view(index)[id]) == Some(l),
        forall|l: Seq<char>| #[trigger]
            labels@.contains_key(l) ==> is_first_id_for_label(index_view(index), labels@[l]@, l),
        crate::labels::label_map(&labels) == index_labels(index_view(index)),
        crate::laws::labels_well_formed(crate::labels::label_map(&labels)),
{
    let ghost m = index_view(index);
    let n = index.profiles.len();
    let mut out: crate::labels::Labels = StrMap::new();
    let mut i: usize = 0;
    while i < n
        invariant
            n == index.profiles.key_order().len(),
            i <= n,
            m == index_view(index),
            forall|k: Seq<char>| #[trigger] index.profiles@.contains_key(k) <==> index.profiles.key_order().contains(k),
            forall|l: Seq<char>| #[trigger]
                out@.contains_key(l) <==> exists|j: int|
                    0 <= j < i && entry_label(m[index.profiles.key_order()[j]]) == Some(l),
            forall|l: Seq<char>| #[trigger]
                out@.contains_key(l) ==> m.contains_key(out@[l]@) && entry_label(m[out@[l]@]) == Some(l)
                    && forall|j: int|
                    0 <= j < i && entry_label(m[index.profiles.key_order()[j]]) == Some(l)
                        ==> index.profiles.key_order()[j] == out@[l]@ || crate::text::seq_lt(
                        out@[l]@,
                        #[trigger] index.profiles.key_order()[j],
                    ),
        decreases n - i,
    {
        let (id, entry) = index.profiles.entry_at(i);
        let ghost kid = index.profiles.key_order()[i as int];
        assert(m[kid] == entry@);
        match &entry.label {
            Some(raw) => {
                let t = crate::text::trim_str(raw.as_str());
                if t.unicode_len() > 0 {
                    let ghost lo = out@;
                    let replace = match out.get(t.as_str()) {
                        None => true,
                        Some(b) => crate::text::str_lt(id.as_str(), b.as_str()),
                    };
                    proof {
                        if lo.contains_key(t@) {
                            let b = lo[t@];
                            crate::text::lemma_seq_lt_strict_total(id@, b@);
                            assert forall|j: int|
                                0 <= j < i && entry_label(m[index.profiles.key_order()[j]]) == Some(t@)
                                    implies (if replace {
                                index.profiles.key_order()[j] == id@ || crate::text::seq_lt(
                                    id@,
                                    index.profiles.key_order()[j],
                                )
                            } else {
                                index.profiles.key_order()[j] == b@ || crate::text::seq_lt(
                                    b@,
                                    index.profiles.key_order()[j],
                                )
                            }) by {
                                if replace && index.profiles.key_order()[j] != b@ {
                                    crate::text::lemma_seq_lt_transitive(
                                        id@,
                                        b@,
                                        index.profiles.key_order()[j],
                                    );
                                }
                            }
                        }
                    }
                    if replace {
                        out.insert(t.clone(), id.clone());
                    }
                    proof {
                        assert forall|l: Seq<char>| #[trigger]
                            out@.contains_key(l) <==> exists|j: int|
                                0 <= j < i + 1 && entry_label(m[index.profiles.key_order()[j]])
                                    == Some(l) by {
                            if l != t@ && exists|j: int|
                                0 <= j < i + 1 && entry_label(m[index.profiles.key_order()[j]])
                                    == Some(l) {
                                let j = choose|j: int|
                                    0 <= j < i + 1 && entry_label(m[index.profiles.key_order()[j]])
                                        == Some(l);
                                assert(j < i);
                            }
                            if l == t@ {
                                assert(entry_label(m[index.profiles.key_order()[i as int]]) == Some(l));
                            }
                        }
                        assert forall|l: Seq<char>| #[trigger] out@.contains_key(l) implies m.contains_key(
                            out@[l]@,
                        ) && entry_label(m[out@[l]@]) == Some(l) && forall|j: int|
                            0 <= j < i + 1 && entry_label(m[index.profiles.key_order()[j]])
                                == Some(l) ==> index.profiles.key_order()[j] == out@[l]@
                                || crate::text::seq_lt(out@[l]@, #[trigger] index.profiles.key_order()[j]) by {
                            if l == t@ {
                                assert forall|j: int|
                                    0 <= j < i + 1 && entry_label(m[index.profiles.key_order()[j]])
                                        == Some(l) implies index.profiles.key_order()[j] == out@[l]@
                                        || crate::text::seq_lt(out@[l]@, index.profiles.key_order()[j]) by {
                                    if j == i && !replace {
                                        crate::text::lemma_seq_lt_strict_total(id@, out@[l]@);
                                    }
                                }
                            }
                        }
                    }
                } else {
                    proof {
                        assert forall|l: Seq<char>| #[trigger]
                            out@.contains_key(l) <==> exists|j: int|
                                0 <= j < i + 1 && entry_label(m[index.profiles.key_order()[j]])
                                    == Some(l) by {
                            if exists|j: int|
                                0 <= j < i + 1 && entry_label(m[index.profiles.key_order()[j]])
                                    == Some(l) {
                                let j = choose|j: int|
                                    0 <= j < i + 1 && entry_label(m[index.profiles.key_order()[j]])
                                        == Some(l);
                                assert(j < i);
                            }
                        }
                    }
                }
            },
            None => {
                proof {
                    assert forall|l: Seq<char>| #[trigger]
                        out@.contains_key(l) <==> exists|j: int|
                            0 <= j < i + 1 && entry_label(m[index.profiles.key_order()[j]]) == Some(l) by {
                        if exists|j: int|
                            0 <= j < i + 1 && entry_label(m[index.profiles.key_order()[j]]) == Some(l) {
                            let j = choose|j: int|
                                0 <= j < i + 1 && entry_label(m[index.profiles.key_order()[j]])
                                    == Some(l);
                            assert(j < i);
                        }
                    }
                }
            },
        }
        i = i + 1;
    }
    proof {
        assert forall|l: Seq<char>| #[trigger]
            out@.contains_key(l) <==> exists|id: Seq<char>|
                m.contains_key(id) && entry_label(m[id]) == Some(l) by {
            if exists|id: Seq<char>| m.contains_key(id) && entry_label(m[id]) == Some(l) {
                let id = choose|id: Seq<char>| m.contains_key(id) && entry_label(m[id]) == Some(l);
                assert(index.profiles.key_order().contains(id));
                let j = choose|j: int| 0 <= j < n && index.profiles.key_order()[j] == id;
            }
            if out@.contains_key(l) {
                let j = choose|j: int| 0 <= j < n && entry_label(m[index.profiles.key_order()[j]]) == Some(l);
                assert(index.profiles.key_order().contains(index.profiles.key_order()[j]));
            }
        }
        assert forall|l: Seq<char>| #[trigger] out@.contains_key(l) implies is_first_id_for_label(
            m,
            out@[l]@,
            l,
        ) by {
            assert forall|id2: Seq<char>| #[trigger]
                m.contains_key(id2) && entry_label(m[id2]) == Some(l) implies id2 == out@[l]@
                || crate::text::seq_lt(out@[l]@, id2) by {
                assert(index.profiles.key_order().contains(id2));
                let j = choose|j: int| 0 <= j < n && index.profiles.key_order()[j] == id2;
            }
        }
        assert forall|l: Seq<char>| #[trigger] out@.contains_key(l) implies out@[l]@ == index_labels(m)[l] by {
            let c = choose|id: Seq<char>| is_first_id_for_label(m, id, l);
            assert(is_first_id_for_label(m, out@[l]@, l));
            lemma_first_id_for_label_unique(m, out@[l]@, c, l);
        }
        assert(crate::labels::label_map(&out) =~= index_labels(m));
        assert forall|l: Seq<char>| #[trigger] index_labels(m).contains_key(l) implies is_first_id_for_label(
            m,
            index_labels(m)[l],
            l,
        ) by {
            assert(out@.contains_key(l));
        }
        crate::laws::law_index_labels_well_formed(m);
    }
    out
}

} // verus!

verus! {

/// Writes into each index entry the label that `labels` gives its profile
/// (the least one, or none).
pub fn sync_profiles_index(index: &mut ProfilesIndex, labels: &crate::labels::Labels)
    ensures
        final(index).version == old(index).version,
        index_view(final(index)) == Map::new(
            |id: Seq<char>| index_view(old(index)).contains_key(id),
            |id: Seq<char>|
                EntryView {
                    label: crate::labels::first_label(crate::labels::label_map(labels), id),
                    ..index_view(old(index))[id]
                },
        ),
{
    let ghost m0 = index_view(index);
    let ghost lm = crate::labels::label_map(labels);
    let mut profiles = StrMap::new();
    std::mem::swap(&mut profiles, &mut index.profiles);
    let mut entries = profiles.into_entries();
    let ghost e0 = entries@;
    proof {
        lemma_assoc_map(e0);
    }
    let mut out: Vec<(String, ProfileIndexEntry)> = Vec::new();
    while entries.len() > 0
        invariant
            keys_distinct(e0),
            lm == crate::labels::label_map(labels),
            m0 == assoc_map(e0).map_values(|e: ProfileIndexEntry| e@),
            entries@ == e0.take(entries@.len() as int),
            entries@.len() <= e0.len(),
            out@.len() + entries@.len() == e0.len(),
            forall|j: int| 0 <= j < out@.len() ==> #[trigger] out@[j].0@ == e0[e0.len() - 1 - j].0@,
            forall|j: int|
                0 <= j < out@.len() ==> #[trigger] out@[j].1@ == (EntryView {
                    label: crate::labels::first_label(lm, e0[e0.len() - 1 - j].0@),
                    ..e0[e0.len() - 1 - j].1@
                }),
        decreases entries.len(),
    {
        let ghost n = entries@.len();
        let ghost olen = out@.len();
        let (id, mut entry) = entries.pop().unwrap();
        assert(e0[n - 1] == (id, entry));
        assert(e0.len() - 1 - olen == n - 1);
        let l = crate::labels::label_for_id(labels, id.as_str());
        proof {
            let ghost lg = l;
            match lg {
                Some(x) => {
                    assert(crate::labels::is_first_label_for(lm, x@, id@));
                },
                None => {},
            }
            crate::labels::lemma_label_for_id_is_first_label(lm, opt_view(l), id@);
        }
        entry.label = l;
        let ghost old_out = out@;
        out.push((id, entry));
        assert forall|j: int| 0 <= j < out@.len() implies #[trigger] out@[j].0@ == e0[e0.len() - 1 - j].0@ by {
            if j < olen {
                assert(out@[j] == old_out[j]);
                assert(old_out[j].0@ == e0[e0.len() - 1 - j].0@);
            }
        }
        assert(out@[olen as int].0@ == e0[e0.len() - 1 - olen].0@);
    }
    proof {
        assert(keys_distinct(out@)) by {
            assert forall|a: int, b: int| 0 <= a < out@.len() && 0 <= b < out@.len() && a != b implies out@[a].0@ != out@[b].0@ by {
                assert(out@[a].0@ == e0[e0.len() - 1 - a].0@);
                assert(out@[b].0@ == e0[e0.len() - 1 - b].0@);
            }
        }
        lemma_assoc_map(out@);
    }
    let profiles = StrMap::from_distinct(out);
    index.profiles = profiles;
    proof {
        let target = Map::new(
            |id: Seq<char>| m0.contains_key(id),
            |id: Seq<char>| EntryView { label: crate::labels::first_label(lm, id), ..m0[id] },
        );
        assert forall|id: Seq<char>| #[trigger] index_view(index).contains_key(id) <==> target.contains_key(id) by {
            if index_view(index).contains_key(id) {
                let j = choose|j: int| 0 <= j < out@.len() && out@[j].0@ == id;
                assert(e0[e0.len() - 1 - j].0@ == id);
            }
            if target.contains_key(id) {
                let j = choose|j: int| 0 <= j < e0.len() && e0[j].0@ == id;
                let k = e0.len() - 1 - j;
                assert(out@[k].0@ == id);
            }
        }
        assert forall|id: Seq<char>| #[trigger] index_view(index).contains_key(id) implies index_view(index)[id] == target[id] by {
            let j = choose|j: int| 0 <= j < out@.len() && out@[j].0@ == id;
            let k = e0.len() - 1 - j;
            assert(e0[k].0@ == id);
            assert(assoc_map(e0)[id] == e0[k].1);
            assert(assoc_map(out@)[id] == out@[j].1);
        }
        assert(index_view(index) =~= target);
    }
}

} // verus!

verus! {

/// A top-level key that only the legacy index format had.
pub open spec fn is_legacy_key(k: Seq<char>) -> bool {
    k == "last_used"@ || k == "active_profile_id"@ || k == "update_cache"@ || k == "default_profile_id"@
}

/// Whether index text is a JSON object with a top-level key of the legacy
/// format. Keys inside values do not count.
pub fn has_legacy_schema(contents: &str) -> (b: bool)
    ensures
        b == (json_shape(contents@) matches Some(Some(keys)) && exists|i: int|
            0 <= i < keys.len() && is_legacy_key(#[trigger] keys[i])),
{
    match json_object_keys(contents) {
        None => false,
        Some(keys) => {
            let mut i: usize = 0;
            while i < keys.len()
                invariant
                    i <= keys@.len(),
                    json_shape(contents@) == Some(Some(views(keys@))),
                    forall|j: int| 0 <= j < i ==> !is_legacy_key(#[trigger] views(keys@)[j]),
                decreases keys.len() - i,
            {
                let k = keys[i].as_str();
                assert(views(keys@)[i as int] == k@);
                if str_eq(k, "last_used") || str_eq(k, "active_profile_id") || str_eq(k, "update_cache")
                    || str_eq(k, "default_profile_id") {
                    let ghost kv = views(keys@);
                    assert(is_legacy_key(kv[i as int]));
                    assert(exists|q: int| 0 <= q < kv.len() && is_legacy_key(#[trigger] kv[q]));
                    assert(json_shape(contents@) matches Some(Some(x)) && x == kv);
                    return true;
                }
                i = i + 1;
            }
            false
        },
    }
}

/// Brings an index read in an older format version up to the current one;
/// reports whether the version changed.
pub fn normalize_index_version(index: &mut ProfilesIndex) -> (changed: bool)
    ensures
        changed == (old(index).version < PROFILES_INDEX_VERSION),
        final(index).version == if changed {
            PROFILES_INDEX_VERSION
        } else {
            old(index).version
        },
        index_view(final(index)) == index_view(old(index)),
{
    if index.version < PROFILES_INDEX_VERSION {
        index.version = PROFILES_INDEX_VERSION;
        true
    } else {
        false
    }
}

/// What reading the index file gave.
#[derive(Debug)]
pub enum IndexRead {
    /// There is no index file.
    Missing,
    /// The index parsed; whether its text had the legacy format.
    Parsed(ProfilesIndex, bool),
    /// The index did not parse; its text was backed up to the path given.
    Invalid(String),
}

/// What a repair of the profile metadata does: the index to keep, the
/// repairs to report, and whether the index must be written.
#[derive(Debug)]
pub struct RepairPlan {
    pub index: ProfilesIndex,
    pub repairs: Vec<String>,
    pub should_write: bool,
}

/// The entries a repair starts from.
pub open spec fn repair_base(read: IndexRead) -> Map<Seq<char>, EntryView> {
    match read {
        IndexRead::Parsed(i, _) => index_view(&i),
        _ => Map::empty(),
    }
}

/// The saved and ready profiles that the pruned index lacks.
pub open spec fn profiles_to_index(
    pruned: Map<Seq<char>, EntryView>,
    saved: Seq<Seq<char>>,
    ready: Seq<Seq<char>>,
) -> Set<Seq<char>> {
    Set::new(|k: Seq<char>| saved.contains(k) && ready.contains(k) && !pruned.contains_key(k))
}

/// The repairs reported before pruning.
pub open spec fn repair_head(read: IndexRead) -> Seq<Seq<char>> {
    match read {
        IndexRead::Missing => seq!["Initialized profiles index"@],
        IndexRead::Parsed(i, legacy) => if i.version < PROFILES_INDEX_VERSION || legacy {
            seq!["Normalized profiles index format"@]
        } else {
            Seq::empty()
        },
        IndexRead::Invalid(p) => seq!["Backed up invalid profiles index to "@ + p@, "Rebuilt invalid profiles index"@],
    }
}

/// `Pruned <n> stale profile index entry` (or `entries`).
pub open spec fn pruned_message(n: nat) -> Seq<char> {
    "Pruned "@ + decimal(n) + " stale profile index "@ + (if n == 1 {
        "entry"@
    } else {
        "entries"@
    })
}

/// `Indexed <n> saved profile` (or `profiles`).
pub open spec fn indexed_message(n: nat) -> Seq<char> {
    "Indexed "@ + decimal(n) + " saved "@ + (if n == 1 {
        "profile"@
    } else {
        "profiles"@
    })
}

/// The index entries a repair keeps: those of saved profiles.
pub open spec fn repair_pruned(read: IndexRead, saved: Seq<Seq<char>>) -> Map<Seq<char>, EntryView> {
    repair_base(read).restrict(saved.to_set())
}

/// How many index entries a repair drops.
pub open spec fn repair_pruned_count(read: IndexRead, saved: Seq<Seq<char>>) -> nat {
    (repair_base(read).dom().len() - repair_pruned(read, saved).dom().len()) as nat
}

/// The saved and ready profiles a repair adds to the index.
pub open spec fn repair_added(read: IndexRead, saved: Seq<Seq<char>>, ready: Seq<Seq<char>>) -> Set<Seq<char>> {
    profiles_to_index(repair_pruned(read, saved), saved, ready)
}

/// The entries of the repaired index: the kept ones, and an empty entry
/// for each added profile.
pub open spec fn repaired_entries(read: IndexRead, saved: Seq<Seq<char>>, ready: Seq<Seq<char>>) -> Map<
    Seq<char>,
    EntryView,
> {
    let pruned = repair_pruned(read, saved);
    let added = repair_added(read, saved, ready);
    Map::new(
        |k: Seq<char>| pruned.contains_key(k) || added.contains(k),
        |k: Seq<char>| if pruned.contains_key(k) {
            pruned[k]
        } else {
            empty_entry()
        },
    )
}

/// The repairs a repair reports: those of reading the index, then the
/// count of dropped entries and of added profiles, when not zero.
pub open spec fn repair_messages(read: IndexRead, saved: Seq<Seq<char>>, ready: Seq<Seq<char>>) -> Seq<Seq<char>> {
    let n_pruned = repair_pruned_count(read, saved);
    let n_added = repair_added(read, saved, ready).len();
    repair_head(read) + (if n_pruned > 0 {
        seq![pruned_message(n_pruned)]
    } else {
        Seq::empty()
    }) + (if n_added > 0 {
        seq![indexed_message(n_added)]
    } else {
        Seq::empty()
    })
}

/// Repairs the profile metadata: starts from the index as read (an empty
/// one when it is missing or invalid, the current version when older),
/// drops entries of profiles not among `saved_ids`, and adds an empty entry
/// for each saved profile in `ready_ids` that has none. Reports each repair
/// made, and whether the index must be written.
pub fn repair_profiles_metadata(read: IndexRead, saved_ids: &Vec<String>, ready_ids: &Vec<String>) -> (plan: RepairPlan)
    ensures
        plan.index.version == old_version(read),
        index_view(&plan.index) == repaired_entries(read, views(saved_ids@), views(ready_ids@)),
        views(plan.repairs@) == repair_messages(read, views(saved_ids@), views(ready_ids@)),
        plan.should_write == (repair_messages(read, views(saved_ids@), views(ready_ids@)).len() > 0),
{
    let ghost read0 = read;
    let mut repairs: Vec<String> = Vec::new();
    let mut index = match read {
        IndexRead::Missing => {
            repairs.push(String::from_str("Initialized profiles index"));
            ProfilesIndex::default()
        },
        IndexRead::Parsed(i, legacy) => {
            let mut i = i;
            let upgraded = normalize_index_version(&mut i);
            if upgraded || legacy {
                repairs.push(String::from_str("Normalized profiles index format"));
            }
            i
        },
        IndexRead::Invalid(path) => {
            let mut msg = String::from_str("Backed up invalid profiles index to ");
            msg.append(path.as_str());
            repairs.push(msg);
            repairs.push(String::from_str("Rebuilt invalid profiles index"));
            ProfilesIndex::default()
        },
    };
    assert(views(repairs@) =~= repair_head(read0));
    let head_written = repairs.len() > 0;
    let ghost base = index_view(&index);
    assert(base == repair_base(read0));
    let ghost saved = views(saved_ids@);
    let ghost ready = ready_ids@.map_values(|s: String| s@);
    let before_entries = index.profiles.len();
    assert(base.dom() =~= index.profiles@.dom());
    prune_profiles_index(&mut index, saved_ids);
    let ghost pruned = index_view(&index);
    let after_entries = index.profiles.len();
    proof {
        assert(pruned.dom() =~= index.profiles@.dom());
        assert(Set::new(|k: Seq<char>| saved.contains(k)) =~= saved.to_set());
        assert(pruned.dom().subset_of(base.dom()));
        vstd::set_lib::lemma_len_subset(pruned.dom(), base.dom());
    }
    let pruned_count = before_entries - after_entries;
    if pruned_count > 0 {
        let ghost before = views(repairs@);
        let mut msg = String::from_str("Pruned ");
        msg.append(u64_to_decimal(pruned_count as u64).as_str());
        msg.append(" stale profile index ");
        if pruned_count == 1 {
            msg.append("entry");
        } else {
            msg.append("entries");
        }
        repairs.push(msg);
        assert(views(repairs@) =~= before.push(pruned_message(pruned_count as nat)));
    }
    let ghost after_prune = views(repairs@);
    let mut indexed: usize = 0;
    let ghost mut added: Set<Seq<char>> = Set::empty();
    let mut i: usize = 0;
    while i < saved_ids.len()
        invariant
            i <= saved_ids@.len(),
            saved == views(saved_ids@),
            ready == ready_ids@.map_values(|s: String| s@),
            added.finite(),
            indexed == added.len(),
            indexed <= i,
            added == Set::new(
                |k: Seq<char>| saved.take(i as int).contains(k) && ready.contains(k) && !pruned.contains_key(k),
            ),
            index.version == old_version(read0),
            index_view(&index) == Map::new(
                |k: Seq<char>| pruned.contains_key(k) || added.contains(k),
                |k: Seq<char>| if pruned.contains_key(k) {
                    pruned[k]
                } else {
                    empty_entry()
                },
            ),
        decreases saved_ids.len() - i,
    {
        let id = saved_ids[i].as_str();
        let ghost t0 = saved.take(i as int);
        let ghost t1 = saved.take(i + 1);
        proof {
            assert(saved[i as int] == id@);
            assert forall|x: Seq<char>| #[trigger] t1.contains(x) <==> t0.contains(x) || x == id@ by {
                if t1.contains(x) {
                    let j = choose|j: int| 0 <= j < t1.len() && t1[j] == x;
                    if j < i {
                        assert(t0[j] == x);
                    }
                }
                if t0.contains(x) {
                    let j = choose|j: int| 0 <= j < t0.len() && t0[j] == x;
                    assert(t1[j] == x);
                }
                if x == id@ {
                    assert(t1[i as int] == x);
                }
            }
        }
        let present = index.profiles.contains_key(id);
        assert(present == index_view(&index).contains_key(id@));
        if !present && vec_contains_str(ready_ids, id) {
            proof {
                assert(views(ready_ids@) == ready);
                assert(!added.contains(id@));
            }
            let ghost before = index_view(&index);
            index.profiles.insert(String::from_str(id), ProfileIndexEntry::default());
            proof {
                added = added.insert(id@);
                assert(index_view(&index) =~= before.insert(id@, empty_entry()));
            }
            indexed = indexed + 1;
        } else {
            proof {
                assert(views(ready_ids@) == ready);
                if present && !pruned.contains_key(id@) {
                    assert(added.contains(id@));
                }
            }
        }
        proof {
            assert(added =~= Set::new(
                |k: Seq<char>| t1.contains(k) && ready.contains(k) && !pruned.contains_key(k),
            ));
            assert(index_view(&index) =~= Map::new(
                |k: Seq<char>| pruned.contains_key(k) || added.contains(k),
                |k: Seq<char>| if pruned.contains_key(k) {
                    pruned[k]
                } else {
                    empty_entry()
                },
            ));
        }
        i = i + 1;
    }
    proof {
        assert(saved.take(saved_ids@.len() as int) =~= saved);
        assert(added =~= profiles_to_index(pruned, saved, ready));
    }
    if indexed > 0 {
        let ghost before = views(repairs@);
        let mut msg = String::from_str("Indexed ");
        msg.append(u64_to_decimal(indexed as u64).as_str());
        msg.append(" saved ");
        if indexed == 1 {
            msg.append("profile");
        } else {
            msg.append("profiles");
        }
        repairs.push(msg);
        assert(views(repairs@) =~= before.push(indexed_message(indexed as nat)));
    }
    let should_write = head_written || pruned_count > 0 || indexed > 0;
    RepairPlan { index, repairs, should_write }
}

/// The version a repaired index keeps.
pub open spec fn old_version(read: IndexRead) -> u8 {
    match read {
        IndexRead::Parsed(i, _) => if i.version < PROFILES_INDEX_VERSION {
            PROFILES_INDEX_VERSION
        } else {
            i.version
        },
        _ => PROFILES_INDEX_VERSION,
    }
}

} // verus!
