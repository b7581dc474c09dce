//! What holds of the library across its operations: labels, the index that
//! keeps them, listing order, paths and config snapshots.
use vstd::prelude::*;

use crate::commands::{label_assignable, labels_after_assign};
use crate::index::{entry_label, index_labels, is_first_id_for_label, EntryView};
use crate::labels::{first_label, has_label_for, is_first_label_for, lemma_first_label_unique, without_id};
use crate::store::{loaded_entries, saved_labels, synced_entries};
use crate::text::{lemma_trim_idempotent, trim};

verus! {

/// Labels as the store keeps them: each is trimmed and not empty, and no
/// profile carries two.
pub open spec fn labels_well_formed(m: Map<Seq<char>, Seq<char>>) -> bool {
    &&& forall|l: Seq<char>| #[trigger] m.contains_key(l) ==> trim(l) == l && l.len() > 0
    &&& forall|l1: Seq<char>, l2: Seq<char>|
        #[trigger] m.contains_key(l1) && #[trigger] m.contains_key(l2) && m[l1] == m[l2] ==> l1 == l2
}

/// In well-formed labels, the one label of a profile is its least label.
pub proof fn lemma_only_label_is_first(m: Map<Seq<char>, Seq<char>>, l: Seq<char>)
    requires
        labels_well_formed(m),
        m.contains_key(l),
    ensures
        first_label(m, m[l]) == Some(l),
{
    let id = m[l];
    assert(is_first_label_for(m, l, id));
    let c = choose|x: Seq<char>| is_first_label_for(m, x, id);
    lemma_first_label_unique(m, l, c, id);
}

/// After a label is given to a profile, looking the label up finds that
/// profile, the profile carries that one label, and every other profile
/// keeps its labels.
pub proof fn law_assign_then_resolve(m: Map<Seq<char>, Seq<char>>, label: Seq<char>, id: Seq<char>)
    requires
        label_assignable(m, label, id),
    ensures
        labels_after_assign(m, label, id).contains_key(trim(label)),
        labels_after_assign(m, label, id)[trim(label)] == id,
        forall|l: Seq<char>|
            #[trigger] labels_after_assign(m, label, id).contains_key(l) && labels_after_assign(m, label, id)[l]
                == id ==> l == trim(label),
        first_label(labels_after_assign(m, label, id), id) == Some(trim(label)),
        forall|l: Seq<char>|
            #[trigger] m.contains_key(l) && m[l] != id ==> labels_after_assign(m, label, id).contains_key(l)
                && labels_after_assign(m, label, id)[l] == m[l],
{
    let m1 = labels_after_assign(m, label, id);
    assert(is_first_label_for(m1, trim(label), id));
    let c = choose|x: Seq<char>| is_first_label_for(m1, x, id);
    lemma_first_label_unique(m1, trim(label), c, id);
}

/// Once the labels of a profile are removed it carries none, and every
/// other profile keeps its labels.
pub proof fn law_remove_labels_leaves_none(m: Map<Seq<char>, Seq<char>>, id: Seq<char>)
    ensures
        !has_label_for(without_id(m, id), id),
        forall|l: Seq<char>|
            #[trigger] m.contains_key(l) && m[l] != id ==> without_id(m, id).contains_key(l) && without_id(
                m,
                id,
            )[l] == m[l],
{
}

/// Giving a label keeps labels well formed.
pub proof fn law_assign_keeps_labels_well_formed(m: Map<Seq<char>, Seq<char>>, label: Seq<char>, id: Seq<char>)
    requires
        labels_well_formed(m),
        label_assignable(m, label, id),
    ensures
        labels_well_formed(labels_after_assign(m, label, id)),
{
    lemma_trim_idempotent(label);
}

/// Removing the labels of a profile keeps labels well formed.
pub proof fn law_remove_keeps_labels_well_formed(m: Map<Seq<char>, Seq<char>>, id: Seq<char>)
    requires
        labels_well_formed(m),
    ensures
        labels_well_formed(without_id(m, id)),
{
}

/// Dropping the labels of profiles that are not saved keeps labels well
/// formed.
pub proof fn law_prune_keeps_labels_well_formed(m: Map<Seq<char>, Seq<char>>, ids: Set<Seq<char>>)
    requires
        labels_well_formed(m),
    ensures
        labels_well_formed(saved_labels(m, ids)),
{
}

/// The labels that an index gives are well formed, whenever each of them
/// names the least id whose entry gives it.
pub proof fn law_index_labels_well_formed(idx: Map<Seq<char>, EntryView>)
    requires
        forall|l: Seq<char>| #[trigger]
            index_labels(idx).contains_key(l) ==> is_first_id_for_label(idx, index_labels(idx)[l], l),
    ensures
        labels_well_formed(index_labels(idx)),
{
    let m = index_labels(idx);
    assert forall|l: Seq<char>| #[trigger] m.contains_key(l) implies trim(l) == l && l.len() > 0 by {
        let id = m[l];
        assert(is_first_id_for_label(idx, id, l));
        let raw = idx[id].label->0;
        lemma_trim_idempotent(raw);
    }
}

/// The labels an index gives are `m` when every label of `m` is given by
/// the entry of the profile it names, and every label an entry gives is a
/// label of `m` naming that entry's profile.
proof fn lemma_labels_of_entries(e: Map<Seq<char>, EntryView>, m: Map<Seq<char>, Seq<char>>)
    requires
        forall|l: Seq<char>| #[trigger] m.contains_key(l) ==> e.contains_key(m[l]) && entry_label(e[m[l]]) == Some(l),
        forall|id: Seq<char>, x: Seq<char>|
            #[trigger] e.contains_key(id) && entry_label(e[id]) == Some(x) ==> #[trigger] m.contains_key(x)
                && m[x] == id,
    ensures
        index_labels(e) == m,
{
    assert forall|l: Seq<char>| #[trigger] m.contains_key(l) implies is_first_id_for_label(e, m[l], l) by {
        assert forall|id2: Seq<char>| #[trigger]
            e.contains_key(id2) && entry_label(e[id2]) == Some(l) implies id2 == m[l]
            || crate::text::seq_lt(m[l], id2) by {
            assert(m.contains_key(l) && m[l] == id2);
        }
    }
    assert forall|l: Seq<char>| #[trigger] index_labels(e).contains_key(l) <==> m.contains_key(l) by {
        if index_labels(e).contains_key(l) {
            let id2 = choose|id: Seq<char>| e.contains_key(id) && entry_label(e[id]) == Some(l);
            assert(m.contains_key(l));
        }
        if m.contains_key(l) {
            assert(e.contains_key(m[l]) && entry_label(e[m[l]]) == Some(l));
        }
    }
    assert forall|l: Seq<char>| #[trigger] m.contains_key(l) implies index_labels(e)[l] == m[l] by {
        let c = choose|id: Seq<char>| is_first_id_for_label(e, id, l);
        assert(is_first_id_for_label(e, m[l], l));
        crate::index::lemma_first_id_for_label_unique(e, m[l], c, l);
    }
    assert(index_labels(e) =~= m);
}

/// The entries synced with well-formed labels give each label back, and
/// give no other.
proof fn lemma_synced_entries_labels(m: Map<Seq<char>, Seq<char>>, idx: Map<Seq<char>, EntryView>)
    requires
        labels_well_formed(m),
        forall|l: Seq<char>| #[trigger] m.contains_key(l) ==> idx.contains_key(m[l]),
    ensures
        forall|l: Seq<char>| #[trigger] m.contains_key(l) ==> synced_entries(idx, m).contains_key(m[l]) && entry_label(
            synced_entries(idx, m)[m[l]],
        ) == Some(l),
        forall|id: Seq<char>, x: Seq<char>|
            #[trigger] synced_entries(idx, m).contains_key(id) && entry_label(synced_entries(idx, m)[id]) == Some(x)
                ==> #[trigger] m.contains_key(x) && m[x] == id,
{
    let e = synced_entries(idx, m);
    assert forall|l: Seq<char>| #[trigger] m.contains_key(l) implies e.contains_key(m[l]) && entry_label(e[m[l]]) == Some(l) by {
        lemma_only_label_is_first(m, l);
    }
    assert forall|id: Seq<char>, x: Seq<char>|
        #[trigger] e.contains_key(id) && entry_label(e[id]) == Some(x) implies #[trigger] m.contains_key(x) && m[x]
            == id by {
        let c = choose|y: Seq<char>| is_first_label_for(m, y, id);
        assert(is_first_label_for(m, c, id));
        assert(trim(c) == c);
    }
}

/// Labels survive the index: when each labelled profile has an entry, the
/// labels that the entries record once synced with well-formed labels are
/// those labels again.
pub proof fn law_labels_persist_through_index(m: Map<Seq<char>, Seq<char>>, idx: Map<Seq<char>, EntryView>)
    requires
        labels_well_formed(m),
        forall|l: Seq<char>| #[trigger] m.contains_key(l) ==> idx.contains_key(m[l]),
    ensures
        index_labels(synced_entries(idx, m)) == m,
{
    lemma_synced_entries_labels(m, idx);
    lemma_labels_of_entries(synced_entries(idx, m), m);
}

/// Labels survive a save and the next load: the store written for the
/// saved profiles `ids` (labels of other profiles dropped, entries synced)
/// and loaded again gives back the labels of saved profiles, when each
/// labelled saved profile had an index entry.
pub proof fn law_labels_survive_save_and_load(
    m: Map<Seq<char>, Seq<char>>,
    idx: Map<Seq<char>, EntryView>,
    ids: Set<Seq<char>>,
)
    requires
        labels_well_formed(m),
        forall|l: Seq<char>| #[trigger] m.contains_key(l) && ids.contains(m[l]) ==> idx.contains_key(m[l]),
    ensures
        index_labels(loaded_entries(synced_entries(idx.restrict(ids), saved_labels(m, ids)), ids)) == saved_labels(
            m,
            ids,
        ),
{
    let kept = saved_labels(m, ids);
    law_prune_keeps_labels_well_formed(m, ids);
    let synced = synced_entries(idx.restrict(ids), kept);
    lemma_synced_entries_labels(kept, idx.restrict(ids));
    let loaded = loaded_entries(synced, ids);
    assert forall|l: Seq<char>| #[trigger] kept.contains_key(l) implies loaded.contains_key(kept[l]) && entry_label(
        loaded[kept[l]],
    ) == Some(l) by {
        assert(synced.contains_key(kept[l]));
    }
    assert forall|id: Seq<char>, x: Seq<char>|
        #[trigger] loaded.contains_key(id) && entry_label(loaded[id]) == Some(x) implies #[trigger] kept.contains_key(x)
            && kept[x] == id by {
        if !synced.contains_key(id) {
            assert(loaded[id] == crate::index::empty_entry());
        } else {
            assert(loaded[id] == synced[id]);
        }
    }
    lemma_labels_of_entries(loaded, kept);
}

} // verus!

verus! {

/// `s` holds no `/`.
pub open spec fn no_slash(s: Seq<char>) -> bool {
    forall|i: int| 0 <= i < s.len() ==> s[i] != '/'
}

/// Splitting gives at least one part.
proof fn lemma_split_nonempty(p: Seq<char>)
    ensures
        crate::paths::split_slash(p).len() > 0,
    decreases p.len(),
{
    if p.len() > 0 {
        lemma_split_nonempty(p.drop_last());
    }
}

/// Splitting `a/b` at slashes splits `a` and `b`.
proof fn lemma_split_join(a: Seq<char>, b: Seq<char>)
    ensures
        crate::paths::split_slash(a + seq!['/'] + b) == crate::paths::split_slash(a) + crate::paths::split_slash(b),
    decreases b.len(),
{
    let p = a + seq!['/'] + b;
    if b.len() == 0 {
        assert(p.drop_last() =~= a);
        assert(p.last() == '/');
        assert(crate::paths::split_slash(b) =~= seq![Seq::<char>::empty()]);
        assert(crate::paths::split_slash(p) =~= crate::paths::split_slash(a) + crate::paths::split_slash(b));
    } else {
        assert(p.drop_last() =~= a + seq!['/'] + b.drop_last());
        assert(p.last() == b.last());
        lemma_split_join(a, b.drop_last());
        let x = crate::paths::split_slash(a);
        let y = crate::paths::split_slash(b.drop_last());
        lemma_split_nonempty(b.drop_last());
        assert(y.len() > 0);
        assert(crate::paths::split_slash(p) =~= crate::paths::split_slash(a) + crate::paths::split_slash(b));
    }
}

/// Text without slashes is one part.
proof fn lemma_split_plain(b: Seq<char>)
    requires
        no_slash(b),
    ensures
        crate::paths::split_slash(b) == seq![b],
    decreases b.len(),
{
    if b.len() > 0 {
        lemma_split_plain(b.drop_last());
        assert(b.drop_last().push(b.last()) =~= b);
        assert(b[b.len() - 1] != '/');
        assert(crate::paths::split_slash(b) =~= seq![b]);
    } else {
        assert(b =~= Seq::<char>::empty());
        assert(crate::paths::split_slash(b) =~= seq![b]);
    }
}

/// The kept parts of two runs of parts are those of each.
proof fn lemma_kept_concat(x: Seq<Seq<char>>, y: Seq<Seq<char>>)
    ensures
        crate::paths::kept_parts(x + y) == crate::paths::kept_parts(x) + crate::paths::kept_parts(y),
    decreases y.len(),
{
    if y.len() == 0 {
        assert(x + y =~= x);
        assert(crate::paths::kept_parts(x) + crate::paths::kept_parts(y) =~= crate::paths::kept_parts(x));
    } else {
        assert((x + y).drop_last() =~= x + y.drop_last());
        assert((x + y).last() == y.last());
        lemma_kept_concat(x, y.drop_last());
        assert(crate::paths::kept_parts(x + y) =~= crate::paths::kept_parts(x) + crate::paths::kept_parts(y));
    }
}

/// The id that the credentials path of a profile names is that profile's
/// id, for an id that is not empty, holds no `/`, and is neither `.` nor
/// `..` (which a path does not read as a directory name).
pub proof fn law_profile_path_names_its_id(dir: Seq<char>, id: Seq<char>)
    requires
        id.len() > 0,
        no_slash(id),
        id != seq!['.'],
        id != seq!['.', '.'],
    ensures
        crate::paths::path_profile_id(
            crate::paths::join_path(crate::paths::join_path(dir, id), crate::managed_files::auth_name()),
        ) == Some(id),
{
    let d = crate::paths::join_path(dir, id);
    let auth = crate::managed_files::auth_name();
    let p = crate::paths::join_path(d, auth);
    assert(no_slash(auth));
    lemma_split_join(d, auth);
    lemma_split_join(dir, id);
    lemma_split_plain(id);
    lemma_split_plain(auth);
    let k = crate::paths::kept_parts(crate::paths::split_slash(dir));
    lemma_kept_concat(crate::paths::split_slash(dir), seq![id]);
    lemma_kept_concat(crate::paths::split_slash(dir) + seq![id], seq![auth]);
    assert(crate::paths::kept_parts(Seq::<Seq<char>>::empty()) == Seq::<Seq<char>>::empty());
    assert(crate::paths::names_component(id));
    assert(crate::paths::kept_parts(seq![id]) =~= seq![id]) by {
        assert(seq![id].drop_last() =~= Seq::<Seq<char>>::empty());
        assert(seq![id].last() == id);
    }
    assert(crate::paths::kept_parts(seq![auth]) =~= seq![auth]) by {
        assert(seq![auth].drop_last() =~= Seq::<Seq<char>>::empty());
        assert(seq![auth].last() == auth);
        assert(auth != seq!['.']);
    }
    let cs = crate::paths::path_components(p);
    assert(cs =~= k + seq![id] + seq![auth]);
    assert(auth != seq!['.', '.']);
    assert(cs.drop_last() =~= k + seq![id]);
}

/// A second save of the same account goes to the profile the first save
/// went to: once the listing holds that profile's credentials, the least
/// listed profile holding the account is still that profile.
pub proof fn law_repeated_save_same_profile(
    files: Seq<(String, Result<crate::identity::TokenSummary, String>)>,
    k: crate::identity::IdentityView,
    id: Seq<char>,
    path: String,
    tokens: crate::identity::TokenSummary,
)
    requires
        crate::store::scanned_ids(files, k).len() > 0 ==> crate::store::is_least(
            crate::store::scanned_ids(files, k),
            id,
        ),
        crate::paths::path_profile_id(path@) == Some(id),
        crate::identity::summary_matches(tokens, k),
    ensures
        crate::store::is_least(crate::store::scanned_ids(files.push((path, Ok(tokens))), k), id),
{
    let f1 = files.push((path, Ok(tokens)));
    assert(f1.drop_last() =~= files);
    let s0 = crate::store::scanned_ids(files, k);
    let s1 = crate::store::scanned_ids(f1, k);
    assert(s1 == s0.push(id));
    assert(s1[s0.len() as int] == id);
    assert forall|i: int| 0 <= i < s1.len() implies s1[i] == id || crate::text::seq_lt(id, #[trigger] s1[i]) by {
        if i < s0.len() {
            assert(s1[i] == s0[i]);
        }
    }
}

/// The active profile, when it is saved, comes first in listing order.
pub proof fn law_current_profile_listed_first(
    labels: Map<Seq<char>, Seq<char>>,
    tokens: Map<Seq<char>, Result<crate::identity::TokenSummary, String>>,
    index: Map<Seq<char>, EntryView>,
    current: Seq<char>,
    out: Seq<Seq<char>>,
)
    requires
        out.to_set() == tokens.dom(),
        tokens.dom().contains(current),
        forall|i: int, j: int|
            0 <= i < j < out.len() ==> crate::order::key_lt(
                crate::order::order_key(labels, tokens, index, Some(current), #[trigger] out[i]),
                crate::order::order_key(labels, tokens, index, Some(current), #[trigger] out[j]),
            ),
    ensures
        out.len() > 0 && out[0] == current,
{
    assert(out.to_set().contains(current));
    let j = choose|j: int| 0 <= j < out.len() && out[j] == current;
    if j > 0 {
        let a = crate::order::order_key(labels, tokens, index, Some(current), out[0]);
        let b = crate::order::order_key(labels, tokens, index, Some(current), out[j]);
        assert(crate::order::key_lt(a, b));
        assert(b.current_rank == 0);
    }
}

/// Among profiles other than the active one, a labelled profile comes
/// before every profile without a label.
pub proof fn law_labelled_before_unlabelled(
    labels: Map<Seq<char>, Seq<char>>,
    tokens: Map<Seq<char>, Result<crate::identity::TokenSummary, String>>,
    index: Map<Seq<char>, EntryView>,
    current: Option<Seq<char>>,
    out: Seq<Seq<char>>,
    i: int,
    j: int,
)
    requires
        0 <= i < j < out.len(),
        current != Some(out[i]),
        current != Some(out[j]),
        crate::order::order_key(labels, tokens, index, current, out[j]).label.len() > 0,
        forall|a: int, b: int|
            0 <= a < b < out.len() ==> crate::order::key_lt(
                crate::order::order_key(labels, tokens, index, current, #[trigger] out[a]),
                crate::order::order_key(labels, tokens, index, current, #[trigger] out[b]),
            ),
    ensures
        crate::order::order_key(labels, tokens, index, current, out[i]).label.len() > 0,
{
    assert(crate::order::key_lt(
        crate::order::order_key(labels, tokens, index, current, out[i]),
        crate::order::order_key(labels, tokens, index, current, out[j]),
    ));
}

/// Restoring a config snapshot gives back what was saved: the managed keys
/// of the target hold the source's entries (or none, like the source), and
/// its other keys are kept.
pub proof fn law_config_snapshot_roundtrip(
    source: Map<Seq<char>, toml_edit::Item>,
    target: Map<Seq<char>, toml_edit::Item>,
    keys: Set<Seq<char>>,
)
    ensures
        crate::config_snapshot::applied_entries(target, source.restrict(keys), keys).restrict(keys) == source.restrict(
            keys,
        ),
        crate::config_snapshot::applied_entries(target, source.restrict(keys), keys).remove_keys(keys)
            == target.remove_keys(keys),
{
    let a = crate::config_snapshot::applied_entries(target, source.restrict(keys), keys);
    assert(a.restrict(keys) =~= source.restrict(keys));
    assert(a.remove_keys(keys) =~= target.remove_keys(keys));
}

/// The usage concurrency is always between 1 and the maximum.
pub proof fn law_usage_concurrency_bounded(value: Option<Seq<char>>)
    ensures
        1 <= crate::status::concurrency_of(value) <= crate::status::MAX_USAGE_CONCURRENCY,
{
}

} // verus!

verus! {

/// `s` holds no escape character.
pub open spec fn no_escape(s: Seq<char>) -> bool {
    forall|i: int| 0 <= i < s.len() ==> s[i] != '\x1b'
}

/// A stretch without escape characters is kept as it is.
proof fn lemma_strip_plain_run(t: Seq<char>, i: int, k: int)
    requires
        0 <= i <= k <= t.len(),
        forall|q: int| i <= q < k ==> t[q] != '\x1b',
    ensures
        crate::ui::strip_ansi_from(t, i) == t.subrange(i, k) + crate::ui::strip_ansi_from(t, k),
    decreases k - i,
{
    if i < k {
        lemma_strip_plain_run(t, i + 1, k);
        assert(t.subrange(i, k) =~= seq![t[i]] + t.subrange(i + 1, k));
    } else {
        assert(t.subrange(i, k) =~= Seq::<char>::empty());
    }
}

/// Stripping escape sequences gives back text that was dimmed, and leaves
/// text without escape characters as it is.
pub proof fn law_strip_undoes_dimming(s: Seq<char>)
    requires
        no_escape(s),
    ensures
        crate::ui::strip_ansi_spec(s) == s,
        crate::ui::strip_ansi_spec(crate::ui::dim_start() + s + crate::ui::style_reset()) == s,
{
    lemma_strip_plain_run(s, 0, s.len() as int);
    assert(s.subrange(0, s.len() as int) =~= s);
    let t = crate::ui::dim_start() + s + crate::ui::style_reset();
    let n = s.len() as int;
    assert(t[0] == '\x1b' && t[1] == '[');
    assert(t[2] == '2' && t[3] == 'm');
    assert(crate::ui::csi_end(t, 3) == 4);
    assert(crate::ui::csi_end(t, 2) == 4);
    assert forall|q: int| 4 <= q < 4 + n implies t[q] != '\x1b' by {
        assert(t[q] == s[q - 4]);
    }
    lemma_strip_plain_run(t, 4, 4 + n);
    assert(t.subrange(4, 4 + n) =~= s);
    assert(t[4 + n] == '\x1b' && t[5 + n] == '[' && t[6 + n] == '0' && t[7 + n] == 'm');
    assert(crate::ui::csi_end(t, 7 + n) == 8 + n);
    assert(crate::ui::csi_end(t, 6 + n) == 8 + n);
    assert(crate::ui::strip_ansi_from(t, 8 + n) == Seq::<char>::empty());
    assert(crate::ui::strip_ansi_from(t, 4 + n) == Seq::<char>::empty());
    assert(s + Seq::<char>::empty() =~= s);
}

} // verus!

verus! {

/// What each kept custom file name is like: trimmed, not empty, neither
/// `auth.json` nor `config.toml`, and named once.
proof fn lemma_custom_files_shape(f: Seq<Seq<char>>)
    ensures
        forall|i: int|
            0 <= i < crate::managed_files::custom_files(f).len() ==> {
                let c = #[trigger] crate::managed_files::custom_files(f)[i];
                &&& trim(c) == c
                &&& c.len() > 0
                &&& c != crate::managed_files::auth_name()
                &&& c != crate::managed_files::config_name()
            },
        forall|i: int, j: int|
            0 <= i < j < crate::managed_files::custom_files(f).len() ==> crate::managed_files::custom_files(f)[i]
                != crate::managed_files::custom_files(f)[j],
    decreases f.len(),
{
    if f.len() > 0 {
        lemma_custom_files_shape(f.drop_last());
        lemma_trim_idempotent(f.last());
        let prev = crate::managed_files::custom_files(f.drop_last());
        let t = trim(f.last());
        if !(t.len() == 0 || t == crate::managed_files::auth_name() || t == crate::managed_files::config_name()
            || prev.contains(t)) {
            assert forall|i: int, j: int| 0 <= i < j < prev.len() + 1 implies prev.push(t)[i] != prev.push(t)[j] by {
                if j == prev.len() {
                    assert(prev.push(t)[i] == prev[i]);
                }
            }
        }
    }
}

/// Custom names already in normal shape pass through `custom_files` as
/// they are, after names that it drops.
proof fn lemma_custom_files_of_shaped(p: Seq<Seq<char>>, c: Seq<Seq<char>>)
    requires
        crate::managed_files::custom_files(p) == Seq::<Seq<char>>::empty(),
        forall|i: int|
            0 <= i < c.len() ==> {
                let x = #[trigger] c[i];
                &&& trim(x) == x
                &&& x.len() > 0
                &&& x != crate::managed_files::auth_name()
                &&& x != crate::managed_files::config_name()
            },
        forall|i: int, j: int| 0 <= i < j < c.len() ==> c[i] != c[j],
    ensures
        crate::managed_files::custom_files(p + c) == c,
    decreases c.len(),
{
    if c.len() == 0 {
        assert(p + c =~= p);
    } else {
        lemma_custom_files_of_shaped(p, c.drop_last());
        assert((p + c).drop_last() =~= p + c.drop_last());
        assert((p + c).last() == c.last());
        assert(!c.drop_last().contains(c.last())) by {
            if c.drop_last().contains(c.last()) {
                let i = choose|i: int| 0 <= i < c.drop_last().len() && c.drop_last()[i] == c.last();
                assert(c[i] == c[c.len() - 1]);
            }
        }
        assert(c.drop_last().push(c.last()) =~= c);
    }
}

/// `auth.json` and `config.toml` are their own trimmed forms.
proof fn lemma_special_names_trimmed()
    ensures
        trim(crate::managed_files::auth_name()) == crate::managed_files::auth_name(),
        trim(crate::managed_files::config_name()) == crate::managed_files::config_name(),
        crate::managed_files::auth_name() != crate::managed_files::config_name(),
{
    let a = crate::managed_files::auth_name();
    let c = crate::managed_files::config_name();
    assert(!crate::text::is_ws(a[0]));
    assert(!crate::text::is_ws(a.last()));
    assert(!crate::text::is_ws(c[0]));
    assert(!crate::text::is_ws(c.last()));
    assert(a[0] != c[0]);
}

/// Normalizing a list of managed files twice is normalizing it once.
pub proof fn law_normalize_managed_files_idempotent(f: Seq<Seq<char>>)
    ensures
        crate::managed_files::normalized_files(crate::managed_files::normalized_files(f))
            == crate::managed_files::normalized_files(f),
{
    let a = crate::managed_files::auth_name();
    let cfg = crate::managed_files::config_name();
    let nc = crate::managed_files::names_config(f);
    let head = seq![a] + (if nc {
        seq![cfg]
    } else {
        Seq::empty()
    });
    let c = crate::managed_files::custom_files(f);
    let n = crate::managed_files::normalized_files(f);
    assert(n == head + c);
    lemma_special_names_trimmed();
    lemma_custom_files_shape(f);
    assert(crate::managed_files::custom_files(head) == Seq::<Seq<char>>::empty()) by {
        let h1 = seq![a];
        assert(h1.drop_last() =~= Seq::<Seq<char>>::empty());
        assert(crate::managed_files::custom_files(Seq::<Seq<char>>::empty()) == Seq::<Seq<char>>::empty());
        assert(h1.last() == a);
        assert(crate::managed_files::custom_files(h1) == Seq::<Seq<char>>::empty());
        if nc {
            assert(head =~= h1.push(cfg));
            assert(head.drop_last() =~= h1);
            assert(head.last() == cfg);
        } else {
            assert(head =~= h1);
        }
    }
    lemma_custom_files_of_shaped(head, c);
    assert(crate::managed_files::names_config(n) == nc) by {
        if nc {
            assert(trim(n[1]) == cfg);
        }
        if crate::managed_files::names_config(n) {
            let i = choose|i: int| 0 <= i < n.len() && trim(#[trigger] n[i]) == cfg;
            if i >= head.len() {
                assert(n[i] == c[i - head.len()]);
            }
        }
    }
}

} // verus!

verus! {

/// A second repair changes nothing: when the index a repair gave is read
/// back (in the current format) and repaired again over the same saved and
/// ready profiles, its entries stay as they are, no repair is reported and
/// nothing is written.
pub proof fn law_repair_is_idempotent(
    read: crate::index::IndexRead,
    saved: Seq<Seq<char>>,
    ready: Seq<Seq<char>>,
    again: crate::index::ProfilesIndex,
)
    requires
        again.version == crate::index::old_version(read),
        crate::index::index_view(&again) == crate::index::repaired_entries(read, saved, ready),
    ensures
        crate::index::repaired_entries(crate::index::IndexRead::Parsed(again, false), saved, ready)
            == crate::index::index_view(&again),
        crate::index::repair_messages(crate::index::IndexRead::Parsed(again, false), saved, ready).len() == 0,
        crate::index::old_version(crate::index::IndexRead::Parsed(again, false)) == again.version,
{
    let read2 = crate::index::IndexRead::Parsed(again, false);
    let i2 = crate::index::index_view(&again);
    let pruned1 = crate::index::repair_pruned(read, saved);
    let added1 = crate::index::repair_added(read, saved, ready);
    let pruned2 = crate::index::repair_pruned(read2, saved);
    assert(crate::index::repair_base(read2) == i2);
    assert(pruned2 =~= i2) by {
        assert forall|k: Seq<char>| i2.contains_key(k) implies saved.to_set().contains(k) by {
            if pruned1.contains_key(k) {
                assert(crate::index::repair_base(read).restrict(saved.to_set()).contains_key(k));
            } else {
                assert(added1.contains(k));
            }
        }
    }
    let added2 = crate::index::repair_added(read2, saved, ready);
    assert(added2 =~= Set::<Seq<char>>::empty()) by {
        assert forall|k: Seq<char>| !added2.contains(k) by {
            if saved.contains(k) && ready.contains(k) && !pruned2.contains_key(k) {
                if !pruned1.contains_key(k) {
                    assert(added1.contains(k));
                }
                assert(i2.contains_key(k));
            }
        }
    }
    assert(crate::index::repaired_entries(read2, saved, ready) =~= i2);
    assert(crate::index::repair_pruned_count(read2, saved) == 0);
    assert(crate::index::repair_head(read2) =~= Seq::<Seq<char>>::empty());
    assert(crate::index::repair_messages(read2, saved, ready) =~= Seq::<Seq<char>>::empty());
}

} // verus!

verus! {

/// A normalized list of managed files names no file twice.
pub proof fn law_normalized_files_distinct(f: Seq<Seq<char>>)
    ensures
        forall|i: int, j: int|
            0 <= i < j < crate::managed_files::normalized_files(f).len() ==> crate::managed_files::normalized_files(f)[i]
                != crate::managed_files::normalized_files(f)[j],
{
    let a = crate::managed_files::auth_name();
    let cfg = crate::managed_files::config_name();
    let head = seq![a] + (if crate::managed_files::names_config(f) {
        seq![cfg]
    } else {
        Seq::empty()
    });
    let c = crate::managed_files::custom_files(f);
    let n = crate::managed_files::normalized_files(f);
    assert(n == head + c);
    lemma_custom_files_shape(f);
    assert(a != cfg) by {
        assert(a[0] != cfg[0]);
    }
    assert forall|i: int, j: int| 0 <= i < j < n.len() implies n[i] != n[j] by {
        if j < head.len() {
            assert(i == 0 && j == 1);
        } else if i < head.len() {
            assert(n[j] == c[j - head.len()]);
        } else {
            assert(n[i] == c[i - head.len()] && n[j] == c[j - head.len()]);
        }
    }
}

} // verus!

verus! {

proof fn lemma_csi_end_shift(x: Seq<char>, y: Seq<char>, j: int)
    requires
        0 <= j,
    ensures
        crate::ui::csi_end(x + y, x.len() + j) == x.len() + crate::ui::csi_end(y, j),
    decreases y.len() - j,
{
    if j < y.len() {
        assert((x + y)[x.len() + j] == y[j]);
        if !crate::ui::is_csi_final(y[j]) {
            lemma_csi_end_shift(x, y, j + 1);
        }
    }
}

/// Stripping from inside the second part of `x + y` reads `y` alone.
proof fn lemma_strip_shift(x: Seq<char>, y: Seq<char>, j: int)
    requires
        0 <= j,
    ensures
        crate::ui::strip_ansi_from(x + y, x.len() + j) == crate::ui::strip_ansi_from(y, j),
    decreases y.len() - j,
{
    if j < y.len() {
        let t = x + y;
        assert(t[x.len() + j] == y[j]);
        if j + 1 < y.len() {
            assert(t[x.len() + j + 1] == y[j + 1]);
        }
        if y[j] == '\x1b' && j + 1 < y.len() && y[j + 1] == '[' {
            crate::ui::lemma_csi_end_bounds(y, j + 2);
            lemma_csi_end_shift(x, y, j + 2);
            lemma_strip_shift(x, y, crate::ui::csi_end(y, j + 2));
        } else {
            lemma_strip_shift(x, y, j + 1);
        }
    }
}

/// Text without escapes, then anything: the text is kept, the rest stripped.
proof fn lemma_strip_plain_prefix(x: Seq<char>, y: Seq<char>)
    requires
        no_escape(x),
    ensures
        crate::ui::strip_ansi_spec(x + y) == x + crate::ui::strip_ansi_spec(y),
{
    let t = x + y;
    assert forall|q: int| 0 <= q < x.len() implies t[q] != '\x1b' by {
        assert(t[q] == x[q]);
    }
    lemma_strip_plain_run(t, 0, x.len() as int);
    assert(t.subrange(0, x.len() as int) =~= x);
    lemma_strip_shift(x, y, 0);
}

/// Styled text without escapes, then anything: the text is kept, its style
/// and reset sequences dropped, the rest stripped.
proof fn lemma_strip_styled_prefix(x: Seq<char>, start: Seq<char>, y: Seq<char>)
    requires
        no_escape(x),
        start == crate::ui::dim_start() || start == crate::entries::dim_italic_start(),
    ensures
        crate::ui::strip_ansi_spec(start + x + crate::ui::style_reset() + y) == x + crate::ui::strip_ansi_spec(y),
{
    let r = crate::ui::style_reset();
    let w = start + x + r;
    let t = w + y;
    let s = start.len() as int;
    let n = x.len() as int;
    assert(t[0] == '\x1b' && t[1] == '[');
    if start == crate::ui::dim_start() {
        assert(t[2] == '2' && t[3] == 'm');
        assert(crate::ui::csi_end(t, 3) == 4);
        assert(crate::ui::csi_end(t, 2) == 4);
    } else {
        assert(t[2] == '2' && t[3] == ';' && t[4] == '3' && t[5] == 'm');
        assert(crate::ui::csi_end(t, 5) == 6);
        assert(crate::ui::csi_end(t, 4) == 6);
        assert(crate::ui::csi_end(t, 3) == 6);
        assert(crate::ui::csi_end(t, 2) == 6);
    }
    assert(crate::ui::strip_ansi_from(t, 0) == crate::ui::strip_ansi_from(t, s));
    assert forall|q: int| s <= q < s + n implies t[q] != '\x1b' by {
        assert(t[q] == x[q - s]);
    }
    lemma_strip_plain_run(t, s, s + n);
    assert(t.subrange(s, s + n) =~= x);
    assert(t[s + n] == '\x1b' && t[s + n + 1] == '[' && t[s + n + 2] == '0' && t[s + n + 3] == 'm');
    assert(crate::ui::csi_end(t, s + n + 3) == s + n + 4);
    assert(crate::ui::csi_end(t, s + n + 2) == s + n + 4);
    assert(crate::ui::strip_ansi_from(t, s + n) == crate::ui::strip_ansi_from(t, s + n + 4));
    lemma_strip_shift(w, y, 0);
    assert(w.len() == s + n + 4);
}

/// A piece that is plain or styled, then anything.
proof fn lemma_strip_piece(piece: Seq<char>, text: Seq<char>, start: Seq<char>, y: Seq<char>)
    requires
        crate::entries::styled_as(piece, text, start),
        no_escape(text),
        start == crate::ui::dim_start() || start == crate::entries::dim_italic_start(),
    ensures
        crate::ui::strip_ansi_spec(piece + y) == text + crate::ui::strip_ansi_spec(y),
{
    if piece == text {
        lemma_strip_plain_prefix(text, y);
    } else {
        lemma_strip_styled_prefix(text, start, y);
    }
}

/// A colored line shows the plain line: when the line without colors holds
/// no escape character, removing the escape sequences from the colored
/// line gives it back.
#[verifier::spinoff_prover]
#[verifier::rlimit(50)]
pub proof fn law_colored_line_strips_to_plain(
    l: Seq<char>,
    p: Seq<char>,
    e: crate::entries::Entry,
    ctx: crate::entries::RenderCtx,
)
    requires
        crate::entries::colors_line(l, p, e, ctx),
        no_escape(p),
    ensures
        crate::ui::strip_ansi_spec(l) == p,
{
    let (a, b, c) = choose|a: Seq<char>, b: Seq<char>, c: Seq<char>|
        #[trigger] crate::entries::header_pieces(e, ctx, a, b, c) && l == e.display@ + a + b + c
            + crate::entries::first_tail(e, ctx);
    let d = e.display@;
    let tail = crate::entries::first_tail(e, ctx);
    let ia = if ctx.show_id && e.id is Some {
        crate::entries::id_suffix(e.id->0@)
    } else {
        Seq::<char>::empty()
    };
    let ib = if ctx.show_current_marker && e.is_current {
        crate::entries::active_marker()
    } else {
        Seq::<char>::empty()
    };
    let ic = seq![' '] + crate::managed_files::files_tag(crate::text::views(e.managed_files@));
    assert(p =~= d + ia + ib + ic + tail);
    let pl = d + ia + ib + ic + tail;
    assert forall|q: int| 0 <= q < d.len() implies d[q] != '\x1b' by { assert(pl[q] == d[q]); }
    assert forall|q: int| 0 <= q < ia.len() implies ia[q] != '\x1b' by { assert(pl[d.len() + q] == ia[q]); }
    assert forall|q: int| 0 <= q < ib.len() implies ib[q] != '\x1b' by {
        assert(pl[d.len() + ia.len() + q] == ib[q]);
    }
    assert forall|q: int| 0 <= q < ic.len() implies ic[q] != '\x1b' by {
        assert(pl[d.len() + ia.len() + ib.len() + q] == ic[q]);
    }
    assert forall|q: int| 0 <= q < tail.len() implies tail[q] != '\x1b' by {
        assert(pl[d.len() + ia.len() + ib.len() + ic.len() + q] == tail[q]);
    }
    lemma_strip_plain_prefix(tail, Seq::empty());
    assert(tail + Seq::<char>::empty() =~= tail);
    assert(crate::ui::strip_ansi_spec(Seq::<char>::empty()) == Seq::<char>::empty());
    lemma_strip_piece(c, ic, crate::ui::dim_start(), tail);
    if ctx.show_current_marker && e.is_current {
        lemma_strip_piece(b, ib, crate::entries::dim_italic_start(), c + tail);
    } else {
        assert(b + (c + tail) =~= c + tail);
        assert(ib + (ic + tail) =~= ic + tail);
    }
    if ctx.show_id && e.id is Some {
        lemma_strip_piece(a, ia, crate::ui::dim_start(), b + (c + tail));
    } else {
        assert(a + (b + (c + tail)) =~= b + (c + tail));
    }
    lemma_strip_plain_prefix(d, a + (b + (c + tail)));
    assert(l =~= d + (a + (b + (c + tail))));
    assert(p =~= d + (ia + (ib + (ic + tail))));
}

} // verus!

verus! {

/// Profiles that both carry a label are listed in the order of their labels,
/// compared trimmed and lower-cased (ASCII): among profiles other than the
/// active one, when the first label of the profile at position `i` reads
/// before that of the profile at position `j` once both are trimmed and
/// lower-cased, position `i` comes first.
pub proof fn law_labelled_profiles_listed_by_label(
    labels: Map<Seq<char>, Seq<char>>,
    tokens: Map<Seq<char>, Result<crate::identity::TokenSummary, String>>,
    index: Map<Seq<char>, EntryView>,
    current: Option<Seq<char>>,
    out: Seq<Seq<char>>,
    i: int,
    j: int,
    li: Seq<char>,
    lj: Seq<char>,
)
    requires
        0 <= i < out.len(),
        0 <= j < out.len(),
        current != Some(out[i]),
        current != Some(out[j]),
        first_label(labels, out[i]) == Some(li),
        first_label(labels, out[j]) == Some(lj),
        trim(li).len() > 0,
        trim(lj).len() > 0,
        crate::text::seq_lt(crate::text::lower_seq(trim(li)), crate::text::lower_seq(trim(lj))),
        forall|a: int, b: int|
            0 <= a < b < out.len() ==> crate::order::key_lt(
                crate::order::order_key(labels, tokens, index, current, #[trigger] out[a]),
                crate::order::order_key(labels, tokens, index, current, #[trigger] out[b]),
            ),
    ensures
        i < j,
{
    let x = crate::text::lower_seq(trim(li));
    let y = crate::text::lower_seq(trim(lj));
    crate::text::lemma_seq_lt_strict_total(x, y);
    let ki = crate::order::order_key(labels, tokens, index, current, out[i]);
    let kj = crate::order::order_key(labels, tokens, index, current, out[j]);
    assert(x.len() == trim(li).len());
    assert(y.len() == trim(lj).len());
    if j < i {
        assert(crate::order::key_lt(kj, ki));
        assert(ki.label == x);
        assert(kj.label == y);
    } else if i == j {
        assert(li == lj);
    }
}

/// A profile whose credentials have a problem shows it: for a profile that
/// is not an API-key profile and whose problem is not only a missing email
/// and plan, the first detail step is `ProfileFailed`, unless usage is shown
/// and only the access is missing while the email and plan are known (then
/// usage is reported unavailable). In particular a listing without usage
/// shows the problem.
pub proof fn law_profile_problem_is_shown(i: crate::details::DetailInputs)
    requires
        !i.is_api_key,
        i.has_profile_error,
        !(i.error_is_missing_email_plan && i.has_access_token && i.has_account_id),
    ensures
        i.show_usage && (!i.has_access_token || !i.has_account_id) && i.has_email && i.has_plan
            ==> crate::details::first_step_of(i) == crate::details::DetailStep::Done(
            crate::details::DetailOutcome::UsageUnavailable,
            false,
        ),
        !(i.show_usage && (!i.has_access_token || !i.has_account_id) && i.has_email && i.has_plan)
            ==> crate::details::first_step_of(i) == crate::details::DetailStep::Done(
            crate::details::DetailOutcome::ProfileFailed,
            false,
        ),
        !i.show_usage ==> crate::details::first_step_of(i) == crate::details::DetailStep::Done(
            crate::details::DetailOutcome::ProfileFailed,
            false,
        ),
{
}

/// An index whose text has the legacy format is always normalized: its
/// repair reports "Normalized profiles index format" first, so it is
/// written, whatever the index version.
pub proof fn law_legacy_index_is_normalized(
    index: crate::index::ProfilesIndex,
    saved: Seq<Seq<char>>,
    ready: Seq<Seq<char>>,
)
    ensures
        crate::index::repair_messages(crate::index::IndexRead::Parsed(index, true), saved, ready).len() > 0,
        crate::index::repair_messages(crate::index::IndexRead::Parsed(index, true), saved, ready)[0]
            == "Normalized profiles index format"@,
{
    let m = crate::index::repair_messages(crate::index::IndexRead::Parsed(index, true), saved, ready);
    let h = crate::index::repair_head(crate::index::IndexRead::Parsed(index, true));
    assert(h == seq!["Normalized profiles index format"@]);
    assert(m[0] == h[0]);
}

/// The decimal text of a number reads back as that number: it is made of
/// digits, has no leading zero (unless the number is zero), and its digits,
/// most significant first, give the number back.
pub proof fn law_decimal_reads_back(n: nat)
    ensures
        crate::text::decimal(n).len() > 0,
        crate::status::all_digits(crate::text::decimal(n)),
        crate::status::digits_value(crate::text::decimal(n)) == n,
        n > 0 ==> crate::text::decimal(n)[0] != '0',
    decreases n,
{
    let d = crate::text::decimal(n);
    if n < 10 {
        assert(d == seq![crate::text::digit_char(n as int)]);
        assert(d.drop_last() =~= Seq::<char>::empty());
        assert(crate::status::digits_value(Seq::<char>::empty()) == 0);
        assert(d.last() as nat - '0' as nat == n);
    } else {
        let q = n / 10;
        let r = n % 10;
        law_decimal_reads_back(q);
        let p = crate::text::decimal(q);
        assert(d == p.push(crate::text::digit_char(r as int)));
        assert(d.drop_last() =~= p);
        assert(d.last() as nat - '0' as nat == r);
        assert(q * 10 + r == n);
        assert forall|k: int| 0 <= k < d.len() implies '0' <= #[trigger] d[k] <= '9' by {
            if k < p.len() {
                assert(d[k] == p[k]);
            }
        }
        assert(d[0] == p[0]);
    }
}

} // verus!

verus! {

/// Profiles without any label are listed by email, compared trimmed and
/// lower-cased (ASCII): among profiles other than the active one that have
/// no label (none given and none in their index entry, which they lack) and
/// whose credentials carry an email, the one whose email reads first comes
/// first.
pub proof fn law_unlabelled_profiles_listed_by_email(
    labels: Map<Seq<char>, Seq<char>>,
    tokens: Map<Seq<char>, Result<crate::identity::TokenSummary, String>>,
    index: Map<Seq<char>, EntryView>,
    current: Option<Seq<char>>,
    out: Seq<Seq<char>>,
    i: int,
    j: int,
    ti: crate::identity::TokenSummary,
    tj: crate::identity::TokenSummary,
    ei: Seq<char>,
    ej: Seq<char>,
)
    requires
        0 <= i < out.len(),
        0 <= j < out.len(),
        current != Some(out[i]),
        current != Some(out[j]),
        first_label(labels, out[i]) is None,
        first_label(labels, out[j]) is None,
        !index.contains_key(out[i]),
        !index.contains_key(out[j]),
        tokens.contains_key(out[i]) && tokens[out[i]] == Ok::<crate::identity::TokenSummary, String>(ti),
        tokens.contains_key(out[j]) && tokens[out[j]] == Ok::<crate::identity::TokenSummary, String>(tj),
        crate::identity::opt_view(ti.email) == Some(ei),
        crate::identity::opt_view(tj.email) == Some(ej),
        trim(ei).len() > 0,
        trim(ej).len() > 0,
        crate::text::seq_lt(crate::text::lower_seq(trim(ei)), crate::text::lower_seq(trim(ej))),
        forall|a: int, b: int|
            0 <= a < b < out.len() ==> crate::order::key_lt(
                crate::order::order_key(labels, tokens, index, current, #[trigger] out[a]),
                crate::order::order_key(labels, tokens, index, current, #[trigger] out[b]),
            ),
    ensures
        i < j,
{
    let x = crate::text::lower_seq(trim(ei));
    let y = crate::text::lower_seq(trim(ej));
    crate::text::lemma_seq_lt_strict_total(x, y);
    let ki = crate::order::order_key(labels, tokens, index, current, out[i]);
    let kj = crate::order::order_key(labels, tokens, index, current, out[j]);
    assert(x.len() == trim(ei).len());
    assert(y.len() == trim(ej).len());
    assert(ki.label.len() == 0 && kj.label.len() == 0);
    if j < i {
        assert(crate::order::key_lt(kj, ki));
        assert(ki.email == x);
        assert(kj.email == y);
    } else if i == j {
        assert(ei == ej);
    }
}

/// API-key profiles have no usage: their first detail step ends at once,
/// reporting usage unavailable when usage is shown and nothing otherwise.
pub proof fn law_api_key_profiles_have_no_usage(i: crate::details::DetailInputs)
    requires
        i.is_api_key,
    ensures
        crate::details::first_step_of(i) == crate::details::DetailStep::Done(
            if i.show_usage {
                crate::details::DetailOutcome::ApiKeyUnavailable
            } else {
                crate::details::DetailOutcome::Empty
            },
            false,
        ),
{
}

/// Usage is fetched exactly when it can be: for a profile that is not an
/// API-key profile and has no problem (or only a missing email and plan),
/// with usage shown, a readable service address, an access token and an
/// account, the first step is to fetch usage.
pub proof fn law_usage_fetched_when_possible(i: crate::details::DetailInputs)
    requires
        !i.is_api_key,
        !i.has_profile_error || i.error_is_missing_email_plan,
        i.show_usage,
        !i.has_base_url_error,
        i.has_base_url,
        i.has_access_token,
        i.has_account_id,
    ensures
        crate::details::first_step_of(i) == crate::details::DetailStep::Fetch,
{
}

/// An index that is missing is initialized, and one in an older format is
/// normalized: its repair reports that first, so the index is written.
pub proof fn law_old_or_missing_index_is_rewritten(
    index: crate::index::ProfilesIndex,
    legacy: bool,
    saved: Seq<Seq<char>>,
    ready: Seq<Seq<char>>,
)
    ensures
        crate::index::repair_messages(crate::index::IndexRead::Missing, saved, ready).len() > 0,
        crate::index::repair_messages(crate::index::IndexRead::Missing, saved, ready)[0]
            == "Initialized profiles index"@,
        index.version < crate::index::PROFILES_INDEX_VERSION || legacy ==> {
            &&& crate::index::repair_messages(crate::index::IndexRead::Parsed(index, legacy), saved, ready).len() > 0
            &&& crate::index::repair_messages(crate::index::IndexRead::Parsed(index, legacy), saved, ready)[0]
                == "Normalized profiles index format"@
        },
        index.version >= crate::index::PROFILES_INDEX_VERSION && !legacy ==> crate::index::repair_head(
            crate::index::IndexRead::Parsed(index, legacy),
        ).len() == 0,
{
    let m0 = crate::index::repair_messages(crate::index::IndexRead::Missing, saved, ready);
    assert(crate::index::repair_head(crate::index::IndexRead::Missing) == seq!["Initialized profiles index"@]);
    assert(m0[0] == crate::index::repair_head(crate::index::IndexRead::Missing)[0]);
    let r = crate::index::IndexRead::Parsed(index, legacy);
    let m = crate::index::repair_messages(r, saved, ready);
    if index.version < crate::index::PROFILES_INDEX_VERSION || legacy {
        assert(crate::index::repair_head(r) == seq!["Normalized profiles index format"@]);
        assert(m[0] == crate::index::repair_head(r)[0]);
    }
}

} // verus!
