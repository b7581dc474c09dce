//! Labels: short names that users give to saved profiles. A label names one
//! profile; a profile carries at most one label after `assign_label`.
use vstd::prelude::*;

use crate::error::ProfileError;
use crate::strmap::StrMap;
use crate::text::{
    chars_lt, lemma_seq_lt_strict_total, lemma_seq_lt_transitive, seq_lt, str_eq, to_chars,
    trim, trim_bounds,
};

verus! {

/// Labels, each naming the id of a profile.
pub type Labels = StrMap<String>;

/// The labels as a map from label characters to id characters.
pub open spec fn label_map(labels: &Labels) -> Map<Seq<char>, Seq<char>> {
    labels@.map_values(|v: String| v@)
}

/// `m` without the labels that name `id`.
pub open spec fn without_id(m: Map<Seq<char>, Seq<char>>, id: Seq<char>) -> Map<Seq<char>, Seq<char>> {
    Map::new(|l: Seq<char>| m.contains_key(l) && m[l] != id, |l: Seq<char>| m[l])
}

/// `l` is the least label (in string order) that names `id` in `m`.
pub open spec fn is_first_label_for(m: Map<Seq<char>, Seq<char>>, l: Seq<char>, id: Seq<char>) -> bool {
    &&& m.contains_key(l)
    &&& m[l] == id
    &&& forall|l2: Seq<char>| #[trigger] m.contains_key(l2) && m[l2] == id ==> l2 == l || seq_lt(l, l2)
}

/// Some label names `id` in `m`.
pub open spec fn has_label_for(m: Map<Seq<char>, Seq<char>>, id: Seq<char>) -> bool {
    exists|l: Seq<char>| #[trigger] m.contains_key(l) && m[l] == id
}

/// The label trimmed of surrounding whitespace; refused when nothing is left.
pub fn trim_label(label: &str) -> (r: Result<&str, ProfileError>)
    ensures
        match r {
            Ok(t) => t@ == trim(label@) && t@.len() > 0,
            Err(e) => e == ProfileError::LabelEmpty && trim(label@).len() == 0,
        },
{
    let cs = to_chars(label);
    let (a, b) = trim_bounds(cs.as_slice());
    if a == b {
        return Err(ProfileError::LabelEmpty);
    }
    Ok(label.substring_char(a, b))
}

/// Removes every label that names `id`.
pub fn remove_labels_for_id(labels: &mut Labels, id: &str)
    ensures
        label_map(final(labels)) == without_id(label_map(old(labels)), id@),
{
    let ghost m = label_map(labels);
    let n = labels.len();
    let mut out: Labels = StrMap::new();
    let mut i: usize = 0;
    while i < n
        invariant
            n == labels.key_order().len(),
            i <= n,
            m == label_map(labels),
            forall|a: int, b: int|
                0 <= a < n && 0 <= b < n && a != b ==> labels.key_order()[a]
                    != labels.key_order()[b],
            forall|k: Seq<char>| #[trigger] labels@.contains_key(k) <==> labels.key_order().contains(k),
            forall|k: Seq<char>| #[trigger]
                out@.contains_key(k) <==> (exists|j: int|
                    0 <= j < i && labels.key_order()[j] == k) && labels@.contains_key(k) && labels@[k]@ != id@,
            forall|k: Seq<char>| #[trigger] out@.contains_key(k) ==> out@[k]@ == labels@[k]@,
        decreases n - i,
    {
        let (l, v) = labels.entry_at(i);
        if !str_eq(v.as_str(), id) {
            out.insert(l.clone(), v.clone());
        }
        proof {
            assert forall|k: Seq<char>| #[trigger]
                out@.contains_key(k) <==> (exists|j: int|
                    0 <= j < i + 1 && labels.key_order()[j] == k) && labels@.contains_key(k) && labels@[k]@ != id@ by {
                if k == labels.key_order()[i as int] {
                } else if exists|j: int| 0 <= j < i + 1 && labels.key_order()[j] == k {
                    let j = choose|j: int| 0 <= j < i + 1 && labels.key_order()[j] == k;
                    assert(j < i);
                }
            }
        }
        i = i + 1;
    }
    proof {
        assert forall|k: Seq<char>| #[trigger] label_map(&out).contains_key(k) <==> without_id(m, id@).contains_key(k) by {
            if labels@.contains_key(k) {
                assert(labels.key_order().contains(k));
                let j = choose|j: int| 0 <= j < labels.key_order().len() && labels.key_order()[j] == k;
            }
        }
        assert(label_map(&out) =~= without_id(m, id@));
    }
    *labels = out;
}

} // verus!

verus! {

/// The least label (in string order) that names `id`, if any does.
pub fn label_for_id(labels: &Labels, id: &str) -> (r: Option<String>)
    ensures
        match r {
            Some(l) => is_first_label_for(label_map(labels), l@, id@),
            None => !has_label_for(label_map(labels), id@),
        },
{
    let ghost m = label_map(labels);
    let n = labels.len();
    let mut best: Option<String> = None;
    let mut i: usize = 0;
    while i < n
        invariant
            n == labels.key_order().len(),
            i <= n,
            m == label_map(labels),
            forall|k: Seq<char>| #[trigger] labels@.contains_key(k) <==> labels.key_order().contains(k),
            match best {
                Some(b) => labels@.contains_key(b@) && labels@[b@]@ == id@ && forall|j: int|
                    0 <= j < i && labels@[labels.key_order()[j]]@ == id@ ==> labels.key_order()[j]
                        == b@ || seq_lt(b@, #[trigger] labels.key_order()[j]),
                None => forall|j: int|
                    0 <= j < i ==> labels@[#[trigger] labels.key_order()[j]]@ != id@,
            },
        decreases n - i,
    {
        let (l, v) = labels.entry_at(i);
        if str_eq(v.as_str(), id) {
            let replace = match &best {
                None => true,
                Some(b) => crate::text::str_lt(l.as_str(), b.as_str()),
            };
            let ghost bo = best;
            proof {
                match bo {
                    Some(b) => {
                        lemma_seq_lt_strict_total(l@, b@);
                        assert forall|j: int|
                            0 <= j < i && labels@[labels.key_order()[j]]@ == id@ implies (if replace {
                            labels.key_order()[j] == l@ || seq_lt(l@, labels.key_order()[j])
                        } else {
                            labels.key_order()[j] == b@ || seq_lt(b@, labels.key_order()[j])
                        }) by {
                            if replace && labels.key_order()[j] != b@ {
                                lemma_seq_lt_transitive(l@, b@, labels.key_order()[j]);
                            }
                        }
                    },
                    None => {},
                }
            }
            if replace {
                best = Some(l.clone());
            }
        }
        i = i + 1;
    }
    let ghost bo = best;
    proof {
        match bo {
            Some(b) => {
                assert forall|l2: Seq<char>| #[trigger]
                    m.contains_key(l2) && m[l2] == id@ implies l2 == b@ || seq_lt(b@, l2) by {
                    assert(labels.key_order().contains(l2));
                    let j = choose|j: int| 0 <= j < n && labels.key_order()[j] == l2;
                }
            },
            None => {
                assert forall|l2: Seq<char>| #[trigger] m.contains_key(l2) implies m[l2] != id@ by {
                    assert(labels.key_order().contains(l2));
                    let j = choose|j: int| 0 <= j < n && labels.key_order()[j] == l2;
                }
            },
        }
    }
    best
}

/// What looking up label `raw` in `m` gives: refused when empty once
/// trimmed, the id the trimmed label names, or refused as not found.
pub open spec fn label_resolution(m: Map<Seq<char>, Seq<char>>, raw: Seq<char>, r: Result<String, ProfileError>) -> bool {
    if trim(raw).len() == 0 {
        r matches Err(ProfileError::LabelEmpty)
    } else if m.contains_key(trim(raw)) {
        r matches Ok(x) && x@ == m[trim(raw)]
    } else {
        r matches Err(ProfileError::LabelNotFound(x)) && x@ == trim(raw)
    }
}

/// The id named by `label` (trimmed).
pub fn resolve_label_id(labels: &Labels, label: &str) -> (r: Result<String, ProfileError>)
    ensures
        label_resolution(label_map(labels), label@, r),
        trim(label@).len() == 0 ==> r == Err::<String, ProfileError>(ProfileError::LabelEmpty),
        trim(label@).len() > 0 && label_map(labels).contains_key(trim(label@)) ==> (r matches Ok(id)
            && id@ == label_map(labels)[trim(label@)]),
        trim(label@).len() > 0 && !label_map(labels).contains_key(trim(label@)) ==> (r matches Err(
            ProfileError::LabelNotFound(l),
        ) && l@ == trim(label@)),
{
    let trimmed = trim_label(label)?;
    match labels.get(trimmed) {
        Some(id) => Ok(id.clone()),
        None => Err(ProfileError::LabelNotFound(String::from_str(trimmed))),
    }
}

/// Gives `label` (trimmed) to profile `id`. Refused when the label is empty
/// or already names another profile; otherwise any other label of `id` is
/// dropped, so that the profile carries this one label.
pub fn assign_label(labels: &mut Labels, label: &str, id: &str) -> (r: Result<(), ProfileError>)
    ensures
        trim(label@).len() == 0 ==> r == Err::<(), ProfileError>(ProfileError::LabelEmpty),
        trim(label@).len() > 0 && label_map(old(labels)).contains_key(trim(label@)) && label_map(
            old(labels),
        )[trim(label@)] != id@ ==> (r matches Err(ProfileError::LabelExists(l)) && l@ == trim(
            label@,
        )),
        r is Err ==> label_map(final(labels)) == label_map(old(labels)),
        r is Ok <==> (trim(label@).len() > 0 && (label_map(old(labels)).contains_key(
            trim(label@),
        ) ==> label_map(old(labels))[trim(label@)] == id@)),
        r is Ok ==> label_map(final(labels)) == without_id(label_map(old(labels)), id@).insert(
            trim(label@),
            id@,
        ),
{
    let trimmed = trim_label(label)?;
    match labels.get(trimmed) {
        Some(existing) => {
            if !str_eq(existing.as_str(), id) {
                return Err(ProfileError::LabelExists(String::from_str(trimmed)));
            }
        },
        None => {},
    }
    let ghost before = label_map(labels);
    remove_labels_for_id(labels, id);
    labels.insert(String::from_str(trimmed), String::from_str(id));
    proof {
        assert(label_map(labels) =~= without_id(before, id@).insert(trim(label@), id@));
    }
    Ok(())
}

/// Keeps only the labels whose profile is among `saved_ids`.
pub fn prune_labels(labels: &mut Labels, saved_ids: &Vec<String>)
    ensures
        label_map(final(labels)) == Map::new(
            |l: Seq<char>|
                label_map(old(labels)).contains_key(l) && crate::text::views(saved_ids@).contains(
                    label_map(old(labels))[l],
                ),
            |l: Seq<char>| label_map(old(labels))[l],
        ),
{
    let ghost m = label_map(labels);
    let n = labels.len();
    let mut out: Labels = StrMap::new();
    let mut i: usize = 0;
    while i < n
        invariant
            n == labels.key_order().len(),
            i <= n,
            m == label_map(labels),
            forall|k: Seq<char>| #[trigger] labels@.contains_key(k) <==> labels.key_order().contains(k),
            forall|k: Seq<char>| #[trigger]
                out@.contains_key(k) <==> (exists|j: int| 0 <= j < i && labels.key_order()[j] == k)
                    && labels@.contains_key(k) && crate::text::views(saved_ids@).contains(labels@[k]@),
            forall|k: Seq<char>| #[trigger] out@.contains_key(k) ==> out@[k]@ == labels@[k]@,
        decreases n - i,
    {
        let (l, v) = labels.entry_at(i);
        if crate::text::vec_contains_str(saved_ids, v.as_str()) {
            out.insert(l.clone(), v.clone());
        }
        proof {
            assert forall|k: Seq<char>| #[trigger]
                out@.contains_key(k) <==> (exists|j: int| 0 <= j < i + 1 && labels.key_order()[j] == k)
                    && labels@.contains_key(k) && crate::text::views(saved_ids@).contains(labels@[k]@) by {
                if k == labels.key_order()[i as int] {
                } else if exists|j: int| 0 <= j < i + 1 && labels.key_order()[j] == k {
                    let j = choose|j: int| 0 <= j < i + 1 && labels.key_order()[j] == k;
                    assert(j < i);
                }
            }
        }
        i = i + 1;
    }
    proof {
        assert forall|k: Seq<char>| #[trigger] labels@.contains_key(k) implies (exists|j: int|
            0 <= j < n && labels.key_order()[j] == k) by {
            assert(labels.key_order().contains(k));
        }
        assert(label_map(&out) =~= Map::new(
            |l: Seq<char>| m.contains_key(l) && crate::text::views(saved_ids@).contains(m[l]),
            |l: Seq<char>| m[l],
        ));
    }
    *labels = out;
}

} // verus!

verus! {

/// For each labelled profile, its least label (in string order).
pub fn labels_by_id(labels: &Labels) -> (out: StrMap<String>)
    ensures
        forall|id: Seq<char>| #[trigger]
            out@.contains_key(id) <==> has_label_for(label_map(labels), id),
        forall|id: Seq<char>| #[trigger]
            out@.contains_key(id) ==> is_first_label_for(label_map(labels), out@[id]@, id),
{
    let ghost m = label_map(labels);
    let n = labels.len();
    let mut out: StrMap<String> = StrMap::new();
    let mut i: usize = 0;
    while i < n
        invariant
            n == labels.key_order().len(),
            i <= n,
            m == label_map(labels),
            forall|k: Seq<char>| #[trigger] labels@.contains_key(k) <==> labels.key_order().contains(k),
            forall|id: Seq<char>| #[trigger]
                out@.contains_key(id) <==> exists|j: int|
                    0 <= j < i && labels@[labels.key_order()[j]]@ == id,
            forall|id: Seq<char>| #[trigger]
                out@.contains_key(id) ==> labels@.contains_key(out@[id]@) && labels@[out@[id]@]@
                    == id && forall|j: int|
                    0 <= j < i && labels@[labels.key_order()[j]]@ == id ==> labels.key_order()[j]
                        == out@[id]@ || seq_lt(out@[id]@, #[trigger] labels.key_order()[j]),
        decreases n - i,
    {
        let (l, v) = labels.entry_at(i);
        let ghost lo = out@;
        let replace = match out.get(v.as_str()) {
            None => true,
            Some(b) => crate::text::str_lt(l.as_str(), b.as_str()),
        };
        proof {
            if lo.contains_key(v@) {
                let b = lo[v@];
                lemma_seq_lt_strict_total(l@, b@);
                assert forall|j: int|
                    0 <= j < i && labels@[labels.key_order()[j]]@ == v@ implies (if replace {
                    labels.key_order()[j] == l@ || seq_lt(l@, labels.key_order()[j])
                } else {
                    labels.key_order()[j] == b@ || seq_lt(b@, labels.key_order()[j])
                }) by {
                    if replace && labels.key_order()[j] != b@ {
                        lemma_seq_lt_transitive(l@, b@, labels.key_order()[j]);
                    }
                }
            }
        }
        if replace {
            out.insert(v.clone(), l.clone());
        }
        proof {
            assert forall|id: Seq<char>| #[trigger]
                out@.contains_key(id) <==> exists|j: int|
                    0 <= j < i + 1 && labels@[labels.key_order()[j]]@ == id by {
                if id != v@ && exists|j: int| 0 <= j < i + 1 && labels@[labels.key_order()[j]]@ == id {
                    let j = choose|j: int| 0 <= j < i + 1 && labels@[labels.key_order()[j]]@ == id;
                    assert(j < i);
                }
                if id == v@ {
                    assert(labels@[labels.key_order()[i as int]]@ == id);
                }
            }
            assert forall|id: Seq<char>| #[trigger] out@.contains_key(id) implies labels@.contains_key(out@[id]@)
                && labels@[out@[id]@]@ == id && forall|j: int|
                0 <= j < i + 1 && labels@[labels.key_order()[j]]@ == id ==> labels.key_order()[j]
                    == out@[id]@ || seq_lt(out@[id]@, #[trigger] labels.key_order()[j]) by {
                if id == v@ {
                    assert forall|j: int|
                        0 <= j < i + 1 && labels@[labels.key_order()[j]]@ == id implies labels.key_order()[j]
                            == out@[id]@ || seq_lt(out@[id]@, labels.key_order()[j]) by {
                        if j == i {
                            if !replace {
                                lemma_seq_lt_strict_total(l@, out@[id]@);
                            }
                        }
                    }
                }
            }
        }
        i = i + 1;
    }
    proof {
        assert forall|id: Seq<char>| #[trigger]
            out@.contains_key(id) <==> has_label_for(m, id) by {
            if has_label_for(m, id) {
                let l = choose|l: Seq<char>| #[trigger] m.contains_key(l) && m[l] == id;
                assert(labels.key_order().contains(l));
                let j = choose|j: int| 0 <= j < n && labels.key_order()[j] == l;
            }
            if out@.contains_key(id) {
                let j = choose|j: int| 0 <= j < n && labels@[labels.key_order()[j]]@ == id;
                assert(labels.key_order().contains(labels.key_order()[j]));
                assert(m.contains_key(labels.key_order()[j]));
            }
        }
        assert forall|id: Seq<char>| #[trigger] out@.contains_key(id) implies is_first_label_for(
            m,
            out@[id]@,
            id,
        ) by {
            assert forall|l2: Seq<char>| #[trigger]
                m.contains_key(l2) && m[l2] == id implies l2 == out@[id]@ || seq_lt(out@[id]@, l2) by {
                assert(labels.key_order().contains(l2));
                let j = choose|j: int| 0 <= j < n && labels.key_order()[j] == l2;
            }
        }
    }
    out
}

} // verus!

verus! {

/// The least label naming `id` in `m`, when some label does.
pub open spec fn first_label(m: Map<Seq<char>, Seq<char>>, id: Seq<char>) -> Option<Seq<char>> {
    if exists|l: Seq<char>| is_first_label_for(m, l, id) {
        Some(choose|l: Seq<char>| is_first_label_for(m, l, id))
    } else {
        None
    }
}

/// At most one label is the least one naming `id`.
pub proof fn lemma_first_label_unique(m: Map<Seq<char>, Seq<char>>, l1: Seq<char>, l2: Seq<char>, id: Seq<char>)
    requires
        is_first_label_for(m, l1, id),
        is_first_label_for(m, l2, id),
    ensures
        l1 == l2,
{
    lemma_seq_lt_strict_total(l1, l2);
}

/// What `label_for_id` returns is `first_label`.
pub proof fn lemma_label_for_id_is_first_label(m: Map<Seq<char>, Seq<char>>, r: Option<Seq<char>>, id: Seq<char>)
    requires
        match r {
            Some(l) => is_first_label_for(m, l, id),
            None => !has_label_for(m, id),
        },
    ensures
        r == first_label(m, id),
{
    match r {
        Some(l) => {
            let c = choose|l: Seq<char>| is_first_label_for(m, l, id);
            lemma_first_label_unique(m, l, c, id);
        },
        None => {
            if exists|l: Seq<char>| is_first_label_for(m, l, id) {
                let c = choose|l: Seq<char>| is_first_label_for(m, l, id);
                assert(m.contains_key(c) && m[c] == id);
            }
        },
    }
}

} // verus!
