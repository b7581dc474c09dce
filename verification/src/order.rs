//! The order in which saved profiles are listed and offered: the active one
//! first, then labelled ones by label, then by email, then by id.
use vstd::prelude::*;

use crate::identity::{clone_opt, opt_view, TokenSummary};
use crate::index::{index_view, EntryView, ProfilesIndex};
use crate::labels::{first_label, label_for_id, label_map, lemma_label_for_id_is_first_label, Labels};
use crate::store::TokensMap;
use crate::text::{
    lemma_seq_lt_strict_total, lemma_seq_lt_transitive, lower_seq, seq_lt, str_eq, str_lt,
    to_ascii_lowercase, trim, trim_str, views,
};

verus! {

/// What is known of the saved profiles at one moment: their labels, what
/// each credentials file held, and the index.
#[derive(Debug)]
pub struct Snapshot {
    pub labels: Labels,
    pub tokens: TokensMap,
    pub index: ProfilesIndex,
}

/// The key by which a profile is listed: keys compare field by field.
#[derive(Debug)]
pub struct ProfileOrderKey {
    pub current_rank: u8,
    pub label_missing: bool,
    pub label: String,
    pub email_missing: bool,
    pub email: String,
    pub id_lower: String,
    pub id: String,
}

/// The characters of an order key.
pub struct OrderKeyView {
    pub current_rank: int,
    pub label_missing: bool,
    pub label: Seq<char>,
    pub email_missing: bool,
    pub email: Seq<char>,
    pub id_lower: Seq<char>,
    pub id: Seq<char>,
}

impl View for ProfileOrderKey {
    type V = OrderKeyView;

    open spec fn view(&self) -> OrderKeyView {
        OrderKeyView {
            current_rank: self.current_rank as int,
            label_missing: self.label_missing,
            label: self.label@,
            email_missing: self.email_missing,
            email: self.email@,
            id_lower: self.id_lower@,
            id: self.id@,
        }
    }
}

/// The characters of an optional string slice.
pub open spec fn opt_str_view(o: Option<&str>) -> Option<Seq<char>> {
    match o {
        Some(s) => Some(s@),
        None => None,
    }
}

/// The text a profile is sorted by: trimmed and lower-cased, empty when absent.
pub open spec fn sort_text(o: Option<Seq<char>>) -> Seq<char> {
    match o {
        Some(v) => lower_seq(trim(v)),
        None => Seq::empty(),
    }
}

/// The label a profile is listed under: its least label, else the label
/// that its index entry records.
pub open spec fn label_source(
    labels: Map<Seq<char>, Seq<char>>,
    index: Map<Seq<char>, EntryView>,
    id: Seq<char>,
) -> Option<Seq<char>> {
    match first_label(labels, id) {
        Some(l) => Some(l),
        None => if index.contains_key(id) {
            index[id].label
        } else {
            None
        },
    }
}

/// The email a profile is listed under: the one its credentials carry, else
/// the one its index entry records.
pub open spec fn email_source(
    tokens: Map<Seq<char>, Result<TokenSummary, String>>,
    index: Map<Seq<char>, EntryView>,
    id: Seq<char>,
) -> Option<Seq<char>> {
    let from_tokens = if tokens.contains_key(id) {
        match tokens[id] {
            Ok(t) => opt_view(t.email),
            Err(_) => None,
        }
    } else {
        None
    };
    match from_tokens {
        Some(e) => Some(e),
        None => if index.contains_key(id) {
            index[id].email
        } else {
            None
        },
    }
}

/// The order key of profile `id`.
pub open spec fn order_key(
    labels: Map<Seq<char>, Seq<char>>,
    tokens: Map<Seq<char>, Result<TokenSummary, String>>,
    index: Map<Seq<char>, EntryView>,
    current: Option<Seq<char>>,
    id: Seq<char>,
) -> OrderKeyView {
    let label = sort_text(label_source(labels, index, id));
    let email = sort_text(email_source(tokens, index, id));
    OrderKeyView {
        current_rank: if current == Some(id) {
            0
        } else {
            1
        },
        label_missing: label.len() == 0,
        label: label,
        email_missing: email.len() == 0,
        email: email,
        id_lower: lower_seq(id),
        id: id,
    }
}

/// Key `a` comes strictly before key `b`: field by field, `false` before
/// `true`, strings in lexicographic order, the raw id last.
pub open spec fn key_lt(a: OrderKeyView, b: OrderKeyView) -> bool {
    if a.current_rank != b.current_rank {
        a.current_rank < b.current_rank
    } else if a.label_missing != b.label_missing {
        !a.label_missing
    } else if a.label != b.label {
        seq_lt(a.label, b.label)
    } else if a.email_missing != b.email_missing {
        !a.email_missing
    } else if a.email != b.email {
        seq_lt(a.email, b.email)
    } else if a.id_lower != b.id_lower {
        seq_lt(a.id_lower, b.id_lower)
    } else {
        seq_lt(a.id, b.id)
    }
}

/// `key_lt` is a strict order, total on keys of different ids.
pub proof fn lemma_key_lt_strict_total(a: OrderKeyView, b: OrderKeyView)
    ensures
        !key_lt(a, a),
        !(key_lt(a, b) && key_lt(b, a)),
        a.id != b.id ==> key_lt(a, b) || key_lt(b, a),
{
    lemma_seq_lt_strict_total(a.label, b.label);
    lemma_seq_lt_strict_total(a.email, b.email);
    lemma_seq_lt_strict_total(a.id_lower, b.id_lower);
    lemma_seq_lt_strict_total(a.id, b.id);
    lemma_seq_lt_strict_total(a.label, a.label);
    lemma_seq_lt_strict_total(a.email, a.email);
    lemma_seq_lt_strict_total(a.id_lower, a.id_lower);
    lemma_seq_lt_strict_total(a.id, a.id);
}

/// `key_lt` is transitive.
pub proof fn lemma_key_lt_transitive(a: OrderKeyView, b: OrderKeyView, c: OrderKeyView)
    requires
        key_lt(a, b),
        key_lt(b, c),
    ensures
        key_lt(a, c),
{
    if a.current_rank == b.current_rank && b.current_rank == c.current_rank
        && a.label_missing == b.label_missing && b.label_missing == c.label_missing {
        if a.label != b.label && b.label != c.label {
            lemma_seq_lt_transitive(a.label, b.label, c.label);
            lemma_seq_lt_strict_total(a.label, c.label);
        } else if a.label == b.label && b.label == c.label && a.email_missing == b.email_missing
            && b.email_missing == c.email_missing {
            if a.email != b.email && b.email != c.email {
                lemma_seq_lt_transitive(a.email, b.email, c.email);
                lemma_seq_lt_strict_total(a.email, c.email);
            } else if a.email == b.email && b.email == c.email {
                if a.id_lower != b.id_lower && b.id_lower != c.id_lower {
                    lemma_seq_lt_transitive(a.id_lower, b.id_lower, c.id_lower);
                    lemma_seq_lt_strict_total(a.id_lower, c.id_lower);
                } else if a.id_lower == b.id_lower && b.id_lower == c.id_lower {
                    lemma_seq_lt_transitive(a.id, b.id, c.id);
                }
            }
        }
    }
}

/// Whether key `a` comes strictly before key `b`.
pub fn order_key_lt(a: &ProfileOrderKey, b: &ProfileOrderKey) -> (r: bool)
    ensures
        r == key_lt(a@, b@),
{
    if a.current_rank != b.current_rank {
        return a.current_rank < b.current_rank;
    }
    if a.label_missing != b.label_missing {
        return !a.label_missing;
    }
    if !str_eq(a.label.as_str(), b.label.as_str()) {
        return str_lt(a.label.as_str(), b.label.as_str());
    }
    if a.email_missing != b.email_missing {
        return !a.email_missing;
    }
    if !str_eq(a.email.as_str(), b.email.as_str()) {
        return str_lt(a.email.as_str(), b.email.as_str());
    }
    if !str_eq(a.id_lower.as_str(), b.id_lower.as_str()) {
        return str_lt(a.id_lower.as_str(), b.id_lower.as_str());
    }
    str_lt(a.id.as_str(), b.id.as_str())
}

/// The text a profile is sorted by, from an optional source.
fn sort_text_of(o: &Option<String>) -> (r: String)
    ensures
        r@ == sort_text(opt_view(*o)),
{
    match o {
        Some(v) => {
            let t = trim_str(v.as_str());
            to_ascii_lowercase(t.as_str())
        },
        None => String::new(),
    }
}

/// The order key of profile `id` in `snapshot`, `current` being the id of
/// the active profile.
pub fn profile_order_key(snapshot: &Snapshot, current: Option<&str>, id: &String) -> (k: ProfileOrderKey)
    ensures
        k@ == order_key(
            label_map(&snapshot.labels),
            snapshot.tokens@,
            index_view(&snapshot.index),
            opt_str_view(current),
            id@,
        ),
{
    let ghost lm = label_map(&snapshot.labels);
    let ghost im = index_view(&snapshot.index);
    let first = label_for_id(&snapshot.labels, id.as_str());
    proof {
        lemma_label_for_id_is_first_label(lm, opt_view(first), id@);
    }
    let label_src: Option<String> = match first {
        Some(l) => Some(l),
        None => match snapshot.index.profiles.get(id.as_str()) {
            Some(e) => clone_opt(&e.label),
            None => None,
        },
    };
    let from_tokens: Option<String> = match snapshot.tokens.get(id.as_str()) {
        Some(Ok(t)) => clone_opt(&t.email),
        _ => None,
    };
    let email_src: Option<String> = match from_tokens {
        Some(e) => Some(e),
        None => match snapshot.index.profiles.get(id.as_str()) {
            Some(e) => clone_opt(&e.email),
            None => None,
        },
    };
    let label = sort_text_of(&label_src);
    let email = sort_text_of(&email_src);
    let current_rank: u8 = match current {
        Some(c) => if str_eq(c, id.as_str()) {
            0
        } else {
            1
        },
        None => 1,
    };
    let label_missing = label.as_str().unicode_len() == 0;
    let email_missing = email.as_str().unicode_len() == 0;
    ProfileOrderKey {
        current_rank,
        label_missing,
        label,
        email_missing,
        email,
        id_lower: to_ascii_lowercase(id.as_str()),
        id: id.clone(),
    }
}

/// The ids carried by a list of keys.
pub open spec fn key_ids(keys: Seq<ProfileOrderKey>) -> Seq<Seq<char>> {
    keys.map_values(|k: ProfileOrderKey| k.id@)
}

/// The ids of the saved profiles in listing order: every id of
/// `snapshot.tokens` once, each key strictly before the next.
pub fn ordered_profile_ids(snapshot: &Snapshot, current: Option<&str>) -> (out: Vec<String>)
    ensures
        views(out@).to_set() == snapshot.tokens@.dom(),
        out@.len() == snapshot.tokens@.dom().len(),
        forall|i: int, j: int|
            0 <= i < j < out@.len() ==> key_lt(
                order_key(
                    label_map(&snapshot.labels),
                    snapshot.tokens@,
                    index_view(&snapshot.index),
                    opt_str_view(current),
                    #[trigger] out@[i]@,
                ),
                order_key(
                    label_map(&snapshot.labels),
                    snapshot.tokens@,
                    index_view(&snapshot.index),
                    opt_str_view(current),
                    #[trigger] out@[j]@,
                ),
            ),
{
    let ghost lm = label_map(&snapshot.labels);
    let ghost tm = snapshot.tokens@;
    let ghost im = index_view(&snapshot.index);
    let ghost cur = opt_str_view(current);
    let n = snapshot.tokens.len();
    let mut keyed: Vec<ProfileOrderKey> = Vec::new();
    let mut i: usize = 0;
    while i < n
        invariant
            n == snapshot.tokens.key_order().len(),
            i <= n,
            keyed@.len() == i,
            lm == label_map(&snapshot.labels),
            tm == snapshot.tokens@,
            im == index_view(&snapshot.index),
            cur == opt_str_view(current),
            forall|x: Seq<char>| #[trigger] snapshot.tokens@.contains_key(x) <==> snapshot.tokens.key_order().contains(x),
            forall|a: int, b: int|
                0 <= a < b < snapshot.tokens.key_order().len() ==> snapshot.tokens.key_order()[a]
                    != snapshot.tokens.key_order()[b],
            forall|a: int, b: int|
                0 <= a < b < keyed@.len() ==> key_lt(#[trigger] keyed@[a]@, #[trigger] keyed@[b]@),
            forall|a: int|
                0 <= a < keyed@.len() ==> #[trigger] keyed@[a]@ == order_key(lm, tm, im, cur, keyed@[a]@.id),
            forall|x: Seq<char>| #[trigger] key_ids(keyed@).contains(x) <==> snapshot.tokens.key_order().take(i as int).contains(x),
        decreases n - i,
    {
        let (id, _) = snapshot.tokens.entry_at(i);
        let k = profile_order_key(snapshot, current, id);
        let ghost kv = k@;
        proof {
            assert forall|a: int| 0 <= a < keyed@.len() implies keyed@[a]@.id != kv.id by {
                assert(key_ids(keyed@)[a] == keyed@[a]@.id);
                assert(key_ids(keyed@).contains(keyed@[a]@.id));
                assert(snapshot.tokens.key_order().take(i as int).contains(keyed@[a]@.id));
                let j = choose|j: int| 0 <= j < i && snapshot.tokens.key_order().take(i as int)[j] == keyed@[a]@.id;
                assert(snapshot.tokens.key_order()[j] == keyed@[a]@.id);
            }
        }
        let mut p: usize = 0;
        while p < keyed.len() && !order_key_lt(&k, &keyed[p])
            invariant
                p <= keyed@.len(),
                kv == k@,
                kv == order_key(lm, tm, im, cur, kv.id),
                forall|a: int| 0 <= a < keyed@.len() ==> keyed@[a]@.id != kv.id,
                forall|a: int| 0 <= a < p ==> key_lt(#[trigger] keyed@[a]@, kv),
            decreases keyed.len() - p,
        {
            proof {
                lemma_key_lt_strict_total(kv, keyed@[p as int]@);
            }
            p = p + 1;
        }
        let ghost old_keyed = keyed@;
        proof {
            assert forall|a: int| 0 <= a < old_keyed.len() implies #[trigger] old_keyed[a]@ == order_key(lm, tm, im, cur, old_keyed[a]@.id) by {
                assert(keyed@[a]@ == order_key(lm, tm, im, cur, keyed@[a]@.id));
            }
            assert(kv.id == id@);
            assert forall|a: int| p <= a < old_keyed.len() implies key_lt(kv, #[trigger] old_keyed[a]@) by {
                if a > p {
                    assert(key_lt(old_keyed[p as int]@, old_keyed[a]@));
                    lemma_key_lt_transitive(kv, old_keyed[p as int]@, old_keyed[a]@);
                }
            }
        }
        keyed.insert(p, k);
        proof {
            assert(keyed@ =~= old_keyed.insert(p as int, k));
            assert forall|a: int, b: int| 0 <= a < b < keyed@.len() implies key_lt(#[trigger] keyed@[a]@, #[trigger] keyed@[b]@) by {
                if b < p {
                } else if b == p {
                    assert(keyed@[a] == old_keyed[a]);
                } else if a == p {
                    assert(keyed@[b] == old_keyed[b - 1]);
                } else if a < p {
                    assert(keyed@[a] == old_keyed[a]);
                    assert(keyed@[b] == old_keyed[b - 1]);
                    lemma_key_lt_transitive(old_keyed[a]@, kv, old_keyed[b - 1]@);
                } else {
                    assert(keyed@[a] == old_keyed[a - 1]);
                    assert(keyed@[b] == old_keyed[b - 1]);
                }
            }
            assert forall|a: int| 0 <= a < keyed@.len() implies #[trigger] keyed@[a]@ == order_key(lm, tm, im, cur, keyed@[a]@.id) by {
                if a < p {
                    assert(keyed@[a] == old_keyed[a]);
                } else if a > p {
                    assert(keyed@[a] == old_keyed[a - 1]);
                } else {
                    assert(keyed@[a]@ == kv);
                }
            }
            let ko = snapshot.tokens.key_order();
            assert(key_ids(keyed@) =~= key_ids(old_keyed).insert(p as int, kv.id));
            assert(ko.take(i + 1) =~= ko.take(i as int).push(kv.id));
            assert forall|x: Seq<char>| #[trigger] key_ids(keyed@).contains(x) <==> ko.take(i + 1).contains(x) by {
                let ki = key_ids(keyed@);
                let ko_old = key_ids(old_keyed);
                let kt = ko.take(i + 1);
                if ki.contains(x) {
                    let a = choose|a: int| 0 <= a < ki.len() && ki[a] == x;
                    if a < p {
                        assert(ko_old[a] == x);
                        assert(ko_old.contains(x));
                        assert(ko.take(i as int).contains(x));
                        let b = choose|b: int| 0 <= b < i && ko.take(i as int)[b] == x;
                        assert(kt[b] == x);
                    } else if a > p {
                        assert(ko_old[a - 1] == x);
                        assert(ko_old.contains(x));
                        assert(ko.take(i as int).contains(x));
                        let b = choose|b: int| 0 <= b < i && ko.take(i as int)[b] == x;
                        assert(kt[b] == x);
                    } else {
                        assert(kt[i as int] == x);
                    }
                }
                if kt.contains(x) {
                    let a = choose|a: int| 0 <= a < kt.len() && kt[a] == x;
                    if a < i {
                        assert(ko.take(i as int)[a] == x);
                        assert(ko.take(i as int).contains(x));
                        assert(ko_old.contains(x));
                        let b = choose|b: int| 0 <= b < ko_old.len() && ko_old[b] == x;
                        if b < p {
                            assert(ki[b] == x);
                        } else {
                            assert(ki[b + 1] == x);
                        }
                    } else {
                        assert(ki[p as int] == x);
                    }
                }
            }
        }
        i = i + 1;
    }
    let mut out: Vec<String> = Vec::new();
    let mut j: usize = 0;
    while j < keyed.len()
        invariant
            j <= keyed@.len(),
            views(out@) == key_ids(keyed@).take(j as int),
        decreases keyed.len() - j,
    {
        out.push(keyed[j].id.clone());
        assert(key_ids(keyed@).take(j + 1) =~= key_ids(keyed@).take(j as int).push(keyed@[j as int].id@));
        assert(views(out@) =~= key_ids(keyed@).take(j + 1));
        j = j + 1;
    }
    proof {
        let ko = snapshot.tokens.key_order();
        assert(key_ids(keyed@).take(keyed@.len() as int) =~= key_ids(keyed@));
        assert(ko.take(n as int) =~= ko);
        assert(views(out@).to_set() =~= tm.dom()) by {
            assert forall|x: Seq<char>| views(out@).to_set().contains(x) <==> tm.dom().contains(x) by {
                assert(snapshot.tokens@.contains_key(x) <==> ko.contains(x));
                assert(key_ids(keyed@).contains(x) <==> ko.take(n as int).contains(x));
            }
        }
        assert forall|a: int, b: int| 0 <= a < b < out@.len() implies key_lt(
            order_key(lm, tm, im, cur, #[trigger] out@[a]@),
            order_key(lm, tm, im, cur, #[trigger] out@[b]@),
        ) by {
            assert(views(out@)[a] == out@[a]@);
            assert(views(out@)[b] == out@[b]@);
            assert(key_ids(keyed@)[a] == keyed@[a]@.id);
            assert(key_ids(keyed@)[b] == keyed@[b]@.id);
            assert(key_lt(keyed@[a]@, keyed@[b]@));
        }
    }
    out
}

} // verus!

verus! {

/// `s` without the occurrences of `x`.
pub open spec fn without_item(s: Seq<Seq<char>>, x: Option<Seq<char>>) -> Seq<Seq<char>>
    decreases s.len(),
{
    if s.len() == 0 {
        Seq::empty()
    } else {
        let prev = without_item(s.drop_last(), x);
        if x == Some(s.last()) {
            prev
        } else {
            prev.push(s.last())
        }
    }
}

/// The listed ids other than the active profile's, in order.
pub fn ids_without_current(ordered: &Vec<String>, current: Option<&str>) -> (out: Vec<String>)
    ensures
        views(out@) == without_item(views(ordered@), opt_str_view(current)),
{
    let mut out: Vec<String> = Vec::new();
    let mut i: usize = 0;
    while i < ordered.len()
        invariant
            i <= ordered@.len(),
            views(out@) == without_item(views(ordered@).take(i as int), opt_str_view(current)),
        decreases ordered.len() - i,
    {
        let ghost t = views(ordered@).take(i + 1);
        assert(t.drop_last() =~= views(ordered@).take(i as int));
        assert(t.last() == ordered@[i as int]@);
        let skip = match current {
            Some(c) => str_eq(c, ordered[i].as_str()),
            None => false,
        };
        if !skip {
            let ghost before = views(out@);
            out.push(ordered[i].clone());
            assert(views(out@) =~= before.push(ordered@[i as int]@));
        }
        i = i + 1;
    }
    assert(views(ordered@).take(ordered@.len() as int) =~= views(ordered@));
    out
}

} // verus!
