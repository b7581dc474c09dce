//! A map keyed by strings, the shape of the `BTreeMap<String, _>` tables
//! that profiles are kept in. Its model is a `Map` from key characters to
//! values; entries are found again by the characters of their key.
use vstd::prelude::*;

use crate::text::str_eq;

verus! {

/// No two entries share a key.
pub open spec fn keys_distinct<V>(s: Seq<(String, V)>) -> bool {
    forall|i: int, j: int| 0 <= i < s.len() && 0 <= j < s.len() && i != j ==> s[i].0@ != s[j].0@
}

/// The map that a list of entries with distinct keys describes.
pub open spec fn assoc_map<V>(s: Seq<(String, V)>) -> Map<Seq<char>, V>
    decreases s.len(),
{
    if s.len() == 0 {
        Map::empty()
    } else {
        assoc_map(s.drop_last()).insert(s.last().0@, s.last().1)
    }
}

/// What `assoc_map` holds: exactly the keys of the entries, each with its
/// entry's value, and as many keys as entries.
pub proof fn lemma_assoc_map<V>(s: Seq<(String, V)>)
    requires
        keys_distinct(s),
    ensures
        forall|k: Seq<char>|
            #[trigger] assoc_map(s).contains_key(k) <==> exists|j: int|
                0 <= j < s.len() && s[j].0@ == k,
        forall|j: int| 0 <= j < s.len() ==> #[trigger] assoc_map(s)[s[j].0@] == s[j].1,
        assoc_map(s).dom().finite(),
        assoc_map(s).dom().len() == s.len(),
    decreases s.len(),
{
    if s.len() > 0 {
        let t = s.drop_last();
        assert(keys_distinct(t));
        lemma_assoc_map(t);
        let k = s.last().0@;
        assert(!assoc_map(t).contains_key(k)) by {
            if assoc_map(t).contains_key(k) {
                let j = choose|j: int| 0 <= j < t.len() && t[j].0@ == k;
                assert(s[j].0@ == s[s.len() - 1].0@);
            }
        }
        assert forall|k2: Seq<char>| #[trigger]
            assoc_map(s).contains_key(k2) <==> exists|j: int| 0 <= j < s.len() && s[j].0@ == k2 by {
            if assoc_map(s).contains_key(k2) && k2 != k {
                let j = choose|j: int| 0 <= j < t.len() && t[j].0@ == k2;
                assert(s[j].0@ == k2);
            }
            if exists|j: int| 0 <= j < s.len() && s[j].0@ == k2 {
                let j = choose|j: int| 0 <= j < s.len() && s[j].0@ == k2;
                if j < s.len() - 1 {
                    assert(t[j].0@ == k2);
                }
            }
        }
        assert forall|j: int| 0 <= j < s.len() implies #[trigger] assoc_map(s)[s[j].0@] == s[j].1 by {
            if j < s.len() - 1 {
                assert(t[j] == s[j]);
                assert(s[j].0@ != k);
            }
        }
    }
}

/// Removing an entry removes its key from the map.
pub proof fn lemma_assoc_map_remove<V>(s0: Seq<(String, V)>, i: int)
    requires
        keys_distinct(s0),
        0 <= i < s0.len(),
    ensures
        keys_distinct(s0.remove(i)),
        assoc_map(s0.remove(i)) == assoc_map(s0).remove(s0[i].0@),
{
    let s1 = s0.remove(i);
    let key = s0[i].0@;
    let old_map = assoc_map(s0);
    lemma_assoc_map(s0);
    assert(keys_distinct(s1)) by {
        assert forall|a: int, b: int| 0 <= a < s1.len() && 0 <= b < s1.len() && a != b implies s1[a].0@ != s1[b].0@ by {
            let a0 = if a < i { a } else { a + 1 };
            let b0 = if b < i { b } else { b + 1 };
            assert(s1[a] == s0[a0]);
            assert(s1[b] == s0[b0]);
        }
    }
    lemma_assoc_map(s1);
    assert forall|k: Seq<char>| #[trigger] assoc_map(s1).contains_key(k) <==> (
    old_map.contains_key(k) && k != key) by {
        if assoc_map(s1).contains_key(k) {
            let j = choose|j: int| 0 <= j < s1.len() && s1[j].0@ == k;
            if j < i {
                assert(s0[j] == s1[j]);
            } else {
                assert(s0[j + 1] == s1[j]);
            }
        }
        if old_map.contains_key(k) && k != key {
            let j = choose|j: int| 0 <= j < s0.len() && s0[j].0@ == k;
            if j < i {
                assert(s1[j] == s0[j]);
            } else {
                assert(j != i);
                assert(s1[j - 1] == s0[j]);
            }
        }
    }
    assert forall|k: Seq<char>| #[trigger] assoc_map(s1).contains_key(k) implies assoc_map(s1)[k]
        == old_map[k] by {
        let j = choose|j: int| 0 <= j < s1.len() && s1[j].0@ == k;
        if j < i {
            assert(s0[j] == s1[j]);
        } else {
            assert(s0[j + 1] == s1[j]);
        }
    }
    assert(assoc_map(s1) =~= old_map.remove(key));
}

/// A table keyed by strings.
#[derive(Debug)]
pub struct StrMap<V> {
    entries: Vec<(String, V)>,
}

impl<V> StrMap<V> {
    #[verifier::type_invariant]
    closed spec fn inv(self) -> bool {
        keys_distinct(self.entries@)
    }

    /// The entries in the order the table keeps them.
    pub closed spec fn entry_seq(&self) -> Seq<(String, V)> {
        self.entries@
    }

    /// The keys in the order the table keeps them.
    pub open spec fn key_order(&self) -> Seq<Seq<char>> {
        self.entry_seq().map_values(|e: (String, V)| e.0@)
    }

    /// The table as a map from key characters to values.
    pub open spec fn view(&self) -> Map<Seq<char>, V> {
        assoc_map(self.entry_seq())
    }

    /// An empty table.
    pub fn new() -> (m: Self)
        ensures
            m@ == Map::<Seq<char>, V>::empty(),
            m.key_order().len() == 0,
    {
        StrMap { entries: Vec::new() }
    }

    fn find(&self, key: &str) -> (r: Option<usize>)
        ensures
            match r {
                Some(i) => i < self.entries@.len() && self.entries@[i as int].0@ == key@,
                None => forall|j: int|
                    0 <= j < self.entries@.len() ==> self.entries@[j].0@ != key@,
            },
    {
        let mut i: usize = 0;
        while i < self.entries.len()
            invariant
                i <= self.entries@.len(),
                forall|j: int| 0 <= j < i ==> self.entries@[j].0@ != key@,
            decreases self.entries.len() - i,
        {
            if str_eq(self.entries[i].0.as_str(), key) {
                return Some(i);
            }
            i = i + 1;
        }
        None
    }

    /// Number of entries, with what the key order is.
    pub fn len(&self) -> (n: usize)
        ensures
            n == self@.dom().len(),
            n == self.key_order().len(),
            self@.dom().finite(),
            forall|i: int, j: int|
                0 <= i < self.key_order().len() && 0 <= j < self.key_order().len() && i != j
                    ==> self.key_order()[i] != self.key_order()[j],
            forall|k: Seq<char>| #[trigger]
                self@.contains_key(k) <==> self.key_order().contains(k),
    {
        proof {
            use_type_invariant(self);
            lemma_assoc_map(self.entries@);
            assert forall|k: Seq<char>| #[trigger]
                self@.contains_key(k) <==> self.key_order().contains(k) by {
                if self@.contains_key(k) {
                    let j = choose|j: int| 0 <= j < self.entries@.len() && self.entries@[j].0@ == k;
                    assert(self.key_order()[j] == k);
                }
                if self.key_order().contains(k) {
                    let j = choose|j: int| 0 <= j < self.key_order().len() && self.key_order()[j] == k;
                    assert(self.entries@[j].0@ == k);
                }
            }
        }
        self.entries.len()
    }

    /// The key and value kept at position `i`.
    pub fn entry_at(&self, i: usize) -> (r: (&String, &V))
        requires
            i < self.key_order().len(),
        ensures
            r.0@ == self.key_order()[i as int],
            self@.contains_key(r.0@),
            self@[r.0@] == *r.1,
    {
        proof {
            use_type_invariant(self);
            lemma_assoc_map(self.entries@);
        }
        let e = &self.entries[i];
        (&e.0, &e.1)
    }

    /// The value stored under `key`.
    pub fn get(&self, key: &str) -> (r: Option<&V>)
        ensures
            match r {
                Some(v) => self@.contains_key(key@) && *v == self@[key@],
                None => !self@.contains_key(key@),
            },
    {
        proof {
            use_type_invariant(self);
            lemma_assoc_map(self.entries@);
        }
        match self.find(key) {
            Some(i) => Some(&self.entries[i].1),
            None => None,
        }
    }

    /// Whether `key` has an entry.
    pub fn contains_key(&self, key: &str) -> (b: bool)
        ensures
            b == self@.contains_key(key@),
    {
        proof {
            use_type_invariant(self);
            lemma_assoc_map(self.entries@);
        }
        self.find(key).is_some()
    }

    /// Stores `value` under `key`, replacing the value stored there before.
    pub fn insert(&mut self, key: String, value: V)
        ensures
            final(self)@ == old(self)@.insert(key@, value),
    {
        proof {
            use_type_invariant(&*self);
            lemma_assoc_map(self.entries@);
        }
        let ghost old_map = self@;
        let mut entries = Vec::new();
        std::mem::swap(&mut entries, &mut self.entries);
        let ghost s0 = entries@;
        match find_in(&entries, key.as_str()) {
            Some(i) => {
                entries.remove(i);
                proof {
                    lemma_assoc_map_remove(s0, i as int);
                }
            },
            None => {
                proof {
                    assert(!old_map.contains_key(key@));
                    assert(old_map.remove(key@) =~= old_map);
                }
            },
        }
        let ghost s1 = entries@;
        entries.push((key, value));
        proof {
            assert(entries@.drop_last() =~= s1);
            assert(keys_distinct(entries@)) by {
                lemma_assoc_map(s1);
                assert forall|j: int| 0 <= j < s1.len() implies s1[j].0@ != key@ by {
                    assert(assoc_map(s1).contains_key(s1[j].0@));
                }
            }
            assert(assoc_map(entries@) == assoc_map(s1).insert(key@, value));
        }
        self.entries = entries;
        proof {
            assert(self@ =~= old_map.insert(key@, value));
        }
    }

    /// Removes the entry stored under `key`, if any, and returns its value.
    pub fn remove(&mut self, key: &str) -> (r: Option<V>)
        ensures
            final(self)@ == old(self)@.remove(key@),
            match r {
                Some(v) => old(self)@.contains_key(key@) && v == old(self)@[key@],
                None => !old(self)@.contains_key(key@),
            },
    {
        proof {
            use_type_invariant(&*self);
            lemma_assoc_map(self.entries@);
        }
        let ghost old_map = self@;
        let mut entries = Vec::new();
        std::mem::swap(&mut entries, &mut self.entries);
        let ghost s0 = entries@;
        let r = match find_in(&entries, key) {
            Some(i) => {
                let e = entries.remove(i);
                proof {
                    lemma_assoc_map_remove(s0, i as int);
                }
                Some(e.1)
            },
            None => {
                proof {
                    assert(old_map.remove(key@) =~= old_map);
                }
                None
            },
        };
        self.entries = entries;
        r
    }
}

fn find_in<V>(entries: &Vec<(String, V)>, key: &str) -> (r: Option<usize>)
    ensures
        match r {
            Some(i) => i < entries@.len() && entries@[i as int].0@ == key@,
            None => forall|j: int| 0 <= j < entries@.len() ==> entries@[j].0@ != key@,
        },
{
    let mut i: usize = 0;
    while i < entries.len()
        invariant
            i <= entries@.len(),
            forall|j: int| 0 <= j < i ==> entries@[j].0@ != key@,
        decreases entries.len() - i,
    {
        if str_eq(entries[i].0.as_str(), key) {
            return Some(i);
        }
        i = i + 1;
    }
    None
}

} // verus!

verus! {

impl<V> StrMap<V> {
    /// The entries, each key once, in the order the table keeps them.
    pub fn into_entries(self) -> (r: Vec<(String, V)>)
        ensures
            keys_distinct(r@),
            assoc_map(r@) == self@,
            r@.map_values(|e: (String, V)| e.0@) == self.key_order(),
    {
        proof {
            use_type_invariant(&self);
        }
        self.entries
    }
}

} // verus!

verus! {

impl<V> StrMap<V> {
    /// Keeps only the entries whose key is among `keep`.
    pub fn retain_keys_in(&mut self, keep: &Vec<String>)
        ensures
            final(self)@ == old(self)@.restrict(
                Set::new(|k: Seq<char>| crate::text::views(keep@).contains(k)),
            ),
    {
        proof {
            use_type_invariant(&*self);
            lemma_assoc_map(self.entries@);
        }
        let ghost m0 = self@;
        let ghost keepset = Set::new(|k: Seq<char>| crate::text::views(keep@).contains(k));
        let mut entries = Vec::new();
        std::mem::swap(&mut entries, &mut self.entries);
        let ghost e0 = entries@;
        let mut out: Vec<(String, V)> = Vec::new();
        while entries.len() > 0
            invariant
                keys_distinct(e0),
                m0 == assoc_map(e0),
                keepset == Set::new(|k: Seq<char>| crate::text::views(keep@).contains(k)),
                entries@ == e0.take(entries@.len() as int),
                entries@.len() <= e0.len(),
                keys_distinct(out@),
                forall|k: Seq<char>| #[trigger]
                    assoc_map(out@).contains_key(k) <==> (exists|j: int|
                        entries@.len() <= j < e0.len() && e0[j].0@ == k) && keepset.contains(k),
                forall|k: Seq<char>| #[trigger]
                    assoc_map(out@).contains_key(k) ==> assoc_map(out@)[k] == m0[k],
            decreases entries.len(),
        {
            let ghost n = entries@.len();
            let e = entries.pop().unwrap();
            assert(e == e0[n - 1]);
            let keepit = crate::text::vec_contains_str(keep, e.0.as_str());
            let ghost before = out@;
            let ghost ek = e.0@;
            proof {
                lemma_assoc_map(e0);
                lemma_assoc_map(before);
                assert(keepit == keepset.contains(ek));
                assert(!assoc_map(before).contains_key(ek)) by {
                    if assoc_map(before).contains_key(ek) {
                        let j = choose|j: int| n <= j < e0.len() && e0[j].0@ == ek;
                        assert(e0[n - 1].0@ == ek);
                    }
                }
                assert(m0[ek] == e.1);
            }
            if keepit {
                proof {
                    assert forall|j: int| 0 <= j < before.len() implies before[j].0@ != ek by {
                        assert(assoc_map(before).contains_key(before[j].0@));
                    }
                }
                out.push(e);
                proof {
                    assert(out@.drop_last() =~= before);
                    assert(assoc_map(out@) == assoc_map(before).insert(ek, m0[ek]));
                }
            }
            proof {
                lemma_assoc_map(out@);
                assert forall|k: Seq<char>| #[trigger]
                    assoc_map(out@).contains_key(k) <==> (exists|j: int|
                        n - 1 <= j < e0.len() && e0[j].0@ == k) && keepset.contains(k) by {
                    if k == ek {
                        assert(e0[n - 1].0@ == k);
                    } else {
                        if exists|j: int| n - 1 <= j < e0.len() && e0[j].0@ == k {
                            let j = choose|j: int| n - 1 <= j < e0.len() && e0[j].0@ == k;
                            assert(j != n - 1);
                        }
                        assert(assoc_map(out@).contains_key(k) == assoc_map(before).contains_key(k));
                    }
                }
            }
        }
        proof {
            lemma_assoc_map(e0);
            assert(assoc_map(out@) =~= m0.restrict(keepset));
        }
        self.entries = out;
    }
}

} // verus!

verus! {

impl<V> StrMap<V> {
    /// The table of a list of entries whose keys are distinct.
    pub fn from_distinct(entries: Vec<(String, V)>) -> (m: Self)
        requires
            keys_distinct(entries@),
        ensures
            m@ == assoc_map(entries@),
    {
        StrMap { entries }
    }
}

} // verus!

verus! {

impl<V> StrMap<V> {
    /// The keys, in the order the table keeps them.
    pub fn keys(&self) -> (r: Vec<String>)
        ensures
            crate::text::views(r@) == self.key_order(),
            forall|k: Seq<char>| #[trigger] self@.contains_key(k) <==> crate::text::views(r@).contains(k),
    {
        let n = self.len();
        let mut r: Vec<String> = Vec::new();
        let mut i: usize = 0;
        while i < n
            invariant
                n == self.key_order().len(),
                i <= n,
                crate::text::views(r@) == self.key_order().take(i as int),
            decreases n - i,
        {
            let (k, _) = self.entry_at(i);
            let ghost before = crate::text::views(r@);
            r.push(k.clone());
            assert(crate::text::views(r@) =~= before.push(k@));
            assert(self.key_order().take(i + 1) =~= self.key_order().take(i as int).push(k@));
            i = i + 1;
        }
        assert(self.key_order().take(n as int) =~= self.key_order());
        r
    }
}

} // verus!
