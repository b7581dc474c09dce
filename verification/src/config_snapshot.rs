//! Config snapshots: with `managed_config_keys` set, a profile saves and
//! restores only those top-level keys of `config.toml`; otherwise the whole
//! file.
use vstd::prelude::*;

use crate::error::ProfileError;
use crate::select::dedup;
use crate::text::{push_char, to_chars, trim, trim_str, vec_contains_str, views};

verus! {

/// A TOML document of `toml_edit`, edited as a table of top-level keys.
#[verifier::external_type_specification]
#[verifier::external_body]
pub struct ExDocumentMut(toml_edit::DocumentMut);

/// A TOML item of `toml_edit`, carried through unread.
#[verifier::external_type_specification]
#[verifier::external_body]
pub struct ExItem(toml_edit::Item);

/// The settings field that lists the managed keys.
pub const MANAGED_CONFIG_KEYS_FIELD: &'static str = "managed_config_keys";

/// The top-level entries of a document that `get` sees: each key with its
/// item (items that are `Item::None` are not entries).
pub uninterp spec fn toml_entries(d: toml_edit::DocumentMut) -> Map<Seq<char>, toml_edit::Item>;

/// Why `text` does not parse as a TOML document (the parse error's
/// message), or `None` when it parses.
pub uninterp spec fn toml_parse_error(text: Seq<char>) -> Option<Seq<char>>;

/// The top-level keys of the document that `text` parses to (the keys of
/// its `toml_entries`), when it parses.
pub uninterp spec fn toml_parsed_keys(text: Seq<char>) -> Set<Seq<char>>;

/// The text a document renders to.
pub uninterp spec fn toml_text(d: toml_edit::DocumentMut) -> Seq<char>;

/// What an item holds when read as an array of strings: `None` when it is
/// not an array, else each element's string (`None` for a non-string).
pub uninterp spec fn toml_item_strings(item: toml_edit::Item) -> Option<Seq<Option<Seq<char>>>>;

/// `text.parse::<toml_edit::DocumentMut>()`, the error rendered to its
/// message. Trusted: it fails exactly when `toml_parse_error` names a
/// message, and with that message; on success the document's top-level
/// keys are those that `toml_parsed_keys` names for the text. The items
/// under them are not named: each parse builds tables with newly seeded
/// hashers, so two parses of one text do not give equal items.
#[verifier::external_body]
pub(crate) fn parse_document(text: &str) -> (r: Result<toml_edit::DocumentMut, String>)
    ensures
        match r {
            Ok(d) => toml_parse_error(text@) is None && toml_entries(d).dom() == toml_parsed_keys(text@),
            Err(m) => toml_parse_error(text@) == Some(m@),
        },
{
    text.parse::<toml_edit::DocumentMut>().map_err(|err| err.to_string())
}

/// The text `Could not parse config <path>: <error>`.
pub open spec fn parse_failure_message(path: Seq<char>, err: Seq<char>) -> Seq<char> {
    "Could not parse config "@ + path + ": "@ + err
}

/// A config document read from `text` (the contents of the file at
/// `path`), holding the entries the text gives; refused with the parse
/// error when it is not TOML.
pub fn parse_config(text: &str, path: &str) -> (r: Result<toml_edit::DocumentMut, String>)
    ensures
        match toml_parse_error(text@) {
            None => r matches Ok(d) && toml_entries(d).dom() == toml_parsed_keys(text@),
            Some(err) => r matches Err(m) && m@ == parse_failure_message(path@, err),
        },
{
    match parse_document(text) {
        Ok(d) => Ok(d),
        Err(err) => {
            let mut m = String::from_str("Could not parse config ");
            m.append(path);
            m.append(": ");
            m.append(err.as_str());
            Err(m)
        },
    }
}

/// `toml_edit::DocumentMut::new`. Trusted: the document has no entries.
#[verifier::external_body]
fn new_document() -> (r: toml_edit::DocumentMut)
    ensures
        toml_entries(r).dom().len() == 0,
        toml_entries(r).dom().finite(),
{
    toml_edit::DocumentMut::new()
}

/// `Table::get` on the document's root, the item cloned. Trusted: the
/// result is the entry under `key`, when there is one.
#[verifier::external_body]
fn document_get(d: &toml_edit::DocumentMut, key: &str) -> (r: Option<toml_edit::Item>)
    ensures
        match r {
            Some(i) => toml_entries(*d).contains_key(key@) && i == toml_entries(*d)[key@],
            None => !toml_entries(*d).contains_key(key@),
        },
{
    d.get(key).cloned()
}

/// `Table::insert` on the document's root. Trusted: an item that is an
/// entry of some document (so not `Item::None`) becomes the entry under
/// `key`; the other entries stay.
#[verifier::external_body]
fn document_insert(d: &mut toml_edit::DocumentMut, key: &str, item: toml_edit::Item)
    requires
        exists|d2: toml_edit::DocumentMut, k: Seq<char>|
            toml_entries(d2).contains_key(k) && #[trigger] toml_entries(d2)[k] == item,
    ensures
        toml_entries(*final(d)) == toml_entries(*old(d)).insert(key@, item),
{
    d.insert(key, item);
}

/// `Table::remove` on the document's root. Trusted: the entry under `key`
/// is gone; the other entries stay.
#[verifier::external_body]
fn document_remove(d: &mut toml_edit::DocumentMut, key: &str)
    ensures
        toml_entries(*final(d)) == toml_entries(*old(d)).remove(key@),
{
    d.remove(key);
}

/// The document rendered to text (`Display`). Trusted: the text is what
/// `toml_text` names.
#[verifier::external_body]
fn render_document(d: &toml_edit::DocumentMut) -> (s: String)
    ensures
        s@ == toml_text(*d),
{
    d.to_string()
}

/// An item read as an array of strings (`Item::as_array`, then `as_str` of
/// each element). Trusted: the result is what `toml_item_strings` names.
#[verifier::external_body]
fn item_strings(item: &toml_edit::Item) -> (r: Option<Vec<Option<String>>>)
    ensures
        match r {
            Some(v) => toml_item_strings(*item) == Some(
                v@.map_values(|o: Option<String>| crate::identity::opt_view(o)),
            ),
            None => toml_item_strings(*item) is None,
        },
{
    item.as_array().map(|array| array.iter().map(|value| value.as_str().map(String::from)).collect())
}

/// The keys of an array-of-strings field; refused when the field is not an
/// array (`ConfigKeysNotArray`) or holds a non-string (`ConfigKeysNotStrings`).
pub fn parse_key_array(item: &toml_edit::Item, field: &str, config_path: &str) -> (r: Result<Vec<String>, ProfileError>)
    ensures
        match toml_item_strings(*item) {
            None => r matches Err(ProfileError::ConfigKeysNotArray(p, f)) && p@ == config_path@ && f@
                == field@,
            Some(vs) => if forall|k: int| 0 <= k < vs.len() ==> (#[trigger] vs[k]) is Some {
                r matches Ok(keys) && views(keys@) == vs.map_values(|o: Option<Seq<char>>| o->0)
            } else {
                r matches Err(ProfileError::ConfigKeysNotStrings(p, f)) && p@ == config_path@ && f@ == field@
            },
        },
{
    let values = match item_strings(item) {
        None => {
            return Err(
                ProfileError::ConfigKeysNotArray(String::from_str(config_path), String::from_str(field)),
            );
        },
        Some(v) => v,
    };
    let ghost vs = values@.map_values(|o: Option<String>| crate::identity::opt_view(o));
    let mut keys: Vec<String> = Vec::new();
    let mut i: usize = 0;
    while i < values.len()
        invariant
            i <= values@.len(),
            vs == values@.map_values(|o: Option<String>| crate::identity::opt_view(o)),
            toml_item_strings(*item) == Some(vs),
            forall|k: int| 0 <= k < i ==> (#[trigger] vs[k]) is Some,
            views(keys@) == vs.take(i as int).map_values(|o: Option<Seq<char>>| o->0),
        decreases values.len() - i,
    {
        match &values[i] {
            Some(s) => {
                let ghost before = views(keys@);
                keys.push(s.clone());
                assert(views(keys@) =~= before.push(s@));
                assert(vs.take(i + 1).map_values(|o: Option<Seq<char>>| o->0) =~= vs.take(i as int).map_values(
                    |o: Option<Seq<char>>| o->0,
                ).push(s@));
            },
            None => {
                assert(!(vs[i as int] is Some));
                return Err(
                    ProfileError::ConfigKeysNotStrings(String::from_str(config_path), String::from_str(field)),
                );
            },
        }
        i = i + 1;
    }
    assert(vs.take(values@.len() as int) =~= vs);
    Ok(keys)
}

/// A managed key must name a top-level key: not empty and without `.`.
pub open spec fn valid_key(k: Seq<char>) -> bool {
    k.len() > 0 && !k.contains('.')
}

/// Each key trimmed.
pub open spec fn trimmed_keys(keys: Seq<Seq<char>>) -> Seq<Seq<char>> {
    keys.map_values(|k: Seq<char>| trim(k))
}

/// The managed keys: each trimmed and kept once, in order of first
/// appearance; refused at the first key that is empty or holds a `.`.
pub fn normalize_keys(keys: Vec<String>, config_path: &str) -> (r: Result<Vec<String>, ProfileError>)
    ensures
        ({
            let t = trimmed_keys(views(keys@));
            if forall|k: int| 0 <= k < t.len() ==> valid_key(#[trigger] t[k]) {
                r matches Ok(v) && views(v@) == dedup(t)
            } else {
                exists|k: int|
                    0 <= k < t.len() && !valid_key(#[trigger] t[k]) && (forall|j: int|
                        0 <= j < k ==> valid_key(#[trigger] t[j])) && (r matches Err(
                        ProfileError::ConfigKeyInvalid(p, x),
                    ) && p@ == config_path@ && x@ == t[k])
            }
        }),
{
    let ghost t = trimmed_keys(views(keys@));
    let mut normalized: Vec<String> = Vec::new();
    let mut i: usize = 0;
    while i < keys.len()
        invariant
            i <= keys@.len(),
            t == trimmed_keys(views(keys@)),
            forall|k: int| 0 <= k < i ==> valid_key(#[trigger] t[k]),
            views(normalized@) == dedup(t.take(i as int)),
        decreases keys.len() - i,
    {
        let key = trim_str(keys[i].as_str());
        assert(key@ == t[i as int]);
        let cs = to_chars(key.as_str());
        let mut has_dot = false;
        let mut j: usize = 0;
        while j < cs.len()
            invariant
                j <= cs@.len(),
                has_dot == cs@.take(j as int).contains('.'),
            decreases cs.len() - j,
        {
            assert(cs@.take(j + 1) =~= cs@.take(j as int).push(cs@[j as int]));
            proof {
                if cs@.take(j as int).contains('.') {
                    let q = choose|q: int| 0 <= q < j && cs@.take(j as int)[q] == '.';
                    assert(cs@.take(j + 1)[q] == '.');
                }
                let tj = cs@.take(j + 1);
                if tj.contains('.') && !cs@.take(j as int).contains('.') {
                    let q = choose|q: int| 0 <= q < tj.len() && tj[q] == '.';
                    if q < j {
                        assert(cs@.take(j as int)[q] == '.');
                    }
                }
            }
            if cs[j] == '.' {
                has_dot = true;
                assert(cs@.take(j + 1)[j as int] == '.');
            }
            j = j + 1;
        }
        assert(cs@.take(cs@.len() as int) =~= cs@);
        if cs.len() == 0 || has_dot {
            assert(!valid_key(t[i as int]));
            return Err(ProfileError::ConfigKeyInvalid(String::from_str(config_path), key));
        }
        let ghost before = t.take(i as int);
        assert(t.take(i + 1).drop_last() =~= before);
        assert(t.take(i + 1).last() == key@);
        if !vec_contains_str(&normalized, key.as_str()) {
            let ghost prev = views(normalized@);
            normalized.push(key);
            assert(views(normalized@) =~= prev.push(t[i as int]));
        }
        i = i + 1;
    }
    assert(t.take(keys@.len() as int) =~= t);
    Ok(normalized)
}

/// The managed keys that the settings document lists; none when there are
/// no settings or they do not list any (the whole config is then managed).
pub fn managed_config_keys(settings: Option<&toml_edit::DocumentMut>, config_path: &str) -> (r: Result<
    Option<Vec<String>>,
    ProfileError,
>)
    ensures
        settings is None ==> r matches Ok(None),
        settings matches Some(d) ==> !toml_entries(*d).contains_key("managed_config_keys"@) ==> r matches Ok(
            None,
        ),
        settings matches Some(d) ==> toml_entries(*d).contains_key("managed_config_keys"@) ==> match toml_item_strings(
            toml_entries(*d)["managed_config_keys"@],
        ) {
            None => r matches Err(ProfileError::ConfigKeysNotArray(p, f)) && p@ == config_path@,
            Some(vs) => if exists|k: int| 0 <= k < vs.len() && (#[trigger] vs[k]) is None {
                r matches Err(ProfileError::ConfigKeysNotStrings(p, f)) && p@ == config_path@
            } else {
                let t = trimmed_keys(vs.map_values(|o: Option<Seq<char>>| o->0));
                if forall|k: int| 0 <= k < t.len() ==> valid_key(#[trigger] t[k]) {
                    r matches Ok(Some(v)) && views(v@) == dedup(t)
                } else {
                    r matches Err(ProfileError::ConfigKeyInvalid(p, _)) && p@ == config_path@
                }
            },
        },
{
    let d = match settings {
        None => return Ok(None),
        Some(d) => d,
    };
    let item = match document_get(d, MANAGED_CONFIG_KEYS_FIELD) {
        None => {
            proof {
                reveal_strlit("managed_config_keys");
            }
            return Ok(None);
        },
        Some(i) => i,
    };
    proof {
        reveal_strlit("managed_config_keys");
    }
    let keys = parse_key_array(&item, MANAGED_CONFIG_KEYS_FIELD, config_path)?;
    let normalized = normalize_keys(keys, config_path)?;
    Ok(Some(normalized))
}

/// The keys of `keys` as a set.
pub open spec fn key_set(keys: Seq<Seq<char>>) -> Set<Seq<char>> {
    keys.to_set()
}

/// One more key adds it to the set.
proof fn lemma_key_set_push(a: Seq<Seq<char>>, k: Seq<char>)
    ensures
        key_set(a.push(k)) == key_set(a).insert(k),
{
    let b = a.push(k);
    assert forall|x: Seq<char>| key_set(b).contains(x) <==> key_set(a).insert(k).contains(x) by {
        if b.contains(x) {
            let q = choose|q: int| 0 <= q < b.len() && b[q] == x;
            if q < a.len() {
                assert(a[q] == x);
            }
        }
        if a.contains(x) {
            let q = choose|q: int| 0 <= q < a.len() && a[q] == x;
            assert(b[q] == x);
        }
        if x == k {
            assert(b[a.len() as int] == x);
        }
    }
    assert(key_set(b) =~= key_set(a).insert(k));
}

/// A document with only the entries of `document` under the managed keys.
pub fn selected_snapshot(document: &toml_edit::DocumentMut, managed_keys: &Vec<String>) -> (s: toml_edit::DocumentMut)
    ensures
        toml_entries(s) == toml_entries(*document).restrict(key_set(views(managed_keys@))),
{
    let mut snapshot = new_document();
    let ghost src = toml_entries(*document);
    proof {
        toml_entries(snapshot).dom().lemma_len0_is_empty();
        assert(views(managed_keys@).take(0) =~= Seq::<Seq<char>>::empty());
        assert(toml_entries(snapshot) =~= src.restrict(key_set(views(managed_keys@).take(0))));
    }
    let mut i: usize = 0;
    while i < managed_keys.len()
        invariant
            i <= managed_keys@.len(),
            src == toml_entries(*document),
            toml_entries(snapshot) == src.restrict(key_set(views(managed_keys@).take(i as int))),
        decreases managed_keys.len() - i,
    {
        let key = managed_keys[i].as_str();
        let ghost t0 = views(managed_keys@).take(i as int);
        let ghost t1 = views(managed_keys@).take(i + 1);
        assert(t1 =~= t0.push(key@));
        match document_get(document, key) {
            Some(item) => {
                document_insert(&mut snapshot, key, item);
            },
            None => {},
        }
        proof {
            lemma_key_set_push(t0, key@);
            assert(toml_entries(snapshot) =~= src.restrict(key_set(t1)));
        }
        i = i + 1;
    }
    assert(views(managed_keys@).take(managed_keys@.len() as int) =~= views(managed_keys@));
    snapshot
}

/// The entries of `target` once a snapshot is applied: the managed keys
/// take the snapshot's entries (or none), the other keys keep theirs.
pub open spec fn applied_entries(
    target: Map<Seq<char>, toml_edit::Item>,
    snapshot: Map<Seq<char>, toml_edit::Item>,
    keys: Set<Seq<char>>,
) -> Map<Seq<char>, toml_edit::Item> {
    target.remove_keys(keys).union_prefer_right(snapshot.restrict(keys))
}

/// Applies a snapshot to `target`: every managed key is removed from it,
/// then set to the snapshot's entry when the snapshot has one.
pub fn apply_snapshot(snapshot: &toml_edit::DocumentMut, target: &mut toml_edit::DocumentMut, managed_keys: &Vec<String>)
    ensures
        toml_entries(*final(target)) == applied_entries(
            toml_entries(*old(target)),
            toml_entries(*snapshot),
            key_set(views(managed_keys@)),
        ),
{
    let selected = selected_snapshot(snapshot, managed_keys);
    let ghost t0 = toml_entries(*target);
    let ghost keys = views(managed_keys@);
    let mut i: usize = 0;
    while i < managed_keys.len()
        invariant
            i <= managed_keys@.len(),
            keys == views(managed_keys@),
            toml_entries(*target) == t0.remove_keys(key_set(keys.take(i as int))),
        decreases managed_keys.len() - i,
    {
        let key = managed_keys[i].as_str();
        document_remove(target, key);
        proof {
            let a = keys.take(i as int);
            let b = keys.take(i + 1);
            assert(b =~= a.push(key@));
            lemma_key_set_push(a, key@);
            assert(toml_entries(*target) =~= t0.remove_keys(key_set(b)));
        }
        i = i + 1;
    }
    assert(keys.take(managed_keys@.len() as int) =~= keys);
    let ghost removed = toml_entries(*target);
    let ghost sel = toml_entries(selected);
    let mut j: usize = 0;
    while j < managed_keys.len()
        invariant
            j <= managed_keys@.len(),
            keys == views(managed_keys@),
            removed == t0.remove_keys(key_set(keys)),
            sel == toml_entries(*snapshot).restrict(key_set(keys)),
            sel == toml_entries(selected),
            toml_entries(*target) == removed.union_prefer_right(sel.restrict(key_set(keys.take(j as int)))),
        decreases managed_keys.len() - j,
    {
        let key = managed_keys[j].as_str();
        let ghost before = toml_entries(*target);
        match document_get(&selected, key) {
            Some(item) => {
                document_insert(target, key, item);
            },
            None => {},
        }
        proof {
            let a = keys.take(j as int);
            let b = keys.take(j + 1);
            assert(b =~= a.push(key@));
            lemma_key_set_push(a, key@);
            assert(toml_entries(*target) =~= removed.union_prefer_right(sel.restrict(key_set(b))));
        }
        j = j + 1;
    }
    proof {
        assert(keys.take(managed_keys@.len() as int) =~= keys);
        assert(sel.restrict(key_set(keys)) =~= sel);
        assert(toml_entries(*target) =~= applied_entries(t0, toml_entries(*snapshot), key_set(keys)));
    }
}

/// The text written for a document: its rendering, ending with a newline.
pub open spec fn document_file_text(d: toml_edit::DocumentMut) -> Seq<char> {
    if toml_text(d).len() > 0 && toml_text(d).last() == '\n' {
        toml_text(d)
    } else {
        toml_text(d).push('\n')
    }
}

/// The text to write for a document.
pub fn document_contents(d: &toml_edit::DocumentMut) -> (s: String)
    ensures
        s@ == document_file_text(*d),
{
    let mut s = render_document(d);
    let cs = to_chars(s.as_str());
    if cs.len() == 0 || cs[cs.len() - 1] != '\n' {
        push_char(&mut s, '\n');
    }
    s
}


/// The config text a save keeps for `source_text`: the text itself when no
/// keys are managed; else, when the source parses, the file text of a
/// document with only the source's entries under the managed keys.
pub fn snapshot_text(keys: Option<&Vec<String>>, source_text: &str, source_path: &str) -> (r: Result<String, String>)
    ensures
        keys is None ==> (r matches Ok(t) && t@ == source_text@),
        keys matches Some(k) ==> match toml_parse_error(source_text@) {
            Some(err) => r matches Err(m) && m@ == parse_failure_message(source_path@, err),
            None => r matches Ok(t) && exists|src: toml_edit::DocumentMut, snap: toml_edit::DocumentMut|
                #![trigger toml_entries(src), toml_entries(snap)]
                toml_entries(src).dom() == toml_parsed_keys(source_text@) && toml_entries(snap)
                    == toml_entries(src).restrict(key_set(views(k@))) && t@ == document_file_text(snap),
        },
{
    match keys {
        None => Ok(String::from_str(source_text)),
        Some(k) => {
            let src = parse_config(source_text, source_path)?;
            let snap = selected_snapshot(&src, k);
            let t = document_contents(&snap);
            proof {
                assert(toml_entries(src).dom() == toml_parsed_keys(source_text@) && toml_entries(snap)
                    == toml_entries(src).restrict(key_set(views(k@))) && t@ == document_file_text(snap));
            }
            Ok(t)
        },
    }
}

/// The config text a load writes: the snapshot text itself when no keys
/// are managed; else, when the snapshot and the target (an empty document
/// when there is no target file) parse, the file text of the target with
/// its managed keys taken from the snapshot and its other keys kept.
pub fn applied_text(
    keys: Option<&Vec<String>>,
    stored_text: &str,
    stored_path: &str,
    target_text: Option<&str>,
    target_path: &str,
) -> (r: Result<String, String>)
    ensures
        keys is None ==> (r matches Ok(t) && t@ == stored_text@),
        keys matches Some(k) ==> {
            &&& toml_parse_error(stored_text@) matches Some(err) ==> (r matches Err(m) && m@ == parse_failure_message(
                stored_path@,
                err,
            ))
            &&& toml_parse_error(stored_text@) is None ==> match target_text {
                Some(tt) if toml_parse_error(tt@) is Some => r matches Err(m) && m@ == parse_failure_message(
                    target_path@,
                    toml_parse_error(tt@)->0,
                ),
                _ => r matches Ok(t) && exists|st: toml_edit::DocumentMut, t0: toml_edit::DocumentMut, t1: toml_edit::DocumentMut|
                    #![trigger toml_entries(st), toml_entries(t0), toml_entries(t1)]
                    toml_entries(st).dom() == toml_parsed_keys(stored_text@) && match target_text {
                        Some(tt) => toml_entries(t0).dom() == toml_parsed_keys(tt@),
                        None => toml_entries(t0).dom().len() == 0 && toml_entries(t0).dom().finite(),
                    } && toml_entries(t1) == applied_entries(toml_entries(t0), toml_entries(st), key_set(views(k@)))
                        && t@ == document_file_text(t1),
            }
        },
{
    match keys {
        None => Ok(String::from_str(stored_text)),
        Some(k) => {
            let stored = parse_config(stored_text, stored_path)?;
            let mut target = match target_text {
                Some(tt) => parse_config(tt, target_path)?,
                None => new_document(),
            };
            let ghost t0 = target;
            apply_snapshot(&stored, &mut target, k);
            let t = document_contents(&target);
            proof {
                assert(toml_entries(target) == applied_entries(toml_entries(t0), toml_entries(stored), key_set(views(k@))));
                assert(toml_entries(stored).dom() == toml_parsed_keys(stored_text@));
            }
            Ok(t)
        },
    }
}

} // verus!
