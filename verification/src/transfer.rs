//! Export and import of profile bundles: which profiles an export takes, and
//! the checks an import makes before anything is written.
use vstd::prelude::*;

use crate::commands::{label_target, label_target_error, resolve_label_target_id};
use crate::error::ProfileError;
use crate::identity::{opt_view, TokenSummary};
use crate::index::{entry_or_empty, index_view, update_profiles_index_entry, updated_entry};
use crate::labels::{assign_label, label_map, without_id, Labels};
use crate::managed_files::{
    config_file_name, config_name, managed_files_contains_config, normalize_managed_files,
    normalized_files,
};
use crate::select::{dedup, lemma_dedup_members, lemma_dedup_prefix};
use crate::store::ProfileStore;
use crate::json_response::{json_error, json_shape, json_value, parse_json_value};
use crate::text::{insert_sorted, push_char, str_eq, strictly_sorted, to_chars, trim, vec_contains_str, views};

verus! {

/// The profiles an export takes: the one `label` names, else each of `ids`
/// once in the order given (each must be saved), else every saved profile
/// in increasing order.
pub fn resolve_export_ids(
    store: &ProfileStore,
    label: Option<&str>,
    ids: &Vec<String>,
    available: &Vec<String>,
) -> (r: Result<Vec<String>, ProfileError>)
    ensures
        label matches Some(l) ==> match label_target(
            label_map(&store.labels),
            index_view(&store.profiles_index),
            Some(l@),
            None,
        ) {
            Some(t) => r matches Ok(v) && views(v@) == seq![t],
            None => r matches Err(e) && label_target_error(Some(l@), None, e),
        },
        label is None && ids@.len() == 0 ==> (r matches Ok(v) && strictly_sorted(views(v@)) && views(
            v@,
        ).to_set() == views(available@).to_set()),
        label is None && ids@.len() > 0 ==> {
            let d = dedup(views(ids@));
            &&& (r is Ok <==> forall|k: int| 0 <= k < d.len() ==> views(available@).contains(#[trigger] d[k]))
            &&& r matches Ok(v) ==> views(v@) == d
            &&& r matches Err(e) ==> exists|k: int|
                0 <= k < d.len() && !views(available@).contains(#[trigger] d[k]) && (forall|j: int|
                    0 <= j < k ==> views(available@).contains(#[trigger] d[j])) && (e matches ProfileError::IdNoMatch(
                    x,
                ) && x@ == d[k])
        },
{
    match label {
        Some(l) => {
            let id = resolve_label_target_id(store, Some(l), None)?;
            let mut v: Vec<String> = Vec::new();
            v.push(id);
            assert(views(v@) =~= seq![v@[0]@]);
            return Ok(v);
        },
        None => {},
    }
    if ids.len() == 0 {
        let mut all: Vec<String> = Vec::new();
        let mut i: usize = 0;
        while i < available.len()
            invariant
                label is None,
                ids@.len() == 0,
                i <= available@.len(),
                strictly_sorted(views(all@)),
                views(all@).to_set() == views(available@).take(i as int).to_set(),
            decreases available.len() - i,
        {
            let ghost t0 = views(available@).take(i as int);
            let ghost t1 = views(available@).take(i + 1);
            assert(t1 =~= t0.push(available@[i as int]@));
            if !vec_contains_str(&all, available[i].as_str()) {
                insert_sorted(&mut all, available[i].clone());
            } else {
                assert(views(all@).to_set().contains(available@[i as int]@));
            }
            proof {
                assert(views(all@).to_set() =~= t1.to_set()) by {
                    assert forall|x: Seq<char>| views(all@).to_set().contains(x) <==> t1.to_set().contains(x) by {
                        if t0.contains(x) {
                            let j = choose|j: int| 0 <= j < t0.len() && t0[j] == x;
                            assert(t1[j] == x);
                        }
                        if t1.contains(x) {
                            let j = choose|j: int| 0 <= j < t1.len() && t1[j] == x;
                            if j < i {
                                assert(t0[j] == x);
                            }
                        }
                        if x == available@[i as int]@ {
                            assert(t1[i as int] == x);
                        }
                    }
                }
            }
            i = i + 1;
        }
        assert(views(available@).take(available@.len() as int) =~= views(available@));
        return Ok(all);
    }
    let mut selected: Vec<String> = Vec::new();
    let mut i: usize = 0;
    while i < ids.len()
        invariant
            label is None,
            ids@.len() > 0,
            i <= ids@.len(),
            views(selected@) == dedup(views(ids@).take(i as int)),
            forall|k: int| 0 <= k < selected@.len() ==> views(available@).contains(#[trigger] views(selected@)[k]),
        decreases ids.len() - i,
    {
        let ghost before = views(ids@).take(i as int);
        assert(views(ids@).take(i + 1).drop_last() =~= before);
        assert(views(ids@).take(i + 1).last() == ids@[i as int]@);
        if !vec_contains_str(available, ids[i].as_str()) {
            proof {
                lemma_dedup_prefix(views(ids@), i as int + 1);
                lemma_dedup_members(before);
                let d = dedup(views(ids@).take(i + 1));
                let full = dedup(views(ids@));
                let k = selected@.len() as int;
                assert(!before.contains(ids@[i as int]@)) by {
                    if before.contains(ids@[i as int]@) {
                        assert(dedup(before).contains(ids@[i as int]@));
                        let q = choose|q: int| 0 <= q < dedup(before).len() && dedup(before)[q] == ids@[i as int]@;
                        assert(views(selected@)[q] == ids@[i as int]@);
                    }
                }
                assert(!dedup(before).contains(ids@[i as int]@));
                assert(d == dedup(before).push(ids@[i as int]@));
                assert(full.take(d.len() as int) == d);
                assert(full[k] == d[k]);
                assert forall|j: int| 0 <= j < k implies views(available@).contains(#[trigger] full[j]) by {
                    assert(full[j] == d[j]);
                    assert(d[j] == views(selected@)[j]);
                }
            }
            return Err(ProfileError::IdNoMatch(ids[i].clone()));
        }
        if !vec_contains_str(&selected, ids[i].as_str()) {
            selected.push(ids[i].clone());
            assert(views(selected@) =~= dedup(before).push(ids@[i as int]@));
        }
        i = i + 1;
    }
    assert(views(ids@).take(ids@.len() as int) =~= views(ids@));
    Ok(selected)
}

/// `s` split at each `/`.
pub open spec fn path_segments(s: Seq<char>) -> Seq<Seq<char>>
    decreases s.len(),
{
    if s.len() == 0 {
        seq![Seq::empty()]
    } else {
        let prev = path_segments(s.drop_last());
        if s.last() == '/' {
            prev.push(Seq::empty())
        } else {
            prev.update(prev.len() - 1, prev.last().push(s.last()))
        }
    }
}

/// The segments that make path components: not empty, and not `.`.
pub open spec fn component_segments(segs: Seq<Seq<char>>) -> Seq<Seq<char>>
    decreases segs.len(),
{
    if segs.len() == 0 {
        Seq::empty()
    } else {
        let prev = component_segments(segs.drop_last());
        if segs.last().len() == 0 || segs.last() == seq!['.'] {
            prev
        } else {
            prev.push(segs.last())
        }
    }
}

/// `Path::new(id).components()` (on Unix) is one plain name: no root, no
/// leading `.`, and exactly one component, which is not `..`.
pub open spec fn is_single_component(id: Seq<char>) -> bool {
    let comps = component_segments(path_segments(id));
    &&& !(id.len() > 0 && id[0] == '/')
    &&& !(id == seq!['.'] || (id.len() >= 2 && id[0] == '.' && id[1] == '/'))
    &&& comps.len() == 1
    &&& comps[0] != seq!['.', '.']
}

/// Ids that profiles may not have.
pub open spec fn is_reserved_id(id: Seq<char>) -> bool {
    id == "profiles"@ || id == "update"@
}

/// The check of an imported profile id: one plain path component, and not
/// reserved.
pub fn validate_import_profile_id(id: &str) -> (r: Result<(), ProfileError>)
    ensures
        !is_single_component(id@) ==> (r matches Err(ProfileError::ImportUnsafeId(x)) && x@ == id@),
        is_single_component(id@) && is_reserved_id(id@) ==> (r matches Err(
            ProfileError::ImportReservedId(x),
        ) && x@ == id@),
        r is Ok <==> is_single_component(id@) && !is_reserved_id(id@),
{
    let cs = to_chars(id);
    let n = cs.len();
    let rooted = n > 0 && cs[0] == '/';
    let cur_dir = (n == 1 && cs[0] == '.') || (n >= 2 && cs[0] == '.' && cs[1] == '/');
    proof {
        if n == 1 && cs[0] == '.' {
            assert(id@ =~= seq!['.']);
        }
        if id@ == seq!['.'] {
            assert(n == 1);
        }
    }
    let mut comps: Vec<Vec<char>> = Vec::new();
    let mut seg: Vec<char> = Vec::new();
    let mut i: usize = 0;
    assert(path_segments(cs@.take(0)) =~= seq![Seq::<char>::empty()]) by {
        assert(cs@.take(0) =~= Seq::<char>::empty());
    }
    while i < n
        invariant
            n == cs@.len(),
            cs@ == id@,
            i <= n,
            path_segments(cs@.take(i as int)).len() > 0,
            path_segments(cs@.take(i as int)).last() == seg@,
            comps@.map_values(|v: Vec<char>| v@) == component_segments(path_segments(cs@.take(i as int)).drop_last()),
        decreases n - i,
    {
        let ghost segs0 = path_segments(cs@.take(i as int));
        assert(cs@.take(i + 1).drop_last() =~= cs@.take(i as int));
        assert(cs@.take(i + 1).last() == cs@[i as int]);
        if cs[i] == '/' {
            let ghost segs1 = path_segments(cs@.take(i + 1));
            assert(segs1 == segs0.push(Seq::empty()));
            assert(segs1.drop_last() =~= segs0);
            assert(segs0 =~= segs0.drop_last().push(segs0.last()));
            let keep = seg.len() > 0 && !(seg.len() == 1 && seg[0] == '.');
            proof {
                if seg@ == seq!['.'] {
                    assert(seg@.len() == 1 && seg@[0] == '.');
                }
                if seg@.len() == 1 && seg@[0] == '.' {
                    assert(seg@ =~= seq!['.']);
                }
            }
            let ghost before = comps@.map_values(|v: Vec<char>| v@);
            if keep {
                let done = seg;
                comps.push(done);
                assert(comps@.map_values(|v: Vec<char>| v@) =~= before.push(segs0.last()));
            }
            seg = Vec::new();
            assert(seg@ =~= Seq::<char>::empty());
        } else {
            let ghost segs1 = path_segments(cs@.take(i + 1));
            assert(segs1 == segs0.update(segs0.len() - 1, segs0.last().push(cs@[i as int])));
            assert(segs1.drop_last() =~= segs0.drop_last());
            seg.push(cs[i]);
        }
        i = i + 1;
    }
    assert(cs@.take(n as int) =~= cs@);
    let ghost segs = path_segments(id@);
    assert(segs =~= segs.drop_last().push(segs.last()));
    let last_keep = seg.len() > 0 && !(seg.len() == 1 && seg[0] == '.');
    proof {
        if seg@ == seq!['.'] {
            assert(seg@.len() == 1 && seg@[0] == '.');
        }
        if seg@.len() == 1 && seg@[0] == '.' {
            assert(seg@ =~= seq!['.']);
        }
    }
    let ghost before = comps@.map_values(|v: Vec<char>| v@);
    if last_keep {
        let done = seg;
        comps.push(done);
        assert(comps@.map_values(|v: Vec<char>| v@) =~= before.push(segs.last()));
    }
    let ghost cv = comps@.map_values(|v: Vec<char>| v@);
    assert(cv == component_segments(segs));
    let single = if comps.len() == 1 {
        let c = &comps[0];
        assert(c@ == cv[0]);
        let is_parent = c.len() == 2 && c[0] == '.' && c[1] == '.';
        proof {
            if is_parent {
                assert(c@ =~= seq!['.', '.']);
            }
            if c@ == seq!['.', '.'] {
                assert(c@.len() == 2);
            }
        }
        !is_parent
    } else {
        false
    };
    if rooted || cur_dir || !single {
        return Err(ProfileError::ImportUnsafeId(String::from_str(id)));
    }
    if str_eq(id, "profiles") || str_eq(id, "update") {
        return Err(ProfileError::ImportReservedId(String::from_str(id)));
    }
    Ok(())
}

/// The check of one profile of an import bundle, in bundle order: its id is
/// safe, not reserved, not seen before in the bundle (`seen`) and not saved
/// (`existing`), and its label, when it has one, can be given to it among
/// the labels staged so far. On success the id is seen and the label staged.
pub fn check_import_profile(
    seen: &mut Vec<String>,
    staged: &mut Labels,
    existing: &Vec<String>,
    id: &str,
    label: Option<&str>,
) -> (r: Result<(), ProfileError>)
    ensures
        !(is_single_component(id@) && !is_reserved_id(id@)) ==> r matches Err(
            ProfileError::ImportUnsafeId(_) | ProfileError::ImportReservedId(_),
        ),
        is_single_component(id@) && !is_reserved_id(id@) ==> {
            let m0 = label_map(old(staged));
            if views(old(seen)@).contains(id@) {
                r matches Err(ProfileError::ImportDuplicateId(x)) && x@ == id@
            } else if views(existing@).contains(id@) {
                r matches Err(ProfileError::ProfileExists(x)) && x@ == id@
            } else {
                match label {
                    Some(l) => if crate::commands::label_assignable(m0, l@, id@) {
                        r is Ok && label_map(final(staged)) == crate::commands::labels_after_assign(m0, l@, id@)
                    } else {
                        r matches Err(e) && crate::commands::assign_error(m0, l@, e)
                    },
                    None => r is Ok && label_map(final(staged)) == m0,
                }
            }
        },
        r is Ok ==> views(final(seen)@) == views(old(seen)@).push(id@),
{
    validate_import_profile_id(id)?;
    if vec_contains_str(seen, id) {
        return Err(ProfileError::ImportDuplicateId(String::from_str(id)));
    }
    if vec_contains_str(existing, id) {
        return Err(ProfileError::ProfileExists(String::from_str(id)));
    }
    let ghost s0 = views(seen@);
    seen.push(String::from_str(id));
    assert(views(seen@) =~= s0.push(id@));
    match label {
        Some(l) => {
            assign_label(staged, l, id)?;
        },
        None => {},
    }
    Ok(())
}

/// The managed files of an imported profile: its list in normal form, with
/// `config.toml` added when it carries a config; refused when the list names
/// `config.toml` but it carries none.
pub fn import_managed_files(id: &str, files: Vec<String>, has_config: bool) -> (r: Result<Vec<String>, ProfileError>)
    ensures
        ({
            let n0 = normalized_files(views(files@));
            let n1 = if has_config && !n0.contains(config_name()) {
                normalized_files(n0.push(config_name()))
            } else {
                n0
            };
            if n1.contains(config_name()) && !has_config {
                r matches Err(ProfileError::ImportMissingConfig(x)) && x@ == id@
            } else {
                r matches Ok(v) && views(v@) == n1
            }
        }),
{
    let mut managed = normalize_managed_files(files);
    if has_config && !managed_files_contains_config(&managed) {
        let ghost n0 = views(managed@);
        managed.push(config_file_name());
        assert(views(managed@) =~= n0.push(config_name()));
        managed = normalize_managed_files(managed);
    }
    if managed_files_contains_config(&managed) && !has_config {
        return Err(ProfileError::ImportMissingConfig(String::from_str(id)));
    }
    Ok(managed)
}

/// A profile of an import bundle once checked: its id, label, credentials
/// and managed files.
#[derive(Debug)]
pub struct ImportedProfile {
    pub id: String,
    pub label: Option<String>,
    pub tokens: TokenSummary,
    pub managed_files: Vec<String>,
}

/// Records the imported profile `p` once its files are written: it gets its
/// label, when it has one, and its index entry records its credentials,
/// label and managed files. Refused, with the store unchanged, when the
/// label cannot be given to it.
pub fn record_import(store: &mut ProfileStore, p: &ImportedProfile) -> (r: Result<(), ProfileError>)
    ensures
        ({
            let m0 = label_map(&old(store).labels);
            let i0 = index_view(&old(store).profiles_index);
            let ok = match p.label {
                Some(l) => crate::commands::label_assignable(m0, l@, p.id@),
                None => true,
            };
            &&& r is Ok <==> ok
            &&& r matches Err(e) ==> crate::commands::assign_error(m0, p.label->0@, e)
                && label_map(&final(store).labels) == m0 && index_view(&final(store).profiles_index) == i0
            &&& r is Ok ==> label_map(&final(store).labels) == match p.label {
                Some(l) => crate::commands::labels_after_assign(m0, l@, p.id@),
                None => m0,
            } && index_view(&final(store).profiles_index) == i0.insert(
                p.id@,
                updated_entry(
                    entry_or_empty(i0, p.id@),
                    Some(p.tokens),
                    opt_view(p.label),
                    Some(views(p.managed_files@)),
                ),
            )
            &&& final(store).profiles_index.version == old(store).profiles_index.version
        }),
{
    match &p.label {
        Some(l) => {
            assign_label(&mut store.labels, l.as_str(), p.id.as_str())?;
        },
        None => {},
    }
    let files = crate::index::clone_strings(&p.managed_files);
    update_profiles_index_entry(
        &mut store.profiles_index,
        p.id.as_str(),
        Some(&p.tokens),
        crate::identity::clone_opt(&p.label),
        Some(files),
    );
    Ok(())
}

} // verus!

verus! {

/// The bundle format version that export writes and import reads.
pub const BUNDLE_VERSION: u8 = 1;

/// A profile in an export bundle: its id, label, the JSON of its
/// credentials file, its managed files and, when it manages one, the text of
/// its `config.toml`.
#[derive(Debug)]
pub struct ExportedProfile {
    pub id: String,
    pub label: Option<String>,
    pub contents: serde_json::Value,
    pub managed_files: Vec<String>,
    pub config_toml: Option<String>,
}

/// An export bundle: its format version and its profiles.
#[derive(Debug)]
pub struct ExportBundle {
    pub version: u8,
    pub profiles: Vec<ExportedProfile>,
}

/// The bundle export writes for `profiles`.
pub fn export_bundle(profiles: Vec<ExportedProfile>) -> (b: ExportBundle)
    ensures
        b.version == BUNDLE_VERSION,
        b.profiles == profiles,
{
    ExportBundle { version: BUNDLE_VERSION, profiles }
}

/// Import reads only bundles of the current format version.
pub fn check_bundle_version(bundle: &ExportBundle) -> (r: Result<(), ProfileError>)
    ensures
        bundle.version == BUNDLE_VERSION <==> r is Ok,
        r matches Err(e) ==> e == ProfileError::ImportVersion(bundle.version),
{
    if bundle.version == BUNDLE_VERSION {
        Ok(())
    } else {
        Err(ProfileError::ImportVersion(bundle.version))
    }
}

/// The JSON of a saved profile's credentials file `raw`, as exported;
/// refused when the file is not JSON.
pub fn exported_contents(id: &str, raw: &str) -> (r: Result<serde_json::Value, ProfileError>)
    ensures
        r is Ok <==> json_shape(raw@) is Some,
        r matches Ok(v) ==> v == json_value(raw@),
        r matches Err(e) ==> (e matches ProfileError::ExportInvalidJson(x, m) && x@ == id@ && m@ == json_error(
            raw@,
        )),
{
    match parse_json_value(raw) {
        Ok(v) => Ok(v),
        Err(m) => Err(ProfileError::ExportInvalidJson(String::from_str(id), m)),
    }
}

/// The bytes `serde_json::to_vec_pretty` writes for `v`.
pub uninterp spec fn json_pretty(v: serde_json::Value) -> Seq<u8>;

/// `serde_json::to_vec_pretty`. Trusted: for a `Value` it always succeeds
/// (its documentation says it fails only when a `Serialize` impl fails or a
/// map has non-string keys, and neither can happen for a `Value`), with the
/// bytes `json_pretty` names.
#[verifier::external_body]
fn to_pretty_bytes(v: &serde_json::Value) -> (r: Vec<u8>)
    ensures
        r@ == json_pretty(*v),
{
    match serde_json::to_vec_pretty(v) {
        Ok(b) => b,
        Err(_) => Vec::new(),
    }
}

/// The bytes of an imported profile's credentials file: its JSON
/// pretty-printed, then a newline.
pub fn profile_file_bytes(contents: &serde_json::Value) -> (b: Vec<u8>)
    ensures
        b@ == json_pretty(*contents).push(10u8),
{
    let mut b = to_pretty_bytes(contents);
    b.push(10u8);
    b
}

/// The text of an imported profile's `config.toml`: the bundle's text,
/// with a newline added when it does not end in one.
pub fn config_file_text(text: String) -> (r: String)
    ensures
        r@ == if text@.len() > 0 && text@.last() == '\n' {
            text@
        } else {
            text@.push('\n')
        },
{
    let cs = to_chars(text.as_str());
    let mut r = text;
    if cs.len() == 0 || cs[cs.len() - 1] != '\n' {
        push_char(&mut r, '\n');
    }
    r
}

} // verus!
