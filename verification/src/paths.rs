//! Where profiles live: `<profiles dir>/<id>/auth.json`, and the id that a
//! path names. Paths are `/`-separated text.
use vstd::prelude::*;

use crate::managed_files::{auth_name, config_name, AUTH_FILE_NAME, CONFIG_FILE_NAME};
use crate::text::{from_chars_range, to_chars, views};

verus! {

/// The index of the last `/` in `p`, or -1 when there is none.
pub open spec fn last_sep(p: Seq<char>) -> int
    decreases p.len(),
{
    if p.len() == 0 {
        -1
    } else if p.last() == '/' {
        p.len() - 1
    } else {
        last_sep(p.drop_last())
    }
}

/// The last component of `p`: what follows its last `/`.
pub open spec fn file_name(p: Seq<char>) -> Seq<char> {
    p.subrange(last_sep(p) + 1, p.len() as int)
}

/// The index of the last `.` in `n`, or -1.
pub open spec fn last_dot(n: Seq<char>) -> int
    decreases n.len(),
{
    if n.len() == 0 {
        -1
    } else if n.last() == '.' {
        n.len() - 1
    } else {
        last_dot(n.drop_last())
    }
}

/// `Path::file_stem` of a file name: the name without its extension; a name
/// whose only dot leads it has no extension.
pub open spec fn file_stem(n: Seq<char>) -> Seq<char> {
    if last_dot(n) <= 0 {
        n
    } else {
        n.subrange(0, last_dot(n))
    }
}

/// `p` split at each `/`.
pub open spec fn split_slash(p: Seq<char>) -> Seq<Seq<char>>
    decreases p.len(),
{
    if p.len() == 0 {
        seq![Seq::empty()]
    } else {
        let prev = split_slash(p.drop_last());
        if p.last() == '/' {
            prev.push(Seq::empty())
        } else {
            prev.update(prev.len() - 1, prev.last().push(p.last()))
        }
    }
}

/// A part between slashes that is a component of the path: not empty and
/// not `.` (as `Path::components` reads it, empty parts and `.` are skipped).
pub open spec fn names_component(s: Seq<char>) -> bool {
    s.len() > 0 && s != seq!['.']
}

/// The parts of `ps` that are components, in order.
pub open spec fn kept_parts(ps: Seq<Seq<char>>) -> Seq<Seq<char>>
    decreases ps.len(),
{
    if ps.len() == 0 {
        Seq::empty()
    } else {
        let prev = kept_parts(ps.drop_last());
        if names_component(ps.last()) {
            prev.push(ps.last())
        } else {
            prev
        }
    }
}

/// The components of a path, as `Path::components` gives them.
pub open spec fn path_components(p: Seq<char>) -> Seq<Seq<char>> {
    kept_parts(split_slash(p))
}

/// `Path::file_name` over components: the last one, unless there is none or
/// it is `..`.
pub open spec fn final_name(cs: Seq<Seq<char>>) -> Option<Seq<char>> {
    if cs.len() > 0 && cs.last() != seq!['.', '.'] {
        Some(cs.last())
    } else {
        None
    }
}

/// The profile id a path names: the name of the directory of an
/// `auth.json`, or else the stem of the file; none when there is no such
/// name or it is empty.
pub open spec fn path_profile_id(p: Seq<char>) -> Option<Seq<char>> {
    let cs = path_components(p);
    match final_name(cs) {
        Some(n) => if n == auth_name() {
            final_name(cs.drop_last())
        } else if file_stem(n).len() > 0 {
            Some(file_stem(n))
        } else {
            None
        },
        None => None,
    }
}

fn is_component(cur: &Vec<char>) -> (b: bool)
    ensures
        b == names_component(cur@),
{
    if cur.len() == 0 {
        false
    } else if cur.len() == 1 && cur[0] == '.' {
        assert(cur@ =~= seq!['.']);
        false
    } else {
        proof {
            if cur@ == seq!['.'] {
                assert(cur@.len() == 1);
            }
        }
        true
    }
}

/// The components of `path`.
fn components_of(path: &str) -> (out: Vec<String>)
    ensures
        views(out@) == path_components(path@),
{
    let cs = to_chars(path);
    let n = cs.len();
    let mut parts: Vec<String> = Vec::new();
    let mut cur: Vec<char> = Vec::new();
    let mut i: usize = 0;
    assert(cs@.take(0) =~= Seq::<char>::empty());
    while i < n
        invariant
            n == cs@.len(),
            cs@ == path@,
            i <= n,
            split_slash(cs@.take(i as int)).len() > 0,
            split_slash(cs@.take(i as int)).last() == cur@,
            views(parts@) == kept_parts(split_slash(cs@.take(i as int)).drop_last()),
        decreases n - i,
    {
        let ghost p0 = split_slash(cs@.take(i as int));
        assert(cs@.take(i + 1).drop_last() =~= cs@.take(i as int));
        assert(cs@.take(i + 1).last() == cs@[i as int]);
        if cs[i] == '/' {
            assert(p0 =~= p0.drop_last().push(p0.last()));
            assert(split_slash(cs@.take(i + 1)).drop_last() =~= p0);
            if is_component(&cur) {
                let ghost before = views(parts@);
                parts.push(crate::text::from_chars(cur.as_slice()));
                assert(views(parts@) =~= before.push(cur@));
            }
            cur = Vec::new();
            assert(cur@ =~= Seq::<char>::empty());
        } else {
            cur.push(cs[i]);
            assert(split_slash(cs@.take(i + 1)).drop_last() =~= p0.drop_last());
        }
        i = i + 1;
    }
    assert(cs@.take(n as int) =~= cs@);
    let ghost all = split_slash(path@);
    assert(all =~= all.drop_last().push(all.last()));
    if is_component(&cur) {
        let ghost before = views(parts@);
        parts.push(crate::text::from_chars(cur.as_slice()));
        assert(views(parts@) =~= before.push(cur@));
    }
    parts
}

fn last_index_of(cs: &[char], c: char, end: usize) -> (r: Option<usize>)
    requires
        end <= cs@.len(),
    ensures
        match r {
            Some(i) => i < end && cs@[i as int] == c && forall|k: int| i < k < end ==> cs@[k] != c,
            None => forall|k: int| 0 <= k < end ==> cs@[k] != c,
        },
{
    let mut j = end;
    while j > 0
        invariant
            j <= end <= cs@.len(),
            forall|k: int| j <= k < end ==> cs@[k] != c,
        decreases j,
    {
        if cs[j - 1] == c {
            return Some(j - 1);
        }
        j = j - 1;
    }
    None
}

proof fn lemma_last_index(p: Seq<char>, c: char, r: int)
    requires
        c == '/' || c == '.',
        -1 <= r < p.len(),
        r >= 0 ==> p[r] == c,
        forall|k: int| r < k < p.len() ==> p[k] != c,
    ensures
        c == '/' ==> r == last_sep(p),
        c == '.' ==> r == last_dot(p),
    decreases p.len(),
{
    if p.len() > 0 && r < p.len() - 1 {
        lemma_last_index(p.drop_last(), c, r);
    }
}

/// The profile id a path names: for `<dir>/<id>/auth.json` it is `<id>`;
/// for any other file, the file's stem; none when that is empty (or the
/// path ends in `..` or names no file).
pub fn profile_id_from_path(path: &str) -> (r: Option<String>)
    ensures
        opt_chars(r) == path_profile_id(path@),
{
    let comps = components_of(path);
    let n = comps.len();
    let dots = "..";
    proof {
        reveal_strlit("..");
        assert(dots@ =~= seq!['.', '.']);
    }
    if n == 0 || crate::text::str_eq(comps[n - 1].as_str(), dots) {
        return None;
    }
    let name = comps[n - 1].as_str();
    proof {
        reveal_strlit("auth.json");
        assert(AUTH_FILE_NAME@ == auth_name());
    }
    if crate::text::str_eq(name, AUTH_FILE_NAME) {
        if n < 2 || crate::text::str_eq(comps[n - 2].as_str(), dots) {
            return None;
        }
        proof {
            assert(path_components(path@).drop_last().last() == comps@[n - 2]@);
        }
        return Some(comps[n - 2].clone());
    }
    let ncs = to_chars(name);
    let dot = last_index_of(ncs.as_slice(), '.', ncs.len());
    proof {
        let r = match dot {
            Some(k) => k as int,
            None => -1,
        };
        lemma_last_index(name@, '.', r);
    }
    let stem = match dot {
        Some(k) => {
            if k == 0 {
                String::from_str(name)
            } else {
                from_chars_range(ncs.as_slice(), 0, k)
            }
        },
        None => String::from_str(name),
    };
    if stem.unicode_len() > 0 {
        Some(stem)
    } else {
        None
    }
}

/// The characters of an optional string.
pub open spec fn opt_chars(o: Option<String>) -> Option<Seq<char>> {
    match o {
        Some(s) => Some(s@),
        None => None,
    }
}

/// `dir/name`.
pub open spec fn join_path(dir: Seq<char>, name: Seq<char>) -> Seq<char> {
    dir + seq!['/'] + name
}

fn join(dir: &str, name: &str) -> (out: String)
    ensures
        out@ == join_path(dir@, name@),
{
    let mut out = String::from_str(dir);
    out.append("/");
    out.append(name);
    proof {
        reveal_strlit("/");
    }
    out
}

/// The directory of profile `id`.
pub fn profile_dir_for_id(profiles_dir: &str, id: &str) -> (out: String)
    ensures
        out@ == join_path(profiles_dir@, id@),
{
    join(profiles_dir, id)
}

/// The saved credentials of profile `id`.
pub fn profile_path_for_id(profiles_dir: &str, id: &str) -> (out: String)
    ensures
        out@ == join_path(join_path(profiles_dir@, id@), auth_name()),
{
    let dir = profile_dir_for_id(profiles_dir, id);
    let out = join(dir.as_str(), AUTH_FILE_NAME);
    proof {
        reveal_strlit("auth.json");
    }
    out
}

/// The saved config of profile `id`.
pub fn profile_config_path_for_id(profiles_dir: &str, id: &str) -> (out: String)
    ensures
        out@ == join_path(join_path(profiles_dir@, id@), config_name()),
{
    let dir = profile_dir_for_id(profiles_dir, id);
    let out = join(dir.as_str(), CONFIG_FILE_NAME);
    proof {
        reveal_strlit("config.toml");
    }
    out
}

} // verus!

verus! {

/// `Path::with_extension` on a text path: the file name's stem followed by
/// `.` and `ext` (the stem alone for an empty `ext`); a path whose file name
/// is empty is kept.
pub open spec fn with_extension(p: Seq<char>, ext: Seq<char>) -> Seq<char> {
    let name = file_name(p);
    if name.len() == 0 {
        p
    } else {
        p.subrange(0, last_sep(p) + 1) + file_stem(name) + (if ext.len() > 0 {
            seq!['.'] + ext
        } else {
            Seq::empty()
        })
    }
}

/// The path with its file's extension replaced by `ext`.
pub fn path_with_extension(path: &str, ext: &str) -> (out: String)
    ensures
        out@ == with_extension(path@, ext@),
{
    let cs = to_chars(path);
    let n = cs.len();
    let sep = last_index_of(cs.as_slice(), '/', n);
    let start = match sep {
        Some(i) => i + 1,
        None => 0,
    };
    proof {
        let r = match sep {
            Some(i) => i as int,
            None => -1,
        };
        lemma_last_index(path@, '/', r);
    }
    if start == n {
        assert(file_name(path@).len() == 0);
        return String::from_str(path);
    }
    let name = from_chars_range(cs.as_slice(), start, n);
    let ncs = to_chars(name.as_str());
    let dot = last_index_of(ncs.as_slice(), '.', ncs.len());
    proof {
        let r = match dot {
            Some(k) => k as int,
            None => -1,
        };
        lemma_last_index(name@, '.', r);
    }
    let stem_end = match dot {
        Some(k) => if k == 0 {
            ncs.len()
        } else {
            k
        },
        None => ncs.len(),
    };
    let mut out = from_chars_range(cs.as_slice(), 0, start);
    out.append(from_chars_range(ncs.as_slice(), 0, stem_end).as_str());
    if ext.unicode_len() > 0 {
        crate::text::push_char(&mut out, '.');
        out.append(ext);
    }
    proof {
        assert(ncs@.subrange(0, ncs@.len() as int) =~= ncs@);
    }
    out
}

/// The `n`th path tried for a backup of the index file: extension
/// `json.bak`, then `json.bak.1`, `json.bak.2`, ...
pub open spec fn backup_candidate(index_path: Seq<char>, n: nat) -> Seq<char> {
    with_extension(
        index_path,
        if n == 0 {
            "json.bak"@
        } else {
            "json.bak."@ + crate::text::decimal(n)
        },
    )
}

/// The `n`th path tried for a backup of the index file.
pub fn index_backup_candidate(index_path: &str, n: u64) -> (out: String)
    ensures
        out@ == backup_candidate(index_path@, n as nat),
{
    if n == 0 {
        path_with_extension(index_path, "json.bak")
    } else {
        let mut ext = String::from_str("json.bak.");
        ext.append(crate::text::u64_to_decimal(n).as_str());
        path_with_extension(index_path, ext.as_str())
    }
}

} // verus!
