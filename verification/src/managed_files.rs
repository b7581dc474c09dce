//! The files that a saved profile manages: always `auth.json`, sometimes
//! `config.toml`, and any other names kept from earlier versions.
use vstd::prelude::*;

use crate::text::{join_seq, join_strings, trim, trim_str, vec_contains_str, views, str_eq};

verus! {

/// The credentials file of a profile.
pub const AUTH_FILE_NAME: &'static str = "auth.json";

/// The config file that a config-aware profile also restores.
pub const CONFIG_FILE_NAME: &'static str = "config.toml";

/// The characters of `auth.json`.
pub open spec fn auth_name() -> Seq<char> {
    seq!['a', 'u', 't', 'h', '.', 'j', 's', 'o', 'n']
}

/// The characters of `config.toml`.
pub open spec fn config_name() -> Seq<char> {
    seq!['c', 'o', 'n', 'f', 'i', 'g', '.', 't', 'o', 'm', 'l']
}

pub(crate) fn auth_file_name() -> (s: String)
    ensures
        s@ == auth_name(),
{
    let s = String::from_str(AUTH_FILE_NAME);
    proof {
        reveal_strlit("auth.json");
    }
    s
}

pub(crate) fn config_file_name() -> (s: String)
    ensures
        s@ == config_name(),
{
    let s = String::from_str(CONFIG_FILE_NAME);
    proof {
        reveal_strlit("config.toml");
    }
    s
}

/// The other files named in `files`: trimmed, non-empty, neither
/// `auth.json` nor `config.toml`, each once, in order of first appearance.
pub open spec fn custom_files(files: Seq<Seq<char>>) -> Seq<Seq<char>>
    decreases files.len(),
{
    if files.len() == 0 {
        Seq::empty()
    } else {
        let prev = custom_files(files.drop_last());
        let f = trim(files.last());
        if f.len() == 0 || f == auth_name() || f == config_name() || prev.contains(f) {
            prev
        } else {
            prev.push(f)
        }
    }
}

/// Some name in `files` is `config.toml` once trimmed.
pub open spec fn names_config(files: Seq<Seq<char>>) -> bool {
    exists|i: int| 0 <= i < files.len() && trim(#[trigger] files[i]) == config_name()
}

/// The normal form of a list of managed files: `auth.json` first, then
/// `config.toml` when named, then the other names.
pub open spec fn normalized_files(files: Seq<Seq<char>>) -> Seq<Seq<char>> {
    seq![auth_name()] + (if names_config(files) {
        seq![config_name()]
    } else {
        Seq::empty()
    }) + custom_files(files)
}

/// Puts a list of managed files in normal form.
pub fn normalize_managed_files(files: Vec<String>) -> (out: Vec<String>)
    ensures
        views(out@) == normalized_files(views(files@)),
{
    let ghost fv = views(files@);
    let mut has_config = false;
    let mut custom: Vec<String> = Vec::new();
    let mut i: usize = 0;
    assert(views(custom@) =~= Seq::<Seq<char>>::empty());
    assert(fv.take(0) =~= Seq::<Seq<char>>::empty());
    while i < files.len()
        invariant
            fv == views(files@),
            i <= files@.len(),
            views(custom@) == custom_files(fv.take(i as int)),
            has_config == names_config(fv.take(i as int)),
        decreases files.len() - i,
    {
        let ghost prefix = fv.take(i as int);
        assert(fv.take(i + 1).drop_last() =~= prefix);
        assert(fv.take(i + 1).last() == files@[i as int]@);
        let file = trim_str(files[i].as_str());
        let is_auth = str_eq(file.as_str(), AUTH_FILE_NAME);
        let is_config = str_eq(file.as_str(), CONFIG_FILE_NAME);
        proof {
            reveal_strlit("auth.json");
            reveal_strlit("config.toml");
            assert(AUTH_FILE_NAME@ == auth_name());
            assert(CONFIG_FILE_NAME@ == config_name());
            assert(fv[i as int] == files@[i as int]@);
            assert(file@ == trim(fv.take(i + 1).last()));
        }
        proof {
            assert(names_config(fv.take(i + 1)) == (names_config(prefix) || file@ == config_name())) by {
                if names_config(fv.take(i + 1)) {
                    let j = choose|j: int| 0 <= j < i + 1 && trim(#[trigger] fv.take(i + 1)[j]) == config_name();
                    if j < i {
                        assert(prefix[j] == fv.take(i + 1)[j]);
                    }
                }
                if names_config(prefix) {
                    let j = choose|j: int| 0 <= j < i && trim(#[trigger] prefix[j]) == config_name();
                    assert(prefix[j] == fv.take(i + 1)[j]);
                }
                if file@ == config_name() {
                    assert(trim(fv.take(i + 1)[i as int]) == config_name());
                }
            }
        }
        if file.unicode_len() == 0 || is_auth {
        } else if is_config {
            has_config = true;
        } else if !vec_contains_str(&custom, file.as_str()) {
            custom.push(file);
            assert(views(custom@) =~= custom_files(prefix).push(trim(fv[i as int])));
        }
        i = i + 1;
    }
    assert(fv.take(files@.len() as int) =~= fv);
    let mut out: Vec<String> = Vec::new();
    out.push(auth_file_name());
    if has_config {
        out.push(config_file_name());
    }
    let ghost head = views(out@);
    let mut k: usize = 0;
    while k < custom.len()
        invariant
            k <= custom@.len(),
            views(out@) == head + views(custom@).take(k as int),
        decreases custom.len() - k,
    {
        let ghost before = views(out@);
        out.push(custom[k].clone());
        assert(views(out@) =~= before.push(custom@[k as int]@));
        assert(views(custom@).take(k + 1) =~= views(custom@).take(k as int).push(custom@[k as int]@));
        assert(views(out@) =~= head + views(custom@).take(k + 1));
        k = k + 1;
    }
    assert(views(custom@).take(custom@.len() as int) =~= views(custom@));
    assert(views(out@) =~= normalized_files(fv));
    out
}

} // verus!

verus! {

/// The files a profile saved now manages: `auth.json`, and `config.toml`
/// when the config is included.
pub fn managed_files_for_save(include_config: bool) -> (out: Vec<String>)
    ensures
        views(out@) == (if include_config {
            seq![auth_name(), config_name()]
        } else {
            seq![auth_name()]
        }),
{
    let mut files: Vec<String> = Vec::new();
    files.push(auth_file_name());
    if include_config {
        files.push(config_file_name());
    }
    assert(views(files@) =~= (if include_config {
        seq![auth_name(), config_name()]
    } else {
        seq![auth_name()]
    }));
    files
}

/// Whether the list names `config.toml`.
pub fn managed_files_contains_config(files: &Vec<String>) -> (b: bool)
    ensures
        b == views(files@).contains(config_name()),
{
    let b = vec_contains_str(files, CONFIG_FILE_NAME);
    proof {
        reveal_strlit("config.toml");
        assert(CONFIG_FILE_NAME@ == config_name());
    }
    b
}

/// The characters of ` + `.
pub open spec fn plus_sep() -> Seq<char> {
    seq![' ', '+', ' ']
}

/// The files joined by ` + `, as `auth.json + config.toml`.
pub fn format_managed_files(files: &Vec<String>) -> (out: String)
    ensures
        out@ == join_seq(views(files@), plus_sep()),
{
    proof {
        reveal_strlit(" + ");
    }
    assert(" + "@ == plus_sep());
    join_strings(files, " + ")
}

/// The text `[files: ...]` that lists the managed files.
pub open spec fn files_tag(files: Seq<Seq<char>>) -> Seq<char> {
    seq!['[', 'f', 'i', 'l', 'e', 's', ':', ' '] + join_seq(files, plus_sep()) + seq![']']
}

fn files_tag_text(files: &Vec<String>) -> (out: String)
    ensures
        out@ == files_tag(views(files@)),
{
    let mut out = String::from_str("[files: ");
    out.append(format_managed_files(files).as_str());
    out.append("]");
    proof {
        reveal_strlit("[files: ");
        reveal_strlit("]");
    }
    out
}

/// ` [files: ...]`, dimmed when `use_color` holds.
pub fn format_managed_files_suffix(files: &Vec<String>, use_color: bool) -> (out: String)
    ensures
        !use_color ==> out@ == seq![' '] + files_tag(views(files@)),
        use_color && !crate::ui::contains_reset(seq![' '] + files_tag(views(files@))) ==> (out@ == seq![' ']
            + files_tag(views(files@)) || out@ == crate::ui::dim_start() + seq![' '] + files_tag(
            views(files@),
        ) + crate::ui::style_reset()),
{
    let mut text = String::from_str(" ");
    text.append(files_tag_text(files).as_str());
    proof {
        reveal_strlit(" ");
        assert(text@ =~= seq![' '] + files_tag(views(files@)));
        assert(crate::ui::dim_start() + text@ + crate::ui::style_reset() =~= crate::ui::dim_start()
            + seq![' '] + files_tag(views(files@)) + crate::ui::style_reset());
    }
    crate::ui::style_dimmed(text.as_str(), use_color)
}

/// `[files: ...]`, dimmed when `use_color` holds.
pub fn format_managed_files_line(files: &Vec<String>, use_color: bool) -> (out: String)
    ensures
        !use_color ==> out@ == files_tag(views(files@)),
        use_color && !crate::ui::contains_reset(files_tag(views(files@))) ==> (out@ == files_tag(
            views(files@),
        ) || out@ == crate::ui::dim_start() + files_tag(views(files@)) + crate::ui::style_reset()),
{
    let text = files_tag_text(files);
    crate::ui::style_dimmed(text.as_str(), use_color)
}

} // verus!

verus! {

/// The files that a saved profile manages, from what its index entry lists
/// (`auth.json` when it lists nothing) and whether its `config.toml` is
/// saved (which adds `config.toml`), in normal form.
pub open spec fn profile_files_of(listed: Option<Seq<Seq<char>>>, config_saved: bool) -> Seq<Seq<char>> {
    let base = match listed {
        Some(f) => f,
        None => Seq::empty(),
    };
    let f1 = if base.len() == 0 {
        seq![auth_name()]
    } else {
        base
    };
    let f2 = if config_saved && !f1.contains(config_name()) {
        f1.push(config_name())
    } else {
        f1
    };
    normalized_files(f2)
}

/// The files that the profile with index entry `entry` manages, its
/// `config.toml` being saved or not.
pub fn managed_files_for_profile(entry: Option<&crate::index::ProfileIndexEntry>, config_saved: bool) -> (out: Vec<String>)
    ensures
        views(out@) == profile_files_of(
            match entry {
                Some(e) => Some(e@.managed_files),
                None => None,
            },
            config_saved,
        ),
{
    let mut files: Vec<String> = match entry {
        Some(e) => crate::index::clone_strings(&e.managed_files),
        None => Vec::new(),
    };
    let ghost base = views(files@);
    if files.len() == 0 {
        files.push(auth_file_name());
        assert(views(files@) =~= seq![auth_name()]);
    }
    let ghost f1 = views(files@);
    if config_saved && !managed_files_contains_config(&files) {
        files.push(config_file_name());
        assert(views(files@) =~= f1.push(config_name()));
    }
    normalize_managed_files(files)
}

} // verus!
