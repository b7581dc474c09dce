//! Terminal text helpers.
use colored::Colorize;
use vstd::prelude::*;

use crate::text::{from_chars, to_chars};

verus! {

/// A final character of a CSI escape sequence (`@` through `~`).
pub open spec fn is_csi_final(c: char) -> bool {
    '@' <= c <= '~'
}

/// The index just past the final character of the escape sequence whose
/// parameters start at `j`, or the end of `s` when it never ends.
pub open spec fn csi_end(s: Seq<char>, j: int) -> int
    decreases s.len() - j,
{
    if j < 0 || j >= s.len() {
        s.len() as int
    } else if is_csi_final(s[j]) {
        j + 1
    } else {
        csi_end(s, j + 1)
    }
}

pub proof fn lemma_csi_end_bounds(s: Seq<char>, j: int)
    requires
        0 <= j <= s.len(),
    ensures
        j <= csi_end(s, j) <= s.len(),
    decreases s.len() - j,
{
    if j < s.len() && !is_csi_final(s[j]) {
        lemma_csi_end_bounds(s, j + 1);
    }
}

/// The characters of `s` from index `i` on, with every escape sequence
/// `ESC [ ... final` removed.
pub open spec fn strip_ansi_from(s: Seq<char>, i: int) -> Seq<char>
    decreases s.len() - i,
{
    if i < 0 || i >= s.len() {
        Seq::empty()
    } else if s[i] == '\x1b' && i + 1 < s.len() && s[i + 1] == '[' {
        proof {
            lemma_csi_end_bounds(s, i + 2);
        }
        strip_ansi_from(s, csi_end(s, i + 2))
    } else {
        seq![s[i]] + strip_ansi_from(s, i + 1)
    }
}

/// `s` with its ANSI color sequences removed.
pub open spec fn strip_ansi_spec(s: Seq<char>) -> Seq<char> {
    strip_ansi_from(s, 0)
}

/// Removes the ANSI escape sequences (`ESC [` parameters and a final
/// character) that color and style terminal text.
pub fn strip_ansi(s: &str) -> (out: String)
    ensures
        out@ == strip_ansi_spec(s@),
{
    let cs = to_chars(s);
    let n = cs.len();
    let mut out: Vec<char> = Vec::new();
    let mut i: usize = 0;
    while i < n
        invariant
            n == cs@.len(),
            cs@ == s@,
            i <= n,
            strip_ansi_spec(s@) == out@ + strip_ansi_from(s@, i as int),
        decreases n - i,
    {
        if cs[i] == '\x1b' && i + 1 < n && cs[i + 1] == '[' {
            let mut j: usize = i + 2;
            while j < n && !('@' <= cs[j] && cs[j] <= '~')
                invariant
                    n == cs@.len(),
                    i + 2 <= j <= n,
                    csi_end(cs@, (i + 2) as int) == csi_end(cs@, j as int),
                decreases n - j,
            {
                j = j + 1;
            }
            let end = if j < n {
                j + 1
            } else {
                n
            };
            proof {
                lemma_csi_end_bounds(cs@, (i + 2) as int);
            }
            assert(end == csi_end(cs@, (i + 2) as int));
            i = end;
        } else {
            out.push(cs[i]);
            assert(out@ + strip_ansi_from(s@, i + 1) =~= out@.drop_last() + (seq![cs@[i as int]]
                + strip_ansi_from(s@, i + 1)));
            i = i + 1;
        }
    }
    assert(out@ + strip_ansi_from(s@, n as int) =~= out@);
    from_chars(out.as_slice())
}

} // verus!

verus! {

/// The escape sequence that starts dimmed text.
pub open spec fn dim_start() -> Seq<char> {
    seq!['\x1b', '[', '2', 'm']
}

/// The escape sequence that resets terminal styling.
pub open spec fn style_reset() -> Seq<char> {
    seq!['\x1b', '[', '0', 'm']
}

/// `s` contains the reset sequence.
pub open spec fn contains_reset(s: Seq<char>) -> bool {
    exists|i: int| 0 <= i && i + 4 <= s.len() && #[trigger] s.subrange(i, i + 4) == style_reset()
}

/// `colored::Colorize::dimmed` on `s`, rendered to a string. Trusted: when
/// colors are off (colored decides by the environment and the terminal) the
/// text is unchanged; when on, and `s` holds no reset sequence, it is
/// wrapped in the dim and reset sequences. Nothing is said of text that
/// already holds a reset sequence.
#[verifier::external_body]
fn colored_dimmed(s: &str) -> (out: String)
    ensures
        !contains_reset(s@) ==> (out@ == s@ || out@ == dim_start() + s@ + style_reset()),
{
    s.dimmed().to_string()
}

/// `text` dimmed when `use_color` holds, else `text` unchanged.
pub fn style_dimmed(text: &str, use_color: bool) -> (out: String)
    ensures
        !use_color ==> out@ == text@,
        use_color && !contains_reset(text@) ==> (out@ == text@ || out@ == dim_start() + text@
            + style_reset()),
{
    if use_color {
        colored_dimmed(text)
    } else {
        String::from_str(text)
    }
}

} // verus!
