//! Usage status helpers: how many usage requests run at once, and how error
//! messages are split into a summary and details for display.
use vstd::prelude::*;

use crate::error::ProfileError;
use crate::text::{
    from_chars, join_seq, join_strings, lower_seq, push_char, to_ascii_lowercase, to_chars, trim,
    trim_str, views,
};
use crate::ui::{contains_reset, dim_start, style_dimmed, style_reset};

verus! {

/// How many usage requests run at once when nothing is configured.
pub const DEFAULT_USAGE_CONCURRENCY: usize = 32;

/// The most usage requests that run at once.
pub const MAX_USAGE_CONCURRENCY: usize = 128;

/// The value of a string of decimal digits.
pub open spec fn digits_value(s: Seq<char>) -> nat
    decreases s.len(),
{
    if s.len() == 0 {
        0
    } else {
        digits_value(s.drop_last()) * 10 + (s.last() as nat - '0' as nat) as nat
    }
}

/// Every character of `s` is a decimal digit.
pub open spec fn all_digits(s: Seq<char>) -> bool {
    forall|i: int| 0 <= i < s.len() ==> '0' <= #[trigger] s[i] <= '9'
}

/// `usize::from_str`: an optional `+` and then at least one decimal digit,
/// nothing else, and a value that fits in `usize`.
pub open spec fn parsed_usize(s: Seq<char>) -> Option<nat> {
    let d = if s.len() > 0 && s[0] == '+' {
        s.skip(1)
    } else {
        s
    };
    if d.len() > 0 && all_digits(d) && digits_value(d) <= usize::MAX {
        Some(digits_value(d))
    } else {
        None
    }
}

/// `digits_value` only grows as digits are appended.
proof fn lemma_digits_value_grows(s: Seq<char>, n: int)
    requires
        0 <= n <= s.len(),
        all_digits(s),
    ensures
        digits_value(s.take(n)) <= digits_value(s),
    decreases s.len() - n,
{
    if n < s.len() {
        lemma_digits_value_grows(s, n + 1);
        assert(s.take(n + 1).drop_last() =~= s.take(n));
        assert('0' <= s.take(n + 1).last() <= '9');
    } else {
        assert(s.take(n) =~= s);
    }
}

/// Parses a `usize` as `usize::from_str` does.
pub fn parse_usize(s: &str) -> (r: Option<usize>)
    ensures
        match r {
            Some(v) => parsed_usize(s@) == Some(v as nat),
            None => parsed_usize(s@) is None,
        },
{
    let cs = to_chars(s);
    let start: usize = if cs.len() > 0 && cs[0] == '+' {
        1
    } else {
        0
    };
    let ghost d = if s@.len() > 0 && s@[0] == '+' {
        s@.skip(1)
    } else {
        s@
    };
    assert(d =~= cs@.skip(start as int));
    if start >= cs.len() {
        return None;
    }
    let mut value: usize = 0;
    let mut i: usize = start;
    while i < cs.len()
        invariant
            start <= i <= cs@.len(),
            cs@ == s@,
            d == (if s@.len() > 0 && s@[0] == '+' {
                s@.skip(1)
            } else {
                s@
            }),
            d == cs@.skip(start as int),
            all_digits(d.take(i - start)),
            value as nat == digits_value(d.take(i - start)),
        decreases cs.len() - i,
    {
        let c = cs[i];
        assert(d.take(i - start + 1).drop_last() =~= d.take(i - start));
        assert(d.take(i - start + 1).last() == c);
        if c < '0' || c > '9' {
            assert(!all_digits(d)) by {
                assert(d[i - start] == c);
            }
            return None;
        }
        let digit = (c as u32 - '0' as u32) as usize;
        assert(digits_value(d.take(i - start + 1)) == value * 10 + digit);
        if value > (usize::MAX - digit) / 10 {
            proof {
                assert(all_digits(d.take(i - start + 1)));
                if all_digits(d) {
                    lemma_digits_value_grows(d, i - start + 1);
                }
                assert(value * 10 + digit > usize::MAX) by (nonlinear_arith)
                    requires
                        value > (usize::MAX - digit) / 10,
                        digit < 10,
                ;
            }
            return None;
        }
        assert(value * 10 + digit <= usize::MAX) by (nonlinear_arith)
            requires
                value <= (usize::MAX - digit) / 10,
                digit < 10,
        ;
        value = value * 10 + digit;
        i = i + 1;
    }
    assert(d.take(i - start) =~= d);
    Some(value)
}

/// The usage concurrency that a configured value gives: a positive number
/// (after trimming), at most `MAX_USAGE_CONCURRENCY`; else the default.
pub open spec fn concurrency_of(value: Option<Seq<char>>) -> nat {
    match value {
        Some(v) => match parsed_usize(trim(v)) {
            Some(n) => if n == 0 {
                DEFAULT_USAGE_CONCURRENCY as nat
            } else if n > MAX_USAGE_CONCURRENCY {
                MAX_USAGE_CONCURRENCY as nat
            } else {
                n
            },
            None => DEFAULT_USAGE_CONCURRENCY as nat,
        },
        None => DEFAULT_USAGE_CONCURRENCY as nat,
    }
}

/// How many workers build entries whose usage is fetched: with usage shown
/// and three or more entries, the usage concurrency but no more than there
/// are entries; otherwise one.
pub fn usage_workers(show_usage: bool, entries: usize, concurrency: usize) -> (w: usize)
    ensures
        w == if show_usage && entries >= 3 {
            if concurrency < entries {
                concurrency
            } else {
                entries
            }
        } else {
            1
        },
{
    if show_usage && entries >= 3 {
        if concurrency < entries {
            concurrency
        } else {
            entries
        }
    } else {
        1
    }
}

/// The number of usage requests to run at once, from the configured value
/// (the environment setting, when one is set).
pub fn usage_concurrency(value: Option<&str>) -> (n: usize)
    ensures
        n as nat == concurrency_of(match value {
            Some(v) => Some(v@),
            None => None,
        }),
{
    match value {
        None => DEFAULT_USAGE_CONCURRENCY,
        Some(v) => {
            let t = trim_str(v);
            match parse_usize(t.as_str()) {
                None => DEFAULT_USAGE_CONCURRENCY,
                Some(n) => if n == 0 {
                    DEFAULT_USAGE_CONCURRENCY
                } else if n > MAX_USAGE_CONCURRENCY {
                    MAX_USAGE_CONCURRENCY
                } else {
                    n
                },
            }
        },
    }
}

/// `s` split at each newline.
pub open spec fn split_newlines(s: Seq<char>) -> Seq<Seq<char>>
    decreases s.len(),
{
    if s.len() == 0 {
        seq![Seq::empty()]
    } else {
        let prev = split_newlines(s.drop_last());
        if s.last() == '\n' {
            prev.push(Seq::empty())
        } else {
            prev.update(prev.len() - 1, prev.last().push(s.last()))
        }
    }
}

/// `l` without one trailing carriage return.
pub open spec fn strip_cr(l: Seq<char>) -> Seq<char> {
    if l.len() > 0 && l.last() == '\r' {
        l.drop_last()
    } else {
        l
    }
}

/// `str::lines`: the lines of `s`, each without its `\n` or `\r\n`; a final
/// line ending starts no new line, a final `\r` without `\n` is kept, and
/// empty text has no lines.
pub open spec fn str_lines(s: Seq<char>) -> Seq<Seq<char>> {
    let parts = split_newlines(s);
    let ends = s.len() > 0 && s.last() == '\n';
    let kept = if s.len() == 0 {
        Seq::empty()
    } else if ends {
        parts.drop_last()
    } else {
        parts
    };
    Seq::new(
        kept.len(),
        |i: int| if ends || i < kept.len() - 1 {
            strip_cr(kept[i])
        } else {
            kept[i]
        },
    )
}

/// The lines of `s` (`str::lines`).
pub fn split_lines(s: &str) -> (out: Vec<String>)
    ensures
        views(out@) == str_lines(s@),
{
    let cs = to_chars(s);
    let n = cs.len();
    let mut parts: Vec<Vec<char>> = Vec::new();
    let mut cur: Vec<char> = Vec::new();
    let mut i: usize = 0;
    assert(cs@.take(0) =~= Seq::<char>::empty());
    while i < n
        invariant
            n == cs@.len(),
            cs@ == s@,
            i <= n,
            split_newlines(cs@.take(i as int)).len() > 0,
            split_newlines(cs@.take(i as int)).last() == cur@,
            parts@.map_values(|v: Vec<char>| v@) == split_newlines(cs@.take(i as int)).drop_last(),
        decreases n - i,
    {
        let ghost p0 = split_newlines(cs@.take(i as int));
        assert(cs@.take(i + 1).drop_last() =~= cs@.take(i as int));
        assert(cs@.take(i + 1).last() == cs@[i as int]);
        if cs[i] == '\n' {
            let ghost before = parts@.map_values(|v: Vec<char>| v@);
            let done = cur;
            parts.push(done);
            assert(parts@.map_values(|v: Vec<char>| v@) =~= before.push(p0.last()));
            assert(p0 =~= p0.drop_last().push(p0.last()));
            cur = Vec::new();
            assert(cur@ =~= Seq::<char>::empty());
            assert(split_newlines(cs@.take(i + 1)).drop_last() =~= p0);
        } else {
            cur.push(cs[i]);
            assert(split_newlines(cs@.take(i + 1)).drop_last() =~= p0.drop_last());
        }
        i = i + 1;
    }
    assert(cs@.take(n as int) =~= cs@);
    let ghost all = split_newlines(s@);
    let ends_with_newline = n > 0 && cs[n - 1] == '\n';
    if n > 0 && !ends_with_newline {
        let ghost before = parts@.map_values(|v: Vec<char>| v@);
        let done = cur;
        parts.push(done);
        assert(parts@.map_values(|v: Vec<char>| v@) =~= before.push(all.last()));
        assert(all =~= all.drop_last().push(all.last()));
    }
    let ghost kept = if s@.len() == 0 {
        Seq::<Seq<char>>::empty()
    } else if s@.last() == '\n' {
        all.drop_last()
    } else {
        all
    };
    proof {
        if n == 0 {
            assert(parts@.len() == 0);
        }
        assert(parts@.map_values(|v: Vec<char>| v@) =~= kept);
    }
    let ghost expected = str_lines(s@);
    let mut out: Vec<String> = Vec::new();
    let mut k: usize = 0;
    while k < parts.len()
        invariant
            k <= parts@.len(),
            parts@.map_values(|v: Vec<char>| v@) == kept,
            expected == str_lines(s@),
            expected.len() == kept.len(),
            ends_with_newline == (s@.len() > 0 && s@.last() == '\n'),
            forall|q: int| 0 <= q < kept.len() ==> #[trigger] expected[q] == (if ends_with_newline || q
                < kept.len() - 1 {
                strip_cr(kept[q])
            } else {
                kept[q]
            }),
            views(out@) == expected.take(k as int),
        decreases parts.len() - k,
    {
        let p = &parts[k];
        assert(p@ == kept[k as int]);
        let strip = ends_with_newline || k + 1 < parts.len();
        let end: usize = if strip && p.len() > 0 && p[p.len() - 1] == '\r' {
            p.len() - 1
        } else {
            p.len()
        };
        let line = crate::text::from_chars_range(p.as_slice(), 0, end);
        assert(line@ =~= expected[k as int]);
        let ghost before = views(out@);
        out.push(line);
        assert(views(out@) =~= before.push(expected[k as int]));
        assert(expected.take(k + 1) =~= expected.take(k as int).push(expected[k as int]));
        k = k + 1;
    }
    assert(expected.take(parts@.len() as int) =~= expected);
    out
}

/// The lines of `ls` trimmed, without the empty ones.
pub open spec fn trimmed_nonempty(ls: Seq<Seq<char>>) -> Seq<Seq<char>>
    decreases ls.len(),
{
    if ls.len() == 0 {
        Seq::empty()
    } else {
        let prev = trimmed_nonempty(ls.drop_last());
        if trim(ls.last()).len() == 0 {
            prev
        } else {
            prev.push(trim(ls.last()))
        }
    }
}

/// A message's summary (its first non-empty line, trimmed) and its details
/// (the other non-empty lines, trimmed, one per line), when it has some.
pub open spec fn message_parts(message: Seq<char>) -> (Seq<char>, Option<Seq<char>>) {
    let ls = trimmed_nonempty(str_lines(message));
    (
        if ls.len() > 0 {
            ls[0]
        } else {
            Seq::empty()
        },
        if ls.len() > 1 {
            Some(join_seq(ls.skip(1), seq!['\n']))
        } else {
            None
        },
    )
}

/// The lines of `message`, trimmed, without the empty ones.
fn kept_lines(message: &str) -> (kept: Vec<String>)
    ensures
        views(kept@) == trimmed_nonempty(str_lines(message@)),
{
    let lines = split_lines(message);
    let ghost ls = views(lines@);
    let mut kept: Vec<String> = Vec::new();
    let mut i: usize = 0;
    while i < lines.len()
        invariant
            i <= lines@.len(),
            ls == views(lines@),
            views(kept@) == trimmed_nonempty(ls.take(i as int)),
        decreases lines.len() - i,
    {
        assert(ls.take(i + 1).drop_last() =~= ls.take(i as int));
        assert(ls.take(i + 1).last() == lines@[i as int]@);
        let t = trim_str(lines[i].as_str());
        if t.unicode_len() > 0 {
            let ghost before = views(kept@);
            kept.push(t);
            assert(views(kept@) =~= before.push(t@));
        }
        i = i + 1;
    }
    assert(ls.take(lines@.len() as int) =~= ls);
    kept
}

/// Splits a message into its summary line and its details.
pub fn usage_message_parts(message: &str) -> (r: (String, Option<String>))
    ensures
        r.0@ == message_parts(message@).0,
        match r.1 {
            Some(d) => message_parts(message@).1 == Some(d@),
            None => message_parts(message@).1 is None,
        },
{
    let kept = kept_lines(message);
    let summary = if kept.len() > 0 {
        kept[0].clone()
    } else {
        String::new()
    };
    let detail = if kept.len() > 1 {
        let mut rest: Vec<String> = Vec::new();
        let mut k: usize = 1;
        while k < kept.len()
            invariant
                1 <= k <= kept@.len(),
                views(rest@) == views(kept@).subrange(1, k as int),
            decreases kept.len() - k,
        {
            let ghost before = views(rest@);
            rest.push(kept[k].clone());
            assert(views(rest@) =~= before.push(kept@[k as int]@));
            assert(views(kept@).subrange(1, k + 1) =~= views(kept@).subrange(1, k as int).push(kept@[k as int]@));
            k = k + 1;
        }
        assert(views(kept@).subrange(1, kept@.len() as int) =~= views(kept@).skip(1));
        let joined = join_strings(&rest, "\n");
        proof {
            reveal_strlit("\n");
            assert("\n"@ =~= seq!['\n']);
        }
        Some(joined)
    } else {
        None
    };
    (summary, detail)
}

/// The detail lines of a message (its non-empty lines after the summary,
/// trimmed), each indented by six spaces.
pub open spec fn indented_details(message: Seq<char>) -> Seq<Seq<char>> {
    let ls = trimmed_nonempty(str_lines(message));
    if ls.len() > 1 {
        Seq::new((ls.len() - 1) as nat, |k: int| "      "@ + ls[k + 1])
    } else {
        Seq::empty()
    }
}

/// What a "usage unavailable" block shows of a message: its summary line,
/// and its detail lines indented under it.
pub fn unavailable_parts(message: &str) -> (r: (String, Vec<String>))
    ensures
        r.0@ == message_parts(message@).0,
        views(r.1@) == indented_details(message@),
{
    let kept = kept_lines(message);
    let summary = if kept.len() > 0 {
        kept[0].clone()
    } else {
        String::new()
    };
    let ghost ls = views(kept@);
    let mut rest: Vec<String> = Vec::new();
    let mut k: usize = 1;
    while k < kept.len()
        invariant
            1 <= k,
            ls == views(kept@),
            k <= kept@.len() || kept@.len() == 0,
            kept@.len() <= 1 ==> k == 1,
            views(rest@) == Seq::new((k - 1) as nat, |j: int| "      "@ + ls[j + 1]),
        decreases kept.len() - k,
    {
        let mut line = String::from_str("      ");
        line.append(kept[k].as_str());
        assert(line@ == "      "@ + ls[k as int]);
        let ghost before = views(rest@);
        rest.push(line);
        assert(views(rest@) =~= before.push(line@));
        assert(views(rest@) =~= Seq::new(k as nat, |j: int| "      "@ + ls[j + 1]));
        k = k + 1;
    }
    proof {
        if ls.len() <= 1 {
            assert(views(rest@) =~= Seq::<Seq<char>>::empty());
        } else {
            assert(views(rest@) =~= indented_details(message@));
        }
    }
    (summary, rest)
}

/// `<label>: <summary of message>`.
pub open spec fn summary_line(label: Seq<char>, message: Seq<char>) -> Seq<char> {
    label + seq![':', ' '] + message_parts(message).0
}

/// The one-line summary of an error under a heading.
pub fn error_summary(label: &str, message: &str) -> (s: String)
    ensures
        s@ == summary_line(label@, message@),
{
    let (summary, _) = usage_message_parts(message);
    let mut s = String::from_str(label);
    push_char(&mut s, ':');
    push_char(&mut s, ' ');
    s.append(summary.as_str());
    assert(s@ =~= summary_line(label@, message@));
    s
}

/// `t` occurs in `s`.
pub open spec fn contains_text(s: Seq<char>, t: Seq<char>) -> bool {
    exists|i: int| 0 <= i && i + t.len() <= s.len() && #[trigger] s.subrange(i, i + t.len()) == t
}

/// Whether `t` occurs in `s`.
fn text_contains(s: &Vec<char>, t: &Vec<char>) -> (b: bool)
    ensures
        b == contains_text(s@, t@),
{
    if t.len() > s.len() {
        return false;
    }
    let mut i: usize = 0;
    while i <= s.len() - t.len()
        invariant
            t@.len() <= s@.len(),
            i <= s@.len() - t@.len() + 1,
            forall|j: int| 0 <= j < i ==> #[trigger] s@.subrange(j, j + t@.len()) != t@,
        decreases s.len() - i,
    {
        let mut k: usize = 0;
        let mut same = true;
        while k < t.len()
            invariant
                k <= t@.len(),
                t@.len() <= s@.len(),
                s@.len() <= usize::MAX,
                i <= s@.len() - t@.len(),
                same == forall|q: int| 0 <= q < k ==> s@[i + q] == t@[q],
            decreases t.len() - k,
        {
            let idx: usize = i + k;
            if s[idx] != t[k] {
                same = false;
            }
            k = k + 1;
        }
        if same {
            assert(s@.subrange(i as int, i + t@.len()) =~= t@);
            return true;
        }
        assert(s@.subrange(i as int, i + t@.len()) != t@) by {
            let q = choose|q: int| 0 <= q < t@.len() && s@[i + q] != t@[q];
            assert(s@.subrange(i as int, i + t@.len())[q] == s@[i + q]);
        }
        i = i + 1;
    }
    false
}

/// A message that tells of an HTTP 401: it holds `(401)` or `unauthorized`,
/// in any ASCII case.
pub open spec fn is_401_message(message: Seq<char>) -> bool {
    contains_text(lower_seq(message), "(401)"@) || contains_text(lower_seq(message), "unauthorized"@)
}

/// Whether a message tells of an HTTP 401.
pub fn is_http_401_message(message: &str) -> (b: bool)
    ensures
        b == is_401_message(message@),
{
    let lower = to_chars(to_ascii_lowercase(message).as_str());
    let a = to_chars("(401)");
    let u = to_chars("unauthorized");
    text_contains(&lower, &a) || text_contains(&lower, &u)
}

/// An interactive command needs a terminal; refused without one.
pub fn require_tty_with(is_tty: bool, action: &str) -> (r: Result<(), ProfileError>)
    ensures
        is_tty ==> r is Ok,
        !is_tty ==> (r matches Err(ProfileError::TtyRequired(a)) && a@ == action@),
{
    if is_tty {
        Ok(())
    } else {
        Err(ProfileError::TtyRequired(String::from_str(action)))
    }
}

} // verus!

verus! {

/// `s` starts with `p`.
pub open spec fn starts_with(s: Seq<char>, p: Seq<char>) -> bool {
    p.len() <= s.len() && s.take(p.len() as int) == p
}

/// Whether `s` starts with `p`.
fn text_starts_with(s: &Vec<char>, p: &Vec<char>) -> (b: bool)
    ensures
        b == starts_with(s@, p@),
{
    if p.len() > s.len() {
        return false;
    }
    let mut k: usize = 0;
    while k < p.len()
        invariant
            p@.len() <= s@.len(),
            k <= p@.len(),
            forall|q: int| 0 <= q < k ==> s@[q] == p@[q],
        decreases p.len() - k,
    {
        if s[k] != p[k] {
            assert(s@.take(p@.len() as int)[k as int] != p@[k as int]);
            return false;
        }
        k = k + 1;
    }
    assert(s@.take(p@.len() as int) =~= p@);
    true
}

/// Whether the second line of an error is a status line merged into the
/// first.
pub open spec fn merges_status(ls: Seq<Seq<char>>) -> bool {
    ls.len() > 1 && starts_with(trim(ls[1]), "unexpected status "@)
}

/// The plain lines of an error message: `Error: ` and its first line (with
/// an `unexpected status ...` second line put in brackets after it), then
/// the other lines, each after the first indented by one space.
pub open spec fn error_lines(message: Seq<char>) -> Seq<Seq<char>> {
    let ls = str_lines(message);
    if ls.len() == 0 {
        Seq::empty()
    } else {
        let merged = merges_status(ls);
        let headline = if merged {
            ls[0] + " ("@ + trim(ls[1]) + ")"@
        } else {
            ls[0]
        };
        let tail = if merged {
            ls.skip(2)
        } else {
            ls.skip(1)
        };
        seq!["Error: "@ + headline] + Seq::new(
            tail.len(),
            |k: int| if !merged && k == 0 {
                tail[0]
            } else {
                " "@ + tail[k]
            },
        )
    }
}

/// The lines of an error message as shown, the indented ones dimmed when
/// `use_color` holds.
pub fn plain_error_lines(message: &str, use_color: bool) -> (out: Vec<String>)
    ensures
        out@.len() == error_lines(message@).len(),
        forall|k: int|
            0 <= k < out@.len() && use_color && !contains_reset(#[trigger] error_lines(message@)[k])
                ==> out@[k]@ == error_lines(message@)[k] || out@[k]@ == dim_start() + error_lines(
                message@,
            )[k] + style_reset(),
        !use_color ==> views(out@) == error_lines(message@),
{
    let lines = split_lines(message);
    let ghost ls = views(lines@);
    let mut out: Vec<String> = Vec::new();
    if lines.len() == 0 {
        assert(views(out@) =~= error_lines(message@));
        return out;
    }
    let mut merged = false;
    let mut headline = lines[0].clone();
    if lines.len() > 1 {
        let second = trim_str(lines[1].as_str());
        let sc = to_chars(second.as_str());
        let prefix = to_chars("unexpected status ");
        if text_starts_with(&sc, &prefix) {
            headline.append(" (");
            headline.append(second.as_str());
            headline.append(")");
            merged = true;
        }
    }
    assert(merged == merges_status(ls));
    let mut first = String::from_str("Error: ");
    first.append(headline.as_str());
    out.push(first);
    let ghost expected = error_lines(message@);
    let start: usize = if merged {
        2
    } else {
        1
    };
    let mut i: usize = start;
    while i < lines.len()
        invariant
            start <= i <= lines@.len(),
            ls == views(lines@),
            expected == error_lines(message@),
            ls == str_lines(message@),
            ls.len() > 0,
            merged == merges_status(ls),
            start == (if merged {
                2int
            } else {
                1int
            }),
            out@.len() == 1 + i - start,
            expected.len() == 1 + ls.len() - start,
            forall|k: int|
                0 <= k < out@.len() && use_color && !contains_reset(#[trigger] expected[k]) ==> out@[k]@
                    == expected[k] || out@[k]@ == dim_start() + expected[k] + style_reset(),
            !use_color ==> forall|k: int| 0 <= k < out@.len() ==> #[trigger] out@[k]@ == expected[k],
        decreases lines.len() - i,
    {
        let k: usize = i - start;
        let ghost tail = ls.skip(start as int);
        assert(tail[k as int] == lines@[i as int]@);
        if !merged && k == 0 {
            out.push(lines[i].clone());
            assert(expected[1 + k] == tail[0]);
        } else {
            let mut text = String::from_str(" ");
            text.append(lines[i].as_str());
            assert(expected[1 + k] == " "@ + tail[k as int]);
            let shown = style_dimmed(text.as_str(), use_color);
            out.push(shown);
        }
        i = i + 1;
    }
    proof {
        assert(views(out@).len() == expected.len());
        if !use_color {
            assert forall|k: int| 0 <= k < expected.len() implies views(out@)[k] == expected[k] by {
                assert(out@[k]@ == expected[k]);
            }
            assert(views(out@) =~= expected);
        }
    }
    out
}

} // verus!
