//! Splitting an error summary that embeds a JSON object (a server's reply)
//! into its text and the object. Positions count characters.
use vstd::prelude::*;

use crate::json_response::{json_shape, json_value, parse_json_value};
use crate::text::{from_chars, from_chars_range, push_char, to_chars};

verus! {

/// Where the JSON object that opens at `i` ends, scanning `t` from `i` with
/// the given nesting depth and string state: the position just after the
/// brace that closes depth one. Braces inside strings do not count, and a
/// backslash in a string escapes the next character. `None` when a closing
/// brace comes at depth zero or the text ends first.
pub open spec fn scan_end(t: Seq<char>, i: int, depth: nat, in_string: bool, escaped: bool) -> Option<int>
    decreases t.len() - i,
{
    if i < 0 || i >= t.len() {
        None
    } else {
        let c = t[i];
        if in_string {
            if escaped {
                scan_end(t, i + 1, depth, true, false)
            } else if c == '\\' {
                scan_end(t, i + 1, depth, true, true)
            } else if c == '"' {
                scan_end(t, i + 1, depth, false, false)
            } else {
                scan_end(t, i + 1, depth, true, false)
            }
        } else if c == '"' {
            scan_end(t, i + 1, depth, true, false)
        } else if c == '{' {
            scan_end(t, i + 1, depth + 1, false, false)
        } else if c == '}' {
            if depth == 0 {
                None
            } else if depth == 1 {
                Some(i + 1)
            } else {
                scan_end(t, i + 1, (depth - 1) as nat, false, false)
            }
        } else {
            scan_end(t, i + 1, depth, false, false)
        }
    }
}

/// The end of the JSON object that starts at `start`.
pub open spec fn object_end(t: Seq<char>, start: int) -> Option<int> {
    scan_end(t, start, 0, false, false)
}

/// `scan_end` never answers a position before its start or past the text.
pub proof fn lemma_scan_end_bounds(t: Seq<char>, i: int, depth: nat, in_string: bool, escaped: bool)
    ensures
        scan_end(t, i, depth, in_string, escaped) matches Some(e) ==> i < e <= t.len(),
    decreases t.len() - i,
{
    if 0 <= i < t.len() {
        lemma_scan_end_bounds(t, i + 1, depth, true, false);
        lemma_scan_end_bounds(t, i + 1, depth, true, true);
        lemma_scan_end_bounds(t, i + 1, depth, false, false);
        lemma_scan_end_bounds(t, i + 1, depth + 1, false, false);
        if depth > 0 {
            lemma_scan_end_bounds(t, i + 1, (depth - 1) as nat, false, false);
        }
    }
}

/// The position just after the JSON object that starts at `start`.
pub fn find_json_object_end(text: &[char], start: usize) -> (r: Option<usize>)
    ensures
        match r {
            Some(e) => object_end(text@, start as int) == Some(e as int),
            None => object_end(text@, start as int) is None,
        },
{
    let mut depth: usize = 0;
    let mut in_string = false;
    let mut escaped = false;
    let mut i: usize = start;
    while i < text.len()
        invariant
            start <= i,
            depth <= i - start,
            !in_string ==> !escaped,
            object_end(text@, start as int) == scan_end(text@, i as int, depth as nat, in_string, escaped),
        decreases text.len() - i,
    {
        let c = text[i];
        if in_string {
            if escaped {
                escaped = false;
            } else if c == '\\' {
                escaped = true;
            } else if c == '"' {
                in_string = false;
            }
        } else if c == '"' {
            in_string = true;
        } else if c == '{' {
            depth = depth + 1;
        } else if c == '}' {
            if depth == 0 {
                return None;
            }
            depth = depth - 1;
            if depth == 0 {
                return Some(i + 1);
            }
        }
        i = i + 1;
    }
    None
}

/// `s` without the spaces and colons at its end.
pub open spec fn trim_end_space_colon(s: Seq<char>) -> Seq<char>
    decreases s.len(),
{
    if s.len() > 0 && (s.last() == ' ' || s.last() == ':') {
        trim_end_space_colon(s.drop_last())
    } else {
        s
    }
}

/// `s` without the commas and spaces at its start.
pub open spec fn trim_start_comma_space(s: Seq<char>) -> Seq<char>
    decreases s.len(),
{
    if s.len() > 0 && (s[0] == ',' || s[0] == ' ') {
        trim_start_comma_space(s.drop_first())
    } else {
        s
    }
}

/// The text around `t[start..end]`: what comes before it, without trailing
/// spaces and colons, and what follows it, without leading commas and
/// spaces, joined by ", " when both are left.
pub open spec fn strip_segment(t: Seq<char>, start: int, end: int) -> Seq<char> {
    let left = trim_end_space_colon(t.subrange(0, start));
    let right = trim_start_comma_space(t.subrange(end, t.len() as int));
    if left.len() == 0 {
        right
    } else if right.len() == 0 {
        left
    } else {
        left + ", "@ + right
    }
}

/// `text` with the segment `text[start..end]` cut out and the separators
/// around it dropped.
pub fn strip_embedded_json_segment(text: &[char], start: usize, end: usize) -> (out: String)
    requires
        start <= end <= text@.len(),
    ensures
        out@ == strip_segment(text@, start as int, end as int),
{
    let mut a: usize = start;
    assert(text@.subrange(0, a as int) =~= text@.subrange(0, start as int));
    while a > 0 && (text[a - 1] == ' ' || text[a - 1] == ':')
        invariant
            a <= start,
            start <= text@.len(),
            trim_end_space_colon(text@.subrange(0, start as int)) == trim_end_space_colon(
                text@.subrange(0, a as int),
            ),
        decreases a,
    {
        assert(text@.subrange(0, a as int).drop_last() =~= text@.subrange(0, a - 1));
        a = a - 1;
    }
    let mut b: usize = end;
    assert(text@.subrange(b as int, text@.len() as int) =~= text@.subrange(end as int, text@.len() as int));
    while b < text.len() && (text[b] == ',' || text[b] == ' ')
        invariant
            end <= b <= text@.len(),
            trim_start_comma_space(text@.subrange(end as int, text@.len() as int))
                == trim_start_comma_space(text@.subrange(b as int, text@.len() as int)),
        decreases text.len() - b,
    {
        assert(text@.subrange(b as int, text@.len() as int).drop_first() =~= text@.subrange(
            b + 1,
            text@.len() as int,
        ));
        b = b + 1;
    }
    let left = from_chars_range(text, 0, a);
    let right = from_chars_range(text, b, text.len());
    if a == 0 {
        assert(left@.len() == 0);
        return right;
    }
    if b == text.len() {
        return left;
    }
    let mut out = left;
    push_char(&mut out, ',');
    push_char(&mut out, ' ');
    out.append(right.as_str());
    assert(out@ =~= left@ + ", "@ + right@) by {
        reveal_strlit(", ");
    }
    out
}

/// The text of `t[start..end]` reads as JSON.
pub open spec fn json_at(t: Seq<char>, start: int, end: int) -> bool {
    json_shape(t.subrange(start, end)) is Some
}

/// A JSON object opens at `start`, is closed, and reads as JSON.
pub open spec fn embedded_object_at(t: Seq<char>, start: int) -> bool {
    &&& 0 <= start < t.len()
    &&& t[start] == '{'
    &&& object_end(t, start) matches Some(e) && json_at(t, start, e)
}

/// The first embedded JSON object of `summary`: where it starts, where it
/// ends, and its value.
pub fn extract_embedded_json_object(summary: &[char]) -> (r: Option<(usize, usize, serde_json::Value)>)
    ensures
        match r {
            Some((s, e, v)) => embedded_object_at(summary@, s as int) && object_end(summary@, s as int)
                == Some(e as int) && v == json_value(summary@.subrange(s as int, e as int)) && forall|k: int|
                0 <= k < s ==> !#[trigger] embedded_object_at(summary@, k),
            None => forall|k: int| 0 <= k < summary@.len() ==> !#[trigger] embedded_object_at(summary@, k),
        },
{
    let mut start: usize = 0;
    while start < summary.len()
        invariant
            start <= summary@.len(),
            forall|k: int| 0 <= k < start ==> !#[trigger] embedded_object_at(summary@, k),
        decreases summary.len() - start,
    {
        if summary[start] == '{' {
            match find_json_object_end(summary, start) {
                Some(end) => {
                    proof {
                        lemma_scan_end_bounds(summary@, start as int, 0, false, false);
                    }
                    let candidate = from_chars_range(summary, start, end);
                    match parse_json_value(candidate.as_str()) {
                        Ok(value) => {
                            return Some((start, end, value));
                        },
                        Err(_) => {},
                    }
                },
                None => {},
            }
        }
        start = start + 1;
    }
    None
}

/// An error summary split into its text and the JSON object it embedded.
#[derive(Debug)]
pub struct StatusErrorSummary {
    pub message: String,
    pub response: Option<serde_json::Value>,
}

/// Where the first embedded JSON object of `t` starts, when there is one.
pub open spec fn first_object_start(t: Seq<char>) -> Option<int> {
    if exists|k: int| 0 <= k < t.len() && #[trigger] embedded_object_at(t, k) {
        Some(
            choose|s: int|
                #[trigger] embedded_object_at(t, s) && forall|k: int|
                    0 <= k < s ==> !#[trigger] embedded_object_at(t, k),
        )
    } else {
        None
    }
}

/// The message of a summary: the text around its first embedded JSON
/// object, or the whole summary when it embeds none.
pub open spec fn summary_message(t: Seq<char>) -> Seq<char> {
    match first_object_start(t) {
        Some(s) => strip_segment(t, s, object_end(t, s)->0),
        None => t,
    }
}

/// The response of a summary: the value of its first embedded JSON object,
/// when it embeds one.
pub open spec fn summary_response(t: Seq<char>) -> Option<serde_json::Value> {
    match first_object_start(t) {
        Some(s) => Some(json_value(t.subrange(s, object_end(t, s)->0))),
        None => None,
    }
}

/// Two first positions of an embedded object are the same.
proof fn lemma_first_start_unique(t: Seq<char>, a: int, b: int)
    requires
        embedded_object_at(t, a),
        forall|k: int| 0 <= k < a ==> !#[trigger] embedded_object_at(t, k),
        embedded_object_at(t, b),
        forall|k: int| 0 <= k < b ==> !#[trigger] embedded_object_at(t, k),
    ensures
        a == b,
{
}

/// Splits `summary` at its first embedded JSON object: the message is the
/// text around it and the response is the object. A summary that embeds no
/// object is kept whole, with no response.
pub fn status_error_summary_json(summary: &str) -> (r: StatusErrorSummary)
    ensures
        r.message@ == summary_message(summary@),
        r.response == summary_response(summary@),
{
    let cs = to_chars(summary);
    match extract_embedded_json_object(cs.as_slice()) {
        None => {
            proof {
                assert(!exists|k: int| 0 <= k < summary@.len() && #[trigger] embedded_object_at(summary@, k));
            }
            StatusErrorSummary { message: from_chars(cs.as_slice()), response: None }
        },
        Some((start, end, value)) => {
            proof {
                lemma_scan_end_bounds(cs@, start as int, 0, false, false);
                assert(exists|k: int| 0 <= k < summary@.len() && #[trigger] embedded_object_at(summary@, k)) by {
                    assert(embedded_object_at(summary@, start as int));
                }
                let c = choose|s: int|
                    #[trigger] embedded_object_at(summary@, s) && forall|k: int|
                        0 <= k < s ==> !#[trigger] embedded_object_at(summary@, k);
                assert(embedded_object_at(summary@, start as int) && forall|k: int|
                    0 <= k < start ==> !#[trigger] embedded_object_at(summary@, k));
                lemma_first_start_unique(summary@, start as int, c);
            }
            let message = strip_embedded_json_segment(cs.as_slice(), start, end);
            StatusErrorSummary { message, response: Some(value) }
        },
    }
}

} // verus!
