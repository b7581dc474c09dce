//! Character-level string helpers with their specifications.
use vstd::prelude::*;

verus! {

/// Appends one character to a string (std `String::push`).
/// Trusted: the string afterwards reads as before followed by `c`.
#[verifier::external_body]
pub(crate) fn push_char(s: &mut String, c: char)
    ensures
        final(s)@ == old(s)@.push(c),
{
    s.push(c);
}

/// The characters of `s`, in order.
pub fn to_chars(s: &str) -> (out: Vec<char>)
    ensures
        out@ == s@,
{
    let n = s.unicode_len();
    let mut out: Vec<char> = Vec::new();
    let mut i: usize = 0;
    while i < n
        invariant
            n == s@.len(),
            i <= n,
            out@ == s@.subrange(0, i as int),
        decreases n - i,
    {
        let c = s.get_char(i);
        out.push(c);
        i = i + 1;
    }
    out
}

/// The string made of the characters `cs[from..to]`.
pub fn from_chars_range(cs: &[char], from: usize, to: usize) -> (out: String)
    requires
        from <= to <= cs@.len(),
    ensures
        out@ == cs@.subrange(from as int, to as int),
{
    let mut out = String::new();
    let mut i: usize = from;
    while i < to
        invariant
            from <= i <= to,
            to <= cs@.len(),
            out@ == cs@.subrange(from as int, i as int),
        decreases to - i,
    {
        push_char(&mut out, cs[i]);
        i = i + 1;
    }
    out
}

/// The string made of all the characters `cs`.
pub fn from_chars(cs: &[char]) -> (out: String)
    ensures
        out@ == cs@,
{
    let out = from_chars_range(cs, 0, cs.len());
    assert(cs@.subrange(0, cs@.len() as int) =~= cs@);
    out
}

} // verus!

verus! {

/// `char::is_whitespace`: the Unicode `White_Space` property.
pub open spec fn is_ws(c: char) -> bool {
    let u = c as u32;
    ||| 0x09 <= u <= 0x0D
    ||| u == 0x20
    ||| u == 0x85
    ||| u == 0xA0
    ||| u == 0x1680
    ||| 0x2000 <= u <= 0x200A
    ||| u == 0x2028
    ||| u == 0x2029
    ||| u == 0x202F
    ||| u == 0x205F
    ||| u == 0x3000
}

/// Whether `c` is whitespace in the sense of `char::is_whitespace`.
pub fn char_is_ws(c: char) -> (b: bool)
    ensures
        b == is_ws(c),
{
    let u = c as u32;
    (0x09 <= u && u <= 0x0D) || u == 0x20 || u == 0x85 || u == 0xA0 || u == 0x1680 || (0x2000
        <= u && u <= 0x200A) || u == 0x2028 || u == 0x2029 || u == 0x202F || u == 0x205F || u
        == 0x3000
}

/// `s` without its leading whitespace.
pub open spec fn trim_start(s: Seq<char>) -> Seq<char>
    decreases s.len(),
{
    if s.len() > 0 && is_ws(s[0]) {
        trim_start(s.drop_first())
    } else {
        s
    }
}

/// `s` without its trailing whitespace.
pub open spec fn trim_end(s: Seq<char>) -> Seq<char>
    decreases s.len(),
{
    if s.len() > 0 && is_ws(s.last()) {
        trim_end(s.drop_last())
    } else {
        s
    }
}

/// `str::trim`: `s` without leading and trailing whitespace.
pub open spec fn trim(s: Seq<char>) -> Seq<char> {
    trim_end(trim_start(s))
}

/// The bounds `(from, to)` of the trimmed part of `cs`.
pub fn trim_bounds(cs: &[char]) -> (r: (usize, usize))
    ensures
        r.0 <= r.1 <= cs@.len(),
        cs@.subrange(r.0 as int, r.1 as int) == trim(cs@),
{
    let n = cs.len();
    let mut i: usize = 0;
    assert(cs@.subrange(0, n as int) =~= cs@);
    while i < n && char_is_ws(cs[i])
        invariant
            i <= n == cs@.len(),
            trim_start(cs@) == trim_start(cs@.subrange(i as int, n as int)),
        decreases n - i,
    {
        assert(cs@.subrange(i as int, n as int).drop_first() =~= cs@.subrange(
            i + 1,
            n as int,
        ));
        i = i + 1;
    }
    assert(trim_start(cs@.subrange(i as int, n as int)) == cs@.subrange(i as int, n as int));
    let mut j: usize = n;
    while j > i && char_is_ws(cs[j - 1])
        invariant
            i <= j <= n == cs@.len(),
            trim(cs@) == trim_end(cs@.subrange(i as int, j as int)),
        decreases j,
    {
        assert(cs@.subrange(i as int, j as int).drop_last() =~= cs@.subrange(
            i as int,
            j - 1,
        ));
        j = j - 1;
    }
    (i, j)
}

/// `str::trim` as an owned string.
pub fn trim_str(s: &str) -> (out: String)
    ensures
        out@ == trim(s@),
{
    let cs = to_chars(s);
    let (a, b) = trim_bounds(cs.as_slice());
    from_chars_range(cs.as_slice(), a, b)
}

/// Lexicographic order on character sequences. It is the order of Rust's
/// `Ord for str`, since UTF-8 keeps the order of code points.
pub open spec fn seq_lt(a: Seq<char>, b: Seq<char>) -> bool
    decreases a.len(),
{
    if a.len() == 0 {
        b.len() > 0
    } else if b.len() == 0 {
        false
    } else if a[0] != b[0] {
        a[0] < b[0]
    } else {
        seq_lt(a.drop_first(), b.drop_first())
    }
}

/// `seq_lt` is a strict total order.
pub proof fn lemma_seq_lt_strict_total(a: Seq<char>, b: Seq<char>)
    ensures
        !(seq_lt(a, b) && seq_lt(b, a)),
        a != b ==> seq_lt(a, b) || seq_lt(b, a),
        !seq_lt(a, a),
    decreases a.len(),
{
    if a.len() > 0 && b.len() > 0 {
        lemma_seq_lt_strict_total(a.drop_first(), b.drop_first());
        if a[0] == b[0] && a != b {
            assert(a.drop_first() != b.drop_first()) by {
                if a.drop_first() == b.drop_first() {
                    assert(a =~= seq![a[0]] + a.drop_first());
                    assert(b =~= seq![b[0]] + b.drop_first());
                }
            }
        }
    }
    if a.len() > 0 {
        lemma_seq_lt_strict_total(a.drop_first(), a.drop_first());
    }
    if a.len() == 0 && b.len() == 0 {
        assert(a =~= b);
    }
}

/// `seq_lt` is transitive.
pub proof fn lemma_seq_lt_transitive(a: Seq<char>, b: Seq<char>, c: Seq<char>)
    requires
        seq_lt(a, b),
        seq_lt(b, c),
    ensures
        seq_lt(a, c),
    decreases a.len(),
{
    if a.len() > 0 && b.len() > 0 && c.len() > 0 && a[0] == b[0] && b[0] == c[0] {
        lemma_seq_lt_transitive(a.drop_first(), b.drop_first(), c.drop_first());
    }
}

/// Whether `a` comes strictly before `b` in lexicographic order.
pub fn chars_lt(a: &[char], b: &[char]) -> (r: bool)
    ensures
        r == seq_lt(a@, b@),
{
    let mut i: usize = 0;
    assert(a@.skip(0) =~= a@);
    assert(b@.skip(0) =~= b@);
    while i < a.len() && i < b.len() && a[i] == b[i]
        invariant
            i <= a@.len(),
            i <= b@.len(),
            seq_lt(a@, b@) == seq_lt(a@.skip(i as int), b@.skip(i as int)),
        decreases a.len() - i,
    {
        assert(a@.skip(i as int).drop_first() =~= a@.skip(i + 1));
        assert(b@.skip(i as int).drop_first() =~= b@.skip(i + 1));
        i = i + 1;
    }
    if i == a.len() {
        i < b.len()
    } else if i == b.len() {
        false
    } else {
        assert(a@.skip(i as int)[0] == a@[i as int]);
        assert(b@.skip(i as int)[0] == b@[i as int]);
        a[i] < b[i]
    }
}

/// Whether `a` comes strictly before `b` in the order of `Ord for str`.
pub fn str_lt(a: &str, b: &str) -> (r: bool)
    ensures
        r == seq_lt(a@, b@),
{
    let ca = to_chars(a);
    let cb = to_chars(b);
    chars_lt(ca.as_slice(), cb.as_slice())
}

/// Whether two strings hold the same characters.
pub fn str_eq(a: &str, b: &str) -> (r: bool)
    ensures
        r == (a@ == b@),
{
    let ca = to_chars(a);
    let cb = to_chars(b);
    if ca.len() != cb.len() {
        return false;
    }
    let mut i: usize = 0;
    while i < ca.len()
        invariant
            ca@ == a@,
            cb@ == b@,
            ca@.len() == cb@.len(),
            i <= ca@.len(),
            forall|k: int| 0 <= k < i ==> ca@[k] == cb@[k],
        decreases ca.len() - i,
    {
        if ca[i] != cb[i] {
            return false;
        }
        i = i + 1;
    }
    assert(ca@ =~= cb@);
    true
}

} // verus!

verus! {

/// `char::to_ascii_lowercase`.
pub open spec fn lower_char(c: char) -> char {
    if 'A' <= c <= 'Z' {
        (c as int + 32) as char
    } else {
        c
    }
}

/// `str::to_ascii_lowercase`.
pub open spec fn lower_seq(s: Seq<char>) -> Seq<char> {
    s.map_values(|c: char| lower_char(c))
}

/// The lower-case form of an ASCII letter, any other character itself.
fn char_to_ascii_lowercase(c: char) -> (r: char)
    ensures
        'A' <= c <= 'Z' ==> r as int == c as int + 32,
        !('A' <= c <= 'Z') ==> r == c,
{
    if 'A' <= c && c <= 'Z' {
        let b: u8 = c as u8;
        let lower: u8 = b + 32;
        lower as char
    } else {
        c
    }
}

/// `str::to_ascii_lowercase` on the characters of `s`.
pub fn to_ascii_lowercase(s: &str) -> (out: String)
    ensures
        out@ == lower_seq(s@),
{
    let cs = to_chars(s);
    let mut out = String::new();
    let mut i: usize = 0;
    while i < cs.len()
        invariant
            cs@ == s@,
            i <= cs@.len(),
            out@ == lower_seq(s@.subrange(0, i as int)),
        decreases cs.len() - i,
    {
        let c = char_to_ascii_lowercase(cs[i]);
        proof {
            if 'A' <= cs@[i as int] <= 'Z' {
                assert(c == (cs@[i as int] as int + 32) as char);
            }
        }
        push_char(&mut out, c);
        assert(lower_seq(s@.subrange(0, i + 1)) =~= lower_seq(s@.subrange(0, i as int)).push(c));
        i = i + 1;
    }
    assert(s@.subrange(0, cs@.len() as int) =~= s@);
    out
}

/// The decimal digit character for `d < 10`.
pub open spec fn digit_char(d: int) -> char {
    if d == 0 {
        '0'
    } else if d == 1 {
        '1'
    } else if d == 2 {
        '2'
    } else if d == 3 {
        '3'
    } else if d == 4 {
        '4'
    } else if d == 5 {
        '5'
    } else if d == 6 {
        '6'
    } else if d == 7 {
        '7'
    } else if d == 8 {
        '8'
    } else {
        '9'
    }
}

/// The decimal representation of `n`, without leading zeros (as `Display`
/// writes integers).
pub open spec fn decimal(n: nat) -> Seq<char>
    decreases n,
{
    if n < 10 {
        seq![digit_char(n as int)]
    } else {
        decimal(n / 10).push(digit_char((n % 10) as int))
    }
}

fn digit(d: u64) -> (c: char)
    requires
        d < 10,
    ensures
        c == digit_char(d as int),
{
    if d == 0 {
        '0'
    } else if d == 1 {
        '1'
    } else if d == 2 {
        '2'
    } else if d == 3 {
        '3'
    } else if d == 4 {
        '4'
    } else if d == 5 {
        '5'
    } else if d == 6 {
        '6'
    } else if d == 7 {
        '7'
    } else if d == 8 {
        '8'
    } else {
        '9'
    }
}

/// The decimal text of `n`, as `n.to_string()` gives it.
pub fn u64_to_decimal(n: u64) -> (out: String)
    ensures
        out@ == decimal(n as nat),
    decreases n,
{
    if n < 10 {
        let mut out = String::new();
        push_char(&mut out, digit(n));
        assert(out@ =~= seq![digit_char(n as int)]);
        out
    } else {
        let mut out = u64_to_decimal(n / 10);
        push_char(&mut out, digit(n % 10));
        out
    }
}

} // verus!

verus! {

/// The characters of each string in `v`.
pub open spec fn views(v: Seq<String>) -> Seq<Seq<char>> {
    v.map_values(|s: String| s@)
}

/// Whether one of the strings in `v` holds the characters of `s`.
pub fn vec_contains_str(v: &Vec<String>, s: &str) -> (b: bool)
    ensures
        b == views(v@).contains(s@),
{
    let mut i: usize = 0;
    while i < v.len()
        invariant
            i <= v@.len(),
            forall|j: int| 0 <= j < i ==> v@[j]@ != s@,
        decreases v.len() - i,
    {
        if str_eq(v[i].as_str(), s) {
            assert(views(v@)[i as int] == s@);
            return true;
        }
        i = i + 1;
    }
    assert(!views(v@).contains(s@)) by {
        if views(v@).contains(s@) {
            let j = choose|j: int| 0 <= j < views(v@).len() && views(v@)[j] == s@;
            assert(v@[j]@ == s@);
        }
    }
    false
}

} // verus!

verus! {

/// The strings `parts` joined by `sep` (`[String]::join`).
pub open spec fn join_seq(parts: Seq<Seq<char>>, sep: Seq<char>) -> Seq<char>
    decreases parts.len(),
{
    if parts.len() == 0 {
        Seq::empty()
    } else if parts.len() == 1 {
        parts[0]
    } else {
        join_seq(parts.drop_last(), sep) + sep + parts.last()
    }
}

/// `parts.join(sep)`.
pub fn join_strings(parts: &Vec<String>, sep: &str) -> (out: String)
    ensures
        out@ == join_seq(views(parts@), sep@),
{
    let mut out = String::new();
    let mut i: usize = 0;
    while i < parts.len()
        invariant
            i <= parts@.len(),
            out@ == join_seq(views(parts@).take(i as int), sep@),
        decreases parts.len() - i,
    {
        assert(views(parts@).take(i + 1).drop_last() =~= views(parts@).take(i as int));
        if i > 0 {
            out.append(sep);
        }
        out.append(parts[i].as_str());
        proof {
            if i == 0 {
                assert(out@ =~= views(parts@).take(1)[0]);
            }
        }
        i = i + 1;
    }
    assert(views(parts@).take(parts@.len() as int) =~= views(parts@));
    out
}

} // verus!

verus! {

/// Each string comes strictly before the next.
pub open spec fn strictly_sorted(s: Seq<Seq<char>>) -> bool {
    forall|i: int, j: int| 0 <= i < j < s.len() ==> seq_lt(#[trigger] s[i], #[trigger] s[j])
}

/// Puts `x` in its place in a strictly sorted list that lacks it.
pub fn insert_sorted(v: &mut Vec<String>, x: String)
    requires
        strictly_sorted(views(old(v)@)),
        !views(old(v)@).contains(x@),
    ensures
        strictly_sorted(views(final(v)@)),
        views(final(v)@).to_set() == views(old(v)@).to_set().insert(x@),
        final(v)@.len() == old(v)@.len() + 1,
{
    let ghost old_v = views(v@);
    let mut p: usize = 0;
    while p < v.len() && !str_lt(x.as_str(), v[p].as_str())
        invariant
            p <= v@.len(),
            old_v == views(v@),
            strictly_sorted(old_v),
            !old_v.contains(x@),
            forall|k: int| 0 <= k < p ==> seq_lt(old_v[k], x@),
        decreases v.len() - p,
    {
        proof {
            lemma_seq_lt_strict_total(x@, old_v[p as int]);
            assert(old_v[p as int] != x@);
        }
        p = p + 1;
    }
    let ghost xv = x@;
    v.insert(p, x);
    proof {
        let nv = views(v@);
        assert(nv =~= old_v.insert(p as int, xv));
        assert forall|i: int, j: int| 0 <= i < j < nv.len() implies seq_lt(#[trigger] nv[i], #[trigger] nv[j]) by {
            if j < p {
            } else if j == p {
                assert(nv[i] == old_v[i]);
            } else if i == p {
                assert(nv[j] == old_v[j - 1]);
                if j - 1 > p {
                    assert(seq_lt(old_v[p as int], old_v[j - 1]));
                    lemma_seq_lt_transitive(xv, old_v[p as int], old_v[j - 1]);
                }
            } else if i < p {
                assert(nv[i] == old_v[i]);
                assert(nv[j] == old_v[j - 1]);
            } else {
                assert(nv[i] == old_v[i - 1]);
                assert(nv[j] == old_v[j - 1]);
            }
        }
        assert(nv.to_set() =~= old_v.to_set().insert(xv)) by {
            assert forall|s: Seq<char>| nv.to_set().contains(s) <==> old_v.to_set().insert(xv).contains(s) by {
                if nv.contains(s) {
                    let i = choose|i: int| 0 <= i < nv.len() && nv[i] == s;
                    if i < p {
                        assert(old_v[i] == s);
                    } else if i > p {
                        assert(old_v[i - 1] == s);
                    }
                }
                if old_v.contains(s) {
                    let i = choose|i: int| 0 <= i < old_v.len() && old_v[i] == s;
                    if i < p {
                        assert(nv[i] == s);
                    } else {
                        assert(nv[i + 1] == s);
                    }
                }
                if s == xv {
                    assert(nv[p as int] == s);
                }
            }
        }
    }
}

} // verus!

verus! {

/// `trim_start` leaves text that starts with a non-whitespace character.
pub proof fn lemma_trim_start_first(s: Seq<char>)
    ensures
        trim_start(s).len() == 0 || !is_ws(trim_start(s)[0]),
        trim_start(s).len() <= s.len(),
        trim_start(s) == s.skip(s.len() - trim_start(s).len()),
    decreases s.len(),
{
    if s.len() > 0 && is_ws(s[0]) {
        lemma_trim_start_first(s.drop_first());
        assert(s.drop_first().skip(s.drop_first().len() - trim_start(s.drop_first()).len()) =~= s.skip(
            s.len() - trim_start(s).len(),
        ));
    } else {
        assert(s.skip(0) =~= s);
    }
}

/// `trim_end` keeps a prefix of the text, ending with a non-whitespace
/// character.
pub proof fn lemma_trim_end_last(s: Seq<char>)
    ensures
        trim_end(s).len() == 0 || !is_ws(trim_end(s).last()),
        trim_end(s).len() <= s.len(),
        trim_end(s) == s.take(trim_end(s).len() as int),
    decreases s.len(),
{
    if s.len() > 0 && is_ws(s.last()) {
        lemma_trim_end_last(s.drop_last());
        assert(s.drop_last().take(trim_end(s.drop_last()).len() as int) =~= s.take(trim_end(s).len() as int));
    } else {
        assert(s.take(s.len() as int) =~= s);
    }
}

/// Text without leading whitespace keeps none once its end is trimmed.
proof fn lemma_trim_end_keeps_start(s: Seq<char>)
    requires
        s.len() == 0 || !is_ws(s[0]),
    ensures
        trim_start(trim_end(s)) == trim_end(s),
{
    lemma_trim_end_last(s);
    let t = trim_end(s);
    if t.len() > 0 {
        assert(t[0] == s[0]);
    }
}

/// Text ending in non-whitespace is kept by `trim_end`.
proof fn lemma_trim_end_fixed(s: Seq<char>)
    requires
        s.len() == 0 || !is_ws(s.last()),
    ensures
        trim_end(s) == s,
{
}

/// Text starting with non-whitespace is kept by `trim_start`.
proof fn lemma_trim_start_fixed(s: Seq<char>)
    requires
        s.len() == 0 || !is_ws(s[0]),
    ensures
        trim_start(s) == s,
{
}

/// Trimming twice is trimming once.
pub proof fn lemma_trim_idempotent(s: Seq<char>)
    ensures
        trim(trim(s)) == trim(s),
{
    let a = trim_start(s);
    lemma_trim_start_first(s);
    let b = trim_end(a);
    lemma_trim_end_keeps_start(a);
    lemma_trim_end_last(a);
    if b.len() > 0 {
        assert(b[0] == a[0]);
    }
    lemma_trim_start_fixed(b);
    lemma_trim_end_fixed(b);
}

} // verus!
