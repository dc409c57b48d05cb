//! Reading text a character at a time: whitespace and trimming, finding
//! a character, splitting into lines, and the shapes of the numbers a
//! settings file carries. Each is stated as a function on the text's
//! characters and computed over a range of a character vector.

use vstd::prelude::*;

verus! {

/// Unicode's White_Space property, the characters `char::is_whitespace`
/// and `str::trim` treat as whitespace.
pub open spec fn is_ws(c: char) -> bool {
    let u = c as u32;
    (0x09 <= u && u <= 0x0d) || u == 0x20 || u == 0x85 || u == 0xa0 || u == 0x1680 || (0x2000 <= u && u <= 0x200a)
        || u == 0x2028 || u == 0x2029 || u == 0x202f || u == 0x205f || u == 0x3000
}

/// Whether `c` is whitespace.
pub fn ws(c: char) -> (r: bool)
    ensures
        r == is_ws(c),
{
    let u = c as u32;
    (0x09 <= u && u <= 0x0d) || u == 0x20 || u == 0x85 || u == 0xa0 || u == 0x1680 || (0x2000 <= u && u <= 0x200a)
        || u == 0x2028 || u == 0x2029 || u == 0x202f || u == 0x205f || u == 0x3000
}

/// `s` without its leading whitespace.
pub open spec fn trim_start(s: Seq<char>) -> Seq<char>
    decreases s.len(),
{
    if s.len() > 0 && is_ws(s[0]) {
        trim_start(s.drop_first())
    } else {
        s
    }
}

/// `s` without its trailing whitespace.
pub open spec fn trim_end(s: Seq<char>) -> Seq<char>
    decreases s.len(),
{
    if s.len() > 0 && is_ws(s.last()) {
        trim_end(s.drop_last())
    } else {
        s
    }
}

/// `s` without whitespace at either end.
pub open spec fn trim(s: Seq<char>) -> Seq<char> {
    trim_end(trim_start(s))
}

/// The characters `t[a..b]`.
pub open spec fn span(t: Seq<char>, a: int, b: int) -> Seq<char> {
    t.subrange(a, b)
}

/// `t[a..b]` trimmed, as a range of `t`.
pub fn trim_range(t: &Vec<char>, a: usize, b: usize) -> (r: (usize, usize))
    requires
        a <= b <= t@.len(),
    ensures
        a <= r.0 <= r.1 <= b,
        span(t@, r.0 as int, r.1 as int) == trim(span(t@, a as int, b as int)),
{
    let mut i = a;
    while i < b && ws(t[i])
        invariant
            a <= i <= b <= t@.len(),
            trim_start(span(t@, a as int, b as int)) == trim_start(span(t@, i as int, b as int)),
        decreases b - i,
    {
        assert(span(t@, i as int, b as int).drop_first() =~= span(t@, i + 1, b as int));
        i += 1;
    }
    assert(trim_start(span(t@, i as int, b as int)) == span(t@, i as int, b as int));
    let mut j = b;
    while j > i && ws(t[j - 1])
        invariant
            a <= i <= j <= b <= t@.len(),
            trim_end(span(t@, i as int, b as int)) == trim_end(span(t@, i as int, j as int)),
        decreases j - i,
    {
        assert(span(t@, i as int, j as int).drop_last() =~= span(t@, i as int, j - 1));
        j -= 1;
    }
    (i, j)
}

/// The first place `c` occurs in `s`, if it does.
pub open spec fn find(s: Seq<char>, c: char) -> Option<int>
    decreases s.len(),
{
    if s.len() == 0 {
        None
    } else if s[0] == c {
        Some(0)
    } else {
        match find(s.drop_first(), c) {
            Some(i) => Some(i + 1),
            None => None,
        }
    }
}

/// `find` by what it means: with no `c` before `j`, the first `c` is at
/// `j` if one stands there, and there is none when `j` is the end.
pub proof fn lemma_find(s: Seq<char>, c: char, j: int)
    requires
        0 <= j <= s.len(),
        forall|i: int| 0 <= i < j ==> s[i] != c,
    ensures
        j < s.len() && s[j] == c ==> find(s, c) == Some(j),
        j == s.len() ==> find(s, c) is None,
    decreases j,
{
    if j > 0 {
        let d = s.drop_first();
        assert forall|i: int| 0 <= i < j - 1 implies d[i] != c by {
            assert(d[i] == s[i + 1]);
        }
        lemma_find(d, c, j - 1);
    }
}

/// The first `c` in `t[a..b]`, as an index into `t`.
pub fn find_char(t: &Vec<char>, a: usize, b: usize, c: char) -> (r: Option<usize>)
    requires
        a <= b <= t@.len(),
    ensures
        r matches Some(k) ==> a <= k < b && find(span(t@, a as int, b as int), c) == Some(k - a),
        r is None ==> find(span(t@, a as int, b as int), c) is None,
{
    let mut i = a;
    while i < b
        invariant
            a <= i <= b <= t@.len(),
            forall|k: int| a <= k < i ==> t@[k] != c,
        decreases b - i,
    {
        if t[i] == c {
            proof {
                lemma_find(span(t@, a as int, b as int), c, i - a);
            }
            return Some(i);
        }
        i += 1;
    }
    proof {
        lemma_find(span(t@, a as int, b as int), c, b - a);
    }
    None
}

/// How many times `c` occurs in `s`.
pub open spec fn count(s: Seq<char>, c: char) -> nat
    decreases s.len(),
{
    if s.len() == 0 {
        0
    } else {
        count(s.drop_last(), c) + if s.last() == c { 1nat } else { 0 }
    }
}

/// How many times `c` occurs in `t[a..b]`.
pub fn count_char(t: &Vec<char>, a: usize, b: usize, c: char) -> (n: usize)
    requires
        a <= b <= t@.len(),
    ensures
        n == count(span(t@, a as int, b as int), c),
{
    let mut n: usize = 0;
    let mut i = a;
    while i < b
        invariant
            a <= i <= b <= t@.len(),
            n == count(span(t@, a as int, i as int), c),
            n <= i - a,
        decreases b - i,
    {
        assert(span(t@, a as int, i + 1).drop_last() =~= span(t@, a as int, i as int));
        if t[i] == c {
            n += 1;
        }
        i += 1;
    }
    n
}

/// A line with the carriage return of a CR LF ending taken off.
pub open spec fn strip_cr(s: Seq<char>) -> Seq<char> {
    if s.len() > 0 && s.last() == '\r' {
        s.drop_last()
    } else {
        s
    }
}

/// The lines of a text, as `str::lines` gives them: split after each
/// line feed, a carriage return before it taken off with it, the last
/// line's ending optional (a text that ends with one has no empty line
/// after it).
pub open spec fn lines(s: Seq<char>) -> Seq<Seq<char>>
    decreases s.len(),
{
    if s.len() == 0 {
        seq![]
    } else {
        match find(s, '\n') {
            None => seq![s],
            Some(i) => if 0 <= i < s.len() {
                seq![strip_cr(s.subrange(0, i))] + lines(s.subrange(i + 1, s.len() as int))
            } else {
                seq![]
            },
        }
    }
}

/// The ranges of `t` that are its lines.
pub open spec fn ranges_text(t: Seq<char>, r: Seq<(usize, usize)>) -> Seq<Seq<char>> {
    Seq::new(r.len(), |i: int| span(t, r[i].0 as int, r[i].1 as int))
}

/// The lines of `t`, as ranges of it.
pub fn line_ranges(t: &Vec<char>) -> (r: Vec<(usize, usize)>)
    ensures
        ranges_text(t@, r@) == lines(t@),
        forall|i: int| 0 <= i < r@.len() ==> (#[trigger] r@[i]).0 <= r@[i].1 <= t@.len(),
        r@.len() <= t@.len(),
{
    let mut r: Vec<(usize, usize)> = Vec::new();
    let mut pos: usize = 0;
    let n = t.len();
    assert(span(t@, 0, n as int) =~= t@);
    assert(ranges_text(t@, r@) =~= Seq::<Seq<char>>::empty());
    while pos < n
        invariant
            pos <= n == t@.len(),
            lines(t@) == ranges_text(t@, r@) + lines(span(t@, pos as int, n as int)),
            forall|i: int| 0 <= i < r@.len() ==> (#[trigger] r@[i]).0 <= r@[i].1 <= t@.len(),
            r@.len() <= pos,
        decreases n - pos,
    {
        let rest = Ghost(span(t@, pos as int, n as int));
        match find_char(t, pos, n, '\n') {
            Some(e) => {
                let end = if e > pos && t[e - 1] == '\r' { e - 1 } else { e };
                proof {
                    let i = e - pos;
                    assert(rest@.subrange(0, i) =~= span(t@, pos as int, e as int));
                    assert(rest@.subrange(i + 1, rest@.len() as int) =~= span(t@, e + 1, n as int));
                    assert(lines(rest@) == seq![strip_cr(rest@.subrange(0, i))] + lines(
                        rest@.subrange(i + 1, rest@.len() as int),
                    ));
                    if e > pos && t@[e - 1] == '\r' {
                        assert(span(t@, pos as int, e as int).drop_last() =~= span(t@, pos as int, end as int));
                    }
                    assert(strip_cr(span(t@, pos as int, e as int)) == span(t@, pos as int, end as int));
                }
                let ghost before = r@;
                r.push((pos, end));
                assert(ranges_text(t@, r@) =~= ranges_text(t@, before) + seq![span(t@, pos as int, end as int)]);
                pos = e + 1;
            },
            None => {
                let ghost before = r@;
                r.push((pos, n));
                assert(ranges_text(t@, r@) =~= ranges_text(t@, before) + seq![span(t@, pos as int, n as int)]);
                assert(lines(rest@) == seq![rest@]);
                pos = n;
                assert(span(t@, pos as int, n as int) =~= Seq::<char>::empty());
            },
        }
    }
    assert(span(t@, pos as int, n as int) =~= Seq::<char>::empty());
    assert(ranges_text(t@, r@) + lines(Seq::<char>::empty()) =~= ranges_text(t@, r@));
    r
}

/// An ASCII digit.
pub open spec fn is_digit(c: char) -> bool {
    '0' <= c && c <= '9'
}

/// Every character a digit.
pub open spec fn all_digits(s: Seq<char>) -> bool {
    forall|i: int| 0 <= i < s.len() ==> is_digit(s[i])
}

/// The value of a run of decimal digits.
pub open spec fn digits_value(s: Seq<char>) -> int
    decreases s.len(),
{
    if s.len() == 0 {
        0
    } else {
        digits_value(s.drop_last()) * 10 + (s.last() as int - '0' as int)
    }
}

/// A sign, `+` or `-`.
pub open spec fn is_sign(c: char) -> bool {
    c == '+' || c == '-'
}

/// `s` without a leading sign.
pub open spec fn unsigned(s: Seq<char>) -> Seq<char> {
    if s.len() > 0 && is_sign(s[0]) {
        s.drop_first()
    } else {
        s
    }
}

/// What `i64::from_str` gives: an optional sign, then at least one
/// digit and nothing else, the value in range.
pub open spec fn spec_i64(s: Seq<char>) -> Option<i64> {
    let d = unsigned(s);
    let v = if s.len() > 0 && s[0] == '-' { -digits_value(d) } else { digits_value(d) };
    if d.len() == 0 || !all_digits(d) || v < i64::MIN || v > i64::MAX {
        None
    } else {
        Some(v as i64)
    }
}

/// A longer run of digits is worth at least as much as its prefix.
proof fn lemma_digits_grow(s: Seq<char>, c: char)
    requires
        is_digit(c),
    ensures
        digits_value(s.push(c)) >= digits_value(s) * 10,
        digits_value(s.push(c)) == digits_value(s) * 10 + (c as int - '0' as int),
{
    assert(s.push(c).drop_last() =~= s);
}

/// Digits are worth nothing negative.
proof fn lemma_digits_nonneg(s: Seq<char>)
    requires
        all_digits(s),
    ensures
        digits_value(s) >= 0,
    decreases s.len(),
{
    if s.len() > 0 {
        lemma_digits_nonneg(s.drop_last());
    }
}

/// `t[a..b]` read as an `i64`, as `i64::from_str` reads it.
pub fn parse_i64(t: &Vec<char>, a: usize, b: usize) -> (r: Option<i64>)
    requires
        a <= b <= t@.len(),
    ensures
        r == spec_i64(span(t@, a as int, b as int)),
{
    let ghost s = span(t@, a as int, b as int);
    let neg = a < b && t[a] == '-';
    let start = if a < b && (t[a] == '+' || t[a] == '-') { a + 1 } else { a };
    let ghost d = unsigned(s);
    assert(d =~= span(t@, start as int, b as int));
    if start == b {
        return None;
    }
    // The magnitude, while it stays within 2^63.
    let limit: u64 = 0x8000_0000_0000_0000;
    let mut mag: u64 = 0;
    let mut i = start;
    while i < b
        invariant
            start <= i <= b <= t@.len(),
            all_digits(span(t@, start as int, i as int)),
            d == span(t@, start as int, b as int),
            d == unsigned(span(t@, a as int, b as int)),
            limit == 0x8000_0000_0000_0000u64,
            neg == (a < b && t@[a as int] == '-'),
            mag == digits_value(span(t@, start as int, i as int)),
            mag <= limit,
        decreases b - i,
    {
        let c = t[i];
        if !('0' <= c && c <= '9') {
            assert(!all_digits(d)) by {
                assert(d[i - start] == c);
            }
            return None;
        }
        proof {
            assert(span(t@, start as int, i + 1) =~= span(t@, start as int, i as int).push(c));
            lemma_digits_grow(span(t@, start as int, i as int), c);
        }
        let dv = (c as u32 - '0' as u32) as u64;
        assert(dv <= 9 && dv == c as int - '0' as int);
        if mag > (limit - dv) / 10 {
            // Past 2^63: every further digit only grows it.
            proof {
                assert(mag * 10 + dv > limit) by (nonlinear_arith)
                    requires
                        mag > (limit - dv) / 10,
                        dv <= 9,
                ;
                assert(all_digits(span(t@, start as int, i + 1))) by {
                    assert forall|k: int| 0 <= k < i + 1 - start implies is_digit(
                        #[trigger] span(t@, start as int, i + 1)[k],
                    ) by {
                        if k < i - start {
                            assert(span(t@, start as int, i + 1)[k] == span(t@, start as int, i as int)[k]);
                        }
                    }
                }
                lemma_digits_tail_grows(t@, start as int, i + 1, b as int);
            }
            return None;
        }
        mag = mag * 10 + dv;
        i += 1;
    }
    proof {
        lemma_digits_nonneg(d);
    }
    if neg {
        if mag == limit {
            Some(i64::MIN)
        } else {
            Some(-(mag as i64))
        }
    } else {
        if mag == limit {
            None
        } else {
            Some(mag as i64)
        }
    }
}

/// Digits appended never make a run worth less.
proof fn lemma_digits_tail_grows(t: Seq<char>, a: int, i: int, b: int)
    requires
        0 <= a <= i <= b <= t.len(),
        all_digits(t.subrange(a, i)),
    ensures
        all_digits(t.subrange(a, b)) ==> digits_value(t.subrange(a, b)) >= digits_value(t.subrange(a, i)),
    decreases b - i,
{
    if i < b && all_digits(t.subrange(a, b)) {
        assert(t.subrange(a, i + 1) =~= t.subrange(a, i).push(t[i]));
        assert(t.subrange(a, b)[i - a] == t[i]);
        lemma_digits_grow(t.subrange(a, i), t[i]);
        lemma_digits_nonneg(t.subrange(a, i));
        assert(all_digits(t.subrange(a, i + 1))) by {
            assert forall|k: int| 0 <= k < i + 1 - a implies is_digit(#[trigger] t.subrange(a, i + 1)[k]) by {
                assert(t.subrange(a, i + 1)[k] == t.subrange(a, b)[k]);
            }
        }
        lemma_digits_tail_grows(t, a, i + 1, b);
    }
}

/// ASCII letters folded to lower case; everything else as it is.
pub open spec fn ascii_lower(c: char) -> char {
    if 'A' <= c && c <= 'Z' {
        ((c as u32) + 32) as char
    } else {
        c
    }
}

/// `c` with an ASCII capital folded to lower case.
pub fn lower(c: char) -> (r: char)
    ensures
        r == ascii_lower(c),
{
    if 'A' <= c && c <= 'Z' {
        ((c as u8) + 32) as char
    } else {
        c
    }
}

/// How many digits `s` starts with.
pub open spec fn lead_digits(s: Seq<char>) -> nat
    decreases s.len(),
{
    if s.len() > 0 && is_digit(s[0]) {
        1 + lead_digits(s.drop_first())
    } else {
        0
    }
}

/// An exponent: `e` or `E`, an optional sign, at least one digit.
pub open spec fn is_exponent(s: Seq<char>) -> bool {
    s.len() > 0 && (s[0] == 'e' || s[0] == 'E') && unsigned(s.drop_first()).len() > 0 && all_digits(
        unsigned(s.drop_first()),
    )
}

/// A decimal number: digits, a point, digits (at least one digit on
/// one side of the point, the point optional after digits), then an
/// optional exponent.
pub open spec fn is_decimal(s: Seq<char>) -> bool {
    let i = lead_digits(s) as int;
    let rest = s.subrange(i, s.len() as int);
    if rest.len() > 0 && rest[0] == '.' {
        let f = rest.drop_first();
        let j = lead_digits(f) as int;
        (i > 0 || j > 0) && (j == f.len() || is_exponent(f.subrange(j, f.len() as int)))
    } else {
        i > 0 && (rest.len() == 0 || is_exponent(rest))
    }
}

/// Whether `s`, ASCII letters folded, is `w`.
pub open spec fn is_word(s: Seq<char>, w: Seq<char>) -> bool {
    s.len() == w.len() && forall|i: int| 0 <= i < s.len() ==> ascii_lower(s[i]) == w[i]
}

/// What `f64::from_str` accepts, by the grammar its documentation
/// gives: an optional sign, then `inf`, `infinity`, `nan` (in either
/// case) or a decimal number.
pub open spec fn is_float(s: Seq<char>) -> bool {
    let d = unsigned(s);
    is_word(d, "inf"@) || is_word(d, "infinity"@) || is_word(d, "nan"@) || is_decimal(d)
}

/// With `t[a..p]` all digits and `t[p]` none (or `p` the end), `t[a..b]`
/// starts with `p - a` digits.
proof fn lemma_lead_digits(t: Seq<char>, a: int, p: int, b: int)
    requires
        0 <= a <= p <= b <= t.len(),
        forall|k: int| a <= k < p ==> is_digit(t[k]),
        p == b || !is_digit(t[p]),
    ensures
        lead_digits(t.subrange(a, b)) == p - a,
    decreases p - a,
{
    if a < p {
        assert(t.subrange(a, b).drop_first() =~= t.subrange(a + 1, b));
        lemma_lead_digits(t, a + 1, p, b);
    } else if a < b {
        assert(t.subrange(a, b)[0] == t[a]);
    }
}

/// The end of the run of digits starting at `a`, before `b`.
fn digits_end(t: &Vec<char>, a: usize, b: usize) -> (p: usize)
    requires
        a <= b <= t@.len(),
    ensures
        a <= p <= b,
        lead_digits(span(t@, a as int, b as int)) == p - a,
        all_digits(span(t@, a as int, p as int)),
        p < b ==> !is_digit(t@[p as int]),
{
    let mut p = a;
    while p < b && '0' <= t[p] && t[p] <= '9'
        invariant
            a <= p <= b <= t@.len(),
            forall|k: int| a <= k < p ==> is_digit(t@[k]),
        decreases b - p,
    {
        p += 1;
    }
    proof {
        lemma_lead_digits(t@, a as int, p as int, b as int);
        assert forall|k: int| 0 <= k < p - a implies is_digit(#[trigger] span(t@, a as int, p as int)[k]) by {
            assert(span(t@, a as int, p as int)[k] == t@[a + k]);
        }
    }
    p
}

/// `t[a..b]` is an exponent.
fn exponent_text(t: &Vec<char>, a: usize, b: usize) -> (r: bool)
    requires
        a <= b <= t@.len(),
    ensures
        r == is_exponent(span(t@, a as int, b as int)),
{
    let ghost s = span(t@, a as int, b as int);
    if !(a < b && (t[a] == 'e' || t[a] == 'E')) {
        return false;
    }
    let d = if a + 1 < b && (t[a + 1] == '+' || t[a + 1] == '-') { a + 2 } else { a + 1 };
    assert(unsigned(s.drop_first()) =~= span(t@, d as int, b as int));
    let p = digits_end(t, d, b);
    proof {
        if p < b {
            assert(span(t@, d as int, b as int)[p - d] == t@[p as int]);
            assert(!is_digit(span(t@, d as int, b as int)[p - d]));
        } else {
            assert(span(t@, d as int, p as int) =~= span(t@, d as int, b as int));
        }
    }
    d < b && p == b
}

/// `t[a..b]` is a float by `f64::from_str`'s grammar; see `is_float`.
pub fn float_text(t: &Vec<char>, a: usize, b: usize) -> (r: bool)
    requires
        a <= b <= t@.len(),
    ensures
        r == is_float(span(t@, a as int, b as int)),
{
    let ghost s = span(t@, a as int, b as int);
    let s0 = if a < b && (t[a] == '+' || t[a] == '-') { a + 1 } else { a };
    let ghost d = unsigned(s);
    assert(d =~= span(t@, s0 as int, b as int));
    if span_word(t, s0, b, "inf") || span_word(t, s0, b, "infinity") || span_word(t, s0, b, "nan") {
        return true;
    }
    let p = digits_end(t, s0, b);
    let ghost i = lead_digits(d) as int;
    assert(d.subrange(i, d.len() as int) =~= span(t@, p as int, b as int));
    if p < b && t[p] == '.' {
        let ghost f = span(t@, p as int, b as int).drop_first();
        assert(f =~= span(t@, p + 1, b as int));
        let q = digits_end(t, p + 1, b);
        assert(f.subrange(q - p - 1, f.len() as int) =~= span(t@, q as int, b as int));
        (p > s0 || q > p + 1) && (q == b || exponent_text(t, q, b))
    } else {
        p > s0 && (p == b || exponent_text(t, p, b))
    }
}

/// `t[a..b]` is the word `w` with ASCII letters folded to lower case.
pub fn span_word(t: &Vec<char>, a: usize, b: usize, w: &str) -> (r: bool)
    requires
        a <= b <= t@.len(),
    ensures
        r == is_word(span(t@, a as int, b as int), w@),
{
    let wc = crate::text::chars_of(w);
    if b - a != wc.len() {
        return false;
    }
    let mut i: usize = 0;
    while i < wc.len()
        invariant
            a <= b <= t@.len(),
            b - a == wc@.len(),
            wc@ == w@,
            i <= wc@.len(),
            forall|k: int| 0 <= k < i ==> ascii_lower(#[trigger] t@[a + k]) == wc@[k],
        decreases wc@.len() - i,
    {
        if lower(t[a + i]) != wc[i] {
            assert(ascii_lower(span(t@, a as int, b as int)[i as int]) != w@[i as int]);
            return false;
        }
        i += 1;
    }
    assert forall|k: int| 0 <= k < span(t@, a as int, b as int).len() implies ascii_lower(
        #[trigger] span(t@, a as int, b as int)[k],
    ) == w@[k] by {
        assert(span(t@, a as int, b as int)[k] == t@[a + k]);
    }
    true
}

} // verus!
