//! Text building: characters and decimal numbers onto a `String`.

use vstd::prelude::*;

verus! {

/// `String::push` appends its character: std's documentation, "Appends
/// the given char to the end of this String". Nothing else is claimed.
pub assume_specification[ String::push ](string: &mut String, ch: char)
    ensures
        final(string)@ == old(string)@.push(ch),
;

/// The decimal digit for `d` in 0..=9.
pub open spec fn digit(d: nat) -> char {
    if d == 0 { '0' } else if d == 1 { '1' } else if d == 2 { '2' } else if d == 3 { '3' } else if d == 4 {
        '4'
    } else if d == 5 { '5' } else if d == 6 { '6' } else if d == 7 { '7' } else if d == 8 { '8' } else { '9' }
}

/// `n` written in decimal, without leading zeros ("0" for zero).
pub open spec fn dec(n: nat) -> Seq<char>
    decreases n,
{
    if n < 10 { seq![digit(n)] } else { dec(n / 10).push(digit(n % 10)) }
}

fn digit_char(d: u64) -> (c: char)
    requires
        d < 10,
    ensures
        c == digit(d as nat),
{
    if d == 0 { '0' } else if d == 1 { '1' } else if d == 2 { '2' } else if d == 3 { '3' } else if d == 4 {
        '4'
    } else if d == 5 { '5' } else if d == 6 { '6' } else if d == 7 { '7' } else if d == 8 { '8' } else { '9' }
}

/// Append `n` in decimal.
pub fn push_dec(s: &mut String, n: u64)
    ensures
        final(s)@ == old(s)@ + dec(n as nat),
    decreases n,
{
    if n >= 10 {
        push_dec(s, n / 10);
    }
    s.push(digit_char(n % 10));
    assert(s@ =~= old(s)@ + dec(n as nat)) by {
        if n >= 10 {
            assert(dec(n as nat) == dec((n / 10) as nat).push(digit((n % 10) as nat)));
        }
    }
}

/// Append a string slice.
pub fn push_str(s: &mut String, t: &str)
    ensures
        final(s)@ == old(s)@ + t@,
{
    s.append(t);
}

/// `n` written in binary, without leading zeros ("0" for zero).
pub open spec fn bin(n: nat) -> Seq<char>
    decreases n,
{
    if n < 2 { seq![digit(n)] } else { bin(n / 2).push(digit(n % 2)) }
}

/// Append `n` in binary.
pub fn push_bin(s: &mut String, n: u64)
    ensures
        final(s)@ == old(s)@ + bin(n as nat),
    decreases n,
{
    if n >= 2 {
        push_bin(s, n / 2);
    }
    s.push(digit_char(n % 2));
    assert(s@ =~= old(s)@ + bin(n as nat)) by {
        if n >= 2 {
            assert(bin(n as nat) == bin((n / 2) as nat).push(digit((n % 2) as nat)));
        }
    }
}

/// `n` written in decimal with a minus sign when negative.
pub open spec fn dec_int(n: int) -> Seq<char> {
    if n < 0 { "-"@ + dec((-n) as nat) } else { dec(n as nat) }
}

/// Append `n` in decimal, signed.
pub fn push_int(s: &mut String, n: i64)
    ensures
        final(s)@ == old(s)@ + dec_int(n as int),
{
    if n < 0 {
        push_str(s, "-");
        let m: u64 = if n == i64::MIN { 0x8000_0000_0000_0000 } else { (-n) as u64 };
        push_dec(s, m);
        proof {
            reveal_strlit("-");
        }
        assert(s@ =~= old(s)@ + dec_int(n as int));
    } else {
        push_dec(s, n as u64);
    }
}

/// What `{:?}` makes of a string slice: the text in double quotes, with
/// its escapes. A function of the text alone.
pub uninterp spec fn debug_text(s: Seq<char>) -> Seq<char>;

/// An ASCII character that `{:?}` writes as itself inside a string:
/// printable, and none of the quotes or the backslash.
pub open spec fn plain(c: char) -> bool {
    ' ' <= c && c <= '~' && c != '"' && c != '\\' && c != '\''
}

/// The Debug form of a string slice, `format!("{:?}", s)`. Claimed of
/// it: the result is `debug_text` of the text, and a text of plain
/// characters comes out as itself between double quotes (std escapes
/// only quotes, backslashes and what is not printable).
#[verifier::external_body]
pub(crate) fn debug_quoted(s: &str) -> (r: String)
    ensures
        r@ == debug_text(s@),
        (forall|i: int| 0 <= i < s@.len() ==> plain(#[trigger] s@[i])) ==> r@ == seq!['"'] + s@ + seq!['"'],
{
    format!("{:?}", s)
}

/// A string of the characters `t[a..b]`.
pub fn string_of(t: &Vec<char>, a: usize, b: usize) -> (r: String)
    requires
        a <= b <= t@.len(),
    ensures
        r@ == t@.subrange(a as int, b as int),
{
    let mut r = String::new();
    let mut i = a;
    while i < b
        invariant
            a <= i <= b <= t@.len(),
            r@ == t@.subrange(a as int, i as int),
        decreases b - i,
    {
        r.push(t[i]);
        i += 1;
        assert(r@ =~= t@.subrange(a as int, i as int));
    }
    r
}

/// The characters of a string slice, in order.
pub fn chars_of(s: &str) -> (v: Vec<char>)
    ensures
        v@ == s@,
{
    let mut v: Vec<char> = Vec::new();
    for c in it: s.chars()
        invariant
            v@ == it.seq().subrange(0, it.index() as int),
            it.seq() == s@,
    {
        v.push(c);
    }
    v
}

} // verus!
