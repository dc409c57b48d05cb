//! A picture as a binary PPM: the header, then the pixels' red, green
//! and blue, row by row. The picture's own colours (the CRT's
//! conversion, the decoder's gamma) are computed by the display chain;
//! this frames the bytes it gives.

use vstd::prelude::*;
use crate::text::{dec, push_dec};

verus! {

/// A string's characters as bytes (ASCII).
pub open spec fn ascii(s: Seq<char>) -> Seq<u8> {
    Seq::new(s.len(), |i: int| s[i] as u8)
}

/// The PPM header: "P6", the width and height, the maximum value 255.
pub open spec fn ppm_header(width: nat, height: nat) -> Seq<u8> {
    ascii("P6\n"@ + dec(width) + " "@ + dec(height) + "\n255\n"@)
}

/// The red, green and blue of each whole RGBA pixel, alpha dropped.
pub open spec fn rgb_of(rgba: Seq<u8>) -> Seq<u8> {
    Seq::new((rgba.len() / 4 * 3) as nat, |i: int| rgba[i / 3 * 4 + i % 3])
}

/// The PPM of a picture `width` by `height` whose pixels are `rgba`.
pub open spec fn spec_display_ppm(width: nat, height: nat, rgba: Seq<u8>) -> Seq<u8> {
    ppm_header(width, height) + rgb_of(rgba)
}

/// Append the characters of `s` as bytes.
fn push_ascii(p: &mut Vec<u8>, s: &String)
    requires
        forall|i: int| 0 <= i < s@.len() ==> (s@[i] as u32) < 256,
    ensures
        final(p)@ == old(p)@ + ascii(s@),
{
    let cs = crate::text::chars_of(s.as_str());
    let mut i: usize = 0;
    while i < cs.len()
        invariant
            i <= cs@.len(),
            cs@ == s@,
            forall|k: int| 0 <= k < s@.len() ==> (s@[k] as u32) < 256,
            p@ == old(p)@ + ascii(s@.subrange(0, i as int)),
        decreases cs@.len() - i,
    {
        let c = cs[i];
        assert((c as u32) < 256);
        p.push(c as u8);
        i += 1;
        assert(p@ =~= old(p)@ + ascii(s@.subrange(0, i as int)));
    }
    assert(s@.subrange(0, s@.len() as int) =~= s@);
}

/// Decimal digits are ASCII.
proof fn lemma_dec_ascii(n: nat)
    ensures
        forall|i: int| 0 <= i < dec(n).len() ==> (#[trigger] dec(n)[i] as u32) < 256,
    decreases n,
{
    let d = crate::text::digit(n % 10);
    assert('0' <= d <= '9');
    assert(('9' as u32) < 256);
    if n >= 10 {
        lemma_dec_ascii(n / 10);
        assert forall|i: int| 0 <= i < dec(n).len() implies (#[trigger] dec(n)[i] as u32) < 256 by {
            if i < dec(n).len() - 1 {
                assert(dec(n)[i] == dec(n / 10)[i]);
            } else {
                assert(dec(n)[i] == d);
            }
        }
    } else {
        assert(dec(n)[0] == d);
    }
}

/// A displayed frame as a binary PPM: the header, then each pixel's
/// red, green and blue, its alpha dropped.
pub fn display_ppm(width: u64, height: u64, rgba: &Vec<u8>) -> (p: Vec<u8>)
    requires
        rgba@.len() / 4 * 3 + 64 <= usize::MAX,
    ensures
        p@ == spec_display_ppm(width as nat, height as nat, rgba@),
{
    let mut h = String::new();
    crate::text::push_str(&mut h, "P6\n");
    push_dec(&mut h, width);
    crate::text::push_str(&mut h, " ");
    push_dec(&mut h, height);
    crate::text::push_str(&mut h, "\n255\n");
    proof {
        reveal_strlit("P6\n");
        reveal_strlit(" ");
        reveal_strlit("\n255\n");
        lemma_dec_ascii(width as nat);
        lemma_dec_ascii(height as nat);
        assert forall|i: int| 0 <= i < h@.len() implies (h@[i] as u32) < 256 by {
            let a = "P6\n"@ + dec(width as nat);
            let b = a + " "@ + dec(height as nat);
            if i >= b.len() {
            } else if i >= a.len() + 1 {
                assert(h@[i] == dec(height as nat)[i - a.len() - 1]);
            } else if i >= 3 && i < a.len() {
                assert(h@[i] == dec(width as nat)[i - 3]);
            }
        }
    }
    let mut p: Vec<u8> = Vec::new();
    push_ascii(&mut p, &h);
    let ghost head = p@;
    let n = rgba.len() / 4;
    let mut k: usize = 0;
    while k < n
        invariant
            n == rgba@.len() / 4,
            rgba@.len() <= usize::MAX,
            k <= n,
            n * 3 + 64 <= usize::MAX,
            p@ == head + rgb_of(rgba@.subrange(0, 4 * k as int)),
        decreases n - k,
    {
        assert(4 * k + 3 < rgba@.len()) by (nonlinear_arith)
            requires
                k < n,
                n == rgba@.len() / 4,
        ;
        p.push(rgba[4 * k]);
        p.push(rgba[4 * k + 1]);
        p.push(rgba[4 * k + 2]);
        proof {
            let done = rgb_of(rgba@.subrange(0, 4 * k as int));
            let next = rgb_of(rgba@.subrange(0, 4 * (k + 1)));
            assert(next.len() == done.len() + 3);
            assert forall|i: int| 0 <= i < next.len() implies next[i] == (done + seq![
                rgba@[4 * k as int],
                rgba@[4 * k + 1],
                rgba@[4 * k + 2],
            ])[i] by {
                if i < done.len() {
                    assert(i / 3 * 4 + i % 3 < 4 * k) by (nonlinear_arith)
                        requires
                            0 <= i < 3 * k,
                    ;
                } else {
                    assert(i / 3 == k && i % 3 == i - 3 * k) by (nonlinear_arith)
                        requires
                            3 * k <= i < 3 * k + 3,
                    ;
                }
            }
            assert(next =~= done + seq![rgba@[4 * k as int], rgba@[4 * k + 1], rgba@[4 * k + 2]]);
        }
        k += 1;
        assert(p@ =~= head + rgb_of(rgba@.subrange(0, 4 * k as int)));
    }
    proof {
        assert forall|i: int| 0 <= i < rgb_of(rgba@).len() implies rgb_of(rgba@)[i] == rgb_of(
            rgba@.subrange(0, 4 * n as int),
        )[i] by {
            assert(i / 3 * 4 + i % 3 < 4 * n) by (nonlinear_arith)
                requires
                    0 <= i < n * 3,
            ;
        }
        assert(rgb_of(rgba@) =~= rgb_of(rgba@.subrange(0, 4 * n as int)));
    }
    p
}

} // verus!
