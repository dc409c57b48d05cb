//! Byte-vector building blocks for the cartridges built in code.

use vstd::prelude::*;

verus! {

/// Append `bytes` to `p`.
pub fn emit(p: &mut Vec<u8>, bytes: &[u8])
    requires
        old(p)@.len() + bytes@.len() <= usize::MAX,
    ensures
        final(p)@ == old(p)@ + bytes@,
{
    let mut i: usize = 0;
    while i < bytes.len()
        invariant
            i <= bytes@.len(),
            p@ == old(p)@ + bytes@.subrange(0, i as int),
        decreases bytes@.len() - i,
    {
        p.push(bytes[i]);
        i += 1;
        assert(p@ =~= old(p)@ + bytes@.subrange(0, i as int));
    }
    assert(bytes@.subrange(0, bytes@.len() as int) =~= bytes@);
}

/// A run of `n` copies of `b`.
pub open spec fn fill(n: int, b: u8) -> Seq<u8> {
    Seq::new(n as nat, |i: int| b)
}

/// Pad `p` with `b` up to `len` bytes (nothing when it is that long
/// already).
pub fn pad_to(p: &mut Vec<u8>, len: usize, b: u8)
    ensures
        old(p)@.len() <= len ==> final(p)@ == old(p)@ + fill(len - old(p)@.len(), b),
        old(p)@.len() > len ==> final(p)@ == old(p)@,
{
    while p.len() < len
        invariant
            old(p)@.len() <= len ==> p@ == old(p)@ + fill(p@.len() - old(p)@.len(), b) && p@.len() <= len,
            old(p)@.len() > len ==> p@ == old(p)@,
        decreases len - p@.len(),
    {
        p.push(b);
        assert(p@ =~= old(p)@ + fill(p@.len() - old(p)@.len(), b));
    }
}

} // verus!
