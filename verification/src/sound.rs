//! The sound's integer side: the code stream's rate, the output rate,
//! which mixer the console runs, and the WAV file the samples are
//! framed in. The stage and the resampler, which compute in floating
//! point, are the player's.

use vstd::prelude::*;
use std::collections::VecDeque;

verus! {

/// Samples per second of the code stream, as a fraction: one per CPU
/// half-cycle, the master's 472,500,000/11 half-steps a second over
/// twelve. The subcarrier, exactly.
pub const RATE_NUM: u64 = 39_375_000;
pub const RATE_DEN: u64 = 11;

/// The output rate.
pub const OUT_RATE: u64 = 48_000;

/// The mixer the console runs: the table, or the page's linear
/// approximation.
#[derive(Clone, Copy, PartialEq, Eq, Debug, Structural)]
pub enum Mixer {
    Table,
    Linear,
}

/// The most sound the player banks: a quarter second at the output
/// rate. A display that stalls must not bank sound to play late.
pub const RING_CAP: usize = 12_000;

/// The newest `cap` items of `s` (all of them when there are fewer).
pub open spec fn newest<T>(s: Seq<T>, cap: int) -> Seq<T> {
    if s.len() > cap { s.subrange(s.len() - cap, s.len() as int) } else { s }
}

/// Drop the oldest samples until no more than `cap` are left.
pub fn keep_newest<T>(ring: &mut VecDeque<T>, cap: usize)
    ensures
        final(ring)@ == newest(old(ring)@, cap as int),
{
    while ring.len() > cap
        invariant
            ring@.len() <= old(ring)@.len(),
            ring@ == old(ring)@.subrange(old(ring)@.len() - ring@.len(), old(ring)@.len() as int),
            old(ring)@.len() > cap ==> ring@.len() >= cap,
            old(ring)@.len() <= cap ==> ring@ == old(ring)@,
        decreases ring@.len(),
    {
        let ghost before = ring@;
        let gone = ring.pop_front();
        assert(gone is Some);
        assert(ring@ == before.subrange(1, before.len() as int));
        assert(ring@ =~= old(ring)@.subrange(old(ring)@.len() - ring@.len(), old(ring)@.len() as int));
    }
    assert(old(ring)@.subrange(0, old(ring)@.len() as int) =~= old(ring)@);
}

/// The ring never holds more than its cap, and what it holds is the
/// newest: the end of what was banked, in order.
pub proof fn lemma_the_ring_keeps_the_newest<T>(s: Seq<T>, cap: int)
    requires
        cap >= 0,
    ensures
        newest(s, cap).len() == if s.len() > cap { cap } else { s.len() as int },
        forall|i: int| 0 <= i < newest(s, cap).len() ==> #[trigger] newest(s, cap)[i] == s[s.len() - newest(s, cap).len() + i],
{
}

/// A 32-bit value's bytes, least significant first.
pub open spec fn le32(x: int) -> Seq<u8> {
    seq![(x % 256) as u8, (x / 256 % 256) as u8, (x / 65536 % 256) as u8, (x / 16777216 % 256) as u8]
}

/// A 16-bit value's bytes, least significant first.
pub open spec fn le16(x: int) -> Seq<u8> {
    seq![(x % 256) as u8, (x / 256 % 256) as u8]
}

/// The samples as 16-bit two's complement, least significant byte
/// first.
pub open spec fn sample_bytes(s: Seq<i16>) -> Seq<u8>
    decreases s.len(),
{
    if s.len() == 0 {
        Seq::empty()
    } else {
        sample_bytes(s.drop_last()) + le16(s.last() as u16 as int)
    }
}

/// Four ASCII letters as bytes.
pub open spec fn tag(a: char, b: char, c: char, d: char) -> Seq<u8> {
    seq![a as u8, b as u8, c as u8, d as u8]
}

/// A 16-bit mono PCM WAV file at 48 kHz holding `s`: the RIFF header,
/// the format chunk, the data chunk.
pub open spec fn spec_wav(s: Seq<i16>) -> Seq<u8> {
    let n = s.len() as int;
    tag('R', 'I', 'F', 'F') + le32(36 + 2 * n) + tag('W', 'A', 'V', 'E') + tag('f', 'm', 't', ' ') + le32(16) + le16(1)
        + le16(1) + le32(OUT_RATE as int) + le32(OUT_RATE as int * 2) + le16(2) + le16(16) + tag('d', 'a', 't', 'a')
        + le32(2 * n) + sample_bytes(s)
}

/// Append a 32-bit value, least significant byte first.
fn push_le32(w: &mut Vec<u8>, x: u32)
    ensures
        final(w)@ == old(w)@ + le32(x as int),
{
    let b0 = (x & 0xff) as u8;
    let b1 = ((x >> 8u32) & 0xff) as u8;
    let b2 = ((x >> 16u32) & 0xff) as u8;
    let b3 = ((x >> 24u32) & 0xff) as u8;
    assert(b0 == x % 256 && b1 == x / 256 % 256 && b2 == x / 65536 % 256 && b3 == x / 16777216 % 256) by (bit_vector)
        requires
            b0 == (x & 0xff) as u8,
            b1 == ((x >> 8u32) & 0xff) as u8,
            b2 == ((x >> 16u32) & 0xff) as u8,
            b3 == ((x >> 24u32) & 0xff) as u8,
    ;
    w.push(b0);
    w.push(b1);
    w.push(b2);
    w.push(b3);
    assert(w@ =~= old(w)@ + le32(x as int));
}

/// Append a 16-bit value, least significant byte first.
fn push_le16(w: &mut Vec<u8>, x: u16)
    ensures
        final(w)@ == old(w)@ + le16(x as int),
{
    let b0 = (x & 0xff) as u8;
    let b1 = ((x >> 8u16) & 0xff) as u8;
    assert(b0 == x % 256 && b1 == x / 256 % 256) by (bit_vector)
        requires
            b0 == (x & 0xff) as u8,
            b1 == ((x >> 8u16) & 0xff) as u8,
    ;
    w.push(b0);
    w.push(b1);
    assert(w@ =~= old(w)@ + le16(x as int));
}

/// Append four ASCII letters.
fn push_tag(w: &mut Vec<u8>, a: char, b: char, c: char, d: char)
    requires
        (a as u32) < 128 && (b as u32) < 128 && (c as u32) < 128 && (d as u32) < 128,
    ensures
        final(w)@ == old(w)@ + tag(a, b, c, d),
{
    w.push(a as u8);
    w.push(b as u8);
    w.push(c as u8);
    w.push(d as u8);
    assert(w@ =~= old(w)@ + tag(a, b, c, d));
}

/// The samples as a 16-bit mono WAV file at 48 kHz.
pub fn wav(samples: &Vec<i16>) -> (w: Vec<u8>)
    requires
        36 + 2 * samples@.len() <= u32::MAX,
    ensures
        w@ == spec_wav(samples@),
{
    let n = samples.len() as u32;
    let mut w: Vec<u8> = Vec::new();
    push_tag(&mut w, 'R', 'I', 'F', 'F');
    push_le32(&mut w, 36 + 2 * n);
    push_tag(&mut w, 'W', 'A', 'V', 'E');
    push_tag(&mut w, 'f', 'm', 't', ' ');
    push_le32(&mut w, 16);
    push_le16(&mut w, 1);
    push_le16(&mut w, 1);
    push_le32(&mut w, OUT_RATE as u32);
    push_le32(&mut w, OUT_RATE as u32 * 2);
    push_le16(&mut w, 2);
    push_le16(&mut w, 16);
    push_tag(&mut w, 'd', 'a', 't', 'a');
    push_le32(&mut w, 2 * n);
    let ghost head = w@;
    let mut i: usize = 0;
    while i < samples.len()
        invariant
            i <= samples@.len(),
            w@ == head + sample_bytes(samples@.subrange(0, i as int)),
        decreases samples@.len() - i,
    {
        push_le16(&mut w, samples[i] as u16);
        assert(samples@.subrange(0, i + 1).drop_last() =~= samples@.subrange(0, i as int));
        i += 1;
        assert(w@ =~= head + sample_bytes(samples@.subrange(0, i as int)));
    }
    assert(samples@.subrange(0, samples@.len() as int) =~= samples@);
    w
}

} // verus!
