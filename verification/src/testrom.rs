//! A cartridge built in code for the plumbing gate and its traces: a
//! program that paints through the PPU's registers, counts NMIs in RAM
//! and reads the controller on request; its polling variant; and a
//! colour-bars cartridge.

use vstd::prelude::*;
use crate::bytes::{emit, fill, pad_to};

verus! {

/// The vectors every cartridge here carries at $FFFA: NMI $8100,
/// RESET $8000, IRQ $8140.
pub open spec fn vectors() -> Seq<u8> {
    seq![0x00u8, 0x81, 0x00, 0x80, 0x40, 0x81]
}

/// The base program's main part at $8000, up to and including its spin.
pub open spec fn base_main() -> Seq<u8> {
    // SEI; $4017 <- $40; $2000 <- 0; $00..$02 <- 0
    seq![0x78u8, 0xa9, 0x40, 0x8d, 0x17, 0x40, 0xa9, 0x00, 0x8d, 0x00, 0x20, 0x85, 0x00, 0x85, 0x01, 0x85, 0x02]
    // two vblanks: BIT $2002; BPL -5
    + seq![0x2cu8, 0x02, 0x20, 0x10, 0xfb] + seq![0x2cu8, 0x02, 0x20, 0x10, 0xfb]
    // $2006 <- $3F, $00; the palette 0F 30 16 2A through $2007
    + seq![0xa9u8, 0x3f, 0x8d, 0x06, 0x20, 0xa9, 0x00, 0x8d, 0x06, 0x20]
    + seq![0xa9u8, 0x0f, 0x8d, 0x07, 0x20] + seq![0xa9u8, 0x30, 0x8d, 0x07, 0x20]
    + seq![0xa9u8, 0x16, 0x8d, 0x07, 0x20] + seq![0xa9u8, 0x2a, 0x8d, 0x07, 0x20]
    // $2006 <- $20, $00; 128 zeros, 128 ones, then 768 zeros
    + seq![0xa9u8, 0x20, 0x8d, 0x06, 0x20, 0xa9, 0x00, 0x8d, 0x06, 0x20]
    + seq![0xa2u8, 0x80, 0xa9, 0x00] + seq![0x8du8, 0x07, 0x20, 0xca, 0xd0, 0xfa]
    + seq![0xa2u8, 0x80, 0xa9, 0x01] + seq![0x8du8, 0x07, 0x20, 0xca, 0xd0, 0xfa]
    + seq![0xa0u8, 0x03, 0xa9, 0x00] + seq![0xa2u8, 0x00]
    + seq![0x8du8, 0x07, 0x20, 0xca, 0xd0, 0xfa, 0x88, 0xd0, 0xf7]
    // scroll 0, 0; $2001 <- $0A; $2000 <- $80
    + seq![0xa9u8, 0x00, 0x8d, 0x05, 0x20, 0x8d, 0x05, 0x20]
    + seq![0xa9u8, 0x0a, 0x8d, 0x01, 0x20, 0xa9, 0x80, 0x8d, 0x00, 0x20]
    // spin: JMP $8078
    + seq![0x4cu8, 0x78, 0x80]
}

/// The base program's NMI handler at $8100: INC $00; LDA $01; BEQ done;
/// strobe and read $4016 into $02; done: RTI.
pub open spec fn base_nmi() -> Seq<u8> {
    seq![0xe6u8, 0x00, 0xa5, 0x01, 0xf0, 0x0f, 0xa9, 0x01, 0x8d, 0x16, 0x40, 0xa9, 0x00, 0x8d, 0x16, 0x40, 0xad, 0x16,
        0x40, 0x85, 0x02, 0x40]
}

/// The base program, 32 KiB: the main part at $8000, the NMI handler at
/// $8100, RTI at $8140 for the IRQ, NOPs between, the vectors on top.
pub open spec fn spec_program() -> Seq<u8> {
    base_main() + fill(0x100 - 123, 0xea) + base_nmi() + fill(0x140 - 0x116, 0xea) + seq![0x40u8]
        + fill(0x7ffa - 0x141, 0xea) + vectors()
}

/// Write the vectors into the top six bytes of a 32 KiB image.
fn set_vectors(p: &mut Vec<u8>)
    requires
        old(p)@.len() == 0x8000,
    ensures
        final(p)@ == old(p)@.subrange(0, 0x7ffa) + vectors(),
{
    p.set(0x7ffa, 0x00);
    p.set(0x7ffb, 0x81);
    p.set(0x7ffc, 0x00);
    p.set(0x7ffd, 0x80);
    p.set(0x7ffe, 0x40);
    p.set(0x7fff, 0x81);
    assert(p@ =~= old(p)@.subrange(0, 0x7ffa) + vectors());
}

/// A program at $8000: palette, a nametable fill, rendering on, NMI on,
/// then a spin; the NMI handler bumps $00 and, when $01 is nonzero,
/// strobes and reads the controller into $02.
pub fn program() -> (p: Vec<u8>)
    ensures
        p@ == spec_program(),
{
    let mut p: Vec<u8> = Vec::new();
    emit(&mut p, &[0x78, 0xa9, 0x40, 0x8d, 0x17, 0x40, 0xa9, 0x00, 0x8d, 0x00, 0x20, 0x85, 0x00, 0x85, 0x01, 0x85, 0x02]);
    let mut k: usize = 0;
    while k < 2
        invariant
            k <= 2,
            p@.len() == 17 + 5 * k,
            p@ == base_main().subrange(0, 17 + 5 * k),
        decreases 2 - k,
    {
        emit(&mut p, &[0x2c, 0x02, 0x20, 0x10, 0xfb]);
        k += 1;
        assert(p@ =~= base_main().subrange(0, 17 + 5 * k));
    }
    emit(&mut p, &[0xa9, 0x3f, 0x8d, 0x06, 0x20, 0xa9, 0x00, 0x8d, 0x06, 0x20]);
    let colours: [u8; 4] = [0x0f, 0x30, 0x16, 0x2a];
    let mut k: usize = 0;
    while k < 4
        invariant
            k <= 4,
            colours@ == seq![0x0fu8, 0x30, 0x16, 0x2a],
            p@ == base_main().subrange(0, 37 + 5 * k),
        decreases 4 - k,
    {
        emit(&mut p, &[0xa9, colours[k], 0x8d, 0x07, 0x20]);
        k += 1;
        assert(p@ =~= base_main().subrange(0, 37 + 5 * k));
    }
    emit(&mut p, &[0xa9, 0x20, 0x8d, 0x06, 0x20, 0xa9, 0x00, 0x8d, 0x06, 0x20]);
    emit(&mut p, &[0xa2, 0x80, 0xa9, 0x00]);
    emit(&mut p, &[0x8d, 0x07, 0x20, 0xca, 0xd0, 0xfa]);
    emit(&mut p, &[0xa2, 0x80, 0xa9, 0x01]);
    emit(&mut p, &[0x8d, 0x07, 0x20, 0xca, 0xd0, 0xfa]);
    emit(&mut p, &[0xa0, 0x03, 0xa9, 0x00]);
    emit(&mut p, &[0xa2, 0x00]);
    emit(&mut p, &[0x8d, 0x07, 0x20, 0xca, 0xd0, 0xfa, 0x88, 0xd0, 0xf7]);
    emit(&mut p, &[0xa9, 0x00, 0x8d, 0x05, 0x20, 0x8d, 0x05, 0x20]);
    emit(&mut p, &[0xa9, 0x0a, 0x8d, 0x01, 0x20, 0xa9, 0x80, 0x8d, 0x00, 0x20]);
    assert(p@ =~= base_main().subrange(0, 120));
    let spin: u16 = 0x8000 + p.len() as u16;
    assert(spin as u8 == 0x78u8 && (spin >> 8u16) as u8 == 0x80u8) by (bit_vector)
        requires spin == 0x8078u16;
    emit(&mut p, &[0x4c, spin as u8, (spin >> 8) as u8]);
    assert(p@ =~= base_main());
    pad_to(&mut p, 0x100, 0xea);
    emit(&mut p, &[0xe6, 0x00, 0xa5, 0x01, 0xf0, 0x0f, 0xa9, 0x01, 0x8d, 0x16, 0x40, 0xa9, 0x00, 0x8d, 0x16, 0x40, 0xad, 0x16, 0x40, 0x85, 0x02, 0x40]);
    pad_to(&mut p, 0x140, 0xea);
    p.push(0x40);
    pad_to(&mut p, 0x8000, 0xea);
    let ghost before = p@;
    set_vectors(&mut p);
    assert(before.subrange(0, 0x7ffa) =~= spec_program().subrange(0, 0x7ffa));
    assert(p@ =~= spec_program());
    p
}

/// The pattern table for these cartridges: tile 0 blank, tile 1 solid
/// colour 1 (plane 0 set).
pub open spec fn spec_chr() -> Seq<u8> {
    Seq::new(0x2000, |i: int| if 16 <= i < 24 { 0xffu8 } else { 0u8 })
}

/// CHR: tile 0 blank, tile 1 solid colour 1 (plane 0 set).
pub fn chr() -> (c: Vec<u8>)
    ensures
        c@ == spec_chr(),
{
    let mut c = vec![0u8; 0x2000];
    let mut i: usize = 16;
    while i < 24
        invariant
            16 <= i <= 24,
            c@.len() == 0x2000,
            forall|j: int| 0 <= j < 0x2000 ==> c@[j] == (if 16 <= j < i { 0xffu8 } else { 0u8 }),
        decreases 24 - i,
    {
        c.set(i, 0xff);
        i += 1;
    }
    assert(c@ =~= spec_chr());
    c
}

/// The polling cartridge's replacement for the spin: with the DMC, the
/// sample started ($4010 <- $4F, $4012 <- 0, $4013 <- $FF, $4015 <- $10)
/// before a JMP to itself at $808C; without, the spin as it was.
pub open spec fn pad_tail(dmc: bool) -> Seq<u8> {
    if dmc {
        seq![0xa9u8, 0x4f, 0x8d, 0x10, 0x40, 0xa9, 0x00, 0x8d, 0x12, 0x40, 0xa9, 0xff, 0x8d, 0x13, 0x40, 0xa9, 0x10,
            0x8d, 0x15, 0x40, 0x4c, 0x8c, 0x80]
    } else {
        seq![0x4cu8, 0x78, 0x80]
    }
}

/// The polling cartridge's NMI handler at $8100: INC $00; one strobe;
/// eight reads of $4016 shifted into $02; RTI.
pub open spec fn pad_nmi() -> Seq<u8> {
    seq![0xe6u8, 0x00, 0xa9, 0x01, 0x8d, 0x16, 0x40, 0xa9, 0x00, 0x8d, 0x16, 0x40, 0xa2, 0x08, 0xad, 0x16, 0x40, 0x4a,
        0x26, 0x02, 0xca, 0xd0, 0xf7, 0x40, 0xea]
}

/// The sample's ramp at $C000: byte `i` is `7 i` modulo 256.
pub open spec fn ramp(i: int) -> u8 {
    ((i * 7) % 256) as u8
}

/// The ramp's byte as the wrapping multiply computes it.
proof fn lemma_ramp_byte(i: int, b: u8)
    requires
        0 <= i < 0x2000,
        b == (((i % 256) * 7) % 256) as u8,
    ensures
        b == ramp(i),
{
    assert(((i % 256) * 7) % 256 == (i * 7) % 256) by (nonlinear_arith);
}

/// The polling cartridge: the base program with the spin at $8078
/// replaced by `pad_tail`, the NMI handler by `pad_nmi`, and 8 KiB of
/// ramp at $C000.
pub open spec fn spec_pad_program(dmc: bool) -> Seq<u8> {
    Seq::new(0x8000, |i: int|
        if 120 <= i < 120 + pad_tail(dmc).len() {
            pad_tail(dmc)[i - 120]
        } else if 0x100 <= i < 0x119 {
            pad_nmi()[i - 0x100]
        } else if 0x4000 <= i < 0x6000 {
            ramp(i - 0x4000)
        } else {
            spec_program()[i]
        })
}

/// The polling cartridge for the bench's B0: the base program's screen,
/// and an NMI handler that polls the pad the way a game does, one
/// strobe and eight reads, the byte assembled into $02 and the poll
/// counted in $00. With `dmc`, the main program also starts a looping
/// DMC sample at the fastest rate from $C000 before the spin, so that
/// fetches land on the poll's reads. Same vectors and CHR as `program`.
pub fn pad_program(dmc: bool) -> (p: Vec<u8>)
    ensures
        p@ == spec_pad_program(dmc),
{
    let mut p = program();
    // The base program's last three bytes before the NOP padding are
    // the spin's JMP.
    let mut spin: usize = 0;
    while spin < p.len() && p[spin] != 0xea
        invariant
            p@ == spec_program(),
            spin <= 123,
            forall|j: int| 0 <= j < spin ==> p@[j] != 0xea,
        decreases 0x8000 - spin,
    {
        assert(spin < 123) by {
            assert(p@[spin as int] != 0xea);
            if spin == 123 {
                assert(spec_program()[123] == 0xea);
            }
        }
        spin += 1;
    }
    assert(spin == 123) by {
        if spin < 123 {
            assert(spec_program()[spin as int] == base_main()[spin as int]);
        }
    }
    let jmp = spin - 3;
    assert(p@[jmp as int] == 0x4c);
    let mut tail: Vec<u8> = Vec::new();
    if dmc {
        let regs: [(u8, u8); 4] = [(0x10, 0x4f), (0x12, 0x00), (0x13, 0xff), (0x15, 0x10)];
        let mut k: usize = 0;
        while k < 4
            invariant
                k <= 4,
                regs@ == seq![(0x10u8, 0x4fu8), (0x12u8, 0x00u8), (0x13u8, 0xffu8), (0x15u8, 0x10u8)],
                tail@ == pad_tail(true).subrange(0, 5 * k),
            decreases 4 - k,
        {
            let (r, v) = regs[k];
            emit(&mut tail, &[0xa9, v, 0x8d, r, 0x40]);
            k += 1;
            assert(tail@ =~= pad_tail(true).subrange(0, 5 * k));
        }
    }
    let spin_at: u16 = 0x8000 + jmp as u16 + tail.len() as u16;
    assert(spin_at as u8 == (if dmc { 0x8cu8 } else { 0x78u8 }) && (spin_at >> 8u16) as u8 == 0x80u8) by (bit_vector)
        requires spin_at == (if dmc { 0x808cu16 } else { 0x8078u16 });
    emit(&mut tail, &[0x4c, spin_at as u8, (spin_at >> 8) as u8]);
    assert(tail@ =~= pad_tail(dmc));
    // The DMC start fits before the NMI handler.
    assert(jmp + tail@.len() <= 0x100);
    let ghost base = p@;
    let mut k: usize = 0;
    while k < tail.len()
        invariant
            tail@ == pad_tail(dmc),
            jmp == 120,
            k <= tail@.len(),
            tail@.len() <= 23,
            base.len() == 0x8000,
            p@.len() == 0x8000,
            forall|j: int| 0 <= j < 0x8000 ==> p@[j] == (if 120 <= j < 120 + k { tail@[j - 120] } else { base[j] }),
        decreases tail@.len() - k,
    {
        p.set(jmp + k, tail[k]);
        k += 1;
    }
    let ghost with_tail = p@;
    let nmi: [u8; 25] = [0xe6, 0x00, 0xa9, 0x01, 0x8d, 0x16, 0x40, 0xa9, 0x00, 0x8d, 0x16, 0x40, 0xa2, 0x08, 0xad, 0x16, 0x40, 0x4a, 0x26, 0x02, 0xca, 0xd0, 0xf7, 0x40, 0xea];
    let mut k: usize = 0;
    while k < 25
        invariant
            k <= 25,
            with_tail.len() == 0x8000,
            p@.len() == 0x8000,
            forall|j: int| 0 <= j < 0x8000 ==> p@[j] == (if 0x100 <= j < 0x100 + k { nmi@[j - 0x100] } else {
                with_tail[j]
            }),
        decreases 25 - k,
    {
        p.set(0x100 + k, nmi[k]);
        k += 1;
    }
    let ghost with_nmi = p@;
    // The sample: $C000.. ($4000 into PRG), a ramp, clear of the vectors.
    let mut i: usize = 0;
    while i < 0x2000
        invariant
            i <= 0x2000,
            with_nmi.len() == 0x8000,
            p@.len() == 0x8000,
            forall|j: int| 0 <= j < 0x8000 ==> p@[j] == (if 0x4000 <= j < 0x4000 + i { ramp(j - 0x4000) } else {
                with_nmi[j]
            }),
        decreases 0x2000 - i,
    {
        let x = (i % 256) as u8;
        let b = x.wrapping_mul(7);
        proof {
            lemma_ramp_byte(i as int, b);
        }
        p.set(0x4000 + i, b);
        i += 1;
    }
    assert(nmi@ =~= pad_nmi());
    assert(p@ =~= spec_pad_program(dmc));
    p
}

/// Cell (row, column) of the bars picture: slot `(row * 8 + column)`
/// modulo 13, slot 12 the backdrop.
pub open spec fn spec_bars_slot(r: int, c: int) -> int {
    (r * 8 + c) % 13
}

/// The tile of a bars cell: blank for the backdrop's slot, otherwise
/// solid colour `slot % 3 + 1`.
pub open spec fn spec_bars_tile(r: int, c: int) -> u8 {
    let s = spec_bars_slot(r, c);
    if s == 12 { 0 } else { (s % 3 + 1) as u8 }
}

/// The palette of a bars cell: 0 for the backdrop's slot, otherwise
/// `slot / 3`.
pub open spec fn spec_bars_palette(r: int, c: int) -> u8 {
    let s = spec_bars_slot(r, c);
    if s == 12 { 0 } else { (s / 3) as u8 }
}

/// Cell (row, column) of the bars picture: slot k = row * 8 + column
/// modulo 13, slot 12 the backdrop, otherwise hue slot / 3 + 1.. of
/// palette slot / 3.
pub fn bars_slot(r: usize, c: usize) -> (s: usize)
    requires
        r * 8 + c <= usize::MAX,
    ensures
        s == spec_bars_slot(r as int, c as int),
{
    (r * 8 + c) % 13
}

pub fn bars_tile(r: usize, c: usize) -> (t: u8)
    requires
        r * 8 + c <= usize::MAX,
    ensures
        t == spec_bars_tile(r as int, c as int),
{
    let s = bars_slot(r, c);
    if s == 12 {
        0
    } else {
        (s % 3) as u8 + 1
    }
}

pub fn bars_palette(r: usize, c: usize) -> (p: u8)
    requires
        r * 8 + c <= usize::MAX,
    ensures
        p == spec_bars_palette(r as int, c as int),
{
    let s = bars_slot(r, c);
    if s == 12 {
        0
    } else {
        (s / 3) as u8
    }
}

/// The bars cartridge's main part at $8000, up to and including its spin.
pub open spec fn bars_main() -> Seq<u8> {
    // SEI; $4017 <- $40; $2000, $2001 <- 0; $00 <- 0; $01 <- 1
    seq![0x78u8, 0xa9, 0x40, 0x8d, 0x17, 0x40, 0xa9, 0x00, 0x8d, 0x00, 0x20, 0x8d, 0x01, 0x20, 0x85, 0x00, 0xa9, 0x01,
        0x85, 0x01]
    // two vblanks; JSR $8200 (the palette for row $01)
    + seq![0x2cu8, 0x02, 0x20, 0x10, 0xfb] + seq![0x2cu8, 0x02, 0x20, 0x10, 0xfb] + seq![0x20u8, 0x00, 0x82]
    // $2006 <- $20, $00; four pages from $9000 through $2007
    + seq![0xa9u8, 0x20, 0x8d, 0x06, 0x20, 0xa9, 0x00, 0x8d, 0x06, 0x20]
    + seq![0xa0u8, 0x00, 0xb9, 0x00, 0x90, 0x8d, 0x07, 0x20, 0xc8, 0xd0, 0xf7]
    + seq![0xa0u8, 0x00, 0xb9, 0x00, 0x91, 0x8d, 0x07, 0x20, 0xc8, 0xd0, 0xf7]
    + seq![0xa0u8, 0x00, 0xb9, 0x00, 0x92, 0x8d, 0x07, 0x20, 0xc8, 0xd0, 0xf7]
    + seq![0xa0u8, 0x00, 0xb9, 0x00, 0x93, 0x8d, 0x07, 0x20, 0xc8, 0xd0, 0xf7]
    // t back to the top left; $2001 <- $0A; $2000 <- $80
    + seq![0xa9u8, 0x20, 0x8d, 0x06, 0x20, 0xa9, 0x00, 0x8d, 0x06, 0x20, 0x8d, 0x05, 0x20, 0x8d, 0x05, 0x20]
    + seq![0xa9u8, 0x0a, 0x8d, 0x01, 0x20, 0xa9, 0x80, 0x8d, 0x00, 0x20]
    // spin: JMP $8071
    + seq![0x4cu8, 0x71, 0x80]
}

/// The bars cartridge's NMI handler at $8100: count frames in $00 and
/// every 120th step the luma row in $01 and rewrite the palette.
pub open spec fn bars_nmi() -> Seq<u8> {
    seq![0xe6u8, 0x00, 0xa5, 0x00, 0xc9, 120, 0xd0, 0x0e, 0xa9, 0x00, 0x85, 0x00, 0xe6, 0x01, 0xa5, 0x01, 0x29, 0x03,
        0x85, 0x01, 0x20, 0x00, 0x82, 0x40]
}

/// The palette writer at $8200: the sixteen bytes of row $01 from
/// $9400 into $3F00, then the scroll back to the top left; RTS.
pub open spec fn bars_write_palette() -> Seq<u8> {
    seq![0xa9u8, 0x3f, 0x8d, 0x06, 0x20, 0xa9, 0x00, 0x8d, 0x06, 0x20]
    + seq![0xa5u8, 0x01, 0x0a, 0x0a, 0x0a, 0x0a, 0xaa, 0xa0, 0x10]
    + seq![0xbdu8, 0x00, 0x94, 0x8d, 0x07, 0x20, 0xe8, 0x88, 0xd0, 0xf6]
    + seq![0xa9u8, 0x20, 0x8d, 0x06, 0x20, 0xa9, 0x00, 0x8d, 0x06, 0x20, 0x8d, 0x05, 0x20, 0x8d, 0x05, 0x20, 0x60]
}

/// The bars picture's nametable at $9000: row `y`, column `x` is the
/// tile of cell (y / 4, x / 4).
pub open spec fn bars_nametable() -> Seq<u8> {
    Seq::new(960, |i: int| spec_bars_tile(i / 128, (i % 32) / 4))
}

/// Its attribute table: each 32-dot square in one palette, its four
/// quadrants alike.
pub open spec fn bars_attributes() -> Seq<u8> {
    Seq::new(64, |i: int| (spec_bars_palette(i / 8, i % 8) * 0x55) as u8)
}

/// The four palette rows at $9400, luma 0..3: in each of the four
/// palettes the backdrop $0F, then hues `3 pal + 1` to `3 pal + 3` at
/// that luma.
pub open spec fn bars_palette_rows() -> Seq<u8> {
    Seq::new(64, |i: int| if i % 4 == 0 { 0x0fu8 } else { ((i / 16) * 16 + ((i / 4) % 4) * 3 + i % 4) as u8 })
}

/// The colour-bars cartridge, 32 KiB.
pub open spec fn spec_bars_program() -> Seq<u8> {
    bars_main() + fill(0x100 - 116, 0xea) + bars_nmi() + fill(0x140 - 0x118, 0xea) + seq![0x40u8]
        + fill(0x200 - 0x141, 0xea) + bars_write_palette() + fill(0x1000 - 0x22e, 0xea) + bars_nametable()
        + bars_attributes() + bars_palette_rows() + fill(0x7ffa - 0x1440, 0xea) + vectors()
}

/// A colour-bars cartridge the repository owns: eight columns of
/// 32-dot cells over the picture, each cell one of the twelve hues at
/// one luma row or the backdrop, the luma row stepping every 120 frames
/// through 1, 2, 3, 0. The picture is data at $9000 (the nametable and
/// its attributes) and $9400 (the four palette rows); the program copies
/// it in and spins, the NMI handler counting frames and rewriting the
/// palette in vblank.
pub fn bars_program() -> (p: Vec<u8>)
    ensures
        p@ == spec_bars_program(),
{
    let mut p: Vec<u8> = Vec::new();
    emit(&mut p, &[0x78, 0xa9, 0x40, 0x8d, 0x17, 0x40, 0xa9, 0x00, 0x8d, 0x00, 0x20, 0x8d, 0x01, 0x20, 0x85, 0x00, 0xa9, 0x01, 0x85, 0x01]);
    let mut k: usize = 0;
    while k < 2
        invariant
            k <= 2,
            p@ == bars_main().subrange(0, 20 + 5 * k),
        decreases 2 - k,
    {
        emit(&mut p, &[0x2c, 0x02, 0x20, 0x10, 0xfb]);
        k += 1;
        assert(p@ =~= bars_main().subrange(0, 20 + 5 * k));
    }
    emit(&mut p, &[0x20, 0x00, 0x82]);
    emit(&mut p, &[0xa9, 0x20, 0x8d, 0x06, 0x20, 0xa9, 0x00, 0x8d, 0x06, 0x20]);
    let mut page: u8 = 0x90;
    while page < 0x94
        invariant
            0x90 <= page <= 0x94,
            p@ == bars_main().subrange(0, 43 + 11 * (page - 0x90)),
        decreases 0x94 - page,
    {
        emit(&mut p, &[0xa0, 0x00, 0xb9, 0x00, page, 0x8d, 0x07, 0x20, 0xc8, 0xd0, 0xf7]);
        page += 1;
        assert(p@ =~= bars_main().subrange(0, 43 + 11 * (page - 0x90)));
    }
    emit(&mut p, &[0xa9, 0x20, 0x8d, 0x06, 0x20, 0xa9, 0x00, 0x8d, 0x06, 0x20, 0x8d, 0x05, 0x20, 0x8d, 0x05, 0x20]);
    emit(&mut p, &[0xa9, 0x0a, 0x8d, 0x01, 0x20, 0xa9, 0x80, 0x8d, 0x00, 0x20]);
    assert(p@ =~= bars_main().subrange(0, 113));
    let spin: u16 = 0x8000 + p.len() as u16;
    assert(spin as u8 == 0x71u8 && (spin >> 8u16) as u8 == 0x80u8) by (bit_vector)
        requires spin == 0x8071u16;
    emit(&mut p, &[0x4c, spin as u8, (spin >> 8) as u8]);
    assert(p@ =~= bars_main());
    pad_to(&mut p, 0x100, 0xea);
    emit(&mut p, &[0xe6, 0x00, 0xa5, 0x00, 0xc9, 120, 0xd0, 0x0e, 0xa9, 0x00, 0x85, 0x00, 0xe6, 0x01, 0xa5, 0x01, 0x29, 0x03, 0x85, 0x01, 0x20, 0x00, 0x82, 0x40]);
    pad_to(&mut p, 0x140, 0xea);
    p.push(0x40);
    pad_to(&mut p, 0x200, 0xea);
    emit(&mut p, &[0xa9, 0x3f, 0x8d, 0x06, 0x20, 0xa9, 0x00, 0x8d, 0x06, 0x20]);
    emit(&mut p, &[0xa5, 0x01, 0x0a, 0x0a, 0x0a, 0x0a, 0xaa, 0xa0, 0x10]);
    emit(&mut p, &[0xbd, 0x00, 0x94, 0x8d, 0x07, 0x20, 0xe8, 0x88, 0xd0, 0xf6]);
    emit(&mut p, &[0xa9, 0x20, 0x8d, 0x06, 0x20, 0xa9, 0x00, 0x8d, 0x06, 0x20, 0x8d, 0x05, 0x20, 0x8d, 0x05, 0x20, 0x60]);
    pad_to(&mut p, 0x1000, 0xea);
    let ghost code = p@;
    assert(code =~= bars_main() + fill(0x100 - 116, 0xea) + bars_nmi() + fill(0x140 - 0x118, 0xea) + seq![0x40u8]
        + fill(0x200 - 0x141, 0xea) + bars_write_palette() + fill(0x1000 - 0x22e, 0xea));
    // $9000: the nametable (960 bytes) and its attributes (64), cell by cell.
    let mut y: usize = 0;
    while y < 30
        invariant
            y <= 30,
            code.len() == 0x1000,
            p@ == code + bars_nametable().subrange(0, 32 * y),
        decreases 30 - y,
    {
        let mut x: usize = 0;
        while x < 32
            invariant
                y < 30,
                x <= 32,
                code.len() == 0x1000,
                p@ == code + bars_nametable().subrange(0, 32 * y + x),
            decreases 32 - x,
        {
            p.push(bars_tile(y / 4, x / 4));
            proof {
                let i = 32 * y + x;
                assert(i / 128 == y / 4 && (i % 32) / 4 == x / 4) by (nonlinear_arith)
                    requires i == 32 * y + x, x < 32, y < 30;
            }
            x += 1;
            assert(p@ =~= code + bars_nametable().subrange(0, 32 * y + x));
        }
        y += 1;
    }
    assert(bars_nametable().subrange(0, 960) =~= bars_nametable());
    let ghost with_names = p@;
    let mut r: usize = 0;
    while r < 8
        invariant
            r <= 8,
            with_names.len() == 0x13c0,
            p@ == with_names + bars_attributes().subrange(0, 8 * r),
        decreases 8 - r,
    {
        let mut c: usize = 0;
        while c < 8
            invariant
                r < 8,
                c <= 8,
                with_names.len() == 0x13c0,
                p@ == with_names + bars_attributes().subrange(0, 8 * r + c),
            decreases 8 - c,
        {
            let pal = bars_palette(r, c);
            let b = pal | pal << 2u8 | pal << 4u8 | pal << 6u8;
            proof {
                let i = 8 * r + c;
                assert(i / 8 == r && i % 8 == c) by (nonlinear_arith)
                    requires i == 8 * r + c, c < 8;
                assert(pal <= 3);
                assert(b == pal * 0x55) by (bit_vector)
                    requires pal <= 3, b == pal | pal << 2u8 | pal << 4u8 | pal << 6u8;
            }
            p.push(b);
            c += 1;
            assert(p@ =~= with_names + bars_attributes().subrange(0, 8 * r + c));
        }
        r += 1;
    }
    assert(bars_attributes().subrange(0, 64) =~= bars_attributes());
    // $9400: four palette rows, luma 0..3: backdrop $0F, then the twelve
    // hues in the three colours of each of the four palettes.
    assert(p@.len() == 0x1400);
    let ghost with_attrs = p@;
    let mut luma: u8 = 0;
    while luma < 4
        invariant
            luma <= 4,
            with_attrs.len() == 0x1400,
            p@ == with_attrs + bars_palette_rows().subrange(0, 16 * luma),
        decreases 4 - luma,
    {
        let mut pal: u8 = 0;
        while pal < 4
            invariant
                luma < 4,
                pal <= 4,
                with_attrs.len() == 0x1400,
                p@ == with_attrs + bars_palette_rows().subrange(0, 16 * luma + 4 * pal),
            decreases 4 - pal,
        {
            p.push(0x0f);
            let mut k: u8 = 0;
            while k < 3
                invariant
                    luma < 4,
                    pal < 4,
                    k <= 3,
                    with_attrs.len() == 0x1400,
                    p@ == with_attrs + bars_palette_rows().subrange(0, 16 * luma + 4 * pal + 1 + k),
                decreases 3 - k,
            {
                let v = luma << 4u8 | (pal * 3 + k + 1);
                proof {
                    let i = 16 * luma + 4 * pal + 1 + k;
                    assert(i % 4 == k + 1 && i / 16 == luma && (i / 4) % 4 == pal) by (nonlinear_arith)
                        requires i == 16 * luma + 4 * pal + 1 + k, k < 3, pal < 4;
                    let lo = (pal * 3 + k + 1) as u8;
                    assert(luma << 4u8 | lo == luma * 16 + lo) by (bit_vector)
                        requires luma < 4, lo < 16;
                }
                p.push(v);
                k += 1;
                assert(p@ =~= with_attrs + bars_palette_rows().subrange(0, 16 * luma + 4 * pal + 1 + k));
            }
            pal += 1;
        }
        luma += 1;
    }
    assert(bars_palette_rows().subrange(0, 64) =~= bars_palette_rows());
    pad_to(&mut p, 0x8000, 0xea);
    let ghost before = p@;
    set_vectors(&mut p);
    assert(before.subrange(0, 0x7ffa) =~= spec_bars_program().subrange(0, 0x7ffa));
    assert(p@ =~= spec_bars_program());
    p
}

/// CHR for the bars: tile 0 blank, tiles 1, 2, 3 solid colours 1, 2, 3.
pub open spec fn spec_bars_chr() -> Seq<u8> {
    Seq::new(0x2000, |i: int| if 16 <= i < 24 || 40 <= i < 64 { 0xffu8 } else { 0u8 })
}

/// CHR for the bars: tile 0 blank, tiles 1, 2, 3 solid colours 1, 2, 3.
pub fn bars_chr() -> (c: Vec<u8>)
    ensures
        c@ == spec_bars_chr(),
{
    let mut c = vec![0u8; 0x2000];
    let mut i: usize = 16;
    while i < 64
        invariant
            16 <= i <= 64,
            c@.len() == 0x2000,
            forall|j: int| 0 <= j < 0x2000 ==> c@[j] == (if (16 <= j < 24 || 40 <= j < 64) && j < i { 0xffu8 } else {
                0u8
            }),
        decreases 64 - i,
    {
        // tile 1: plane 0; tile 2: plane 1; tile 3: both planes
        if i < 24 || i >= 40 {
            c.set(i, 0xff);
        }
        i += 1;
    }
    assert(c@ =~= spec_bars_chr());
    c
}

} // verus!
