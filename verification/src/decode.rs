//! U3, a 74LS139 dual 2-to-4 line decoder, and the 74HC04 inverter that
//! gives the cartridge PPU /A13.
//!
//! The 74LS139's outputs are active LOW and an enable held high forces
//! all four outputs high. On the NES-001, half A has 1G = CPU A15,
//! 1A = A13, 1B = A14: 1Y0 is /RAM CS for $0000..$1FFF and 1Y1 is /PPU CS
//! for $2000..$3FFF. Half B has 2G grounded, 2A = M2, 2B = A15: 2Y3 is
//! /ROMSEL, not (A15 and M2).
//!
//! Every function here takes and returns pin LEVELS, `true` = high, so
//! active-low outputs read `false` when they select.

use vstd::prelude::*;

verus! {

/// The 74LS139's function table for one half: (G, B, A) to the four
/// outputs' levels, Y0..Y3.
pub fn ls139_half(g_n: bool, b: bool, a: bool) -> (y: [bool; 4])
    ensures
        g_n ==> forall|i: int| 0 <= i < 4 ==> y@[i],
        !g_n ==> forall|i: int| 0 <= i < 4 ==> y@[i] == (i != 2 * b2i(b) + b2i(a)),
{
    if g_n {
        return [true, true, true, true];
    }
    match (b, a) {
        (false, false) => [false, true, true, true],
        (false, true) => [true, false, true, true],
        (true, false) => [true, true, false, true],
        (true, true) => [true, true, true, false],
    }
}

/// A level as the digit it selects with.
pub open spec fn b2i(x: bool) -> int {
    if x { 1 } else { 0 }
}

/// Half A as wired: `(ram_cs_n, ppu_cs_n)` from CPU A13, A14, A15.
pub fn cpu_selects(a: u16) -> (r: (bool, bool))
    ensures
        r.0 == !(a < 0x2000),
        r.1 == !(0x2000 <= a < 0x4000),
{
    let (a15, a14, a13) = (a & 0x8000 != 0, a & 0x4000 != 0, a & 0x2000 != 0);
    assert(a15 == (a >= 0x8000)) by (bit_vector)
        requires a15 == (a & 0x8000 != 0);
    assert(!a15 ==> (a14 == (a >= 0x4000))) by (bit_vector)
        requires a15 == (a & 0x8000 != 0), a14 == (a & 0x4000 != 0);
    assert(!a15 && !a14 ==> (a13 == (a >= 0x2000))) by (bit_vector)
        requires a15 == (a & 0x8000 != 0), a14 == (a & 0x4000 != 0), a13 == (a & 0x2000 != 0);
    let y = ls139_half(a15, a14, a13);
    (y[0], y[1])
}

/// Half B as wired: /ROMSEL from A15 and M2.
pub fn romsel_n(a: u16, m2: bool) -> (r: bool)
    ensures
        r == !(a >= 0x8000 && m2),
{
    let a15 = a & 0x8000 != 0;
    assert(a15 == (a >= 0x8000)) by (bit_vector)
        requires a15 == (a & 0x8000 != 0);
    let y = ls139_half(false, a15, m2);
    y[3]
}

/// The whole CPU-side decode for one bus state, as the three active-low
/// lines the board produces.
#[derive(Clone, Copy, PartialEq, Eq, Debug)]
pub struct CpuDecode {
    pub ram_cs_n: bool,
    pub ppu_cs_n: bool,
    pub romsel_n: bool,
}

/// The board's decode of CPU address `a` with M2 at `m2`: /RAM CS low
/// below $2000, /PPU CS low from $2000 to $3FFF, /ROMSEL low from $8000
/// up while M2 is high.
pub open spec fn spec_cpu_decode(a: u16, m2: bool) -> CpuDecode {
    CpuDecode { ram_cs_n: !(a < 0x2000), ppu_cs_n: !(0x2000 <= a < 0x4000), romsel_n: !(a >= 0x8000 && m2) }
}

pub fn cpu_decode(a: u16, m2: bool) -> (d: CpuDecode)
    ensures
        d == spec_cpu_decode(a, m2),
        d.ram_cs_n == !(a < 0x2000),
        d.ppu_cs_n == !(0x2000 <= a < 0x4000),
        d.romsel_n == !(a >= 0x8000 && m2),
{
    let (ram_cs_n, ppu_cs_n) = cpu_selects(a);
    CpuDecode { ram_cs_n, ppu_cs_n, romsel_n: romsel_n(a, m2) }
}

/// No address selects two parts at once: /RAM CS, /PPU CS and /ROMSEL
/// are never low together.
pub proof fn lemma_selects_are_exclusive(a: u16, m2: bool)
    ensures
        ({
            let d = spec_cpu_decode(a, m2);
            &&& d.ram_cs_n || d.ppu_cs_n
            &&& d.ram_cs_n || d.romsel_n
            &&& d.ppu_cs_n || d.romsel_n
        }),
{
}

/// The 74HC04 gate behind cartridge pin 58: PPU /A13 is PPU A13
/// inverted.
pub fn ppu_a13_n(ppu_a: u16) -> (r: bool)
    ensures
        r == ((ppu_a as int / 0x2000) % 2 == 0),
{
    let r = ppu_a & 0x2000 == 0;
    assert(r == ((ppu_a / 0x2000) % 2 == 0)) by (bit_vector)
        requires r == (ppu_a & 0x2000 == 0);
    r
}

} // verus!
