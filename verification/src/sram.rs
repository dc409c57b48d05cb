//! U1 and U4, two Toshiba TMM2115 2,048 x 8 static RAMs: the CPU's work
//! RAM at $0000..$07FF (mirrored through $1FFF by the address lines the
//! part does not see) and the PPU's CIRAM.
//!
//! An ideal SRAM: a byte at each of 2,048 addresses, written when /WE is
//! low and read otherwise. Power-on contents are undefined in silicon;
//! here they are a fixed pattern that is visibly not data.

use vstd::prelude::*;

verus! {

/// The -12 speed grade's address access time in nanoseconds, from the
/// TMM2115 datasheet; unused until contention is modelled.
pub const ACCESS_TIME_NS_GRADE_12: u32 = 120;

/// What every address holds at power-on.
pub const POWER_ON_FILL: u8 = 0xa5;

/// The part's size: eleven address lines.
pub const SRAM_SIZE: usize = 2048;

#[derive(Clone, PartialEq, Eq, Debug)]
pub struct Tmm2115 {
    bytes: [u8; 2048],
}

impl View for Tmm2115 {
    type V = Seq<u8>;

    closed spec fn view(&self) -> Seq<u8> {
        self.bytes@
    }
}

impl Default for Tmm2115 {
    /// The part at power-on.
    fn default() -> (r: Tmm2115)
        ensures
            r@ == Seq::new(2048, |i: int| POWER_ON_FILL),
    {
        Tmm2115::new()
    }
}

/// The cell an address selects: the part sees A0..A10 only.
pub open spec fn cell_of(a: u16) -> int {
    a as int % 2048
}

impl Tmm2115 {
    /// The part holds 2,048 bytes.
    pub proof fn lemma_len(&self)
        ensures
            self@.len() == 2048,
    {
    }

    pub fn new() -> (r: Tmm2115)
        ensures
            r@ == Seq::new(2048, |i: int| POWER_ON_FILL),
    {
        let bytes = [POWER_ON_FILL; 2048];
        assert(bytes@ =~= Seq::new(2048, |i: int| POWER_ON_FILL));
        Tmm2115 { bytes }
    }

    /// The part sees eleven address lines; anything above them is the
    /// board's mirroring, so the address is masked here.
    pub fn read(&self, a: u16) -> (v: u8)
        ensures
            v == self@[cell_of(a)],
            self@.len() == 2048,
    {
        let i = a & 0x7ff;
        assert(i == a % 2048) by (bit_vector)
            requires i == a & 0x7ff;
        self.bytes[i as usize]
    }

    pub fn write(&mut self, a: u16, v: u8)
        ensures
            final(self)@ == old(self)@.update(cell_of(a), v),
            final(self)@.len() == 2048,
    {
        let i = a & 0x7ff;
        assert(i == a % 2048) by (bit_vector)
            requires i == a & 0x7ff;
        self.bytes[i as usize] = v;
    }

    /// One bus access as the part sees it: /CS low selects, /WE low
    /// writes; a deselected part leaves the data bus alone (`None`).
    pub fn access(&mut self, cs_n: bool, we_n: bool, a: u16, d: u8) -> (r: Option<u8>)
        ensures
            cs_n ==> r is None && final(self)@ == old(self)@,
            !cs_n && we_n ==> r == Some(old(self)@[cell_of(a)]) && final(self)@ == old(self)@,
            !cs_n && !we_n ==> r is None && final(self)@ == old(self)@.update(cell_of(a), d),
    {
        if cs_n {
            return None;
        }
        if we_n {
            Some(self.read(a))
        } else {
            self.write(a, d);
            None
        }
    }
}

/// A read gives back what the last write to the same cell wrote, and a
/// write leaves every other cell as it was; addresses 2 KiB apart are
/// one cell.
pub proof fn lemma_read_after_write(m: Seq<u8>, a: u16, v: u8, b: u16)
    requires
        m.len() == 2048,
    ensures
        m.update(cell_of(a), v)[cell_of(b)] == (if cell_of(a) == cell_of(b) { v } else { m[cell_of(b)] }),
        cell_of(a) == cell_of((a as int % 2048) as u16),
{
}

} // verus!
