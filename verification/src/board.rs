//! The mainboard: what the CPU's bus and the PPU's bus reach, wired as
//! the glue says. The board answers what it holds itself (the work
//! RAM, the controllers behind their buffers, a test cartridge's RAM,
//! CIRAM, CHR RAM) and names the chip that answers the rest: the PPU's
//! registers and the cartridge are stepped by whoever holds them, and
//! hand the board what they drove.
//!
//! Open bus is a value here: the last byte that crossed the CPU data
//! bus. A read nothing drives returns it; the controller buffers merge
//! their bits over it.

use vstd::prelude::*;
use crate::console::Position;
use crate::controller::{read_4016, read_4017, spec_4016_bit, spec_4017_bit, bit, Controller};
use crate::decode::{cpu_decode, spec_cpu_decode};
use crate::sram::{cell_of, Tmm2115};

verus! {

/// What a CPU address reaches on this board.
#[derive(Clone, Copy, PartialEq, Eq, Debug, Structural)]
pub enum CpuTarget {
    /// U1, the work RAM, below $2000.
    Ram,
    /// The PPU's register at this index, $2000..$3FFF.
    Ppu(u8),
    /// $4016: controller 1 (and OUT0 on a write).
    Pad1,
    /// $4017: controller 2 on a read.
    Pad2,
    /// The 2A03's own registers below $4020: the CPU answers them.
    Apu,
    /// A test cartridge's RAM at $6000..$7FFF, at this offset.
    PrgRam(u16),
    /// The cartridge edge.
    Cart,
}

/// Where the board routes CPU address `a`: the decode's chip selects
/// first, then the two controller ports, the 2A03's registers, the
/// cartridge RAM when one is fitted, and the cartridge.
pub open spec fn spec_cpu_target(a: u16, prg_ram: bool) -> CpuTarget {
    let d = spec_cpu_decode(a, true);
    if !d.ram_cs_n {
        CpuTarget::Ram
    } else if !d.ppu_cs_n {
        CpuTarget::Ppu((a % 8) as u8)
    } else if a == 0x4016 {
        CpuTarget::Pad1
    } else if a == 0x4017 {
        CpuTarget::Pad2
    } else if a < 0x4020 {
        CpuTarget::Apu
    } else if 0x6000 <= a < 0x8000 && prg_ram {
        CpuTarget::PrgRam((a - 0x6000) as u16)
    } else {
        CpuTarget::Cart
    }
}

/// Where CPU address `a` goes; see `spec_cpu_target`.
pub fn cpu_target(a: u16, prg_ram: bool) -> (t: CpuTarget)
    ensures
        t == spec_cpu_target(a, prg_ram),
        a < 0x2000 ==> t == CpuTarget::Ram,
        0x2000 <= a < 0x4000 ==> t == CpuTarget::Ppu((a % 8) as u8),
{
    proof {
        lemma_the_cpu_memory_map(a, prg_ram);
    }
    let d = cpu_decode(a, true);
    if !d.ram_cs_n {
        CpuTarget::Ram
    } else if !d.ppu_cs_n {
        let r = (a & 7) as u8;
        assert(a & 7 == a % 8) by (bit_vector);
        CpuTarget::Ppu(r)
    } else if a == 0x4016 {
        CpuTarget::Pad1
    } else if a == 0x4017 {
        CpuTarget::Pad2
    } else if a < 0x4020 {
        CpuTarget::Apu
    } else if 0x6000 <= a && a < 0x8000 && prg_ram {
        CpuTarget::PrgRam(a - 0x6000)
    } else {
        CpuTarget::Cart
    }
}

/// The CPU's memory map on this board, address by address: the work RAM
/// below $2000; the PPU's eight registers at $2000..$2007, mirrored
/// every eight bytes through $3FFF, so register `a % 8` and no other;
/// the two controller ports at $4016 and $4017; the 2A03's registers
/// over the rest of $4000..$401F; a fitted cartridge RAM at $6000..$7FFF
/// from its first byte; and the cartridge edge everywhere else.
pub proof fn lemma_the_cpu_memory_map(a: u16, prg_ram: bool)
    ensures
        a < 0x2000 ==> spec_cpu_target(a, prg_ram) == CpuTarget::Ram,
        0x2000 <= a < 0x4000 ==> spec_cpu_target(a, prg_ram) == CpuTarget::Ppu((a % 8) as u8),
        a == 0x4016 ==> spec_cpu_target(a, prg_ram) == CpuTarget::Pad1,
        a == 0x4017 ==> spec_cpu_target(a, prg_ram) == CpuTarget::Pad2,
        0x4000 <= a < 0x4020 && a != 0x4016 && a != 0x4017 ==> spec_cpu_target(a, prg_ram) == CpuTarget::Apu,
        0x6000 <= a < 0x8000 && prg_ram ==> spec_cpu_target(a, prg_ram) == CpuTarget::PrgRam((a - 0x6000) as u16),
        a >= 0x4020 && !(0x6000 <= a < 0x8000 && prg_ram) ==> spec_cpu_target(a, prg_ram) == CpuTarget::Cart,
{
}

/// Two PPU-register addresses reach the same register exactly when they
/// agree in their low three bits: the eight registers are distinct, and
/// each repeats every eight bytes.
pub proof fn lemma_ppu_registers_are_eight_mirrored(a: u16, b: u16, prg_ram: bool)
    requires
        0x2000 <= a < 0x4000,
        0x2000 <= b < 0x4000,
    ensures
        (spec_cpu_target(a, prg_ram) == spec_cpu_target(b, prg_ram)) <==> (a % 8 == b % 8),
        spec_cpu_target(a, prg_ram) matches CpuTarget::Ppu(r) && r < 8 && r == a - 0x2000 - (a - 0x2000) / 8 * 8,
{
}

/// The board's own state: U1, the cartridge RAM when fitted, the two
/// controllers, the open bus, the access counts, and OUT0's edges.
pub struct Board {
    /// U1, behind /RAM CS: 2 KiB mirrored through $0000..$1FFF.
    pub wram: Tmm2115,
    /// 8 KiB at $6000..$7FFF when fitted: a test cartridge's RAM, which
    /// blargg's cartridges report through.
    pub prg_ram: Option<Vec<u8>>,
    pub pads: [Controller; 2],
    pub open_bus: u8,
    /// CPU reads and writes seen.
    pub reads: u64,
    pub writes: u64,
    /// Set before each CPU half-cycle: master half-steps from the start
    /// of the dot last stepped to this half-cycle's start.
    pub half_steps_into_dot: u8,
    /// OUT0 as last written, so the strobe's edges are seen here.
    pub out0: bool,
    /// Where OUT0 last rose, while it stays high.
    pub strobe_rose_at: Option<Position>,
    /// Where in the PPU's frame every latch fell: (the strobe's rise,
    /// its fall), indexed by latch.
    pub latch_positions: Vec<(Position, Position)>,
}

impl Board {
    /// The cartridge RAM, when fitted, is 8 KiB.
    pub open spec fn wf(&self) -> bool {
        self.prg_ram matches Some(r) ==> r@.len() == 0x2000
    }

    /// The board at power-on: RAM as the part powers up, the cartridge
    /// RAM zeroed when fitted, nothing pressed, nothing latched.
    pub fn new(prg_ram: bool) -> (b: Board)
        ensures
            b.wf(),
            b.wram@ == Seq::new(2048, |i: int| crate::sram::POWER_ON_FILL),
            prg_ram <==> b.prg_ram is Some,
            b.prg_ram matches Some(r) ==> r@ == Seq::new(0x2000, |i: int| 0u8),
            b.open_bus == 0 && b.reads == 0 && b.writes == 0,
            !b.out0 && b.strobe_rose_at is None,
            b.latch_positions@.len() == 0,
    {
        let ram = if prg_ram {
            let r = vec![0u8; 0x2000];
            assert(r@ =~= Seq::new(0x2000, |i: int| 0u8));
            Some(r)
        } else {
            None
        };
        Board {
            wram: Tmm2115::new(),
            prg_ram: ram,
            pads: [Controller::default(), Controller::default()],
            open_bus: 0,
            reads: 0,
            writes: 0,
            half_steps_into_dot: 0,
            out0: false,
            strobe_rose_at: None,
            latch_positions: Vec::new(),
        }
    }
}

/// The expansion port's four data lines with nothing plugged in: all
/// high.
pub open spec fn idle_expansion() -> Seq<bool> {
    seq![true, true, true, true]
}

/// The controller after one read: the same buttons and strobe, the
/// register shifted as a read shifts it.
pub open spec fn read_once(old: Controller, new: Controller) -> bool {
    &&& new.held() == old.held()
    &&& new.strobe_high() == old.strobe_high()
    &&& new.shift_reg() == old.after_read_reg()
}

impl Board {
    /// A CPU read of `a`. `chips` is what the PPU answered (for its
    /// registers) or what the cartridge drove (`None`: it left the bus
    /// alone); the board answers everything else itself. The byte read
    /// becomes the open bus.
    pub fn read(&mut self, a: u16, chips: Option<u8>) -> (v: u8)
        requires
            old(self).wf(),
            old(self).reads < u64::MAX,
        ensures
            final(self).wf(),
            final(self).reads == old(self).reads + 1,
            final(self).open_bus == v,
            final(self).writes == old(self).writes,
            final(self).wram == old(self).wram,
            final(self).prg_ram == old(self).prg_ram,
            final(self).out0 == old(self).out0,
            final(self).strobe_rose_at == old(self).strobe_rose_at,
            final(self).latch_positions == old(self).latch_positions,
            final(self).half_steps_into_dot == old(self).half_steps_into_dot,
            spec_cpu_target(a, old(self).prg_ram is Some) != CpuTarget::Pad1 ==> final(self).pads[0] == old(self).pads[0],
            spec_cpu_target(a, old(self).prg_ram is Some) != CpuTarget::Pad2 ==> final(self).pads[1] == old(self).pads[1],
            match spec_cpu_target(a, old(self).prg_ram is Some) {
                CpuTarget::Ram => v == old(self).wram@[cell_of(a)],
                CpuTarget::Ppu(_) | CpuTarget::Cart => v == match chips {
                    Some(x) => x,
                    None => old(self).open_bus,
                },
                CpuTarget::Pad1 => read_once(old(self).pads[0], final(self).pads[0]) && forall|i: nat|
                    i < 8 ==> bit(v, i) == #[trigger] spec_4016_bit(
                        old(self).pads[0].read_level(),
                        true,
                        true,
                        old(self).open_bus,
                        i,
                    ),
                CpuTarget::Pad2 => read_once(old(self).pads[1], final(self).pads[1]) && forall|i: nat|
                    i < 8 ==> bit(v, i) == #[trigger] spec_4017_bit(
                        old(self).pads[1].read_level(),
                        idle_expansion(),
                        old(self).open_bus,
                        i,
                    ),
                CpuTarget::Apu => v == old(self).open_bus,
                CpuTarget::PrgRam(o) => v == old(self).prg_ram->0@[o as int],
            },
    {
        self.reads += 1;
        let v = match cpu_target(a, self.prg_ram.is_some()) {
            CpuTarget::Ram => self.wram.read(a),
            CpuTarget::Ppu(_) | CpuTarget::Cart => match chips {
                Some(x) => x,
                None => self.open_bus,
            },
            CpuTarget::Pad1 => {
                let mut p = self.pads[0];
                let line = p.read();
                self.pads[0] = p;
                read_4016(line, true, true, self.open_bus)
            },
            CpuTarget::Pad2 => {
                let mut p = self.pads[1];
                let line = p.read();
                self.pads[1] = p;
                let exp = [true; 4];
                assert(exp@ =~= idle_expansion());
                read_4017(line, exp, self.open_bus)
            },
            CpuTarget::Apu => self.open_bus,
            CpuTarget::PrgRam(o) => match &self.prg_ram {
                Some(r) => r[o as usize],
                None => self.open_bus,
            },
        };
        self.open_bus = v;
        v
    }
}

/// What a look at the bus that changes nothing sees: the work RAM and
/// the cartridge RAM as they hold, the cartridge's byte from $4020 up
/// (the open bus where it drives none), and the open bus where a
/// register stands, which a look does not read.
pub open spec fn spec_peek(b: Board, a: u16, cart: Option<u8>) -> u8 {
    if a < 0x2000 {
        b.wram@[cell_of(a)]
    } else if 0x6000 <= a < 0x8000 && b.prg_ram is Some {
        b.prg_ram->0@[a - 0x6000]
    } else if a >= 0x4020 {
        match cart {
            Some(x) => x,
            None => b.open_bus,
        }
    } else {
        b.open_bus
    }
}

/// The board after a CPU write's bookkeeping on OUT0 at `$4016`: a rise
/// notes where the PPU stood, a fall records the latch (from the rise,
/// or from the fall when no rise was seen) and forgets the rise.
pub open spec fn latch_after(
    out0_was: bool,
    rose: Option<Position>,
    latches: Seq<(Position, Position)>,
    out0: bool,
    pos: Position,
) -> (Option<Position>, Seq<(Position, Position)>) {
    if out0 && !out0_was {
        (Some(pos), latches)
    } else if !out0 && out0_was {
        (None, latches.push((if rose is Some { rose->0 } else { pos }, pos)))
    } else {
        (rose, latches)
    }
}

impl Board {
    /// The core's look at an operand byte or a zero-page pointer: RAM and
    /// the cartridge only, no side effect, no open-bus update. `cart` is
    /// what the cartridge drives at `a`, if anything.
    pub fn peek(&self, a: u16, cart: Option<u8>) -> (v: u8)
        requires
            self.wf(),
        ensures
            v == spec_peek(*self, a, cart),
    {
        let d = cpu_decode(a, true);
        if !d.ram_cs_n {
            self.wram.read(a)
        } else if 0x6000 <= a && a < 0x8000 && self.prg_ram.is_some() {
            match &self.prg_ram {
                Some(r) => r[(a - 0x6000) as usize],
                None => self.open_bus,
            }
        } else if a >= 0x4020 {
            match cart {
                Some(x) => x,
                None => self.open_bus,
            }
        } else {
            self.open_bus
        }
    }

    /// A CPU write of `v` to `a`, with the PPU at `pos`. The board takes
    /// what it holds (the work RAM, the cartridge RAM, OUT0 to both
    /// controllers); the target it returns says whether the PPU's
    /// register or the cartridge is the one to hand the byte to. The
    /// byte becomes the open bus.
    pub fn write(&mut self, a: u16, v: u8, pos: Position) -> (t: CpuTarget)
        requires
            old(self).wf(),
            old(self).writes < u64::MAX,
        ensures
            final(self).wf(),
            t == spec_cpu_target(a, old(self).prg_ram is Some),
            final(self).writes == old(self).writes + 1,
            final(self).reads == old(self).reads,
            final(self).open_bus == v,
            final(self).half_steps_into_dot == old(self).half_steps_into_dot,
            final(self).wram@ == if t == CpuTarget::Ram {
                old(self).wram@.update(cell_of(a), v)
            } else {
                old(self).wram@
            },
            final(self).prg_ram is Some == old(self).prg_ram is Some,
            final(self).prg_ram matches Some(r) ==> r@ == match t {
                CpuTarget::PrgRam(o) => old(self).prg_ram->0@.update(o as int, v),
                _ => old(self).prg_ram->0@,
            },
            t == CpuTarget::Pad1 ==> {
                let out0 = v % 2 == 1;
                let (rose, latches) = latch_after(
                    old(self).out0,
                    old(self).strobe_rose_at,
                    old(self).latch_positions@,
                    out0,
                    pos,
                );
                &&& final(self).pads[0] == old(self).pads[0].strobed(out0)
                &&& final(self).pads[1] == old(self).pads[1].strobed(out0)
                &&& final(self).out0 == out0
                &&& final(self).strobe_rose_at == rose
                &&& final(self).latch_positions@ == latches
            },
            t != CpuTarget::Pad1 ==> {
                &&& final(self).pads == old(self).pads
                &&& final(self).out0 == old(self).out0
                &&& final(self).strobe_rose_at == old(self).strobe_rose_at
                &&& final(self).latch_positions@ == old(self).latch_positions@
            },
    {
        self.writes += 1;
        self.open_bus = v;
        let t = cpu_target(a, self.prg_ram.is_some());
        match t {
            CpuTarget::Ram => {
                self.wram.write(a, v);
            },
            CpuTarget::Pad1 => {
                // OUT0 is the controller strobe.
                let out0 = v & 1 != 0;
                assert(out0 == (v % 2 == 1)) by (bit_vector)
                    requires
                        out0 == (v & 1 != 0),
                ;
                let mut p0 = self.pads[0];
                p0.strobe(out0);
                self.pads[0] = p0;
                let mut p1 = self.pads[1];
                p1.strobe(out0);
                self.pads[1] = p1;
                if out0 && !self.out0 {
                    self.strobe_rose_at = Some(pos);
                }
                if !out0 && self.out0 {
                    let rose = match self.strobe_rose_at {
                        Some(r) => r,
                        None => pos,
                    };
                    self.strobe_rose_at = None;
                    self.latch_positions.push((rose, pos));
                }
                self.out0 = out0;
            },
            CpuTarget::PrgRam(o) => {
                let mut ram = self.prg_ram.take();
                match &mut ram {
                    Some(r) => {
                        r.set(o as usize, v);
                    },
                    None => {},
                }
                self.prg_ram = ram;
            },
            _ => {},
        }
        t
    }
}

/// A strobe pulse on `$4016` records exactly one latch: OUT0 rising at
/// `rise` and falling at `fall` adds the pair (rise, fall) and nothing
/// else, and leaves no rise pending.
pub proof fn lemma_a_pulse_records_one_latch(
    rose: Option<Position>,
    latches: Seq<(Position, Position)>,
    rise: Position,
    fall: Position,
)
    ensures
        ({
            let (r1, l1) = latch_after(false, rose, latches, true, rise);
            let (r2, l2) = latch_after(true, r1, l1, false, fall);
            r2 is None && l2 == latches.push((rise, fall))
        }),
{
}

/// Writes that leave OUT0 where it was record nothing.
pub proof fn lemma_no_edge_no_latch(
    out0: bool,
    rose: Option<Position>,
    latches: Seq<(Position, Position)>,
    pos: Position,
)
    ensures
        latch_after(out0, rose, latches, out0, pos) == (rose, latches),
{
}

/// What a PPU address reaches on the cartridge side.
#[derive(Clone, Copy, PartialEq, Eq, Debug, Structural)]
pub enum PpuTarget {
    /// The board's CHR RAM, at this address.
    ChrRam(u16),
    /// The cartridge's CHR, at this address.
    Chr(u16),
    /// CIRAM (U4), at this cell.
    Ciram(u16),
    /// Nothing: the cartridge holds CIRAM deselected.
    Nothing,
}

/// Where PPU address `a` goes: pattern tables below $2000 (the board's
/// CHR RAM when it keeps one, else the cartridge's CHR), and above it
/// CIRAM as the cartridge's two pins say, A10 from the cartridge and
/// A0..A9 from the PPU, unless its /CE holds CIRAM off.
pub open spec fn spec_ppu_target(a: u16, chr_ram: bool, a10: bool, ce_n: bool) -> PpuTarget {
    let a = a % 0x4000;
    if a < 0x2000 {
        if chr_ram { PpuTarget::ChrRam(a as u16) } else { PpuTarget::Chr(a as u16) }
    } else if ce_n {
        PpuTarget::Nothing
    } else {
        PpuTarget::Ciram((a % 0x400 + if a10 { 0x400int } else { 0 }) as u16)
    }
}

/// The PPU's memory map on the cartridge side: the address is taken
/// mod $4000; below $2000 the pattern tables (the board's CHR RAM when
/// it keeps one, else the cartridge's CHR) at that address; above, with
/// /CE low, the CIRAM cell the PPU's A0..A9 and the cartridge's A10
/// make, 1 KiB a page; with /CE high, nothing.
pub proof fn lemma_the_ppu_memory_map(a: u16, chr_ram: bool, a10: bool, ce_n: bool)
    ensures
        a % 0x4000 < 0x2000 && chr_ram ==> spec_ppu_target(a, chr_ram, a10, ce_n) == PpuTarget::ChrRam(
            (a % 0x4000) as u16,
        ),
        a % 0x4000 < 0x2000 && !chr_ram ==> spec_ppu_target(a, chr_ram, a10, ce_n) == PpuTarget::Chr((a % 0x4000) as u16),
        a % 0x4000 >= 0x2000 && ce_n ==> spec_ppu_target(a, chr_ram, a10, ce_n) == PpuTarget::Nothing,
        a % 0x4000 >= 0x2000 && !ce_n ==> spec_ppu_target(a, chr_ram, a10, ce_n) == PpuTarget::Ciram(
            (if a10 { 0x400 + (a % 0x400) as int } else { (a % 0x400) as int }) as u16,
        ),
{
}

/// Within the nametables, with /CE low, two addresses reach the same
/// CIRAM cell exactly when they agree in A0..A9 and the cartridge puts
/// the same A10 on both: no byte of a 1 KiB page aliases another, and
/// the two pages A10 selects are apart. Every cell is one of CIRAM's
/// 2 KiB.
pub proof fn lemma_ciram_cells_are_distinct(a: u16, b: u16, chr_ram: bool, a10: bool, b10: bool)
    requires
        a % 0x4000 >= 0x2000,
        b % 0x4000 >= 0x2000,
    ensures
        spec_ppu_target(a, chr_ram, a10, false) matches PpuTarget::Ciram(c) && c < 0x800,
        (spec_ppu_target(a, chr_ram, a10, false) == spec_ppu_target(b, chr_ram, b10, false)) <==> (a % 0x400 == b
            % 0x400 && a10 == b10),
{
}

/// Where PPU address `a` goes; see `spec_ppu_target`.
pub fn ppu_target(a: u16, chr_ram: bool, a10: bool, ce_n: bool) -> (t: PpuTarget)
    ensures
        t == spec_ppu_target(a, chr_ram, a10, ce_n),
        a % 0x4000 >= 0x2000 && !ce_n ==> t == PpuTarget::Ciram(
            (if a10 { 0x400 + (a % 0x400) as int } else { (a % 0x400) as int }) as u16,
        ),
{
    proof {
        lemma_the_ppu_memory_map(a, chr_ram, a10, ce_n);
    }
    let m = a & 0x3fff;
    assert(m == a % 0x4000) by (bit_vector)
        requires
            m == a & 0x3fff,
    ;
    if m < 0x2000 {
        if chr_ram {
            PpuTarget::ChrRam(m)
        } else {
            PpuTarget::Chr(m)
        }
    } else if ce_n {
        PpuTarget::Nothing
    } else {
        let c = (m & 0x03ff) | ((a10 as u16) << 10u16);
        assert(c == m % 0x400 + if a10 { 0x400u16 } else { 0u16 }) by (bit_vector)
            requires
                c == (m & 0x03ff) | ((if a10 { 1u16 } else { 0u16 }) << 10u16),
        ;
        PpuTarget::Ciram(c)
    }
}

/// The cartridge and CIRAM side of the board, reached from the PPU's
/// bus: U4, and the CHR RAM a board keeps when the cartridge declared
/// none.
pub struct Cart {
    /// U4, addressed by PPU A0..A9 and the cartridge's CIRAM A10.
    pub ciram: Tmm2115,
    /// CHR RAM boards: 8 KiB, where the PPU's pattern writes land.
    pub chr_ram: Option<Vec<u8>>,
    /// The console's PPU dot counter as of the dot being stepped, handed
    /// to the cartridge with every PPU bus access.
    pub dot: u64,
}

impl Cart {
    /// The CHR RAM, when kept, is 8 KiB.
    pub open spec fn wf(&self) -> bool {
        self.chr_ram matches Some(r) ==> r@.len() == 0x2000
    }

    /// The side at power-on. `chr_ram`, when given, must be 8 KiB; a
    /// board that banks its own CHR RAM keeps it, so `owns_chr_ram`
    /// drops the copy here.
    pub fn new(chr_ram: Option<Vec<u8>>, owns_chr_ram: bool) -> (c: Cart)
        requires
            chr_ram matches Some(r) ==> r@.len() == 0x2000,
        ensures
            c.wf(),
            c.ciram@ == Seq::new(2048, |i: int| crate::sram::POWER_ON_FILL),
            c.chr_ram == if owns_chr_ram { None } else { chr_ram },
            c.dot == 0,
    {
        Cart { ciram: Tmm2115::new(), chr_ram: if owns_chr_ram { None } else { chr_ram }, dot: 0 }
    }

    /// A PPU read of `a`. `pins` are the cartridge's CIRAM A10 and /CE
    /// for `a`, `chr` what its CHR gives at `a` (`None`: nothing, read
    /// as zero).
    pub fn ppu_read(&self, a: u16, pins: (bool, bool), chr: Option<u8>) -> (v: u8)
        requires
            self.wf(),
        ensures
            v == match spec_ppu_target(a, self.chr_ram is Some, pins.0, pins.1) {
                PpuTarget::ChrRam(x) => self.chr_ram->0@[x as int],
                PpuTarget::Chr(_) => match chr {
                    Some(x) => x,
                    None => 0,
                },
                PpuTarget::Ciram(c) => self.ciram@[cell_of(c)],
                PpuTarget::Nothing => 0,
            },
    {
        match ppu_target(a, self.chr_ram.is_some(), pins.0, pins.1) {
            PpuTarget::ChrRam(x) => match &self.chr_ram {
                Some(r) => r[x as usize],
                None => 0,
            },
            PpuTarget::Chr(_) => match chr {
                Some(x) => x,
                None => 0,
            },
            PpuTarget::Ciram(c) => self.ciram.read(c),
            PpuTarget::Nothing => 0,
        }
    }

    /// A PPU write of `v` to `a`, `pins` as for a read. The target it
    /// returns is `Chr` when the byte is the cartridge's to take.
    pub fn ppu_write(&mut self, a: u16, v: u8, pins: (bool, bool)) -> (t: PpuTarget)
        requires
            old(self).wf(),
        ensures
            final(self).wf(),
            t == spec_ppu_target(a, old(self).chr_ram is Some, pins.0, pins.1),
            final(self).dot == old(self).dot,
            final(self).chr_ram is Some == old(self).chr_ram is Some,
            final(self).chr_ram matches Some(r) ==> r@ == match t {
                PpuTarget::ChrRam(x) => old(self).chr_ram->0@.update(x as int, v),
                _ => old(self).chr_ram->0@,
            },
            final(self).ciram@ == match t {
                PpuTarget::Ciram(c) => old(self).ciram@.update(cell_of(c), v),
                _ => old(self).ciram@,
            },
    {
        let t = ppu_target(a, self.chr_ram.is_some(), pins.0, pins.1);
        match t {
            PpuTarget::ChrRam(x) => {
                let mut ram = self.chr_ram.take();
                match &mut ram {
                    Some(r) => {
                        r.set(x as usize, v);
                    },
                    None => {},
                }
                self.chr_ram = ram;
            },
            PpuTarget::Ciram(c) => {
                self.ciram.write(c, v);
            },
            _ => {},
        }
        t
    }
}

} // verus!
