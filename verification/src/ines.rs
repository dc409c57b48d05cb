//! The iNES container, enough of it for the boards the console has: a
//! 16-byte header, PRG in 16 KiB units, CHR in 8 KiB units, the
//! mirroring bit, the mapper number. Mappers 0 (NROM), 1 (MMC1),
//! 2 (UxROM), 3 (CNROM), 4 (MMC3), 9 (MMC2) and 66 (GxROM, the bench's
//! own cartridge) are known; anything else (a trainer, four-screen, PAL,
//! every other mapper) is refused by name: a silent fallback here would
//! be a plausible wrong console.
//!
//! What a cartridge needs to be built is decided here: which board, and
//! the PRG and CHR it is handed. The board itself is the bus crate's.

use vstd::prelude::*;
use crate::text::{dec, push_dec, push_str};

verus! {

/// How the two nametables are wired: side by side (vertical
/// arrangement of mirrors) or one above the other.
#[derive(Clone, Copy, PartialEq, Eq, Debug, Structural)]
pub enum Mirroring {
    Horizontal,
    Vertical,
}

/// What the file holds.
#[derive(Clone, Debug, PartialEq, Eq)]
pub struct Ines {
    pub prg: Vec<u8>,
    pub chr: Vec<u8>,
    pub mirroring: Mirroring,
    pub mapper: u8,
    /// True when the header declares no CHR banks: the cartridge carries
    /// CHR RAM, 8 KiB, which NROM-with-RAM boards (and most of blargg's
    /// tests) use.
    pub chr_ram: bool,
    /// Flags 6 bit 1: the cartridge has a battery behind its RAM, so what
    /// a game writes at $6000..$7FFF is meant to outlive power-off.
    pub battery: bool,
}

/// The file's contents as values.
pub struct InesView {
    pub prg: Seq<u8>,
    pub chr: Seq<u8>,
    pub mirroring: Mirroring,
    pub mapper: u8,
    pub chr_ram: bool,
    pub battery: bool,
}

impl View for Ines {
    type V = InesView;

    open spec fn view(&self) -> InesView {
        InesView {
            prg: self.prg@,
            chr: self.chr@,
            mirroring: self.mirroring,
            mapper: self.mapper,
            chr_ram: self.chr_ram,
            battery: self.battery,
        }
    }
}

/// The four bytes every iNES file starts with: "NES" and MS-DOS's EOF.
pub open spec fn magic() -> Seq<u8> {
    seq![0x4eu8, 0x45u8, 0x53u8, 0x1au8]
}

/// The mapper number: the high nibble of flags 7 over the high nibble
/// of flags 6.
pub open spec fn mapper_of(f6: u8, f7: u8) -> u8 {
    (f7 / 16 * 16 + f6 / 16) as u8
}

/// What a file parses to, or why it is refused.
pub open spec fn spec_parse(b: Seq<u8>) -> Result<InesView, Seq<char>> {
    if b.len() < 16 || b.subrange(0, 4) != magic() {
        Err("not an iNES file (no NES<EOF> magic)"@)
    } else {
        let f6 = b[6];
        let prg_len = b[4] as int * 0x4000;
        let chr_len = b[5] as int * 0x2000;
        if f6 & 0x04 != 0 {
            Err("a trainer is present; out of scope"@)
        } else if f6 & 0x08 != 0 {
            Err("four-screen VRAM; out of scope"@)
        } else if b[9] & 1 != 0 {
            Err("a PAL header (flags 9, bit 0); out of scope"@)
        } else if b.len() < 16 + prg_len + chr_len {
            Err("file is "@ + dec(b.len()) + " bytes, header promises "@ + dec((16 + prg_len + chr_len) as nat))
        } else {
            Ok(
                InesView {
                    prg: b.subrange(16, 16 + prg_len),
                    chr: b.subrange(16 + prg_len, 16 + prg_len + chr_len),
                    mirroring: if f6 & 1 != 0 { Mirroring::Vertical } else { Mirroring::Horizontal },
                    mapper: mapper_of(f6, b[7]),
                    chr_ram: b[5] == 0,
                    battery: f6 & 0x02 != 0,
                },
            )
        }
    }
}

/// A copy of `b[from..to]`.
fn copy_range(b: &[u8], from: usize, to: usize) -> (v: Vec<u8>)
    requires
        from <= to <= b@.len(),
    ensures
        v@ == b@.subrange(from as int, to as int),
{
    let mut v: Vec<u8> = Vec::new();
    let mut i: usize = from;
    while i < to
        invariant
            from <= i <= to <= b@.len(),
            v@ == b@.subrange(from as int, i as int),
        decreases to - i,
    {
        v.push(b[i]);
        i += 1;
        assert(v@ =~= b@.subrange(from as int, i as int));
    }
    v
}

/// Read an iNES file: the header's promises checked against the bytes,
/// the PRG and CHR cut out of it.
pub fn parse(bytes: &[u8]) -> (r: Result<Ines, String>)
    ensures
        match (r, spec_parse(bytes@)) {
            (Ok(i), Ok(v)) => i@ == v,
            (Err(e), Err(m)) => e@ == m,
            _ => false,
        },
{
    if bytes.len() < 16 || !(bytes[0] == 0x4e && bytes[1] == 0x45 && bytes[2] == 0x53 && bytes[3] == 0x1a) {
        proof {
            if bytes@.len() >= 16 {
                assert(bytes@.subrange(0, 4)[0] == bytes@[0]);
                assert(bytes@.subrange(0, 4)[1] == bytes@[1]);
                assert(bytes@.subrange(0, 4)[2] == bytes@[2]);
                assert(bytes@.subrange(0, 4)[3] == bytes@[3]);
            }
        }
        return Err(String::from_str("not an iNES file (no NES<EOF> magic)"));
    }
    assert(bytes@.subrange(0, 4) =~= magic());
    let prg_banks = bytes[4] as usize;
    let chr_banks = bytes[5] as usize;
    let f6 = bytes[6];
    let f7 = bytes[7];
    let mapper = (f6 >> 4u8) | (f7 & 0xf0);
    assert(mapper == mapper_of(f6, f7)) by (bit_vector)
        requires
            mapper == (f6 >> 4u8) | (f7 & 0xf0),
    ;
    if f6 & 0x04 != 0 {
        return Err(String::from_str("a trainer is present; out of scope"));
    }
    if f6 & 0x08 != 0 {
        return Err(String::from_str("four-screen VRAM; out of scope"));
    }
    if bytes[9] & 1 != 0 {
        return Err(String::from_str("a PAL header (flags 9, bit 0); out of scope"));
    }
    let mirroring = if f6 & 1 != 0 { Mirroring::Vertical } else { Mirroring::Horizontal };
    let prg_len = prg_banks * 0x4000;
    let chr_len = chr_banks * 0x2000;
    if bytes.len() < 16 + prg_len + chr_len {
        let mut e = String::new();
        push_str(&mut e, "file is ");
        push_dec(&mut e, bytes.len() as u64);
        push_str(&mut e, " bytes, header promises ");
        push_dec(&mut e, (16 + prg_len + chr_len) as u64);
        return Err(e);
    }
    Ok(
        Ines {
            prg: copy_range(bytes, 16, 16 + prg_len),
            chr: copy_range(bytes, 16 + prg_len, 16 + prg_len + chr_len),
            mirroring,
            mapper,
            chr_ram: chr_banks == 0,
            battery: f6 & 0x02 != 0,
        },
    )
}

/// The boards the console has.
#[derive(Clone, Copy, PartialEq, Eq, Debug, Structural)]
pub enum CartBoard {
    Nrom,
    Mmc1,
    Uxrom,
    Cnrom,
    Mmc3,
    Mmc2,
    Gxrom,
}

/// A cartridge ready to build: the board, and what it is handed.
#[derive(Clone, Debug, PartialEq, Eq)]
pub struct CartPlan {
    pub board: CartBoard,
    pub prg: Vec<u8>,
    pub chr: Vec<u8>,
    pub mirroring: Mirroring,
}

/// A plan as values.
pub struct CartPlanView {
    pub board: CartBoard,
    pub prg: Seq<u8>,
    pub chr: Seq<u8>,
    pub mirroring: Mirroring,
}

impl View for CartPlan {
    type V = CartPlanView;

    open spec fn view(&self) -> CartPlanView {
        CartPlanView { board: self.board, prg: self.prg@, chr: self.chr@, mirroring: self.mirroring }
    }
}

/// 8 KiB of zeroes: the CHR RAM an NROM board with CHR RAM starts with.
pub open spec fn zero_chr() -> Seq<u8> {
    Seq::new(0x2000, |i: int| 0u8)
}

/// The plan for a board handed `chr`, the file's PRG and mirroring.
pub open spec fn plan(i: InesView, board: CartBoard, chr: Seq<u8>) -> CartPlanView {
    CartPlanView { board, prg: i.prg, chr, mirroring: i.mirroring }
}

/// The NROM plan, or why not.
pub open spec fn spec_nrom(i: InesView) -> Result<CartPlanView, Seq<char>> {
    if i.mapper != 0 {
        Err("mapper "@ + dec(i.mapper as nat) + " is out of scope; NROM only"@)
    } else {
        Ok(plan(i, CartBoard::Nrom, if i.chr_ram { zero_chr() } else { i.chr }))
    }
}

/// The plan the header names, or why not: mapper 0 as NROM (its CHR
/// RAM zeroed when it has one), 1 as MMC1 and 4 as MMC3 (handed an
/// empty CHR with CHR RAM: they keep and bank it themselves), 2 as
/// UxROM (CHR RAM only), 3 as CNROM, 9 as MMC2 and 66 as GxROM (CHR
/// ROM only), anything else refused by name.
pub open spec fn spec_cart(i: InesView) -> Result<CartPlanView, Seq<char>> {
    let own = if i.chr_ram { Seq::<u8>::empty() } else { i.chr };
    if i.mapper == 0 {
        spec_nrom(i)
    } else if i.mapper == 1 {
        Ok(plan(i, CartBoard::Mmc1, own))
    } else if i.mapper == 2 {
        if !i.chr_ram {
            Err("mapper 2 with "@ + dec(i.chr.len() / 1024) + " KiB of CHR ROM is not a UxROM board; UxROM carries CHR RAM"@)
        } else {
            Ok(plan(i, CartBoard::Uxrom, Seq::empty()))
        }
    } else if i.mapper == 3 {
        if i.chr_ram {
            Err("mapper 3 with CHR RAM is not a board this console has"@)
        } else {
            Ok(plan(i, CartBoard::Cnrom, i.chr))
        }
    } else if i.mapper == 4 {
        Ok(plan(i, CartBoard::Mmc3, own))
    } else if i.mapper == 9 {
        if i.chr_ram {
            Err("mapper 9 with CHR RAM is not a board this console has: MMC2's latches switch between banks of CHR ROM"@)
        } else {
            Ok(plan(i, CartBoard::Mmc2, i.chr))
        }
    } else if i.mapper == 66 {
        if i.chr_ram {
            Err("mapper 66 with CHR RAM is not a board this console has"@)
        } else {
            Ok(plan(i, CartBoard::Gxrom, i.chr))
        }
    } else {
        Err("mapper "@ + dec(i.mapper as nat)
            + " is out of scope; this console has NROM (0), MMC1 (1), UxROM (2), CNROM (3), MMC3 (4), MMC2 (9) and GxROM (66)"@)
    }
}

/// Only the seven boards the console has are ever planned: any other
/// mapper number is refused, and a planned board keeps the file's PRG
/// and mirroring.
pub proof fn lemma_only_known_boards(i: InesView)
    ensures
        spec_cart(i) is Ok ==> (i.mapper == 0 || i.mapper == 1 || i.mapper == 2 || i.mapper == 3 || i.mapper == 4
            || i.mapper == 9 || i.mapper == 66),
        spec_cart(i) matches Ok(p) ==> p.prg == i.prg && p.mirroring == i.mirroring,
{
}

/// Each mapper number the console knows is planned as its own board,
/// with the file's PRG and mirroring: 0 NROM, 1 MMC1, 2 UxROM, 3 CNROM,
/// 4 MMC3, 9 MMC2, 66 GxROM. NROM, MMC1 and MMC3 take either kind of
/// CHR (NROM with CHR RAM gets 8 KiB of zeroes; MMC1 and MMC3 keep
/// their RAM themselves and are handed none); UxROM only CHR RAM;
/// CNROM, MMC2 and GxROM only CHR ROM, which they are handed whole.
pub proof fn lemma_each_mapper_is_its_own_board(i: InesView)
    ensures
        i.mapper == 0 ==> spec_cart(i) == Ok::<CartPlanView, Seq<char>>(
            CartPlanView {
                board: CartBoard::Nrom,
                prg: i.prg,
                chr: if i.chr_ram { Seq::new(0x2000, |k: int| 0u8) } else { i.chr },
                mirroring: i.mirroring,
            },
        ),
        i.mapper == 1 ==> spec_cart(i) == Ok::<CartPlanView, Seq<char>>(
            CartPlanView {
                board: CartBoard::Mmc1,
                prg: i.prg,
                chr: if i.chr_ram { Seq::empty() } else { i.chr },
                mirroring: i.mirroring,
            },
        ),
        i.mapper == 2 ==> (spec_cart(i) is Ok <==> i.chr_ram),
        i.mapper == 2 && i.chr_ram ==> spec_cart(i) == Ok::<CartPlanView, Seq<char>>(
            CartPlanView { board: CartBoard::Uxrom, prg: i.prg, chr: Seq::empty(), mirroring: i.mirroring },
        ),
        i.mapper == 3 ==> (spec_cart(i) is Ok <==> !i.chr_ram),
        i.mapper == 3 && !i.chr_ram ==> spec_cart(i) == Ok::<CartPlanView, Seq<char>>(
            CartPlanView { board: CartBoard::Cnrom, prg: i.prg, chr: i.chr, mirroring: i.mirroring },
        ),
        i.mapper == 4 ==> spec_cart(i) == Ok::<CartPlanView, Seq<char>>(
            CartPlanView {
                board: CartBoard::Mmc3,
                prg: i.prg,
                chr: if i.chr_ram { Seq::empty() } else { i.chr },
                mirroring: i.mirroring,
            },
        ),
        i.mapper == 9 ==> (spec_cart(i) is Ok <==> !i.chr_ram),
        i.mapper == 9 && !i.chr_ram ==> spec_cart(i) == Ok::<CartPlanView, Seq<char>>(
            CartPlanView { board: CartBoard::Mmc2, prg: i.prg, chr: i.chr, mirroring: i.mirroring },
        ),
        i.mapper == 66 ==> (spec_cart(i) is Ok <==> !i.chr_ram),
        i.mapper == 66 && !i.chr_ram ==> spec_cart(i) == Ok::<CartPlanView, Seq<char>>(
            CartPlanView { board: CartBoard::Gxrom, prg: i.prg, chr: i.chr, mirroring: i.mirroring },
        ),
{
    if i.mapper == 0 && i.chr_ram {
        assert(zero_chr() =~= Seq::new(0x2000, |k: int| 0u8));
    }
}

/// The header's fields as a file that reads keeps them: the mapper's
/// low nibble from the top of flags 6 and its high nibble from the top
/// of flags 7, mirroring from bit 0 of flags 6 (set: vertical), the
/// battery from bit 1, CHR RAM when the header declares no CHR banks;
/// the PRG straight after the header and the CHR straight after it.
pub proof fn lemma_the_header_fields(b: Seq<u8>)
    ensures
        spec_parse(b) matches Ok(i) ==> {
            &&& i.mapper as int == b[6] as int / 16 + 16 * (b[7] as int / 16)
            &&& i.mirroring == (if b[6] % 2 == 1 { Mirroring::Vertical } else { Mirroring::Horizontal })
            &&& i.battery == (b[6] / 2 % 2 == 1)
            &&& i.chr_ram == (b[5] == 0)
            &&& i.prg == b.subrange(16, 16 + 0x4000 * b[4] as int)
            &&& i.chr == b.subrange(16 + 0x4000 * b[4] as int, 16 + 0x4000 * b[4] as int + 0x2000 * b[5] as int)
        },
{
    if let Ok(i) = spec_parse(b) {
        let f6 = b[6];
        assert(f6 & 1 != 0 <==> f6 % 2 == 1) by (bit_vector);
        assert(f6 & 2 != 0 <==> f6 / 2 % 2 == 1) by (bit_vector);
    }
}

/// A file that reads holds exactly what its header promises: 16 KiB of
/// PRG per bank and 8 KiB of CHR per bank, with no trainer, no
/// four-screen VRAM and no PAL timing.
pub proof fn lemma_the_header_is_kept(b: Seq<u8>)
    ensures
        spec_parse(b) matches Ok(i) ==> i.prg.len() == b[4] * 0x4000 && i.chr.len() == b[5] * 0x2000 && b[6] & 0x04
            == 0 && b[6] & 0x08 == 0 && b[9] & 1 == 0 && (i.chr_ram <==> i.chr.len() == 0),
{
}

/// A copy of a byte vector.
fn copy_all(v: &Vec<u8>) -> (c: Vec<u8>)
    ensures
        c@ == v@,
{
    copy_range(v.as_slice(), 0, v.len())
}

impl Ines {
    /// The cartridge as an NROM board. A CHR RAM board gets 8 KiB of
    /// zeroed CHR; refuses any mapper but 0.
    pub fn nrom(&self) -> (r: Result<CartPlan, String>)
        ensures
            match (r, spec_nrom(self@)) {
                (Ok(p), Ok(v)) => p@ == v,
                (Err(e), Err(m)) => e@ == m,
                _ => false,
            },
    {
        if self.mapper != 0 {
            let mut e = String::new();
            push_str(&mut e, "mapper ");
            push_dec(&mut e, self.mapper as u64);
            push_str(&mut e, " is out of scope; NROM only");
            return Err(e);
        }
        let chr = if self.chr_ram {
            let z = vec![0u8; 0x2000];
            assert(z@ =~= zero_chr());
            z
        } else {
            copy_all(&self.chr)
        };
        Ok(CartPlan { board: CartBoard::Nrom, prg: copy_all(&self.prg), chr, mirroring: self.mirroring })
    }

    /// The cartridge the header names; see `spec_cart`.
    pub fn cart(&self) -> (r: Result<CartPlan, String>)
        ensures
            match (r, spec_cart(self@)) {
                (Ok(p), Ok(v)) => p@ == v,
                (Err(e), Err(m)) => e@ == m,
                _ => false,
            },
            r matches Ok(p) ==> p.board == (if self.mapper == 0 {
                CartBoard::Nrom
            } else if self.mapper == 1 {
                CartBoard::Mmc1
            } else if self.mapper == 2 {
                CartBoard::Uxrom
            } else if self.mapper == 3 {
                CartBoard::Cnrom
            } else if self.mapper == 4 {
                CartBoard::Mmc3
            } else if self.mapper == 9 {
                CartBoard::Mmc2
            } else {
                CartBoard::Gxrom
            }),
            r is Ok <==> (self.mapper == 0 || self.mapper == 1 || self.mapper == 4 || (self.mapper == 2 && self.chr_ram)
                || ((self.mapper == 3 || self.mapper == 9 || self.mapper == 66) && !self.chr_ram)),
    {
        proof {
            lemma_each_mapper_is_its_own_board(self@);
            lemma_only_known_boards(self@);
        }
        let own = if self.chr_ram { Vec::new() } else { copy_all(&self.chr) };
        let board = match self.mapper {
            0 => return self.nrom(),
            1 => CartBoard::Mmc1,
            2 => {
                if !self.chr_ram {
                    let mut e = String::new();
                    push_str(&mut e, "mapper 2 with ");
                    push_dec(&mut e, (self.chr.len() / 1024) as u64);
                    push_str(&mut e, " KiB of CHR ROM is not a UxROM board; UxROM carries CHR RAM");
                    return Err(e);
                }
                CartBoard::Uxrom
            },
            3 => {
                if self.chr_ram {
                    return Err(String::from_str("mapper 3 with CHR RAM is not a board this console has"));
                }
                CartBoard::Cnrom
            },
            4 => CartBoard::Mmc3,
            9 => {
                if self.chr_ram {
                    return Err(
                        String::from_str(
                            "mapper 9 with CHR RAM is not a board this console has: MMC2's latches switch between banks of CHR ROM",
                        ),
                    );
                }
                CartBoard::Mmc2
            },
            66 => {
                if self.chr_ram {
                    return Err(String::from_str("mapper 66 with CHR RAM is not a board this console has"));
                }
                CartBoard::Gxrom
            },
            m => {
                let mut e = String::new();
                push_str(&mut e, "mapper ");
                push_dec(&mut e, m as u64);
                push_str(
                    &mut e,
                    " is out of scope; this console has NROM (0), MMC1 (1), UxROM (2), CNROM (3), MMC3 (4), MMC2 (9) and GxROM (66)",
                );
                return Err(e);
            },
        };
        let chr = if board == CartBoard::Uxrom { Vec::new() } else { own };
        Ok(CartPlan { board, prg: copy_all(&self.prg), chr, mirroring: self.mirroring })
    }
}

} // verus!
