//! U9 and U10, the 74LS368 inverting three-state buffers on the
//! controller read path, and the standard controller (a 4021 shift
//! register) on the other end of it.
//!
//! An enabled buffer output is its input inverted; a disabled output
//! floats, so the bits the buffers do not drive keep the open bus.
//! The 4021 loads the eight buttons while OUT0 is high, holds them from
//! OUT0's fall, and shifts one out per read in the order A, B, Select,
//! Start, Up, Down, Left, Right; past the eighth the port line sits low.

use vstd::prelude::*;

verus! {

/// The eight buttons in the shift register's order, bit 0 first out.
#[derive(Clone, Copy, PartialEq, Eq, Debug, Default)]
pub struct Buttons {
    pub a: bool,
    pub b: bool,
    pub select: bool,
    pub start: bool,
    pub up: bool,
    pub down: bool,
    pub left: bool,
    pub right: bool,
}

/// Bit `i` of a byte (0 the least significant), as a level.
pub open spec fn bit(x: u8, i: nat) -> bool {
    (x >> (i as u8)) & 1u8 == 1u8
}

/// The value of a flag as a bit.
pub open spec fn b2n(x: bool) -> nat {
    if x { 1 } else { 0 }
}

impl Buttons {
    /// Button `i` in shift order: 0 is A, 7 is Right.
    pub open spec fn button(self, i: nat) -> bool {
        if i == 0 { self.a }
        else if i == 1 { self.b }
        else if i == 2 { self.select }
        else if i == 3 { self.start }
        else if i == 4 { self.up }
        else if i == 5 { self.down }
        else if i == 6 { self.left }
        else if i == 7 { self.right }
        else { false }
    }

    /// The buttons as the register loads them: A in bit 0 up to Right
    /// in bit 7.
    pub open spec fn spec_byte(self) -> nat {
        b2n(self.a) + 2 * b2n(self.b) + 4 * b2n(self.select) + 8 * b2n(self.start)
            + 16 * b2n(self.up) + 32 * b2n(self.down) + 64 * b2n(self.left) + 128 * b2n(self.right)
    }

    pub fn as_byte(self) -> (r: u8)
        ensures
            r as nat == self.spec_byte(),
    {
        let (x0, x1, x2, x3) = (self.a as u8, self.b as u8, self.select as u8, self.start as u8);
        let (x4, x5, x6, x7) = (self.up as u8, self.down as u8, self.left as u8, self.right as u8);
        let r = x0 | x1 << 1u8 | x2 << 2u8 | x3 << 3u8 | x4 << 4u8 | x5 << 5u8 | x6 << 6u8 | x7 << 7u8;
        assert(r == x0 + 2 * x1 + 4 * x2 + 8 * x3 + 16 * x4 + 32 * x5 + 64 * x6 + 128 * x7) by (bit_vector)
            requires
                x0 <= 1 && x1 <= 1 && x2 <= 1 && x3 <= 1 && x4 <= 1 && x5 <= 1 && x6 <= 1 && x7 <= 1,
                r == x0 | x1 << 1u8 | x2 << 2u8 | x3 << 3u8 | x4 << 4u8 | x5 << 5u8 | x6 << 6u8 | x7 << 7u8;
        r
    }
}


/// A standard controller: the 4021, from the port's side.
#[derive(Clone, Copy, PartialEq, Eq, Debug)]
pub struct Controller {
    pub buttons: Buttons,
    /// The register, bit 0 next out; ones shift in from the top.
    shift: u8,
    strobe: bool,
}

impl Default for Controller {
    /// Power-on: nothing pressed, the register empty, OUT0 low.
    fn default() -> (c: Controller)
        ensures
            c.held() == (Buttons { a: false, b: false, select: false, start: false, up: false, down: false, left: false, right: false }),
            c.shift_reg() == 0,
            !c.strobe_high(),
    {
        Controller {
            buttons: Buttons { a: false, b: false, select: false, start: false, up: false, down: false, left: false, right: false },
            shift: 0,
            strobe: false,
        }
    }
}

impl Controller {
    /// The buttons held on the controller.
    pub closed spec fn held(self) -> Buttons {
        self.buttons
    }

    /// The register's contents, bit 0 the next out.
    pub closed spec fn shift_reg(self) -> u8 {
        self.shift
    }

    /// OUT0 as last presented.
    pub closed spec fn strobe_high(self) -> bool {
        self.strobe
    }

    /// The controller after OUT0 is presented at `out0`.
    pub closed spec fn strobed(self, out0: bool) -> Controller {
        Controller {
            buttons: self.buttons,
            shift: if out0 || self.strobe { self.buttons.spec_byte() as u8 } else { self.shift },
            strobe: out0,
        }
    }

    /// The same controller with other buttons held.
    pub closed spec fn with_buttons(self, b: Buttons) -> Controller {
        Controller { buttons: b, ..self }
    }

    /// What a read finds at the head of the register: the buttons as
    /// they stand while OUT0 is high, the register otherwise.
    pub open spec fn loaded(self) -> u8 {
        if self.strobe_high() { self.held().spec_byte() as u8 } else { self.shift_reg() }
    }

    /// The port line's level on a read: low when the head bit is a
    /// pressed button.
    pub open spec fn read_level(self) -> bool {
        !bit(self.loaded(), 0)
    }

    /// The register after one read: unchanged while loading, else
    /// shifted down with a one in at the top.
    pub open spec fn after_read_reg(self) -> u8 {
        if self.strobe_high() { self.loaded() } else { ((self.loaded() >> 1u8) | 0x80u8) as u8 }
    }

    /// The register after `n` reads with OUT0 held where it is.
    pub open spec fn reg_after_reads(self, n: nat) -> u8
        decreases n,
    {
        if n == 0 {
            self.loaded()
        } else if self.strobe_high() {
            self.loaded()
        } else {
            let r = self.reg_after_reads((n - 1) as nat);
            ((r >> 1u8) | 0x80u8) as u8
        }
    }

    /// The level the read numbered `n` (from 0) shows, OUT0 held.
    pub open spec fn level_of_read(self, n: nat) -> bool {
        !bit(self.reg_after_reads(n), 0)
    }

    /// OUT0 as the console drives it: high keeps the register loading
    /// (so every read returns A), and the fall latches the buttons as
    /// they stand then.
    pub fn strobe(&mut self, out0: bool)
        ensures
            *final(self) == old(self).strobed(out0),
            final(self).held() == old(self).held(),
            final(self).strobe_high() == out0,
            final(self).shift_reg() == (if out0 || old(self).strobe_high() {
                old(self).held().spec_byte() as u8
            } else {
                old(self).shift_reg()
            }),
    {
        if out0 || self.strobe {
            self.shift = self.buttons.as_byte();
        }
        self.strobe = out0;
    }

    /// Hold other buttons: the register and OUT0 are left as they are,
    /// so the change shows only at the next load.
    pub fn set_buttons(&mut self, b: Buttons)
        ensures
            *final(self) == old(self).with_buttons(b),
            final(self).held() == b,
            final(self).shift_reg() == old(self).shift_reg(),
            final(self).strobe_high() == old(self).strobe_high(),
    {
        self.buttons = b;
    }

    /// The data line's LEVEL at the port for one read, and the shift the
    /// read's clock causes: low when the button now at the head of the
    /// register is pressed, and low (a 1 on D0) for every read past the
    /// eighth.
    pub fn read(&mut self) -> (level: bool)
        ensures
            level == old(self).read_level(),
            final(self).held() == old(self).held(),
            final(self).strobe_high() == old(self).strobe_high(),
            final(self).shift_reg() == old(self).after_read_reg(),
    {
        if self.strobe {
            self.shift = self.buttons.as_byte();
        }
        let pressed = self.shift & 1 != 0;
        proof {
            let x = self.shift;
            assert((x & 1u8 != 0u8) == ((x >> 0u8) & 1u8 == 1u8)) by (bit_vector);
        }
        if !self.strobe {
            self.shift = (self.shift >> 1u8) | 0x80u8;
        }
        !pressed
    }
}

/// One read's step of the register with OUT0 low: bit `j` of the result
/// is bit `j + 1` of what was there, and the top bit is a one.
proof fn lemma_shift_step_bits(x: u8, j: u8)
    requires
        j < 8,
    ensures
        ((((x >> 1u8) | 0x80u8) as u8 >> j) & 1u8 == 1u8) == (if j < 7 {
            (x >> ((j + 1) as u8)) & 1u8 == 1u8
        } else {
            true
        }),
{
    assert(((((x >> 1u8) | 0x80u8) as u8 >> j) & 1u8 == 1u8) == (if j < 7 {
        (x >> ((j + 1) as u8)) & 1u8 == 1u8
    } else {
        true
    })) by (bit_vector)
        requires
            j < 8,
    ;
}

/// With OUT0 low, `n` reads move bit `j + n` of the latched byte to
/// bit `j`, and fill the top with ones.
proof fn lemma_reg_after_reads_bits(c: Controller, n: nat, j: nat)
    requires
        !c.strobe_high(),
        j < 8,
    ensures
        bit(c.reg_after_reads(n), j) == (if j + n < 8 { bit(c.loaded(), j + n) } else { true }),
    decreases n,
{
    if n > 0 {
        let r = c.reg_after_reads((n - 1) as nat);
        lemma_shift_step_bits(r, j as u8);
        if j < 7 {
            lemma_reg_after_reads_bits(c, (n - 1) as nat, j + 1);
        }
    }
}

/// The byte the register loads holds button `i` at bit `i`.
proof fn lemma_byte_bits(b: Buttons, i: nat)
    requires
        i < 8,
    ensures
        bit(b.spec_byte() as u8, i) == b.button(i),
{
    let (x0, x1, x2, x3) = (b2n(b.a) as u8, b2n(b.b) as u8, b2n(b.select) as u8, b2n(b.start) as u8);
    let (x4, x5, x6, x7) = (b2n(b.up) as u8, b2n(b.down) as u8, b2n(b.left) as u8, b2n(b.right) as u8);
    let y = (x0 + 2 * x1 + 4 * x2 + 8 * x3 + 16 * x4 + 32 * x5 + 64 * x6 + 128 * x7) as u8;
    assert(y == b.spec_byte() as u8);
    let k = i as u8;
    assert(((y >> k) & 1u8 == 1u8) == (if k == 0 { x0 == 1 } else if k == 1 { x1 == 1 } else if k == 2 {
        x2 == 1
    } else if k == 3 { x3 == 1 } else if k == 4 { x4 == 1 } else if k == 5 { x5 == 1 } else if k == 6 {
        x6 == 1
    } else { x7 == 1 })) by (bit_vector)
        requires
            x0 <= 1 && x1 <= 1 && x2 <= 1 && x3 <= 1 && x4 <= 1 && x5 <= 1 && x6 <= 1 && x7 <= 1,
            k < 8,
            y == (x0 + 2 * x1 + 4 * x2 + 8 * x3 + 16 * x4 + 32 * x5 + 64 * x6 + 128 * x7) as u8,
    ;
}

/// With OUT0 low after its fall, read number `n` (from 0) shows the
/// buttons in the order A, B, Select, Start, Up, Down, Left, Right, a
/// pressed button as a low line, and every read past the eighth shows
/// the line low.
pub proof fn lemma_reads_come_out_in_order(c: Controller, n: nat)
    requires
        !c.strobe_high(),
        c.shift_reg() as nat == c.held().spec_byte(),
    ensures
        c.level_of_read(n) == (if n < 8 { !c.held().button(n) } else { false }),
{
    lemma_reg_after_reads_bits(c, n, 0);
    if n < 8 {
        lemma_byte_bits(c.held(), n);
    }
}

/// While OUT0 is high the register keeps reloading, so every read
/// shows A.
pub proof fn lemma_held_strobe_reads_a(c: Controller, n: nat)
    requires
        c.strobe_high(),
    ensures
        c.level_of_read(n) == !c.held().a,
{
    lemma_byte_bits(c.held(), 0);
}

/// OUT0's rise and fall leave the register holding the buttons as they
/// stood at the fall, ready to shift out.
pub proof fn lemma_strobe_pulse_latches(c: Controller, b: Buttons)
    ensures
        ({
            let c1 = c.strobed(true);
            let c2 = c1.with_buttons(b).strobed(false);
            !c2.strobe_high() && c2.shift_reg() as nat == b.spec_byte() && c2.held() == b
        }),
{
}

/// With OUT0 low, a read moves the register on by one: what read `n + 1`
/// would have shown before it is what read `n` shows after it.
pub proof fn lemma_a_read_moves_on_by_one(c: Controller, after: Controller, n: nat)
    requires
        !c.strobe_high(),
        !after.strobe_high(),
        after.shift_reg() == c.after_read_reg(),
    ensures
        after.reg_after_reads(n) == c.reg_after_reads(n + 1),
        after.level_of_read(n) == c.level_of_read(n + 1),
    decreases n,
{
    assert(c.reg_after_reads(n + 1) == ((c.reg_after_reads(n) >> 1u8) | 0x80u8) as u8);
    if n > 0 {
        lemma_a_read_moves_on_by_one(c, after, (n - 1) as nat);
        assert(after.reg_after_reads(n) == ((after.reg_after_reads((n - 1) as nat) >> 1u8) | 0x80u8) as u8);
    } else {
        assert(c.reg_after_reads(0) == c.loaded());
        assert(after.reg_after_reads(0) == after.loaded());
    }
}

/// Whatever state a controller is in, holding buttons `b` and pulsing
/// OUT0 high then low makes read `n` show button `n` of `b` (A, B,
/// Select, Start, Up, Down, Left, Right; pressed reads low), and the line
/// low for every read past the eighth.
pub proof fn lemma_a_pulse_then_reads_give_the_buttons(c: Controller, b: Buttons, n: nat)
    ensures
        c.with_buttons(b).strobed(true).strobed(false).level_of_read(n) == (if n < 8 {
            !b.button(n)
        } else {
            false
        }),
{
    let c2 = c.with_buttons(b).strobed(true).strobed(false);
    lemma_reads_come_out_in_order(c2, n);
}

/// U9's view of a $4016 read: D0 is port 1's data line inverted, D3
/// and D4 the two expansion lines inverted; every other bit is the
/// open bus.
pub open spec fn spec_4016_bit(port_data: bool, exp_d3: bool, exp_d4: bool, open_bus: u8, i: nat) -> bool {
    if i == 0 { !port_data }
    else if i == 3 { !exp_d3 }
    else if i == 4 { !exp_d4 }
    else { bit(open_bus, i) }
}

/// U10's view of a $4017 read: D0 is port 2's data line inverted,
/// D1..D4 the expansion lines inverted, D5..D7 the open bus.
pub open spec fn spec_4017_bit(port_data: bool, exp_d1_d4: Seq<bool>, open_bus: u8, i: nat) -> bool {
    if i == 0 { !port_data }
    else if i <= 4 { !exp_d1_d4[i - 1] }
    else { bit(open_bus, i) }
}

/// U9's view of a $4016 read: the three driven bits merged over the
/// open bus. `port_data` and the two expansion lines are pin levels.
pub fn read_4016(port_data: bool, exp_d3: bool, exp_d4: bool, open_bus: u8) -> (r: u8)
    ensures
        forall|i: nat| i < 8 ==> bit(r, i) == #[trigger] spec_4016_bit(port_data, exp_d3, exp_d4, open_bus, i),
{
    let (p, d3, d4) = ((!port_data) as u8, (!exp_d3) as u8, (!exp_d4) as u8);
    let driven = p | d3 << 3u8 | d4 << 4u8;
    let r = (open_bus & !0b0001_1001u8) | driven;
    assert forall|i: nat| i < 8 implies bit(r, i) == #[trigger] spec_4016_bit(port_data, exp_d3, exp_d4, open_bus, i) by {
        let k = i as u8;
        assert(((r >> k) & 1u8 == 1u8) == (if k == 0 { p == 1 } else if k == 3 { d3 == 1 } else if k == 4 {
            d4 == 1
        } else { (open_bus >> k) & 1u8 == 1u8 })) by (bit_vector)
            requires
                p <= 1 && d3 <= 1 && d4 <= 1,
                k < 8,
                r == (open_bus & !0b0001_1001u8) | (p | d3 << 3u8 | d4 << 4u8),
        ;
    }
    r
}

/// U10's view of a $4017 read: D0 from port 2, D1..D4 from the
/// expansion port, inverted; D5..D7 open bus.
pub fn read_4017(port_data: bool, exp_d1_d4: [bool; 4], open_bus: u8) -> (r: u8)
    ensures
        forall|i: nat| i < 8 ==> bit(r, i) == #[trigger] spec_4017_bit(port_data, exp_d1_d4@, open_bus, i),
{
    let mut driven: u8 = (!port_data) as u8;
    let mut i: usize = 0;
    assert forall|j: nat| j < 8 implies #[trigger] bit(driven, j) == (if j == 0 { !port_data } else { false }) by {
        let m = j as u8;
        let d = driven;
        assert(((d >> m) & 1u8 == 1u8) == (m == 0 && d == 1)) by (bit_vector)
            requires
                d <= 1,
                m < 8,
        ;
    }
    while i < 4
        invariant
            i <= 4,
            driven < 32,
            forall|j: nat| j < 8 ==> #[trigger] bit(driven, j) == (if j == 0 {
                !port_data
            } else if j <= i {
                !exp_d1_d4@[j - 1]
            } else {
                false
            }),
        decreases 4 - i,
    {
        let e = (!exp_d1_d4[i]) as u8;
        let old_driven = driven;
        let k = (i + 1) as u8;
        assert(!bit(old_driven, (i + 1) as nat));
        driven = driven | e << k;
        assert forall|j: nat| j < 8 implies #[trigger] bit(driven, j) == (if j == 0 {
            !port_data
        } else if j <= i + 1 {
            !exp_d1_d4@[j - 1]
        } else {
            false
        }) by {
            let m = j as u8;
            assert(((driven >> m) & 1u8 == 1u8) == (if m == k { e == 1 } else { (old_driven >> m) & 1u8 == 1u8 }))
                by (bit_vector)
                requires
                    e <= 1,
                    1 <= k < 5,
                    m < 8,
                    (old_driven >> k) & 1u8 != 1u8,
                    driven == old_driven | e << k,
            ;
            assert(bit(old_driven, j) == ((old_driven >> m) & 1u8 == 1u8));
        }
        assert(driven < 32) by (bit_vector)
            requires
                old_driven < 32,
                e <= 1,
                1 <= k < 5,
                driven == old_driven | e << k,
        ;
        i += 1;
    }
    let r = (open_bus & !0b0001_1111u8) | driven;
    assert forall|i: nat| i < 8 implies bit(r, i) == #[trigger] spec_4017_bit(port_data, exp_d1_d4@, open_bus, i) by {
        let k = i as u8;
        assert(((r >> k) & 1u8 == 1u8) == (if k < 5 { (driven >> k) & 1u8 == 1u8 } else {
            (open_bus >> k) & 1u8 == 1u8
        })) by (bit_vector)
            requires
                driven < 32,
                k < 8,
                r == (open_bus & !0b0001_1111u8) | driven,
        ;
        assert(bit(driven, i) == ((driven >> k) & 1u8 == 1u8));
    }
    r
}

} // verus!
