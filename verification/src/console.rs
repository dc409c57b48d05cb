//! The scheduler's arithmetic: one master half-step counter, the CPU on
//! every twelfth tick and the PPU on every eighth, where inside the
//! twelve and the eight each chip's edge falls (the power-on
//! alignment), and where in the PPU's frame the vertical sync begins.
//!
//! The unit is the MASTER HALF-STEP (one toggle of the 21.477272 MHz
//! clock). The CPU's half-cycle is twelve of them and the PPU's dot is
//! eight, so a CPU cycle is three dots. `Clock::tick` says which chips
//! fall on each half-step; the chips themselves are stepped by whoever
//! holds them.

use vstd::prelude::*;

verus! {

/// Which of the twelve master half-steps the CPU's half-cycle lands on,
/// and which of the eight the PPU's dot does. MEASURED off the two
/// switch-level chips' own power-on recipes, each stepped on its master
/// clock from the last pulse of its reset: the 2A03's clk0 changes on
/// master half-steps 4, 16, 28, ... and the 2C02's pclk0 rises on 3,
/// 11, 19, ..., so with both started together a CPU half-cycle begins
/// on half-step 4 mod 12 and a dot on 3 mod 8.
///
/// `cpu_phase` is the master half-step of the CPU's first half-cycle,
/// a phi1, and every twelfth after it is the next; it ranges over a
/// whole CPU cycle, 0 to 23. `ppu_phase` is the master half-step of the
/// first dot, 0 to 7.
#[derive(Clone, Copy, PartialEq, Eq, Debug, Structural)]
pub struct Alignment {
    pub cpu_phase: u8,
    pub ppu_phase: u8,
}

/// The alignment measured off the two dies: the CPU on half-step 4,
/// the PPU on 3.
pub open spec fn spec_measured() -> Alignment {
    Alignment { cpu_phase: 4, ppu_phase: 3 }
}

impl Alignment {
    /// The alignment measured off the two dies.
    pub fn measured() -> (a: Alignment)
        ensures
            a == spec_measured(),
    {
        Alignment { cpu_phase: 4, ppu_phase: 3 }
    }
}

impl Default for Alignment {
    fn default() -> (a: Alignment)
        ensures
            a == spec_measured(),
    {
        Alignment::measured()
    }
}

/// A place in the PPU's frame: the line (261, the pre-render line,
/// first, then 0..=260) and the dot on it (0..=340).
#[derive(Clone, Copy, PartialEq, Eq, Debug, Structural)]
pub struct Position {
    pub line: usize,
    pub dot: usize,
}

/// Lines in the PPU's frame.
pub const LINES: usize = 262;

/// Where the vertical sync begins in the PPU's frame, as the
/// switch-level 2C02 emits it: the sync-tip leg asserted from row 244
/// dot 280 through row 245 dot 257, three such pulses a row apart. In
/// the PPU's own dot count.
pub const VSYNC_ONSET_LINE: usize = 244;
pub const VSYNC_ONSET_DOT: usize = 280;

/// The vertical sync's onset as a position.
pub fn vsync_onset() -> (p: Position)
    ensures
        p == (Position { line: VSYNC_ONSET_LINE, dot: VSYNC_ONSET_DOT }),
{
    Position { line: VSYNC_ONSET_LINE, dot: VSYNC_ONSET_DOT }
}

/// A position at or after the vertical sync's onset, the pre-render
/// line (which begins the frame) excepted.
pub open spec fn spec_after_vsync_onset(p: Position) -> bool {
    p.line != LINES - 1 && (p.line > VSYNC_ONSET_LINE || (p.line == VSYNC_ONSET_LINE && p.dot >= VSYNC_ONSET_DOT))
}

/// Whether a position in the PPU's frame comes after the vertical
/// sync's onset, so the next sync is the following frame's.
pub fn after_vsync_onset(p: Position) -> (r: bool)
    ensures
        r == spec_after_vsync_onset(p),
{
    p.line != LINES - 1 && (p.line > VSYNC_ONSET_LINE || (p.line == VSYNC_ONSET_LINE && p.dot >= VSYNC_ONSET_DOT))
}

/// The index of the picture a capture triggered at a latch that fell
/// at `pos` in frame `fell_in` hands back: the picture after the frame
/// it fell in, or the one after that when the latch fell after the
/// sync's onset.
pub fn picture_after_latch(fell_in: usize, pos: Position) -> (i: usize)
    requires
        fell_in + 2 <= usize::MAX,
    ensures
        i == fell_in + if spec_after_vsync_onset(pos) { 2int } else { 1int },
{
    fell_in + if after_vsync_onset(pos) { 2 } else { 1 }
}

/// A PPU dot begins on master half-step `m`.
pub open spec fn dot_at(a: Alignment, m: int) -> bool {
    m % 8 == a.ppu_phase as int
}

/// A CPU half-cycle begins on master half-step `m`.
pub open spec fn cpu_at(a: Alignment, m: int) -> bool {
    m >= a.cpu_phase as int && (m - a.cpu_phase as int) % 12 == 0
}

/// How many PPU dots begin on the first `m` master half-steps.
pub open spec fn dots_before(a: Alignment, m: int) -> nat
    decreases m,
{
    if m <= 0 {
        0
    } else {
        dots_before(a, m - 1) + if dot_at(a, m - 1) { 1nat } else { 0 }
    }
}

/// How many CPU half-cycles begin on the first `m` master half-steps.
pub open spec fn cpu_before(a: Alignment, m: int) -> nat
    decreases m,
{
    if m <= 0 {
        0
    } else {
        cpu_before(a, m - 1) + if cpu_at(a, m - 1) { 1nat } else { 0 }
    }
}

/// Where a CPU half-cycle beginning on `m` begins inside the dot last
/// stepped, in master half-steps.
pub open spec fn into_dot(a: Alignment, m: int) -> u8 {
    ((m + 8 - a.ppu_phase as int) % 8) as u8
}

/// The alignment places the first edges: the first dot on half-step
/// `ppu_phase` and none before it, a dot every 8 half-steps from then
/// on and only there; the first CPU half-cycle on half-step `cpu_phase`
/// and none before it, one every 12 half-steps from then on and only
/// there.
pub proof fn lemma_the_alignment_places_the_edges(a: Alignment, m: int)
    requires
        a.ppu_phase < 8,
        m >= 0,
    ensures
        dot_at(a, a.ppu_phase as int),
        m < a.ppu_phase ==> !dot_at(a, m),
        dot_at(a, m) == dot_at(a, m + 8),
        forall|j: int| 0 < j < 8 ==> !(dot_at(a, m) && #[trigger] dot_at(a, m + j)),
        cpu_at(a, a.cpu_phase as int),
        m < a.cpu_phase ==> !cpu_at(a, m),
        m >= a.cpu_phase ==> cpu_at(a, m) == cpu_at(a, m + 12),
        forall|j: int| 0 < j < 12 ==> !(cpu_at(a, m) && #[trigger] cpu_at(a, m + j)),
{
    assert forall|j: int| 0 < j < 8 implies !(dot_at(a, m) && #[trigger] dot_at(a, m + j)) by {
        assert(m % 8 != (m + j) % 8) by (nonlinear_arith)
            requires
                0 < j < 8,
                m >= 0,
        ;
    }
    assert forall|j: int| 0 < j < 12 implies !(cpu_at(a, m) && #[trigger] cpu_at(a, m + j)) by {
        let c = a.cpu_phase as int;
        if m >= c {
            assert((m - c) % 12 != (m + j - c) % 12) by (nonlinear_arith)
                requires
                    0 < j < 12,
                    m >= c,
            ;
        }
    }
}

/// Where a CPU half-cycle falls inside the dot, under any alignment: the
/// offset `k` is under 8, a dot began `k` half-steps before (on
/// `m - k`), and none began between then and `m`. So it is the distance
/// back to the last dot the clock's own PPU phase put down.
pub proof fn lemma_into_dot_is_the_distance_to_the_last_dot(a: Alignment, m: int)
    requires
        a.ppu_phase < 8,
    ensures
        into_dot(a, m) < 8,
        dot_at(a, m - into_dot(a, m) as int),
        forall|j: int| 0 <= j < into_dot(a, m) ==> !dot_at(a, #[trigger] (m - j)),
{
    let k = (m + 8 - a.ppu_phase as int) % 8;
    let p = a.ppu_phase as int;
    assert(0 <= k < 8);
    assert((m - k) % 8 == p) by (nonlinear_arith)
        requires
            k == (m + 8 - p) % 8,
            0 <= p < 8,
    ;
    assert forall|j: int| 0 <= j < k implies !dot_at(a, #[trigger] (m - j)) by {
        assert((m - j) % 8 != p) by (nonlinear_arith)
            requires
                k == (m + 8 - p) % 8,
                0 <= p < 8,
                0 <= j < k,
        ;
    }
}

/// What falls on one master half-step: a PPU dot or not, and a CPU
/// half-cycle (with where it begins inside the dot) or not.
#[derive(Clone, Copy, PartialEq, Eq, Debug, Structural)]
pub struct Tick {
    /// The master half-step this is.
    pub master: u64,
    /// The PPU steps a dot on it (first: its /INT is what the CPU
    /// samples as its half-cycle begins).
    pub dot: bool,
    /// The CPU steps a half-cycle on it, this many master half-steps
    /// into the dot.
    pub cpu: Option<u8>,
}

/// The console's clock: the alignment and the three counters.
pub struct Clock {
    pub alignment: Alignment,
    /// Master half-steps since power-on.
    pub master: u64,
    pub cpu_half_cycles: u64,
    pub dots: u64,
}

impl Clock {
    /// The counters agree with the master count: each is how many of
    /// its edges fell on the half-steps gone by.
    pub open spec fn wf(&self) -> bool {
        &&& self.alignment.ppu_phase < 8
        &&& self.dots == dots_before(self.alignment, self.master as int)
        &&& self.cpu_half_cycles == cpu_before(self.alignment, self.master as int)
    }

    /// The clock at power-on.
    pub fn new(alignment: Alignment) -> (c: Clock)
        requires
            alignment.ppu_phase < 8,
        ensures
            c.wf(),
            c.alignment == alignment,
            c.master == 0,
    {
        Clock { alignment, master: 0, cpu_half_cycles: 0, dots: 0 }
    }

    /// One master half-step: what falls on it, and the counters moved on.
    /// The master count is a `u64`; a step past its last value would
    /// overflow it.
    pub fn tick(&mut self) -> (t: Tick)
        requires
            old(self).wf(),
            old(self).master < u64::MAX,
        ensures
            final(self).wf(),
            final(self).alignment == old(self).alignment,
            final(self).master == old(self).master + 1,
            t.master == old(self).master,
            t.dot == dot_at(old(self).alignment, old(self).master as int),
            t.cpu == if cpu_at(old(self).alignment, old(self).master as int) {
                Some(into_dot(old(self).alignment, old(self).master as int))
            } else {
                None::<u8>
            },
            t.cpu matches Some(k) ==> k < 8 && dot_at(old(self).alignment, old(self).master - k) && forall|j: int|
                0 <= j < k ==> !dot_at(old(self).alignment, #[trigger] (old(self).master - j)),
    {
        let m = self.master;
        let a = self.alignment;
        proof {
            lemma_counts_bounded(a, m as int);
            lemma_into_dot_is_the_distance_to_the_last_dot(a, m as int);
        }
        let dot = m % 8 == a.ppu_phase as u64;
        if dot {
            self.dots += 1;
        }
        let cpu = if m >= a.cpu_phase as u64 && (m - a.cpu_phase as u64) % 12 == 0 {
            self.cpu_half_cycles += 1;
            let p = a.ppu_phase as u64;
            assert((m % 8 + 8 - p) % 8 == (m + 8 - p) % 8) by (nonlinear_arith)
                requires
                    p < 8,
            ;
            Some(((m % 8 + 8 - p) % 8) as u8)
        } else {
            None
        };
        self.master = m + 1;
        Tick { master: m, dot, cpu }
    }
}

/// No count outruns the master count.
proof fn lemma_counts_bounded(a: Alignment, m: int)
    requires
        m >= 0,
    ensures
        dots_before(a, m) <= m,
        cpu_before(a, m) <= m,
    decreases m,
{
    if m > 0 {
        lemma_counts_bounded(a, m - 1);
    }
}

/// The dots that begin on the first `m` half-steps, counted by formula.
proof fn lemma_dots_closed(a: Alignment, m: int)
    requires
        m >= 0,
        a.ppu_phase < 8,
    ensures
        dots_before(a, m) == if m <= a.ppu_phase as int { 0 } else { (m - a.ppu_phase as int - 1) / 8 + 1 },
    decreases m,
{
    if m > 0 {
        lemma_dots_closed(a, m - 1);
    }
}

/// The CPU half-cycles that begin on the first `m` half-steps, counted
/// by formula.
proof fn lemma_cpu_closed(a: Alignment, m: int)
    requires
        m >= 0,
    ensures
        cpu_before(a, m) == if m <= a.cpu_phase as int { 0 } else { (m - a.cpu_phase as int - 1) / 12 + 1 },
    decreases m,
{
    if m > 0 {
        lemma_cpu_closed(a, m - 1);
    }
}

/// A CPU cycle is three dots: once the CPU has begun, every 24 master
/// half-steps carry exactly two CPU half-cycles and three PPU dots,
/// whatever the alignment.
pub proof fn lemma_a_cpu_cycle_is_three_dots(a: Alignment, m: int)
    requires
        a.ppu_phase < 8,
        m >= a.cpu_phase as int,
    ensures
        cpu_before(a, m + 24) == cpu_before(a, m) + 2,
        dots_before(a, m + 24) == dots_before(a, m) + 3,
{
    lemma_cpu_closed(a, m);
    lemma_cpu_closed(a, m + 24);
    lemma_dots_closed(a, m);
    lemma_dots_closed(a, m + 24);
    let c = a.cpu_phase as int;
    let p = a.ppu_phase as int;
    if m <= c {
        assert(m == c);
        assert((m + 24 - c - 1) / 12 == 1);
    } else {
        assert((m + 24 - c - 1) / 12 == (m - c - 1) / 12 + 2);
    }
    if m <= p {
        assert((m + 24 - p - 1) / 8 + 1 == 3) by {
            assert(16 <= m + 24 - p - 1 < 24);
        }
    } else {
        assert((m + 24 - p - 1) / 8 == (m - p - 1) / 8 + 3);
    }
}

/// The clock follows the alignment: moving the CPU's phase by twelve
/// half-steps moves every CPU half-cycle by one, so by any master count
/// past both phases the later phase has counted exactly one fewer.
pub proof fn lemma_a_later_phase_counts_one_fewer(a: Alignment, b: Alignment, m: int)
    requires
        b.cpu_phase == a.cpu_phase + 12,
        m >= b.cpu_phase as int,
    ensures
        cpu_before(b, m) + 1 == cpu_before(a, m),
{
    lemma_cpu_closed(a, m);
    lemma_cpu_closed(b, m);
    let c = a.cpu_phase as int;
    if m == c + 12 {
        assert((m - c - 1) / 12 == 0);
    } else {
        assert((m - c - 1) / 12 == (m - c - 13) / 12 + 1);
    }
}

} // verus!
