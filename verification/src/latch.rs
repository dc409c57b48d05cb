//! U8, a 74LS373 octal transparent latch, between the PPU's multiplexed
//! AD0..AD7 and the cartridge's PPU A0..A7.
//!
//! While the latch enable (LE, wired to the PPU's ALE) is HIGH the
//! outputs follow the inputs; when LE goes LOW the outputs hold whatever
//! the inputs were as it fell. /OE is grounded, so the outputs always
//! drive.

use vstd::prelude::*;

verus! {

#[derive(Clone, Copy, PartialEq, Eq, Debug)]
pub struct Ls373 {
    q: u8,
    le: bool,
}

impl Default for Ls373 {
    fn default() -> (l: Ls373)
        ensures
            l.output() == 0,
            !l.enable(),
    {
        Ls373 { q: 0, le: false }
    }
}

impl Ls373 {
    /// Q as it stands.
    pub closed spec fn output(self) -> u8 {
        self.q
    }

    /// LE as last presented.
    pub closed spec fn enable(self) -> bool {
        self.le
    }

    /// The latch after LE and D are presented for one instant.
    pub closed spec fn stepped(self, le: bool, d: u8) -> Ls373 {
        Ls373 { q: if le { d } else { self.q }, le }
    }

    /// The latch after a run of instants, in order.
    pub open spec fn run(self, steps: Seq<(bool, u8)>) -> Ls373
        decreases steps.len(),
    {
        if steps.len() == 0 {
            self
        } else {
            self.stepped(steps[0].0, steps[0].1).run(steps.drop_first())
        }
    }

    pub fn new() -> (l: Ls373)
        ensures
            l.output() == 0,
            !l.enable(),
    {
        Ls373 { q: 0, le: false }
    }

    /// Present LE and D for one instant; returns Q as the datasheet
    /// says, and whether this instant was LE's falling edge (the moment
    /// a downstream watcher samples on).
    pub fn step(&mut self, le: bool, d: u8) -> (r: (u8, bool))
        ensures
            *final(self) == old(self).stepped(le, d),
            final(self).output() == (if le { d } else { old(self).output() }),
            final(self).enable() == le,
            r == (final(self).output(), old(self).enable() && !le),
    {
        let fell = self.le && !le;
        if le {
            self.q = d;
        }
        self.le = le;
        (self.q, fell)
    }

    pub fn q(&self) -> (q: u8)
        ensures
            q == self.output(),
    {
        self.q
    }
}

/// While LE stays low, Q holds whatever it held, whatever D does.
pub proof fn lemma_low_holds(l: Ls373, rest: Seq<(bool, u8)>)
    requires
        forall|i: int| 0 <= i < rest.len() ==> !(#[trigger] rest[i]).0,
    ensures
        l.run(rest).output() == l.output(),
    decreases rest.len(),
{
    if rest.len() > 0 {
        assert forall|i: int| 0 <= i < rest.drop_first().len() implies !(#[trigger] rest.drop_first()[i]).0 by {
            assert(rest.drop_first()[i] == rest[i + 1]);
        }
        assert(!rest[0].0);
        lemma_low_holds(l.stepped(rest[0].0, rest[0].1), rest.drop_first());
    }
}

/// Transparent while LE is high, holding from its fall: after an
/// instant with LE high and D at `d`, any run of instants with LE low
/// leaves Q at `d`, whatever D does.
pub proof fn lemma_holds_from_the_fall(l: Ls373, d: u8, rest: Seq<(bool, u8)>)
    requires
        forall|i: int| 0 <= i < rest.len() ==> !(#[trigger] rest[i]).0,
    ensures
        l.stepped(true, d).run(rest).output() == d,
{
    lemma_low_holds(l.stepped(true, d), rest);
}

} // verus!
