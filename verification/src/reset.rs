//! The power-on reset chain: the front panel's reset button (RST_PB),
//! the CIC lockout chip's reset output, and the /RESET line both chips
//! and the cartridge see.
//!
//! Pressing the button asserts /RESET at once; the CIC holds it asserted
//! for `HOLD_MASTER_CYCLES` after power comes up and after the button is
//! released. The hold's length is a placeholder (about 50 ms of the
//! 21.477272 MHz master clock) until a scope capture replaces it.

use vstd::prelude::*;

verus! {

/// How long the CIC holds /RESET low after power good or the button's
/// release, in master clock cycles: about 50 ms, a placeholder.
pub const HOLD_MASTER_CYCLES: u64 = 1_073_864;

#[derive(Clone, Copy, PartialEq, Eq, Debug)]
pub struct ResetChain {
    button: bool,
    /// Master cycles of hold remaining once the button is up.
    hold: u64,
}

impl Default for ResetChain {
    fn default() -> (r: ResetChain)
        ensures
            r == ResetChain::spec_power_on(),
    {
        ResetChain::power_on()
    }
}

impl ResetChain {
    /// Whether the button is down.
    pub closed spec fn pressed(self) -> bool {
        self.button
    }

    /// Master cycles of the hold still to run.
    pub closed spec fn hold_left(self) -> u64 {
        self.hold
    }

    /// The chain as power comes up: the hold starts, the button is up.
    pub closed spec fn spec_power_on() -> ResetChain {
        ResetChain { button: false, hold: HOLD_MASTER_CYCLES }
    }

    /// The chain after RST_PB is presented at `pressed`: a release
    /// starts the hold again.
    pub closed spec fn with_button(self, pressed: bool) -> ResetChain {
        ResetChain { button: pressed, hold: if self.button && !pressed { HOLD_MASTER_CYCLES } else { self.hold } }
    }

    /// The chain after `cycles` master cycles: the hold runs down only
    /// while the button is up.
    pub closed spec fn ticked(self, cycles: u64) -> ResetChain {
        ResetChain {
            button: self.button,
            hold: if self.button { self.hold } else if self.hold >= cycles { (self.hold - cycles) as u64 } else { 0 },
        }
    }

    /// /RESET's level: low (false) while the button is down or the hold
    /// runs.
    pub open spec fn spec_reset_n(self) -> bool {
        !(self.pressed() || self.hold_left() > 0)
    }

    /// Power comes up: the hold starts, the button is up.
    pub fn power_on() -> (r: ResetChain)
        ensures
            r == ResetChain::spec_power_on(),
            !r.pressed(),
            r.hold_left() == HOLD_MASTER_CYCLES,
    {
        ResetChain { button: false, hold: HOLD_MASTER_CYCLES }
    }

    /// RST_PB as a level: pressed = true.
    pub fn button(&mut self, pressed: bool)
        ensures
            *final(self) == old(self).with_button(pressed),
            final(self).pressed() == pressed,
            final(self).hold_left() == (if old(self).pressed() && !pressed {
                HOLD_MASTER_CYCLES
            } else {
                old(self).hold_left()
            }),
    {
        if self.button && !pressed {
            self.hold = HOLD_MASTER_CYCLES;
        }
        self.button = pressed;
    }

    /// Advance the master clock by `cycles`.
    pub fn tick(&mut self, cycles: u64)
        ensures
            *final(self) == old(self).ticked(cycles),
            final(self).pressed() == old(self).pressed(),
            final(self).hold_left() == (if old(self).pressed() {
                old(self).hold_left()
            } else if old(self).hold_left() >= cycles {
                (old(self).hold_left() - cycles) as u64
            } else {
                0
            }),
    {
        if !self.button {
            self.hold = self.hold.saturating_sub(cycles);
        }
    }

    /// /RESET's LEVEL: low (false) while asserted.
    pub fn reset_n(&self) -> (r: bool)
        ensures
            r == self.spec_reset_n(),
    {
        !(self.button || self.hold > 0)
    }
}

/// Two runs of the clock are one run of their sum.
pub proof fn lemma_ticks_compose(r: ResetChain, a: u64, b: u64)
    requires
        a + b <= u64::MAX,
    ensures
        r.ticked(a).ticked(b) == r.ticked((a + b) as u64),
{
}

/// From power good, /RESET stays asserted until the hold has run, and
/// is released from then on.
pub proof fn lemma_power_on_holds_then_releases(t: u64)
    ensures
        ResetChain::spec_power_on().ticked(t).spec_reset_n() == (t >= HOLD_MASTER_CYCLES),
{
}

/// The button asserts /RESET at once and holds it however long the
/// clock runs while it is down; its release starts the hold again.
pub proof fn lemma_button_asserts_and_release_holds(r: ResetChain, held: u64, t: u64)
    ensures
        !r.with_button(true).spec_reset_n(),
        !r.with_button(true).ticked(held).spec_reset_n(),
        r.with_button(true).ticked(held).with_button(false).ticked(t).spec_reset_n() == (t >= HOLD_MASTER_CYCLES),
{
}

/// One thing that happens to the chain: RST_PB presented at a level
/// (pressed = true), or the master clock run for some cycles.
#[derive(Clone, Copy, PartialEq, Eq, Debug)]
pub enum ResetEvent {
    Button(bool),
    Tick(u64),
}

/// The chain after `events`, in order, starting from `r`: each event is
/// a call of `button` or `tick`.
pub open spec fn after_events(r: ResetChain, events: Seq<ResetEvent>) -> ResetChain
    decreases events.len(),
{
    if events.len() == 0 {
        r
    } else {
        let before = after_events(r, events.drop_last());
        match events.last() {
            ResetEvent::Button(p) => before.with_button(p),
            ResetEvent::Tick(n) => before.ticked(n),
        }
    }
}

/// Whether the button is down after `events`, counted from power-on.
pub open spec fn button_down_after(events: Seq<ResetEvent>) -> bool
    decreases events.len(),
{
    if events.len() == 0 {
        false
    } else {
        match events.last() {
            ResetEvent::Button(p) => p,
            ResetEvent::Tick(_) => button_down_after(events.drop_last()),
        }
    }
}

/// Master cycles run since the later of power-on and the button's last
/// release (a change from down to up).
pub open spec fn cycles_since_release(events: Seq<ResetEvent>) -> int
    decreases events.len(),
{
    if events.len() == 0 {
        0
    } else {
        let before = events.drop_last();
        match events.last() {
            ResetEvent::Button(p) => if button_down_after(before) && !p {
                0
            } else {
                cycles_since_release(before)
            },
            ResetEvent::Tick(n) => cycles_since_release(before) + n,
        }
    }
}

/// What the chain holds after `events` from power-on: the button's
/// level, and while it is up, the hold that is left.
proof fn lemma_events_from_power_on(events: Seq<ResetEvent>)
    ensures
        after_events(ResetChain::spec_power_on(), events).pressed() == button_down_after(events),
        cycles_since_release(events) >= 0,
        !button_down_after(events) ==> after_events(ResetChain::spec_power_on(), events).hold_left() == (if cycles_since_release(events) >= HOLD_MASTER_CYCLES {
            0
        } else {
            HOLD_MASTER_CYCLES - cycles_since_release(events)
        }),
    decreases events.len(),
{
    if events.len() > 0 {
        lemma_events_from_power_on(events.drop_last());
    }
}

/// Over any run of button changes and clock runs after power-on,
/// /RESET is released exactly when the button is up and at least
/// `HOLD_MASTER_CYCLES` master cycles have run since the later of
/// power-on and the button's last release.
pub proof fn lemma_reset_follows_the_button_and_the_hold(events: Seq<ResetEvent>)
    ensures
        after_events(ResetChain::spec_power_on(), events).spec_reset_n() == (!button_down_after(events)
            && cycles_since_release(events) >= HOLD_MASTER_CYCLES),
{
    lemma_events_from_power_on(events);
}

} // verus!
