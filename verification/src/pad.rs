//! Controller 1 from a gamepad, beside the keyboard: the layout that
//! puts a pad's buttons onto the NES pad, the left stick's directions
//! onto the D-pad, the keyboard's keys onto the NES pad, and the OR of
//! the two.
//!
//! The keyboard is controller 1: the arrows, Z and X for B and A, Enter
//! for Start, right Shift for Select.
//!
//! The layout is positional against the NES pad: the east and north
//! face buttons are A, the south and west are B (so a SNES-style thumb
//! lands on B and A where the NES puts them, and the lower pair alone
//! works too), Start and Select by name, the D-pad by name. The left
//! stick counts as a direction past a threshold on either axis; which
//! side of the threshold it stands is read off the pad by whoever polls
//! it, and handed here as -1, 0 or 1.

use vstd::prelude::*;
use crate::controller::Buttons;

verus! {

/// A gamepad's buttons, as far as the layout tells them apart.
#[derive(Clone, Copy, PartialEq, Eq, Debug, Structural)]
pub enum PadButton {
    East,
    North,
    South,
    West,
    Start,
    Select,
    DPadUp,
    DPadDown,
    DPadLeft,
    DPadRight,
    /// Any other: triggers, thumbs, the mode button, and the rest.
    Other,
}

/// The NES pad with the button the layout maps `button` to set to
/// `down`, the others as they were.
pub open spec fn with_button(b: Buttons, button: PadButton, down: bool) -> Buttons {
    match button {
        PadButton::East | PadButton::North => Buttons { a: down, ..b },
        PadButton::South | PadButton::West => Buttons { b: down, ..b },
        PadButton::Start => Buttons { start: down, ..b },
        PadButton::Select => Buttons { select: down, ..b },
        PadButton::DPadUp => Buttons { up: down, ..b },
        PadButton::DPadDown => Buttons { down: down, ..b },
        PadButton::DPadLeft => Buttons { left: down, ..b },
        PadButton::DPadRight => Buttons { right: down, ..b },
        PadButton::Other => b,
    }
}

/// One face or shoulder button of the pad onto the NES pad, or nothing.
pub fn apply_button(b: &mut Buttons, button: PadButton, down: bool)
    ensures
        *final(b) == with_button(*old(b), button, down),
{
    match button {
        PadButton::East | PadButton::North => b.a = down,
        PadButton::South | PadButton::West => b.b = down,
        PadButton::Start => b.start = down,
        PadButton::Select => b.select = down,
        PadButton::DPadUp => b.up = down,
        PadButton::DPadDown => b.down = down,
        PadButton::DPadLeft => b.left = down,
        PadButton::DPadRight => b.right = down,
        PadButton::Other => {},
    }
}

/// A keyboard key, as far as the keyboard's layout tells them apart.
#[derive(Clone, Copy, PartialEq, Eq, Debug, Structural)]
pub enum PadKey {
    ArrowUp,
    ArrowDown,
    ArrowLeft,
    ArrowRight,
    Z,
    X,
    Enter,
    ShiftRight,
    /// Any other key.
    Other,
}

/// The NES pad with the button `key` stands for set to `down`, the
/// others as they were: the arrows the D-pad, Z B, X A, Enter Start,
/// right Shift Select.
pub open spec fn with_key(b: Buttons, key: PadKey, down: bool) -> Buttons {
    match key {
        PadKey::ArrowUp => Buttons { up: down, ..b },
        PadKey::ArrowDown => Buttons { down: down, ..b },
        PadKey::ArrowLeft => Buttons { left: down, ..b },
        PadKey::ArrowRight => Buttons { right: down, ..b },
        PadKey::Z => Buttons { b: down, ..b },
        PadKey::X => Buttons { a: down, ..b },
        PadKey::Enter => Buttons { start: down, ..b },
        PadKey::ShiftRight => Buttons { select: down, ..b },
        PadKey::Other => b,
    }
}

/// One key pressed (`down`) or released onto the NES pad, or nothing.
pub fn apply_key(b: &mut Buttons, key: PadKey, down: bool)
    ensures
        *final(b) == with_key(*old(b), key, down),
{
    match key {
        PadKey::ArrowUp => b.up = down,
        PadKey::ArrowDown => b.down = down,
        PadKey::ArrowLeft => b.left = down,
        PadKey::ArrowRight => b.right = down,
        PadKey::Z => b.b = down,
        PadKey::X => b.a = down,
        PadKey::Enter => b.start = down,
        PadKey::ShiftRight => b.select = down,
        PadKey::Other => {},
    }
}

/// A stick axis of the pad.
#[derive(Clone, Copy, PartialEq, Eq, Debug, Structural)]
pub enum PadAxis {
    LeftStickX,
    LeftStickY,
    /// Any other: the right stick, the triggers.
    Other,
}

/// The NES pad after the stick's direction on `axis` moved from `was`
/// to `now` (-1, 0 or 1; +y is up): a change sets the new direction's
/// bit and clears the opposite one, none writes nothing, so a stick at
/// rest does not undo a held D-pad. Other axes are not directions.
pub open spec fn with_stick(b: Buttons, axis: PadAxis, was: i8, now: i8) -> Buttons {
    if was == now {
        b
    } else {
        match axis {
            PadAxis::LeftStickX => Buttons { left: now < 0, right: now > 0, ..b },
            PadAxis::LeftStickY => Buttons { down: now < 0, up: now > 0, ..b },
            PadAxis::Other => b,
        }
    }
}

/// The left stick onto the D-pad; see `with_stick`.
pub fn apply_stick(b: &mut Buttons, axis: PadAxis, was: i8, now: i8)
    ensures
        *final(b) == with_stick(*old(b), axis, was, now),
{
    if was != now {
        match axis {
            PadAxis::LeftStickX => {
                b.left = now < 0;
                b.right = now > 0;
            },
            PadAxis::LeftStickY => {
                b.down = now < 0;
                b.up = now > 0;
            },
            PadAxis::Other => {},
        }
    }
}

/// The keyboard's buttons and the pad's, either held counting.
pub open spec fn spec_merge(k: Buttons, p: Buttons) -> Buttons {
    Buttons {
        a: k.a || p.a,
        b: k.b || p.b,
        select: k.select || p.select,
        start: k.start || p.start,
        up: k.up || p.up,
        down: k.down || p.down,
        left: k.left || p.left,
        right: k.right || p.right,
    }
}

/// The keyboard's buttons and the pad's, either held counting.
pub fn merge(k: Buttons, p: Buttons) -> (m: Buttons)
    ensures
        m == spec_merge(k, p),
{
    Buttons {
        a: k.a || p.a,
        b: k.b || p.b,
        select: k.select || p.select,
        start: k.start || p.start,
        up: k.up || p.up,
        down: k.down || p.down,
        left: k.left || p.left,
        right: k.right || p.right,
    }
}

/// Nothing pressed.
pub open spec fn released() -> Buttons {
    Buttons { a: false, b: false, select: false, start: false, up: false, down: false, left: false, right: false }
}

/// Merging is an OR: order does not matter, nothing pressed is the
/// identity, and a pad merged with itself is itself.
pub proof fn lemma_merge_is_an_or(k: Buttons, p: Buttons)
    ensures
        spec_merge(k, p) == spec_merge(p, k),
        spec_merge(k, released()) == k,
        spec_merge(released(), p) == p,
        spec_merge(k, k) == k,
{
}

/// A press and its release leave the pad as it was, when the button's
/// bit was clear before the press.
pub proof fn lemma_press_then_release(b: Buttons, button: PadButton)
    requires
        with_button(b, button, false) == b,
    ensures
        with_button(with_button(b, button, true), button, false) == b,
{
}

/// A stick that has not changed direction writes nothing.
pub proof fn lemma_a_still_stick_writes_nothing(b: Buttons, axis: PadAxis, d: i8)
    ensures
        with_stick(b, axis, d, d) == b,
{
}

} // verus!
