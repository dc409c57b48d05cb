//! The gamepad's mapping onto the NES pad: the layout table, the
//! stick's directions, the D-pad and stick sharing bits, and the OR
//! with the keyboard.

use nes_console::controller::Buttons;
use nes_console::pad::{apply_button, apply_key, apply_stick, merge, PadAxis, PadButton, PadKey};

fn pressed(button: PadButton) -> Buttons {
    let mut b = Buttons::default();
    apply_button(&mut b, button, true);
    b
}

#[test]
fn the_face_buttons_land_positionally_and_the_rest_by_name() {
    let one = |f: fn(&mut Buttons)| {
        let mut b = Buttons::default();
        f(&mut b);
        b
    };
    assert_eq!(pressed(PadButton::East), one(|b| b.a = true), "east is A");
    assert_eq!(pressed(PadButton::North), one(|b| b.a = true), "north is A");
    assert_eq!(pressed(PadButton::South), one(|b| b.b = true), "south is B");
    assert_eq!(pressed(PadButton::West), one(|b| b.b = true), "west is B");
    assert_eq!(pressed(PadButton::Start), one(|b| b.start = true));
    assert_eq!(pressed(PadButton::Select), one(|b| b.select = true));
    assert_eq!(pressed(PadButton::DPadUp), one(|b| b.up = true));
    assert_eq!(pressed(PadButton::DPadDown), one(|b| b.down = true));
    assert_eq!(pressed(PadButton::DPadLeft), one(|b| b.left = true));
    assert_eq!(pressed(PadButton::DPadRight), one(|b| b.right = true));
    assert_eq!(pressed(PadButton::Other), Buttons::default(), "the rest map to nothing");
    // A release clears only its own bit.
    let mut b = Buttons { a: true, b: true, ..Default::default() };
    apply_button(&mut b, PadButton::East, false);
    assert_eq!(b, Buttons { b: true, ..Default::default() });
}

/// The threshold itself is a float and is read off the pad by whoever
/// polls it; here each step of the stick comes as the direction it
/// gives, -1, 0 or 1, from the one before.
#[test]
fn the_left_stick_is_a_direction_past_the_threshold_and_not_inside_it() {
    let mut b = Buttons::default();
    // Just inside the threshold: no direction, from none.
    apply_stick(&mut b, PadAxis::LeftStickX, 0, 0);
    assert_eq!(b, Buttons::default(), "just inside is nothing");
    // At the threshold: right.
    apply_stick(&mut b, PadAxis::LeftStickX, 0, 1);
    assert_eq!(b, Buttons { right: true, ..Default::default() }, "the threshold itself counts");
    apply_stick(&mut b, PadAxis::LeftStickX, 1, -1);
    assert_eq!(b, Buttons { left: true, ..Default::default() }, "the other way clears the first");
    apply_stick(&mut b, PadAxis::LeftStickX, -1, 0);
    assert_eq!(b, Buttons::default(), "centre clears both");
    // +y is up.
    apply_stick(&mut b, PadAxis::LeftStickY, 0, 1);
    assert_eq!(b, Buttons { up: true, ..Default::default() });
    apply_stick(&mut b, PadAxis::LeftStickY, 1, -1);
    assert_eq!(b, Buttons { down: true, ..Default::default() });
    // The right stick and the triggers are not directions.
    apply_stick(&mut b, PadAxis::Other, 0, 1);
    apply_stick(&mut b, PadAxis::Other, 0, 1);
    assert_eq!(b, Buttons { down: true, ..Default::default() });
}

#[test]
fn a_held_dpad_survives_a_stick_that_has_not_moved() {
    let mut b = Buttons::default();
    apply_button(&mut b, PadButton::DPadLeft, true);
    // Noise inside the threshold: no change of direction, no write.
    apply_stick(&mut b, PadAxis::LeftStickX, 0, 0);
    assert_eq!(b, Buttons { left: true, ..Default::default() });
    // The stick going right overrides.
    apply_stick(&mut b, PadAxis::LeftStickX, 0, 1);
    assert_eq!(b, Buttons { right: true, ..Default::default() });
}

#[test]
fn the_keyboard_and_the_pad_are_ored() {
    let k = Buttons { a: true, up: true, ..Default::default() };
    let p = Buttons { b: true, up: true, start: true, ..Default::default() };
    assert_eq!(merge(k, p), Buttons { a: true, b: true, up: true, start: true, ..Default::default() });
    assert_eq!(merge(k, Buttons::default()), k);
    assert_eq!(merge(Buttons::default(), p), p);
}

#[test]
fn the_keyboard_keys_land_on_their_buttons() {
    let key = |k: PadKey| {
        let mut b = Buttons::default();
        apply_key(&mut b, k, true);
        b
    };
    let d = Buttons::default;
    assert_eq!(key(PadKey::ArrowUp), Buttons { up: true, ..d() });
    assert_eq!(key(PadKey::ArrowDown), Buttons { down: true, ..d() });
    assert_eq!(key(PadKey::ArrowLeft), Buttons { left: true, ..d() });
    assert_eq!(key(PadKey::ArrowRight), Buttons { right: true, ..d() });
    assert_eq!(key(PadKey::Z), Buttons { b: true, ..d() });
    assert_eq!(key(PadKey::X), Buttons { a: true, ..d() });
    assert_eq!(key(PadKey::Enter), Buttons { start: true, ..d() });
    assert_eq!(key(PadKey::ShiftRight), Buttons { select: true, ..d() });
    assert_eq!(key(PadKey::Other), d());
    // A release clears only its own button.
    let mut b = Buttons { a: true, b: true, ..d() };
    apply_key(&mut b, PadKey::X, false);
    assert_eq!(b, Buttons { b: true, ..d() });
}
