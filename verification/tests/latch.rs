//! U8 against the SN74LS373 datasheet: transparent while LE is high,
//! holding from LE's fall.

use nes_console::latch::Ls373;

#[test]
fn transparent_high_and_held_from_the_fall() {
    let mut u8_ = Ls373::new();
    assert_eq!(u8_.step(true, 0x12), (0x12, false));
    // Still high: follows a changing input.
    assert_eq!(u8_.step(true, 0x34), (0x34, false));
    // The fall: holds the value present as it fell.
    assert_eq!(u8_.step(false, 0x34), (0x34, true));
    // Low: the input may do anything, Q holds.
    assert_eq!(u8_.step(false, 0xff), (0x34, false));
    assert_eq!(u8_.step(false, 0x00), (0x34, false));
    // Rise again: transparent at once.
    assert_eq!(u8_.step(true, 0x56), (0x56, false));
}

#[test]
fn a_rising_edge_sample_agrees_only_while_the_input_holds_across_the_pulse() {
    // The 2C02 harness samples the address at ALE's rise. If AD is the
    // same for the whole pulse the two readings are one; if it changed
    // inside the pulse the latch (the datasheet) has the later value.
    let mut latch = Ls373::new();
    let pulse = [(false, 0x00u8), (true, 0xab), (true, 0xab), (false, 0xab)];
    let mut rise_sample = None;
    let mut prev = false;
    let mut q = 0;
    for &(le, ad) in &pulse {
        if le && !prev {
            rise_sample = Some(ad);
        }
        q = latch.step(le, ad).0;
        prev = le;
    }
    assert_eq!(Some(q), rise_sample, "stable AD: the harness's rise sample is the latch's Q");

    let mut latch = Ls373::new();
    let pulse = [(false, 0x00u8), (true, 0xab), (true, 0xcd), (false, 0xcd)];
    let mut rise_sample = None;
    let mut prev = false;
    let mut q = 0;
    for &(le, ad) in &pulse {
        if le && !prev {
            rise_sample = Some(ad);
        }
        q = latch.step(le, ad).0;
        prev = le;
    }
    assert_eq!(rise_sample, Some(0xab));
    assert_eq!(q, 0xcd, "AD moved inside the pulse: the datasheet keeps the value at the fall");
}
