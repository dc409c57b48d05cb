//! The display's pacing: one period on from the last due time, never in
//! the past.

use nes_console::pacing::next_redraw;

#[test]
fn the_next_redraw_keeps_the_source_rate_and_is_never_in_the_past() {
    let period = 16_639_263; // one NTSC frame, in nanoseconds
    // On time: one period on from the due time, not from now.
    assert_eq!(next_redraw(1_000_000_000, period, 1_005_000_000), 1_000_000_000 + period);
    // Exactly at the next due time: still that time.
    assert_eq!(next_redraw(0, period, period), period);
    // Late by more than a period: due now.
    assert_eq!(next_redraw(0, period, 3 * period), 3 * period);
}
