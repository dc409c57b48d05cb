//! The scheduler's arithmetic: where the vertical sync begins, which
//! picture a latch's capture hands back, and which chips fall on each
//! master half-step.

use nes_console::console::{
    after_vsync_onset, picture_after_latch, vsync_onset, Alignment, Clock, Position, VSYNC_ONSET_DOT, VSYNC_ONSET_LINE,
};

fn p(line: usize, dot: usize) -> Position {
    Position { line, dot }
}

#[test]
fn the_onset_is_row_244_dot_280_and_the_pre_render_line_comes_first() {
    let onset = vsync_onset();
    assert_eq!((onset.line, onset.dot), (VSYNC_ONSET_LINE, VSYNC_ONSET_DOT));
    assert!(!after_vsync_onset(p(onset.line, onset.dot - 1)), "the dot before the onset is before it");
    assert!(after_vsync_onset(onset), "the onset itself is after");
    assert!(!after_vsync_onset(p(0, 0)));
    assert!(!after_vsync_onset(p(241, 1)), "the blank's first dot, where most games poll");
    assert!(!after_vsync_onset(p(243, 340)));
    assert!(after_vsync_onset(p(251, 210)), "Super Mario Bros.'s poll");
    assert!(after_vsync_onset(p(260, 340)));
    assert!(!after_vsync_onset(p(261, 0)), "the pre-render line begins the PPU's frame");
    assert_eq!(picture_after_latch(10, p(241, 1)), 11);
    assert_eq!(picture_after_latch(10, p(251, 210)), 12);
}

#[test]
fn the_measured_alignment_is_the_default() {
    assert_eq!(Alignment::default(), Alignment { cpu_phase: 4, ppu_phase: 3 });
    assert_eq!(Alignment::measured(), Alignment::default());
}

#[test]
fn a_cpu_cycle_is_three_dots_on_the_master_clock() {
    let mut c = Clock::new(Alignment::default());
    let mut ticks = Vec::new();
    for _ in 0..48 {
        ticks.push(c.tick());
    }
    // The first dot on half-step 3, the first CPU half-cycle on 4, one
    // half-step into that dot.
    assert!(ticks[3].dot && !ticks[2].dot && ticks[11].dot);
    assert_eq!(ticks[4].cpu, Some(1));
    assert_eq!(ticks[16].cpu, Some(5));
    assert_eq!(ticks[28].cpu, Some(1));
    assert_eq!(ticks[5].cpu, None);
    assert_eq!((c.master, c.dots, c.cpu_half_cycles), (48, 6, 4));
    // From the CPU's first half-cycle on, every 24 half-steps carry two
    // CPU half-cycles and three dots.
    let (d0, k0) = (ticks[..4].iter().filter(|t| t.dot).count(), ticks[..4].iter().filter(|t| t.cpu.is_some()).count());
    let (d1, k1) = (ticks[..28].iter().filter(|t| t.dot).count(), ticks[..28].iter().filter(|t| t.cpu.is_some()).count());
    assert_eq!((d1 - d0, k1 - k0), (3, 2));
}

#[test]
fn a_later_phase_counts_one_fewer() {
    let run = |cpu_phase: u8| {
        let mut c = Clock::new(Alignment { cpu_phase, ppu_phase: 3 });
        for _ in 0..1000 {
            c.tick();
        }
        c.cpu_half_cycles
    };
    assert_eq!(run(4), run(16) + 1);
}
