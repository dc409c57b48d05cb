//! The WAV framing of the sound's samples.

use nes_console::sound::{keep_newest, wav, Mixer, OUT_RATE, RATE_DEN, RATE_NUM, RING_CAP};
use std::collections::VecDeque;

#[test]
fn the_wav_header_says_16_bit_mono_at_48_khz() {
    let w = wav(&vec![0x1234, -2]);
    assert_eq!(w.len(), 44 + 4);
    assert_eq!(&w[0..4], b"RIFF");
    assert_eq!(u32::from_le_bytes([w[4], w[5], w[6], w[7]]), 36 + 4);
    assert_eq!(&w[8..16], b"WAVEfmt ");
    assert_eq!(u32::from_le_bytes([w[16], w[17], w[18], w[19]]), 16);
    assert_eq!(u16::from_le_bytes([w[20], w[21]]), 1, "PCM");
    assert_eq!(u16::from_le_bytes([w[22], w[23]]), 1, "mono");
    assert_eq!(u32::from_le_bytes([w[24], w[25], w[26], w[27]]), 48_000);
    assert_eq!(u32::from_le_bytes([w[28], w[29], w[30], w[31]]), 96_000);
    assert_eq!(u16::from_le_bytes([w[32], w[33]]), 2);
    assert_eq!(u16::from_le_bytes([w[34], w[35]]), 16);
    assert_eq!(&w[36..40], b"data");
    assert_eq!(u32::from_le_bytes([w[40], w[41], w[42], w[43]]), 4);
    assert_eq!(&w[44..], &[0x34, 0x12, 0xfe, 0xff]);
}

#[test]
fn the_rates_are_the_subcarriers() {
    assert_eq!(OUT_RATE, 48_000);
    assert_eq!(RATE_NUM * 12 * 11 / RATE_DEN, 472_500_000, "twelve master half-steps a code");
    assert_ne!(Mixer::Table, Mixer::Linear);
    assert_eq!(wav(&Vec::new()).len(), 44);
}

#[test]
fn the_ring_keeps_a_quarter_second_at_most_and_the_newest() {
    let mut ring: VecDeque<u32> = (0..13_000).collect();
    keep_newest(&mut ring, RING_CAP);
    assert_eq!(ring.len(), 12_000);
    assert_eq!((ring[0], ring[11_999]), (1_000, 12_999), "the oldest went first");
    let mut short: VecDeque<u32> = (0..10).collect();
    keep_newest(&mut short, RING_CAP);
    assert_eq!(short.len(), 10);
}
