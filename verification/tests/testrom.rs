//! The test cartridges built in code: where their code sits, their
//! vectors, and their CHR.

use nes_console::assembler::Asm;
use nes_console::testrom;

fn vector(p: &[u8], at: usize) -> u16 {
    u16::from_le_bytes([p[at], p[at + 1]])
}

#[test]
fn the_test_cartridge_starts_at_8000_and_answers_nmi_at_8100() {
    let p = testrom::program();
    assert_eq!(p.len(), 0x8000);
    assert_eq!((vector(&p, 0x7ffa), vector(&p, 0x7ffc), vector(&p, 0x7ffe)), (0x8100, 0x8000, 0x8140));
    assert_eq!(p[0], 0x78, "SEI first");
    assert_eq!(p[0x100], 0xe6, "the NMI handler counts frames");
    assert_eq!(p[0x140], 0x40, "IRQ is a bare RTI");
}

#[test]
fn the_pad_cartridge_polls_and_the_dmc_variant_differs() {
    let a = testrom::pad_program(false);
    let b = testrom::pad_program(true);
    assert_eq!((a.len(), b.len()), (0x8000, 0x8000));
    assert_ne!(a, b);
    assert_eq!(vector(&a, 0x7ffc), 0x8000);
}

#[test]
fn the_chr_and_the_bars() {
    assert_eq!(testrom::chr().len(), 0x2000);
    assert_eq!(testrom::bars_chr().len(), 0x2000);
    let p = testrom::bars_program();
    assert_eq!(p.len(), 0x8000);
    assert_eq!(vector(&p, 0x7ffc), 0x8000);
    assert_eq!(testrom::bars_slot(0, 0), 0);
}

#[test]
fn the_assembler_resolves_labels_forwards_and_back() {
    let mut a = Asm::new(0x8000);
    a.label(0);
    a.e(&[0xea]);
    a.br(0xd0, 0); // back to the label: -3
    a.jmp(1);
    a.e(&[0xea]);
    a.label(1);
    let p = a.finish();
    assert_eq!(p, vec![0xea, 0xd0, 0xfd, 0x4c, 0x07, 0x80, 0xea]);
}
