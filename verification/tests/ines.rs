//! The iNES container: the header's promises, and the board it names.

use nes_console::ines::{self, CartBoard, Mirroring};

fn image(mapper: u8, prg_banks: u8, chr_banks: u8) -> Vec<u8> {
    let mut b = vec![0u8; 16];
    b[0..4].copy_from_slice(b"NES\x1a");
    b[4] = prg_banks;
    b[5] = chr_banks;
    b[6] = (mapper & 0x0f) << 4;
    b[7] = mapper & 0xf0;
    b.resize(16 + prg_banks as usize * 0x4000 + chr_banks as usize * 0x2000, 0);
    b
}

/// The header's mapper number reaches the right board, and the ones
/// this console does not have are refused by name rather than falling
/// back to something plausible.
#[test]
fn the_header_names_the_board_and_an_unknown_one_is_refused() {
    for (mapper, prg_banks, chr_banks) in [(0u8, 2u8, 1u8), (1, 8, 0), (2, 8, 0), (3, 2, 4), (4, 16, 16), (66, 4, 2)] {
        let rom = ines::parse(&image(mapper, prg_banks, chr_banks)).expect("iNES");
        assert_eq!(rom.mapper, mapper);
        assert!(rom.cart().is_ok(), "mapper {mapper} is a board this console has");
    }
    // Refused, each for its own reason, and each saying which.
    let why = |mapper, prg, chr| match ines::parse(&image(mapper, prg, chr)).unwrap().cart() {
        Ok(_) => panic!("mapper {mapper} with {prg} PRG and {chr} CHR banks should have been refused"),
        Err(e) => e,
    };
    let e = why(5, 8, 2);
    assert!(e.contains("mapper 5"), "{e}");
    let e = why(2, 8, 2);
    assert!(e.contains("UxROM carries CHR RAM"), "{e}");
    let e = why(3, 2, 0);
    assert!(e.contains("CHR RAM"), "{e}");
}

#[test]
fn the_header_says_whether_there_is_a_battery() {
    let mut rom = b"NES\x1a\x02\x01\x12\x00".to_vec(); // mapper 1, vertical, battery
    rom.extend_from_slice(&[0u8; 8]);
    rom.extend_from_slice(&[0u8; 0x8000 + 0x2000]);
    assert!(ines::parse(&rom).unwrap().battery);
    rom[6] = 0x10;
    assert!(!ines::parse(&rom).unwrap().battery);
}

#[test]
fn the_header_is_read_field_by_field() {
    let mut rom = image(0x42, 1, 1);
    rom[6] |= 0x01;
    rom[16] = 0xaa;
    rom[16 + 0x4000] = 0xbb;
    let i = ines::parse(&rom).unwrap();
    assert_eq!(i.mapper, 0x42);
    assert_eq!(i.mirroring, Mirroring::Vertical);
    assert_eq!((i.prg.len(), i.chr.len()), (0x4000, 0x2000));
    assert_eq!((i.prg[0], i.chr[0]), (0xaa, 0xbb));
    assert!(!i.chr_ram && !i.battery);
    let h = ines::parse(&image(0, 1, 0)).unwrap();
    assert_eq!(h.mirroring, Mirroring::Horizontal);
    assert!(h.chr_ram);
}

#[test]
fn every_refusal_of_the_file_names_its_reason() {
    assert_eq!(ines::parse(b"NES").unwrap_err(), "not an iNES file (no NES<EOF> magic)");
    let mut bad = image(0, 1, 1);
    bad[3] = 0;
    assert_eq!(ines::parse(&bad).unwrap_err(), "not an iNES file (no NES<EOF> magic)");
    let mut trainer = image(0, 1, 1);
    trainer[6] |= 0x04;
    assert_eq!(ines::parse(&trainer).unwrap_err(), "a trainer is present; out of scope");
    let mut four = image(0, 1, 1);
    four[6] |= 0x08;
    assert_eq!(ines::parse(&four).unwrap_err(), "four-screen VRAM; out of scope");
    let mut pal = image(0, 1, 1);
    pal[9] = 0x01;
    assert_eq!(ines::parse(&pal).unwrap_err(), "a PAL header (flags 9, bit 0); out of scope");
    pal[9] = 0x02;
    assert!(ines::parse(&pal).is_ok(), "only bit 0 of flags 9 names PAL");
    let mut short = image(0, 2, 1);
    short.truncate(100);
    assert_eq!(ines::parse(&short).unwrap_err(), "file is 100 bytes, header promises 40976");
}

#[test]
fn each_board_gets_the_chr_it_keeps() {
    let nrom = ines::parse(&image(0, 1, 0)).unwrap().cart().unwrap();
    assert_eq!(nrom.board, CartBoard::Nrom);
    assert_eq!(nrom.chr, vec![0u8; 0x2000], "NROM with CHR RAM: 8 KiB zeroed");
    let mmc1 = ines::parse(&image(1, 8, 0)).unwrap().cart().unwrap();
    assert_eq!((mmc1.board, mmc1.chr.len(), mmc1.prg.len()), (CartBoard::Mmc1, 0, 8 * 0x4000));
    let mmc3 = ines::parse(&image(4, 2, 2)).unwrap().cart().unwrap();
    assert_eq!((mmc3.board, mmc3.chr.len()), (CartBoard::Mmc3, 2 * 0x2000));
    let gx = ines::parse(&image(66, 4, 2)).unwrap().cart().unwrap();
    assert_eq!(gx.board, CartBoard::Gxrom);
    let mmc2 = ines::parse(&image(9, 4, 2)).unwrap().cart().unwrap();
    assert_eq!(mmc2.board, CartBoard::Mmc2);
    assert_eq!(ines::parse(&image(1, 1, 1)).unwrap().nrom().unwrap_err(), "mapper 1 is out of scope; NROM only");
    assert_eq!(
        ines::parse(&image(2, 8, 2)).unwrap().cart().unwrap_err(),
        "mapper 2 with 16 KiB of CHR ROM is not a UxROM board; UxROM carries CHR RAM"
    );
    assert_eq!(ines::parse(&image(3, 2, 0)).unwrap().cart().unwrap_err(), "mapper 3 with CHR RAM is not a board this console has");
    assert!(ines::parse(&image(9, 2, 0)).unwrap().cart().unwrap_err().starts_with("mapper 9 with CHR RAM"));
    assert_eq!(ines::parse(&image(66, 2, 0)).unwrap().cart().unwrap_err(), "mapper 66 with CHR RAM is not a board this console has");
    assert_eq!(
        ines::parse(&image(7, 2, 0)).unwrap().cart().unwrap_err(),
        "mapper 7 is out of scope; this console has NROM (0), MMC1 (1), UxROM (2), CNROM (3), MMC3 (4), MMC2 (9) and GxROM (66)"
    );
}
