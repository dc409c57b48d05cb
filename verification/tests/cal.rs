//! The calibration cartridge: the manifest and the program come from one
//! generator, and the strip reader reads back what a frame paints.

use nes_console::cal::{self, read_strip, read_strip_shifted, DotPicture, Strip, BLACK, WHITE};

#[test]
fn the_manifest_and_the_program_are_one_generator() {
    let m = cal::manifest();
    for name in cal::SCREEN_NAMES {
        assert!(m.contains(&format!("\"name\": \"{name}\"")), "the manifest names screen {name}");
    }
    assert_eq!(m.matches("\"pattern\"").count(), 12, "twelve pattern regions across the gratings and the dot crawl");
    assert_eq!(m.matches("\"entries\"").count(), 8 + 40 + 8 + 1, "the flat regions of the palette, bars, edges and pad screens");
    let p = cal::program();
    assert_eq!(p.len(), 0x8000);
    let reset = u16::from_le_bytes([p[0x7ffc], p[0x7ffd]]);
    assert_eq!(reset, 0x8000, "reset at the start of PRG");
}

/// A frame with the strip painted as the program paints it: each
/// field's bits, most significant first, white for a one.
fn painted(s: Strip, parity_flip: bool) -> DotPicture {
    let mut dots = vec![0x21u8; 256 * 240];
    let hold = s.hold as u8;
    let mut p = s.screen ^ s.variant ^ hold ^ s.frame as u8 ^ (s.frame >> 8) as u8 ^ s.pad;
    p ^= p >> 4;
    p ^= p >> 2;
    p ^= p >> 1;
    let parity = (p & 1) ^ parity_flip as u8;
    let fields: [(usize, usize, usize, u32); 12] = [
        (0, 0, 3, 0b101),
        (0, 3, 3, s.screen as u32),
        (0, 6, 6, s.variant as u32),
        (0, 12, 1, hold as u32),
        (0, 13, 1, parity as u32),
        (0, 14, 1, 0),
        (1, 0, 3, 0b010),
        (1, 3, 4, (s.frame >> 8 & 0xf) as u32),
        (1, 7, 8, (s.frame & 0xff) as u32),
        (2, 0, 3, 0b110),
        (2, 3, 4, (s.frame >> 12) as u32),
        (2, 7, 8, s.pad as u32),
    ];
    for (row, col, bits, value) in fields {
        for b in 0..bits {
            let one = value >> (bits - 1 - b) & 1 == 1;
            let (x0, y0) = (8 + (col + b) * 16, 16 + row * 16);
            for y in y0..y0 + 16 {
                for x in x0..x0 + 16 {
                    dots[y * 256 + x] = if one { WHITE } else { BLACK };
                }
            }
        }
    }
    DotPicture::new(dots).unwrap()
}

#[test]
fn a_painted_strip_reads_back() {
    let s = Strip { screen: 5, variant: 37, hold: true, frame: 0xbeef, pad: 0x81 };
    assert_eq!(read_strip(&painted(s, false)), Ok(s));
    // The middle 8 by 8 of each block: a shift of up to four dots reads the same.
    assert_eq!(read_strip_shifted(&painted(s, false), 4, -4), Ok(s));
    let zero = Strip { screen: 0, variant: 0, hold: false, frame: 0, pad: 0 };
    assert_eq!(read_strip(&painted(zero, false)), Ok(zero));
}

#[test]
fn a_strip_that_does_not_agree_is_refused() {
    let s = Strip { screen: 2, variant: 1, hold: false, frame: 300, pad: 0 };
    let e = read_strip(&painted(s, true)).unwrap_err();
    assert_eq!(e, "parity: the strip says 1, the fields fold to 0");
    // Nothing painted: the first sync field reads all black.
    let black = DotPicture::new(vec![BLACK; 256 * 240]).unwrap();
    assert_eq!(read_strip(&black).unwrap_err(), "sync on row 0 reads 0, not 101");
    // A grey frame: the first block is neither colour.
    let grey = DotPicture::new(vec![0x00; 256 * 240]).unwrap();
    assert_eq!(read_strip(&grey).unwrap_err(), "block (0,0) is neither white nor black: 0 white, 0 black of 64");
    // Shifted half a block, every window straddles two blocks.
    let e = read_strip_shifted(&painted(s, false), 8, 0).unwrap_err();
    assert!(e.starts_with("block (0,"), "{e}");
}

#[test]
fn a_picture_is_the_visible_frame_exactly() {
    assert!(DotPicture::new(vec![0; 256 * 239]).is_none());
    let mut dots = vec![0u8; 256 * 240];
    dots[10 * 256 + 20] = 7;
    let p = DotPicture::new(dots).unwrap();
    assert_eq!(p.at(10, 20), 7);
    assert_eq!(p.at(20, 10), 0);
}

#[test]
fn the_regions_name_what_each_screen_holds() {
    for s in 0..8 {
        let _ = cal::regions(s);
    }
    assert_eq!(cal::nametable(0).len(), 1024);
    assert_eq!(cal::chr().len(), 0x2000);
    assert_eq!(cal::palette_entries(0).len(), 8);
}

#[test]
fn every_tile_reads_its_palette_from_its_attribute_byte() {
    for s in 0..cal::SCREENS {
        let n = cal::nametable(s);
        assert_eq!(n.len(), 1024);
        assert!(n[960..976].iter().all(|&b| b == 0xff), "screen {s}: the strip rows are palette 3");
        if s != 7 {
            assert!(n[..256].iter().all(|&t| t == cal::T_BLANK), "screen {s}: the strip's tiles are the NMI's");
        }
        for ty in 0..30 {
            for tx in 0..32 {
                let (tile, pal) = cal::cell(s, tx, ty);
                assert_eq!(n[ty * 32 + tx], tile);
                if tile != cal::T_BLANK {
                    let q = ((ty / 2) % 2) * 2 + (tx / 2) % 2;
                    let bits = (n[960 + (ty / 4) * 8 + tx / 4] >> (2 * q)) & 3;
                    assert_eq!(bits, pal, "screen {s}, tile ({tx}, {ty})");
                }
            }
        }
    }
}
