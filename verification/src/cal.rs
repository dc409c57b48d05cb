//! The calibration cartridge: one NROM cartridge whose every screen is
//! built to be measured, off the part and off the model through the same
//! reader, and whose every frame names itself.
//!
//! The strip. Three rows of fifteen blocks along the top of every
//! screen, each block two tiles square (16 by 16 dots), white or black
//! on the backdrop: a bit each. Row A carries a sync pattern, the screen
//! id, the variant within the screen, the hold flag and a parity bit;
//! row B the low twelve bits of a frame counter; row C the counter's top
//! four bits and the byte the console read from the pad at its last
//! poll.
//!
//! The picture is drawn from tiles, so every block and every measured
//! region falls on tile boundaries, and `manifest()` writes where each
//! is from the same constants that lay the tiles.
//!
//! Palette slots: palette 3, colour 3 is the strip's white ($30) on
//! every screen; the backdrop is $0F on every screen and is the strip's
//! black. The eight other content colours are the screen's.

use vstd::prelude::*;
use crate::assembler::{resolve, resolvable, lemma_resolve_keeps, Asm};
use crate::bytes::fill;
use crate::text::{bin, dec, push_bin, push_dec, push_str};

verus! {

// ------------------------------------------------------------ geometry
/// The strip's blocks: two tiles square, starting one tile in and two
/// tiles down, fifteen to a row, three rows. Dots.
pub const BLOCK: usize = 16;
pub const STRIP_X0: usize = 8;
pub const STRIP_Y0: usize = 16;
pub const STRIP_COLS: usize = 15;
pub const STRIP_ROWS: usize = 3;
/// The first tile row of a screen's content, below the strip.
pub const CONTENT_ROW: usize = 8;
/// The palette entries the strip is drawn in.
pub const WHITE: u8 = 0x30;
pub const BLACK: u8 = 0x0f;
/// Screens on the cartridge.
pub const SCREENS: usize = 8;

/// Frames a screen's variant lasts, and variants per screen; a screen
/// steps when its last variant ends, unless held. Screens 1 and 2 cycle
/// their palettes; the rest have one variant of a fixed length.
pub open spec fn spec_variant_frames() -> Seq<u8> {
    seq![240u8, 60, 120, 240, 240, 240, 240, 240]
}

pub open spec fn spec_variants() -> Seq<u8> {
    seq![1u8, 56, 8, 1, 1, 1, 1, 1]
}

pub const VARIANT_FRAMES: [u8; 8] = [240, 60, 120, 240, 240, 240, 240, 240];
pub const VARIANTS: [u8; 8] = [1, 56, 8, 1, 1, 1, 1, 1];

// Tiles, by index in CHR. 1 to 3 are solid in colours 1 to 3; the rest
// draw colour 1 in a pattern.
pub const T_BLANK: u8 = 0;
pub const T_C1: u8 = 1;
pub const T_C2: u8 = 2;
pub const T_C3: u8 = 3;
pub const T_V1: u8 = 4;
pub const T_V2: u8 = 5;
pub const T_V4: u8 = 6;
pub const T_H1: u8 = 7;
pub const T_H2: u8 = 8;
pub const T_H4: u8 = 9;
pub const T_CHK1: u8 = 10;
pub const T_CHK2: u8 = 11;
pub const T_HTOP: u8 = 12;
pub const T_HBOT: u8 = 13;
pub const T_VLEFT: u8 = 14;
pub const T_VRIGHT: u8 = 15;
pub const T_TL: u8 = 16;
pub const T_TR: u8 = 17;
pub const T_BL: u8 = 18;
pub const T_BR: u8 = 19;

// ------------------------------------------------------------ palettes
/// The fixed palette of screens 0 and 3 to 7: palette 0 white, red,
/// green; palette 1 blue, red, green; palette 2 orange, blue, white;
/// palette 3 the strip's, with colour 1 white as well so the geometry
/// screen's border draws through the strip rows.
pub open spec fn spec_fixed_pal() -> Seq<u8> {
    seq![BLACK, WHITE, 0x16u8, 0x2a, BLACK, 0x12, 0x16, 0x2a, BLACK, 0x26, 0x12, WHITE, BLACK, WHITE, BLACK, WHITE]
}

pub const FIXED_PAL: [u8; 16] = [0x0f, 0x30, 0x16, 0x2a, 0x0f, 0x12, 0x16, 0x2a, 0x0f, 0x26, 0x12, 0x30, 0x0f, 0x30, 0x0f, 0x30];

/// Entry `k` of the palette screen's eight patches on page `page`:
/// pages 0 to 5 show hues 2p+1 and 2p+2 at the four lumas, page 6 the
/// greys (hue 0) and the $xD column, with $0D replaced by $0F.
pub open spec fn spec_palette_entry(page: int, k: int) -> u8 {
    let (row, luma) = (k / 4, k % 4);
    if page < 6 {
        (luma * 16 + 2 * page + 1 + row) as u8
    } else if row == 0 {
        (luma * 16) as u8
    } else if luma == 0 {
        BLACK
    } else {
        (luma * 16 + 0x0d) as u8
    }
}

/// The palette screen's eight patches on page `page` (0 to 6).
pub fn palette_entries(page: usize) -> (e: [u8; 8])
    requires
        page <= 6,
    ensures
        forall|k: int| 0 <= k < 8 ==> e@[k] == #[trigger] spec_palette_entry(page as int, k),
{
    let mut e = [0u8; 8];
    let mut k: usize = 0;
    while k < 8
        invariant
            k <= 8,
            page <= 6,
            forall|j: int| 0 <= j < k ==> e@[j] == #[trigger] spec_palette_entry(page as int, j),
        decreases 8 - k,
    {
        let (row, luma) = (k / 4, k % 4);
        let v: u8 = if page < 6 {
            (luma as u8) << 4u8 | (2 * page + 1 + row) as u8
        } else if row == 0 {
            (luma as u8) << 4u8
        } else if luma == 0 {
            BLACK
        } else {
            (luma as u8) << 4u8 | 0x0d
        };
        proof {
            let l = luma as u8;
            let h = (2 * page + 1 + row) as u8;
            assert(l << 4u8 | h == l * 16 + h) by (bit_vector)
                requires l < 4, h < 16;
            assert(l << 4u8 == l * 16) by (bit_vector)
                requires l < 4;
            assert(l << 4u8 | 0x0du8 == l * 16 + 0x0d) by (bit_vector)
                requires l < 4;
        }
        e[k] = v;
        k += 1;
    }
    e
}

/// The sixteen palette bytes of page `page`: the eight patches in
/// palettes 0 to 2, the strip's white in palette 3.
pub open spec fn spec_palette_page(page: int) -> Seq<u8> {
    let e = |k: int| spec_palette_entry(page, k);
    seq![BLACK, e(0), e(1), e(2), BLACK, e(3), e(4), e(5), BLACK, e(6), e(7), BLACK, BLACK, BLACK, BLACK, WHITE]
}

pub fn palette_page(page: usize) -> (p: [u8; 16])
    requires
        page <= 6,
    ensures
        p@ == spec_palette_page(page as int),
{
    let e = palette_entries(page);
    let p = [BLACK, e[0], e[1], e[2], BLACK, e[3], e[4], e[5], BLACK, e[6], e[7], BLACK, BLACK, BLACK, BLACK, WHITE];
    assert(p@ =~= spec_palette_page(page as int));
    p
}

/// Hue slot `k` of the bars screen on variant `v`: luma v / 2, hue
/// k + 1 on even variants and k + 2 on odd.
pub open spec fn spec_bars_entry(v: int, k: int) -> u8 {
    ((v / 2) * 16 + k + 1 + v % 2) as u8
}

/// The bars screen's eleven hue slots on variant `v` (0 to 7): luma v/2,
/// hues 1 to 11 on even variants and 2 to 12 on odd, so every hue shows
/// at every luma across the eight.
pub fn bars_entries(v: usize) -> (e: [u8; 11])
    requires
        v <= 7,
    ensures
        forall|k: int| 0 <= k < 11 ==> e@[k] == #[trigger] spec_bars_entry(v as int, k),
{
    let (luma, half) = (v / 2, v % 2);
    let mut e = [0u8; 11];
    let mut k: usize = 0;
    while k < 11
        invariant
            k <= 11,
            v <= 7,
            luma == v / 2,
            half == v % 2,
            forall|j: int| 0 <= j < k ==> e@[j] == #[trigger] spec_bars_entry(v as int, j),
        decreases 11 - k,
    {
        let x = (luma as u8) << 4u8 | (k + 1 + half) as u8;
        proof {
            let l = luma as u8;
            let h = (k + 1 + half) as u8;
            assert(l << 4u8 | h == l * 16 + h) by (bit_vector)
                requires l < 4, h < 16;
        }
        e[k] = x;
        k += 1;
    }
    e
}

/// The sixteen palette bytes of bars variant `v`.
pub open spec fn spec_bars_palette(v: int) -> Seq<u8> {
    let e = |k: int| spec_bars_entry(v, k);
    seq![BLACK, e(0), e(1), e(2), BLACK, e(3), e(4), e(5), BLACK, e(6), e(7), e(8), BLACK, e(9), e(10), WHITE]
}

pub fn bars_palette(v: usize) -> (p: [u8; 16])
    requires
        v <= 7,
    ensures
        p@ == spec_bars_palette(v as int),
{
    let e = bars_entries(v);
    let p = [BLACK, e[0], e[1], e[2], BLACK, e[3], e[4], e[5], BLACK, e[6], e[7], e[8], BLACK, e[9], e[10], WHITE];
    assert(p@ =~= spec_bars_palette(v as int));
    p
}

// ------------------------------------------------------------- screens
/// Tile and palette at (tx, ty) of screen `s`, content only (rows from
/// CONTENT_ROW); the strip rows are laid by the common frame.
pub open spec fn spec_content(s: int, tx: int, ty: int) -> (u8, u8) {
    let y = ty - CONTENT_ROW;
    if s == 1 {
        // eight patches, 8 tiles wide and 10 tall, two rows of four
        if y >= 20 {
            (T_BLANK, 0)
        } else {
            let k = (y / 10) * 4 + tx / 8;
            ((k % 3 + 1) as u8, (k / 3) as u8)
        }
    } else if s == 2 {
        // 4 x 4 cells, eight across and five down, slot (r*8+c) mod 12
        if y >= 20 {
            (T_BLANK, 0)
        } else {
            let k = ((y / 4) * 8 + tx / 4) % 12;
            if k == 11 { (T_BLANK, 0) } else { ((k % 3 + 1) as u8, (k / 3) as u8) }
        }
    } else if s == 3 {
        let band = tx / 8;
        if y < 8 {
            (if band == 0 { T_V1 } else if band == 1 { T_V2 } else if band == 2 { T_V4 } else if tx % 2 == 0 {
                T_C1
            } else {
                T_BLANK
            }, 0)
        } else if y < 16 {
            (if band == 0 { T_H1 } else if band == 1 { T_H2 } else if band == 2 { T_H4 } else if y % 2 == 0 {
                T_C1
            } else {
                T_BLANK
            }, 0)
        } else {
            (if tx < 16 { T_CHK1 } else { T_CHK2 }, 0)
        }
    } else if s == 4 {
        let half = (tx / 8) % 2;
        if y < 10 {
            (if half == 1 { T_C1 } else { T_BLANK }, 0)
        } else if y < 20 {
            (if half == 0 { T_C2 } else { T_C3 }, 0)
        } else {
            (T_BLANK, 0)
        }
    } else if s == 5 {
        if tx < 16 { (T_CHK1, 1) } else { (T_CHK2, 2) }
    } else if s == 6 {
        (if y < 20 { T_C1 } else { T_BLANK }, 0)
    } else {
        (T_BLANK, 0)
    }
}

/// Tile and palette at (tx, ty) of screen `s`, content only (rows from
/// CONTENT_ROW); the strip rows are laid by the common frame.
pub fn content(s: usize, tx: usize, ty: usize) -> (r: (u8, u8))
    requires
        tx < 32,
        CONTENT_ROW <= ty < 30,
    ensures
        r == spec_content(s as int, tx as int, ty as int),
{
    let y = ty - CONTENT_ROW; // 0..22
    match s {
        1 => {
            // eight patches, 8 tiles wide and 10 tall, two rows of four
            if y >= 20 {
                return (T_BLANK, 0);
            }
            let k = (y / 10) * 4 + tx / 8;
            ((k % 3) as u8 + 1, (k / 3) as u8)
        },
        2 => {
            // 4 x 4 cells, eight across and five down, slot (r*8+c) mod 12
            if y >= 20 {
                return (T_BLANK, 0);
            }
            let k = ((y / 4) * 8 + tx / 4) % 12;
            if k == 11 {
                (T_BLANK, 0)
            } else {
                ((k % 3) as u8 + 1, (k / 3) as u8)
            }
        },
        3 => {
            let band = tx / 8;
            if y < 8 {
                ([T_V1, T_V2, T_V4, if tx % 2 == 0 { T_C1 } else { T_BLANK }][band], 0)
            } else if y < 16 {
                ([T_H1, T_H2, T_H4, if y % 2 == 0 { T_C1 } else { T_BLANK }][band], 0)
            } else {
                (if tx < 16 { T_CHK1 } else { T_CHK2 }, 0)
            }
        },
        4 => {
            let half = (tx / 8) % 2;
            if y < 10 {
                (if half == 1 { T_C1 } else { T_BLANK }, 0)
            } else if y < 20 {
                (if half == 0 { T_C2 } else { T_C3 }, 0)
            } else {
                (T_BLANK, 0)
            }
        },
        5 => {
            if tx < 16 {
                (T_CHK1, 1)
            } else {
                (T_CHK2, 2)
            }
        },
        6 => (if y < 20 { T_C1 } else { T_BLANK }, 0),
        _ => (T_BLANK, 0),
    }
}

/// The geometry screen's border and crosshair, over the whole picture:
/// the corners, the edges with a tick every four tiles, and a crosshair
/// on column 16 below the strip and row 15.
pub open spec fn spec_geometry(tx: int, ty: int) -> Option<u8> {
    let tick_x = tx % 4 == 0 && tx != 0;
    let tick_y = ty % 4 == 0 && ty != 0;
    if tx == 0 && ty == 0 { Some(T_TL) }
    else if tx == 31 && ty == 0 { Some(T_TR) }
    else if tx == 0 && ty == 29 { Some(T_BL) }
    else if tx == 31 && ty == 29 { Some(T_BR) }
    else if ty == 0 { Some(if tick_x { T_C1 } else { T_HTOP }) }
    else if ty == 29 { Some(if tick_x { T_C1 } else { T_HBOT }) }
    else if tx == 0 { Some(if tick_y { T_C1 } else { T_VLEFT }) }
    else if tx == 31 { Some(if tick_y { T_C1 } else { T_VRIGHT }) }
    else if tx == 16 && ty == 15 { Some(T_TL) }
    else if tx == 16 && ty >= CONTENT_ROW { Some(T_VLEFT) }
    else if ty == 15 { Some(T_HTOP) }
    else { None }
}

/// The geometry screen's border and crosshair, over the whole picture.
pub fn geometry(tx: usize, ty: usize) -> (r: Option<u8>)
    ensures
        r == spec_geometry(tx as int, ty as int),
{
    let tick_x = tx % 4 == 0 && tx != 0;
    let tick_y = ty % 4 == 0 && ty != 0;
    match (tx, ty) {
        (0, 0) => Some(T_TL),
        (31, 0) => Some(T_TR),
        (0, 29) => Some(T_BL),
        (31, 29) => Some(T_BR),
        (_, 0) => Some(if tick_x { T_C1 } else { T_HTOP }),
        (_, 29) => Some(if tick_x { T_C1 } else { T_HBOT }),
        (0, _) => Some(if tick_y { T_C1 } else { T_VLEFT }),
        (31, _) => Some(if tick_y { T_C1 } else { T_VRIGHT }),
        (16, 15) => Some(T_TL),
        (16, y) if y >= CONTENT_ROW => Some(T_VLEFT),
        (_, 15) => Some(T_HTOP),
        _ => None,
    }
}

/// Tile and palette at (tx, ty) of screen `s`, the whole picture: the
/// strip rows in palette 3 (blank tiles the NMI overwrites, or the
/// geometry screen's border), then the screen's content.
pub open spec fn spec_cell(s: int, tx: int, ty: int) -> (u8, u8) {
    if ty < CONTENT_ROW {
        if s == 7 && spec_geometry(tx, ty) is Some {
            (spec_geometry(tx, ty)->0, 3)
        } else {
            (T_BLANK, 3)
        }
    } else if s == 7 {
        (match spec_geometry(tx, ty) {
            Some(t) => t,
            None => T_BLANK,
        }, 0)
    } else {
        spec_content(s, tx, ty)
    }
}

/// Tile and palette at (tx, ty) of screen `s`, the whole picture.
pub fn cell(s: usize, tx: usize, ty: usize) -> (r: (u8, u8))
    requires
        tx < 32,
        ty < 30,
    ensures
        r == spec_cell(s as int, tx as int, ty as int),
{
    if ty < CONTENT_ROW {
        // the strip rows, palette 3; tiles written by the NMI
        if s == 7 {
            if let Some(t) = geometry(tx, ty) {
                return (t, 3);
            }
        }
        return (T_BLANK, 3);
    }
    if s == 7 {
        return (
            match geometry(tx, ty) {
                Some(t) => t,
                None => T_BLANK,
            },
            0,
        );
    }
    content(s, tx, ty)
}

/// Every 2x2 quadrant of tiles is one palette: the layouts are on even
/// tile boundaries, so a tile of the quadrant that is not blank has the
/// palette of the quadrant's top-left tile. This is what lets one
/// attribute byte carry the screen.
pub proof fn lemma_quadrants_are_one_palette(s: int, tx: int, ty: int, dx: int, dy: int)
    requires
        0 <= tx < 32,
        0 <= ty < 30,
        tx % 2 == 0,
        ty % 2 == 0,
        0 <= dx <= 1,
        0 <= dy <= 1,
    ensures
        spec_cell(s, tx + dx, ty + dy).0 == T_BLANK || spec_cell(s, tx + dx, ty + dy).1 == spec_cell(s, tx, ty).1,
{
    let (x, y) = (tx + dx, ty + dy);
    if ty >= CONTENT_ROW && s != 7 {
        let (y0, y1) = (ty - 8, y - 8);
        assert(x / 8 == tx / 8 && x / 4 == tx / 4);
        assert(y1 / 10 == y0 / 10 && y1 / 4 == y0 / 4);
        assert((y1 >= 20) == (y0 >= 20));
        assert((x < 16) == (tx < 16));
    }
}

/// Quadrant `q` of a 4x4-tile square: 0 top-left, 1 top-right,
/// 2 bottom-left, 3 bottom-right, as tile offsets.
pub open spec fn quadrant(q: int) -> (int, int) {
    if q == 0 { (0, 0) } else if q == 1 { (2, 0) } else if q == 2 { (0, 2) } else { (2, 2) }
}

/// The palette of quadrant `q` of the 4x4-tile square (ax, ay): that
/// of its top-left tile, or 0 below the picture.
pub open spec fn quadrant_palette(s: int, ax: int, ay: int, q: int) -> int {
    let (dx, dy) = quadrant(q);
    if ay * 4 + dy < 30 { spec_cell(s, ax * 4 + dx, ay * 4 + dy).1 as int } else { 0 }
}

/// The first `q` quadrants' palettes, two bits each from bit 0 up.
pub open spec fn attribute_bits(s: int, ax: int, ay: int, q: int) -> int
    decreases q,
{
    if q <= 0 { 0 } else { attribute_bits(s, ax, ay, q - 1) + quadrant_palette(s, ax, ay, q - 1) * pow4(q - 1) }
}

/// 4 to the `q`.
pub open spec fn pow4(q: int) -> int
    decreases q,
{
    if q <= 0 { 1 } else { 4 * pow4(q - 1) }
}

/// The attribute byte for the 4x4-tile square (ax, ay): the palette of
/// each 2x2 quadrant's top-left tile, top-left in bits 0-1, top-right
/// 2-3, bottom-left 4-5, bottom-right 6-7; below the picture, 0.
pub open spec fn spec_attribute(s: int, ax: int, ay: int) -> u8 {
    attribute_bits(s, ax, ay, 4) as u8
}

/// Nametable and attributes of screen `s`: the 960 tiles row by row,
/// then the 64 attribute bytes.
pub open spec fn spec_nametable(s: int) -> Seq<u8> {
    Seq::new(960, |i: int| spec_cell(s, i % 32, i / 32).0) + Seq::new(64, |i: int| spec_attribute(s, i % 8, i / 8))
}

/// A cell's palette is one of the four.
proof fn lemma_cell_palette_small(s: int, tx: int, ty: int)
    requires
        0 <= tx < 32,
        0 <= ty < 30,
    ensures
        spec_cell(s, tx, ty).1 <= 3,
{
}

/// One quadrant's two bits or'ed in above the ones below them.
proof fn lemma_attribute_step(b: u8, pal: u8, q: u8)
    requires
        pal <= 3,
        q < 4,
        b < pow4(q as int),
    ensures
        (b | pal << (2 * q) as u8) as int == b + pal * pow4(q as int),
        (b | pal << (2 * q) as u8) < pow4(q + 1),
{
    reveal_with_fuel(pow4, 5);
    let sh = (2 * q) as u8;
    let m = pow4(q as int) as u8;
    assert(m == (if q == 0 { 1u8 } else if q == 1 { 4 } else if q == 2 { 16 } else { 64 }));
    assert((b | pal << sh) == b + pal * m && (b | pal << sh) as int + 0 < 4 * m as int) by (bit_vector)
        requires
            pal <= 3,
            q < 4,
            sh == 2 * q,
            m == (if q == 0 { 1u8 } else if q == 1 { 4 } else if q == 2 { 16 } else { 64 }),
            b < m,
    ;
}

/// Two bits of a byte built from four palettes, two bits each.
proof fn lemma_two_bits_of(p0: u8, p1: u8, p2: u8, p3: u8, q: u8)
    requires
        p0 <= 3,
        p1 <= 3,
        p2 <= 3,
        p3 <= 3,
        q < 4,
    ensures
        ((((p0 + 4 * p1 + 16 * p2 + 64 * p3) as u8) >> (2 * q) as u8) & 3u8) == (if q == 0 {
            p0
        } else if q == 1 {
            p1
        } else if q == 2 {
            p2
        } else {
            p3
        }),
{
    assert(((((p0 + 4 * p1 + 16 * p2 + 64 * p3) as u8) >> (2 * q) as u8) & 3u8) == (if q == 0 {
        p0
    } else if q == 1 {
        p1
    } else if q == 2 {
        p2
    } else {
        p3
    })) by (bit_vector)
        requires
            p0 <= 3,
            p1 <= 3,
            p2 <= 3,
            p3 <= 3,
            q < 4,
    ;
}

/// The attribute byte's value, written out quadrant by quadrant.
proof fn lemma_attribute_sum(s: int, ax: int, ay: int)
    ensures
        attribute_bits(s, ax, ay, 4) == quadrant_palette(s, ax, ay, 0) + 4 * quadrant_palette(s, ax, ay, 1) + 16
            * quadrant_palette(s, ax, ay, 2) + 64 * quadrant_palette(s, ax, ay, 3),
{
    reveal_with_fuel(pow4, 5);
    assert(pow4(0) == 1 && pow4(1) == 4 && pow4(2) == 16 && pow4(3) == 64);
    assert(attribute_bits(s, ax, ay, 0) == 0);
    assert(attribute_bits(s, ax, ay, 1) == quadrant_palette(s, ax, ay, 0));
    assert(attribute_bits(s, ax, ay, 2) == attribute_bits(s, ax, ay, 1) + 4 * quadrant_palette(s, ax, ay, 1));
    assert(attribute_bits(s, ax, ay, 3) == attribute_bits(s, ax, ay, 2) + 16 * quadrant_palette(s, ax, ay, 2));
    assert(attribute_bits(s, ax, ay, 4) == attribute_bits(s, ax, ay, 3) + 64 * quadrant_palette(s, ax, ay, 3));
}

/// The attribute byte of a square is its four quadrants' palettes.
proof fn lemma_attribute_quadrant(s: int, ax: int, ay: int, q: int)
    requires
        0 <= ax < 8,
        0 <= ay < 8,
        0 <= q < 4,
    ensures
        ((spec_attribute(s, ax, ay) >> (2 * q) as u8) & 3u8) == quadrant_palette(s, ax, ay, q),
{
    lemma_attribute_sum(s, ax, ay);
    assert forall|k: int| 0 <= k < 4 implies 0 <= #[trigger] quadrant_palette(s, ax, ay, k) <= 3 by {
        let (dx, dy) = quadrant(k);
        if ay * 4 + dy < 30 {
            lemma_cell_palette_small(s, ax * 4 + dx, ay * 4 + dy);
        }
    }
    let p: Seq<u8> = Seq::new(4, |k: int| quadrant_palette(s, ax, ay, k) as u8);
    assert(p[0] as int == quadrant_palette(s, ax, ay, 0) && p[1] as int == quadrant_palette(s, ax, ay, 1));
    assert(p[2] as int == quadrant_palette(s, ax, ay, 2) && p[3] as int == quadrant_palette(s, ax, ay, 3));
    assert(attribute_bits(s, ax, ay, 4) == p[0] + 4 * p[1] + 16 * p[2] + 64 * p[3]);
    lemma_two_bits_of(p[0], p[1], p[2], p[3], q as u8);
}

/// In every screen's nametable a tile that is not blank reads, from the
/// attribute byte of its 4x4-tile square (byte `960 + (ty / 4) * 8 +
/// tx / 4`), its own palette in bits `2q` and `2q + 1`, where `q` is
/// its 2x2 quadrant (`((ty / 2) % 2) * 2 + (tx / 2) % 2`): no quadrant
/// is torn between two palettes.
#[verifier::spinoff_prover]
#[verifier::rlimit(40)]
pub proof fn lemma_every_tile_reads_its_palette(s: int, tx: int, ty: int)
    requires
        0 <= tx < 32,
        0 <= ty < 30,
    ensures
        ({
            let n = spec_nametable(s);
            let q = ((ty / 2) % 2) * 2 + (tx / 2) % 2;
            &&& n.len() == 1024
            &&& n[ty * 32 + tx] == spec_cell(s, tx, ty).0
            &&& n[ty * 32 + tx] != T_BLANK ==> (n[960 + (ty / 4) * 8 + tx / 4] >> (2 * q) as u8) & 3u8
                == spec_cell(s, tx, ty).1
        }),
{
    let n = spec_nametable(s);
    let (ax, ay) = (tx / 4, ty / 4);
    let q = ((ty / 2) % 2) * 2 + (tx / 2) % 2;
    let i = ty * 32 + tx;
    assert(i % 32 == tx && i / 32 == ty && 0 <= i < 960) by (nonlinear_arith)
        requires
            i == ty * 32 + tx,
            0 <= tx < 32,
            0 <= ty < 30,
    ;
    let j = ay * 8 + ax;
    assert(0 <= j < 64 && j % 8 == ax && j / 8 == ay) by (nonlinear_arith)
        requires
            j == ay * 8 + ax,
            0 <= ax < 8,
            0 <= ay < 8,
    ;
    assert(n.len() == 1024 && n[i] == spec_cell(s, tx, ty).0 && n[960 + j] == spec_attribute(s, ax, ay));
    let (dx, dy) = quadrant(q);
    let (tx0, ty0) = (tx - tx % 2, ty - ty % 2);
    assert(ax * 4 + dx == tx0 && ay * 4 + dy == ty0 && 0 <= q < 4 && ty0 < 30 && tx0 % 2 == 0 && ty0 % 2 == 0 && 0 <= tx0);
    assert(quadrant_palette(s, ax, ay, q) == spec_cell(s, tx0, ty0).1 as int);
    lemma_attribute_quadrant(s, ax, ay, q);
    lemma_quadrants_are_one_palette(s, tx0, ty0, tx % 2, ty % 2);
    assert(tx0 + tx % 2 == tx && ty0 + ty % 2 == ty);
}

/// The strip rows of every screen's nametable: their attribute bytes
/// (the first 16) put every quadrant in palette 3, and on every screen
/// but the geometry screen their tiles are all blank, for the NMI to
/// write.
pub proof fn lemma_the_strip_rows_are_palette_3(s: int)
    ensures
        forall|i: int| 960 <= i < 976 ==> spec_nametable(s)[i] == 0xffu8,
        s != 7 ==> forall|i: int| 0 <= i < 256 ==> spec_nametable(s)[i] == T_BLANK,
{
    let n = spec_nametable(s);
    assert forall|i: int| 960 <= i < 976 implies n[i] == 0xffu8 by {
        let j = i - 960;
        assert(j / 8 < 2 && 0 <= j % 8 < 8);
        lemma_attribute_sum(s, j % 8, j / 8);
        assert(quadrant_palette(s, j % 8, j / 8, 0) == 3 && quadrant_palette(s, j % 8, j / 8, 1) == 3);
        assert(quadrant_palette(s, j % 8, j / 8, 2) == 3 && quadrant_palette(s, j % 8, j / 8, 3) == 3);
        assert(spec_attribute(s, j % 8, j / 8) == 0xffu8);
    }
    assert forall|i: int| 0 <= i < 256 && s != 7 implies n[i] == T_BLANK by {
        assert(i / 32 < 8);
    }
}

/// Nametable and attributes of screen `s`: 960 tiles then 64 bytes.
pub fn nametable(s: usize) -> (n: Vec<u8>)
    ensures
        n@ == spec_nametable(s as int),
{
    let mut n: Vec<u8> = Vec::with_capacity(1024);
    let mut ty: usize = 0;
    while ty < 30
        invariant
            ty <= 30,
            n@ == Seq::new(960, |i: int| spec_cell(s as int, i % 32, i / 32).0).subrange(0, 32 * ty),
        decreases 30 - ty,
    {
        let mut tx: usize = 0;
        while tx < 32
            invariant
                ty < 30,
                tx <= 32,
                n@ == Seq::new(960, |i: int| spec_cell(s as int, i % 32, i / 32).0).subrange(0, 32 * ty + tx),
            decreases 32 - tx,
        {
            n.push(cell(s, tx, ty).0);
            proof {
                let i = 32 * ty + tx;
                assert(i % 32 == tx && i / 32 == ty) by (nonlinear_arith)
                    requires i == 32 * ty + tx, tx < 32;
            }
            tx += 1;
            assert(n@ =~= Seq::new(960, |i: int| spec_cell(s as int, i % 32, i / 32).0).subrange(0, 32 * ty + tx));
        }
        ty += 1;
    }
    let ghost tiles = n@;
    assert(tiles =~= Seq::new(960, |i: int| spec_cell(s as int, i % 32, i / 32).0));
    let mut ay: usize = 0;
    while ay < 8
        invariant
            ay <= 8,
            tiles.len() == 960,
            n@ == tiles + Seq::new(64, |i: int| spec_attribute(s as int, i % 8, i / 8)).subrange(0, 8 * ay),
        decreases 8 - ay,
    {
        let mut ax: usize = 0;
        while ax < 8
            invariant
                ay < 8,
                ax <= 8,
                tiles.len() == 960,
                n@ == tiles + Seq::new(64, |i: int| spec_attribute(s as int, i % 8, i / 8)).subrange(0, 8 * ay + ax),
            decreases 8 - ax,
        {
            let offsets: [(usize, usize); 4] = [(0, 0), (2, 0), (0, 2), (2, 2)];
            let mut b: u8 = 0;
            let mut q: usize = 0;
            while q < 4
                invariant
                    ay < 8,
                    ax < 8,
                    q <= 4,
                    offsets@ == seq![(0usize, 0usize), (2usize, 0usize), (0usize, 2usize), (2usize, 2usize)],
                    b as int == attribute_bits(s as int, ax as int, ay as int, q as int),
                    b < pow4(q as int),
                decreases 4 - q,
            {
                let (dx, dy) = offsets[q];
                let (tx, ty) = (ax * 4 + dx, ay * 4 + dy);
                let pal = if ty < 30 { cell(s, tx, ty).1 } else { 0 };
                proof {
                    if ty < 30 {
                        lemma_cell_palette_small(s as int, tx as int, ty as int);
                    }
                    assert(pal as int == quadrant_palette(s as int, ax as int, ay as int, q as int));
                    lemma_attribute_step(b, pal, q as u8);
                }
                b = b | pal << ((2 * q) as u8);
                q += 1;
            }
            n.push(b);
            proof {
                let i = 8 * ay + ax;
                assert(i % 8 == ax && i / 8 == ay) by (nonlinear_arith)
                    requires i == 8 * ay + ax, ax < 8;
            }
            ax += 1;
            assert(n@ =~= tiles + Seq::new(64, |i: int| spec_attribute(s as int, i % 8, i / 8)).subrange(0, 8 * ay + ax));
        }
        ay += 1;
    }
    assert(Seq::new(64, |i: int| spec_attribute(s as int, i % 8, i / 8)).subrange(0, 64) =~= Seq::new(
        64,
        |i: int| spec_attribute(s as int, i % 8, i / 8),
    ));
    n
}

// ------------------------------------------------------------------ CHR
/// Plane 0 (`plane == 0`) or plane 1 of tile `t`, row `r`: colour 1 in
/// plane 0 unless the tile is one of the solid colours 2 and 3.
pub open spec fn spec_tile_row(t: int, plane: int, r: int) -> u8 {
    let checker1 = if r % 2 == 0 { 0xaau8 } else { 0x55u8 };
    let checker2 = if (r / 2) % 2 == 0 { 0xccu8 } else { 0x33u8 };
    if plane == 1 {
        if t == T_C2 || t == T_C3 { 0xff } else { 0 }
    } else if t == T_C1 || t == T_C3 { 0xff }
    else if t == T_V1 { 0xaa }
    else if t == T_V2 { 0xcc }
    else if t == T_V4 { 0xf0 }
    else if t == T_H1 { if r % 2 == 0 { 0xff } else { 0 } }
    else if t == T_H2 { if (r / 2) % 2 == 0 { 0xff } else { 0 } }
    else if t == T_H4 { if r < 4 { 0xff } else { 0 } }
    else if t == T_CHK1 { checker1 }
    else if t == T_CHK2 { checker2 }
    else if t == T_HTOP { if r == 0 { 0xff } else { 0 } }
    else if t == T_HBOT { if r == 7 { 0xff } else { 0 } }
    else if t == T_VLEFT { 0x80 }
    else if t == T_VRIGHT { 0x01 }
    else if t == T_TL { if r == 0 { 0xff } else { 0x80 } }
    else if t == T_TR { if r == 0 { 0xff } else { 0x01 } }
    else if t == T_BL { if r == 7 { 0xff } else { 0x80 } }
    else if t == T_BR { if r == 7 { 0xff } else { 0x01 } }
    else { 0 }
}

/// The calibration cartridge's 8 KiB of CHR: sixteen bytes a tile,
/// plane 0's eight rows then plane 1's.
pub open spec fn spec_chr() -> Seq<u8> {
    Seq::new(0x2000, |i: int| spec_tile_row(i / 16, (i % 16) / 8, i % 8))
}

/// Lay tile `t`'s two planes into the CHR.
fn tile(c: &mut Vec<u8>, t: u8, p0: [u8; 8], p1: [u8; 8])
    requires
        old(c)@.len() == 0x2000,
        t < 32,
    ensures
        final(c)@.len() == 0x2000,
        forall|i: int| 0 <= i < 0x2000 ==> final(c)@[i] == (if i / 16 == t as int {
            if (i % 16) < 8 { p0@[i % 8] } else { p1@[i % 8] }
        } else {
            old(c)@[i]
        }),
{
    let o = t as usize * 16;
    let mut r: usize = 0;
    while r < 8
        invariant
            r <= 8,
            o == t * 16,
            t < 32,
            c@.len() == 0x2000,
            forall|i: int| 0 <= i < 0x2000 ==> c@[i] == (if i / 16 == t as int && i % 8 < r {
                if (i % 16) < 8 { p0@[i % 8] } else { p1@[i % 8] }
            } else {
                old(c)@[i]
            }),
        decreases 8 - r,
    {
        c.set(o + r, p0[r]);
        c.set(o + 8 + r, p1[r]);
        r += 1;
    }
}

/// CHR: the tiles named above, colour 1 in plane 0 unless said.
pub fn chr() -> (c: Vec<u8>)
    ensures
        c@ == spec_chr(),
{
    let mut c = vec![0u8; 0x2000];
    let f = [0xffu8; 8];
    let z = [0u8; 8];
    tile(&mut c, T_C1, f, z);
    tile(&mut c, T_C2, z, f);
    tile(&mut c, T_C3, f, f);
    tile(&mut c, T_V1, [0xaa; 8], z);
    tile(&mut c, T_V2, [0xcc; 8], z);
    tile(&mut c, T_V4, [0xf0; 8], z);
    tile(&mut c, T_H1, [0xff, 0, 0xff, 0, 0xff, 0, 0xff, 0], z);
    tile(&mut c, T_H2, [0xff, 0xff, 0, 0, 0xff, 0xff, 0, 0], z);
    tile(&mut c, T_H4, [0xff, 0xff, 0xff, 0xff, 0, 0, 0, 0], z);
    tile(&mut c, T_CHK1, [0xaa, 0x55, 0xaa, 0x55, 0xaa, 0x55, 0xaa, 0x55], z);
    tile(&mut c, T_CHK2, [0xcc, 0xcc, 0x33, 0x33, 0xcc, 0xcc, 0x33, 0x33], z);
    tile(&mut c, T_HTOP, [0xff, 0, 0, 0, 0, 0, 0, 0], z);
    tile(&mut c, T_HBOT, [0, 0, 0, 0, 0, 0, 0, 0xff], z);
    tile(&mut c, T_VLEFT, [0x80; 8], z);
    tile(&mut c, T_VRIGHT, [0x01; 8], z);
    tile(&mut c, T_TL, [0xff, 0x80, 0x80, 0x80, 0x80, 0x80, 0x80, 0x80], z);
    tile(&mut c, T_TR, [0xff, 0x01, 0x01, 0x01, 0x01, 0x01, 0x01, 0x01], z);
    tile(&mut c, T_BL, [0x80, 0x80, 0x80, 0x80, 0x80, 0x80, 0x80, 0xff], z);
    tile(&mut c, T_BR, [0x01, 0x01, 0x01, 0x01, 0x01, 0x01, 0x01, 0xff], z);
    assert(c@ =~= spec_chr());
    c
}

// ----------------------------------------------------------- program
// Zero page.
const Z_FRAME: u8 = 0x00; // 16 bits
const Z_SCREEN: u8 = 0x02;
const Z_TIMER: u8 = 0x03;
const Z_PAD: u8 = 0x04;
const Z_PREV: u8 = 0x05;
const Z_HOLD: u8 = 0x06;
const Z_VARIANT: u8 = 0x09;
const Z_REDRAW: u8 = 0x0a;
const Z_NMI: u8 = 0x0b;
const Z_NEW: u8 = 0x0d;
const Z_LOADING: u8 = 0x0e;
const Z_BUF: u8 = 0x20; // 90 tiles: rows A, B, C, 30 each
const Z_PAL: u8 = 0x80; // 16 palette bytes
const Z_MASK: u8 = 0x90;
const Z_TMP: u8 = 0x91;
const Z_PTR: u8 = 0x92; // 16 bits

// Data in PRG (addresses in the CPU's space).
pub const A_PAL_PAGES: u16 = 0x9000; // 7 pages x 16
pub const A_BARS_PAL: u16 = 0x9080; // 8 variants x 16
pub const A_FIXED_PAL: u16 = 0x9100; // 16
pub const A_VPERIOD: u16 = 0x9120; // 8
pub const A_VCOUNT: u16 = 0x9128; // 8
pub const A_NAMETABLES: u16 = 0xa000; // 8 x 1024

// Opcodes, named where a line would otherwise be a bare number.
const LDA_IMM: u8 = 0xa9;
const LDA_ZP: u8 = 0xa5;
const LDA_ABS: u8 = 0xad;
const LDA_ABX: u8 = 0xbd;
const LDA_IZY: u8 = 0xb1;
const STA_ZP: u8 = 0x85;
const STA_ABS: u8 = 0x8d;
const STA_ZPX: u8 = 0x95;
const STA_ZPY: u8 = 0x99; // STA abs,Y
const LDX_IMM: u8 = 0xa2;
const LDX_ZP: u8 = 0xa6;
const LDY_IMM: u8 = 0xa0;
const INC_ZP: u8 = 0xe6;
const CMP_IMM: u8 = 0xc9;
const CMP_ABX: u8 = 0xdd;
const CPX_IMM: u8 = 0xe0;
const CPY_IMM: u8 = 0xc0;
const AND_IMM: u8 = 0x29;
const AND_ZP: u8 = 0x25;
const EOR_IMM: u8 = 0x49;
const EOR_ZP: u8 = 0x45;
const ORA_IMM: u8 = 0x09;
const ADC_IMM: u8 = 0x69;
const ASL_A: u8 = 0x0a;
const ASL_ZP: u8 = 0x06;
const LSR_A: u8 = 0x4a;
const ROR_ZP: u8 = 0x66;
const BNE: u8 = 0xd0;
const BEQ: u8 = 0xf0;
const BPL: u8 = 0x10;

/// The three sync patterns, one per strip row, MSB first over three blocks.
pub const SYNC: [u8; 3] = [0b101, 0b010, 0b110];

// The program's labels.
const L_RESET: usize = 0;
const L_ZERO: usize = 1;
const L_MAIN: usize = 2;
const L_NOSEL: usize = 3;
const L_NOSTART: usize = 4;
const L_NOV: usize = 5;
const L_NORED: usize = 6;
const L_NEXT_SCREEN: usize = 7;
const L_LOAD_SCREEN: usize = 8;
const L_PAGE: usize = 9;
const L_COPY: usize = 10;
const L_BUILD_PALETTE: usize = 11;
const L_PAL_FIXED: usize = 12;
const L_FIELD_GREY: usize = 13;
const L_PAL_DONE: usize = 14;
const L_PAL_PAGES: usize = 15;
const L_PP: usize = 16;
const L_PAL_BARS: usize = 17;
const L_PB: usize = 18;
const L_BUILD_STRIP: usize = 19;
const L_EMIT: usize = 20;
const L_EMIT_BIT: usize = 21;
const L_EMIT_Z: usize = 22;
const L_NMI: usize = 23;
const L_NC: usize = 24;
const L_NMI_BODY: usize = 25;
const L_POLL: usize = 26;
const L_NMI_EXIT: usize = 27;
const L_IRQ: usize = 28;

/// The same assembly, only the code longer by `k` bytes.
pub open spec fn grew(old: Asm, new: Asm, k: int) -> bool {
    &&& new.origin() == old.origin()
    &&& new.label_map() == old.label_map()
    &&& new.fixups() == old.fixups()
    &&& new.code().len() == old.code().len() + k
    &&& new.code().subrange(0, old.code().len() as int) == old.code()
}

/// Set the PPU's address: LDA #hi; STA $2006; LDA #lo; STA $2006.
spec fn ppu_addr_code(hi: u8, lo: u8) -> Seq<u8> {
    seq![LDA_IMM, hi, STA_ABS, 0x06u8, 0x20u8, LDA_IMM, lo, STA_ABS, 0x06u8, 0x20u8]
}

/// The reset sequence and the main loop, as assembled: the operands of
/// references are zero until `finish` writes them.
#[verifier::opaque]
spec fn reset_and_main_code() -> Seq<u8> {
    seq![0x78u8, 0xd8, LDX_IMM, 0xff, 0x9a]
        + seq![LDA_IMM, 0x40, STA_ABS, 0x17, 0x40]
        + seq![LDA_IMM, 0x00, STA_ABS, 0x00, 0x20, STA_ABS, 0x01, 0x20]
        + seq![0x2cu8, 0x02, 0x20, BPL, 0xfb]
        + seq![0x2cu8, 0x02, 0x20, BPL, 0xfb]
        + seq![LDX_IMM, 0x00, LDA_IMM, 0x00]
        + seq![STA_ZPX, 0x00, 0xe8]
        + seq![BNE, 0u8]
        + seq![0x20u8, 0, 0]
        + seq![0x20u8, 0, 0]
        + seq![0x20u8, 0, 0]
        + seq![LDA_IMM, 0x80, STA_ABS, 0x00, 0x20]
        + seq![LDA_ZP, Z_NMI]
        + seq![BEQ, 0u8]
        + seq![LDA_IMM, 0x00, STA_ZP, Z_NMI]
        + seq![LDA_ZP, Z_PREV, EOR_IMM, 0xff, AND_ZP, Z_PAD, STA_ZP, Z_NEW]
        + seq![AND_IMM, 0x04]
        + seq![BEQ, 0u8]
        + seq![0x20u8, 0, 0]
        + seq![LDA_ZP, Z_NEW, AND_IMM, 0x08]
        + seq![BEQ, 0u8]
        + seq![LDA_ZP, Z_HOLD, EOR_IMM, 0x01, STA_ZP, Z_HOLD]
        + seq![INC_ZP, Z_TIMER, LDX_ZP, Z_SCREEN, LDA_ZP, Z_TIMER, CMP_ABX, A_VPERIOD as u8, (A_VPERIOD >> 8) as u8]
        + seq![BNE, 0u8]
        + seq![LDA_IMM, 0x00, STA_ZP, Z_TIMER, INC_ZP, Z_VARIANT, LDA_ZP, Z_VARIANT, CMP_ABX, A_VCOUNT as u8, (A_VCOUNT >> 8) as u8]
        + seq![BNE, 0u8]
        + seq![LDA_IMM, 0x00, STA_ZP, Z_VARIANT, LDA_ZP, Z_HOLD]
        + seq![BNE, 0u8]
        + seq![0x20u8, 0, 0]
        + seq![LDA_ZP, Z_REDRAW]
        + seq![BEQ, 0u8]
        + seq![0x20u8, 0, 0]
        + seq![LDA_IMM, 0x00, STA_ZP, Z_REDRAW]
        + seq![0x20u8, 0, 0]
        + seq![0x20u8, 0, 0]
        + seq![0x4cu8, 0, 0]
}

/// next_screen and load_screen, as assembled after the code `base`.
#[verifier::opaque]
spec fn screen_routines_code(base: Seq<u8>) -> Seq<u8> {
    base
        + seq![INC_ZP, Z_SCREEN, LDA_ZP, Z_SCREEN, AND_IMM, 0x07, STA_ZP, Z_SCREEN]
        + seq![LDA_IMM, 0x00, STA_ZP, Z_TIMER, STA_ZP, Z_VARIANT, LDA_IMM, 0x01, STA_ZP, Z_REDRAW, 0x60]
        + seq![LDA_IMM, 0x01, STA_ZP, Z_LOADING, LDA_IMM, 0x00, STA_ABS, 0x01, 0x20]
        + seq![LDA_ZP, Z_SCREEN, ASL_A, ASL_A, 0x18, ADC_IMM, (A_NAMETABLES >> 8) as u8, STA_ZP, (Z_PTR + 1) as u8, LDA_IMM, 0x00, STA_ZP, Z_PTR]
        + ppu_addr_code(0x20, 0x00)
        + seq![LDX_IMM, 0x04]
        + seq![LDY_IMM, 0x00]
        + seq![LDA_IZY, Z_PTR, STA_ABS, 0x07, 0x20, 0xc8]
        + seq![BNE, 0u8]
        + seq![INC_ZP, (Z_PTR + 1) as u8, 0xca]
        + seq![BNE, 0u8]
        + ppu_addr_code(0x20, 0x00)
        + seq![STA_ABS, 0x05, 0x20, STA_ABS, 0x05, 0x20]
        + seq![STA_ZP, Z_LOADING, STA_ZP, Z_NMI, 0x60]
}

/// build_palette, as assembled after the code `base`.
#[verifier::opaque]
spec fn palette_routine_code(base: Seq<u8>) -> Seq<u8> {
    base
        + seq![LDX_ZP, Z_SCREEN, CPX_IMM, 0x01]
        + seq![BEQ, 0u8]
        + seq![CPX_IMM, 0x02]
        + seq![BEQ, 0u8]
        + seq![LDX_IMM, 0x00]
        + seq![LDA_ABX, A_FIXED_PAL as u8, (A_FIXED_PAL >> 8) as u8, STA_ZPX, Z_PAL, 0xe8, CPX_IMM, 0x10]
        + seq![BNE, 0u8]
        + seq![LDA_IMM, 0x0a, STA_ZP, Z_MASK]
        + seq![LDA_ZP, Z_SCREEN, CMP_IMM, 0x06]
        + seq![BNE, 0u8]
        + seq![LDA_ZP, Z_PAD]
        + seq![BEQ, 0u8]
        + seq![LDA_IMM, 0x2a, STA_ZP, (Z_PAL + 1) as u8, 0x60]
        + seq![LDA_IMM, 0x00, STA_ZP, (Z_PAL + 1) as u8]
        + seq![0x60u8]
        + seq![LDA_ZP, Z_VARIANT, AND_IMM, 0xf8, ASL_A, 0xaa, LDY_IMM, 0x00]
        + seq![LDA_ABX, A_PAL_PAGES as u8, (A_PAL_PAGES >> 8) as u8, STA_ZPY, Z_PAL, 0x00, 0xe8, 0xc8, CPY_IMM, 0x10]
        + seq![BNE, 0u8]
        + seq![LDA_ZP, Z_VARIANT, AND_IMM, 0x07, ASL_A, ASL_A, ASL_A, ASL_A, ASL_A, ORA_IMM, 0x0a, STA_ZP, Z_MASK, 0x60]
        + seq![LDA_ZP, Z_VARIANT, ASL_A, ASL_A, ASL_A, ASL_A, 0xaa, LDY_IMM, 0x00]
        + seq![LDA_ABX, A_BARS_PAL as u8, (A_BARS_PAL >> 8) as u8, STA_ZPY, Z_PAL, 0x00, 0xe8, 0xc8, CPY_IMM, 0x10]
        + seq![BNE, 0u8]
        + seq![LDA_IMM, 0x0a, STA_ZP, Z_MASK, 0x60]
}

/// build_strip and emit, as assembled after the code `base`.
#[verifier::opaque]
spec fn strip_routines_code(base: Seq<u8>) -> Seq<u8> {
    base
        + seq![LDX_IMM, 0x00]
        + seq![LDA_IMM, SYNC[0] << 5u8, LDY_IMM, 3]
        + seq![0x20u8, 0, 0]
        + seq![LDA_ZP, Z_SCREEN, ASL_A, ASL_A, ASL_A, ASL_A, ASL_A, LDY_IMM, 3]
        + seq![0x20u8, 0, 0]
        + seq![LDA_ZP, Z_VARIANT, ASL_A, ASL_A, LDY_IMM, 6]
        + seq![0x20u8, 0, 0]
        + seq![LDA_ZP, Z_HOLD, ASL_A, ASL_A, ASL_A, ASL_A, ASL_A, ASL_A, ASL_A, LDY_IMM, 1]
        + seq![0x20u8, 0, 0]
        + seq![LDA_ZP, Z_SCREEN, EOR_ZP, Z_VARIANT, EOR_ZP, Z_HOLD, EOR_ZP, Z_FRAME, EOR_ZP, (Z_FRAME + 1) as u8, EOR_ZP, Z_PAD, STA_ZP, Z_TMP]
        + seq![LSR_A, LSR_A, LSR_A, LSR_A, EOR_ZP, Z_TMP, STA_ZP, Z_TMP, LSR_A, LSR_A, EOR_ZP, Z_TMP, STA_ZP, Z_TMP, LSR_A, EOR_ZP, Z_TMP]
        + seq![ASL_A, ASL_A, ASL_A, ASL_A, ASL_A, ASL_A, ASL_A, LDY_IMM, 1]
        + seq![0x20u8, 0, 0]
        + seq![LDA_IMM, 0x00, LDY_IMM, 1]
        + seq![0x20u8, 0, 0]
        + seq![LDA_IMM, SYNC[1] << 5u8, LDY_IMM, 3]
        + seq![0x20u8, 0, 0]
        + seq![LDA_ZP, (Z_FRAME + 1) as u8, ASL_A, ASL_A, ASL_A, ASL_A, LDY_IMM, 4]
        + seq![0x20u8, 0, 0]
        + seq![LDA_ZP, Z_FRAME, LDY_IMM, 8]
        + seq![0x20u8, 0, 0]
        + seq![LDA_IMM, SYNC[2] << 5u8, LDY_IMM, 3]
        + seq![0x20u8, 0, 0]
        + seq![LDA_ZP, (Z_FRAME + 1) as u8, LDY_IMM, 4]
        + seq![0x20u8, 0, 0]
        + seq![LDA_ZP, Z_PAD, LDY_IMM, 8]
        + seq![0x20u8, 0, 0]
        + seq![0x60u8]
        + seq![STA_ZP, Z_TMP]
        + seq![ASL_ZP, Z_TMP, LDA_IMM, 0x00, ADC_IMM, 0x00]
        + seq![BEQ, 0u8]
        + seq![LDA_IMM, T_C3]
        + seq![STA_ZPX, Z_BUF, STA_ZPX, (Z_BUF + 1) as u8, 0xe8, 0xe8, 0x88]
        + seq![BNE, 0u8]
        + seq![0x60u8]
}

fn ppu_addr(a: &mut Asm, hi: u8, lo: u8)
    requires
        old(a).code().len() + 10 <= 0x10000,
    ensures
        grew(*old(a), *final(a), 10),
        final(a).code() == old(a).code() + ppu_addr_code(hi, lo),
{
    a.e(&[LDA_IMM, hi, STA_ABS, 0x06, 0x20, LDA_IMM, lo, STA_ABS, 0x06, 0x20]);
    assert(a.code().subrange(0, old(a).code().len() as int) =~= old(a).code());
}

/// The reset code and the main loop, at $8000.
fn reset_and_main(a: &mut Asm)
    requires
        old(a).origin() == 0x8000,
        old(a).code().len() == 0,
        old(a).label_map() == Map::<usize, u16>::empty(),
    ensures
        final(a).origin() == 0x8000,
        final(a).code().len() == 0x8d,
        final(a).code() == reset_and_main_code(),
        final(a).code().subrange(0, 5) == seq![0x78u8, 0xd8, 0xa2, 0xff, 0x9a],
        final(a).label_map() == old(a).label_map().insert(L_RESET, 0x8000).insert(L_ZERO, 0x8020).insert(L_MAIN, 0x8033)
            .insert(L_NOSEL, 0x804a).insert(L_NOSTART, 0x8056).insert(L_NOV, 0x8079).insert(L_NORED, 0x8084),
        final(a).fixups() == old(a).fixups() + seq![(0x24usize, L_ZERO, true), (0x26usize, L_LOAD_SCREEN, false), (0x29usize, L_BUILD_PALETTE, false), (0x2cusize, L_BUILD_STRIP, false), (0x36usize, L_MAIN, true), (0x46usize, L_NOSEL, true), (0x48usize, L_NEXT_SCREEN, false), (0x4fusize, L_NOSTART, true), (0x60usize, L_NOV, true), (0x6dusize, L_NOV, true), (0x75usize, L_NOV, true), (0x77usize, L_NEXT_SCREEN, false), (0x7cusize, L_NORED, true), (0x7eusize, L_LOAD_SCREEN, false), (0x85usize, L_BUILD_PALETTE, false), (0x88usize, L_BUILD_STRIP, false), (0x8busize, L_MAIN, false)],
{
    reveal(reset_and_main_code);
    // ---- reset
    a.label(L_RESET);
    a.e(&[0x78, 0xd8, LDX_IMM, 0xff, 0x9a]); // SEI; CLD; LDX #$FF; TXS
    let ghost head = a.code();
    a.e(&[LDA_IMM, 0x40, STA_ABS, 0x17, 0x40]); // $4017 <- $40
    a.e(&[LDA_IMM, 0x00, STA_ABS, 0x00, 0x20, STA_ABS, 0x01, 0x20]); // $2000, $2001 <- 0
    a.e(&[0x2c, 0x02, 0x20, BPL, 0xfb]); // BIT $2002; BPL -5, twice
    a.e(&[0x2c, 0x02, 0x20, BPL, 0xfb]);
    a.e(&[LDX_IMM, 0x00, LDA_IMM, 0x00]);
    a.label(L_ZERO);
    a.e(&[STA_ZPX, 0x00, 0xe8]); // STA $00,X; INX
    a.br(BNE, L_ZERO);
    a.jsr(L_LOAD_SCREEN);
    a.jsr(L_BUILD_PALETTE);
    a.jsr(L_BUILD_STRIP);
    a.e(&[LDA_IMM, 0x80, STA_ABS, 0x00, 0x20]); // NMI on
    // ---- main loop: once per NMI
    a.label(L_MAIN);
    a.e(&[LDA_ZP, Z_NMI]);
    a.br(BEQ, L_MAIN);
    a.e(&[LDA_IMM, 0x00, STA_ZP, Z_NMI]);
    // new presses = ~prev & pad
    a.e(&[LDA_ZP, Z_PREV, EOR_IMM, 0xff, AND_ZP, Z_PAD, STA_ZP, Z_NEW]);
    a.e(&[AND_IMM, 0x04]); // Select
    a.br(BEQ, L_NOSEL);
    a.jsr(L_NEXT_SCREEN);
    a.label(L_NOSEL);
    a.e(&[LDA_ZP, Z_NEW, AND_IMM, 0x08]); // Start
    a.br(BEQ, L_NOSTART);
    a.e(&[LDA_ZP, Z_HOLD, EOR_IMM, 0x01, STA_ZP, Z_HOLD]);
    a.label(L_NOSTART);
    // the timer: a variant every VPERIOD[screen] frames, VCOUNT variants
    a.e(&[INC_ZP, Z_TIMER, LDX_ZP, Z_SCREEN, LDA_ZP, Z_TIMER, CMP_ABX, A_VPERIOD as u8, (A_VPERIOD >> 8) as u8]);
    a.br(BNE, L_NOV);
    a.e(&[LDA_IMM, 0x00, STA_ZP, Z_TIMER, INC_ZP, Z_VARIANT, LDA_ZP, Z_VARIANT, CMP_ABX, A_VCOUNT as u8, (A_VCOUNT >> 8) as u8]);
    a.br(BNE, L_NOV);
    a.e(&[LDA_IMM, 0x00, STA_ZP, Z_VARIANT, LDA_ZP, Z_HOLD]);
    a.br(BNE, L_NOV);
    a.jsr(L_NEXT_SCREEN);
    a.label(L_NOV);
    a.e(&[LDA_ZP, Z_REDRAW]);
    a.br(BEQ, L_NORED);
    a.jsr(L_LOAD_SCREEN);
    a.e(&[LDA_IMM, 0x00, STA_ZP, Z_REDRAW]);
    a.label(L_NORED);
    a.jsr(L_BUILD_PALETTE);
    a.jsr(L_BUILD_STRIP);
    a.jmp(L_MAIN);
    assert(a.code().subrange(0, 5) =~= head);
    assert(a.fixups() =~= old(a).fixups() + seq![(0x24usize, L_ZERO, true), (0x26usize, L_LOAD_SCREEN, false), (0x29usize, L_BUILD_PALETTE, false), (0x2cusize, L_BUILD_STRIP, false), (0x36usize, L_MAIN, true), (0x46usize, L_NOSEL, true), (0x48usize, L_NEXT_SCREEN, false), (0x4fusize, L_NOSTART, true), (0x60usize, L_NOV, true), (0x6dusize, L_NOV, true), (0x75usize, L_NOV, true), (0x77usize, L_NEXT_SCREEN, false), (0x7cusize, L_NORED, true), (0x7eusize, L_LOAD_SCREEN, false), (0x85usize, L_BUILD_PALETTE, false), (0x88usize, L_BUILD_STRIP, false), (0x8busize, L_MAIN, false)]);
}

/// next_screen, and load_screen: rendering off, the nametable and
/// attributes copied from $A000 + screen * $400, scroll reset.
/// Rendering comes back with the next NMI's mask write.
fn screen_routines(a: &mut Asm)
    requires
        old(a).origin() == 0x8000,
        old(a).code().len() == 0x8d,
        !old(a).label_map().dom().contains(L_NEXT_SCREEN),
        !old(a).label_map().dom().contains(L_LOAD_SCREEN),
        !old(a).label_map().dom().contains(L_PAGE),
        !old(a).label_map().dom().contains(L_COPY),
    ensures
        final(a).code().subrange(0, old(a).code().len() as int) == old(a).code(),
        final(a).origin() == 0x8000,
        final(a).code().len() == 0xe6,
        final(a).code() == screen_routines_code(old(a).code()),
        final(a).label_map() == old(a).label_map().insert(L_NEXT_SCREEN, 0x808d).insert(L_LOAD_SCREEN, 0x80a0)
            .insert(L_PAGE, 0x80c2).insert(L_COPY, 0x80c4),
        final(a).fixups() == old(a).fixups() + seq![(0xcbusize, L_COPY, true), (0xd0usize, L_PAGE, true)],
{
    reveal(screen_routines_code);
    // ---- next_screen
    a.label(L_NEXT_SCREEN);
    a.e(&[INC_ZP, Z_SCREEN, LDA_ZP, Z_SCREEN, AND_IMM, 0x07, STA_ZP, Z_SCREEN]);
    a.e(&[LDA_IMM, 0x00, STA_ZP, Z_TIMER, STA_ZP, Z_VARIANT, LDA_IMM, 0x01, STA_ZP, Z_REDRAW, 0x60]);
    // ---- load_screen
    a.label(L_LOAD_SCREEN);
    a.e(&[LDA_IMM, 0x01, STA_ZP, Z_LOADING, LDA_IMM, 0x00, STA_ABS, 0x01, 0x20]);
    a.e(&[LDA_ZP, Z_SCREEN, ASL_A, ASL_A, 0x18, ADC_IMM, (A_NAMETABLES >> 8) as u8, STA_ZP, Z_PTR + 1, LDA_IMM, 0x00, STA_ZP, Z_PTR]);
    ppu_addr(a, 0x20, 0x00);
    a.e(&[LDX_IMM, 0x04]);
    a.label(L_PAGE);
    a.e(&[LDY_IMM, 0x00]);
    a.label(L_COPY);
    a.e(&[LDA_IZY, Z_PTR, STA_ABS, 0x07, 0x20, 0xc8]); // LDA (ptr),Y; STA $2007; INY
    a.br(BNE, L_COPY);
    a.e(&[INC_ZP, Z_PTR + 1, 0xca]); // INC ptr+1; DEX
    a.br(BNE, L_PAGE);
    ppu_addr(a, 0x20, 0x00);
    a.e(&[STA_ABS, 0x05, 0x20, STA_ABS, 0x05, 0x20]); // A is 0 here
    a.e(&[STA_ZP, Z_LOADING, STA_ZP, Z_NMI, 0x60]);
    assert(a.fixups() =~= old(a).fixups() + seq![(0xcbusize, L_COPY, true), (0xd0usize, L_PAGE, true)]);
    assert(a.code().subrange(0, old(a).code().len() as int) =~= old(a).code());
}

/// build_palette: the sixteen bytes for the next frame, and the mask.
fn palette_routine(a: &mut Asm)
    requires
        old(a).origin() == 0x8000,
        old(a).code().len() == 0xe6,
        !old(a).label_map().dom().contains(L_BUILD_PALETTE),
        !old(a).label_map().dom().contains(L_PAL_FIXED),
        !old(a).label_map().dom().contains(L_FIELD_GREY),
        !old(a).label_map().dom().contains(L_PAL_DONE),
        !old(a).label_map().dom().contains(L_PAL_PAGES),
        !old(a).label_map().dom().contains(L_PP),
        !old(a).label_map().dom().contains(L_PAL_BARS),
        !old(a).label_map().dom().contains(L_PB),
    ensures
        final(a).code().subrange(0, old(a).code().len() as int) == old(a).code(),
        final(a).origin() == 0x8000,
        final(a).code().len() == 0x150,
        final(a).code() == palette_routine_code(old(a).code()),
        final(a).label_map() == old(a).label_map().insert(L_BUILD_PALETTE, 0x80e6).insert(L_PAL_FIXED, 0x80f2)
            .insert(L_FIELD_GREY, 0x810f).insert(L_PAL_DONE, 0x8113).insert(L_PAL_PAGES, 0x8114).insert(L_PP, 0x811c)
            .insert(L_PAL_BARS, 0x8136).insert(L_PB, 0x813f),
        final(a).fixups() == old(a).fixups() + seq![(0xebusize, L_PAL_PAGES, true), (0xefusize, L_PAL_BARS, true), (0xfbusize, L_PAL_FIXED, true), (0x105usize, L_PAL_DONE, true), (0x109usize, L_FIELD_GREY, true), (0x127usize, L_PP, true), (0x14ausize, L_PB, true)],
{
    reveal(palette_routine_code);
    a.label(L_BUILD_PALETTE);
    a.e(&[LDX_ZP, Z_SCREEN, CPX_IMM, 0x01]);
    a.br(BEQ, L_PAL_PAGES);
    a.e(&[CPX_IMM, 0x02]);
    a.br(BEQ, L_PAL_BARS);
    a.e(&[LDX_IMM, 0x00]);
    a.label(L_PAL_FIXED);
    a.e(&[LDA_ABX, A_FIXED_PAL as u8, (A_FIXED_PAL >> 8) as u8, STA_ZPX, Z_PAL, 0xe8, CPX_IMM, 0x10]);
    a.br(BNE, L_PAL_FIXED);
    a.e(&[LDA_IMM, 0x0a, STA_ZP, Z_MASK]);
    a.e(&[LDA_ZP, Z_SCREEN, CMP_IMM, 0x06]);
    a.br(BNE, L_PAL_DONE);
    a.e(&[LDA_ZP, Z_PAD]); // the pad screen's field: any button, green; none, grey
    a.br(BEQ, L_FIELD_GREY);
    a.e(&[LDA_IMM, 0x2a, STA_ZP, Z_PAL + 1, 0x60]);
    a.label(L_FIELD_GREY);
    a.e(&[LDA_IMM, 0x00, STA_ZP, Z_PAL + 1]);
    a.label(L_PAL_DONE);
    a.e(&[0x60]);
    a.label(L_PAL_PAGES); // page = variant / 8; X = page * 16; emphasis = variant & 7
    a.e(&[LDA_ZP, Z_VARIANT, AND_IMM, 0xf8, ASL_A, 0xaa, LDY_IMM, 0x00]);
    a.label(L_PP);
    a.e(&[LDA_ABX, A_PAL_PAGES as u8, (A_PAL_PAGES >> 8) as u8, STA_ZPY, Z_PAL, 0x00, 0xe8, 0xc8, CPY_IMM, 0x10]);
    a.br(BNE, L_PP);
    a.e(&[LDA_ZP, Z_VARIANT, AND_IMM, 0x07, ASL_A, ASL_A, ASL_A, ASL_A, ASL_A, ORA_IMM, 0x0a, STA_ZP, Z_MASK, 0x60]);
    a.label(L_PAL_BARS); // X = variant * 16
    a.e(&[LDA_ZP, Z_VARIANT, ASL_A, ASL_A, ASL_A, ASL_A, 0xaa, LDY_IMM, 0x00]);
    a.label(L_PB);
    a.e(&[LDA_ABX, A_BARS_PAL as u8, (A_BARS_PAL >> 8) as u8, STA_ZPY, Z_PAL, 0x00, 0xe8, 0xc8, CPY_IMM, 0x10]);
    a.br(BNE, L_PB);
    a.e(&[LDA_IMM, 0x0a, STA_ZP, Z_MASK, 0x60]);
    assert(a.fixups() =~= old(a).fixups() + seq![(0xebusize, L_PAL_PAGES, true), (0xefusize, L_PAL_BARS, true), (0xfbusize, L_PAL_FIXED, true), (0x105usize, L_PAL_DONE, true), (0x109usize, L_FIELD_GREY, true), (0x127usize, L_PP, true), (0x14ausize, L_PB, true)]);
    assert(a.code().subrange(0, old(a).code().len() as int) =~= old(a).code());
}

/// build_strip: ninety tiles into the buffer, a bit a block; and emit,
/// which writes Y bits of A, MSB first, two tiles each (white = tile 3).
fn strip_routines(a: &mut Asm)
    requires
        old(a).origin() == 0x8000,
        old(a).code().len() == 0x150,
        !old(a).label_map().dom().contains(L_BUILD_STRIP),
        !old(a).label_map().dom().contains(L_EMIT),
        !old(a).label_map().dom().contains(L_EMIT_BIT),
        !old(a).label_map().dom().contains(L_EMIT_Z),
    ensures
        final(a).code().subrange(0, old(a).code().len() as int) == old(a).code(),
        final(a).origin() == 0x8000,
        final(a).code().len() == 0x1f3,
        final(a).code() == strip_routines_code(old(a).code()),
        final(a).label_map() == old(a).label_map().insert(L_BUILD_STRIP, 0x8150).insert(L_EMIT, 0x81dd)
            .insert(L_EMIT_BIT, 0x81df).insert(L_EMIT_Z, 0x81e9),
        final(a).fixups() == old(a).fixups() + seq![(0x157usize, L_EMIT, false), (0x163usize, L_EMIT, false), (0x16cusize, L_EMIT, false), (0x17ausize, L_EMIT, false), (0x1a5usize, L_EMIT, false), (0x1acusize, L_EMIT, false), (0x1b3usize, L_EMIT, false), (0x1beusize, L_EMIT, false), (0x1c5usize, L_EMIT, false), (0x1ccusize, L_EMIT, false), (0x1d3usize, L_EMIT, false), (0x1dausize, L_EMIT, false), (0x1e6usize, L_EMIT_Z, true), (0x1f1usize, L_EMIT_BIT, true)],
{
    reveal(strip_routines_code);
    a.label(L_BUILD_STRIP);
    a.e(&[LDX_IMM, 0x00]);
    // row A: sync, screen (3), variant (6), hold (1), parity (1), reserved (1)
    a.e(&[LDA_IMM, SYNC[0] << 5u8, LDY_IMM, 3]);
    a.jsr(L_EMIT);
    a.e(&[LDA_ZP, Z_SCREEN, ASL_A, ASL_A, ASL_A, ASL_A, ASL_A, LDY_IMM, 3]);
    a.jsr(L_EMIT);
    a.e(&[LDA_ZP, Z_VARIANT, ASL_A, ASL_A, LDY_IMM, 6]);
    a.jsr(L_EMIT);
    a.e(&[LDA_ZP, Z_HOLD, ASL_A, ASL_A, ASL_A, ASL_A, ASL_A, ASL_A, ASL_A, LDY_IMM, 1]);
    a.jsr(L_EMIT);
    // parity of screen ^ variant ^ hold ^ frame lo ^ frame hi ^ pad, folded to one bit
    a.e(&[LDA_ZP, Z_SCREEN, EOR_ZP, Z_VARIANT, EOR_ZP, Z_HOLD, EOR_ZP, Z_FRAME, EOR_ZP, Z_FRAME + 1, EOR_ZP, Z_PAD, STA_ZP, Z_TMP]);
    a.e(&[LSR_A, LSR_A, LSR_A, LSR_A, EOR_ZP, Z_TMP, STA_ZP, Z_TMP, LSR_A, LSR_A, EOR_ZP, Z_TMP, STA_ZP, Z_TMP, LSR_A, EOR_ZP, Z_TMP]);
    a.e(&[ASL_A, ASL_A, ASL_A, ASL_A, ASL_A, ASL_A, ASL_A, LDY_IMM, 1]);
    a.jsr(L_EMIT);
    a.e(&[LDA_IMM, 0x00, LDY_IMM, 1]);
    a.jsr(L_EMIT);
    // row B: sync, frame bits 11..8, frame bits 7..0
    a.e(&[LDA_IMM, SYNC[1] << 5u8, LDY_IMM, 3]);
    a.jsr(L_EMIT);
    a.e(&[LDA_ZP, Z_FRAME + 1, ASL_A, ASL_A, ASL_A, ASL_A, LDY_IMM, 4]);
    a.jsr(L_EMIT);
    a.e(&[LDA_ZP, Z_FRAME, LDY_IMM, 8]);
    a.jsr(L_EMIT);
    // row C: sync, frame bits 15..12, the pad byte
    a.e(&[LDA_IMM, SYNC[2] << 5u8, LDY_IMM, 3]);
    a.jsr(L_EMIT);
    a.e(&[LDA_ZP, Z_FRAME + 1, LDY_IMM, 4]);
    a.jsr(L_EMIT);
    a.e(&[LDA_ZP, Z_PAD, LDY_IMM, 8]);
    a.jsr(L_EMIT);
    a.e(&[0x60]);
    // emit: Y bits of A, MSB first, two tiles each (white = tile 3)
    a.label(L_EMIT);
    a.e(&[STA_ZP, Z_TMP]);
    a.label(L_EMIT_BIT);
    a.e(&[ASL_ZP, Z_TMP, LDA_IMM, 0x00, ADC_IMM, 0x00]);
    a.br(BEQ, L_EMIT_Z);
    a.e(&[LDA_IMM, T_C3]);
    a.label(L_EMIT_Z);
    a.e(&[STA_ZPX, Z_BUF, STA_ZPX, Z_BUF + 1, 0xe8, 0xe8, 0x88]); // INX; INX; DEY
    a.br(BNE, L_EMIT_BIT);
    a.e(&[0x60]);
    assert(a.fixups() =~= old(a).fixups() + seq![(0x157usize, L_EMIT, false), (0x163usize, L_EMIT, false), (0x16cusize, L_EMIT, false), (0x17ausize, L_EMIT, false), (0x1a5usize, L_EMIT, false), (0x1acusize, L_EMIT, false), (0x1b3usize, L_EMIT, false), (0x1beusize, L_EMIT, false), (0x1c5usize, L_EMIT, false), (0x1ccusize, L_EMIT, false), (0x1d3usize, L_EMIT, false), (0x1dausize, L_EMIT, false), (0x1e6usize, L_EMIT_Z, true), (0x1f1usize, L_EMIT_BIT, true)]);
    assert(a.code().subrange(0, old(a).code().len() as int) =~= old(a).code());
}

/// The NMI's entry: save the registers, count the frame, skip the body
/// while a load is under way, poll the pad, point the PPU at the
/// palette. After the code `base`.
#[verifier::opaque]
spec fn nmi_head_code(base: Seq<u8>) -> Seq<u8> {
    base
        + seq![0x48u8, 0x8a, 0x48, 0x98, 0x48]
        + seq![INC_ZP, Z_FRAME]
        + seq![BNE, 0u8]
        + seq![INC_ZP, (Z_FRAME + 1) as u8]
        + seq![LDA_ZP, Z_LOADING]
        + seq![BEQ, 0u8]
        + seq![0x4cu8, 0, 0]
        + seq![LDA_ZP, Z_PAD, STA_ZP, Z_PREV]
        + seq![LDA_IMM, 0x01, STA_ABS, 0x16, 0x40, LDA_IMM, 0x00, STA_ABS, 0x16, 0x40, LDX_IMM, 0x08]
        + seq![LDA_ABS, 0x16, 0x40, LSR_A, ROR_ZP, Z_PAD, 0xca]
        + seq![BNE, 0u8]
        + ppu_addr_code(0x3f, 0x00)
}

/// The first `n` palette bytes copied to the PPU: LDA pal+i; STA $2007.
spec fn palette_copy_code(base: Seq<u8>, n: int) -> Seq<u8>
    decreases n,
{
    if n <= 0 {
        base
    } else {
        palette_copy_code(base, n - 1) + seq![LDA_ZP, (Z_PAL + n - 1) as u8, STA_ABS, 0x07u8, 0x20u8]
    }
}

/// The first `n` tiles of a strip row copied from the buffer at `buf`.
spec fn tiles_copy_code(base: Seq<u8>, buf: u8, n: int) -> Seq<u8>
    decreases n,
{
    if n <= 0 {
        base
    } else {
        tiles_copy_code(base, buf, n - 1) + seq![LDA_ZP, (buf + n - 1) as u8, STA_ABS, 0x07u8, 0x20u8]
    }
}

/// Where row `r` of the strip's tiles starts in the nametable.
spec fn strip_row_addr(r: int) -> u16 {
    (0x2000 + ((STRIP_Y0 / 8 + r) * 32 + STRIP_X0 / 8)) as u16
}

/// Where row `r`'s tiles start in the buffer: each block row's tiles
/// twice, for its two tile rows.
spec fn strip_row_buf(r: int) -> u8 {
    (Z_BUF + (r / 2) * 2 * STRIP_COLS) as u8
}

/// The first `n` tile rows of the strip copied to the PPU: the row's
/// address, then its tiles.
spec fn strip_copy_code(base: Seq<u8>, n: int) -> Seq<u8>
    decreases n,
{
    if n <= 0 {
        base
    } else {
        let r = n - 1;
        tiles_copy_code(
            strip_copy_code(base, r) + ppu_addr_code((strip_row_addr(r) >> 8u16) as u8, strip_row_addr(r) as u8),
            strip_row_buf(r),
            2 * STRIP_COLS,
        )
    }
}

/// The NMI's end: the scroll and the mask, the flag the main loop
/// waits on, the registers restored; and the IRQ's RTI.
#[verifier::opaque]
spec fn nmi_tail_code(base: Seq<u8>) -> Seq<u8> {
    base
        + ppu_addr_code(0x20, 0x00)
        + seq![STA_ABS, 0x05, 0x20, STA_ABS, 0x05, 0x20]
        + seq![LDA_ZP, Z_MASK, STA_ABS, 0x01, 0x20]
        + seq![LDA_IMM, 0x01, STA_ZP, Z_NMI]
        + seq![0x68u8, 0xa8, 0x68, 0xaa, 0x68, 0x40]
        + seq![0x40u8]
}

/// The NMI and the IRQ, as assembled after the code `base`.
spec fn nmi_routine_code(base: Seq<u8>) -> Seq<u8> {
    nmi_tail_code(strip_copy_code(palette_copy_code(nmi_head_code(base), 16), 2 * STRIP_ROWS))
}

/// The NMI: the frame counter; then, unless a load is under way, the
/// pad, the palette, the strip, the scroll and the mask. And the IRQ's
/// RTI.
fn nmi_routine(a: &mut Asm)
    requires
        old(a).origin() == 0x8000,
        old(a).code().len() == 0x1f3,
        !old(a).label_map().dom().contains(L_NMI),
        !old(a).label_map().dom().contains(L_NC),
        !old(a).label_map().dom().contains(L_NMI_BODY),
        !old(a).label_map().dom().contains(L_POLL),
        !old(a).label_map().dom().contains(L_NMI_EXIT),
        !old(a).label_map().dom().contains(L_IRQ),
    ensures
        final(a).code().subrange(0, old(a).code().len() as int) == old(a).code(),
        final(a).code() == nmi_routine_code(old(a).code()),
        final(a).origin() == 0x8000,
        final(a).code().len() == 0x658,
        final(a).code().subrange(0x1f3, 0x1f8) == seq![0x48u8, 0x8a, 0x48, 0x98, 0x48],
        final(a).code()[0x657] == 0x40,
        final(a).label_map() == old(a).label_map().insert(L_NMI, 0x81f3).insert(L_NC, 0x81fe).insert(L_NMI_BODY, 0x8205)
            .insert(L_POLL, 0x8215).insert(L_NMI_EXIT, 0x864d).insert(L_IRQ, 0x8657),
        final(a).fixups() == old(a).fixups() + seq![(0x1fbusize, L_NC, true), (0x201usize, L_NMI_BODY, true), (0x203usize, L_NMI_EXIT, false), (0x21dusize, L_POLL, true)],
{
    a.label(L_NMI);
    a.e(&[0x48, 0x8a, 0x48, 0x98, 0x48]); // PHA; TXA; PHA; TYA; PHA
    let ghost entry = a.code();
    a.e(&[INC_ZP, Z_FRAME]);
    a.br(BNE, L_NC);
    a.e(&[INC_ZP, Z_FRAME + 1]);
    a.label(L_NC);
    a.e(&[LDA_ZP, Z_LOADING]);
    a.br(BEQ, L_NMI_BODY); // the body is a thousand bytes: too far for a branch
    a.jmp(L_NMI_EXIT);
    a.label(L_NMI_BODY);
    a.e(&[LDA_ZP, Z_PAD, STA_ZP, Z_PREV]);
    a.e(&[LDA_IMM, 0x01, STA_ABS, 0x16, 0x40, LDA_IMM, 0x00, STA_ABS, 0x16, 0x40, LDX_IMM, 0x08]);
    a.label(L_POLL);
    a.e(&[LDA_ABS, 0x16, 0x40, LSR_A, ROR_ZP, Z_PAD, 0xca]);
    a.br(BNE, L_POLL);
    ppu_addr(a, 0x3f, 0x00);
    assert(a.code() == nmi_head_code(old(a).code())) by {
        reveal(nmi_head_code);
    }
    let ghost before_pal = *a;
    assert(before_pal.code().len() == 0x228);
    assert(before_pal.code().subrange(0, old(a).code().len() as int) =~= old(a).code());
    assert(before_pal.code().subrange(0, 0x228) =~= before_pal.code());
    let mut i: u8 = 0;
    while i < 16
        invariant
            i <= 16,
            grew(before_pal, *a, 5 * i),
            before_pal.code().len() == 0x228,
            a.code() == palette_copy_code(before_pal.code(), i as int),
        decreases 16 - i,
    {
        a.e(&[LDA_ZP, Z_PAL + i, STA_ABS, 0x07, 0x20]);
        assert(a.code().subrange(0, before_pal.code().len() as int) =~= before_pal.code());
        i += 1;
    }
    let ghost before_strip = *a;
    assert(a.code().subrange(0, old(a).code().len() as int) =~= old(a).code());
    assert(before_strip.code().subrange(0, old(a).code().len() as int) =~= old(a).code());
    assert(before_strip.code().subrange(0, before_strip.code().len() as int) =~= before_strip.code());
    let mut r: usize = 0;
    while r < 2 * STRIP_ROWS
        invariant
            r <= 2 * STRIP_ROWS,
            grew(before_strip, *a, 160 * r),
            before_strip.code().len() == 0x278,
            a.code() == strip_copy_code(before_strip.code(), r as int),
        decreases 2 * STRIP_ROWS - r,
    {
        let addr: u16 = 0x2000 + ((STRIP_Y0 / 8 + r) * 32 + STRIP_X0 / 8) as u16;
        assert(addr == strip_row_addr(r as int));
        ppu_addr(a, #[verifier::truncate] ((addr >> 8) as u8), #[verifier::truncate] (addr as u8));
        let buf: u8 = Z_BUF + ((r / 2) * 2 * STRIP_COLS) as u8;
        assert(buf == strip_row_buf(r as int));
        let ghost row_start = *a;
        assert(row_start.code().subrange(0, row_start.code().len() as int) =~= row_start.code());
        let mut i: u8 = 0;
        while i < 2 * STRIP_COLS as u8
            invariant
                i <= 2 * STRIP_COLS,
                buf <= Z_BUF + 60,
                grew(row_start, *a, 5 * i),
                row_start.code().len() == 0x278 + 160 * r + 10,
                r < 6,
                a.code() == tiles_copy_code(row_start.code(), buf, i as int),
            decreases 2 * STRIP_COLS - i,
        {
            a.e(&[LDA_ZP, buf + i, STA_ABS, 0x07, 0x20]);
            assert(a.code().subrange(0, row_start.code().len() as int) =~= row_start.code());
            i += 1;
        }
        assert(a.code().subrange(0, before_strip.code().len() as int) =~= before_strip.code());
        r += 1;
    }
    assert(a.code().subrange(0, 0x1f8) =~= entry);
    assert(a.code().subrange(0, old(a).code().len() as int) =~= old(a).code());
    let ghost after_strip = *a;
    ppu_addr(a, 0x20, 0x00);
    a.e(&[STA_ABS, 0x05, 0x20, STA_ABS, 0x05, 0x20]);
    a.e(&[LDA_ZP, Z_MASK, STA_ABS, 0x01, 0x20]);
    a.label(L_NMI_EXIT);
    a.e(&[LDA_IMM, 0x01, STA_ZP, Z_NMI]);
    a.e(&[0x68, 0xa8, 0x68, 0xaa, 0x68, 0x40]); // PLA; TAY; PLA; TAX; PLA; RTI
    a.label(L_IRQ);
    a.e(&[0x40]);
    assert(a.code() == nmi_tail_code(after_strip.code())) by {
        reveal(nmi_tail_code);
    }
    assert(a.code().subrange(0x1f3, 0x1f8) =~= entry.subrange(0x1f3, 0x1f8));
    assert(a.fixups() =~= old(a).fixups() + seq![(0x1fbusize, L_NC, true), (0x201usize, L_NMI_BODY, true), (0x203usize, L_NMI_EXIT, false), (0x21dusize, L_POLL, true)]);
    assert(a.code().subrange(0, old(a).code().len() as int) =~= old(a).code());
}

/// The palette screen's seven pages, sixteen bytes each, at $9000.
pub open spec fn spec_palette_pages() -> Seq<u8> {
    Seq::new(112, |i: int| spec_palette_page(i / 16)[i % 16])
}

/// The bars screen's eight variants' palettes, at $9080.
pub open spec fn spec_bars_palettes() -> Seq<u8> {
    Seq::new(128, |i: int| spec_bars_palette(i / 16)[i % 16])
}

/// The eight screens' nametables, 1 KiB each, at $A000.
pub open spec fn spec_nametables() -> Seq<u8> {
    Seq::new(8192, |i: int| spec_nametable(i / 1024)[i % 1024])
}

/// What follows the code, from its end at $8658 to the top of the
/// image: the palette pages, the bars palettes, the fixed palette, the
/// variant periods and counts, the nametables, NOPs between, and the
/// vectors (NMI $81F3, RESET $8000, IRQ $8657).
pub open spec fn spec_data() -> Seq<u8> {
    fill(0x1000 - 0x658, 0xea) + spec_palette_pages() + fill(0x10, 0xea) + spec_bars_palettes() + spec_fixed_pal()
        + fill(0x10, 0xea) + spec_variant_frames() + spec_variants() + fill(0x2000 - 0x1130, 0xea)
        + spec_nametables() + fill(0x7ffa - 0x4000, 0xea) + seq![0xf3u8, 0x81, 0x00, 0x80, 0x57, 0x86]
}

/// Lay the data after the code: the tables the program reads, at the
/// addresses it reads them from.
fn data_tables(a: &mut Asm)
    requires
        old(a).origin() == 0x8000,
        old(a).code().len() == 0x658,
    ensures
        final(a).origin() == 0x8000,
        final(a).label_map() == old(a).label_map(),
        final(a).fixups() == old(a).fixups(),
        final(a).code() == old(a).code() + spec_data().subrange(0, 0x4000 - 0x658),
{
    a.pad_to(A_PAL_PAGES);
    assert(a.code().subrange(0, old(a).code().len() as int) =~= old(a).code());
    let ghost c0 = a.code();
    let mut page: usize = 0;
    while page < 7
        invariant
            page <= 7,
            c0.len() == 0x1000,
            grew(*old(a), *a, 0x1000 - 0x658 + 16 * page),
            a.code() == c0 + spec_palette_pages().subrange(0, 16 * page),
        decreases 7 - page,
    {
        let pp = palette_page(page);
        a.e(&pp);
        proof {
            assert forall|k: int| 0 <= k < 16 implies spec_palette_pages()[16 * page + k] == pp@[k] by {
                assert((16 * page + k) / 16 == page && (16 * page + k) % 16 == k) by (nonlinear_arith)
                    requires 0 <= k < 16;
            }
        }
        page += 1;
        assert(a.code() =~= c0 + spec_palette_pages().subrange(0, 16 * page));
        assert(a.code().subrange(0, old(a).code().len() as int) =~= old(a).code());
    }
    a.pad_to(A_BARS_PAL);
    assert(a.code().subrange(0, old(a).code().len() as int) =~= old(a).code());
    let ghost c1 = a.code();
    let mut v: usize = 0;
    while v < 8
        invariant
            v <= 8,
            c1.len() == 0x1080,
            grew(*old(a), *a, 0x1080 - 0x658 + 16 * v),
            a.code() == c1 + spec_bars_palettes().subrange(0, 16 * v),
        decreases 8 - v,
    {
        let bp = bars_palette(v);
        a.e(&bp);
        proof {
            assert forall|k: int| 0 <= k < 16 implies spec_bars_palettes()[16 * v + k] == bp@[k] by {
                assert((16 * v + k) / 16 == v && (16 * v + k) % 16 == k) by (nonlinear_arith)
                    requires 0 <= k < 16;
            }
        }
        v += 1;
        assert(a.code() =~= c1 + spec_bars_palettes().subrange(0, 16 * v));
        assert(a.code().subrange(0, old(a).code().len() as int) =~= old(a).code());
    }
    a.pad_to(A_FIXED_PAL);
    let fixed = FIXED_PAL;
    assert(fixed@ =~= spec_fixed_pal());
    a.e(&fixed);
    a.pad_to(A_VPERIOD);
    let frames = VARIANT_FRAMES;
    assert(frames@ =~= spec_variant_frames());
    a.e(&frames);
    a.pad_to(A_VCOUNT);
    let counts = VARIANTS;
    assert(counts@ =~= spec_variants());
    a.e(&counts);
    a.pad_to(A_NAMETABLES);
    assert(a.code().subrange(0, old(a).code().len() as int) =~= old(a).code());
    let ghost c2 = a.code();
    let mut s: usize = 0;
    while s < SCREENS
        invariant
            s <= SCREENS,
            c2.len() == 0x2000,
            grew(*old(a), *a, 0x2000 - 0x658 + 1024 * s),
            a.code() == c2 + spec_nametables().subrange(0, 1024 * s),
        decreases SCREENS - s,
    {
        let n = nametable(s);
        a.e(n.as_slice());
        proof {
            assert forall|k: int| 0 <= k < 1024 implies spec_nametables()[1024 * s + k] == n@[k] by {
                assert((1024 * s + k) / 1024 == s && (1024 * s + k) % 1024 == k) by (nonlinear_arith)
                    requires 0 <= k < 1024;
            }
        }
        s += 1;
        assert(a.code() =~= c2 + spec_nametables().subrange(0, 1024 * s));
        assert(a.code().subrange(0, old(a).code().len() as int) =~= old(a).code());
    }
    let ghost parts = fill(0x1000 - 0x658, 0xea) + spec_palette_pages() + fill(0x10, 0xea) + spec_bars_palettes()
        + spec_fixed_pal() + fill(0x10, 0xea) + spec_variant_frames() + spec_variants() + fill(0x2000 - 0x1130, 0xea)
        + spec_nametables();
    assert(spec_palette_pages().subrange(0, 112) =~= spec_palette_pages());
    assert(spec_bars_palettes().subrange(0, 128) =~= spec_bars_palettes());
    assert(spec_nametables().subrange(0, 8192) =~= spec_nametables());
    assert(a.code() =~= old(a).code() + parts);
    assert(spec_data().subrange(0, 0x4000 - 0x658) =~= parts);
}

/// The cartridge's code as assembled, routine after routine, the
/// operands of references zero until resolved.
pub closed spec fn cal_code() -> Seq<u8> {
    nmi_routine_code(strip_routines_code(palette_routine_code(screen_routines_code(reset_and_main_code()))))
}

/// Every label of the code and the address it names.
pub closed spec fn cal_labels() -> Map<usize, u16> {
    Map::<usize, u16>::empty().insert(L_RESET, 0x8000).insert(L_ZERO, 0x8020).insert(L_MAIN, 0x8033).insert(
        L_NOSEL,
        0x804a,
    ).insert(L_NOSTART, 0x8056).insert(L_NOV, 0x8079).insert(L_NORED, 0x8084).insert(L_NEXT_SCREEN, 0x808d).insert(
        L_LOAD_SCREEN,
        0x80a0,
    ).insert(L_PAGE, 0x80c2).insert(L_COPY, 0x80c4).insert(L_BUILD_PALETTE, 0x80e6).insert(L_PAL_FIXED, 0x80f2).insert(
        L_FIELD_GREY,
        0x810f,
    ).insert(L_PAL_DONE, 0x8113).insert(L_PAL_PAGES, 0x8114).insert(L_PP, 0x811c).insert(L_PAL_BARS, 0x8136).insert(
        L_PB,
        0x813f,
    ).insert(L_BUILD_STRIP, 0x8150).insert(L_EMIT, 0x81dd).insert(L_EMIT_BIT, 0x81df).insert(L_EMIT_Z, 0x81e9).insert(
        L_NMI,
        0x81f3,
    ).insert(L_NC, 0x81fe).insert(L_NMI_BODY, 0x8205).insert(L_POLL, 0x8215).insert(L_NMI_EXIT, 0x864d).insert(
        L_IRQ,
        0x8657,
    )
}

/// Every reference of the code: its operand's offset, the label, and
/// whether it is a branch's displacement.
pub closed spec fn cal_fixups() -> Seq<(usize, usize, bool)> {
    seq![(0x24usize, L_ZERO, true), (0x26usize, L_LOAD_SCREEN, false), (0x29usize, L_BUILD_PALETTE, false), (0x2cusize, L_BUILD_STRIP, false), (0x36usize, L_MAIN, true), (0x46usize, L_NOSEL, true), (0x48usize, L_NEXT_SCREEN, false), (0x4fusize, L_NOSTART, true), (0x60usize, L_NOV, true), (0x6dusize, L_NOV, true), (0x75usize, L_NOV, true), (0x77usize, L_NEXT_SCREEN, false), (0x7cusize, L_NORED, true), (0x7eusize, L_LOAD_SCREEN, false), (0x85usize, L_BUILD_PALETTE, false), (0x88usize, L_BUILD_STRIP, false), (0x8busize, L_MAIN, false)]
        + seq![(0xcbusize, L_COPY, true), (0xd0usize, L_PAGE, true)]
        + seq![(0xebusize, L_PAL_PAGES, true), (0xefusize, L_PAL_BARS, true), (0xfbusize, L_PAL_FIXED, true), (0x105usize, L_PAL_DONE, true), (0x109usize, L_FIELD_GREY, true), (0x127usize, L_PP, true), (0x14ausize, L_PB, true)]
        + seq![(0x157usize, L_EMIT, false), (0x163usize, L_EMIT, false), (0x16cusize, L_EMIT, false), (0x17ausize, L_EMIT, false), (0x1a5usize, L_EMIT, false), (0x1acusize, L_EMIT, false), (0x1b3usize, L_EMIT, false), (0x1beusize, L_EMIT, false), (0x1c5usize, L_EMIT, false), (0x1ccusize, L_EMIT, false), (0x1d3usize, L_EMIT, false), (0x1dausize, L_EMIT, false), (0x1e6usize, L_EMIT_Z, true), (0x1f1usize, L_EMIT_BIT, true)]
        + seq![(0x1fbusize, L_NC, true), (0x201usize, L_NMI_BODY, true), (0x203usize, L_NMI_EXIT, false), (0x21dusize, L_POLL, true)]
}

/// The cartridge's 32 KiB of PRG: the code from $8000, beginning with
/// the reset sequence (SEI; CLD; LDX #$FF; TXS), with the NMI handler at
/// $81F3 (entering PHA; TXA; PHA; TYA; PHA) and the IRQ's RTI at $8657;
/// then `spec_data`: the tables the code reads, and the vectors. The
/// first 16 KiB are the code and the tables' start as assembled, every
/// reference resolved.
pub fn program() -> (p: Vec<u8>)
    ensures
        p@.len() == 0x8000,
        p@.subrange(0, 0x4000) == resolve(
            cal_code() + spec_data().subrange(0, 0x4000 - 0x658),
            cal_labels(),
            cal_fixups(),
            0x8000,
        ),
        p@.subrange(0, 5) == seq![0x78u8, 0xd8, 0xa2, 0xff, 0x9a],
        p@.subrange(0x1f3, 0x1f8) == seq![0x48u8, 0x8a, 0x48, 0x98, 0x48],
        p@[0x657] == 0x40,
        p@.subrange(0x658, 0x8000) == spec_data(),
{
    let mut a = Asm::new(0x8000);
    reset_and_main(&mut a);
    screen_routines(&mut a);
    palette_routine(&mut a);
    strip_routines(&mut a);
    nmi_routine(&mut a);
    let ghost code = a.code();
    // The code does not run into the data.
    assert(a.spec_pc() <= A_PAL_PAGES);
    data_tables(&mut a);
    let nmi = a.address(L_NMI);
    let reset = a.address(L_RESET);
    let irq = a.address(L_IRQ);
    let ghost (c, lm, fx) = (a.code(), a.label_map(), a.fixups());
    assert(forall|i: int| 0 <= i < fx.len() ==> #[trigger] resolvable(c.len(), lm, fx[i], 0x8000));
    assert(code == cal_code());
    assert(lm == cal_labels());
    assert(fx == cal_fixups());
    let mut p = a.finish();
    let ghost r = p@;
    proof {
        lemma_resolve_keeps(c, lm, fx, 0x8000, 0x657);
        assert(c.len() == 0x4000);
        assert forall|j: int| 0 <= j < 5 || 0x1f3 <= j < 0x1f8 || 0x657 <= j < 0x4000 implies r[j] == c[j] by {
            lemma_resolve_keeps(c, lm, fx, 0x8000, j);
        }
        assert(c.subrange(0, 0x658) =~= code);
    }
    p.resize(0x8000, 0xea);
    p.set(0x7ffa, nmi as u8);
    p.set(0x7ffb, (nmi >> 8) as u8);
    p.set(0x7ffc, reset as u8);
    p.set(0x7ffd, (reset >> 8) as u8);
    p.set(0x7ffe, irq as u8);
    p.set(0x7fff, (irq >> 8) as u8);
    proof {
        assert(nmi == 0x81f3 && reset == 0x8000 && irq == 0x8657);
        assert(nmi as u8 == 0xf3 && (nmi >> 8u16) as u8 == 0x81 && reset as u8 == 0 && (reset >> 8u16) as u8 == 0x80
            && irq as u8 == 0x57 && (irq >> 8u16) as u8 == 0x86) by (bit_vector)
            requires nmi == 0x81f3u16 && reset == 0x8000u16 && irq == 0x8657u16;
    }
    assert forall|j: int| 0 <= j < 0x4000 implies p@[j] == r[j] by {
        assert(p@[j] == p@.subrange(0, 0x4000)[j]);
    }
    assert forall|j: int| 0 <= j < 5 || 0x1f3 <= j < 0x1f8 || j == 0x657 implies p@[j] == code[j] by {
        assert(code[j] == c.subrange(0, 0x658)[j]);
    }
    assert(p@.subrange(0, 5) =~= code.subrange(0, 5));
    assert(p@.subrange(0x1f3, 0x1f8) =~= code.subrange(0x1f3, 0x1f8));
    assert forall|j: int| 0x658 <= j < 0x8000 implies p@[j] == spec_data()[j - 0x658] by {
        if j < 0x4000 {
            assert(c[j] == (code + spec_data().subrange(0, 0x4000 - 0x658))[j]);
        } else if j < 0x7ffa {
            assert(p@[j] == 0xea);
        }
    }
    assert(p@.subrange(0x658, 0x8000) =~= spec_data());
    p
}

// ------------------------------------------------------------ manifest
/// A rectangle of the picture worth measuring, in dots, and what is in it.
pub struct Region {
    pub name: String,
    pub x: usize,
    pub y: usize,
    pub w: usize,
    pub h: usize,
    pub what: What,
}

pub enum What {
    /// A flat field: the palette entry per variant (None where the
    /// backdrop shows, or where the pad decides).
    Flat { entries: Vec<Option<u8>> },
    /// A pattern in colour 1 (white) on the backdrop: `pitch` dots of
    /// white then `pitch` of black along `axis` (x, y, or xy for a
    /// checkerboard).
    Pattern { kind: &'static str, pitch: usize, axis: &'static str },
}

/// What a region holds, as values.
pub enum WhatView {
    Flat { entries: Seq<Option<u8>> },
    Pattern { kind: Seq<char>, pitch: nat, axis: Seq<char> },
}

/// A region as values.
pub struct RegionView {
    pub name: Seq<char>,
    pub x: nat,
    pub y: nat,
    pub w: nat,
    pub h: nat,
    pub what: WhatView,
}

impl View for What {
    type V = WhatView;

    open spec fn view(&self) -> WhatView {
        match self {
            What::Flat { entries } => WhatView::Flat { entries: entries@ },
            What::Pattern { kind, pitch, axis } => WhatView::Pattern { kind: kind@, pitch: *pitch as nat, axis: axis@ },
        }
    }
}

impl View for Region {
    type V = RegionView;

    open spec fn view(&self) -> RegionView {
        RegionView {
            name: self.name@,
            x: self.x as nat,
            y: self.y as nat,
            w: self.w as nat,
            h: self.h as nat,
            what: self.what@,
        }
    }
}

/// What a flat region holds on variant `v`, from its top-left tile and
/// palette: nothing where the backdrop shows, the palette screen's page
/// entry, the bars screen's hue slot, nothing on the pad screen's field
/// (the pad decides), else the fixed palette's colour.
pub open spec fn flat_entry(s: int, tile: u8, pal: u8, v: int) -> Option<u8> {
    if tile == T_BLANK {
        None
    } else if s == 1 {
        Some(spec_palette_entry(v / 8, pal * 3 + tile - 1))
    } else if s == 2 {
        Some(spec_bars_entry(v, pal * 3 + tile - 1))
    } else if s == 6 && tile == T_C1 {
        None
    } else {
        Some(spec_fixed_pal()[pal * 4 + tile])
    }
}

/// The flat region `name` of screen `s` over tiles (tx, ty) to
/// (tx + tw, ty + th), holding per variant what its top-left tile shows.
pub open spec fn spec_flat(s: int, name: Seq<char>, tx: int, ty: int, tw: int, th: int) -> RegionView {
    let (tile, pal) = spec_content(s, tx, ty);
    RegionView {
        name,
        x: (tx * 8) as nat,
        y: (ty * 8) as nat,
        w: (tw * 8) as nat,
        h: (th * 8) as nat,
        what: WhatView::Flat { entries: Seq::new(spec_variants()[s] as nat, |v: int| flat_entry(s, tile, pal, v)) },
    }
}

/// A pattern region in dots.
pub open spec fn spec_pattern(name: Seq<char>, x: nat, y: nat, w: nat, h: nat, kind: Seq<char>, pitch: nat, axis: Seq<char>) -> RegionView {
    RegionView { name, x, y, w, h, what: WhatView::Pattern { kind, pitch, axis } }
}

/// Every region of screen `s`: the palette screen's eight patches, the
/// bars screen's forty cells, the gratings' twelve bands, the edges
/// screen's luma and chroma pairs, the dot crawl's two checkerboards,
/// the pad screen's field; none elsewhere.
pub open spec fn spec_regions(s: int) -> Seq<RegionView> {
    if s == 1 {
        Seq::new(8, |k: int| spec_flat(1, "patch"@ + dec(k as nat), (k % 4) * 8, 8 + (k / 4) * 10, 8, 10))
    } else if s == 2 {
        Seq::new(40, |i: int| spec_flat(2, "cell"@ + dec((i / 8) as nat) + dec((i % 8) as nat), (i % 8) * 4, 8 + (i / 8) * 4, 4, 4))
    } else if s == 3 {
        seq![
            spec_pattern("v1"@, 0, 64, 64, 64, "v1"@, 1, "x"@),
            spec_pattern("v2"@, 64, 64, 64, 64, "v2"@, 2, "x"@),
            spec_pattern("v4"@, 128, 64, 64, 64, "v4"@, 4, "x"@),
            spec_pattern("v8"@, 192, 64, 64, 64, "v8"@, 8, "x"@),
            spec_pattern("h1"@, 0, 128, 64, 64, "h1"@, 1, "y"@),
            spec_pattern("h2"@, 64, 128, 64, 64, "h2"@, 2, "y"@),
            spec_pattern("h4"@, 128, 128, 64, 64, "h4"@, 4, "y"@),
            spec_pattern("h8"@, 192, 128, 64, 64, "h8"@, 8, "y"@),
            spec_pattern("chk1"@, 0, 192, 128, 48, "chk1"@, 1, "xy"@),
            spec_pattern("chk2"@, 128, 192, 128, 48, "chk2"@, 2, "xy"@),
        ]
    } else if s == 4 {
        Seq::new(8, |i: int|
            if i % 2 == 0 {
                spec_flat(4, "luma"@ + dec((i / 2) as nat), (i / 2) * 8, 8, 8, 10)
            } else {
                spec_flat(4, "chroma"@ + dec((i / 2) as nat), (i / 2) * 8, 18, 8, 10)
            })
    } else if s == 5 {
        seq![
            spec_pattern("crawl1"@, 0, 64, 128, 176, "chk1"@, 1, "xy"@),
            spec_pattern("crawl2"@, 128, 64, 128, 176, "chk2"@, 2, "xy"@),
        ]
    } else if s == 6 {
        seq![spec_flat(6, "field"@, 0, 8, 32, 20)]
    } else {
        Seq::empty()
    }
}

/// The regions laid so far are the spec's first ones.
pub open spec fn regions_prefix(out: Seq<Region>, want: Seq<RegionView>) -> bool {
    &&& out.len() <= want.len()
    &&& forall|i: int| 0 <= i < out.len() ==> #[trigger] out[i]@ == want[i]
}

/// A flat region: the tile and palette at its top-left corner say what
/// it holds on each variant, through the same palette tables the
/// program carries.
fn flat(out: &mut Vec<Region>, s: usize, name: String, tx: usize, ty: usize, tw: usize, th: usize)
    requires
        s == 1 || s == 2 || s == 4 || s == 6,
        tx < 32,
        CONTENT_ROW <= ty < 28,
        tw <= 32,
        th <= 20,
        s == 1 ==> ty < 28 && (ty - 8) % 10 == 0 && tx % 8 == 0,
        s == 2 ==> ty < 28 && tx % 4 == 0,
        s == 4 ==> ty < 28,
    ensures
        final(out)@.len() == old(out)@.len() + 1,
        forall|i: int| 0 <= i < old(out)@.len() ==> final(out)@[i] == old(out)@[i],
        final(out)@[old(out)@.len() as int]@ == spec_flat(s as int, name@, tx as int, ty as int, tw as int, th as int),
{
    let (tile, pal) = content(s, tx, ty);
    let n = VARIANTS[s];
    assert(n == spec_variants()[s as int]);
    let mut entries: Vec<Option<u8>> = Vec::new();
    let mut v: usize = 0;
    while v < n as usize
        invariant
            v <= n,
            n == spec_variants()[s as int],
            (tile, pal) == spec_content(s as int, tx as int, ty as int),
            s == 1 || s == 2 || s == 4 || s == 6,
            tx < 32,
            CONTENT_ROW <= ty < 28,
            s == 1 ==> (ty - 8) % 10 == 0 && tx % 8 == 0,
            s == 2 ==> tx % 4 == 0,
            entries@ == Seq::new(v as nat, |w: int| flat_entry(s as int, tile, pal, w)),
        decreases n - v,
    {
        let e = if tile == T_BLANK {
            None
        } else if s == 1 {
            Some(palette_entries(v / 8)[(pal * 3 + tile - 1) as usize])
        } else if s == 2 {
            Some(bars_entries(v)[(pal * 3 + tile - 1) as usize])
        } else if s == 6 && tile == T_C1 {
            None  // the field: the pad decides
        } else {
            Some(FIXED_PAL[(pal * 4 + tile) as usize])
        };
        proof {
            if tile != T_BLANK && s != 1 && s != 2 && !(s == 6 && tile == T_C1) {
                assert(FIXED_PAL@ =~= spec_fixed_pal());
            }
        }
        entries.push(e);
        v += 1;
        assert(entries@ =~= Seq::new(v as nat, |w: int| flat_entry(s as int, tile, pal, w)));
    }
    out.push(Region { name, x: tx * 8, y: ty * 8, w: tw * 8, h: th * 8, what: What::Flat { entries } });
}

/// A name and a number, "patch3".
fn named(prefix: &str, k: usize) -> (r: String)
    ensures
        r@ == prefix@ + dec(k as nat),
{
    let mut r = String::new();
    push_str(&mut r, prefix);
    push_dec(&mut r, k as u64);
    r
}

/// A pattern region, in dots.
fn pattern(name: &str, x: usize, y: usize, w: usize, h: usize, kind: &'static str, pitch: usize, axis: &'static str) -> (r: Region)
    ensures
        r@ == spec_pattern(name@, x as nat, y as nat, w as nat, h as nat, kind@, pitch as nat, axis@),
{
    let mut n = String::new();
    push_str(&mut n, name);
    assert(n@ =~= name@);
    Region { name: n, x, y, w, h, what: What::Pattern { kind, pitch, axis } }
}

/// Every region of every screen, from the same functions that lay the
/// tiles. Flat regions are the largest rectangles of one tile and
/// palette; patterns are named per band.
pub fn regions(s: usize) -> (out: Vec<Region>)
    ensures
        out@.len() == spec_regions(s as int).len(),
        forall|i: int| 0 <= i < out@.len() ==> #[trigger] out@[i]@ == spec_regions(s as int)[i],
{
    let mut out: Vec<Region> = Vec::new();
    let ghost want = spec_regions(s as int);
    match s {
        1 => {
            let mut k: usize = 0;
            while k < 8
                invariant
                    s == 1,
                    want == spec_regions(1),
                    k <= 8,
                    out@.len() == k,
                    forall|i: int| 0 <= i < k ==> #[trigger] out@[i]@ == want[i],
                decreases 8 - k,
            {
                let (tx, ty) = ((k % 4) * 8, CONTENT_ROW + (k / 4) * 10);
                flat(&mut out, s, named("patch", k), tx, ty, 8, 10);
                k += 1;
            }
        },
        2 => {
            let mut r: usize = 0;
            while r < 5
                invariant
                    s == 2,
                    want == spec_regions(2),
                    r <= 5,
                    out@.len() == 8 * r,
                    forall|i: int| 0 <= i < 8 * r ==> #[trigger] out@[i]@ == want[i],
                decreases 5 - r,
            {
                let mut c: usize = 0;
                while c < 8
                    invariant
                        s == 2,
                        want == spec_regions(2),
                        r < 5,
                        c <= 8,
                        out@.len() == 8 * r + c,
                        forall|i: int| 0 <= i < 8 * r + c ==> #[trigger] out@[i]@ == want[i],
                    decreases 8 - c,
                {
                    let mut name = named("cell", r);
                    push_dec(&mut name, c as u64);
                    proof {
                        let i = 8 * r + c;
                        assert(i / 8 == r && i % 8 == c) by (nonlinear_arith)
                            requires i == 8 * r + c, c < 8;
                    }
                    flat(&mut out, s, name, c * 4, CONTENT_ROW + r * 4, 4, 4);
                    c += 1;
                }
                r += 1;
            }
        },
        3 => {
            let vertical: [(&'static str, usize); 4] = [("v1", 1), ("v2", 2), ("v4", 4), ("v8", 8)];
            let mut band: usize = 0;
            while band < 4
                invariant
                    s == 3,
                    want == spec_regions(3),
                    vertical@ == seq![("v1", 1usize), ("v2", 2usize), ("v4", 4usize), ("v8", 8usize)],
                    band <= 4,
                    out@.len() == band,
                    forall|i: int| 0 <= i < band ==> #[trigger] out@[i]@ == want[i],
                decreases 4 - band,
            {
                let (kind, pitch) = vertical[band];
                out.push(pattern(kind, band * 64, CONTENT_ROW * 8, 64, 64, kind, pitch, "x"));
                band += 1;
            }
            let horizontal: [(&'static str, usize); 4] = [("h1", 1), ("h2", 2), ("h4", 4), ("h8", 8)];
            let mut band: usize = 0;
            while band < 4
                invariant
                    s == 3,
                    want == spec_regions(3),
                    horizontal@ == seq![("h1", 1usize), ("h2", 2usize), ("h4", 4usize), ("h8", 8usize)],
                    band <= 4,
                    out@.len() == 4 + band,
                    forall|i: int| 0 <= i < 4 + band ==> #[trigger] out@[i]@ == want[i],
                decreases 4 - band,
            {
                let (kind, pitch) = horizontal[band];
                out.push(pattern(kind, band * 64, (CONTENT_ROW + 8) * 8, 64, 64, kind, pitch, "y"));
                band += 1;
            }
            out.push(pattern("chk1", 0, (CONTENT_ROW + 16) * 8, 128, 48, "chk1", 1, "xy"));
            out.push(pattern("chk2", 128, (CONTENT_ROW + 16) * 8, 128, 48, "chk2", 2, "xy"));
        },
        4 => {
            let mut half: usize = 0;
            while half < 4
                invariant
                    s == 4,
                    want == spec_regions(4),
                    half <= 4,
                    out@.len() == 2 * half,
                    forall|i: int| 0 <= i < 2 * half ==> #[trigger] out@[i]@ == want[i],
                decreases 4 - half,
            {
                proof {
                    let i = 2 * half;
                    assert(i % 2 == 0 && i / 2 == half && (i + 1) % 2 == 1 && (i + 1) / 2 == half) by (nonlinear_arith)
                        requires i == 2 * half;
                }
                flat(&mut out, s, named("luma", half), half * 8, CONTENT_ROW, 8, 10);
                flat(&mut out, s, named("chroma", half), half * 8, CONTENT_ROW + 10, 8, 10);
                half += 1;
            }
        },
        5 => {
            out.push(pattern("crawl1", 0, CONTENT_ROW * 8, 128, 176, "chk1", 1, "xy"));
            out.push(pattern("crawl2", 128, CONTENT_ROW * 8, 128, 176, "chk2", 2, "xy"));
        },
        6 => {
            let mut name = String::new();
            push_str(&mut name, "field");
            assert(name@ =~= "field"@);
            flat(&mut out, s, name, 0, CONTENT_ROW, 32, 20);
        },
        _ => {},
    }
    out
}

/// The screens' names, by id.
pub const SCREEN_NAMES: [&'static str; 8] = ["strip", "palette", "bars", "gratings", "edges", "dotcrawl", "pad", "geometry"];

/// The strip's fields: (row, first block, bits, name, fixed value if
/// any). The sync fields carry `SYNC`'s patterns.
pub open spec fn spec_fields() -> Seq<(usize, usize, usize, &'static str, Option<u8>)> {
    seq![
        (0usize, 0usize, 3usize, "sync", Some(0b101u8)),
        (0, 3, 3, "screen", None),
        (0, 6, 6, "variant", None),
        (0, 12, 1, "hold", None),
        (0, 13, 1, "parity", None),
        (0, 14, 1, "reserved", Some(0)),
        (1, 0, 3, "sync", Some(0b010)),
        (1, 3, 4, "frame_11_8", None),
        (1, 7, 8, "frame_7_0", None),
        (2, 0, 3, "sync", Some(0b110)),
        (2, 3, 4, "frame_15_12", None),
        (2, 7, 8, "pad", None),
    ]
}

/// The strip's fields: (row, first block, bits, name, fixed value if
/// any).
pub fn fields() -> (f: [(usize, usize, usize, &'static str, Option<u8>); 12])
    ensures
        f@ == spec_fields(),
{
    let f = [
        (0, 0, 3, "sync", Some(SYNC[0])),
        (0, 3, 3, "screen", None),
        (0, 6, 6, "variant", None),
        (0, 12, 1, "hold", None),
        (0, 13, 1, "parity", None),
        (0, 14, 1, "reserved", Some(0)),
        (1, 0, 3, "sync", Some(SYNC[1])),
        (1, 3, 4, "frame_11_8", None),
        (1, 7, 8, "frame_7_0", None),
        (2, 0, 3, "sync", Some(SYNC[2])),
        (2, 3, 4, "frame_15_12", None),
        (2, 7, 8, "pad", None),
    ];
    assert(f@ =~= spec_fields());
    f
}

/// The comma between items of a list, none after the last.
pub open spec fn sep(last: bool) -> Seq<char> {
    if last { ""@ } else { ","@ }
}

// The manifest's text is written out piece by piece; each function below
// gives the text `pre` followed by one part of it.

/// One field of the strip as a JSON line, after `pre`.
pub open spec fn field_onto(pre: Seq<char>, f: (usize, usize, usize, &str, Option<u8>), last: bool) -> Seq<char> {
    let named = pre + "      {\"row\": "@ + dec(f.0 as nat) + ", \"col\": "@ + dec(f.1 as nat) + ", \"bits\": "@
        + dec(f.2 as nat) + ", \"name\": \""@ + f.3@ + "\""@;
    let valued = match f.4 {
        Some(v) => named + ", \"value\": "@ + dec(v as nat),
        None => named,
    };
    valued + "}"@ + sep(last) + "\n"@
}

/// The first `n` fields' lines, after `pre`.
pub open spec fn fields_onto(pre: Seq<char>, n: int) -> Seq<char>
    decreases n,
{
    if n <= 0 { pre } else { field_onto(fields_onto(pre, n - 1), spec_fields()[n - 1], n == 12) }
}

/// An entry of a flat region, its palette byte or null, after `pre`.
pub open spec fn entry_onto(pre: Seq<char>, e: Option<u8>) -> Seq<char> {
    match e {
        Some(v) => pre + dec(v as nat),
        None => pre + "null"@,
    }
}

/// Entries joined by ", ", after `pre`.
pub open spec fn entries_onto(pre: Seq<char>, es: Seq<Option<u8>>) -> Seq<char>
    decreases es.len(),
{
    if es.len() == 0 {
        pre
    } else if es.len() == 1 {
        entry_onto(pre, es[0])
    } else {
        entry_onto(entries_onto(pre, es.drop_last()) + ", "@, es.last())
    }
}

/// What a region holds, as its JSON members, after `pre`.
pub open spec fn what_onto(pre: Seq<char>, w: WhatView) -> Seq<char> {
    match w {
        WhatView::Flat { entries } => entries_onto(pre + "\"entries\": ["@, entries) + "]"@,
        WhatView::Pattern { kind, pitch, axis } => pre + "\"pattern\": \""@ + kind + "\", \"pitch\": "@ + dec(pitch)
            + ", \"axis\": \""@ + axis + "\", \"colour\": "@ + dec(WHITE as nat),
    }
}

/// One region as a JSON line, after `pre`.
pub open spec fn region_onto(pre: Seq<char>, r: RegionView, last: bool) -> Seq<char> {
    what_onto(
        pre + "      {\"name\": \""@ + r.name + "\", \"x\": "@ + dec(r.x) + ", \"y\": "@ + dec(r.y) + ", \"w\": "@
            + dec(r.w) + ", \"h\": "@ + dec(r.h) + ", "@,
        r.what,
    ) + "}"@ + sep(last) + "\n"@
}

/// The first `n` of regions `rs` as JSON lines, after `pre`.
pub open spec fn regions_onto(pre: Seq<char>, rs: Seq<RegionView>, n: int) -> Seq<char>
    decreases n,
{
    if n <= 0 { pre } else { region_onto(regions_onto(pre, rs, n - 1), rs[n - 1], n == rs.len()) }
}

/// Screen `s` as JSON, after `pre`: its id, name, timing, emphasis and
/// regions.
pub open spec fn screen_onto(pre: Seq<char>, s: int) -> Seq<char> {
    let head = pre + "    {\"id\": "@ + dec(s as nat) + ", \"name\": \""@ + SCREEN_NAMES@[s]@
        + "\", \"variant_frames\": "@ + dec(spec_variant_frames()[s] as nat) + ", \"variants\": "@
        + dec(spec_variants()[s] as nat) + ", \"emphasis\": \""@ + (if s == 1 { "variant % 8" } else { "0" })@
        + "\", \"regions\": [\n"@;
    regions_onto(head, spec_regions(s), spec_regions(s).len() as int) + "    ]}"@ + sep(s + 1 >= SCREENS) + "\n"@
}

/// The first `n` screens as JSON, after `pre`.
pub open spec fn screens_onto(pre: Seq<char>, n: int) -> Seq<char>
    decreases n,
{
    if n <= 0 { pre } else { screen_onto(screens_onto(pre, n - 1), n - 1) }
}

/// The manifest's opening: the cartridge and the strip's geometry,
/// colours and note, up to its fields.
pub open spec fn manifest_head() -> Seq<char> {
    Seq::<char>::empty()
        + "{\n  \"cartridge\": \"cal\",\n  \"mapper\": 0,\n  \"prg\": 32768,\n  \"chr\": 8192,\n  \"mirroring\": \"vertical\",\n"@
        + "  \"strip\": {\n    \"x0\": "@ + dec(STRIP_X0 as nat) + ", \"y0\": "@ + dec(STRIP_Y0 as nat)
        + ", \"block\": "@ + dec(BLOCK as nat) + ", \"cols\": "@ + dec(STRIP_COLS as nat) + ", \"rows\": "@
        + dec(STRIP_ROWS as nat) + ",\n    \"white\": "@ + dec(WHITE as nat) + ", \"black\": "@ + dec(BLACK as nat)
        + ",\n    \"note\": \"a block is white when its bit is 1; bits read MSB first left to right; the pad byte has A at bit 0; the frame counter counts NMIs since reset; a byte polled in the blanking that ends frame k is in the strip of frame k+2; parity is the XOR of screen, variant, hold, both frame bytes and pad, folded to one bit\",\n    \"fields\": [\n"@
}

/// The manifest: the cartridge, the strip's geometry, colours and
/// fields, and every screen's regions with what each holds per variant.
pub open spec fn spec_manifest() -> Seq<char> {
    screens_onto(fields_onto(manifest_head(), 12) + "    ]\n  },\n  \"screens\": [\n"@, SCREENS as int) + "  ]\n}\n"@
}

/// One region's JSON line onto `j`.
fn push_region(j: &mut String, r: &Region, last: bool)
    ensures
        final(j)@ == region_onto(old(j)@, r@, last),
{
    push_str(j, "      {\"name\": \"");
    push_str(j, r.name.as_str());
    push_str(j, "\", \"x\": ");
    push_dec(j, r.x as u64);
    push_str(j, ", \"y\": ");
    push_dec(j, r.y as u64);
    push_str(j, ", \"w\": ");
    push_dec(j, r.w as u64);
    push_str(j, ", \"h\": ");
    push_dec(j, r.h as u64);
    push_str(j, ", ");
    let ghost before_what = j@;
    match &r.what {
        What::Flat { entries } => {
            push_str(j, "\"entries\": [");
            let ghost open = j@;
            let mut k: usize = 0;
            while k < entries.len()
                invariant
                    k <= entries@.len(),
                    j@ == entries_onto(open, entries@.subrange(0, k as int)),
                decreases entries@.len() - k,
            {
                if k > 0 {
                    push_str(j, ", ");
                }
                match entries[k] {
                    Some(v) => push_dec(j, v as u64),
                    None => push_str(j, "null"),
                }
                proof {
                    let es = entries@.subrange(0, k + 1);
                    assert(es.drop_last() =~= entries@.subrange(0, k as int));
                    assert(es.last() == entries@[k as int]);
                    if k == 0 {
                        assert(es[0] == entries@[0]);
                        assert(entries@.subrange(0, 0) =~= Seq::<Option<u8>>::empty());
                    }
                }
                k += 1;
            }
            assert(entries@.subrange(0, entries@.len() as int) =~= entries@);
            push_str(j, "]");
        },
        What::Pattern { kind, pitch, axis } => {
            push_str(j, "\"pattern\": \"");
            push_str(j, kind);
            push_str(j, "\", \"pitch\": ");
            push_dec(j, *pitch as u64);
            push_str(j, ", \"axis\": \"");
            push_str(j, axis);
            push_str(j, "\", \"colour\": ");
            push_dec(j, WHITE as u64);
        },
    }
    assert(j@ == what_onto(before_what, r.what@));
    push_str(j, "}");
    push_str(j, if last { "" } else { "," });
    push_str(j, "\n");
}

/// One field of the strip onto `j`.
fn push_field(j: &mut String, f: (usize, usize, usize, &'static str, Option<u8>), last: bool)
    ensures
        final(j)@ == field_onto(old(j)@, f, last),
{
    let (row, col, bits, name, value) = f;
    push_str(j, "      {\"row\": ");
    push_dec(j, row as u64);
    push_str(j, ", \"col\": ");
    push_dec(j, col as u64);
    push_str(j, ", \"bits\": ");
    push_dec(j, bits as u64);
    push_str(j, ", \"name\": \"");
    push_str(j, name);
    push_str(j, "\"");
    match value {
        Some(v) => {
            push_str(j, ", \"value\": ");
            push_dec(j, v as u64);
        },
        None => {},
    }
    push_str(j, "}");
    push_str(j, if last { "" } else { "," });
    push_str(j, "\n");
}

/// One screen's JSON onto `j`.
fn push_screen(j: &mut String, s: usize)
    requires
        s < SCREENS,
    ensures
        final(j)@ == screen_onto(old(j)@, s as int),
{
    let names = SCREEN_NAMES;
    let frames = VARIANT_FRAMES;
    let counts = VARIANTS;
    assert(frames@ =~= spec_variant_frames() && counts@ =~= spec_variants());
    push_str(j, "    {\"id\": ");
    push_dec(j, s as u64);
    push_str(j, ", \"name\": \"");
    push_str(j, names[s]);
    push_str(j, "\", \"variant_frames\": ");
    push_dec(j, frames[s] as u64);
    push_str(j, ", \"variants\": ");
    push_dec(j, counts[s] as u64);
    push_str(j, ", \"emphasis\": \"");
    push_str(j, if s == 1 { "variant % 8" } else { "0" });
    push_str(j, "\", \"regions\": [\n");
    let rs = regions(s);
    let ghost want = spec_regions(s as int);
    let ghost list = j@;
    let mut k: usize = 0;
    while k < rs.len()
        invariant
            k <= rs@.len(),
            rs@.len() == want.len(),
            forall|i: int| 0 <= i < rs@.len() ==> #[trigger] rs@[i]@ == want[i],
            j@ == regions_onto(list, want, k as int),
        decreases rs@.len() - k,
    {
        push_region(j, &rs[k], k + 1 >= rs.len());
        k += 1;
    }
    push_str(j, "    ]}");
    push_str(j, if s + 1 < SCREENS { "," } else { "" });
    push_str(j, "\n");
}

/// The manifest as JSON text: the strip's geometry and fields, and every
/// screen's regions with what each holds per variant.
pub fn manifest() -> (j: String)
    ensures
        j@ == spec_manifest(),
{
    let mut j = String::new();
    push_str(&mut j, "{\n  \"cartridge\": \"cal\",\n  \"mapper\": 0,\n  \"prg\": 32768,\n  \"chr\": 8192,\n  \"mirroring\": \"vertical\",\n");
    push_str(&mut j, "  \"strip\": {\n    \"x0\": ");
    push_dec(&mut j, STRIP_X0 as u64);
    push_str(&mut j, ", \"y0\": ");
    push_dec(&mut j, STRIP_Y0 as u64);
    push_str(&mut j, ", \"block\": ");
    push_dec(&mut j, BLOCK as u64);
    push_str(&mut j, ", \"cols\": ");
    push_dec(&mut j, STRIP_COLS as u64);
    push_str(&mut j, ", \"rows\": ");
    push_dec(&mut j, STRIP_ROWS as u64);
    push_str(&mut j, ",\n    \"white\": ");
    push_dec(&mut j, WHITE as u64);
    push_str(&mut j, ", \"black\": ");
    push_dec(&mut j, BLACK as u64);
    push_str(&mut j, ",\n    \"note\": \"a block is white when its bit is 1; bits read MSB first left to right; the pad byte has A at bit 0; the frame counter counts NMIs since reset; a byte polled in the blanking that ends frame k is in the strip of frame k+2; parity is the XOR of screen, variant, hold, both frame bytes and pad, folded to one bit\",\n    \"fields\": [\n");
    assert(j@ == manifest_head());
    let fs = fields();
    let mut i: usize = 0;
    while i < 12
        invariant
            i <= 12,
            fs@ == spec_fields(),
            j@ == fields_onto(manifest_head(), i as int),
        decreases 12 - i,
    {
        push_field(&mut j, fs[i], i + 1 >= 12);
        i += 1;
    }
    push_str(&mut j, "    ]\n  },\n  \"screens\": [\n");
    let ghost mid = j@;
    let mut s: usize = 0;
    while s < SCREENS
        invariant
            s <= SCREENS,
            j@ == screens_onto(mid, s as int),
        decreases SCREENS - s,
    {
        push_screen(&mut j, s);
        s += 1;
    }
    push_str(&mut j, "  ]\n}\n");
    j
}

// -------------------------------------------------------------- reader
/// Dots across the visible picture, and rows down it.
pub const PICTURE_WIDTH: usize = 256;
pub const PICTURE_HEIGHT: usize = 240;

/// The visible picture of one frame as the PPU drew it: 240 rows of 256
/// dots, each the palette entry the dot shows, row by row.
pub struct DotPicture {
    colour: Vec<u8>,
}

impl DotPicture {
    #[verifier::type_invariant]
    closed spec fn inv(self) -> bool {
        self.colour@.len() == 256 * 240
    }

    /// The dots, row by row.
    pub closed spec fn dots(self) -> Seq<u8> {
        self.colour@
    }

    /// A picture from its dots, row by row; None unless there are
    /// exactly 256 x 240 of them.
    pub fn new(colour: Vec<u8>) -> (r: Option<DotPicture>)
        ensures
            colour@.len() == 256 * 240 <==> r is Some,
            r matches Some(p) ==> p.dots() == colour@,
    {
        if colour.len() == PICTURE_WIDTH * PICTURE_HEIGHT {
            Some(DotPicture { colour })
        } else {
            None
        }
    }

    /// The palette entry at row `y`, dot `x`.
    pub fn at(&self, y: usize, x: usize) -> (c: u8)
        requires
            y < 240,
            x < 256,
        ensures
            c == self.dots()[y * 256 + x],
    {
        proof {
            use_type_invariant(self);
        }
        self.colour[y * PICTURE_WIDTH + x]
    }
}

/// What a frame's strip says.
#[derive(Debug, Clone, Copy, PartialEq, Eq, Structural)]
pub struct Strip {
    pub screen: u8,
    pub variant: u8,
    pub hold: bool,
    pub frame: u16,
    pub pad: u8,
}

/// How many of the first `n` dots of the 8 by 8 window at (x0, y0),
/// row by row, are entry `c`.
pub open spec fn window_count(dots: Seq<u8>, x0: int, y0: int, c: u8, n: int) -> nat
    decreases n,
{
    if n <= 0 {
        0
    } else {
        window_count(dots, x0, y0, c, n - 1) + (if dots[(y0 + (n - 1) / 8) * 256 + x0 + (n - 1) % 8] == c { 1nat } else { 0 })
    }
}

/// The window a block is sampled over: its middle 8 by 8 dots, moved by
/// (dx, dy).
pub open spec fn block_origin(row: int, col: int, dx: int, dy: int) -> (int, int) {
    (STRIP_X0 + col * BLOCK + 4 + dx, STRIP_Y0 + row * BLOCK + 4 + dy)
}

/// A window that lies inside the picture.
pub open spec fn block_in_picture(row: int, col: int, dx: int, dy: int) -> bool {
    let (x0, y0) = block_origin(row, col, dx, dy);
    0 <= x0 && x0 + 8 <= 256 && 0 <= y0 && y0 + 8 <= 240
}

/// One block of a frame: white when all 64 dots of its window are the
/// strip's white, black when all are black, otherwise a refusal that
/// says what it found.
pub open spec fn spec_block(dots: Seq<u8>, row: int, col: int, dx: int, dy: int) -> Result<bool, Seq<char>> {
    let (x0, y0) = block_origin(row, col, dx, dy);
    let white = window_count(dots, x0, y0, WHITE, 64);
    let black = window_count(dots, x0, y0, BLACK, 64);
    if white == 64 && black == 0 {
        Ok(true)
    } else if white == 0 && black == 64 {
        Ok(false)
    } else {
        Err("block ("@ + dec(row as nat) + ","@ + dec(col as nat) + ") is neither white nor black: "@ + dec(white)
            + " white, "@ + dec(black) + " black of 64"@)
    }
}

/// One block of the model's frame, sampled over its middle 8 by 8 dots:
/// white, black, or neither (a refusal, never a guess). `dx`, `dy` shift
/// the sampling grid.
fn block(f: &DotPicture, row: usize, col: usize, dx: isize, dy: isize) -> (r: Result<bool, String>)
    requires
        row < 3,
        col < 15,
        block_in_picture(row as int, col as int, dx as int, dy as int),
    ensures
        match (r, spec_block(f.dots(), row as int, col as int, dx as int, dy as int)) {
            (Ok(a), Ok(b)) => a == b,
            (Err(e), Err(m)) => e@ == m,
            _ => false,
        },
{
    let x0: isize = (STRIP_X0 + col * BLOCK + 4) as isize + dx;
    let y0: isize = (STRIP_Y0 + row * BLOCK + 4) as isize + dy;
    let (mut white, mut black): (u64, u64) = (0, 0);
    let mut y: isize = y0;
    while y < y0 + 8
        invariant
            y0 <= y <= y0 + 8,
            (x0 as int, y0 as int) == block_origin(row as int, col as int, dx as int, dy as int),
            0 <= x0 && x0 + 8 <= 256 && 0 <= y0 && y0 + 8 <= 240,
            white == window_count(f.dots(), x0 as int, y0 as int, WHITE, 8 * (y - y0)),
            black == window_count(f.dots(), x0 as int, y0 as int, BLACK, 8 * (y - y0)),
            white <= 8 * (y - y0),
            black <= 8 * (y - y0),
        decreases y0 + 8 - y,
    {
        let mut x: isize = x0;
        while x < x0 + 8
            invariant
                y0 <= y < y0 + 8,
                x0 <= x <= x0 + 8,
                0 <= x0 && x0 + 8 <= 256 && 0 <= y0 && y0 + 8 <= 240,
                white == window_count(f.dots(), x0 as int, y0 as int, WHITE, 8 * (y - y0) + (x - x0)),
                black == window_count(f.dots(), x0 as int, y0 as int, BLACK, 8 * (y - y0) + (x - x0)),
                white <= 8 * (y - y0) + (x - x0),
                black <= 8 * (y - y0) + (x - x0),
            decreases x0 + 8 - x,
        {
            let c = f.at(y as usize, x as usize);
            proof {
                let n = 8 * (y - y0) + (x - x0);
                assert(n / 8 == y - y0 && n % 8 == x - x0) by (nonlinear_arith)
                    requires n == 8 * (y - y0) + (x - x0), 0 <= x - x0 < 8, 0 <= y - y0;
            }
            if c == WHITE {
                white += 1;
            } else if c == BLACK {
                black += 1;
            }
            x += 1;
        }
        y += 1;
    }
    if white == 64 && black == 0 {
        Ok(true)
    } else if white == 0 && black == 64 {
        Ok(false)
    } else {
        let mut e = String::new();
        push_str(&mut e, "block (");
        push_dec(&mut e, row as u64);
        push_str(&mut e, ",");
        push_dec(&mut e, col as u64);
        push_str(&mut e, ") is neither white nor black: ");
        push_dec(&mut e, white);
        push_str(&mut e, " white, ");
        push_dec(&mut e, black);
        push_str(&mut e, " black of 64");
        Err(e)
    }
}

/// The first `n` bits of a field, most significant first, read off the
/// blocks from (row, col) rightwards; the first refusal if a block is
/// neither white nor black.
pub open spec fn spec_bits(dots: Seq<u8>, row: int, col: int, n: int, dx: int, dy: int) -> Result<nat, Seq<char>>
    decreases n,
{
    if n <= 0 {
        Ok(0)
    } else {
        match spec_bits(dots, row, col, n - 1, dx, dy) {
            Err(e) => Err(e),
            Ok(x) => match spec_block(dots, row, col + n - 1, dx, dy) {
                Err(e) => Err(e),
                Ok(b) => Ok(2 * x + (if b { 1nat } else { 0 })),
            },
        }
    }
}

/// The first `k` fields read in order: their values, or the first
/// refusal (a block that is neither colour, or a sync field that does
/// not read its pattern).
pub open spec fn spec_fields_read(dots: Seq<u8>, dx: int, dy: int, k: int) -> Result<Seq<nat>, Seq<char>>
    decreases k,
{
    if k <= 0 {
        Ok(Seq::empty())
    } else {
        match spec_fields_read(dots, dx, dy, k - 1) {
            Err(e) => Err(e),
            Ok(vs) => {
                let (row, col, bits, name, fixed) = spec_fields()[k - 1];
                match spec_bits(dots, row as int, col as int, bits as int, dx, dy) {
                    Err(e) => Err(e),
                    Ok(x) => match fixed {
                        Some(want) => if x != want as nat {
                            Err(name@ + " on row "@ + dec(row as nat) + " reads "@ + bin(x) + ", not "@ + bin(want as nat))
                        } else {
                            Ok(vs.push(x))
                        },
                        None => Ok(vs.push(x)),
                    },
                }
            },
        }
    }
}

/// The strip the twelve fields' values say: screen, variant, hold, the
/// frame counter from its three fields, the pad byte.
pub open spec fn strip_of(vs: Seq<nat>) -> Strip {
    Strip {
        screen: vs[1] as u8,
        variant: vs[2] as u8,
        hold: vs[3] != 0,
        frame: (vs[10] * 4096 + vs[7] * 256 + vs[8]) as u16,
        pad: vs[11] as u8,
    }
}

/// How many bits of a byte are set.
pub open spec fn ones(p: u8) -> nat {
    ((p & 1) + ((p >> 1u8) & 1) + ((p >> 2u8) & 1) + ((p >> 3u8) & 1) + ((p >> 4u8) & 1) + ((p >> 5u8) & 1)
        + ((p >> 6u8) & 1) + ((p >> 7u8) & 1)) as nat
}

/// The parity the strip carries: the XOR of screen, variant, hold, both
/// frame bytes and pad, folded to one bit.
pub open spec fn strip_parity(s: Strip) -> nat {
    ones(s.screen ^ s.variant ^ (if s.hold { 1u8 } else { 0u8 }) ^ (s.frame % 256) as u8 ^ (s.frame / 256) as u8 ^ s.pad)
        % 2
}

/// What reading the strip off a frame gives: the strip, when every
/// block reads, the sync fields hold their patterns and the parity
/// agrees; else the first refusal.
pub open spec fn spec_read_strip(dots: Seq<u8>, dx: int, dy: int) -> Result<Strip, Seq<char>> {
    match spec_fields_read(dots, dx, dy, 12) {
        Err(e) => Err(e),
        Ok(vs) => {
            let s = strip_of(vs);
            if strip_parity(s) != vs[4] {
                Err("parity: the strip says "@ + dec(vs[4]) + ", the fields fold to "@ + dec(strip_parity(s)))
            } else {
                Ok(s)
            }
        },
    }
}

/// A field's value is below 2 to the power of its bits.
proof fn lemma_bits_bound(dots: Seq<u8>, row: int, col: int, n: int, dx: int, dy: int)
    requires
        0 <= n <= 8,
    ensures
        spec_bits(dots, row, col, n, dx, dy) matches Ok(x) ==> x < crate::cal::pow2(n),
    decreases n,
{
    if n > 0 {
        lemma_bits_bound(dots, row, col, n - 1, dx, dy);
    }
}

/// 2 to the `n`.
pub open spec fn pow2(n: int) -> nat
    decreases n,
{
    if n <= 0 { 1 } else { 2 * pow2(n - 1) }
}

/// The shape of the strip's fields: each lies on one of the three rows,
/// within its fifteen blocks, and has one to eight bits.
proof fn lemma_field_shape(k: int)
    requires
        0 <= k < 12,
    ensures
        spec_fields()[k].0 < 3,
        spec_fields()[k].1 + spec_fields()[k].2 <= 15,
        1 <= spec_fields()[k].2 <= 8,
        spec_fields()[k].4 matches Some(w) ==> (w as nat) < pow2(spec_fields()[k].2 as int),
{
    reveal_with_fuel(pow2, 4);
}

/// Once the first `n` bits of a field refuse, so do the first `m`, with
/// the same refusal.
proof fn lemma_bits_err_sticks(dots: Seq<u8>, row: int, col: int, n: int, m: int, dx: int, dy: int)
    requires
        0 <= n <= m,
        spec_bits(dots, row, col, n, dx, dy) is Err,
    ensures
        spec_bits(dots, row, col, m, dx, dy) == spec_bits(dots, row, col, n, dx, dy),
    decreases m - n,
{
    if m > n {
        lemma_bits_err_sticks(dots, row, col, n, m - 1, dx, dy);
    }
}

/// Once the first `k` fields refuse, so do the first `m`, with the same
/// refusal.
proof fn lemma_fields_err_sticks(dots: Seq<u8>, dx: int, dy: int, k: int, m: int)
    requires
        0 <= k <= m,
        spec_fields_read(dots, dx, dy, k) is Err,
    ensures
        spec_fields_read(dots, dx, dy, m) == spec_fields_read(dots, dx, dy, k),
    decreases m - k,
{
    if m > k {
        lemma_fields_err_sticks(dots, dx, dy, k, m - 1);
    }
}

/// The parity fold of a byte: XOR-ing it onto itself shifted by 4, 2 and
/// 1 leaves in bit 0 the parity of its set bits.
proof fn lemma_parity_fold(p: u8)
    ensures
        ({
            let p1 = p ^ (p >> 4u8);
            let p2 = p1 ^ (p1 >> 2u8);
            let p3 = p2 ^ (p2 >> 1u8);
            (p3 & 1) as nat == ones(p) % 2
        }),
{
    let p1 = p ^ (p >> 4u8);
    let p2 = p1 ^ (p1 >> 2u8);
    let p3 = p2 ^ (p2 >> 1u8);
    assert((p3 & 1) as int == ((p & 1) + ((p >> 1u8) & 1) + ((p >> 2u8) & 1) + ((p >> 3u8) & 1) + ((p >> 4u8) & 1)
        + ((p >> 5u8) & 1) + ((p >> 6u8) & 1) + ((p >> 7u8) & 1)) % 2) by (bit_vector)
        requires
            p1 == p ^ (p >> 4u8),
            p2 == p1 ^ (p1 >> 2u8),
            p3 == p2 ^ (p2 >> 1u8),
    ;
}

/// Read the strip off a frame, by the manifest's rectangles, with the
/// sampling grid moved by (dx, dy).
///
/// The bounds on the shift keep every block's 8 by 8 window inside the
/// picture a `DotPicture` holds, 256 by 240 visible dots: the windows
/// start at x = 12 + dx and y = 20 + dy (so a shift below -12 or -20
/// would read before the first dot) and end at x = 244 + dx and
/// y = 60 + dy (so one past 12 or 180 would read past the last). The
/// dots beyond the visible picture (the blanking) are not held here,
/// so no shift onto them can be read.
pub fn read_strip_shifted(f: &DotPicture, dx: isize, dy: isize) -> (r: Result<Strip, String>)
    requires
        -12 <= dx <= 12,
        -20 <= dy <= 180,
    ensures
        match (r, spec_read_strip(f.dots(), dx as int, dy as int)) {
            (Ok(a), Ok(b)) => a == b,
            (Err(e), Err(m)) => e@ == m,
            _ => false,
        },
{
    let ghost dots = f.dots();
    let fs = fields();
    let mut v: Vec<u32> = Vec::new();
    let mut k: usize = 0;
    while k < 12
        invariant
            k <= 12,
            -12 <= dx <= 12,
            -20 <= dy <= 180,
            dots == f.dots(),
            fs@ == spec_fields(),
            v@.len() == k,
            spec_fields_read(dots, dx as int, dy as int, k as int) matches Ok(vs) && vs.len() == k
                && forall|i: int| 0 <= i < k ==> v@[i] as nat == #[trigger] vs[i]
                    && vs[i] < pow2(spec_fields()[i].2 as int),
        decreases 12 - k,
    {
        let (row, col, bits, name, fixed) = fs[k];
        proof {
            lemma_field_shape(k as int);
        }
        let ghost vs = spec_fields_read(dots, dx as int, dy as int, k as int)->Ok_0;
        let mut x: u32 = 0;
        let mut b: usize = 0;
        while b < bits
            invariant
                b <= bits,
                (row, col, bits, name, fixed) == spec_fields()[k as int],
                row < 3,
                col + bits <= 15,
                1 <= bits <= 8,
                k < 12,
                -12 <= dx <= 12,
                -20 <= dy <= 180,
                dots == f.dots(),
                spec_fields_read(dots, dx as int, dy as int, k as int) == Ok::<Seq<nat>, Seq<char>>(vs),
                spec_bits(dots, row as int, col as int, b as int, dx as int, dy as int) == Ok::<nat, Seq<char>>(x as nat),
                x < pow2(b as int),
            decreases bits - b,
        {
            proof {
                reveal_with_fuel(pow2, 2);
            }
            let bit = match block(f, row, col + b, dx, dy) {
                Ok(bit) => bit,
                Err(e) => {
                    proof {
                        lemma_bits_err_sticks(dots, row as int, col as int, b + 1, bits as int, dx as int, dy as int);
                        lemma_fields_err_sticks(dots, dx as int, dy as int, k + 1, 12);
                    }
                    return Err(e);
                },
            };
            proof {
                assert(pow2(b as int) <= 128) by {
                    reveal_with_fuel(pow2, 9);
                }
            }
            x = 2 * x + if bit { 1u32 } else { 0u32 };
            b += 1;
        }
        proof {
            lemma_bits_bound(dots, row as int, col as int, bits as int, dx as int, dy as int);
        }
        if let Some(want) = fixed {
            if x != want as u32 {
                let mut e = String::new();
                push_str(&mut e, name);
                push_str(&mut e, " on row ");
                push_dec(&mut e, row as u64);
                push_str(&mut e, " reads ");
                push_bin(&mut e, x as u64);
                push_str(&mut e, ", not ");
                push_bin(&mut e, want as u64);
                proof {
                    lemma_fields_err_sticks(dots, dx as int, dy as int, k + 1, 12);
                }
                return Err(e);
            }
        }
        proof {
            let vs1 = vs.push(x as nat);
            assert(spec_fields_read(dots, dx as int, dy as int, k + 1) == Ok::<Seq<nat>, Seq<char>>(vs1));
        }
        v.push(x);
        k += 1;
    }
    let ghost vs = spec_fields_read(dots, dx as int, dy as int, 12)->Ok_0;
    proof {
        reveal_with_fuel(pow2, 9);
        assert(vs[7] < pow2(spec_fields()[7].2 as int));
        assert(vs[8] < pow2(spec_fields()[8].2 as int));
        assert(vs[10] < pow2(spec_fields()[10].2 as int));
        assert(vs[1] < pow2(spec_fields()[1].2 as int));
        assert(vs[2] < pow2(spec_fields()[2].2 as int));
        assert(vs[11] < pow2(spec_fields()[11].2 as int));
        assert(vs[4] < pow2(spec_fields()[4].2 as int));
    }
    let (f10, f7, f8) = (v[10], v[7], v[8]);
    assert((f10 << 12u32 | f7 << 8u32 | f8) == f10 * 4096 + f7 * 256 + f8) by (bit_vector)
        requires
            f10 < 16,
            f7 < 16,
            f8 < 256,
    ;
    let frame = (f10 << 12u32 | f7 << 8u32 | f8) as u16;
    let s = Strip { screen: v[1] as u8, variant: v[2] as u8, hold: v[3] != 0, frame, pad: v[11] as u8 };
    assert(s == strip_of(vs));
    let hold: u8 = if s.hold { 1 } else { 0 };
    let lo = frame as u8;
    let hi = (frame >> 8u16) as u8;
    assert(lo == (frame % 256) as u8 && hi == (frame / 256) as u8) by (bit_vector)
        requires
            lo == frame as u8,
            hi == (frame >> 8u16) as u8,
    ;
    let mut p = s.screen ^ s.variant ^ hold ^ lo ^ hi ^ s.pad;
    proof {
        lemma_parity_fold(p);
    }
    p ^= p >> 4u8;
    p ^= p >> 2u8;
    p ^= p >> 1u8;
    if (p & 1) as u32 != v[4] {
        let mut e = String::new();
        push_str(&mut e, "parity: the strip says ");
        push_dec(&mut e, v[4] as u64);
        push_str(&mut e, ", the fields fold to ");
        push_dec(&mut e, (p & 1) as u64);
        return Err(e);
    }
    Ok(s)
}

/// Read the strip off a frame of the model, by the manifest's
/// rectangles.
pub fn read_strip(f: &DotPicture) -> (r: Result<Strip, String>)
    ensures
        match (r, spec_read_strip(f.dots(), 0, 0)) {
            (Ok(a), Ok(b)) => a == b,
            (Err(e), Err(m)) => e@ == m,
            _ => false,
        },
{
    read_strip_shifted(f, 0, 0)
}

// ------------------------------------------------------------ the strip read back
/// The dot at (x, y) of a picture's dots, row by row.
pub open spec fn pixel(dots: Seq<u8>, x: int, y: int) -> u8 {
    dots[y * 256 + x]
}

/// The colour the strip paints a bit in.
pub open spec fn bit_colour(b: bool) -> u8 {
    if b { WHITE } else { BLACK }
}

/// Block (row, col) of the strip is painted `c`: all 16 by 16 of its
/// dots.
pub open spec fn block_painted(dots: Seq<u8>, row: int, col: int, c: u8) -> bool {
    forall|x: int, y: int|
        STRIP_X0 + col * BLOCK <= x < STRIP_X0 + col * BLOCK + BLOCK && STRIP_Y0 + row * BLOCK <= y < STRIP_Y0 + row
            * BLOCK + BLOCK ==> #[trigger] pixel(dots, x, y) == c
}

/// Bit `j` of an `n`-bit field holding `v`, counting from the most
/// significant.
pub open spec fn field_bit(v: nat, n: int, j: int) -> bool {
    (v / pow2(n - 1 - j)) % 2 == 1
}

/// The values a strip's twelve fields carry, in the fields' order.
pub open spec fn field_values(s: Strip) -> Seq<nat> {
    seq![
        0b101nat,
        s.screen as nat,
        s.variant as nat,
        if s.hold { 1nat } else { 0nat },
        strip_parity(s),
        0nat,
        0b010nat,
        (s.frame as nat / 256) % 16,
        s.frame as nat % 256,
        0b110nat,
        s.frame as nat / 4096,
        s.pad as nat,
    ]
}

/// A picture carries strip `s`: every block of every field is painted
/// with the field's bit, most significant first, white for a one.
pub open spec fn carries(dots: Seq<u8>, s: Strip) -> bool {
    forall|k: int, j: int|
        0 <= k < 12 && 0 <= j < spec_fields()[k].2 ==> #[trigger] block_painted(
            dots,
            spec_fields()[k].0 as int,
            spec_fields()[k].1 + j,
            bit_colour(field_bit(field_values(s)[k], spec_fields()[k].2 as int, j)),
        )
}

/// A window sampled inside a block painted `c` counts every dot as `c`
/// and none as another colour.
proof fn lemma_window_in_block(dots: Seq<u8>, row: int, col: int, c: u8, d: u8, dx: int, dy: int, n: int)
    requires
        0 <= row < 3,
        0 <= col < 15,
        -4 <= dx <= 4,
        -4 <= dy <= 4,
        0 <= n <= 64,
        c != d,
        block_painted(dots, row, col, c),
    ensures
        window_count(dots, block_origin(row, col, dx, dy).0, block_origin(row, col, dx, dy).1, c, n) == n,
        window_count(dots, block_origin(row, col, dx, dy).0, block_origin(row, col, dx, dy).1, d, n) == 0,
    decreases n,
{
    if n > 0 {
        lemma_window_in_block(dots, row, col, c, d, dx, dy, n - 1);
        let (x0, y0) = block_origin(row, col, dx, dy);
        let k = n - 1;
        let x = x0 + k % 8;
        let y = y0 + k / 8;
        assert(0 <= k / 8 < 8 && 0 <= k % 8 < 8);
        assert(pixel(dots, x, y) == c);
        assert(dots[(y0 + k / 8) * 256 + x0 + k % 8] == pixel(dots, x, y));
    }
}

/// A block painted in a bit's colour reads as that bit, wherever within
/// four dots the sampling grid sits.
proof fn lemma_block_reads(dots: Seq<u8>, row: int, col: int, b: bool, dx: int, dy: int)
    requires
        0 <= row < 3,
        0 <= col < 15,
        -4 <= dx <= 4,
        -4 <= dy <= 4,
        block_painted(dots, row, col, bit_colour(b)),
    ensures
        spec_block(dots, row, col, dx, dy) == Ok::<bool, Seq<char>>(b),
{
    if b {
        lemma_window_in_block(dots, row, col, WHITE, BLACK, dx, dy, 64);
    } else {
        lemma_window_in_block(dots, row, col, BLACK, WHITE, dx, dy, 64);
    }
}

/// Halving through a power of two: the quotient by 2^m is twice the
/// quotient by 2^(m+1), plus the bit between.
proof fn lemma_halve(v: nat, m: int)
    requires
        m >= 0,
    ensures
        2 * (v / pow2(m + 1)) + (v / pow2(m)) % 2 == v / pow2(m),
{
    let p = pow2(m) as int;
    lemma_pow2_positive(m);
    assert(pow2(m + 1) == 2 * p);
    vstd::arithmetic::div_mod::lemma_div_denominator(v as int, p, 2);
    assert(p * 2 == 2 * p);
    let q = v as int / p;
    assert(2 * (q / 2) + q % 2 == q);
}

/// Powers of two are positive.
proof fn lemma_pow2_positive(m: int)
    ensures
        pow2(m) > 0,
    decreases m,
{
    if m > 0 {
        lemma_pow2_positive(m - 1);
    }
}

/// The first `n` blocks of a painted `nbits`-bit field holding `v` read
/// as the top `n` bits of `v`.
proof fn lemma_bits_read(dots: Seq<u8>, row: int, col: int, nbits: int, v: nat, dx: int, dy: int, n: int)
    requires
        0 <= row < 3,
        0 <= col,
        col + nbits <= 15,
        1 <= nbits <= 8,
        0 <= n <= nbits,
        v < pow2(nbits),
        -4 <= dx <= 4,
        -4 <= dy <= 4,
        forall|j: int| 0 <= j < nbits ==> #[trigger] block_painted(dots, row, col + j, bit_colour(field_bit(v, nbits, j))),
    ensures
        spec_bits(dots, row, col, n, dx, dy) == Ok::<nat, Seq<char>>(v / pow2(nbits - n)),
    decreases n,
{
    lemma_pow2_positive(nbits - n);
    if n == 0 {
        assert(v / pow2(nbits) == 0) by {
            vstd::arithmetic::div_mod::lemma_basic_div(v as int, pow2(nbits) as int);
        }
    } else {
        lemma_bits_read(dots, row, col, nbits, v, dx, dy, n - 1);
        assert(block_painted(dots, row, col + (n - 1), bit_colour(field_bit(v, nbits, n - 1))));
        lemma_block_reads(dots, row, col + n - 1, field_bit(v, nbits, n - 1), dx, dy);
        lemma_halve(v, nbits - n);
    }
}

/// Every field's value fits its bits, for a strip whose screen fits
/// three bits and variant six.
proof fn lemma_values_fit(s: Strip, k: int)
    requires
        s.screen < 8,
        s.variant < 64,
        0 <= k < 12,
    ensures
        field_values(s)[k] < pow2(spec_fields()[k].2 as int),
        spec_fields()[k].4 matches Some(w) ==> field_values(s)[k] == w as nat,
{
    reveal_with_fuel(pow2, 9);
    assert(strip_parity(s) < 2);
    assert(s.frame as nat / 4096 < 16);
    if k == 0 {
    } else if k == 1 {
    } else if k == 2 {
    } else if k == 3 {
    } else if k == 4 {
    } else if k == 5 {
    } else if k == 6 {
    } else if k == 7 {
    } else if k == 8 {
    } else if k == 9 {
    } else if k == 10 {
    } else {
    }
}

/// Field `k` of a picture that carries `s` reads as the field's value.
proof fn lemma_field_reads(dots: Seq<u8>, s: Strip, dx: int, dy: int, k: int)
    requires
        carries(dots, s),
        s.screen < 8,
        s.variant < 64,
        -4 <= dx <= 4,
        -4 <= dy <= 4,
        0 <= k < 12,
    ensures
        spec_bits(
            dots,
            spec_fields()[k].0 as int,
            spec_fields()[k].1 as int,
            spec_fields()[k].2 as int,
            dx,
            dy,
        ) == Ok::<nat, Seq<char>>(field_values(s)[k]),
{
    lemma_field_shape(k);
    lemma_values_fit(s, k);
    let (row, col, bits, name, fixed) = spec_fields()[k];
    let v = field_values(s)[k];
    assert forall|j: int| 0 <= j < bits implies #[trigger] block_painted(
        dots,
        row as int,
        col + j,
        bit_colour(field_bit(v, bits as int, j)),
    ) by {
        assert(block_painted(dots, row as int, col + j, bit_colour(field_bit(v, bits as int, j))));
    }
    lemma_bits_read(dots, row as int, col as int, bits as int, v, dx, dy, bits as int);
    assert(pow2(0) == 1);
    assert(v / 1 == v);
}

/// The first `k` fields of a picture that carries `s` read as the first
/// `k` values.
proof fn lemma_fields_read(dots: Seq<u8>, s: Strip, dx: int, dy: int, k: int)
    requires
        carries(dots, s),
        s.screen < 8,
        s.variant < 64,
        -4 <= dx <= 4,
        -4 <= dy <= 4,
        0 <= k <= 12,
    ensures
        spec_fields_read(dots, dx, dy, k) == Ok::<Seq<nat>, Seq<char>>(field_values(s).subrange(0, k)),
    decreases k,
{
    if k > 0 {
        lemma_fields_read(dots, s, dx, dy, k - 1);
        lemma_field_reads(dots, s, dx, dy, k - 1);
        lemma_values_fit(s, k - 1);
        assert(field_values(s).subrange(0, k - 1).push(field_values(s)[k - 1]) =~= field_values(s).subrange(0, k));
    } else {
        assert(field_values(s).subrange(0, 0) =~= Seq::<nat>::empty());
    }
}

/// The strip's frame counter is its three fields put back together.
proof fn lemma_frame_fields(f: u16)
    ensures
        (f as nat / 4096) * 4096 + ((f as nat / 256) % 16) * 256 + f as nat % 256 == f as nat,
{
    let x = f as int;
    vstd::arithmetic::div_mod::lemma_fundamental_div_mod(x, 256);
    vstd::arithmetic::div_mod::lemma_fundamental_div_mod(x / 256, 16);
    vstd::arithmetic::div_mod::lemma_div_denominator(x, 256, 16);
}

/// What the strip is for: a frame that carries strip `s` reads back as
/// `s`, wherever within four dots of the manifest's rectangles the
/// reader samples. (The screen has three bits, the variant six.)
pub proof fn lemma_a_painted_strip_reads_back(dots: Seq<u8>, s: Strip, dx: int, dy: int)
    requires
        carries(dots, s),
        s.screen < 8,
        s.variant < 64,
        -4 <= dx <= 4,
        -4 <= dy <= 4,
    ensures
        spec_read_strip(dots, dx, dy) == Ok::<Strip, Seq<char>>(s),
{
    lemma_fields_read(dots, s, dx, dy, 12);
    let vs = field_values(s);
    assert(vs.subrange(0, 12) =~= vs);
    lemma_frame_fields(s.frame);
    assert(strip_of(vs) == s);
}

/// One dot of a window that is `c` makes the count at least one; one
/// that is not keeps it below the window's size.
proof fn lemma_window_count_bounds(dots: Seq<u8>, x0: int, y0: int, c: u8, n: int, k: int)
    requires
        0 <= k < n,
    ensures
        window_count(dots, x0, y0, c, n) <= n,
        dots[(y0 + k / 8) * 256 + x0 + k % 8] == c ==> window_count(dots, x0, y0, c, n) >= 1,
        dots[(y0 + k / 8) * 256 + x0 + k % 8] != c ==> window_count(dots, x0, y0, c, n) <= n - 1,
    decreases n,
{
    if k < n - 1 {
        lemma_window_count_bounds(dots, x0, y0, c, n - 1, k);
    } else {
        lemma_window_count_at_most(dots, x0, y0, c, n - 1);
    }
}

/// A window's count is at most its size.
proof fn lemma_window_count_at_most(dots: Seq<u8>, x0: int, y0: int, c: u8, n: int)
    ensures
        window_count(dots, x0, y0, c, n) <= if n < 0 { 0 } else { n },
    decreases n,
{
    if n > 0 {
        lemma_window_count_at_most(dots, x0, y0, c, n - 1);
    }
}

/// And the reader refuses what it does not find: sampled one tile to
/// the right of the manifest's rectangles, a frame that carries a strip
/// misreads, since the first block's window then straddles the sync
/// pattern's white and black.
pub proof fn lemma_a_tile_off_misreads(dots: Seq<u8>, s: Strip, dy: int)
    requires
        carries(dots, s),
        -4 <= dy <= 4,
    ensures
        spec_read_strip(dots, 8, dy) is Err,
{
    reveal_with_fuel(pow2, 3);
    assert(block_painted(
        dots,
        spec_fields()[0].0 as int,
        spec_fields()[0].1 + 0int,
        bit_colour(field_bit(field_values(s)[0], spec_fields()[0].2 as int, 0)),
    ));
    assert(block_painted(
        dots,
        spec_fields()[0].0 as int,
        spec_fields()[0].1 + 1int,
        bit_colour(field_bit(field_values(s)[0], spec_fields()[0].2 as int, 1)),
    ));
    assert(pow2(2) == 4 && pow2(1) == 2);
    assert(field_values(s)[0] == 5);
    assert(field_bit(5, 3, 0)) by {
        assert(5nat / 4 == 1);
    }
    assert(!field_bit(5, 3, 1)) by {
        assert(5nat / 2 == 2);
    }
    let (x0, y0) = block_origin(0, 0, 8, dy);
    // The window's first dot is in the white block, its eighth in the black.
    assert(pixel(dots, x0, y0) == WHITE);
    assert(pixel(dots, x0 + 7, y0) == BLACK);
    assert(dots[(y0 + 0int / 8) * 256 + x0 + 0int % 8] == pixel(dots, x0, y0));
    assert(dots[(y0 + 7int / 8) * 256 + x0 + 7int % 8] == pixel(dots, x0 + 7, y0));
    lemma_window_count_bounds(dots, x0, y0, WHITE, 64, 0);
    lemma_window_count_bounds(dots, x0, y0, WHITE, 64, 7);
    assert(spec_block(dots, 0, 0, 8, dy) is Err);
    assert(spec_bits(dots, 0, 0, 1, 8, dy) is Err);
    lemma_bits_err_sticks(dots, 0, 0, 1, 3, 8, dy);
    assert(spec_fields_read(dots, 8, dy, 1) is Err);
    lemma_fields_err_sticks(dots, 8, dy, 1, 12);
}

} // verus!
