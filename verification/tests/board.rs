//! The mainboard's routing: what a CPU address reaches, the open bus,
//! the controllers behind their buffers, OUT0's latches, and CIRAM
//! through the cartridge's pins.

use nes_console::board::{cpu_target, ppu_target, Board, Cart, CpuTarget, PpuTarget};
use nes_console::console::Position;
use nes_console::controller::Buttons;

fn pos(line: usize, dot: usize) -> Position {
    Position { line, dot }
}

#[test]
fn each_address_reaches_its_part() {
    assert_eq!(cpu_target(0x0000, false), CpuTarget::Ram);
    assert_eq!(cpu_target(0x1fff, false), CpuTarget::Ram);
    assert_eq!(cpu_target(0x2002, false), CpuTarget::Ppu(2));
    assert_eq!(cpu_target(0x3ffa, false), CpuTarget::Ppu(2));
    assert_eq!(cpu_target(0x4016, false), CpuTarget::Pad1);
    assert_eq!(cpu_target(0x4017, false), CpuTarget::Pad2);
    assert_eq!(cpu_target(0x4015, false), CpuTarget::Apu);
    assert_eq!(cpu_target(0x6000, false), CpuTarget::Cart);
    assert_eq!(cpu_target(0x6001, true), CpuTarget::PrgRam(1));
    assert_eq!(cpu_target(0x8000, true), CpuTarget::Cart);
}

#[test]
fn the_work_ram_is_mirrored_and_the_open_bus_is_the_last_byte() {
    let mut b = Board::new(false);
    assert_eq!(b.write(0x0801, 0x5a, pos(0, 0)), CpuTarget::Ram);
    assert_eq!(b.read(0x0001, None), 0x5a, "2 KiB mirrored through $1FFF");
    assert_eq!(b.read(0x4000, None), 0x5a, "the 2A03's registers leave the open bus");
    assert_eq!(b.read(0x8000, None), 0x5a, "a cartridge that drives nothing leaves it too");
    assert_eq!(b.read(0x8000, Some(0x4c)), 0x4c);
    assert_eq!(b.open_bus, 0x4c);
    assert_eq!((b.reads, b.writes), (4, 1));
    // A look changes nothing.
    assert_eq!(b.peek(0x0001, None), 0x5a);
    assert_eq!(b.peek(0x2002, Some(0x11)), 0x4c, "a register is not read by a look");
    assert_eq!(b.peek(0x8000, Some(0x11)), 0x11);
    assert_eq!(b.reads, 4);
}

#[test]
fn a_test_cartridge_reports_through_its_ram() {
    let mut b = Board::new(true);
    assert_eq!(b.read(0x6000, Some(0x99)), 0, "fitted RAM starts zeroed and answers itself");
    assert_eq!(b.write(0x6004, 0x80, pos(0, 0)), CpuTarget::PrgRam(4));
    assert_eq!(b.read(0x6004, None), 0x80);
    assert_eq!(b.prg_ram.as_ref().unwrap()[4], 0x80);
}

#[test]
fn the_strobe_latches_the_pad_and_records_where() {
    let mut b = Board::new(false);
    b.pads[0].buttons = Buttons { a: true, start: true, ..Default::default() };
    b.write(0x4016, 1, pos(241, 5));
    b.write(0x4016, 0, pos(241, 30));
    assert_eq!(b.latch_positions, vec![(pos(241, 5), pos(241, 30))], "one recorded position per latch");
    // A first, then B, Select, Start: D0 carries the button, the rest the open bus ($40 of $4016).
    b.open_bus = 0x40;
    let reads: Vec<u8> = (0..4).map(|_| b.read(0x4016, None)).collect();
    assert_eq!(reads, vec![0x41, 0x40, 0x40, 0x41]);
    // Writes that leave OUT0 low record nothing.
    b.write(0x4016, 0, pos(0, 0));
    assert_eq!(b.latch_positions.len(), 1);
}

#[test]
fn ciram_is_addressed_by_the_cartridges_a10() {
    assert_eq!(ppu_target(0x2005, false, false, false), PpuTarget::Ciram(0x005));
    assert_eq!(ppu_target(0x2405, false, true, false), PpuTarget::Ciram(0x405));
    assert_eq!(ppu_target(0x6405, false, true, false), PpuTarget::Ciram(0x405), "A14, A15 are not on the bus");
    assert_eq!(ppu_target(0x2405, false, true, true), PpuTarget::Nothing);
    assert_eq!(ppu_target(0x1234, true, false, false), PpuTarget::ChrRam(0x1234));
    assert_eq!(ppu_target(0x1234, false, false, false), PpuTarget::Chr(0x1234));
    let mut c = Cart::new(Some(vec![0u8; 0x2000]), false);
    c.ppu_write(0x2c05, 0x77, (true, false));
    assert_eq!(c.ppu_read(0x2405, (true, false), None), 0x77, "vertical mirroring: $2400 and $2C00 are one");
    assert_eq!(c.ppu_read(0x2405, (true, true), None), 0, "CIRAM held off reads nothing");
    assert_eq!(c.ppu_write(0x0010, 0x3c, (false, false)), PpuTarget::ChrRam(0x10));
    assert_eq!(c.ppu_read(0x0010, (false, false), Some(0xff)), 0x3c, "the board's CHR RAM answers before the cartridge");
    let owned = Cart::new(Some(vec![0u8; 0x2000]), true);
    assert!(owned.chr_ram.is_none(), "a board that banks its own CHR RAM keeps it");
    assert_eq!(owned.ppu_read(0x0010, (false, false), Some(0xff)), 0xff);
}
