//! The NES-001 console's board logic, each part held to a contract: the
//! glue between the two chips and the cartridge edge (the controller
//! shift registers and their buffers, the address decoder, the address
//! latch, the reset chain, the static RAMs), the mainboard's routing of
//! both buses, the scheduler's clock arithmetic, the test and
//! calibration cartridges built in code with their assembler, the
//! calibration strip's reader, the iNES container, the knobs file, the
//! gamepad's layout, and the byte framing of the WAV and PPM files.

pub mod controller;
pub mod decode;
pub mod latch;
pub mod reset;
pub mod sram;
pub mod bytes;
pub mod text;
pub mod scan;
pub mod testrom;
pub mod assembler;
pub mod cal;
pub mod knobs;
pub mod ines;
pub mod console;
pub mod board;
pub mod pad;
pub mod sound;
pub mod picture;
pub mod pacing;
