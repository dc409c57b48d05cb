# nes_console

The logic of an NES-001 console model, written in Verus: every function
carries a contract and is proved against it, but for the few calls into
std that the library trusts (`String::push`, and std's `{:?}` quoting of
a string in refusal messages), whose contracts are stated, not proved.

- `controller`, `decode`, `latch`, `reset`, `sram`: the glue parts on the
  board (the controller and its 74LS368 buffers, the 74LS139 decoder and
  the 74HC04 gate, the 74LS373 latch, the reset chain, the TMM2115 RAMs).
- `board`: what each CPU and PPU address reaches, the open bus, OUT0's
  latches; the PPU registers and the cartridge are named, not modelled.
- `console`: the power-on alignment, the master half-step clock, where the
  vertical sync begins and which picture a capture hands back.
- `assembler`, `testrom`, `cal`: the test cartridges built in code, the
  calibration cartridge's program, manifest and strip reader.
- `ines`: the iNES container and the board it names.
- `knobs`, `scan`, `text`: the knobs file (a flat TOML subset) and the
  character-level reading and writing it rests on.
- `pad`: a gamepad's layout and the keyboard's keys onto the NES pad, and
  the OR of the two.
- `sound`, `picture`: the WAV and PPM framing.
- `pacing`: when the display's next redraw is due.

`app/` is the command line around the library (reading files and the
environment, the gamepad through gilrs, the floating-point audio stage
and the warm-up curve's gain).
`tests/` runs the library on concrete values.
