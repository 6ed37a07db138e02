# chip8

A CHIP-8 virtual machine whose instructions are verified with Verus.

- `src/model.rs` — the machine's state as mathematical values (`Chip8View`) and
  the meaning of every instruction (`execute_spec`), of a whole cycle
  (`cycle_spec`) and of the conditions under which they run (`execute_ok`,
  `cycle_ok`).
- `src/chip8.rs` — the machine (`Chip8`): loading the font and a program,
  executing opcodes, cycles, the keypad and the frame buffer, each proved
  against the model.
- `src/laws.rs` — properties proved over the model: call/return, drawing a
  sprite twice, register store/load round trip, decimal digits, font glyph
  addresses, carry and borrow, waiting for a key, and invariants that every
  instruction keeps.
- `app/` — the window (eframe/egui), ROM file reading, keyboard polling and
  wall-clock pacing.
