//! The mathematical model of the machine: its state as plain sequences and
//! integers, and the meaning of each instruction as a function on that state.
use vstd::prelude::*;

verus! {

/// Width of the display in pixels.
pub const DISPLAY_WIDTH: usize = 64;

/// Height of the display in pixels.
pub const DISPLAY_HEIGHT: usize = 32;

/// Number of pixels of the display (`DISPLAY_WIDTH * DISPLAY_HEIGHT`).
pub const VIDEO_SIZE: usize = 2048;

/// The value of a lit pixel in the frame buffer.
pub const PIXEL_ON: u32 = 0xFFFF_FFFF;

/// Size of the addressable memory in bytes.
pub const MEMORY_SIZE: usize = 4096;

/// Where programs are loaded and where execution starts.
pub const START_ADDRESS: u16 = 0x200;

/// Where the built-in hexadecimal font is stored.
pub const FONTSET_START_ADDRESS: usize = 0x50;

/// Register `VF`, which instructions use as a carry, borrow or collision flag.
pub const FLAG_REGISTER: usize = 0xF;

/// Number of bytes of the built-in font (16 glyphs of 5 bytes).
pub const FONTSET_SIZE: usize = 80;

/// The whole state of the machine as mathematical values.
#[verifier::ext_equal]
pub ghost struct Chip8View {
    pub registers: Seq<u8>,
    pub memory: Seq<u8>,
    pub index: u16,
    pub program_counter: u16,
    pub stack: Seq<u16>,
    pub stack_pointer: u8,
    pub delay_timer: u8,
    pub sound_timer: u8,
    pub keypad: Seq<bool>,
    pub video: Seq<u32>,
}

/// The sequences of a state have the sizes of the machine's arrays.
pub open spec fn well_sized(s: Chip8View) -> bool {
    &&& s.registers.len() == 16
    &&& s.memory.len() == MEMORY_SIZE
    &&& s.stack.len() == 16
    &&& s.keypad.len() == 16
    &&& s.video.len() == VIDEO_SIZE
}

/// The state of a freshly created machine: everything zero, execution at
/// `START_ADDRESS`.
pub open spec fn initial_state() -> Chip8View {
    Chip8View {
        registers: Seq::new(16, |i: int| 0u8),
        memory: Seq::new(MEMORY_SIZE as nat, |i: int| 0u8),
        index: 0,
        program_counter: START_ADDRESS,
        stack: Seq::new(16, |i: int| 0u16),
        stack_pointer: 0,
        delay_timer: 0,
        sound_timer: 0,
        keypad: Seq::new(16, |i: int| false),
        video: Seq::new(VIDEO_SIZE as nat, |i: int| 0u32),
    }
}

/// The glyphs of the hexadecimal digits 0 to F, five bytes each, one byte per
/// row, the leftmost pixel in the most significant bit.
pub open spec fn font_glyphs() -> Seq<u8> {
    seq![
        0xF0u8, 0x90, 0x90, 0x90, 0xF0, // 0
        0x20, 0x60, 0x20, 0x20, 0x70, // 1
        0xF0, 0x10, 0xF0, 0x80, 0xF0, // 2
        0xF0, 0x10, 0xF0, 0x10, 0xF0, // 3
        0x90, 0x90, 0xF0, 0x10, 0x10, // 4
        0xF0, 0x80, 0xF0, 0x10, 0xF0, // 5
        0xF0, 0x80, 0xF0, 0x90, 0xF0, // 6
        0xF0, 0x10, 0x20, 0x40, 0x40, // 7
        0xF0, 0x90, 0xF0, 0x90, 0xF0, // 8
        0xF0, 0x90, 0xF0, 0x10, 0xF0, // 9
        0xF0, 0x90, 0xF0, 0x90, 0x90, // A
        0xE0, 0x90, 0xE0, 0x90, 0xE0, // B
        0xF0, 0x80, 0x80, 0x80, 0xF0, // C
        0xE0, 0x90, 0x90, 0x90, 0xE0, // D
        0xF0, 0x80, 0xF0, 0x80, 0xF0, // E
        0xF0, 0x80, 0xF0, 0x80, 0x80, // F
    ]
}

/// Memory after `bytes` are copied to it from address `start` on; bytes that
/// would fall past the end of memory are dropped.
pub open spec fn copy_into(memory: Seq<u8>, start: int, bytes: Seq<u8>) -> Seq<u8> {
    Seq::new(
        memory.len(),
        |a: int| if start <= a < start + bytes.len() { bytes[a - start] } else { memory[a] },
    )
}

/// Bits 12 to 15 of an opcode: the instruction class.
pub open spec fn op_class(op: u16) -> int {
    op as int / 0x1000
}

/// Bits 8 to 11 of an opcode: the first register operand.
pub open spec fn op_x(op: u16) -> int {
    (op as int / 0x100) % 16
}

/// Bits 4 to 7 of an opcode: the second register operand.
pub open spec fn op_y(op: u16) -> int {
    (op as int / 0x10) % 16
}

/// The low byte of an opcode.
pub open spec fn op_kk(op: u16) -> u8 {
    (op as int % 0x100) as u8
}

/// The low nibble of an opcode.
pub open spec fn op_n(op: u16) -> int {
    op as int % 16
}

/// The low twelve bits of an opcode: an address.
pub open spec fn op_nnn(op: u16) -> u16 {
    (op as int % 0x1000) as u16
}

/// `a + b`, or `u16::MAX` where that does not fit.
pub open spec fn sat_add_u16(a: u16, b: int) -> u16 {
    if a + b > 0xFFFF {
        0xFFFF
    } else {
        (a + b) as u16
    }
}

/// `a - b`, or `0` where that would be negative.
pub open spec fn sat_sub_u16(a: u16, b: int) -> u16 {
    if a - b < 0 {
        0
    } else {
        (a - b) as u16
    }
}

/// The state with the next instruction skipped.
pub open spec fn skip_next(s: Chip8View) -> Chip8View {
    Chip8View { program_counter: sat_add_u16(s.program_counter, 2), ..s }
}

/// The state with register `x` set to `v`.
pub open spec fn with_register(s: Chip8View, x: int, v: u8) -> Chip8View {
    Chip8View { registers: s.registers.update(x, v), ..s }
}

/// `00EE`: return from a subroutine.
pub open spec fn return_spec(s: Chip8View) -> Chip8View {
    let sp = (s.stack_pointer - 1) as u8;
    Chip8View {
        stack_pointer: sp,
        program_counter: if sp < 16 {
            s.stack[sp as int]
        } else {
            s.program_counter
        },
        ..s
    }
}

/// `2nnn`: call the subroutine at `nnn`.
pub open spec fn call_spec(s: Chip8View, nnn: u16) -> Chip8View {
    Chip8View {
        stack: s.stack.update(s.stack_pointer as int, s.program_counter),
        stack_pointer: (s.stack_pointer + 1) as u8,
        program_counter: nnn,
        ..s
    }
}

/// `8xyn`: arithmetic and logic between registers `x` and `y`. Where the
/// operation sets a flag, `VF` is written first and `Vx` after it.
pub open spec fn alu_spec(s: Chip8View, x: int, y: int, n: int) -> Chip8View {
    let vx = s.registers[x];
    let vy = s.registers[y];
    let regs = if n == 0 {
        s.registers.update(x, vy)
    } else if n == 1 {
        s.registers.update(x, vx | vy)
    } else if n == 2 {
        s.registers.update(x, vx & vy)
    } else if n == 3 {
        s.registers.update(x, vx ^ vy)
    } else if n == 4 {
        s.registers.update(15, if vx + vy > 255 { 1u8 } else { 0u8 }).update(
            x,
            ((vx + vy) % 256) as u8,
        )
    } else if n == 5 {
        s.registers.update(15, if vx < vy { 1u8 } else { 0u8 }).update(
            x,
            ((vx - vy) % 256) as u8,
        )
    } else if n == 6 {
        let r = s.registers.update(15, vx % 2);
        r.update(x, r[x] / 2)
    } else if n == 7 {
        s.registers.update(15, if vy < vx { 1u8 } else { 0u8 }).update(
            x,
            ((vy - vx) % 256) as u8,
        )
    } else if n == 0xE {
        let r = s.registers.update(15, vx / 128);
        r.update(x, ((r[x] * 2) % 256) as u8)
    } else {
        s.registers
    };
    Chip8View { registers: regs, ..s }
}

/// The sprite row that pixel `p` falls on, for a sprite drawn at row `y0`.
pub open spec fn draw_row(p: int, y0: int) -> int {
    (p / 64 - y0) % 32
}

/// The sprite column that pixel `p` falls on, for a sprite drawn at column `x0`.
pub open spec fn draw_col(p: int, x0: int) -> int {
    (p % 64 - x0) % 64
}

/// Whether column `col` (0 is the leftmost) of a sprite row byte is set.
pub open spec fn sprite_bit(byte: u8, col: int) -> bool {
    byte & (0x80u8 >> (col as u8)) != 0u8
}

/// Whether pixel `p` of the screen is toggled by the `n`-row sprite at
/// `index`, drawn at column `x0` and row `y0`; the sprite wraps round the
/// screen's edges.
pub open spec fn sprite_covers(s: Chip8View, x0: int, y0: int, n: int, p: int) -> bool {
    let row = draw_row(p, y0);
    let col = draw_col(p, x0);
    row < n && col < 8 && sprite_bit(s.memory[s.index + row], col)
}

/// Whether the sprite turns off a pixel that was lit.
pub open spec fn draw_collides(s: Chip8View, x0: int, y0: int, n: int) -> bool {
    exists|p: int| 0 <= p < VIDEO_SIZE && #[trigger] sprite_covers(s, x0, y0, n, p) && s.video[p] == PIXEL_ON
}

/// `Dxyn`: draw the `n`-row sprite stored at `index` at (`Vx` mod 64,
/// `Vy` mod 32), toggling the pixels it covers; `VF` tells whether a lit
/// pixel was turned off.
pub open spec fn draw_spec(s: Chip8View, x: int, y: int, n: int) -> Chip8View {
    let x0 = (s.registers[x] % 64) as int;
    let y0 = (s.registers[y] % 32) as int;
    Chip8View {
        video: Seq::new(
            s.video.len(),
            |p: int|
                if sprite_covers(s, x0, y0, n, p) {
                    s.video[p] ^ PIXEL_ON
                } else {
                    s.video[p]
                },
        ),
        registers: s.registers.update(
            15,
            if draw_collides(s, x0, y0, n) { 1u8 } else { 0u8 },
        ),
        ..s
    }
}

/// `Ex9E` and `ExA1`: skip the next instruction where key `Vx` is pressed
/// (`9E`) or where it is not (`A1`).
pub open spec fn key_skip_spec(s: Chip8View, x: int, kk: u8) -> Chip8View {
    let pressed = kk == 0x9E;
    if s.keypad[s.registers[x] as int] == pressed {
        skip_next(s)
    } else {
        s
    }
}

/// The lowest pressed key from `i` on, or 16 where none is.
pub open spec fn first_pressed_from(keys: Seq<bool>, i: int) -> int
    decreases 16 - i,
{
    if i >= 16 {
        16
    } else if keys[i] {
        i
    } else {
        first_pressed_from(keys, i + 1)
    }
}

/// The lowest pressed key, or 16 where none is.
pub open spec fn first_pressed(keys: Seq<bool>) -> int {
    first_pressed_from(keys, 0)
}

/// `Fxkk`: timers, keys, the index register, decimal digits, and moving
/// registers to and from memory.
pub open spec fn misc_spec(s: Chip8View, x: int, kk: u8) -> Chip8View {
    let vx = s.registers[x];
    let i = s.index as int;
    if kk == 0x07 {
        with_register(s, x, s.delay_timer)
    } else if kk == 0x0A {
        let k = first_pressed(s.keypad);
        if k < 16 {
            with_register(s, x, k as u8)
        } else {
            Chip8View { program_counter: sat_sub_u16(s.program_counter, 2), ..s }
        }
    } else if kk == 0x15 {
        Chip8View { delay_timer: vx, ..s }
    } else if kk == 0x18 {
        Chip8View { sound_timer: vx, ..s }
    } else if kk == 0x1E {
        Chip8View { index: sat_add_u16(s.index, vx as int), ..s }
    } else if kk == 0x29 {
        Chip8View { index: (FONTSET_START_ADDRESS + 5 * vx) as u16, ..s }
    } else if kk == 0x33 {
        Chip8View {
            memory: s.memory.update(i, vx / 100).update(i + 1, (vx / 10) % 10).update(
                i + 2,
                vx % 10,
            ),
            ..s
        }
    } else if kk == 0x55 {
        Chip8View {
            memory: Seq::new(
                s.memory.len(),
                |a: int|
                    if i <= a <= i + x {
                        s.registers[a - i]
                    } else {
                        s.memory[a]
                    },
            ),
            ..s
        }
    } else if kk == 0x65 {
        Chip8View {
            registers: Seq::new(
                s.registers.len(),
                |r: int|
                    if r <= x {
                        s.memory[i + r]
                    } else {
                        s.registers[r]
                    },
            ),
            ..s
        }
    } else {
        s
    }
}

/// The `Fxkk` low bytes that name an instruction.
pub open spec fn valid_misc(kk: u8) -> bool {
    kk == 0x07 || kk == 0x0A || kk == 0x15 || kk == 0x18 || kk == 0x1E || kk == 0x29 || kk == 0x33
        || kk == 0x55 || kk == 0x65
}

/// The states and opcodes that the machine executes without stopping: a
/// return needs a saved address, a call a free stack slot, a draw and the
/// memory transfers addresses inside memory, a key test a key number below
/// 16, and `Exkk` and `Fxkk` a low byte that names an instruction.
pub open spec fn execute_ok(s: Chip8View, op: u16) -> bool {
    let class = op_class(op);
    let x = op_x(op);
    let kk = op_kk(op);
    &&& op == 0x00EE ==> s.stack_pointer > 0
    &&& class == 0x2 ==> s.stack_pointer < 16
    &&& class == 0xD ==> op_n(op) == 0 || s.index + op_n(op) <= MEMORY_SIZE
    &&& class == 0xE ==> (kk == 0x9E || kk == 0xA1) && s.registers[x] < 16
    &&& class == 0xF ==> valid_misc(kk)
    &&& class == 0xF && kk == 0x33 ==> s.index + 2 < MEMORY_SIZE
    &&& class == 0xF && (kk == 0x55 || kk == 0x65) ==> s.index + x < MEMORY_SIZE
}

/// The state after executing `op`; `rnd` is the random byte that `Cxkk` masks.
pub open spec fn execute_spec(s: Chip8View, op: u16, rnd: u8) -> Chip8View {
    let class = op_class(op);
    let x = op_x(op);
    let y = op_y(op);
    let kk = op_kk(op);
    let nnn = op_nnn(op);
    if class == 0x0 {
        if op == 0x00E0 {
            Chip8View { video: Seq::new(s.video.len(), |p: int| 0u32), ..s }
        } else if op == 0x00EE {
            return_spec(s)
        } else {
            s
        }
    } else if class == 0x1 {
        Chip8View { program_counter: nnn, ..s }
    } else if class == 0x2 {
        call_spec(s, nnn)
    } else if class == 0x3 {
        if s.registers[x] == kk {
            skip_next(s)
        } else {
            s
        }
    } else if class == 0x4 {
        if s.registers[x] != kk {
            skip_next(s)
        } else {
            s
        }
    } else if class == 0x5 {
        if s.registers[x] == s.registers[y] {
            skip_next(s)
        } else {
            s
        }
    } else if class == 0x6 {
        with_register(s, x, kk)
    } else if class == 0x7 {
        with_register(s, x, ((s.registers[x] + kk) % 256) as u8)
    } else if class == 0x8 {
        alu_spec(s, x, y, op_n(op))
    } else if class == 0x9 {
        if s.registers[x] != s.registers[y] {
            skip_next(s)
        } else {
            s
        }
    } else if class == 0xA {
        Chip8View { index: nnn, ..s }
    } else if class == 0xB {
        Chip8View { program_counter: sat_add_u16(nnn, s.registers[0] as int), ..s }
    } else if class == 0xC {
        with_register(s, x, rnd & kk)
    } else if class == 0xD {
        draw_spec(s, x, y, op_n(op))
    } else if class == 0xE {
        key_skip_spec(s, x, kk)
    } else {
        misc_spec(s, x, kk)
    }
}

/// The opcode stored big-endian at the program counter.
pub open spec fn fetch(s: Chip8View) -> u16 {
    (s.memory[s.program_counter as int] * 256 + s.memory[s.program_counter + 1]) as u16
}

/// The state with the program counter moved past the fetched opcode.
pub open spec fn advance(s: Chip8View) -> Chip8View {
    Chip8View { program_counter: sat_add_u16(s.program_counter, 2), ..s }
}

/// Both timers counted down by one where they are above zero.
pub open spec fn tick_timers(s: Chip8View) -> Chip8View {
    Chip8View {
        delay_timer: if s.delay_timer > 0 { (s.delay_timer - 1) as u8 } else { 0 },
        sound_timer: if s.sound_timer > 0 { (s.sound_timer - 1) as u8 } else { 0 },
        ..s
    }
}

/// The states in which one cycle runs without stopping: the opcode lies in
/// memory and can be executed.
pub open spec fn cycle_ok(s: Chip8View) -> bool {
    s.program_counter + 1 < MEMORY_SIZE && execute_ok(advance(s), fetch(s))
}

/// The state after one cycle: fetch, move past the opcode, execute it, count
/// the timers down.
pub open spec fn cycle_spec(s: Chip8View, rnd: u8) -> Chip8View {
    tick_timers(execute_spec(advance(s), fetch(s), rnd))
}

/// The screen position that sprite row `r`, column `c` lands on.
pub open spec fn pixel_at(x0: int, y0: int, r: int, c: int) -> int {
    ((y0 + r) % 32) * 64 + (x0 + c) % 64
}

/// Sprite row `r`, column `c` lands on exactly one pixel, and that pixel's
/// row and column are `r` and `c`.
pub proof fn lemma_pixel_position(x0: int, y0: int, r: int, c: int)
    requires
        0 <= x0 < 64,
        0 <= y0 < 32,
        0 <= r < 16,
        0 <= c < 8,
    ensures
        0 <= pixel_at(x0, y0, r, c) < VIDEO_SIZE,
        draw_row(pixel_at(x0, y0, r, c), y0) == r,
        draw_col(pixel_at(x0, y0, r, c), x0) == c,
        forall|p: int|
            0 <= p < VIDEO_SIZE && draw_row(p, y0) == r && draw_col(p, x0) == c ==> p == pixel_at(
                x0,
                y0,
                r,
                c,
            ),
{
    let yy = (y0 + r) % 32;
    let xx = (x0 + c) % 64;
    let p0 = yy * 64 + xx;
    lemma_pixel_split(p0);
    lemma_pixel_split_unique(p0, yy, xx);
    lemma_wrap_offset_32(yy, y0, r);
    lemma_wrap_offset_64(xx, x0, c);
    assert forall|p: int|
        0 <= p < VIDEO_SIZE && draw_row(p, y0) == r && draw_col(p, x0) == c implies p == p0 by {
        lemma_pixel_split(p);
        lemma_wrap_offset_32(p / 64, y0, r);
        lemma_wrap_offset_64(p % 64, x0, c);
    }
}

/// A pixel number splits into its row and column.
pub proof fn lemma_pixel_split(p: int)
    requires
        0 <= p < VIDEO_SIZE,
    ensures
        p == (p / 64) * 64 + p % 64,
        0 <= p / 64 < 32,
        0 <= p % 64 < 64,
{
}

/// Row and column give back the pixel number.
pub proof fn lemma_pixel_split_unique(p: int, y: int, x: int)
    requires
        p == y * 64 + x,
        0 <= x < 64,
        0 <= y < 32,
    ensures
        p / 64 == y,
        p % 64 == x,
        0 <= p < VIDEO_SIZE,
{
}

/// Offsets round a circle of 32: `a` lies `r` past `b` exactly when `a` is
/// `b + r` wrapped.
pub proof fn lemma_wrap_offset_32(a: int, b: int, r: int)
    requires
        0 <= a < 32,
        0 <= b < 32,
        0 <= r < 32,
    ensures
        ((a - b) % 32 == r) == (a == (b + r) % 32),
{
}

/// Offsets round a circle of 64: `a` lies `r` past `b` exactly when `a` is
/// `b + r` wrapped.
pub proof fn lemma_wrap_offset_64(a: int, b: int, r: int)
    requires
        0 <= a < 64,
        0 <= b < 64,
        0 <= r < 64,
    ensures
        ((a - b) % 64 == r) == (a == (b + r) % 64),
{
}

} // verus!
