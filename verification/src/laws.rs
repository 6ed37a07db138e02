//! Properties of the machine that span several instructions or hold in every
//! state, proved over the model that the machine's operations are tied to.
use vstd::prelude::*;
use vstd::arithmetic::div_mod::lemma_fundamental_div_mod_converse;
use crate::model::{
    draw_col, draw_collides, draw_row, first_pressed_from, lemma_pixel_position, pixel_at,
    VIDEO_SIZE,
    advance, copy_into, cycle_spec, execute_ok, execute_spec, fetch, first_pressed, font_glyphs, op_class, op_kk,
    op_n, op_nnn, op_x, op_y, sprite_covers, well_sized, Chip8View,
    FONTSET_START_ADDRESS, MEMORY_SIZE, PIXEL_ON,
};

verus! {

/// Every pixel of the frame buffer is either dark or `PIXEL_ON`.
pub open spec fn video_is_binary(s: Chip8View) -> bool {
    forall|p: int| 0 <= p < s.video.len() ==> #[trigger] s.video[p] == 0 || s.video[p] == PIXEL_ON
}

/// Executing an instruction keeps the sizes of the state's sequences.
pub proof fn lemma_execute_keeps_sizes(s: Chip8View, op: u16, rnd: u8)
    requires
        well_sized(s),
        execute_ok(s, op),
    ensures
        well_sized(execute_spec(s, op, rnd)),
{
}

/// The stack never holds more than its sixteen slots: where the stack
/// pointer is at most 16 before an instruction, it is after it.
pub proof fn lemma_stack_pointer_bounded(s: Chip8View, op: u16, rnd: u8)
    requires
        execute_ok(s, op),
        s.stack_pointer <= 16,
    ensures
        execute_spec(s, op, rnd).stack_pointer <= 16,
{
}

/// The frame buffer only ever holds dark and lit pixels: every instruction
/// keeps it so.
pub proof fn lemma_video_stays_binary(s: Chip8View, op: u16, rnd: u8)
    requires
        well_sized(s),
        video_is_binary(s),
    ensures
        video_is_binary(execute_spec(s, op, rnd)),
{
    let t = execute_spec(s, op, rnd);
    assert forall|p: int| 0 <= p < t.video.len() implies #[trigger] t.video[p] == 0 || t.video[p]
        == PIXEL_ON by {
        let v = s.video[p];
        assert(v == 0 || v == PIXEL_ON);
        assert((v == 0u32 || v == 0xFFFF_FFFFu32) ==> ((v ^ 0xFFFF_FFFFu32) == 0u32 || (v
            ^ 0xFFFF_FFFFu32) == 0xFFFF_FFFFu32)) by (bit_vector);
    }
}

/// A full cycle keeps the frame buffer made of dark and lit pixels.
pub proof fn lemma_cycle_keeps_video_binary(s: Chip8View, rnd: u8)
    requires
        well_sized(s),
        video_is_binary(s),
    ensures
        video_is_binary(cycle_spec(s, rnd)),
{
    lemma_video_stays_binary(advance(s), fetch(s), rnd);
}

/// A call followed by a return comes back to where the call was made, with
/// the stack pointer as before; only the stack slot that held the return
/// address has changed.
pub proof fn lemma_call_then_return(s: Chip8View, call: u16, rnd1: u8, rnd2: u8)
    requires
        well_sized(s),
        op_class(call) == 0x2,
        s.stack_pointer < 16,
    ensures
        execute_ok(execute_spec(s, call, rnd1), 0x00EE),
        execute_spec(execute_spec(s, call, rnd1), 0x00EE, rnd2) == (Chip8View {
            stack: s.stack.update(s.stack_pointer as int, s.program_counter),
            ..s
        }),
{
    let t = execute_spec(execute_spec(s, call, rnd1), 0x00EE, rnd2);
    assert(t.stack =~= s.stack.update(s.stack_pointer as int, s.program_counter));
}

/// Drawing the same sprite twice at the same place leaves the screen as it
/// was, where neither coordinate register is `VF` (which the first draw
/// overwrites).
pub proof fn lemma_draw_twice_restores_video(s: Chip8View, op: u16, rnd1: u8, rnd2: u8)
    requires
        well_sized(s),
        op_class(op) == 0xD,
        op_x(op) != 15,
        op_y(op) != 15,
    ensures
        execute_spec(execute_spec(s, op, rnd1), op, rnd2).video == s.video,
{
    let t1 = execute_spec(s, op, rnd1);
    let t2 = execute_spec(t1, op, rnd2);
    let x0 = (s.registers[op_x(op)] % 64) as int;
    let y0 = (s.registers[op_y(op)] % 32) as int;
    let n = op_n(op);
    assert(t1.registers[op_x(op)] == s.registers[op_x(op)]);
    assert(t1.registers[op_y(op)] == s.registers[op_y(op)]);
    assert forall|p: int| 0 <= p < s.video.len() implies #[trigger] t2.video[p] == s.video[p] by {
        let v = s.video[p];
        assert((v ^ 0xFFFF_FFFFu32) ^ 0xFFFF_FFFFu32 == v) by (bit_vector);
        assert(sprite_covers(t1, x0, y0, n, p) == sprite_covers(s, x0, y0, n, p));
    }
    assert(t2.video =~= s.video);
}

/// Storing registers `V0` to `Vx` and loading them back from the same
/// place leaves the registers as they were, and memory holds them.
pub proof fn lemma_store_then_load_registers(s: Chip8View, x: u16, rnd1: u8, rnd2: u8)
    requires
        well_sized(s),
        x < 16,
        s.index + x < MEMORY_SIZE,
    ensures
        ({
            let store = (0xF055 + x * 0x100) as u16;
            let load = (0xF065 + x * 0x100) as u16;
            let t1 = execute_spec(s, store, rnd1);
            &&& execute_ok(s, store)
            &&& execute_ok(t1, load)
            &&& execute_spec(t1, load, rnd2) == t1
            &&& forall|i: int| 0 <= i <= x ==> #[trigger] t1.memory[s.index + i] == s.registers[i]
        }),
{
    let store = (0xF055 + x * 0x100) as u16;
    let load = (0xF065 + x * 0x100) as u16;
    assert(op_class(store) == 0xF && op_x(store) == x && op_kk(store) == 0x55);
    assert(op_class(load) == 0xF && op_x(load) == x && op_kk(load) == 0x65);
    let t1 = execute_spec(s, store, rnd1);
    let t2 = execute_spec(t1, load, rnd2);
    assert(t2.registers =~= t1.registers);
}

/// The decimal digits that `Fx33` stores are digits and make up `Vx`.
pub proof fn lemma_decimal_digits(s: Chip8View, x: u16, rnd: u8)
    requires
        well_sized(s),
        x < 16,
        s.index + 2 < MEMORY_SIZE,
    ensures
        ({
            let op = (0xF033 + x * 0x100) as u16;
            let t = execute_spec(s, op, rnd);
            let i = s.index as int;
            &&& execute_ok(s, op)
            &&& t.memory[i] < 10 && t.memory[i + 1] < 10 && t.memory[i + 2] < 10
            &&& 100 * t.memory[i] + 10 * t.memory[i + 1] + t.memory[i + 2] == s.registers[x as int]
        }),
{
    let op = (0xF033 + x * 0x100) as u16;
    assert(op_class(op) == 0xF && op_x(op) == x && op_kk(op) == 0x33);
}

/// With the font loaded, `Fx29` points the index register at the five-byte
/// glyph of digit `Vx`.
pub proof fn lemma_font_glyph_address(s: Chip8View, x: u16, rnd: u8)
    requires
        well_sized(s),
        x < 16,
        s.registers[x as int] < 16,
        forall|k: int| 0 <= k < 80 ==> #[trigger] s.memory[FONTSET_START_ADDRESS + k] == font_glyphs()[k],
    ensures
        ({
            let op = (0xF029 + x * 0x100) as u16;
            let t = execute_spec(s, op, rnd);
            let d = s.registers[x as int] as int;
            &&& execute_ok(s, op)
            &&& forall|k: int|
                0 <= k < 5 ==> #[trigger] t.memory[t.index + k] == font_glyphs()[5 * d + k]
        }),
{
    let op = (0xF029 + x * 0x100) as u16;
    assert(op_class(op) == 0xF && op_x(op) == x && op_kk(op) == 0x29);
    let t = execute_spec(s, op, rnd);
    let d = s.registers[x as int] as int;
    assert(t.index == FONTSET_START_ADDRESS + 5 * d);
    assert forall|k: int| 0 <= k < 5 implies #[trigger] t.memory[t.index + k] == font_glyphs()[5
        * d + k] by {
        assert(s.memory[FONTSET_START_ADDRESS + (5 * d + k)] == font_glyphs()[5 * d + k]);
    }
}

/// `8xy4` adds with carry: `VF` is the carry out and `Vx` the sum modulo
/// 256, where `x` is not `F`.
pub proof fn lemma_add_with_carry(s: Chip8View, x: u16, y: u16, rnd: u8)
    requires
        well_sized(s),
        x < 15,
        y < 16,
    ensures
        ({
            let t = execute_spec(s, (0x8004 + x * 0x100 + y * 0x10) as u16, rnd);
            &&& 256 * t.registers[15] + t.registers[x as int] == s.registers[x as int] + s.registers[y as int]
            &&& other_registers_kept(s, t, x as int)
            &&& same_but_registers(s, t)
        }),
{
    let op = (0x8004 + x * 0x100 + y * 0x10) as u16;
    assert(op_class(op) == 0x8 && op_x(op) == x && op_y(op) == y && op_n(op) == 4);
}

/// `8xy5` subtracts with borrow: `VF` is the borrow and `Vx` the difference
/// modulo 256, where `x` is not `F`.
pub proof fn lemma_sub_with_borrow(s: Chip8View, x: u16, y: u16, rnd: u8)
    requires
        well_sized(s),
        x < 15,
        y < 16,
    ensures
        ({
            let t = execute_spec(s, (0x8005 + x * 0x100 + y * 0x10) as u16, rnd);
            &&& t.registers[x as int] - 256 * t.registers[15] == s.registers[x as int] - s.registers[y as int]
            &&& other_registers_kept(s, t, x as int)
            &&& same_but_registers(s, t)
        }),
{
    let op = (0x8005 + x * 0x100 + y * 0x10) as u16;
    assert(op_class(op) == 0x8 && op_x(op) == x && op_y(op) == y && op_n(op) == 5);
}

/// Waiting for a key with no key pressed leaves the program counter where
/// it was, so the same instruction runs again on the next cycle.
pub proof fn lemma_wait_for_key_repeats(s: Chip8View, rnd: u8)
    requires
        well_sized(s),
        2 <= s.program_counter,
        s.program_counter + 1 < MEMORY_SIZE,
        op_class(fetch(s)) == 0xF,
        op_kk(fetch(s)) == 0x0A,
        first_pressed(s.keypad) == 16,
    ensures
        cycle_spec(s, rnd).program_counter == s.program_counter,
{
}

/// The opcode of class `class` with register fields `x`, `y` and low
/// nibble `n`.
pub open spec fn opcode_xyn(class: int, x: int, y: int, n: int) -> u16 {
    (class * 0x1000 + x * 0x100 + y * 0x10 + n) as u16
}

/// The opcode of class `class` with register field `x` and low byte `kk`.
pub open spec fn opcode_xkk(class: int, x: int, kk: u8) -> u16 {
    (class * 0x1000 + x * 0x100 + kk) as u16
}

/// The opcode of class `class` with address field `nnn`.
pub open spec fn opcode_nnn(class: int, nnn: u16) -> u16 {
    (class * 0x1000 + nnn) as u16
}

/// `s` and `t` agree on everything but the program counter.
pub open spec fn same_but_pc(s: Chip8View, t: Chip8View) -> bool {
    Chip8View { program_counter: s.program_counter, ..t } =~= s
}

/// `s` and `t` agree on everything but the registers.
pub open spec fn same_but_registers(s: Chip8View, t: Chip8View) -> bool {
    Chip8View { registers: s.registers, ..t } =~= s
}

/// `s` and `t` agree on every register but `Vx` and `VF`.
pub open spec fn other_registers_kept(s: Chip8View, t: Chip8View, x: int) -> bool {
    forall|i: int| 0 <= i < 16 && i != x && i != 15 ==> #[trigger] t.registers[i] == s.registers[i]
}

/// `a + b`, capped at `0xFFFF`.
pub open spec fn capped_sum(a: int, b: int) -> int {
    if a + b > 0xFFFF {
        0xFFFF
    } else {
        a + b
    }
}

proof fn lemma_opcode_xyn_fields(class: int, x: int, y: int, n: int)
    requires
        0 <= class < 16,
        0 <= x < 16,
        0 <= y < 16,
        0 <= n < 16,
    ensures
        op_class(opcode_xyn(class, x, y, n)) == class,
        op_x(opcode_xyn(class, x, y, n)) == x,
        op_y(opcode_xyn(class, x, y, n)) == y,
        op_n(opcode_xyn(class, x, y, n)) == n,
        op_kk(opcode_xyn(class, x, y, n)) == y * 16 + n,
{
    let v = class * 0x1000 + x * 0x100 + y * 0x10 + n;
    assert(0 <= v < 0x10000);
    assert(opcode_xyn(class, x, y, n) as int == v);
    lemma_fundamental_div_mod_converse(v, 0x1000, class, x * 0x100 + y * 0x10 + n);
    lemma_fundamental_div_mod_converse(v, 0x100, class * 16 + x, y * 0x10 + n);
    lemma_fundamental_div_mod_converse(class * 16 + x, 16, class, x);
    lemma_fundamental_div_mod_converse(v, 0x10, class * 0x100 + x * 16 + y, n);
    lemma_fundamental_div_mod_converse(class * 0x100 + x * 16 + y, 16, class * 16 + x, y);
}

proof fn lemma_opcode_xkk_fields(class: int, x: int, kk: u8)
    requires
        0 <= class < 16,
        0 <= x < 16,
    ensures
        op_class(opcode_xkk(class, x, kk)) == class,
        op_x(opcode_xkk(class, x, kk)) == x,
        op_kk(opcode_xkk(class, x, kk)) == kk,
{
    let v = class * 0x1000 + x * 0x100 + kk;
    assert(opcode_xkk(class, x, kk) as int == v);
    lemma_fundamental_div_mod_converse(v, 0x1000, class, x * 0x100 + kk);
    lemma_fundamental_div_mod_converse(v, 0x100, class * 16 + x, kk as int);
    lemma_fundamental_div_mod_converse(class * 16 + x, 16, class, x);
}

proof fn lemma_opcode_nnn_fields(class: int, nnn: u16)
    requires
        0 <= class < 16,
        nnn < 0x1000,
    ensures
        op_class(opcode_nnn(class, nnn)) == class,
        op_nnn(opcode_nnn(class, nnn)) == nnn,
{
    let v = class * 0x1000 + nnn;
    assert(opcode_nnn(class, nnn) as int == v);
    lemma_fundamental_div_mod_converse(v, 0x1000, class, nnn as int);
}

/// `00E0` darkens every pixel and changes nothing else.
pub proof fn lemma_clear_screen(s: Chip8View, rnd: u8)
    requires
        well_sized(s),
    ensures
        ({
            let t = execute_spec(s, 0x00E0, rnd);
            &&& forall|p: int| 0 <= p < VIDEO_SIZE ==> #[trigger] t.video[p] == 0
            &&& t.video.len() == VIDEO_SIZE
            &&& Chip8View { video: s.video, ..t } =~= s
        }),
{
}

/// `00EE` pops the top return address into the program counter.
pub proof fn lemma_return_pops(s: Chip8View, rnd: u8)
    requires
        well_sized(s),
        0 < s.stack_pointer <= 16,
    ensures
        ({
            let t = execute_spec(s, 0x00EE, rnd);
            &&& t.stack_pointer == s.stack_pointer - 1
            &&& t.program_counter == s.stack[s.stack_pointer - 1]
            &&& Chip8View { stack_pointer: s.stack_pointer, program_counter: s.program_counter, ..t }
                =~= s
        }),
{
}

/// `1nnn` jumps to `nnn`; `2nnn` pushes the program counter and jumps to
/// `nnn`; `Annn` loads `nnn` into the index; `Bnnn` jumps to `V0 + nnn`,
/// capped at `0xFFFF`.
pub proof fn lemma_address_instructions(s: Chip8View, nnn: u16, rnd: u8)
    requires
        well_sized(s),
        nnn < 0x1000,
    ensures
        ({
            let jump = execute_spec(s, opcode_nnn(1, nnn), rnd);
            jump.program_counter == nnn && same_but_pc(s, jump)
        }),
        s.stack_pointer < 16 ==> ({
            let call = execute_spec(s, opcode_nnn(2, nnn), rnd);
            &&& call.program_counter == nnn
            &&& call.stack_pointer == s.stack_pointer + 1
            &&& call.stack[s.stack_pointer as int] == s.program_counter
            &&& forall|i: int| 0 <= i < 16 && i != s.stack_pointer ==> #[trigger] call.stack[i] == s.stack[i]
            &&& call.stack.len() == 16
        }),
        ({
            let load = execute_spec(s, opcode_nnn(0xA, nnn), rnd);
            load.index == nnn && Chip8View { index: s.index, ..load } =~= s
        }),
        ({
            let jump = execute_spec(s, opcode_nnn(0xB, nnn), rnd);
            jump.program_counter == capped_sum(s.registers[0] as int, nnn as int) && same_but_pc(
                s,
                jump,
            )
        }),
{
    lemma_opcode_nnn_fields(1, nnn);
    lemma_opcode_nnn_fields(2, nnn);
    lemma_opcode_nnn_fields(0xA, nnn);
    lemma_opcode_nnn_fields(0xB, nnn);
}

/// The conditional skips: `3xkk` skips exactly when `Vx == kk`, `4xkk`
/// exactly when `Vx != kk`, `5xy0` exactly when `Vx == Vy`, `9xy0` exactly
/// when `Vx != Vy`. A skip adds 2 to the program counter (capped at
/// `0xFFFF`); nothing else changes.
pub proof fn lemma_skips(s: Chip8View, x: int, y: int, kk: u8, rnd: u8)
    requires
        well_sized(s),
        0 <= x < 16,
        0 <= y < 16,
    ensures
        ({
            let pc = s.program_counter as int;
            let t3 = execute_spec(s, opcode_xkk(3, x, kk), rnd);
            let t4 = execute_spec(s, opcode_xkk(4, x, kk), rnd);
            let t5 = execute_spec(s, opcode_xyn(5, x, y, 0), rnd);
            let t9 = execute_spec(s, opcode_xyn(9, x, y, 0), rnd);
            &&& t3.program_counter == if s.registers[x] == kk { capped_sum(pc, 2) } else { pc }
            &&& t4.program_counter == if s.registers[x] != kk { capped_sum(pc, 2) } else { pc }
            &&& t5.program_counter == if s.registers[x] == s.registers[y] { capped_sum(pc, 2) } else { pc }
            &&& t9.program_counter == if s.registers[x] != s.registers[y] { capped_sum(pc, 2) } else { pc }
            &&& same_but_pc(s, t3) && same_but_pc(s, t4) && same_but_pc(s, t5) && same_but_pc(s, t9)
        }),
{
    lemma_opcode_xkk_fields(3, x, kk);
    lemma_opcode_xkk_fields(4, x, kk);
    lemma_opcode_xyn_fields(5, x, y, 0);
    lemma_opcode_xyn_fields(9, x, y, 0);
}

/// `Ex9E` skips exactly when key `Vx` is pressed, `ExA1` exactly when it is
/// not; nothing else changes.
pub proof fn lemma_key_skips(s: Chip8View, x: int, rnd: u8)
    requires
        well_sized(s),
        0 <= x < 16,
        s.registers[x] < 16,
    ensures
        ({
            let pc = s.program_counter as int;
            let pressed = s.keypad[s.registers[x] as int];
            let down = execute_spec(s, opcode_xkk(0xE, x, 0x9E), rnd);
            let up = execute_spec(s, opcode_xkk(0xE, x, 0xA1), rnd);
            &&& down.program_counter == if pressed { capped_sum(pc, 2) } else { pc }
            &&& up.program_counter == if !pressed { capped_sum(pc, 2) } else { pc }
            &&& same_but_pc(s, down) && same_but_pc(s, up)
        }),
{
    lemma_opcode_xkk_fields(0xE, x, 0x9E);
    lemma_opcode_xkk_fields(0xE, x, 0xA1);
}

/// `6xkk` sets `Vx` to `kk`; `7xkk` adds `kk` to `Vx` modulo 256 without
/// touching `VF`; `Cxkk` sets `Vx` to the random byte masked by `kk`, so no
/// bit outside `kk` is set. Only `Vx` changes.
pub proof fn lemma_byte_instructions(s: Chip8View, x: int, kk: u8, rnd: u8)
    requires
        well_sized(s),
        0 <= x < 16,
    ensures
        ({
            let t6 = execute_spec(s, opcode_xkk(6, x, kk), rnd);
            let t7 = execute_spec(s, opcode_xkk(7, x, kk), rnd);
            let tc = execute_spec(s, opcode_xkk(0xC, x, kk), rnd);
            &&& t6.registers[x] == kk
            &&& t7.registers[x] == (s.registers[x] + kk) % 256
            &&& tc.registers[x] == rnd & kk
            &&& tc.registers[x] & !kk == 0
            &&& forall|i: int| 0 <= i < 16 && i != x ==> #[trigger] t6.registers[i] == s.registers[i]
                && t7.registers[i] == s.registers[i] && tc.registers[i] == s.registers[i]
            &&& t6.registers.len() == 16 && t7.registers.len() == 16 && tc.registers.len() == 16
            &&& same_but_registers(s, t6) && same_but_registers(s, t7) && same_but_registers(s, tc)
        }),
{
    lemma_opcode_xkk_fields(6, x, kk);
    lemma_opcode_xkk_fields(7, x, kk);
    lemma_opcode_xkk_fields(0xC, x, kk);
    let v = rnd & kk;
    assert((rnd & kk) & !kk == 0) by (bit_vector);
}

/// `8xy0` to `8xy3` copy, or, and and exclusive-or `Vy` into `Vx`, leaving
/// every other register, `VF` included, as it was.
pub proof fn lemma_register_logic(s: Chip8View, x: int, y: int, rnd: u8)
    requires
        well_sized(s),
        0 <= x < 16,
        0 <= y < 16,
    ensures
        ({
            let vx = s.registers[x];
            let vy = s.registers[y];
            let t0 = execute_spec(s, opcode_xyn(8, x, y, 0), rnd);
            let t1 = execute_spec(s, opcode_xyn(8, x, y, 1), rnd);
            let t2 = execute_spec(s, opcode_xyn(8, x, y, 2), rnd);
            let t3 = execute_spec(s, opcode_xyn(8, x, y, 3), rnd);
            &&& t0.registers[x] == vy
            &&& t1.registers[x] == vx | vy
            &&& t2.registers[x] == vx & vy
            &&& t3.registers[x] == vx ^ vy
            &&& forall|i: int| 0 <= i < 16 && i != x ==> #[trigger] t0.registers[i] == s.registers[i]
                && t1.registers[i] == s.registers[i] && t2.registers[i] == s.registers[i]
                && t3.registers[i] == s.registers[i]
            &&& same_but_registers(s, t0) && same_but_registers(s, t1)
            &&& same_but_registers(s, t2) && same_but_registers(s, t3)
        }),
{
    lemma_opcode_xyn_fields(8, x, y, 0);
    lemma_opcode_xyn_fields(8, x, y, 1);
    lemma_opcode_xyn_fields(8, x, y, 2);
    lemma_opcode_xyn_fields(8, x, y, 3);
}

/// `8xy6` shifts `Vx` right: `VF` is the bit shifted out (the low bit) and
/// `2 * Vx + VF` gives the old `Vx` back. `8xyE` shifts left: `VF` is the
/// bit shifted out (the high bit) and `Vx + 256 * VF` is twice the old `Vx`.
/// For `x == F` the shifted value wins. No other register changes.
pub proof fn lemma_shifts(s: Chip8View, x: int, y: int, rnd: u8)
    requires
        well_sized(s),
        0 <= x < 16,
        0 <= y < 16,
    ensures
        ({
            let vx = s.registers[x];
            let r = execute_spec(s, opcode_xyn(8, x, y, 6), rnd);
            let l = execute_spec(s, opcode_xyn(8, x, y, 0xE), rnd);
            &&& x != 15 ==> r.registers[15] == vx % 2 && 2 * r.registers[x] + r.registers[15] == vx
            &&& x != 15 ==> l.registers[15] == (if vx >= 128 { 1int } else { 0int })
                && l.registers[x] + 256 * l.registers[15] == 2 * vx
            &&& x == 15 ==> r.registers[15] == 0 && l.registers[15] == (2 * (vx / 128)) % 256
            &&& other_registers_kept(s, r, x) && other_registers_kept(s, l, x)
            &&& same_but_registers(s, r) && same_but_registers(s, l)
        }),
{
    lemma_opcode_xyn_fields(8, x, y, 6);
    lemma_opcode_xyn_fields(8, x, y, 0xE);
}

/// `8xy7` sets `Vx` to `Vy - Vx` modulo 256 with `VF` the borrow, where
/// `x` is not `F`; no other register changes.
pub proof fn lemma_reverse_subtract(s: Chip8View, x: int, y: int, rnd: u8)
    requires
        well_sized(s),
        0 <= x < 15,
        0 <= y < 16,
    ensures
        ({
            let t = execute_spec(s, opcode_xyn(8, x, y, 7), rnd);
            &&& t.registers[x] - 256 * t.registers[15] == s.registers[y] - s.registers[x]
            &&& t.registers[15] == (if s.registers[y] < s.registers[x] { 1int } else { 0int })
            &&& other_registers_kept(s, t, x)
            &&& same_but_registers(s, t)
        }),
{
    lemma_opcode_xyn_fields(8, x, y, 7);
}

/// The timers: `Fx07` copies the delay timer into `Vx`; `Fx15` sets the
/// delay timer and `Fx18` the sound timer to `Vx`, each leaving the other
/// timer and the registers alone.
pub proof fn lemma_timer_instructions(s: Chip8View, x: int, rnd: u8)
    requires
        well_sized(s),
        0 <= x < 16,
    ensures
        ({
            let read = execute_spec(s, opcode_xkk(0xF, x, 0x07), rnd);
            let set_delay = execute_spec(s, opcode_xkk(0xF, x, 0x15), rnd);
            let set_sound = execute_spec(s, opcode_xkk(0xF, x, 0x18), rnd);
            &&& read.registers[x] == s.delay_timer
            &&& forall|i: int| 0 <= i < 16 && i != x ==> #[trigger] read.registers[i] == s.registers[i]
            &&& same_but_registers(s, read)
            &&& set_delay.delay_timer == s.registers[x]
            &&& Chip8View { delay_timer: s.delay_timer, ..set_delay } =~= s
            &&& set_sound.sound_timer == s.registers[x]
            &&& Chip8View { sound_timer: s.sound_timer, ..set_sound } =~= s
        }),
{
    lemma_opcode_xkk_fields(0xF, x, 0x07);
    lemma_opcode_xkk_fields(0xF, x, 0x15);
    lemma_opcode_xkk_fields(0xF, x, 0x18);
}

/// `Fx1E` adds `Vx` to the index, capped at `0xFFFF`.
pub proof fn lemma_add_to_index(s: Chip8View, x: int, rnd: u8)
    requires
        well_sized(s),
        0 <= x < 16,
    ensures
        ({
            let t = execute_spec(s, opcode_xkk(0xF, x, 0x1E), rnd);
            t.index == capped_sum(s.index as int, s.registers[x] as int) && Chip8View {
                index: s.index,
                ..t
            } =~= s
        }),
{
    lemma_opcode_xkk_fields(0xF, x, 0x1E);
}

/// `Fx55` writes `V0..Vx` to memory from the index on and leaves every
/// other address alone; `Fx65` reads `V0..Vx` from there and leaves the
/// other registers alone.
pub proof fn lemma_register_transfers(s: Chip8View, x: int, rnd: u8)
    requires
        well_sized(s),
        0 <= x < 16,
        s.index + x < MEMORY_SIZE,
    ensures
        ({
            let i = s.index as int;
            let store = execute_spec(s, opcode_xkk(0xF, x, 0x55), rnd);
            let load = execute_spec(s, opcode_xkk(0xF, x, 0x65), rnd);
            &&& forall|k: int| 0 <= k <= x ==> #[trigger] store.memory[i + k] == s.registers[k]
            &&& forall|a: int| 0 <= a < MEMORY_SIZE && !(i <= a <= i + x) ==> #[trigger] store.memory[a]
                == s.memory[a]
            &&& store.memory.len() == MEMORY_SIZE
            &&& Chip8View { memory: s.memory, ..store } =~= s
            &&& forall|k: int| 0 <= k <= x ==> #[trigger] load.registers[k] == s.memory[i + k]
            &&& forall|k: int| x < k < 16 ==> #[trigger] load.registers[k] == s.registers[k]
            &&& load.registers.len() == 16
            &&& same_but_registers(s, load)
        }),
{
    lemma_opcode_xkk_fields(0xF, x, 0x55);
    lemma_opcode_xkk_fields(0xF, x, 0x65);
}

/// `Fx0A` waits for a key: with some key pressed, `Vx` becomes the lowest
/// pressed key and the program counter stays; with none pressed, the
/// program counter steps back 2 (not below 0) so the instruction runs again,
/// and the registers stay.
pub proof fn lemma_wait_for_key(s: Chip8View, x: int, rnd: u8)
    requires
        well_sized(s),
        0 <= x < 16,
    ensures
        ({
            let t = execute_spec(s, opcode_xkk(0xF, x, 0x0A), rnd);
            &&& forall|k: int|
                0 <= k < 16 && #[trigger] s.keypad[k] && (forall|j: int| 0 <= j < k ==> !s.keypad[j])
                    ==> t.registers[x] == k && t.program_counter == s.program_counter
                    && same_but_registers(s, t)
            &&& (forall|k: int| 0 <= k < 16 ==> !#[trigger] s.keypad[k]) ==> t.program_counter == (
                if s.program_counter >= 2 { s.program_counter - 2 } else { 0 }) && same_but_pc(s, t)
        }),
{
    lemma_opcode_xkk_fields(0xF, x, 0x0A);
    let t = execute_spec(s, opcode_xkk(0xF, x, 0x0A), rnd);
    assert forall|k: int|
        0 <= k < 16 && #[trigger] s.keypad[k] && (forall|j: int| 0 <= j < k ==> !s.keypad[j])
        implies t.registers[x] == k && t.program_counter == s.program_counter && same_but_registers(
        s,
        t,
    ) by {
        lemma_first_pressed_is_lowest(s.keypad, 0, k);
    }
    if forall|k: int| 0 <= k < 16 ==> !#[trigger] s.keypad[k] {
        lemma_first_pressed_none(s.keypad, 0);
    }
}

/// Scanning from `i`, the first pressed key is `k` where `k` is pressed and
/// nothing between `i` and `k` is.
proof fn lemma_first_pressed_is_lowest(keys: Seq<bool>, i: int, k: int)
    requires
        0 <= i <= k < 16,
        keys[k],
        forall|j: int| 0 <= j < k ==> !keys[j],
    ensures
        first_pressed_from(keys, i) == k,
    decreases k - i,
{
    if i < k {
        lemma_first_pressed_is_lowest(keys, i + 1, k);
    }
}

/// Scanning from `i` with no key pressed finds none.
proof fn lemma_first_pressed_none(keys: Seq<bool>, i: int)
    requires
        0 <= i <= 16,
        forall|j: int| 0 <= j < 16 ==> !keys[j],
    ensures
        first_pressed_from(keys, i) == 16,
    decreases 16 - i,
{
    if i < 16 {
        lemma_first_pressed_none(keys, i + 1);
    }
}

/// The screen pixel that sprite row `row`, column `col` lands on when the
/// sprite is drawn at column `x0`, row `y0`, wrapping round the edges.
pub open spec fn sprite_pixel(x0: int, y0: int, row: int, col: int) -> int {
    ((y0 + row) % 32) * 64 + (x0 + col) % 64
}

/// `Dxyn` draws the `n`-row sprite stored at the index, at column `Vx mod
/// 64` and row `Vy mod 32`: the pixel under each set sprite bit (bit `7 -
/// col` of byte `row`) is toggled, the pixel under each clear bit and every
/// pixel outside the sprite keeps its value, and `VF` is 1 exactly when
/// some lit pixel was turned off and 0 otherwise, whatever it held before.
/// Only `VF` and the screen change.
pub proof fn lemma_draw(s: Chip8View, x: int, y: int, n: int, rnd: u8)
    requires
        well_sized(s),
        0 <= x < 16,
        0 <= y < 16,
        0 <= n < 16,
        n == 0 || s.index + n <= MEMORY_SIZE,
    ensures
        ({
            let t = execute_spec(s, opcode_xyn(0xD, x, y, n), rnd);
            let x0 = (s.registers[x] % 64) as int;
            let y0 = (s.registers[y] % 32) as int;
            &&& forall|row: int, col: int|
                0 <= row < n && 0 <= col < 8 ==> #[trigger] t.video[sprite_pixel(x0, y0, row, col)]
                    == if (s.memory[s.index + row] >> ((7 - col) as u8)) & 1 == 1 {
                    s.video[sprite_pixel(x0, y0, row, col)] ^ PIXEL_ON
                } else {
                    s.video[sprite_pixel(x0, y0, row, col)]
                }
            &&& forall|p: int|
                0 <= p < VIDEO_SIZE && (forall|row: int, col: int|
                    0 <= row < n && 0 <= col < 8 ==> p != #[trigger] sprite_pixel(x0, y0, row, col))
                    ==> #[trigger] t.video[p] == s.video[p]
            &&& t.registers[15] == (if exists|p: int|
                0 <= p < VIDEO_SIZE && #[trigger] s.video[p] == PIXEL_ON && t.video[p] != PIXEL_ON {
                1int
            } else {
                0int
            })
            &&& t.video.len() == VIDEO_SIZE
            &&& forall|i: int| 0 <= i < 15 ==> #[trigger] t.registers[i] == s.registers[i]
            &&& Chip8View { video: s.video, registers: s.registers, ..t } =~= s
        }),
{
    lemma_opcode_xyn_fields(0xD, x, y, n);
    let op = opcode_xyn(0xD, x, y, n);
    let t = execute_spec(s, op, rnd);
    let x0 = (s.registers[x] % 64) as int;
    let y0 = (s.registers[y] % 32) as int;
    assert forall|row: int, col: int| 0 <= row < n && 0 <= col < 8 implies #[trigger] t.video[sprite_pixel(
        x0,
        y0,
        row,
        col,
    )] == if (s.memory[s.index + row] >> ((7 - col) as u8)) & 1 == 1 {
        s.video[sprite_pixel(x0, y0, row, col)] ^ PIXEL_ON
    } else {
        s.video[sprite_pixel(x0, y0, row, col)]
    } by {
        lemma_pixel_position(x0, y0, row, col);
        assert(pixel_at(x0, y0, row, col) == sprite_pixel(x0, y0, row, col));
        let b = s.memory[s.index + row];
        let c = col as u8;
        assert(c < 8 ==> ((b & (0x80u8 >> c)) != 0u8) == ((b >> (7 - c) as u8) & 1 == 1)) by (bit_vector);
    }
    assert forall|p: int|
        0 <= p < VIDEO_SIZE && (forall|row: int, col: int|
            0 <= row < n && 0 <= col < 8 ==> p != #[trigger] sprite_pixel(x0, y0, row, col))
        implies #[trigger] t.video[p] == s.video[p] by {
        if sprite_covers(s, x0, y0, n, p) {
            let row = draw_row(p, y0);
            let col = draw_col(p, x0);
            lemma_pixel_position(x0, y0, row, col);
            assert(p != sprite_pixel(x0, y0, row, col));
        }
    }
    // A lit pixel is turned off exactly where the sprite covers it.
    assert forall|p: int| 0 <= p < VIDEO_SIZE implies ((s.video[p] == PIXEL_ON && t.video[p]
        != PIXEL_ON) == (sprite_covers(s, x0, y0, n, p) && s.video[p] == PIXEL_ON)) by {
        let v = s.video[p];
        assert(v == 0xFFFF_FFFFu32 ==> v ^ 0xFFFF_FFFFu32 != 0xFFFF_FFFFu32) by (bit_vector);
    }
    if draw_collides(s, x0, y0, n) {
        let q = choose|q: int|
            0 <= q < VIDEO_SIZE && #[trigger] sprite_covers(s, x0, y0, n, q) && s.video[q] == PIXEL_ON;
        assert(s.video[q] == PIXEL_ON && t.video[q] != PIXEL_ON);
    }
    if exists|p: int| 0 <= p < VIDEO_SIZE && #[trigger] s.video[p] == PIXEL_ON && t.video[p] != PIXEL_ON {
        let q = choose|q: int|
            0 <= q < VIDEO_SIZE && #[trigger] s.video[q] == PIXEL_ON && t.video[q] != PIXEL_ON;
        assert(sprite_covers(s, x0, y0, n, q));
    }
}

/// Drawing onto a dark screen never reports a collision: `VF` is 0 after
/// it, whatever it held before.
pub proof fn lemma_draw_on_dark_screen(s: Chip8View, x: int, y: int, n: int, rnd: u8)
    requires
        well_sized(s),
        0 <= x < 16,
        0 <= y < 16,
        0 <= n < 16,
        n == 0 || s.index + n <= MEMORY_SIZE,
        forall|p: int| 0 <= p < VIDEO_SIZE ==> #[trigger] s.video[p] == 0,
    ensures
        execute_spec(s, opcode_xyn(0xD, x, y, n), rnd).registers[15] == 0,
{
    lemma_draw(s, x, y, n, rnd);
}

/// A cycle whose instruction does not set a timer (class `F` holds the
/// timer instructions) counts each timer down by one where it is above zero; a
/// jump fetched from the program counter (big-endian, high byte first)
/// lands on its address.
pub proof fn lemma_cycle_timers_and_fetch(s: Chip8View, rnd: u8)
    requires
        well_sized(s),
        s.program_counter + 1 < MEMORY_SIZE,
    ensures
        ({
            let t = cycle_spec(s, rnd);
            let hi = s.memory[s.program_counter as int];
            let lo = s.memory[s.program_counter + 1];
            &&& hi / 16 != 0xF ==> t.delay_timer == (if s.delay_timer > 0 { s.delay_timer - 1 } else { 0 })
            &&& hi / 16 != 0xF ==> t.sound_timer == (if s.sound_timer > 0 { s.sound_timer - 1 } else { 0 })
            &&& hi / 16 == 1 ==> t.program_counter == (hi % 16) * 256 + lo
            &&& hi / 16 == 6 ==> t.program_counter == s.program_counter + 2 && t.registers[(hi % 16) as int] == lo
        }),
{
    let op = fetch(s);
    let hi = s.memory[s.program_counter as int];
    let lo = s.memory[s.program_counter + 1];
    assert(op == hi * 256 + lo);
    assert(op_class(op) == hi / 16);
    assert(op_x(op) == hi % 16);
    assert(op_kk(op) == lo);
    assert(op_nnn(op) == (hi % 16) * 256 + lo);
}

/// With `VF` itself as the target of `8Fy4`, `8Fy5` and `8Fy7`, the
/// arithmetic result is what `VF` ends up holding: the flag is written first
/// and the result after it.
pub proof fn lemma_flag_register_as_target(s: Chip8View, y: int, rnd: u8)
    requires
        well_sized(s),
        0 <= y < 16,
    ensures
        ({
            let vf = s.registers[15];
            let vy = s.registers[y];
            &&& execute_spec(s, opcode_xyn(8, 15, y, 4), rnd).registers[15] == (vf + vy) % 256
            &&& execute_spec(s, opcode_xyn(8, 15, y, 5), rnd).registers[15] == (vf - vy) % 256
            &&& execute_spec(s, opcode_xyn(8, 15, y, 7), rnd).registers[15] == (vy - vf) % 256
        }),
{
    lemma_opcode_xyn_fields(8, 15, y, 4);
    lemma_opcode_xyn_fields(8, 15, y, 5);
    lemma_opcode_xyn_fields(8, 15, y, 7);
}

/// `8xyn` with a low nibble that names no operation (8 to D, and F)
/// changes nothing.
pub proof fn lemma_unknown_alu_nibble(s: Chip8View, x: int, y: int, n: int, rnd: u8)
    requires
        well_sized(s),
        0 <= x < 16,
        0 <= y < 16,
        8 <= n < 16,
        n != 0xE,
    ensures
        execute_spec(s, opcode_xyn(8, x, y, n), rnd) == s,
{
    lemma_opcode_xyn_fields(8, x, y, n);
    assert(execute_spec(s, opcode_xyn(8, x, y, n), rnd).registers =~= s.registers);
}

/// Class-0 opcodes other than `00E0` and `00EE` change nothing.
pub proof fn lemma_other_system_calls_ignored(s: Chip8View, nnn: u16, rnd: u8)
    requires
        well_sized(s),
        nnn < 0x1000,
        nnn != 0x0E0,
        nnn != 0x0EE,
    ensures
        execute_spec(s, opcode_nnn(0, nnn), rnd) == s,
{
    lemma_opcode_nnn_fields(0, nnn);
}

/// `Fx29` points the index at `0x50 + 5 * Vx`, where the glyph of digit
/// `Vx` starts; nothing else changes.
pub proof fn lemma_font_address(s: Chip8View, x: int, rnd: u8)
    requires
        well_sized(s),
        0 <= x < 16,
    ensures
        ({
            let t = execute_spec(s, opcode_xkk(0xF, x, 0x29), rnd);
            t.index == 0x50 + 5 * s.registers[x] && Chip8View { index: s.index, ..t } =~= s
        }),
{
    lemma_opcode_xkk_fields(0xF, x, 0x29);
}

/// `Fx33` writes only the three digit addresses.
pub proof fn lemma_decimal_digits_touch_three_bytes(s: Chip8View, x: int, rnd: u8)
    requires
        well_sized(s),
        0 <= x < 16,
        s.index + 2 < MEMORY_SIZE,
    ensures
        ({
            let t = execute_spec(s, opcode_xkk(0xF, x, 0x33), rnd);
            let i = s.index as int;
            &&& forall|a: int| 0 <= a < MEMORY_SIZE && (a < i || a > i + 2) ==> #[trigger] t.memory[a]
                == s.memory[a]
            &&& t.memory.len() == MEMORY_SIZE
            &&& t.memory[i] * 100 + t.memory[i + 1] * 10 + t.memory[i + 2] == s.registers[x]
            &&& Chip8View { memory: s.memory, ..t } =~= s
        }),
{
    lemma_opcode_xkk_fields(0xF, x, 0x33);
}

/// Copying `bytes` to memory from `start` puts byte `k` at `start + k` as
/// far as memory reaches and leaves every other address alone.
pub proof fn lemma_copy_into(memory: Seq<u8>, start: int, bytes: Seq<u8>)
    ensures
        copy_into(memory, start, bytes).len() == memory.len(),
        forall|k: int|
            0 <= k < bytes.len() && 0 <= start + k < memory.len() ==> #[trigger] copy_into(
                memory,
                start,
                bytes,
            )[start + k] == bytes[k],
        forall|a: int|
            0 <= a < memory.len() && (a < start || a >= start + bytes.len()) ==> #[trigger] copy_into(
                memory,
                start,
                bytes,
            )[a] == memory[a],
{
}

/// Which opcodes can always run: jumps, skips on registers, loads, the
/// arithmetic group, the index and random instructions, and every class-0
/// opcode but `00EE`; `00EE` needs a return address on the stack and `2nnn`
/// a free stack slot.
pub proof fn lemma_executable_opcodes(s: Chip8View, x: int, y: int, n: int, nnn: u16)
    requires
        0 <= x < 16,
        0 <= y < 16,
        0 <= n < 16,
        nnn < 0x1000,
    ensures
        forall|class: int|
            1 <= class <= 0xC && class != 2 ==> #[trigger] execute_ok(s, opcode_xyn(class, x, y, n)),
        nnn != 0x0EE ==> execute_ok(s, opcode_nnn(0, nnn)),
        execute_ok(s, 0x00EE) == (s.stack_pointer > 0),
        execute_ok(s, opcode_nnn(2, nnn)) == (s.stack_pointer < 16),
{
    assert forall|class: int| 1 <= class <= 0xC && class != 2 implies #[trigger] execute_ok(
        s,
        opcode_xyn(class, x, y, n),
    ) by {
        lemma_opcode_xyn_fields(class, x, y, n);
    }
    lemma_opcode_nnn_fields(0, nnn);
    lemma_opcode_nnn_fields(2, nnn);
}

} // verus!
