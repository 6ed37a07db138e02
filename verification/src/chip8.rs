//! The machine itself and its instructions.
use vstd::prelude::*;
use crate::model::{
    advance, copy_into, cycle_ok, cycle_spec, fetch, font_glyphs, tick_timers, FONTSET_SIZE,
    alu_spec, call_spec, lemma_pixel_position, pixel_at, draw_collides, draw_col, draw_row, draw_spec, execute_ok, execute_spec,
    first_pressed, first_pressed_from, initial_state, key_skip_spec, misc_spec, op_class, op_kk,
    op_n, op_nnn, op_x, op_y, return_spec, sat_add_u16, skip_next, sprite_bit, sprite_covers,
    valid_misc, well_sized, with_register, Chip8View, DISPLAY_HEIGHT, DISPLAY_WIDTH,
    FLAG_REGISTER, FONTSET_START_ADDRESS, MEMORY_SIZE, PIXEL_ON, START_ADDRESS, VIDEO_SIZE,
};

verus! {

/// A CHIP-8 machine.
pub struct Chip8 {
    registers: [u8; 16],
    memory: [u8; MEMORY_SIZE],
    index: u16,
    program_counter: u16,
    stack: [u16; 16],
    stack_pointer: u8,
    delay_timer: u8,
    sound_timer: u8,
    keypad: [bool; 16],
    video: [u32; VIDEO_SIZE],
}

impl View for Chip8 {
    type V = Chip8View;

    closed spec fn view(&self) -> Chip8View {
        Chip8View {
            registers: self.registers@,
            memory: self.memory@,
            index: self.index,
            program_counter: self.program_counter,
            stack: self.stack@,
            stack_pointer: self.stack_pointer,
            delay_timer: self.delay_timer,
            sound_timer: self.sound_timer,
            keypad: self.keypad@,
            video: self.video@,
        }
    }
}

impl Chip8 {
    /// The sizes of the machine's arrays, as its model sees them.
    pub proof fn lemma_well_sized(&self)
        ensures
            well_sized(self@),
    {
    }

    /// A machine with everything zero and execution at `START_ADDRESS`.
    pub fn new() -> (c: Self)
        ensures
            c@ == initial_state(),
    {
        let c = Chip8 {
            registers: [0; 16],
            memory: [0; MEMORY_SIZE],
            index: 0,
            program_counter: START_ADDRESS,
            stack: [0; 16],
            stack_pointer: 0,
            delay_timer: 0,
            sound_timer: 0,
            keypad: [false; 16],
            video: [0; VIDEO_SIZE],
        };
        assert(c@ =~= initial_state());
        c
    }

    /// Copies the built-in font to memory at `FONTSET_START_ADDRESS`.
    pub fn load_fontset(&mut self)
        ensures
            final(self)@ == (Chip8View {
                memory: copy_into(old(self)@.memory, FONTSET_START_ADDRESS as int, font_glyphs()),
                ..old(self)@
            }),
    {
        let fontset: [u8; FONTSET_SIZE] = [
            0xF0, 0x90, 0x90, 0x90, 0xF0, // 0
            0x20, 0x60, 0x20, 0x20, 0x70, // 1
            0xF0, 0x10, 0xF0, 0x80, 0xF0, // 2
            0xF0, 0x10, 0xF0, 0x10, 0xF0, // 3
            0x90, 0x90, 0xF0, 0x10, 0x10, // 4
            0xF0, 0x80, 0xF0, 0x10, 0xF0, // 5
            0xF0, 0x80, 0xF0, 0x90, 0xF0, // 6
            0xF0, 0x10, 0x20, 0x40, 0x40, // 7
            0xF0, 0x90, 0xF0, 0x90, 0xF0, // 8
            0xF0, 0x90, 0xF0, 0x10, 0xF0, // 9
            0xF0, 0x90, 0xF0, 0x90, 0x90, // A
            0xE0, 0x90, 0xE0, 0x90, 0xE0, // B
            0xF0, 0x80, 0x80, 0x80, 0xF0, // C
            0xE0, 0x90, 0x90, 0x90, 0xE0, // D
            0xF0, 0x80, 0xF0, 0x80, 0xF0, // E
            0xF0, 0x80, 0xF0, 0x80, 0x80, // F
        ];
        assert(fontset@ =~= font_glyphs());
        self.copy_to_memory(FONTSET_START_ADDRESS, &fontset);
    }

    /// Copies a program image to memory at `START_ADDRESS`; bytes that would
    /// fall past the end of memory are dropped.
    pub fn load_rom(&mut self, rom: &[u8])
        ensures
            final(self)@ == (Chip8View {
                memory: copy_into(old(self)@.memory, START_ADDRESS as int, rom@),
                ..old(self)@
            }),
    {
        self.copy_to_memory(START_ADDRESS as usize, rom);
    }

    /// Copies `bytes` to memory from `start` on, as far as memory reaches.
    fn copy_to_memory(&mut self, start: usize, bytes: &[u8])
        requires
            start <= MEMORY_SIZE,
        ensures
            final(self)@ == (Chip8View {
                memory: copy_into(old(self)@.memory, start as int, bytes@),
                ..old(self)@
            }),
    {
        let room = MEMORY_SIZE - start;
        let count = if bytes.len() < room { bytes.len() } else { room };
        let mut i: usize = 0;
        while i < count
            invariant
                start <= MEMORY_SIZE,
                count <= bytes@.len(),
                start + count <= MEMORY_SIZE,
                i <= count,
                self@ == (Chip8View {
                    memory: copy_into(old(self)@.memory, start as int, bytes@.take(i as int)),
                    ..old(self)@
                }),
            decreases count - i,
        {
            self.memory[start + i] = bytes[i];
            i = i + 1;
            assert(self@.memory =~= copy_into(old(self)@.memory, start as int, bytes@.take(i as int)));
        }
        assert(copy_into(old(self)@.memory, start as int, bytes@.take(i as int)) =~= copy_into(
            old(self)@.memory,
            start as int,
            bytes@,
        ));
    }

    /// Whether `opcode` can be executed in this state without stopping the
    /// machine.
    pub fn can_execute(&self, opcode: u16) -> (b: bool)
        ensures
            b == execute_ok(self@, opcode),
    {
        proof {
            lemma_decode(opcode);
        }
        let instruction_class = (opcode & 0xF000) >> 12;
        let vx = ((opcode & 0x0F00) >> 8) as usize;
        let byte = (opcode & 0x00FF) as u8;
        let nibble = (opcode & 0x000F) as usize;
        let index = self.index as usize;
        if opcode == 0x00EE {
            self.stack_pointer > 0
        } else if instruction_class == 0x2 {
            self.stack_pointer < 16
        } else if instruction_class == 0xD {
            nibble == 0 || index + nibble <= MEMORY_SIZE
        } else if instruction_class == 0xE {
            (byte == 0x9E || byte == 0xA1) && self.registers[vx] < 16
        } else if instruction_class == 0xF {
            if byte == 0x33 {
                index + 2 < MEMORY_SIZE
            } else if byte == 0x55 || byte == 0x65 {
                index + vx < MEMORY_SIZE
            } else {
                byte == 0x07 || byte == 0x0A || byte == 0x15 || byte == 0x18 || byte == 0x1E
                    || byte == 0x29
            }
        } else {
            true
        }
    }

    /// Executes one opcode, drawing the random byte of `Cxkk` from the
    /// thread-local generator; any other opcode runs as `execute` with any
    /// random byte.
    pub fn process_opcode(&mut self, opcode: u16)
        requires
            execute_ok(old(self)@, opcode),
        ensures
            exists|r: u8| final(self)@ == #[trigger] execute_spec(old(self)@, opcode, r),
            op_class(opcode) != 0xC ==> final(self)@ == execute_spec(old(self)@, opcode, 0),
    {
        proof {
            lemma_decode(opcode);
        }
        let instruction_class = (opcode & 0xF000) >> 12;
        let random = if instruction_class == 0xC {
            random_byte()
        } else {
            0
        };
        self.execute(opcode, random);
        assert(self@ == execute_spec(old(self)@, opcode, random));
    }

    /// Reads the big-endian opcode at the program counter and moves past it.
    fn fetch_and_advance(&mut self) -> (opcode: u16)
        requires
            old(self)@.program_counter + 1 < MEMORY_SIZE,
        ensures
            opcode == fetch(old(self)@),
            final(self)@ == advance(old(self)@),
    {
        let msb = self.memory[self.program_counter as usize] as u16;
        let lsb = self.memory[self.program_counter as usize + 1] as u16;
        assert(msb < 256 ==> msb << 8 == msb * 256) by (bit_vector);
        let opcode = (msb << 8).saturating_add(lsb);
        self.program_counter = self.program_counter.saturating_add(2);
        opcode
    }

    /// Counts both timers down by one where they are above zero.
    fn count_down_timers(&mut self)
        ensures
            final(self)@ == tick_timers(old(self)@),
    {
        if self.delay_timer > 0 {
            self.delay_timer = self.delay_timer.saturating_sub(1);
        }
        if self.sound_timer > 0 {
            self.sound_timer = self.sound_timer.saturating_sub(1);
        }
    }

    /// Whether one cycle can run in this state without stopping the machine.
    pub fn can_cycle(&self) -> (b: bool)
        ensures
            b == cycle_ok(self@),
    {
        if self.program_counter as usize + 1 >= MEMORY_SIZE {
            return false;
        }
        let msb = self.memory[self.program_counter as usize] as u16;
        let lsb = self.memory[self.program_counter as usize + 1] as u16;
        let opcode = msb * 256 + lsb;
        // Whether an opcode can run does not depend on the program counter.
        assert(execute_ok(advance(self@), opcode) == execute_ok(self@, opcode));
        self.can_execute(opcode)
    }

    /// One machine cycle: fetch the opcode at the program counter, move past
    /// it, execute it (drawing `Cxkk`'s random byte from the thread-local
    /// generator), and count the timers down.
    pub fn cycle(&mut self)
        requires
            cycle_ok(old(self)@),
        ensures
            exists|r: u8| final(self)@ == #[trigger] cycle_spec(old(self)@, r),
            op_class(fetch(old(self)@)) != 0xC ==> final(self)@ == cycle_spec(old(self)@, 0),
    {
        let opcode = self.fetch_and_advance();
        let ghost fetched = self@;
        self.process_opcode(opcode);
        let ghost executed = self@;
        self.count_down_timers();
        proof {
            let r = choose|r: u8| executed == #[trigger] execute_spec(fetched, opcode, r);
            assert(self@ == cycle_spec(old(self)@, r));
        }
    }

    /// One machine cycle with `random` as `Cxkk`'s random byte.
    pub fn step(&mut self, random: u8)
        requires
            cycle_ok(old(self)@),
        ensures
            final(self)@ == cycle_spec(old(self)@, random),
    {
        let opcode = self.fetch_and_advance();
        self.execute(opcode, random);
        self.count_down_timers();
    }

    /// The frame buffer, row by row, `PIXEL_ON` for a lit pixel.
    pub fn get_video(&self) -> (video: &[u32; VIDEO_SIZE])
        ensures
            video@ == self@.video,
    {
        &self.video
    }

    /// Sets the state of the sixteen keys.
    pub fn process_input(&mut self, input: [bool; 16])
        ensures
            final(self)@ == (Chip8View { keypad: input@, ..old(self)@ }),
    {
        self.keypad = input;
    }

    /// Register `Vindex`.
    pub fn register(&self, index: usize) -> (v: u8)
        requires
            index < 16,
        ensures
            v == self@.registers[index as int],
    {
        self.registers[index]
    }

    /// The byte at memory address `address`.
    pub fn read(&self, address: usize) -> (v: u8)
        requires
            address < MEMORY_SIZE,
        ensures
            v == self@.memory[address as int],
    {
        self.memory[address]
    }

    /// Whether key `index` is pressed.
    pub fn key(&self, index: usize) -> (pressed: bool)
        requires
            index < 16,
        ensures
            pressed == self@.keypad[index as int],
    {
        self.keypad[index]
    }

    /// Pixel `index` of the frame buffer.
    pub fn pixel(&self, index: usize) -> (v: u32)
        requires
            index < VIDEO_SIZE,
        ensures
            v == self@.video[index as int],
    {
        self.video[index]
    }

    /// The program counter.
    pub fn program_counter(&self) -> (pc: u16)
        ensures
            pc == self@.program_counter,
    {
        self.program_counter
    }

    /// The index register `I`.
    pub fn index(&self) -> (i: u16)
        ensures
            i == self@.index,
    {
        self.index
    }

    /// The number of return addresses on the stack.
    pub fn stack_pointer(&self) -> (sp: u8)
        ensures
            sp == self@.stack_pointer,
    {
        self.stack_pointer
    }

    /// The delay timer.
    pub fn delay_timer(&self) -> (t: u8)
        ensures
            t == self@.delay_timer,
    {
        self.delay_timer
    }

    /// The sound timer.
    pub fn sound_timer(&self) -> (t: u8)
        ensures
            t == self@.sound_timer,
    {
        self.sound_timer
    }

    /// Executes one opcode; `random` is the byte that `Cxkk` masks with `kk`.
    pub fn execute(&mut self, opcode: u16, random: u8)
        requires
            execute_ok(old(self)@, opcode),
        ensures
            final(self)@ == execute_spec(old(self)@, opcode, random),
    {
        proof {
            lemma_decode(opcode);
        }
        let instruction_class = (opcode & 0xF000) >> 12;
        let address = opcode & 0x0FFF;
        let vx = ((opcode & 0x0F00) >> 8) as usize;
        let vy = ((opcode & 0x00F0) >> 4) as usize;
        let byte = (opcode & 0x00FF) as u8;
        let nibble = (opcode & 0x000F) as u8;
        if instruction_class == 0x0 {
            if opcode == 0x00e0 {
                self.video = [0; VIDEO_SIZE];
                assert(self@ =~= execute_spec(old(self)@, opcode, random));
            } else if opcode == 0x00ee {
                self.op_00ee();
            }
        } else if instruction_class == 0x1 {
            self.op_1nnn(address);
        } else if instruction_class == 0x2 {
            self.op_2nnn(address);
        } else if instruction_class == 0x3 {
            self.op_3xkk(vx, byte);
        } else if instruction_class == 0x4 {
            self.op_4xkk(vx, byte);
        } else if instruction_class == 0x5 {
            self.op_5xy0(vx, vy);
        } else if instruction_class == 0x6 {
            self.op_6xkk(vx, byte);
        } else if instruction_class == 0x7 {
            self.op_7xkk(vx, byte);
        } else if instruction_class == 0x8 {
            self.op_8xyn(vx, vy, nibble);
        } else if instruction_class == 0x9 {
            self.op_9xy0(vx, vy);
        } else if instruction_class == 0xA {
            self.op_annn(address);
        } else if instruction_class == 0xB {
            self.op_bnnn(address);
        } else if instruction_class == 0xC {
            self.op_cxkk(vx, byte, random);
        } else if instruction_class == 0xD {
            self.op_dxyn(vx, vy, nibble);
        } else if instruction_class == 0xE {
            self.op_exkk(vx, byte);
        } else {
            self.op_fxkk(vx, byte);
        }
    }

    /// Moves the program counter past the next instruction.
    fn skip_instruction(&mut self)
        ensures
            final(self)@ == skip_next(old(self)@),
    {
        self.program_counter = self.program_counter.saturating_add(2);
    }

    /// RET: return from a subroutine.
    fn op_00ee(&mut self)
        requires
            old(self)@.stack_pointer > 0,
        ensures
            final(self)@ == return_spec(old(self)@),
    {
        self.stack_pointer = self.stack_pointer.saturating_sub(1);
        if (self.stack_pointer as usize) < 16 {
            self.program_counter = self.stack[self.stack_pointer as usize];
        }
    }

    /// JP addr: jump to `address`.
    fn op_1nnn(&mut self, address: u16)
        ensures
            final(self)@ == (Chip8View { program_counter: address, ..old(self)@ }),
    {
        self.program_counter = address;
    }

    /// CALL addr: push the program counter and jump to `address`.
    fn op_2nnn(&mut self, address: u16)
        requires
            old(self)@.stack_pointer < 16,
        ensures
            final(self)@ == call_spec(old(self)@, address),
    {
        self.stack[self.stack_pointer as usize] = self.program_counter;
        self.stack_pointer = self.stack_pointer + 1;
        self.program_counter = address;
        assert(self@ =~= call_spec(old(self)@, address));
    }

    /// SE Vx, byte: skip where `Vx == byte`.
    fn op_3xkk(&mut self, vx: usize, byte: u8)
        requires
            vx < 16,
        ensures
            final(self)@ == if old(self)@.registers[vx as int] == byte {
                skip_next(old(self)@)
            } else {
                old(self)@
            },
    {
        if self.registers[vx] == byte {
            self.skip_instruction();
        }
    }

    /// SNE Vx, byte: skip where `Vx != byte`.
    fn op_4xkk(&mut self, vx: usize, byte: u8)
        requires
            vx < 16,
        ensures
            final(self)@ == if old(self)@.registers[vx as int] != byte {
                skip_next(old(self)@)
            } else {
                old(self)@
            },
    {
        if self.registers[vx] != byte {
            self.skip_instruction();
        }
    }

    /// SE Vx, Vy: skip where `Vx == Vy`.
    fn op_5xy0(&mut self, vx: usize, vy: usize)
        requires
            vx < 16,
            vy < 16,
        ensures
            final(self)@ == if old(self)@.registers[vx as int] == old(self)@.registers[vy as int] {
                skip_next(old(self)@)
            } else {
                old(self)@
            },
    {
        if self.registers[vx] == self.registers[vy] {
            self.skip_instruction();
        }
    }

    /// LD Vx, byte.
    fn op_6xkk(&mut self, vx: usize, byte: u8)
        requires
            vx < 16,
        ensures
            final(self)@ == with_register(old(self)@, vx as int, byte),
    {
        self.registers[vx] = byte;
        assert(self@ =~= with_register(old(self)@, vx as int, byte));
    }

    /// ADD Vx, byte: add without carry flag, modulo 256.
    fn op_7xkk(&mut self, vx: usize, byte: u8)
        requires
            vx < 16,
        ensures
            final(self)@ == with_register(
                old(self)@,
                vx as int,
                ((old(self)@.registers[vx as int] + byte) % 256) as u8,
            ),
    {
        let v = self.registers[vx];
        self.registers[vx] = ((v as u16 + byte as u16) % 256) as u8;
        assert(self@ =~= with_register(old(self)@, vx as int, ((v + byte) % 256) as u8));
    }

    /// The `8xyn` arithmetic and logic group.
    fn op_8xyn(&mut self, vx: usize, vy: usize, nibble: u8)
        requires
            vx < 16,
            vy < 16,
        ensures
            final(self)@ == alu_spec(old(self)@, vx as int, vy as int, nibble as int),
    {
        let a = self.registers[vx];
        let b = self.registers[vy];
        if nibble == 0x0 {
            self.registers[vx] = b;
        } else if nibble == 0x1 {
            self.registers[vx] = a | b;
        } else if nibble == 0x2 {
            self.registers[vx] = a & b;
        } else if nibble == 0x3 {
            self.registers[vx] = a ^ b;
        } else if nibble == 0x4 {
            self.sum(vx, vy);
        } else if nibble == 0x5 {
            self.sub(vx, vy);
        } else if nibble == 0x6 {
            self.shr(vx);
        } else if nibble == 0x7 {
            self.subn(vx, vy);
        } else if nibble == 0xE {
            self.shl(vx);
        }
        assert(self@ =~= alu_spec(old(self)@, vx as int, vy as int, nibble as int));
    }

    /// ADD Vx, Vy: `VF` is the carry.
    fn sum(&mut self, vx: usize, vy: usize)
        requires
            vx < 16,
            vy < 16,
        ensures
            final(self)@ == alu_spec(old(self)@, vx as int, vy as int, 4),
    {
        let a = self.registers[vx];
        let b = self.registers[vy];
        let total = a as u16 + b as u16;
        let carry: u8 = if total > 255 { 1 } else { 0 };
        let result = (total % 256) as u8;
        self.registers[FLAG_REGISTER] = carry;
        self.registers[vx] = result;
        assert(self@ =~= alu_spec(old(self)@, vx as int, vy as int, 4));
    }

    /// SUB Vx, Vy: `VF` is the borrow.
    fn sub(&mut self, vx: usize, vy: usize)
        requires
            vx < 16,
            vy < 16,
        ensures
            final(self)@ == alu_spec(old(self)@, vx as int, vy as int, 5),
    {
        let a = self.registers[vx];
        let b = self.registers[vy];
        let borrow: u8 = if a < b { 1 } else { 0 };
        let result = ((a as u16 + 256 - b as u16) % 256) as u8;
        self.registers[FLAG_REGISTER] = borrow;
        self.registers[vx] = result;
        assert(self@ =~= alu_spec(old(self)@, vx as int, vy as int, 5));
    }

    /// SHR Vx: `VF` is the bit shifted out.
    fn shr(&mut self, vx: usize)
        requires
            vx < 16,
        ensures
            forall|vy: int| final(self)@ == alu_spec(old(self)@, vx as int, vy, 6),
    {
        let a = self.registers[vx];
        let low = a & 0x1;
        assert(a & 0x1 == a % 2) by (bit_vector);
        self.registers[FLAG_REGISTER] = low;
        let c = self.registers[vx];
        assert(c >> 1 == c / 2) by (bit_vector);
        self.registers[vx] = c >> 1;
        assert forall|vy: int| self@ =~= alu_spec(old(self)@, vx as int, vy, 6) by {}
    }

    /// SUBN Vx, Vy: `Vx = Vy - Vx`, `VF` is the borrow.
    fn subn(&mut self, vx: usize, vy: usize)
        requires
            vx < 16,
            vy < 16,
        ensures
            final(self)@ == alu_spec(old(self)@, vx as int, vy as int, 7),
    {
        let a = self.registers[vx];
        let b = self.registers[vy];
        let borrow: u8 = if b < a { 1 } else { 0 };
        let result = ((b as u16 + 256 - a as u16) % 256) as u8;
        self.registers[FLAG_REGISTER] = borrow;
        self.registers[vx] = result;
        assert(self@ =~= alu_spec(old(self)@, vx as int, vy as int, 7));
    }

    /// SHL Vx: `VF` is the bit shifted out.
    fn shl(&mut self, vx: usize)
        requires
            vx < 16,
        ensures
            forall|vy: int| final(self)@ == alu_spec(old(self)@, vx as int, vy, 0xE),
    {
        let a = self.registers[vx];
        assert((a & 0x80) >> 7 == a / 128) by (bit_vector);
        self.registers[FLAG_REGISTER] = (a & 0x80) >> 7;
        let c = self.registers[vx];
        assert(c << 1 == ((c * 2) % 256) as u8) by (bit_vector);
        self.registers[vx] = c << 1;
        assert forall|vy: int| self@ =~= alu_spec(old(self)@, vx as int, vy, 0xE) by {}
    }

    /// SNE Vx, Vy: skip where `Vx != Vy`.
    fn op_9xy0(&mut self, vx: usize, vy: usize)
        requires
            vx < 16,
            vy < 16,
        ensures
            final(self)@ == if old(self)@.registers[vx as int] != old(self)@.registers[vy as int] {
                skip_next(old(self)@)
            } else {
                old(self)@
            },
    {
        if self.registers[vx] != self.registers[vy] {
            self.skip_instruction();
        }
    }

    /// LD I, addr.
    fn op_annn(&mut self, address: u16)
        ensures
            final(self)@ == (Chip8View { index: address, ..old(self)@ }),
    {
        self.index = address;
    }

    /// JP V0, addr: jump to `V0 + address`, saturating.
    fn op_bnnn(&mut self, address: u16)
        ensures
            final(self)@ == (Chip8View {
                program_counter: sat_add_u16(address, old(self)@.registers[0] as int),
                ..old(self)@
            }),
    {
        self.program_counter = (self.registers[0] as u16).saturating_add(address);
    }

    /// RND Vx, byte: `Vx = random & byte`.
    fn op_cxkk(&mut self, vx: usize, byte: u8, random: u8)
        requires
            vx < 16,
        ensures
            final(self)@ == with_register(old(self)@, vx as int, random & byte),
    {
        self.registers[vx] = random & byte;
        assert(self@ =~= with_register(old(self)@, vx as int, random & byte));
    }

    /// SKP Vx / SKNP Vx: skip on the state of key `Vx`.
    fn op_exkk(&mut self, vx: usize, byte: u8)
        requires
            vx < 16,
            byte == 0x9E || byte == 0xA1,
            old(self)@.registers[vx as int] < 16,
        ensures
            final(self)@ == key_skip_spec(old(self)@, vx as int, byte),
    {
        let key = self.registers[vx];
        let pressed = byte == 0x9E;
        if self.keypad[key as usize] == pressed {
            self.skip_instruction();
        }
    }

    /// The `Fxkk` group.
    fn op_fxkk(&mut self, vx: usize, byte: u8)
        requires
            vx < 16,
            valid_misc(byte),
            byte == 0x33 ==> old(self)@.index + 2 < MEMORY_SIZE,
            byte == 0x55 || byte == 0x65 ==> old(self)@.index + vx < MEMORY_SIZE,
        ensures
            final(self)@ == misc_spec(old(self)@, vx as int, byte),
    {
        if byte == 0x07 {
            self.registers[vx] = self.delay_timer;
            assert(self@ =~= misc_spec(old(self)@, vx as int, byte));
        } else if byte == 0x0A {
            self.wait_for_keypress(vx);
        } else if byte == 0x15 {
            self.delay_timer = self.registers[vx];
        } else if byte == 0x18 {
            self.sound_timer = self.registers[vx];
        } else if byte == 0x1E {
            self.index = self.index.saturating_add(self.registers[vx] as u16);
        } else if byte == 0x29 {
            self.load_font(vx);
        } else if byte == 0x33 {
            self.binary_coded_decimal(vx);
        } else if byte == 0x55 {
            self.store_registers(vx);
        } else {
            self.load_registers(vx);
        }
    }

    /// LD Vx, K: the lowest pressed key goes to `Vx`; with no key pressed the
    /// instruction repeats.
    fn wait_for_keypress(&mut self, vx: usize)
        requires
            vx < 16,
        ensures
            final(self)@ == misc_spec(old(self)@, vx as int, 0x0A),
    {
        let mut key_index: u8 = 0;
        while key_index < 16
            invariant
                key_index <= 16,
                vx < 16,
                self@ == old(self)@,
                first_pressed(self@.keypad) == first_pressed_from(self@.keypad, key_index as int),
            decreases 16 - key_index,
        {
            if self.keypad[key_index as usize] {
                self.registers[vx] = key_index;
                assert(self@ =~= misc_spec(old(self)@, vx as int, 0x0A));
                return;
            }
            key_index = key_index + 1;
        }
        self.program_counter = self.program_counter.saturating_sub(2);
        assert(self@ =~= misc_spec(old(self)@, vx as int, 0x0A));
    }

    /// LD F, Vx: point the index at the font glyph of digit `Vx`.
    fn load_font(&mut self, vx: usize)
        requires
            vx < 16,
        ensures
            final(self)@ == misc_spec(old(self)@, vx as int, 0x29),
    {
        self.index = (FONTSET_START_ADDRESS + 5 * (self.registers[vx] as usize)) as u16;
    }

    /// LD B, Vx: the decimal digits of `Vx` go to `I`, `I + 1`, `I + 2`.
    fn binary_coded_decimal(&mut self, vx: usize)
        requires
            vx < 16,
            old(self)@.index + 2 < MEMORY_SIZE,
        ensures
            final(self)@ == misc_spec(old(self)@, vx as int, 0x33),
    {
        let value = self.registers[vx];
        let i = self.index as usize;
        self.memory[i + 2] = value % 10;
        let value = value / 10;
        self.memory[i + 1] = value % 10;
        let value = value / 10;
        self.memory[i] = value % 10;
        assert(self@ =~= misc_spec(old(self)@, vx as int, 0x33));
    }

    /// LD [I], Vx: store `V0` to `Vx` at `I` onwards.
    fn store_registers(&mut self, vx: usize)
        requires
            vx < 16,
            old(self)@.index + vx < MEMORY_SIZE,
        ensures
            final(self)@ == misc_spec(old(self)@, vx as int, 0x55),
    {
        let base = self.index as usize;
        let mut i: usize = 0;
        while i <= vx
            invariant
                vx < 16,
                base == old(self)@.index,
                base + vx < MEMORY_SIZE,
                i <= vx + 1,
                self@ == (Chip8View {
                    memory: Seq::new(
                        old(self)@.memory.len(),
                        |a: int|
                            if base <= a < base + i {
                                old(self)@.registers[a - base]
                            } else {
                                old(self)@.memory[a]
                            },
                    ),
                    ..old(self)@
                }),
            decreases vx + 1 - i,
        {
            self.memory[base + i] = self.registers[i];
            i = i + 1;
            assert(self@.memory =~= Seq::new(
                old(self)@.memory.len(),
                |a: int|
                    if base <= a < base + i {
                        old(self)@.registers[a - base]
                    } else {
                        old(self)@.memory[a]
                    },
            ));
        }
        assert(self@ =~= misc_spec(old(self)@, vx as int, 0x55));
    }

    /// LD Vx, [I]: load `V0` to `Vx` from `I` onwards.
    fn load_registers(&mut self, vx: usize)
        requires
            vx < 16,
            old(self)@.index + vx < MEMORY_SIZE,
        ensures
            final(self)@ == misc_spec(old(self)@, vx as int, 0x65),
    {
        let base = self.index as usize;
        let mut i: usize = 0;
        while i <= vx
            invariant
                vx < 16,
                base == old(self)@.index,
                base + vx < MEMORY_SIZE,
                i <= vx + 1,
                self@ == (Chip8View {
                    registers: Seq::new(
                        16,
                        |r: int|
                            if r < i {
                                old(self)@.memory[base + r]
                            } else {
                                old(self)@.registers[r]
                            },
                    ),
                    ..old(self)@
                }),
            decreases vx + 1 - i,
        {
            self.registers[i] = self.memory[base + i];
            i = i + 1;
            assert(self@.registers =~= Seq::new(
                16,
                |r: int|
                    if r < i {
                        old(self)@.memory[base + r]
                    } else {
                        old(self)@.registers[r]
                    },
            ));
        }
        assert(self@ =~= misc_spec(old(self)@, vx as int, 0x65));
    }

    /// DRW Vx, Vy, nibble: draw the `height`-row sprite at `I`.
    fn op_dxyn(&mut self, vx: usize, vy: usize, height: u8)
        requires
            vx < 16,
            vy < 16,
            height < 16,
            height == 0 || old(self)@.index + height <= MEMORY_SIZE,
        ensures
            final(self)@ == draw_spec(old(self)@, vx as int, vy as int, height as int),
    {
        let ghost s0 = self@;
        let ghost n = height as int;
        let x_pos = (self.registers[vx] as usize) % DISPLAY_WIDTH;
        let y_pos = (self.registers[vy] as usize) % DISPLAY_HEIGHT;
        self.registers[FLAG_REGISTER] = 0;
        assert(self@ =~= draw_partial(s0, x_pos as int, y_pos as int, n, 0, 0));
        let mut row: usize = 0;
        while row < height as usize
            invariant
                s0 == old(self)@,
                n == height as int,
                height < 16,
                height == 0 || s0.index + height <= MEMORY_SIZE,
                x_pos < 64,
                y_pos < 32,
                row <= n,
                self@ == draw_partial(s0, x_pos as int, y_pos as int, n, row as int, 0),
            decreases height - row,
        {
            let byte = self.memory[self.index as usize + row];
            let mut col: u8 = 0;
            while col < 8
                invariant
                    s0 == old(self)@,
                    n == height as int,
                    height < 16,
                    x_pos < 64,
                    y_pos < 32,
                    row < n,
                    col <= 8,
                    byte == s0.memory[s0.index + row],
                    self@ == draw_partial(s0, x_pos as int, y_pos as int, n, row as int, col as int),
                decreases 8 - col,
            {
                let sprite_pixel = byte & (0x80u8 >> col);
                let x = (x_pos + col as usize) % DISPLAY_WIDTH;
                let y = (y_pos + row) % DISPLAY_HEIGHT;
                let p = y * DISPLAY_WIDTH + x;
                proof {
                    lemma_pixel_position(x_pos as int, y_pos as int, row as int, col as int);
                }
                if sprite_pixel != 0 {
                    let screen_pixel = self.video[p];
                    if screen_pixel == PIXEL_ON {
                        self.registers[FLAG_REGISTER] = 1;
                    }
                    self.video[p] = screen_pixel ^ PIXEL_ON;
                    proof {
                        lemma_draw_step_set(s0, x_pos as int, y_pos as int, n, row as int, col as int);
                    }
                } else {
                    proof {
                        lemma_draw_step_clear(s0, x_pos as int, y_pos as int, n, row as int, col as int);
                    }
                }
                col = col + 1;
            }
            proof {
                lemma_draw_next_row(s0, x_pos as int, y_pos as int, n, row as int);
            }
            row = row + 1;
        }
        proof {
            lemma_draw_done(s0, x_pos as int, y_pos as int, n, vx as int, vy as int);
        }
    }
}

/// Calls `rand::random::<u8>()`, a byte from the thread-local generator.
/// Nothing is stated of the byte: any value may come back.
#[verifier::external_body]
fn random_byte() -> (byte: u8) {
    rand::random::<u8>()
}

/// Field decoding by masks and shifts agrees with the arithmetic reading of
/// the opcode's nibbles.
proof fn lemma_decode(op: u16)
    ensures
        (op & 0xF000) >> 12 == op_class(op),
        ((op & 0x0F00) >> 8) as int == op_x(op),
        ((op & 0x00F0) >> 4) as int == op_y(op),
        (op & 0x00FF) as u8 == op_kk(op),
        (op & 0x000F) as int == op_n(op),
        op & 0x0FFF == op_nnn(op),
{
    assert((op & 0xF000) >> 12 == op / 0x1000) by (bit_vector);
    assert((op & 0x0F00) >> 8 == (op / 0x100) % 16) by (bit_vector);
    assert((op & 0x00F0) >> 4 == (op / 0x10) % 16) by (bit_vector);
    assert(op & 0x00FF == op % 0x100) by (bit_vector);
    assert(op & 0x000F == op % 16) by (bit_vector);
    assert(op & 0x0FFF == op % 0x1000) by (bit_vector);
}

/// Pixel `p` is covered by the sprite and comes before (`r`, `c`) in
/// drawing order.
spec fn drawn_before(s: Chip8View, x0: int, y0: int, n: int, r: int, c: int, p: int) -> bool {
    &&& sprite_covers(s, x0, y0, n, p)
    &&& (draw_row(p, y0) < r || (draw_row(p, y0) == r && draw_col(p, x0) < c))
}

/// Some lit pixel drawn so far was turned off.
spec fn draw_flag(s: Chip8View, x0: int, y0: int, n: int, r: int, c: int) -> bool {
    exists|p: int|
        0 <= p < VIDEO_SIZE && #[trigger] drawn_before(s, x0, y0, n, r, c, p) && s.video[p]
            == PIXEL_ON
}

/// The state of a draw that has handled every sprite pixel before (`r`, `c`).
spec fn draw_partial(s: Chip8View, x0: int, y0: int, n: int, r: int, c: int) -> Chip8View {
    Chip8View {
        video: Seq::new(
            s.video.len(),
            |p: int|
                if drawn_before(s, x0, y0, n, r, c, p) {
                    s.video[p] ^ PIXEL_ON
                } else {
                    s.video[p]
                },
        ),
        registers: s.registers.update(15, if draw_flag(s, x0, y0, n, r, c) { 1u8 } else { 0u8 }),
        ..s
    }
}

/// Handling a set sprite bit toggles its pixel and raises the flag where the
/// pixel was lit.
proof fn lemma_draw_step_set(s: Chip8View, x0: int, y0: int, n: int, r: int, c: int)
    requires
        well_sized(s),
        0 <= x0 < 64,
        0 <= y0 < 32,
        0 <= r < n,
        n < 16,
        0 <= c < 8,
        sprite_bit(s.memory[s.index + r], c),
    ensures
        ({
            let cur = draw_partial(s, x0, y0, n, r, c);
            let p = pixel_at(x0, y0, r, c);
            draw_partial(s, x0, y0, n, r, c + 1) == (Chip8View {
                video: cur.video.update(p, cur.video[p] ^ PIXEL_ON),
                registers: if cur.video[p] == PIXEL_ON {
                    cur.registers.update(15, 1u8)
                } else {
                    cur.registers
                },
                ..cur
            })
        }),
{
    let p0 = pixel_at(x0, y0, r, c);
    lemma_pixel_position(x0, y0, r, c);
    assert(sprite_covers(s, x0, y0, n, p0));
    assert(!drawn_before(s, x0, y0, n, r, c, p0));
    assert(drawn_before(s, x0, y0, n, r, c + 1, p0));
    assert forall|p: int| 0 <= p < VIDEO_SIZE && p != p0 implies drawn_before(s, x0, y0, n, r, c + 1, p)
        == drawn_before(s, x0, y0, n, r, c, p) by {}
    let cur = draw_partial(s, x0, y0, n, r, c);
    let next = draw_partial(s, x0, y0, n, r, c + 1);
    assert(next.video =~= cur.video.update(p0, cur.video[p0] ^ PIXEL_ON));
    if s.video[p0] == PIXEL_ON {
        assert(draw_flag(s, x0, y0, n, r, c + 1));
        assert(next.registers =~= cur.registers.update(15, 1u8));
    } else {
        assert(draw_flag(s, x0, y0, n, r, c + 1) == draw_flag(s, x0, y0, n, r, c)) by {
            if draw_flag(s, x0, y0, n, r, c + 1) {
                let q = choose|q: int|
                    0 <= q < VIDEO_SIZE && #[trigger] drawn_before(s, x0, y0, n, r, c + 1, q)
                        && s.video[q] == PIXEL_ON;
                assert(drawn_before(s, x0, y0, n, r, c, q));
            }
            if draw_flag(s, x0, y0, n, r, c) {
                let q = choose|q: int|
                    0 <= q < VIDEO_SIZE && #[trigger] drawn_before(s, x0, y0, n, r, c, q)
                        && s.video[q] == PIXEL_ON;
                assert(drawn_before(s, x0, y0, n, r, c + 1, q));
            }
        }
        assert(next.registers =~= cur.registers);
    }
}

/// Handling a clear sprite bit changes nothing.
proof fn lemma_draw_step_clear(s: Chip8View, x0: int, y0: int, n: int, r: int, c: int)
    requires
        well_sized(s),
        0 <= x0 < 64,
        0 <= y0 < 32,
        0 <= r < n,
        n < 16,
        0 <= c < 8,
        !sprite_bit(s.memory[s.index + r], c),
    ensures
        draw_partial(s, x0, y0, n, r, c + 1) == draw_partial(s, x0, y0, n, r, c),
{
    lemma_pixel_position(x0, y0, r, c);
    assert forall|p: int| 0 <= p < VIDEO_SIZE implies drawn_before(s, x0, y0, n, r, c + 1, p)
        == drawn_before(s, x0, y0, n, r, c, p) by {}
    lemma_same_drawn(s, x0, y0, n, r, c + 1, r, c);
}

/// Two drawing positions with the same pixels drawn give the same state.
proof fn lemma_same_drawn(s: Chip8View, x0: int, y0: int, n: int, r1: int, c1: int, r2: int, c2: int)
    requires
        well_sized(s),
        forall|p: int| 0 <= p < VIDEO_SIZE ==> drawn_before(s, x0, y0, n, r1, c1, p)
            == drawn_before(s, x0, y0, n, r2, c2, p),
    ensures
        draw_partial(s, x0, y0, n, r1, c1) == draw_partial(s, x0, y0, n, r2, c2),
{
    assert(draw_flag(s, x0, y0, n, r1, c1) == draw_flag(s, x0, y0, n, r2, c2)) by {
        if draw_flag(s, x0, y0, n, r1, c1) {
            let q = choose|q: int|
                0 <= q < VIDEO_SIZE && #[trigger] drawn_before(s, x0, y0, n, r1, c1, q) && s.video[q]
                    == PIXEL_ON;
            assert(drawn_before(s, x0, y0, n, r2, c2, q));
        }
        if draw_flag(s, x0, y0, n, r2, c2) {
            let q = choose|q: int|
                0 <= q < VIDEO_SIZE && #[trigger] drawn_before(s, x0, y0, n, r2, c2, q) && s.video[q]
                    == PIXEL_ON;
            assert(drawn_before(s, x0, y0, n, r1, c1, q));
        }
    }
    assert(draw_partial(s, x0, y0, n, r1, c1).video =~= draw_partial(s, x0, y0, n, r2, c2).video);
    assert(draw_partial(s, x0, y0, n, r1, c1).registers =~= draw_partial(s, x0, y0, n, r2, c2).registers);
}

/// A finished row is the start of the next.
proof fn lemma_draw_next_row(s: Chip8View, x0: int, y0: int, n: int, r: int)
    requires
        well_sized(s),
    ensures
        draw_partial(s, x0, y0, n, r, 8) == draw_partial(s, x0, y0, n, r + 1, 0),
{
    lemma_same_drawn(s, x0, y0, n, r, 8, r + 1, 0);
}

/// After the last row the draw is the one the model describes.
proof fn lemma_draw_done(s: Chip8View, x0: int, y0: int, n: int, x: int, y: int)
    requires
        well_sized(s),
        0 <= x < 16,
        0 <= y < 16,
        0 <= n,
        x0 == (s.registers[x] % 64) as int,
        y0 == (s.registers[y] % 32) as int,
    ensures
        draw_partial(s, x0, y0, n, n, 0) == draw_spec(s, x, y, n),
{
    let d = draw_spec(s, x, y, n);
    assert forall|p: int| 0 <= p < VIDEO_SIZE implies drawn_before(s, x0, y0, n, n, 0, p)
        == sprite_covers(s, x0, y0, n, p) by {}
    assert(draw_flag(s, x0, y0, n, n, 0) == draw_collides(s, x0, y0, n)) by {
        if draw_flag(s, x0, y0, n, n, 0) {
            let q = choose|q: int|
                0 <= q < VIDEO_SIZE && #[trigger] drawn_before(s, x0, y0, n, n, 0, q) && s.video[q]
                    == PIXEL_ON;
            assert(sprite_covers(s, x0, y0, n, q));
        }
        if draw_collides(s, x0, y0, n) {
            let q = choose|q: int|
                0 <= q < VIDEO_SIZE && #[trigger] sprite_covers(s, x0, y0, n, q) && s.video[q]
                    == PIXEL_ON;
            assert(drawn_before(s, x0, y0, n, n, 0, q));
        }
    }
    assert(draw_partial(s, x0, y0, n, n, 0).video =~= d.video);
    assert(draw_partial(s, x0, y0, n, n, 0).registers =~= d.registers);
}

} // verus!
