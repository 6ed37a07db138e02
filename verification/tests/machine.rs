use chip8::model::{MEMORY_SIZE, START_ADDRESS};
use chip8::{Chip8, DISPLAY_HEIGHT, DISPLAY_WIDTH, PIXEL_ON, VIDEO_SIZE};

const FONT: [u8; 80] = [
    0xF0, 0x90, 0x90, 0x90, 0xF0, 0x20, 0x60, 0x20, 0x20, 0x70, 0xF0, 0x10, 0xF0, 0x80, 0xF0,
    0xF0, 0x10, 0xF0, 0x10, 0xF0, 0x90, 0x90, 0xF0, 0x10, 0x10, 0xF0, 0x80, 0xF0, 0x10, 0xF0,
    0xF0, 0x80, 0xF0, 0x90, 0xF0, 0xF0, 0x10, 0x20, 0x40, 0x40, 0xF0, 0x90, 0xF0, 0x90, 0xF0,
    0xF0, 0x90, 0xF0, 0x10, 0xF0, 0xF0, 0x90, 0xF0, 0x90, 0x90, 0xE0, 0x90, 0xE0, 0x90, 0xE0,
    0xF0, 0x80, 0x80, 0x80, 0xF0, 0xE0, 0x90, 0x90, 0x90, 0xE0, 0xF0, 0x80, 0xF0, 0x80, 0xF0,
    0xF0, 0x80, 0xF0, 0x80, 0x80,
];

fn run(c: &mut Chip8, opcode: u16) {
    assert!(c.can_execute(opcode), "opcode {opcode:04X} cannot run here");
    c.execute(opcode, 0);
}

fn lit_pixels(c: &Chip8) -> usize {
    c.get_video().iter().filter(|&&p| p == PIXEL_ON).count()
}

#[test]
fn new_machine_is_blank() {
    let c = Chip8::new();
    assert_eq!(c.program_counter(), 0x200);
    assert_eq!(c.index(), 0);
    assert_eq!(c.stack_pointer(), 0);
    assert_eq!(c.delay_timer(), 0);
    assert_eq!(c.sound_timer(), 0);
    for r in 0..16 {
        assert_eq!(c.register(r), 0);
        assert!(!c.key(r));
    }
    for a in 0..MEMORY_SIZE {
        assert_eq!(c.read(a), 0);
    }
    assert!(c.get_video().iter().all(|&p| p == 0));
    assert_eq!(VIDEO_SIZE, DISPLAY_WIDTH * DISPLAY_HEIGHT);
}

#[test]
fn fontset_lands_at_0x50() {
    let mut c = Chip8::new();
    c.load_fontset();
    for (k, &b) in FONT.iter().enumerate() {
        assert_eq!(c.read(0x50 + k), b);
    }
    assert_eq!(c.read(0x4F), 0);
    assert_eq!(c.read(0xA0), 0);
}

#[test]
fn rom_lands_at_start_address() {
    let mut c = Chip8::new();
    c.load_rom(&[0x12, 0x34, 0x56]);
    assert_eq!(c.read(0x1FF), 0);
    assert_eq!(c.read(0x200), 0x12);
    assert_eq!(c.read(0x201), 0x34);
    assert_eq!(c.read(0x202), 0x56);
    assert_eq!(c.read(0x203), 0);
}

#[test]
fn oversized_rom_is_cut_at_end_of_memory() {
    let mut c = Chip8::new();
    let rom: Vec<u8> = (0..5000u32).map(|i| (i % 251) as u8).collect();
    c.load_rom(&rom);
    let room = MEMORY_SIZE - START_ADDRESS as usize;
    assert_eq!(c.read(MEMORY_SIZE - 1), rom[room - 1]);
    assert_eq!(c.read(0x200), rom[0]);
}

#[test]
fn clear_screen() {
    let mut c = Chip8::new();
    c.load_fontset();
    run(&mut c, 0xA050);
    run(&mut c, 0xD005);
    assert!(lit_pixels(&c) > 0);
    run(&mut c, 0x00E0);
    assert_eq!(lit_pixels(&c), 0);
}

#[test]
fn call_then_return() {
    let mut c = Chip8::new();
    run(&mut c, 0x2ABC);
    assert_eq!(c.program_counter(), 0xABC);
    assert_eq!(c.stack_pointer(), 1);
    run(&mut c, 0x00EE);
    assert_eq!(c.program_counter(), 0x200);
    assert_eq!(c.stack_pointer(), 0);
}

#[test]
fn return_without_call_cannot_run() {
    let c = Chip8::new();
    assert!(!c.can_execute(0x00EE));
}

#[test]
fn seventeenth_nested_call_cannot_run() {
    let mut c = Chip8::new();
    for _ in 0..16 {
        run(&mut c, 0x2300);
    }
    assert_eq!(c.stack_pointer(), 16);
    assert!(!c.can_execute(0x2300));
}

#[test]
fn jumps() {
    let mut c = Chip8::new();
    run(&mut c, 0x1345);
    assert_eq!(c.program_counter(), 0x345);
    run(&mut c, 0x6010);
    run(&mut c, 0xB100);
    assert_eq!(c.program_counter(), 0x110);
}

#[test]
fn skips_on_register_and_byte() {
    let mut c = Chip8::new();
    run(&mut c, 0x6342);
    run(&mut c, 0x3342);
    assert_eq!(c.program_counter(), 0x202);
    run(&mut c, 0x3341);
    assert_eq!(c.program_counter(), 0x202);
    run(&mut c, 0x4341);
    assert_eq!(c.program_counter(), 0x204);
    run(&mut c, 0x4342);
    assert_eq!(c.program_counter(), 0x204);
}

#[test]
fn skips_on_two_registers() {
    let mut c = Chip8::new();
    run(&mut c, 0x6107);
    run(&mut c, 0x6207);
    run(&mut c, 0x5120);
    assert_eq!(c.program_counter(), 0x202);
    run(&mut c, 0x9120);
    assert_eq!(c.program_counter(), 0x202);
    run(&mut c, 0x6208);
    run(&mut c, 0x9120);
    assert_eq!(c.program_counter(), 0x204);
}

#[test]
fn add_byte_wraps_without_flag() {
    let mut c = Chip8::new();
    run(&mut c, 0x6AF0);
    run(&mut c, 0x7A20);
    assert_eq!(c.register(0xA), 0x10);
    assert_eq!(c.register(0xF), 0);
}

#[test]
fn logic_between_registers() {
    let mut c = Chip8::new();
    run(&mut c, 0x61CC);
    run(&mut c, 0x62AA);
    run(&mut c, 0x8121);
    assert_eq!(c.register(1), 0xEE);
    run(&mut c, 0x61CC);
    run(&mut c, 0x8122);
    assert_eq!(c.register(1), 0x88);
    run(&mut c, 0x61CC);
    run(&mut c, 0x8123);
    assert_eq!(c.register(1), 0x66);
    run(&mut c, 0x8120);
    assert_eq!(c.register(1), 0xAA);
}

#[test]
fn add_sets_carry() {
    let mut c = Chip8::new();
    run(&mut c, 0x61F0);
    run(&mut c, 0x6220);
    run(&mut c, 0x8124);
    assert_eq!(c.register(1), 0x10);
    assert_eq!(c.register(0xF), 1);
    run(&mut c, 0x8124);
    assert_eq!(c.register(1), 0x30);
    assert_eq!(c.register(0xF), 0);
}

#[test]
fn sub_sets_borrow() {
    let mut c = Chip8::new();
    run(&mut c, 0x6110);
    run(&mut c, 0x6220);
    run(&mut c, 0x8125);
    assert_eq!(c.register(1), 0xF0);
    assert_eq!(c.register(0xF), 1);
    run(&mut c, 0x8125);
    assert_eq!(c.register(1), 0xD0);
    assert_eq!(c.register(0xF), 0);
}

#[test]
fn subn_sets_borrow() {
    let mut c = Chip8::new();
    run(&mut c, 0x6130);
    run(&mut c, 0x6220);
    run(&mut c, 0x8127);
    assert_eq!(c.register(1), 0xF0);
    assert_eq!(c.register(0xF), 1);
    run(&mut c, 0x6105);
    run(&mut c, 0x8127);
    assert_eq!(c.register(1), 0x1B);
    assert_eq!(c.register(0xF), 0);
}

#[test]
fn shifts_keep_shifted_bit() {
    let mut c = Chip8::new();
    run(&mut c, 0x6185);
    run(&mut c, 0x8106);
    assert_eq!(c.register(1), 0x42);
    assert_eq!(c.register(0xF), 1);
    run(&mut c, 0x6185);
    run(&mut c, 0x810E);
    assert_eq!(c.register(1), 0x0A);
    assert_eq!(c.register(0xF), 1);
    run(&mut c, 0x810E);
    assert_eq!(c.register(1), 0x14);
    assert_eq!(c.register(0xF), 0);
}

#[test]
fn shift_of_flag_register_keeps_shifted_value() {
    let mut c = Chip8::new();
    run(&mut c, 0x6F03);
    run(&mut c, 0x8F06);
    assert_eq!(c.register(0xF), 0);
}

#[test]
fn flag_register_as_target_holds_result() {
    let mut c = Chip8::new();
    run(&mut c, 0x6FF0);
    run(&mut c, 0x6120);
    run(&mut c, 0x8F14);
    assert_eq!(c.register(0xF), 0x10);
}

#[test]
fn unknown_alu_nibble_changes_nothing() {
    let mut c = Chip8::new();
    run(&mut c, 0x6105);
    run(&mut c, 0x6207);
    run(&mut c, 0x8128);
    assert_eq!(c.register(1), 5);
    assert_eq!(c.register(2), 7);
    assert_eq!(c.register(0xF), 0);
}

#[test]
fn set_index() {
    let mut c = Chip8::new();
    run(&mut c, 0xA123);
    assert_eq!(c.index(), 0x123);
}

#[test]
fn random_byte_is_masked() {
    let mut c = Chip8::new();
    c.execute(0xC30F, 0xAB);
    assert_eq!(c.register(3), 0x0B);
    c.execute(0xC300, 0xAB);
    assert_eq!(c.register(3), 0);
}

#[test]
fn process_opcode_draws_random_bytes() {
    let mut c = Chip8::new();
    let mut seen = Vec::new();
    for _ in 0..64 {
        c.process_opcode(0xC5FF);
        seen.push(c.register(5));
    }
    assert!(seen.iter().any(|&v| v != seen[0]));
    c.process_opcode(0xC50F);
    assert!(c.register(5) < 0x10);
}

#[test]
fn draw_glyph_and_collision() {
    let mut c = Chip8::new();
    c.load_fontset();
    run(&mut c, 0xA050);
    run(&mut c, 0xD015);
    assert_eq!(c.register(0xF), 0);
    // Glyph 0: F0 90 90 90 F0.
    let rows = [0xF0u8, 0x90, 0x90, 0x90, 0xF0];
    for (r, byte) in rows.iter().enumerate() {
        for col in 0..8 {
            let lit = byte & (0x80 >> col) != 0;
            let p = c.pixel(r * DISPLAY_WIDTH + col);
            assert_eq!(p == PIXEL_ON, lit);
        }
    }
    assert_eq!(lit_pixels(&c), 14);
    run(&mut c, 0xD015);
    assert_eq!(c.register(0xF), 1);
    assert_eq!(lit_pixels(&c), 0);
}

#[test]
fn draw_wraps_round_edges() {
    let mut c = Chip8::new();
    c.load_fontset();
    run(&mut c, 0xA050);
    run(&mut c, 0x613E); // x = 62
    run(&mut c, 0x621F); // y = 31
    run(&mut c, 0xD122);
    // Row 0 (0xF0) at y 31: columns 62, 63, 0, 1.
    for x in [62usize, 63, 0, 1] {
        assert_eq!(c.pixel(31 * DISPLAY_WIDTH + x), PIXEL_ON);
    }
    // Row 1 (0x90) wraps to y 0: columns 62 and 1.
    assert_eq!(c.pixel(62), PIXEL_ON);
    assert_eq!(c.pixel(1), PIXEL_ON);
    assert_eq!(c.pixel(63), 0);
    assert_eq!(c.pixel(0), 0);
    assert_eq!(lit_pixels(&c), 6);
}

#[test]
fn draw_coordinates_wrap_modulo_screen() {
    let mut c = Chip8::new();
    c.load_fontset();
    run(&mut c, 0xA050);
    run(&mut c, 0x6141); // 65 -> x 1
    run(&mut c, 0x6222); // 34 -> y 2
    run(&mut c, 0xD121);
    for x in 1..5 {
        assert_eq!(c.pixel(2 * DISPLAY_WIDTH + x), PIXEL_ON);
    }
    assert_eq!(lit_pixels(&c), 4);
}

#[test]
fn draw_past_memory_cannot_run() {
    let mut c = Chip8::new();
    run(&mut c, 0xAFFE);
    assert!(c.can_execute(0xD012));
    assert!(!c.can_execute(0xD013));
    assert!(c.can_execute(0xD010));
}

#[test]
fn key_skips() {
    let mut c = Chip8::new();
    let mut keys = [false; 16];
    keys[7] = true;
    c.process_input(keys);
    assert!(c.key(7));
    run(&mut c, 0x6307);
    run(&mut c, 0xE39E);
    assert_eq!(c.program_counter(), 0x202);
    run(&mut c, 0xE3A1);
    assert_eq!(c.program_counter(), 0x202);
    run(&mut c, 0x6308);
    run(&mut c, 0xE3A1);
    assert_eq!(c.program_counter(), 0x204);
    run(&mut c, 0xE39E);
    assert_eq!(c.program_counter(), 0x204);
}

#[test]
fn key_test_needs_valid_key_and_byte() {
    let mut c = Chip8::new();
    run(&mut c, 0x6310);
    assert!(!c.can_execute(0xE39E));
    run(&mut c, 0x630F);
    assert!(c.can_execute(0xE39E));
    assert!(!c.can_execute(0xE300));
}

#[test]
fn unknown_misc_byte_cannot_run() {
    let c = Chip8::new();
    assert!(!c.can_execute(0xF0FF));
    assert!(c.can_execute(0xF007));
}

#[test]
fn timers_and_registers() {
    let mut c = Chip8::new();
    run(&mut c, 0x6509);
    run(&mut c, 0xF515);
    run(&mut c, 0xF518);
    assert_eq!(c.delay_timer(), 9);
    assert_eq!(c.sound_timer(), 9);
    run(&mut c, 0xF607);
    assert_eq!(c.register(6), 9);
}

#[test]
fn wait_for_key_takes_lowest_pressed() {
    let mut c = Chip8::new();
    let mut keys = [false; 16];
    keys[11] = true;
    keys[4] = true;
    c.process_input(keys);
    run(&mut c, 0xF20A);
    assert_eq!(c.register(2), 4);
    assert_eq!(c.program_counter(), 0x200);
}

#[test]
fn wait_for_key_repeats_instruction() {
    let mut c = Chip8::new();
    c.load_rom(&[0xF2, 0x0A]);
    assert!(c.can_cycle());
    c.cycle();
    assert_eq!(c.program_counter(), 0x200);
    c.cycle();
    assert_eq!(c.program_counter(), 0x200);
    let mut keys = [false; 16];
    keys[3] = true;
    c.process_input(keys);
    c.cycle();
    assert_eq!(c.program_counter(), 0x202);
    assert_eq!(c.register(2), 3);
}

#[test]
fn add_to_index_saturates() {
    let mut c = Chip8::new();
    run(&mut c, 0xAFF0);
    run(&mut c, 0x6120);
    run(&mut c, 0xF11E);
    assert_eq!(c.index(), 0x1010);
    let mut c = Chip8::new();
    c.execute(0x61FF, 0);
    for _ in 0..300 {
        c.execute(0xF11E, 0);
    }
    assert_eq!(c.index(), 0xFFFF);
}

#[test]
fn font_address_of_digit() {
    let mut c = Chip8::new();
    c.load_fontset();
    run(&mut c, 0x640A);
    run(&mut c, 0xF429);
    assert_eq!(c.index(), 0x50 + 5 * 0xA);
    for k in 0..5 {
        assert_eq!(c.read(c.index() as usize + k), FONT[50 + k]);
    }
}

#[test]
fn decimal_digits() {
    let mut c = Chip8::new();
    run(&mut c, 0xA300);
    run(&mut c, 0x65FE);
    run(&mut c, 0xF533);
    assert_eq!(c.read(0x300), 2);
    assert_eq!(c.read(0x301), 5);
    assert_eq!(c.read(0x302), 4);
}

#[test]
fn decimal_digits_past_memory_cannot_run() {
    let mut c = Chip8::new();
    run(&mut c, 0xAFFE);
    assert!(!c.can_execute(0xF533));
    run(&mut c, 0xAFFD);
    assert!(c.can_execute(0xF533));
}

#[test]
fn store_then_load_registers() {
    let mut c = Chip8::new();
    for r in 0..4u16 {
        run(&mut c, 0x6000 | (r << 8) | (0x10 + r));
    }
    run(&mut c, 0xA400);
    run(&mut c, 0xF355);
    for r in 0..4 {
        assert_eq!(c.read(0x400 + r), 0x10 + r as u8);
    }
    assert_eq!(c.read(0x404), 0);
    for r in 0..4u16 {
        run(&mut c, 0x6000 | (r << 8));
    }
    run(&mut c, 0xF265);
    assert_eq!(c.register(0), 0x10);
    assert_eq!(c.register(1), 0x11);
    assert_eq!(c.register(2), 0x12);
    assert_eq!(c.register(3), 0);
}

#[test]
fn register_transfer_past_memory_cannot_run() {
    let mut c = Chip8::new();
    run(&mut c, 0xAFFD);
    assert!(c.can_execute(0xF255));
    assert!(!c.can_execute(0xF355));
    assert!(!c.can_execute(0xF365));
}

#[test]
fn cycle_fetches_executes_and_counts_down() {
    let mut c = Chip8::new();
    c.load_rom(&[0x6A, 0x05, 0x6B, 0x03, 0xFB, 0x15, 0xFB, 0x18]);
    c.cycle();
    assert_eq!(c.register(0xA), 5);
    assert_eq!(c.program_counter(), 0x202);
    c.cycle();
    c.cycle();
    assert_eq!(c.delay_timer(), 2);
    c.cycle();
    assert_eq!(c.delay_timer(), 1);
    assert_eq!(c.sound_timer(), 2);
    c.step(0);
    c.step(0);
    c.step(0);
    assert_eq!(c.delay_timer(), 0);
    assert_eq!(c.sound_timer(), 0);
}

#[test]
fn step_uses_given_random_byte() {
    let mut c = Chip8::new();
    c.load_rom(&[0xC7, 0xF0]);
    c.step(0x5A);
    assert_eq!(c.register(7), 0x50);
    assert_eq!(c.program_counter(), 0x202);
}

#[test]
fn cycle_at_end_of_memory_cannot_run() {
    let mut c = Chip8::new();
    run(&mut c, 0x1FFF);
    assert!(!c.can_cycle());
    run(&mut c, 0x1FFE);
    assert!(c.can_cycle());
}

#[test]
fn cycle_with_unrunnable_opcode_cannot_run() {
    let mut c = Chip8::new();
    c.load_rom(&[0x00, 0xEE]);
    assert!(!c.can_cycle());
}

#[test]
fn machine_code_zero_page_opcode_is_ignored() {
    let mut c = Chip8::new();
    run(&mut c, 0x0123);
    assert_eq!(c.program_counter(), 0x200);
}

#[test]
fn video_holds_only_dark_and_lit_pixels() {
    let mut c = Chip8::new();
    c.load_fontset();
    run(&mut c, 0xA050);
    for op in [0xD005u16, 0x6103, 0xD115, 0x6204, 0xD125, 0xD005] {
        run(&mut c, op);
        assert!(c.get_video().iter().all(|&p| p == 0 || p == PIXEL_ON));
    }
    assert!(lit_pixels(&c) > 0);
}
