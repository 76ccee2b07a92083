use chip8::{Chip8, Chip8Error, Opcode};

fn init_cpu_with_program(program: Vec<u8>) -> Chip8 {
    let mut cpu = Chip8::new();
    cpu.load_program(program).unwrap();
    cpu
}

#[test]
fn test_call() {
    let mut cpu = init_cpu_with_program(vec![0x22, 0x22]);
    cpu.emulate_cycle().unwrap();
    assert_eq!(cpu.pc, 0x222);
}

#[test]
fn test_call_and_return() {
    let mut cpu = init_cpu_with_program(vec![0x22, 0x04, 0x00, 0x00, 0x00, 0xEE]);
    cpu.emulate_cycle().unwrap();
    cpu.emulate_cycle().unwrap();
    println!("Stack: {:X?}", cpu.stack);
    println!("PC: {:X}", cpu.pc);
    assert_eq!(cpu.pc, 0x202);
}

#[test]
fn new_machine_holds_font_and_starts_at_program_address() {
    let cpu = Chip8::new();
    assert_eq!(cpu.pc, 0x200);
    assert_eq!(cpu.sp, 0);
    assert_eq!(&cpu.memory[0..5], &[0xF0, 0x90, 0x90, 0x90, 0xF0]);
    assert_eq!(&cpu.memory[75..80], &[0xF0, 0x80, 0xF0, 0x80, 0x80]);
    assert!(cpu.memory[80..].iter().all(|&b| b == 0));
    assert!(cpu.graphics.iter().all(|&p| !p));
}

#[test]
fn load_immediate_sets_each_register() {
    for x in 0..16u16 {
        let mut cpu = Chip8::new();
        cpu.decode_opcode(0x6000 | (x << 8) | 0x5A, 0).unwrap();
        assert_eq!(cpu.V[x as usize], 0x5A);
        assert_eq!(cpu.pc, 0x202);
    }
}

#[test]
fn add_registers_sets_carry() {
    let mut cpu = Chip8::new();
    cpu.V[1] = 0xFF;
    cpu.V[2] = 0x01;
    cpu.decode_opcode(0x8124, 0).unwrap();
    assert_eq!(cpu.V[1], 0x00);
    assert_eq!(cpu.V[0xF], 1);
    cpu.V[1] = 0x01;
    cpu.V[2] = 0x01;
    cpu.decode_opcode(0x8124, 0).unwrap();
    assert_eq!(cpu.V[1], 0x02);
    assert_eq!(cpu.V[0xF], 0);
}

#[test]
fn subtract_registers_sets_no_borrow_flag() {
    let mut cpu = Chip8::new();
    cpu.V[3] = 0x01;
    cpu.V[4] = 0x02;
    cpu.decode_opcode(0x8345, 0).unwrap();
    assert_eq!(cpu.V[3], 0xFF);
    assert_eq!(cpu.V[0xF], 0);
    cpu.V[3] = 0x02;
    cpu.V[4] = 0x01;
    cpu.decode_opcode(0x8345, 0).unwrap();
    assert_eq!(cpu.V[3], 0x01);
    assert_eq!(cpu.V[0xF], 1);
    cpu.V[3] = 0x07;
    cpu.V[4] = 0x07;
    cpu.decode_opcode(0x8345, 0).unwrap();
    assert_eq!(cpu.V[3], 0x00);
    assert_eq!(cpu.V[0xF], 1);
}

#[test]
fn flag_wins_when_target_is_vf() {
    let mut cpu = Chip8::new();
    cpu.V[0xF] = 0xFF;
    cpu.V[1] = 0x01;
    cpu.decode_opcode(0x8F14, 0).unwrap();
    assert_eq!(cpu.V[0xF], 1);
}

#[test]
fn reverse_subtract_and_shifts() {
    let mut cpu = Chip8::new();
    cpu.V[0] = 0x05;
    cpu.V[1] = 0x03;
    cpu.decode_opcode(0x8017, 0).unwrap();
    assert_eq!(cpu.V[0], 0xFE);
    assert_eq!(cpu.V[0xF], 0);
    cpu.V[2] = 0x81;
    cpu.decode_opcode(0x8206, 0).unwrap();
    assert_eq!(cpu.V[2], 0x40);
    assert_eq!(cpu.V[0xF], 1);
    cpu.V[2] = 0x81;
    cpu.decode_opcode(0x820E, 0).unwrap();
    assert_eq!(cpu.V[2], 0x02);
    assert_eq!(cpu.V[0xF], 1);
    cpu.V[2] = 0x40;
    cpu.decode_opcode(0x820E, 0).unwrap();
    assert_eq!(cpu.V[2], 0x80);
    assert_eq!(cpu.V[0xF], 0);
}

#[test]
fn logic_and_add_immediate() {
    let mut cpu = Chip8::new();
    cpu.V[0] = 0b1100;
    cpu.V[1] = 0b1010;
    cpu.decode_opcode(0x8011, 0).unwrap();
    assert_eq!(cpu.V[0], 0b1110);
    cpu.V[0] = 0b1100;
    cpu.decode_opcode(0x8012, 0).unwrap();
    assert_eq!(cpu.V[0], 0b1000);
    cpu.V[0] = 0b1100;
    cpu.decode_opcode(0x8013, 0).unwrap();
    assert_eq!(cpu.V[0], 0b0110);
    cpu.decode_opcode(0x8010, 0).unwrap();
    assert_eq!(cpu.V[0], 0b1010);
    cpu.V[5] = 0xF0;
    cpu.V[0xF] = 7;
    cpu.decode_opcode(0x7520, 0).unwrap();
    assert_eq!(cpu.V[5], 0x10);
    assert_eq!(cpu.V[0xF], 7);
}

#[test]
fn clear_display_darkens_every_pixel() {
    let mut cpu = Chip8::new();
    for k in 0..cpu.graphics.len() {
        cpu.graphics[k] = k % 3 == 0;
    }
    cpu.decode_opcode(0x00E0, 0).unwrap();
    for y in 0..32 {
        for x in 0..64 {
            assert!(!cpu.pixel_at(x, y));
        }
    }
    assert_eq!(cpu.pc, 0x202);
}

#[test]
fn call_then_return_restores_counter_and_stack() {
    let mut cpu = Chip8::new();
    cpu.pc = 0x300;
    cpu.decode_opcode(0x2ABC, 0).unwrap();
    assert_eq!(cpu.pc, 0xABC);
    assert_eq!(cpu.sp, 1);
    cpu.decode_opcode(0x00EE, 0).unwrap();
    assert_eq!(cpu.pc, 0x302);
    assert_eq!(cpu.sp, 0);
}

#[test]
fn call_with_full_stack_overflows() {
    let mut cpu = Chip8::new();
    for _ in 0..16 {
        cpu.decode_opcode(0x2400, 0).unwrap();
    }
    assert_eq!(cpu.sp, 16);
    let before_pc = cpu.pc;
    assert_eq!(cpu.decode_opcode(0x2400, 0), Err(Chip8Error::StackOverflow));
    assert_eq!(cpu.sp, 16);
    assert_eq!(cpu.pc, before_pc);
}

#[test]
fn return_with_empty_stack_underflows() {
    let mut cpu = Chip8::new();
    assert_eq!(cpu.decode_opcode(0x00EE, 0), Err(Chip8Error::StackUnderflow));
    assert_eq!(cpu.pc, 0x200);
    assert_eq!(cpu.sp, 0);
}

#[test]
fn unknown_secondary_selectors_are_refused() {
    let mut cpu = Chip8::new();
    for word in [0x0123u16, 0x8008, 0x800F, 0xE0FF, 0xF0FF] {
        assert_eq!(cpu.decode_opcode(word, 0), Err(Chip8Error::UnrecognizedInstruction));
        assert_eq!(cpu.pc, 0x200);
    }
}

#[test]
fn error_in_cycle_leaves_timers() {
    let mut cpu = init_cpu_with_program(vec![0x00, 0xEE]);
    cpu.delay = 5;
    assert_eq!(cpu.emulate_cycle_with(0), Err(Chip8Error::StackUnderflow));
    assert_eq!(cpu.delay, 5);
    assert_eq!(cpu.pc, 0x200);
}

#[test]
fn bcd_of_156() {
    let mut cpu = Chip8::new();
    cpu.V[7] = 156;
    cpu.I = 0x300;
    cpu.decode_opcode(0xF733, 0).unwrap();
    assert_eq!(&cpu.memory[0x300..0x303], &[1, 5, 6]);
}

#[test]
fn bcd_wraps_at_end_of_memory() {
    let mut cpu = Chip8::new();
    cpu.V[0] = 42;
    cpu.I = 0xFFF;
    cpu.decode_opcode(0xF033, 0).unwrap();
    assert_eq!(cpu.memory[0xFFF], 0);
    assert_eq!(cpu.memory[0x000], 4);
    assert_eq!(cpu.memory[0x001], 2);
}

#[test]
fn sprite_drawn_twice_restores_and_collides() {
    let mut cpu = Chip8::new();
    cpu.memory[0x300] = 0b1010_0000;
    cpu.memory[0x301] = 0b0101_0000;
    cpu.I = 0x300;
    cpu.V[0] = 10;
    cpu.V[1] = 5;
    cpu.graphics[10 + 6 * 64] = true;
    let before = cpu.graphics;
    cpu.decode_opcode(0xD012, 0).unwrap();
    assert_eq!(cpu.V[0xF], 0);
    assert!(cpu.pixel_at(10, 5));
    assert!(!cpu.pixel_at(11, 5));
    assert!(cpu.pixel_at(12, 5));
    assert!(cpu.pixel_at(11, 6));
    assert!(cpu.pixel_at(10, 6));
    cpu.decode_opcode(0xD012, 0).unwrap();
    assert_eq!(cpu.V[0xF], 1);
    assert_eq!(cpu.graphics, before);
}

#[test]
fn sprite_over_lit_pixel_collides() {
    let mut cpu = Chip8::new();
    cpu.memory[0x300] = 0x80;
    cpu.I = 0x300;
    cpu.graphics[0] = true;
    cpu.decode_opcode(0xD011, 0).unwrap();
    assert_eq!(cpu.V[0xF], 1);
    assert!(!cpu.pixel_at(0, 0));
}

#[test]
fn sprite_wraps_right_edge_and_drops_rows_below() {
    let mut cpu = Chip8::new();
    cpu.memory[0x300] = 0xFF;
    cpu.memory[0x301] = 0xFF;
    cpu.I = 0x300;
    cpu.V[0] = 60;
    cpu.V[1] = 31;
    cpu.decode_opcode(0xD012, 0).unwrap();
    for x in [60, 61, 62, 63, 0, 1, 2, 3] {
        assert!(cpu.pixel_at(x, 31));
    }
    assert!(!cpu.pixel_at(4, 31));
    assert!(!cpu.pixel_at(59, 31));
    assert_eq!(cpu.graphics.iter().filter(|&&p| p).count(), 8);
    assert_eq!(cpu.V[0xF], 0);
}

#[test]
fn font_glyph_draws_digit() {
    let mut cpu = Chip8::new();
    cpu.V[2] = 0xA;
    cpu.decode_opcode(0xF229, 0).unwrap();
    assert_eq!(cpu.I, 50);
    cpu.V[0] = 0;
    cpu.V[1] = 0;
    cpu.decode_opcode(0xD015, 0).unwrap();
    assert_eq!(cpu.pixel_byte_at(0, 0), [true, true, true, true, false, false, false, false]);
    assert_eq!(cpu.pixel_byte_at(0, 1), [true, false, false, true, false, false, false, false]);
}

#[test]
fn key_wait_stalls_until_key_pressed() {
    let mut cpu = init_cpu_with_program(vec![0xF3, 0x0A]);
    cpu.V[3] = 0x77;
    for _ in 0..5 {
        cpu.emulate_cycle().unwrap();
        assert_eq!(cpu.pc, 0x200);
        assert_eq!(cpu.V[3], 0x77);
    }
    cpu.keyboard[9] = true;
    cpu.keyboard[12] = true;
    cpu.emulate_cycle().unwrap();
    assert_eq!(cpu.pc, 0x202);
    assert_eq!(cpu.V[3], 9);
}

#[test]
fn end_to_end_set_index() {
    let mut cpu = init_cpu_with_program(vec![0xA2, 0xF0]);
    cpu.emulate_cycle().unwrap();
    assert_eq!(cpu.I, 0x2F0);
    assert_eq!(cpu.pc, 0x202);
}

#[test]
fn program_of_largest_size_loads_and_longer_is_refused() {
    let mut cpu = Chip8::new();
    assert_eq!(cpu.load_program(vec![0xAB; 4096 - 0x200]), Ok(()));
    assert_eq!(cpu.memory[0x200], 0xAB);
    assert_eq!(cpu.memory[0xFFF], 0xAB);
    let mut fresh = Chip8::new();
    assert_eq!(fresh.load_program(vec![0xCD; 4096 - 0x200 + 1]), Err(Chip8Error::LoadOverflow));
    assert!(fresh.memory[0x200..].iter().all(|&b| b == 0));
    let mut empty = Chip8::new();
    assert_eq!(empty.load_program(Vec::new()), Ok(()));
    assert_eq!(empty.memory, Chip8::new().memory);
}

#[test]
fn skips_advance_past_next_instruction() {
    let mut cpu = Chip8::new();
    cpu.V[1] = 0x33;
    cpu.V[2] = 0x33;
    cpu.decode_opcode(0x3133, 0).unwrap();
    assert_eq!(cpu.pc, 0x204);
    cpu.decode_opcode(0x3134, 0).unwrap();
    assert_eq!(cpu.pc, 0x206);
    cpu.decode_opcode(0x4134, 0).unwrap();
    assert_eq!(cpu.pc, 0x20A);
    cpu.decode_opcode(0x5120, 0).unwrap();
    assert_eq!(cpu.pc, 0x20E);
    cpu.decode_opcode(0x9120, 0).unwrap();
    assert_eq!(cpu.pc, 0x210);
}

#[test]
fn key_skips_follow_keyboard() {
    let mut cpu = Chip8::new();
    cpu.V[0] = 4;
    cpu.decode_opcode(0xE09E, 0).unwrap();
    assert_eq!(cpu.pc, 0x202);
    cpu.keyboard[4] = true;
    cpu.decode_opcode(0xE09E, 0).unwrap();
    assert_eq!(cpu.pc, 0x206);
    cpu.decode_opcode(0xE0A1, 0).unwrap();
    assert_eq!(cpu.pc, 0x208);
    cpu.V[0] = 200;
    cpu.decode_opcode(0xE0A1, 0).unwrap();
    assert_eq!(cpu.pc, 0x20C);
}

#[test]
fn jumps_set_counter() {
    let mut cpu = Chip8::new();
    cpu.decode_opcode(0x1345, 0).unwrap();
    assert_eq!(cpu.pc, 0x345);
    cpu.V[0] = 0x10;
    cpu.decode_opcode(0xB300, 0).unwrap();
    assert_eq!(cpu.pc, 0x310);
    cpu.V[0] = 0xFF;
    cpu.decode_opcode(0xBFFF, 0).unwrap();
    assert_eq!(cpu.pc, 0x0FE);
}

#[test]
fn counter_wraps_to_program_start() {
    let mut cpu = Chip8::new();
    cpu.pc = 4094;
    cpu.decode_opcode(0x6000, 0).unwrap();
    assert_eq!(cpu.pc, 0x200);
}

#[test]
fn index_register_instructions() {
    let mut cpu = Chip8::new();
    cpu.decode_opcode(0xA123, 0).unwrap();
    assert_eq!(cpu.I, 0x123);
    cpu.V[4] = 0x10;
    cpu.decode_opcode(0xF41E, 0).unwrap();
    assert_eq!(cpu.I, 0x133);
    cpu.I = 0xFFFF;
    cpu.V[4] = 2;
    cpu.decode_opcode(0xF41E, 0).unwrap();
    assert_eq!(cpu.I, 1);
}

#[test]
fn register_dump_and_load_exclude_vx() {
    let mut cpu = Chip8::new();
    for k in 0..16 {
        cpu.V[k] = (k as u8) + 1;
    }
    cpu.I = 0x400;
    cpu.decode_opcode(0xF355, 0).unwrap();
    assert_eq!(&cpu.memory[0x400..0x404], &[1, 2, 3, 0]);
    cpu.memory[0x500] = 9;
    cpu.memory[0x501] = 8;
    cpu.memory[0x502] = 7;
    cpu.I = 0x500;
    cpu.decode_opcode(0xF265, 0).unwrap();
    assert_eq!(&cpu.V[0..4], &[9, 8, 3, 4]);
}

#[test]
fn timers_move_toward_zero_each_cycle() {
    let mut cpu = init_cpu_with_program(vec![0x60, 0x09, 0xF0, 0x15, 0xF0, 0x18, 0xF1, 0x07]);
    cpu.emulate_cycle().unwrap();
    cpu.emulate_cycle().unwrap();
    assert_eq!(cpu.delay, 8);
    cpu.emulate_cycle().unwrap();
    assert_eq!(cpu.sound, 8);
    assert_eq!(cpu.delay, 7);
    cpu.emulate_cycle().unwrap();
    assert_eq!(cpu.V[1], 7);
    assert_eq!(cpu.delay, 6);
    let mut idle = Chip8::new();
    idle.decrement_timers();
    assert_eq!(idle.delay, 0);
    assert_eq!(idle.sound, 0);
}

#[test]
fn random_byte_is_masked() {
    let mut cpu = Chip8::new();
    cpu.decode_opcode(0xC50F, 0xAB).unwrap();
    assert_eq!(cpu.V[5], 0x0B);
    let mut drawn = init_cpu_with_program(vec![0xC6, 0x00, 0xC7, 0x0F]);
    drawn.V[6] = 0x55;
    drawn.emulate_cycle().unwrap();
    assert_eq!(drawn.V[6], 0);
    drawn.emulate_cycle().unwrap();
    assert!(drawn.V[7] <= 0x0F);
}

#[test]
fn opcode_fields_and_bytes() {
    assert_eq!(Chip8::bytes_from_opcode(0xABCD), (0xAB, 0xCD));
    let op = Opcode::from(0xD123u16);
    assert_eq!(op.high_byte, 0xD1);
    assert_eq!(op.low_byte, 0x23);
    assert_eq!(op.instruction, 0xD);
    assert_eq!(op.x, 1);
    assert_eq!(op.y, 2);
    assert_eq!(op.n, 3);
    assert_eq!(op.nnn, 0x123);
}

#[test]
fn pixel_rows_and_bytes_convert() {
    let bits = Chip8::bool_array_from_byte(0b1001_0110);
    assert_eq!(bits, [true, false, false, true, false, true, true, false]);
    assert_eq!(Chip8::byte_from_bool_array(bits), 0b1001_0110);
    let mut cpu = Chip8::new();
    cpu.graphics[63 + 2 * 64] = true;
    cpu.graphics[1 + 2 * 64] = true;
    assert_eq!(cpu.pixel_byte_at(63, 2), [true, false, true, false, false, false, false, false]);
}

#[test]
fn opcode_from_two_bytes_matches_word() {
    let op = Opcode::from((0xD1u8, 0x23u8));
    assert_eq!(op, Opcode::from(0xD123u16));
    assert_eq!(op.nnn, 0x123);
    assert_eq!(op.instruction, 0xD);
    assert_eq!(op.x, 1);
    assert_eq!(op.y, 2);
    assert_eq!(op.n, 3);
}
