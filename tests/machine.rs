#![allow(non_snake_case)]

use chichan::semantics::{MAX_ROM_SIZE, PIXEL_ON, START_ADDRESS, VIDEO_WIDTH};
use chichan::{Chip8, Chip8Error};

/// A machine with `program` loaded at the start address.
fn machine_with(program: &[u8]) -> Chip8 {
    let mut chip = Chip8::new();
    chip.load_rom(program).unwrap();
    chip
}

#[test]
fn new_machine_state() {
    let chip = Chip8::new();
    assert_eq!(chip.pc, 0x200);
    assert_eq!(chip.sp, 0);
    assert_eq!(chip.index, 0);
    assert_eq!(chip.memory[0x50], 0xF0);
    assert_eq!(chip.memory[0x55], 0x20);
    assert_eq!(chip.memory[0x9F], 0x80);
    assert_eq!(chip.memory[0x4F], 0);
    assert_eq!(chip.memory[0xA0], 0);
    assert!(chip.registers.iter().all(|&r| r == 0));
    assert!(chip.video.iter().all(|&p| p == 0));
    assert!(chip.keypad.iter().all(|&k| !k));
}

#[test]
fn rom_of_largest_size_loads() {
    let rom: Vec<u8> = (0..MAX_ROM_SIZE).map(|i| (i % 251) as u8).collect();
    let mut chip = Chip8::new();
    assert_eq!(chip.load_rom(&rom), Ok(()));
    assert_eq!(chip.memory[START_ADDRESS], 0);
    assert_eq!(chip.memory[START_ADDRESS + 300], (300 % 251) as u8);
    assert_eq!(chip.memory[4095], ((MAX_ROM_SIZE - 1) % 251) as u8);
    assert_eq!(chip.memory[0x50], 0xF0);
}

#[test]
fn rom_one_byte_too_large_is_refused() {
    let rom = vec![0xAAu8; MAX_ROM_SIZE + 1];
    let mut chip = Chip8::new();
    assert_eq!(chip.load_rom(&rom), Err(Chip8Error::RomTooLarge));
    assert_eq!(chip.memory[START_ADDRESS], 0);
}

#[test]
fn empty_rom_changes_nothing() {
    let mut chip = Chip8::new();
    assert_eq!(chip.load_rom(&[]), Ok(()));
    assert_eq!(chip.memory[START_ADDRESS], 0);
}

#[test]
fn step_fetches_big_endian_and_ticks_timers() {
    let mut chip = machine_with(&[0x61, 0x2A]);
    chip.delay_timer = 3;
    chip.sound_timer = 0;
    assert_eq!(chip.step(0), Ok(()));
    assert_eq!(chip.opcode, 0x612A);
    assert_eq!(chip.registers[1], 0x2A);
    assert_eq!(chip.pc, 0x202);
    assert_eq!(chip.delay_timer, 2);
    assert_eq!(chip.sound_timer, 0);
}

#[test]
fn fetch_past_memory_is_out_of_bounds() {
    let mut chip = Chip8::new();
    chip.pc = 0xFFF;
    assert_eq!(chip.step(0), Err(Chip8Error::OutOfBounds));
    assert_eq!(chip.pc, 0xFFF);
}

#[test]
fn unknown_opcode_is_a_no_op() {
    let mut chip = machine_with(&[0xE0, 0xFF]);
    chip.registers[0] = 7;
    assert_eq!(chip.step(0), Ok(()));
    assert_eq!(chip.pc, 0x202);
    assert_eq!(chip.registers[0], 7);
}

#[test]
fn call_then_return_restores_pc_and_sp() {
    // 0x200: CALL 0x204; 0x204: RET
    let mut chip = machine_with(&[0x22, 0x04, 0x00, 0x00, 0x00, 0xEE]);
    assert_eq!(chip.step(0), Ok(()));
    assert_eq!(chip.pc, 0x204);
    assert_eq!(chip.sp, 1);
    assert_eq!(chip.stack[0], 0x202);
    assert_eq!(chip.step(0), Ok(()));
    assert_eq!(chip.pc, 0x202);
    assert_eq!(chip.sp, 0);
}

#[test]
fn return_on_empty_stack_underflows() {
    let mut chip = machine_with(&[0x00, 0xEE]);
    assert_eq!(chip.step(0), Err(Chip8Error::StackUnderflow));
    assert_eq!(chip.sp, 0);
}

#[test]
fn seventeenth_call_overflows() {
    // 0x200: CALL 0x200, forever
    let mut chip = machine_with(&[0x22, 0x00]);
    for _ in 0..16 {
        assert_eq!(chip.step(0), Ok(()));
    }
    assert_eq!(chip.sp, 16);
    assert_eq!(chip.step(0), Err(Chip8Error::StackOverflow));
    assert_eq!(chip.sp, 16);
}

#[test]
fn add_with_carry_example() {
    let mut chip = Chip8::new();
    chip.registers[1] = 0xFF;
    chip.registers[2] = 0x01;
    chip.opcode = 0x8124;
    chip.OP_8xy4();
    assert_eq!(chip.registers[1], 0x00);
    assert_eq!(chip.registers[0xF], 1);
}

#[test]
fn add_without_carry_is_exact() {
    let mut chip = Chip8::new();
    chip.registers[1] = 200;
    chip.registers[2] = 55;
    chip.registers[0xF] = 1;
    chip.opcode = 0x8124;
    chip.OP_8xy4();
    assert_eq!(chip.registers[1], 255);
    assert_eq!(chip.registers[0xF], 0);
}

#[test]
fn logic_on_same_register() {
    let mut chip = Chip8::new();
    chip.registers[4] = 0b1010_0110;
    chip.opcode = 0x8441;
    chip.OP_8xy1();
    assert_eq!(chip.registers[4], 0b1010_0110);
    chip.opcode = 0x8442;
    chip.OP_8xy2();
    assert_eq!(chip.registers[4], 0b1010_0110);
    chip.opcode = 0x8443;
    chip.OP_8xy3();
    assert_eq!(chip.registers[4], 0);
}

#[test]
fn subtract_and_reverse_subtract() {
    let mut chip = Chip8::new();
    chip.registers[1] = 10;
    chip.registers[2] = 3;
    chip.opcode = 0x8125;
    chip.OP_8xy5();
    assert_eq!(chip.registers[1], 7);
    assert_eq!(chip.registers[0xF], 1);

    chip.registers[1] = 3;
    chip.registers[2] = 10;
    chip.OP_8xy5();
    assert_eq!(chip.registers[1], 249);
    assert_eq!(chip.registers[0xF], 0);

    chip.registers[1] = 3;
    chip.registers[2] = 10;
    chip.opcode = 0x8127;
    chip.OP_8xy7();
    assert_eq!(chip.registers[1], 7);
    assert_eq!(chip.registers[0xF], 1);
}

#[test]
fn shifts_set_flag_from_shifted_bit() {
    let mut chip = Chip8::new();
    chip.registers[3] = 0b1000_0101;
    chip.opcode = 0x8306;
    chip.OP_8xy6();
    assert_eq!(chip.registers[3], 0b0100_0010);
    assert_eq!(chip.registers[0xF], 1);

    chip.registers[3] = 0b1000_0101;
    chip.opcode = 0x830E;
    chip.OP_8xyE();
    assert_eq!(chip.registers[3], 0b0000_1010);
    assert_eq!(chip.registers[0xF], 1);
}

#[test]
fn add_immediate_wraps_without_flag() {
    let mut chip = Chip8::new();
    chip.registers[5] = 250;
    chip.opcode = 0x750A;
    chip.OP_7xkk();
    assert_eq!(chip.registers[5], 4);
    assert_eq!(chip.registers[0xF], 0);
}

#[test]
fn skips_advance_by_two() {
    let mut chip = Chip8::new();
    chip.registers[2] = 0x33;
    chip.opcode = 0x3233;
    chip.OP_3xkk();
    assert_eq!(chip.pc, 0x202);
    chip.opcode = 0x4233;
    chip.OP_4xkk();
    assert_eq!(chip.pc, 0x202);
    chip.registers[3] = 0x34;
    chip.opcode = 0x9230;
    chip.OP_9xy0();
    assert_eq!(chip.pc, 0x204);
    chip.opcode = 0x5230;
    chip.OP_5xy0();
    assert_eq!(chip.pc, 0x204);
}

#[test]
fn jumps_and_index() {
    let mut chip = Chip8::new();
    chip.opcode = 0x1ABC;
    chip.OP_1nnn();
    assert_eq!(chip.pc, 0xABC);
    chip.registers[0] = 0x10;
    chip.opcode = 0xB300;
    chip.OP_Bnnn();
    assert_eq!(chip.pc, 0x310);
    chip.opcode = 0xA123;
    chip.OP_Annn();
    assert_eq!(chip.index, 0x123);
    chip.registers[6] = 0x20;
    chip.opcode = 0xF61E;
    chip.OP_Fx1E();
    assert_eq!(chip.index, 0x143);
}

#[test]
fn random_byte_is_masked() {
    let mut chip = Chip8::new();
    chip.opcode = 0xC30F;
    chip.OP_Cxkk_with(0xAB);
    assert_eq!(chip.registers[3], 0x0B);
    chip.opcode = 0xC400;
    chip.registers[4] = 9;
    chip.OP_Cxkk();
    assert_eq!(chip.registers[4], 0);
    chip.opcode = 0xC40F;
    chip.OP_Cxkk();
    assert!(chip.registers[4] <= 0x0F);
}

#[test]
fn cycle_runs_a_random_instruction() {
    let mut chip = machine_with(&[0xC5, 0x00]);
    chip.registers[5] = 0x77;
    assert_eq!(chip.cycle(), Ok(()));
    assert_eq!(chip.registers[5], 0);
    assert_eq!(chip.pc, 0x202);
}

#[test]
fn draw_twice_clears_and_collides() {
    let mut chip = Chip8::new();
    chip.index = 0x50; // glyph "0"
    chip.opcode = 0xD015;
    assert_eq!(chip.OP_Dxyn(), Ok(()));
    assert_eq!(chip.registers[0xF], 0);
    assert_eq!(chip.video[0], PIXEL_ON);
    assert_eq!(chip.video[4], 0);
    assert_eq!(chip.video[VIDEO_WIDTH], PIXEL_ON);
    assert_eq!(chip.video[VIDEO_WIDTH + 1], 0);
    assert_eq!(chip.OP_Dxyn(), Ok(()));
    assert_eq!(chip.registers[0xF], 1);
    assert!(chip.video.iter().all(|&p| p == 0));
}

#[test]
fn draw_wraps_at_right_and_bottom_edges() {
    let mut chip = Chip8::new();
    chip.memory[0x300] = 0xFF;
    chip.memory[0x301] = 0x80;
    chip.index = 0x300;
    chip.registers[1] = 63;
    chip.registers[2] = 31;
    chip.opcode = 0xD122;
    assert_eq!(chip.OP_Dxyn(), Ok(()));
    let row31 = 31 * VIDEO_WIDTH;
    assert_eq!(chip.video[row31 + 63], PIXEL_ON);
    for x in 0..7 {
        assert_eq!(chip.video[row31 + x], PIXEL_ON);
    }
    assert_eq!(chip.video[row31 + 7], 0);
    // second sprite row wraps to screen row 0
    assert_eq!(chip.video[63], PIXEL_ON);
    assert_eq!(chip.video[0], 0);
    assert_eq!(chip.registers[0xF], 0);
}

#[test]
fn draw_reading_past_memory_is_out_of_bounds() {
    let mut chip = Chip8::new();
    chip.index = 4094;
    chip.opcode = 0xD003;
    assert_eq!(chip.OP_Dxyn(), Err(Chip8Error::OutOfBounds));
    assert!(chip.video.iter().all(|&p| p == 0));
}

#[test]
fn store_then_load_registers_round_trip() {
    let mut chip = Chip8::new();
    for i in 0..16 {
        chip.registers[i] = (i as u8) * 3 + 1;
    }
    let saved = chip.registers;
    chip.index = 0x400;
    chip.opcode = 0xF755;
    assert_eq!(chip.OP_Fx55(), Ok(()));
    assert_eq!(chip.memory[0x407], saved[7]);
    assert_eq!(chip.memory[0x408], 0);
    for i in 0..8 {
        chip.registers[i] = 0;
    }
    chip.opcode = 0xF765;
    assert_eq!(chip.OP_Fx65(), Ok(()));
    assert_eq!(chip.registers, saved);
}

#[test]
fn register_store_past_memory_is_out_of_bounds() {
    let mut chip = Chip8::new();
    chip.index = 4095;
    chip.opcode = 0xF155;
    assert_eq!(chip.OP_Fx55(), Err(Chip8Error::OutOfBounds));
    chip.opcode = 0xF165;
    assert_eq!(chip.OP_Fx65(), Err(Chip8Error::OutOfBounds));
    chip.opcode = 0xF055;
    assert_eq!(chip.OP_Fx55(), Ok(()));
}

#[test]
fn bcd_digits() {
    let mut chip = Chip8::new();
    chip.registers[2] = 254;
    chip.index = 0x300;
    chip.opcode = 0xF233;
    assert_eq!(chip.OP_Fx33(), Ok(()));
    assert_eq!(chip.memory[0x300], 2);
    assert_eq!(chip.memory[0x301], 5);
    assert_eq!(chip.memory[0x302], 4);
    chip.index = 4094;
    assert_eq!(chip.OP_Fx33(), Err(Chip8Error::OutOfBounds));
}

#[test]
fn font_address_and_timers() {
    let mut chip = Chip8::new();
    chip.registers[1] = 0xA;
    chip.opcode = 0xF129;
    chip.OP_Fx29();
    assert_eq!(chip.index, 0x50 + 50);
    chip.opcode = 0xF115;
    chip.OP_Fx15();
    assert_eq!(chip.delay_timer, 0xA);
    chip.opcode = 0xF118;
    chip.OP_Fx18();
    assert_eq!(chip.sound_timer, 0xA);
    chip.opcode = 0xF307;
    chip.OP_Fx07();
    assert_eq!(chip.registers[3], 0xA);
}

#[test]
fn key_skips() {
    let mut chip = Chip8::new();
    chip.registers[1] = 5;
    chip.keypad[5] = true;
    chip.opcode = 0xE19E;
    assert_eq!(chip.OP_Ex9E(), Ok(()));
    assert_eq!(chip.pc, 0x202);
    chip.opcode = 0xE1A1;
    assert_eq!(chip.OP_ExA1(), Ok(()));
    assert_eq!(chip.pc, 0x202);
    chip.registers[1] = 16;
    assert_eq!(chip.OP_ExA1(), Err(Chip8Error::OutOfBounds));
    chip.opcode = 0xE19E;
    assert_eq!(chip.OP_Ex9E(), Err(Chip8Error::OutOfBounds));
}

#[test]
fn wait_for_key_holds_then_stores_lowest() {
    let mut chip = machine_with(&[0xF4, 0x0A]);
    assert_eq!(chip.step(0), Ok(()));
    assert_eq!(chip.pc, 0x200);
    assert_eq!(chip.step(0), Ok(()));
    assert_eq!(chip.pc, 0x200);
    chip.keypad[9] = true;
    chip.keypad[5] = true;
    assert_eq!(chip.step(0), Ok(()));
    assert_eq!(chip.pc, 0x202);
    assert_eq!(chip.registers[4], 5);
}
