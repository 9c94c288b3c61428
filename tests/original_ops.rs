#![allow(non_snake_case)]

use chichan::semantics::VIDEO_SIZE;
use chichan::Chip8;

#[test]
fn chip8_test_OP_00E0() {
    let mut chip = Chip8::new();
    Chip8::OP_00E0(&mut chip);
    let empty_video = [0 as u32; VIDEO_SIZE];

    let mut equal = true;

    for x in 0..chip.video.len() {
        if chip.video[x as usize] != empty_video[x as usize] {
            equal = false;
            break;
        }
    }

    assert!(equal);
}

#[test]
fn test_OP_00EE() {
    let mut chip = Chip8::new();
    chip.pc = 0x202;
    chip.opcode = 0x2300;
    chip.OP_2nnn().unwrap();
    assert_eq!(chip.pc, 0x300);
    assert_eq!(chip.sp, 1);

    chip.opcode = 0x00EE;
    chip.OP_00EE().unwrap();
    assert_eq!(chip.pc, 0x202);
    assert_eq!(chip.sp, 0);
}

#[test]
fn test_chip8_test_OP_00E0() {
    let mut chip = Chip8::new();
    Chip8::OP_00E0(&mut chip);
    let empty_video = [0 as u32; 32 * 64];

    let mut equal = true;

    for x in 0..chip.video.len() {
        if chip.video[x as usize] != empty_video[x as usize] {
            equal = false;
            break;
        }
    }

    assert!(equal);
}

#[test]
fn test_OP_8xy0() {
    let mut chip = Chip8::new();
    chip.registers[0x1] = 2;
    chip.registers[0x3] = 5;
    chip.opcode = 0x8130;

    chip.OP_8xy0();

    assert_eq!(chip.registers[0x1], chip.registers[0x3]);
}

#[test]
fn test_OP_8xy1() {
    let mut chip = Chip8::new();
    chip.registers[0x1] = 0b0011;
    chip.registers[0x2] = 0b1100;
    chip.opcode = 0x8121;

    chip.OP_8xy1();

    assert_eq!(0b1111, chip.registers[0x1]);
}

#[test]
fn test_OP_8xy2() {
    let mut chip = Chip8::new();
    chip.registers[0x1] = 0b0011;
    chip.registers[0x3] = 0b0001;
    chip.opcode = 0x8132;

    chip.OP_8xy2();
    let vx = chip.registers[0x1];
    let res: u8 = 0b0001;

    assert_eq!(vx, res);
}

#[test]
fn test_OP_8xy3() {
    let mut chip = Chip8::new();
    chip.registers[0x1] = 0b0011;
    chip.registers[0x3] = 0b0001;
    chip.opcode = 0x8133;

    chip.OP_8xy3();
    let vx = chip.registers[0x1];
    let res: u8 = 0b0010;
    assert_eq!(vx, res);
}

#[test]
fn test_OP_fx55() {
    let mut chip = Chip8::new();
    chip.registers[0x0] = 0x0;
    chip.registers[0x1] = 0xA;
    chip.opcode = 0xF355;
    chip.index = 1000;

    chip.OP_Fx55().unwrap();
    let v0 = chip.registers[0x0];
    let v1 = chip.registers[0x1];

    let m0 = chip.memory[chip.index as usize];
    let m1 = chip.memory[chip.index as usize + 1];

    assert_eq!(v0, m0);
    assert_eq!(v1, m1);
}
