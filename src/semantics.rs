//! Mathematical model of the CHIP-8 machine and the meaning of each instruction.
use vstd::arithmetic::div_mod::{lemma_fundamental_div_mod, lemma_fundamental_div_mod_converse};
use vstd::prelude::*;

verus! {

/// Size of the addressable memory, in bytes.
pub const MEM_SIZE: usize = 4096;

/// Address at which program code is loaded.
pub const START_ADDRESS: usize = 0x200;

/// Largest ROM that fits between `START_ADDRESS` and the end of memory.
pub const MAX_ROM_SIZE: usize = 3584;

/// Address of the first byte of the built-in font set.
pub const FONT_SET_START_ADDRESS: usize = 0x50;

/// Number of bytes of the built-in font set (16 glyphs of 5 bytes).
pub const FONT_SET_SIZE: usize = 80;

pub const VIDEO_WIDTH: usize = 64;

pub const VIDEO_HEIGHT: usize = 32;

/// Number of pixels of the framebuffer (`VIDEO_WIDTH * VIDEO_HEIGHT`).
pub const VIDEO_SIZE: usize = 2048;

/// Capacity of the return-address stack.
pub const STACK_SIZE: usize = 16;

/// Value of a pixel that is set; a clear pixel holds 0.
pub const PIXEL_ON: u32 = 0xFFFF_FFFF;

/// Faults that the machine reports instead of panicking.
///
/// An opcode with no meaning is not a fault: it executes as a no-op.
#[derive(Debug, Clone, Copy, PartialEq, Eq, Structural)]
pub enum Chip8Error {
    /// The ROM does not fit in program memory.
    RomTooLarge,
    /// A fetch, a memory-indirect access or a key index falls outside its range.
    OutOfBounds,
    /// A call with all 16 stack slots in use (or a stack pointer past the stack).
    StackOverflow,
    /// A return with an empty stack.
    StackUnderflow,
}

/// The state of a machine, as mathematical values.
pub struct Chip8View {
    pub memory: Seq<u8>,
    pub registers: Seq<u8>,
    pub index: u16,
    pub pc: u16,
    pub stack: Seq<u16>,
    pub sp: u8,
    pub delay_timer: u8,
    pub sound_timer: u8,
    pub keypad: Seq<bool>,
    pub video: Seq<u32>,
    pub opcode: u16,
}

impl Chip8View {
    /// The sizes of the machine's parts, and a stack pointer within the stack.
    pub open spec fn wf(self) -> bool {
        &&& self.memory.len() == MEM_SIZE
        &&& self.registers.len() == 16
        &&& self.stack.len() == STACK_SIZE
        &&& self.keypad.len() == 16
        &&& self.video.len() == VIDEO_SIZE
        &&& self.sp <= STACK_SIZE
        &&& forall|p: int|
            0 <= p < self.video.len() ==> #[trigger] self.video[p] == 0 || self.video[p] == PIXEL_ON
    }

    pub open spec fn reg(self, i: int) -> int {
        self.registers[i] as int
    }
}

// ---------------------------------------------------------------------------
// Operand fields of an opcode.

/// High nibble: the instruction class.
pub open spec fn op_class(op: u16) -> int {
    op as int / 0x1000
}

/// Bits 8-11: the first register operand.
pub open spec fn op_x(op: u16) -> int {
    (op as int / 0x100) % 16
}

/// Bits 4-7: the second register operand.
pub open spec fn op_y(op: u16) -> int {
    (op as int / 0x10) % 16
}

/// Bits 0-3: a nibble count, or the secondary selector of classes 0, 8 and E.
pub open spec fn op_n(op: u16) -> int {
    op as int % 16
}

/// Bits 0-7: an immediate byte, or the secondary selector of class F.
pub open spec fn op_kk(op: u16) -> int {
    op as int % 0x100
}

/// Bits 0-11: an address.
pub open spec fn op_nnn(op: u16) -> int {
    op as int % 0x1000
}

// ---------------------------------------------------------------------------
// Small helpers over states.

/// `v` reduced to 16 bits.
pub open spec fn wrap16(v: int) -> u16 {
    (v % 0x10000) as u16
}

pub open spec fn with_reg(s: Chip8View, i: int, v: int) -> Chip8View {
    Chip8View { registers: s.registers.update(i, v as u8), ..s }
}

/// The flag register is written first, then `registers[x]`, so that `x == 0xF`
/// leaves the result in the flag register.
pub open spec fn with_flag_and_reg(s: Chip8View, flag: int, x: int, v: int) -> Chip8View {
    with_reg(with_reg(s, 0xF, flag), x, v)
}

pub open spec fn skip_next(s: Chip8View) -> Chip8View {
    Chip8View { pc: wrap16(s.pc + 2), ..s }
}

pub open spec fn skip_if(s: Chip8View, cond: bool) -> Chip8View {
    if cond {
        skip_next(s)
    } else {
        s
    }
}

/// A successful instruction yields its new state; a faulting one leaves the
/// state as it was and reports the fault.
pub open spec fn outcome(res: Result<Chip8View, Chip8Error>, before: Chip8View) -> (
    Chip8View,
    Result<(), Chip8Error>,
) {
    match res {
        Ok(t) => (t, Ok(())),
        Err(e) => (before, Err(e)),
    }
}

// ---------------------------------------------------------------------------
// Instruction semantics. Each reads its operands from `s.opcode`.

/// 00E0: every pixel off.
pub open spec fn clear_screen(s: Chip8View) -> Chip8View {
    Chip8View { video: Seq::new(s.video.len(), |_i: int| 0u32), ..s }
}

/// 00EE: pop the return address.
pub open spec fn return_from(s: Chip8View) -> Result<Chip8View, Chip8Error> {
    if s.sp == 0 {
        Err(Chip8Error::StackUnderflow)
    } else if s.sp > STACK_SIZE {
        Err(Chip8Error::StackOverflow)
    } else {
        Ok(Chip8View { sp: (s.sp - 1) as u8, pc: s.stack[s.sp - 1], ..s })
    }
}

/// 1nnn
pub open spec fn jump(s: Chip8View) -> Chip8View {
    Chip8View { pc: op_nnn(s.opcode) as u16, ..s }
}

/// 2nnn: push the program counter, then jump.
pub open spec fn call(s: Chip8View) -> Result<Chip8View, Chip8Error> {
    if s.sp >= STACK_SIZE {
        Err(Chip8Error::StackOverflow)
    } else {
        Ok(
            Chip8View {
                stack: s.stack.update(s.sp as int, s.pc),
                sp: (s.sp + 1) as u8,
                pc: op_nnn(s.opcode) as u16,
                ..s
            },
        )
    }
}

/// 3xkk
pub open spec fn skip_if_eq_imm(s: Chip8View) -> Chip8View {
    skip_if(s, s.reg(op_x(s.opcode)) == op_kk(s.opcode))
}

/// 4xkk
pub open spec fn skip_if_ne_imm(s: Chip8View) -> Chip8View {
    skip_if(s, s.reg(op_x(s.opcode)) != op_kk(s.opcode))
}

/// 5xy0
pub open spec fn skip_if_eq_reg(s: Chip8View) -> Chip8View {
    skip_if(s, s.reg(op_x(s.opcode)) == s.reg(op_y(s.opcode)))
}

/// 9xy0
pub open spec fn skip_if_ne_reg(s: Chip8View) -> Chip8View {
    skip_if(s, s.reg(op_x(s.opcode)) != s.reg(op_y(s.opcode)))
}

/// 6xkk
pub open spec fn load_imm(s: Chip8View) -> Chip8View {
    with_reg(s, op_x(s.opcode), op_kk(s.opcode))
}

/// 7xkk: wrapping add, no flag.
pub open spec fn add_imm(s: Chip8View) -> Chip8View {
    with_reg(s, op_x(s.opcode), (s.reg(op_x(s.opcode)) + op_kk(s.opcode)) % 256)
}

/// 8xy0
pub open spec fn copy_reg(s: Chip8View) -> Chip8View {
    with_reg(s, op_x(s.opcode), s.reg(op_y(s.opcode)))
}

/// 8xy1
pub open spec fn or_reg(s: Chip8View) -> Chip8View {
    with_reg(
        s,
        op_x(s.opcode),
        (s.registers[op_x(s.opcode)] | s.registers[op_y(s.opcode)]) as int,
    )
}

/// 8xy2
pub open spec fn and_reg(s: Chip8View) -> Chip8View {
    with_reg(
        s,
        op_x(s.opcode),
        (s.registers[op_x(s.opcode)] & s.registers[op_y(s.opcode)]) as int,
    )
}

/// 8xy3
pub open spec fn xor_reg(s: Chip8View) -> Chip8View {
    with_reg(
        s,
        op_x(s.opcode),
        (s.registers[op_x(s.opcode)] ^ s.registers[op_y(s.opcode)]) as int,
    )
}

/// 8xy4: flag = carry out of the 8-bit sum.
pub open spec fn add_carry(s: Chip8View) -> Chip8View {
    let sum = s.reg(op_x(s.opcode)) + s.reg(op_y(s.opcode));
    with_flag_and_reg(s, if sum > 255 { 1 } else { 0 }, op_x(s.opcode), sum % 256)
}

/// 8xy5: flag = `Vx > Vy`.
pub open spec fn sub_reg(s: Chip8View) -> Chip8View {
    let vx = s.reg(op_x(s.opcode));
    let vy = s.reg(op_y(s.opcode));
    with_flag_and_reg(s, if vx > vy { 1 } else { 0 }, op_x(s.opcode), (vx - vy) % 256)
}

/// 8xy6: flag = the bit shifted out.
pub open spec fn shift_right(s: Chip8View) -> Chip8View {
    let vx = s.reg(op_x(s.opcode));
    with_flag_and_reg(s, vx % 2, op_x(s.opcode), vx / 2)
}

/// 8xy7: flag = `Vy > Vx`.
pub open spec fn sub_reversed(s: Chip8View) -> Chip8View {
    let vx = s.reg(op_x(s.opcode));
    let vy = s.reg(op_y(s.opcode));
    with_flag_and_reg(s, if vy > vx { 1 } else { 0 }, op_x(s.opcode), (vy - vx) % 256)
}

/// 8xyE: flag = the bit shifted out.
pub open spec fn shift_left(s: Chip8View) -> Chip8View {
    let vx = s.reg(op_x(s.opcode));
    with_flag_and_reg(s, vx / 128, op_x(s.opcode), (vx * 2) % 256)
}

/// Annn
pub open spec fn load_index(s: Chip8View) -> Chip8View {
    Chip8View { index: op_nnn(s.opcode) as u16, ..s }
}

/// Bnnn
pub open spec fn jump_indexed(s: Chip8View) -> Chip8View {
    Chip8View { pc: (s.reg(0) + op_nnn(s.opcode)) as u16, ..s }
}

/// Cxkk, for the random byte `random`.
pub open spec fn random_and(s: Chip8View, random: u8) -> Chip8View {
    with_reg(s, op_x(s.opcode), (random & (op_kk(s.opcode) as u8)) as int)
}

/// Whether column `col` (0 = leftmost) of a sprite row is set.
pub open spec fn sprite_bit(row_bits: u8, col: int) -> bool {
    row_bits & (0x80u8 >> (col as u8)) != 0
}

/// Sprite row that lands on screen row `py` for a sprite whose top is at `y0`.
pub open spec fn sprite_row(y0: int, py: int) -> int {
    (py - y0 + VIDEO_HEIGHT) % (VIDEO_HEIGHT as int)
}

/// Sprite column that lands on screen column `px` for a sprite whose left is at `x0`.
pub open spec fn sprite_col(x0: int, px: int) -> int {
    (px - x0 + VIDEO_WIDTH) % (VIDEO_WIDTH as int)
}

/// Left edge of the sprite of a Dxyn, wrapped onto the screen.
pub open spec fn draw_x0(s: Chip8View) -> int {
    s.reg(op_x(s.opcode)) % (VIDEO_WIDTH as int)
}

/// Top edge of the sprite of a Dxyn, wrapped onto the screen.
pub open spec fn draw_y0(s: Chip8View) -> int {
    s.reg(op_y(s.opcode)) % (VIDEO_HEIGHT as int)
}

/// Whether the sprite of a Dxyn has a set bit over pixel `p`.
pub open spec fn sprite_covers(s: Chip8View, p: int) -> bool {
    let row = sprite_row(draw_y0(s), p / (VIDEO_WIDTH as int));
    let col = sprite_col(draw_x0(s), p % (VIDEO_WIDTH as int));
    &&& row < op_n(s.opcode)
    &&& col < 8
    &&& sprite_bit(s.memory[s.index + row], col)
}

/// Screen position of sprite position (`row`, `col`) for a sprite at
/// (`x0`, `y0`), wrapped on both axes.
pub open spec fn pixel_at(x0: int, y0: int, row: int, col: int) -> int {
    ((y0 + row) % (VIDEO_HEIGHT as int)) * (VIDEO_WIDTH as int) + (x0 + col) % (VIDEO_WIDTH as int)
}

/// Each sprite position lands on one pixel, and no other sprite position
/// lands there.
pub proof fn lemma_pixel_at(x0: int, y0: int, row: int, col: int)
    requires
        0 <= x0 < VIDEO_WIDTH,
        0 <= y0 < VIDEO_HEIGHT,
        0 <= row < VIDEO_HEIGHT,
        0 <= col < VIDEO_WIDTH,
    ensures
        0 <= pixel_at(x0, y0, row, col) < VIDEO_SIZE,
        sprite_row(y0, pixel_at(x0, y0, row, col) / 64) == row,
        sprite_col(x0, pixel_at(x0, y0, row, col) % 64) == col,
        forall|q: int|
            0 <= q < VIDEO_SIZE && #[trigger] sprite_row(y0, q / 64) == row && #[trigger] sprite_col(
                x0,
                q % 64,
            ) == col ==> q == pixel_at(x0, y0, row, col),
{
    let py = (y0 + row) % 32;
    let px = (x0 + col) % 64;
    if y0 + row < 32 {
        lemma_fundamental_div_mod_converse(y0 + row, 32, 0, y0 + row);
        lemma_fundamental_div_mod_converse(py - y0 + 32, 32, 1, row);
    } else {
        lemma_fundamental_div_mod_converse(y0 + row, 32, 1, y0 + row - 32);
        lemma_fundamental_div_mod_converse(py - y0 + 32, 32, 0, row);
    }
    if x0 + col < 64 {
        lemma_fundamental_div_mod_converse(x0 + col, 64, 0, x0 + col);
        lemma_fundamental_div_mod_converse(px - x0 + 64, 64, 1, col);
    } else {
        lemma_fundamental_div_mod_converse(x0 + col, 64, 1, x0 + col - 64);
        lemma_fundamental_div_mod_converse(px - x0 + 64, 64, 0, col);
    }
    let p = py * 64 + px;
    lemma_fundamental_div_mod_converse(p, 64, py, px);
    assert forall|q: int|
        0 <= q < VIDEO_SIZE && #[trigger] sprite_row(y0, q / 64) == row && #[trigger] sprite_col(
            x0,
            q % 64,
        ) == col implies q == p by {
        let qy = q / 64;
        let qx = q % 64;
        lemma_fundamental_div_mod(q, 64);
        lemma_fundamental_div_mod(qy - y0 + 32, 32);
        lemma_fundamental_div_mod(qx - x0 + 64, 64);
    }
}

pub open spec fn pixel_is_on(v: u32) -> bool {
    v != 0
}

/// A set pixel becomes clear, a clear one becomes set.
pub open spec fn toggled(v: u32) -> u32 {
    if pixel_is_on(v) {
        0
    } else {
        PIXEL_ON
    }
}

/// Whether a Dxyn turns some set pixel off.
pub open spec fn draw_collides(s: Chip8View) -> bool {
    exists|p: int| 0 <= p < VIDEO_SIZE && #[trigger] sprite_covers(s, p) && pixel_is_on(s.video[p])
}

pub open spec fn drawn_video(s: Chip8View) -> Seq<u32> {
    Seq::new(
        s.video.len(),
        |p: int|
            if sprite_covers(s, p) {
                toggled(s.video[p])
            } else {
                s.video[p]
            },
    )
}

/// Dxyn: XOR an n-row sprite from `memory[index..]` onto the screen at
/// (`Vx` mod 64, `Vy` mod 32), wrapping per pixel; flag = collision.
pub open spec fn draw(s: Chip8View) -> Result<Chip8View, Chip8Error> {
    if s.index + op_n(s.opcode) > MEM_SIZE {
        Err(Chip8Error::OutOfBounds)
    } else {
        Ok(
            Chip8View {
                video: drawn_video(s),
                registers: s.registers.update(0xF, if draw_collides(s) { 1u8 } else { 0u8 }),
                ..s
            },
        )
    }
}

/// Ex9E
pub open spec fn skip_if_key(s: Chip8View) -> Result<Chip8View, Chip8Error> {
    let k = s.reg(op_x(s.opcode));
    if k >= 16 {
        Err(Chip8Error::OutOfBounds)
    } else {
        Ok(skip_if(s, s.keypad[k]))
    }
}

/// ExA1
pub open spec fn skip_if_not_key(s: Chip8View) -> Result<Chip8View, Chip8Error> {
    let k = s.reg(op_x(s.opcode));
    if k >= 16 {
        Err(Chip8Error::OutOfBounds)
    } else {
        Ok(skip_if(s, !s.keypad[k]))
    }
}

/// Fx07
pub open spec fn load_delay(s: Chip8View) -> Chip8View {
    with_reg(s, op_x(s.opcode), s.delay_timer as int)
}

/// The lowest pressed key at or above `from`, or 16 when there is none.
pub open spec fn lowest_pressed(keys: Seq<bool>, from: int) -> int
    decreases 16 - from,
{
    if from >= 16 {
        16
    } else if keys[from] {
        from
    } else {
        lowest_pressed(keys, from + 1)
    }
}

/// Fx0A: store the lowest pressed key, or rewind to run this instruction again.
pub open spec fn wait_key(s: Chip8View) -> Chip8View {
    let k = lowest_pressed(s.keypad, 0);
    if k < 16 {
        with_reg(s, op_x(s.opcode), k)
    } else {
        Chip8View { pc: wrap16(s.pc - 2), ..s }
    }
}

/// Fx15
pub open spec fn set_delay(s: Chip8View) -> Chip8View {
    Chip8View { delay_timer: s.registers[op_x(s.opcode)], ..s }
}

/// Fx18
pub open spec fn set_sound(s: Chip8View) -> Chip8View {
    Chip8View { sound_timer: s.registers[op_x(s.opcode)], ..s }
}

/// Fx1E: 16-bit wrapping add.
pub open spec fn add_index(s: Chip8View) -> Chip8View {
    Chip8View { index: wrap16(s.index + s.reg(op_x(s.opcode))), ..s }
}

/// Fx29
pub open spec fn font_address(s: Chip8View) -> Chip8View {
    Chip8View { index: (FONT_SET_START_ADDRESS + 5 * s.reg(op_x(s.opcode))) as u16, ..s }
}

/// Fx33: hundreds, tens and ones of `Vx` at `index`, `index + 1`, `index + 2`.
pub open spec fn store_bcd(s: Chip8View) -> Result<Chip8View, Chip8Error> {
    let v = s.reg(op_x(s.opcode));
    let i = s.index as int;
    if i + 2 >= MEM_SIZE {
        Err(Chip8Error::OutOfBounds)
    } else {
        Ok(
            Chip8View {
                memory: s.memory.update(i, (v / 100) as u8).update(i + 1, ((v / 10) % 10) as u8).update(
                    i + 2,
                    (v % 10) as u8,
                ),
                ..s
            },
        )
    }
}

/// Fx55: `registers[0..=x]` to `memory[index..=index + x]`.
pub open spec fn store_registers(s: Chip8View) -> Result<Chip8View, Chip8Error> {
    let x = op_x(s.opcode);
    let i = s.index as int;
    if i + x >= MEM_SIZE {
        Err(Chip8Error::OutOfBounds)
    } else {
        Ok(
            Chip8View {
                memory: Seq::new(
                    s.memory.len(),
                    |a: int|
                        if i <= a <= i + x {
                            s.registers[a - i]
                        } else {
                            s.memory[a]
                        },
                ),
                ..s
            },
        )
    }
}

/// Fx65: `memory[index..=index + x]` to `registers[0..=x]`.
pub open spec fn load_registers(s: Chip8View) -> Result<Chip8View, Chip8Error> {
    let x = op_x(s.opcode);
    let i = s.index as int;
    if i + x >= MEM_SIZE {
        Err(Chip8Error::OutOfBounds)
    } else {
        Ok(
            Chip8View {
                registers: Seq::new(
                    s.registers.len(),
                    |r: int|
                        if r <= x {
                            s.memory[i + r]
                        } else {
                            s.registers[r]
                        },
                ),
                ..s
            },
        )
    }
}

// ---------------------------------------------------------------------------
// Decode and the whole cycle.

/// Execute `s.opcode`; opcodes without a meaning change nothing.
pub open spec fn execute(s: Chip8View, random: u8) -> Result<Chip8View, Chip8Error> {
    let op = s.opcode;
    let class = op_class(op);
    let n = op_n(op);
    let kk = op_kk(op);
    if class == 0x0 {
        if n == 0x0 {
            Ok(clear_screen(s))
        } else if n == 0xE {
            return_from(s)
        } else {
            Ok(s)
        }
    } else if class == 0x1 {
        Ok(jump(s))
    } else if class == 0x2 {
        call(s)
    } else if class == 0x3 {
        Ok(skip_if_eq_imm(s))
    } else if class == 0x4 {
        Ok(skip_if_ne_imm(s))
    } else if class == 0x5 {
        Ok(skip_if_eq_reg(s))
    } else if class == 0x6 {
        Ok(load_imm(s))
    } else if class == 0x7 {
        Ok(add_imm(s))
    } else if class == 0x8 {
        Ok(
            if n == 0x0 {
                copy_reg(s)
            } else if n == 0x1 {
                or_reg(s)
            } else if n == 0x2 {
                and_reg(s)
            } else if n == 0x3 {
                xor_reg(s)
            } else if n == 0x4 {
                add_carry(s)
            } else if n == 0x5 {
                sub_reg(s)
            } else if n == 0x6 {
                shift_right(s)
            } else if n == 0x7 {
                sub_reversed(s)
            } else if n == 0xE {
                shift_left(s)
            } else {
                s
            },
        )
    } else if class == 0x9 {
        Ok(skip_if_ne_reg(s))
    } else if class == 0xA {
        Ok(load_index(s))
    } else if class == 0xB {
        Ok(jump_indexed(s))
    } else if class == 0xC {
        Ok(random_and(s, random))
    } else if class == 0xD {
        draw(s)
    } else if class == 0xE {
        if n == 0xE {
            skip_if_key(s)
        } else if n == 0x1 {
            skip_if_not_key(s)
        } else {
            Ok(s)
        }
    } else {
        if kk == 0x07 {
            Ok(load_delay(s))
        } else if kk == 0x0A {
            Ok(wait_key(s))
        } else if kk == 0x15 {
            Ok(set_delay(s))
        } else if kk == 0x18 {
            Ok(set_sound(s))
        } else if kk == 0x1E {
            Ok(add_index(s))
        } else if kk == 0x29 {
            Ok(font_address(s))
        } else if kk == 0x33 {
            store_bcd(s)
        } else if kk == 0x55 {
            store_registers(s)
        } else if kk == 0x65 {
            load_registers(s)
        } else {
            Ok(s)
        }
    }
}

/// Whether the two bytes of the next instruction lie in memory.
pub open spec fn can_fetch(s: Chip8View) -> bool {
    s.pc + 1 < s.memory.len()
}

/// Big-endian word at `pc`.
pub open spec fn fetch_word(s: Chip8View) -> u16 {
    (s.memory[s.pc as int] * 256 + s.memory[s.pc + 1]) as u16
}

/// The state after fetching: opcode recorded, program counter advanced.
pub open spec fn fetched(s: Chip8View) -> Chip8View {
    Chip8View { opcode: fetch_word(s), pc: (s.pc + 2) as u16, ..s }
}

/// One timer tick: each non-zero timer counts down by one. Timers tick once
/// per executed instruction, so their rate follows the rate at which the host
/// runs cycles.
pub open spec fn tick(s: Chip8View) -> Chip8View {
    Chip8View {
        delay_timer: if s.delay_timer > 0 { (s.delay_timer - 1) as u8 } else { 0 },
        sound_timer: if s.sound_timer > 0 { (s.sound_timer - 1) as u8 } else { 0 },
        ..s
    }
}

/// One cycle: fetch, advance, execute, tick. A failed fetch changes nothing;
/// a faulting instruction leaves the state as the fetch left it, timers untouched.
pub open spec fn cycle_result(s: Chip8View, random: u8) -> (Chip8View, Result<(), Chip8Error>) {
    if !can_fetch(s) {
        (s, Err(Chip8Error::OutOfBounds))
    } else {
        match execute(fetched(s), random) {
            Ok(t) => (tick(t), Ok(())),
            Err(e) => (fetched(s), Err(e)),
        }
    }
}

// ---------------------------------------------------------------------------
// Start-up state.

/// The 16 hexadecimal glyphs, 5 rows of 4 pixels each.
pub open spec fn font_glyphs() -> Seq<u8> {
    seq![
        0xF0u8, 0x90, 0x90, 0x90, 0xF0, // 0
        0x20, 0x60, 0x20, 0x20, 0x70, // 1
        0xF0, 0x10, 0xF0, 0x80, 0xF0, // 2
        0xF0, 0x10, 0xF0, 0x10, 0xF0, // 3
        0x90, 0x90, 0xF0, 0x10, 0x10, // 4
        0xF0, 0x80, 0xF0, 0x10, 0xF0, // 5
        0xF0, 0x80, 0xF0, 0x90, 0xF0, // 6
        0xF0, 0x10, 0x20, 0x40, 0x40, // 7
        0xF0, 0x90, 0xF0, 0x90, 0xF0, // 8
        0xF0, 0x90, 0xF0, 0x10, 0xF0, // 9
        0xF0, 0x90, 0xF0, 0x90, 0x90, // A
        0xE0, 0x90, 0xE0, 0x90, 0xE0, // B
        0xF0, 0x80, 0x80, 0x80, 0xF0, // C
        0xE0, 0x90, 0x90, 0x90, 0xE0, // D
        0xF0, 0x80, 0xF0, 0x80, 0xF0, // E
        0xF0, 0x80, 0xF0, 0x80, 0x80, // F
    ]
}

/// Memory at start-up: zero but for the font set.
pub open spec fn initial_memory() -> Seq<u8> {
    Seq::new(
        MEM_SIZE as nat,
        |a: int|
            if FONT_SET_START_ADDRESS <= a < FONT_SET_START_ADDRESS + FONT_SET_SIZE {
                font_glyphs()[a - FONT_SET_START_ADDRESS]
            } else {
                0u8
            },
    )
}

/// The machine at start-up.
pub open spec fn initial_state() -> Chip8View {
    Chip8View {
        memory: initial_memory(),
        registers: Seq::new(16, |_i: int| 0u8),
        index: 0,
        pc: START_ADDRESS as u16,
        stack: Seq::new(STACK_SIZE as nat, |_i: int| 0u16),
        sp: 0,
        delay_timer: 0,
        sound_timer: 0,
        keypad: Seq::new(16, |_i: int| false),
        video: Seq::new(VIDEO_SIZE as nat, |_i: int| 0u32),
        opcode: 0,
    }
}

/// `memory` after loading `rom` at `START_ADDRESS`.
pub open spec fn with_rom(memory: Seq<u8>, rom: Seq<u8>) -> Seq<u8> {
    Seq::new(
        memory.len(),
        |a: int|
            if START_ADDRESS <= a < START_ADDRESS + rom.len() {
                rom[a - START_ADDRESS]
            } else {
                memory[a]
            },
    )
}

} // verus!
