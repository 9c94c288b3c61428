//! The instruction handlers. Each one executes the instruction held in
//! `opcode`, and its contract is the matching function of `semantics`.
use crate::chip8::{field_kk, field_n, field_nnn, field_x, field_y, Chip8};
use crate::semantics::{
    add_carry, add_imm, add_index, and_reg, call, clear_screen, copy_reg, draw, draw_collides,
    draw_x0, draw_y0, drawn_video, font_address, jump, jump_indexed, lemma_pixel_at, load_delay,
    load_imm, load_index, load_registers, lowest_pressed, op_n, or_reg, outcome, pixel_at,
    pixel_is_on, random_and, return_from, set_delay, set_sound, shift_left, shift_right,
    skip_if_eq_imm, skip_if_eq_reg, skip_if_key, skip_if_ne_imm, skip_if_ne_reg, skip_if_not_key,
    sprite_bit, sprite_col, sprite_covers, sprite_row, store_bcd, store_registers, sub_reg,
    sub_reversed, toggled, wait_key, xor_reg, Chip8Error, Chip8View, FONT_SET_START_ADDRESS,
    MEM_SIZE, PIXEL_ON, STACK_SIZE, VIDEO_HEIGHT, VIDEO_SIZE, VIDEO_WIDTH,
};
use vstd::prelude::*;

verus! {

/// Whether pixel `p` is covered by the sprite of a Dxyn at a sprite position
/// before (`row`, `col`) in row-major order.
spec fn drawn_before(s: Chip8View, p: int, row: int, col: int) -> bool {
    let r = sprite_row(draw_y0(s), p / (VIDEO_WIDTH as int));
    let c = sprite_col(draw_x0(s), p % (VIDEO_WIDTH as int));
    sprite_covers(s, p) && (r < row || (r == row && c < col))
}

/// The framebuffer once the sprite positions before (`row`, `col`) are drawn.
spec fn partial_video(s: Chip8View, row: int, col: int) -> Seq<u32> {
    Seq::new(
        s.video.len(),
        |p: int|
            if drawn_before(s, p, row, col) {
                toggled(s.video[p])
            } else {
                s.video[p]
            },
    )
}

/// Whether a set pixel was turned off by the sprite positions before (`row`, `col`).
spec fn partial_collides(s: Chip8View, row: int, col: int) -> bool {
    exists|p: int|
        0 <= p < VIDEO_SIZE && #[trigger] drawn_before(s, p, row, col) && pixel_is_on(s.video[p])
}

/// Drawing sprite position (`row`, `col`) touches only its own pixel.
proof fn lemma_draw_column(s: Chip8View, row: int, col: int)
    requires
        0 <= row < op_n(s.opcode),
        0 <= col < 8,
    ensures
        ({
            let p = pixel_at(draw_x0(s), draw_y0(s), row, col);
            let bit = sprite_bit(s.memory[s.index + row], col);
            &&& 0 <= p < VIDEO_SIZE
            &&& !drawn_before(s, p, row, col)
            &&& drawn_before(s, p, row, col + 1) == bit
            &&& forall|q: int|
                0 <= q < VIDEO_SIZE && q != p ==> #[trigger] drawn_before(s, q, row, col + 1)
                    == drawn_before(s, q, row, col)
            &&& partial_collides(s, row, col + 1) == (partial_collides(s, row, col) || (bit
                && pixel_is_on(s.video[p])))
        }),
{
    let x0 = draw_x0(s);
    let y0 = draw_y0(s);
    let p = pixel_at(x0, y0, row, col);
    lemma_pixel_at(x0, y0, row, col);
    assert forall|q: int|
        0 <= q < VIDEO_SIZE && q != p implies #[trigger] drawn_before(s, q, row, col + 1)
        == drawn_before(s, q, row, col) by {
        if sprite_row(y0, q / 64) == row && sprite_col(x0, q % 64) == col {
            assert(q == p);
        }
    }
    if partial_collides(s, row, col + 1) {
        let w = choose|w: int|
            0 <= w < VIDEO_SIZE && #[trigger] drawn_before(s, w, row, col + 1) && pixel_is_on(
                s.video[w],
            );
        if w != p {
            assert(drawn_before(s, w, row, col));
        }
    }
    if partial_collides(s, row, col) {
        let w = choose|w: int|
            0 <= w < VIDEO_SIZE && #[trigger] drawn_before(s, w, row, col) && pixel_is_on(
                s.video[w],
            );
        assert(drawn_before(s, w, row, col + 1));
    }
    if sprite_bit(s.memory[s.index + row], col) && pixel_is_on(s.video[p]) {
        assert(drawn_before(s, p, row, col + 1));
    }
}

/// The end of one sprite row is the start of the next.
proof fn lemma_draw_row(s: Chip8View, row: int)
    ensures
        forall|q: int| #[trigger] drawn_before(s, q, row, 8) == drawn_before(s, q, row + 1, 0),
        partial_collides(s, row, 8) == partial_collides(s, row + 1, 0),
{
    if partial_collides(s, row, 8) {
        let w = choose|w: int|
            0 <= w < VIDEO_SIZE && #[trigger] drawn_before(s, w, row, 8) && pixel_is_on(s.video[w]);
        assert(drawn_before(s, w, row + 1, 0));
    }
    if partial_collides(s, row + 1, 0) {
        let w = choose|w: int|
            0 <= w < VIDEO_SIZE && #[trigger] drawn_before(s, w, row + 1, 0) && pixel_is_on(
                s.video[w],
            );
        assert(drawn_before(s, w, row, 8));
    }
}

/// After the last sprite row, every covered pixel has been drawn.
proof fn lemma_draw_done(s: Chip8View)
    ensures
        forall|q: int| #[trigger] drawn_before(s, q, op_n(s.opcode), 0) == sprite_covers(s, q),
        partial_collides(s, op_n(s.opcode), 0) == draw_collides(s),
{
    let n = op_n(s.opcode);
    if partial_collides(s, n, 0) {
        let w = choose|w: int|
            0 <= w < VIDEO_SIZE && #[trigger] drawn_before(s, w, n, 0) && pixel_is_on(s.video[w]);
        assert(sprite_covers(s, w));
    }
    if draw_collides(s) {
        let w = choose|w: int|
            0 <= w < VIDEO_SIZE && #[trigger] sprite_covers(s, w) && pixel_is_on(s.video[w]);
        assert(drawn_before(s, w, n, 0));
    }
}

#[allow(non_snake_case)]
impl Chip8 {
    /// CLS: clear the display.
    pub fn OP_00E0(&mut self)
        ensures
            final(self)@ == clear_screen(old(self)@),
    {
        self.video = [0u32; VIDEO_SIZE];
        assert(self.video@ =~= Seq::new(VIDEO_SIZE as nat, |_i: int| 0u32));
    }

    /// RET: return from a subroutine.
    pub fn OP_00EE(&mut self) -> (r: Result<(), Chip8Error>)
        ensures
            (final(self)@, r) == outcome(return_from(old(self)@), old(self)@),
    {
        if self.sp == 0 {
            return Err(Chip8Error::StackUnderflow);
        }
        if self.sp as usize > STACK_SIZE {
            return Err(Chip8Error::StackOverflow);
        }
        self.sp = self.sp - 1;
        self.pc = self.stack[self.sp as usize];
        Ok(())
    }

    /// JP addr: jump to nnn.
    pub fn OP_1nnn(&mut self)
        ensures
            final(self)@ == jump(old(self)@),
    {
        self.pc = field_nnn(self.opcode);
    }

    /// CALL addr: call the subroutine at nnn.
    pub fn OP_2nnn(&mut self) -> (r: Result<(), Chip8Error>)
        ensures
            (final(self)@, r) == outcome(call(old(self)@), old(self)@),
    {
        if self.sp as usize >= STACK_SIZE {
            return Err(Chip8Error::StackOverflow);
        }
        let address = field_nnn(self.opcode);
        self.stack[self.sp as usize] = self.pc;
        self.sp = self.sp + 1;
        self.pc = address;
        Ok(())
    }

    /// SE Vx, byte: skip the next instruction if Vx == kk.
    pub fn OP_3xkk(&mut self)
        ensures
            final(self)@ == skip_if_eq_imm(old(self)@),
    {
        let x = field_x(self.opcode);
        if self.registers[x] == field_kk(self.opcode) {
            self.pc = self.pc.wrapping_add(2);
        }
    }

    /// SNE Vx, byte: skip the next instruction if Vx != kk.
    pub fn OP_4xkk(&mut self)
        ensures
            final(self)@ == skip_if_ne_imm(old(self)@),
    {
        let x = field_x(self.opcode);
        if self.registers[x] != field_kk(self.opcode) {
            self.pc = self.pc.wrapping_add(2);
        }
    }

    /// SE Vx, Vy: skip the next instruction if Vx == Vy.
    pub fn OP_5xy0(&mut self)
        ensures
            final(self)@ == skip_if_eq_reg(old(self)@),
    {
        let x = field_x(self.opcode);
        let y = field_y(self.opcode);
        if self.registers[x] == self.registers[y] {
            self.pc = self.pc.wrapping_add(2);
        }
    }

    /// LD Vx, byte: Vx = kk.
    pub fn OP_6xkk(&mut self)
        ensures
            final(self)@ == load_imm(old(self)@),
    {
        let x = field_x(self.opcode);
        self.registers[x] = field_kk(self.opcode);
    }

    /// ADD Vx, byte: Vx = Vx + kk, wrapping, flag untouched.
    pub fn OP_7xkk(&mut self)
        ensures
            final(self)@ == add_imm(old(self)@),
    {
        let x = field_x(self.opcode);
        self.registers[x] = self.registers[x].wrapping_add(field_kk(self.opcode));
    }

    /// LD Vx, Vy: Vx = Vy.
    pub fn OP_8xy0(&mut self)
        ensures
            final(self)@ == copy_reg(old(self)@),
    {
        let x = field_x(self.opcode);
        let y = field_y(self.opcode);
        self.registers[x] = self.registers[y];
    }

    /// OR Vx, Vy: Vx = Vx | Vy.
    pub fn OP_8xy1(&mut self)
        ensures
            final(self)@ == or_reg(old(self)@),
    {
        let x = field_x(self.opcode);
        let y = field_y(self.opcode);
        self.registers[x] = self.registers[x] | self.registers[y];
    }

    /// AND Vx, Vy: Vx = Vx & Vy.
    pub fn OP_8xy2(&mut self)
        ensures
            final(self)@ == and_reg(old(self)@),
    {
        let x = field_x(self.opcode);
        let y = field_y(self.opcode);
        self.registers[x] = self.registers[x] & self.registers[y];
    }

    /// XOR Vx, Vy: Vx = Vx ^ Vy.
    pub fn OP_8xy3(&mut self)
        ensures
            final(self)@ == xor_reg(old(self)@),
    {
        let x = field_x(self.opcode);
        let y = field_y(self.opcode);
        self.registers[x] = self.registers[x] ^ self.registers[y];
    }

    /// ADD Vx, Vy: Vx = low byte of Vx + Vy, VF = carry.
    pub fn OP_8xy4(&mut self)
        ensures
            final(self)@ == add_carry(old(self)@),
    {
        let x = field_x(self.opcode);
        let y = field_y(self.opcode);
        let sum: u16 = self.registers[x] as u16 + self.registers[y] as u16;
        self.registers[0xF] = if sum > 0xFF {
            1
        } else {
            0
        };
        self.registers[x] = (sum % 0x100) as u8;
    }

    /// SUB Vx, Vy: Vx = Vx - Vy, wrapping, VF = NOT borrow.
    pub fn OP_8xy5(&mut self)
        ensures
            final(self)@ == sub_reg(old(self)@),
    {
        let x = field_x(self.opcode);
        let y = field_y(self.opcode);
        let vx = self.registers[x];
        let vy = self.registers[y];
        self.registers[0xF] = if vx > vy {
            1
        } else {
            0
        };
        self.registers[x] = vx.wrapping_sub(vy);
    }

    /// SHR Vx: VF = least-significant bit of Vx, then Vx = Vx >> 1.
    pub fn OP_8xy6(&mut self)
        ensures
            final(self)@ == shift_right(old(self)@),
    {
        let x = field_x(self.opcode);
        let vx = self.registers[x];
        proof {
            assert(vx & 1u8 == vx % 2) by (bit_vector);
            assert(vx >> 1u8 == vx / 2) by (bit_vector);
        }
        self.registers[0xF] = vx & 0x1;
        self.registers[x] = vx >> 1;
    }

    /// SUBN Vx, Vy: Vx = Vy - Vx, wrapping, VF = NOT borrow.
    pub fn OP_8xy7(&mut self)
        ensures
            final(self)@ == sub_reversed(old(self)@),
    {
        let x = field_x(self.opcode);
        let y = field_y(self.opcode);
        let vx = self.registers[x];
        let vy = self.registers[y];
        self.registers[0xF] = if vy > vx {
            1
        } else {
            0
        };
        self.registers[x] = vy.wrapping_sub(vx);
    }

    /// SHL Vx: VF = most-significant bit of Vx, then Vx = Vx << 1, wrapping.
    pub fn OP_8xyE(&mut self)
        ensures
            final(self)@ == shift_left(old(self)@),
    {
        let x = field_x(self.opcode);
        let vx = self.registers[x];
        proof {
            assert((vx & 0x80u8) >> 7u8 == vx / 128) by (bit_vector);
            assert(vx << 1u8 == ((vx as u16 * 2) % 256) as u8) by (bit_vector);
        }
        self.registers[0xF] = (vx & 0x80) >> 7;
        self.registers[x] = vx << 1;
    }

    /// SNE Vx, Vy: skip the next instruction if Vx != Vy.
    pub fn OP_9xy0(&mut self)
        ensures
            final(self)@ == skip_if_ne_reg(old(self)@),
    {
        let x = field_x(self.opcode);
        let y = field_y(self.opcode);
        if self.registers[x] != self.registers[y] {
            self.pc = self.pc.wrapping_add(2);
        }
    }

    /// LD I, addr: I = nnn.
    pub fn OP_Annn(&mut self)
        ensures
            final(self)@ == load_index(old(self)@),
    {
        self.index = field_nnn(self.opcode);
    }

    /// JP V0, addr: jump to nnn + V0.
    pub fn OP_Bnnn(&mut self)
        ensures
            final(self)@ == jump_indexed(old(self)@),
    {
        self.pc = self.registers[0] as u16 + field_nnn(self.opcode);
    }

    /// RND Vx, byte: Vx = a random byte AND kk.
    pub fn OP_Cxkk(&mut self)
        ensures
            exists|random: u8| final(self)@ == random_and(old(self)@, random),
    {
        let random = Self::rand_gen();
        self.OP_Cxkk_with(random);
    }

    /// RND Vx, byte, for a given random byte: Vx = `random` AND kk.
    pub fn OP_Cxkk_with(&mut self, random: u8)
        ensures
            final(self)@ == random_and(old(self)@, random),
    {
        let x = field_x(self.opcode);
        self.registers[x] = random & field_kk(self.opcode);
    }

    /// DRW Vx, Vy, nibble: XOR the n-byte sprite at I onto the screen at
    /// (Vx, Vy), wrapping per pixel; VF = 1 if a set pixel was turned off.
    /// A sprite that reads past the end of memory is out of bounds.
    pub fn OP_Dxyn(&mut self) -> (r: Result<(), Chip8Error>)
        ensures
            (final(self)@, r) == outcome(draw(old(self)@), old(self)@),
    {
        let x = field_x(self.opcode);
        let y = field_y(self.opcode);
        let height = field_n(self.opcode) as usize;
        let base = self.index as usize;
        if base + height > MEM_SIZE {
            return Err(Chip8Error::OutOfBounds);
        }
        let x0 = (self.registers[x] as usize) % VIDEO_WIDTH;
        let y0 = (self.registers[y] as usize) % VIDEO_HEIGHT;
        let ghost s0 = self@;
        let mut collision = false;
        let mut row: usize = 0;
        assert(self.video@ =~= partial_video(s0, 0, 0));
        while row < height
            invariant
                0 <= row <= height < 16,
                base + height <= MEM_SIZE,
                base == s0.index,
                height == op_n(s0.opcode),
                x0 == draw_x0(s0),
                y0 == draw_y0(s0),
                self@ == (Chip8View { video: self@.video, ..s0 }),
                self.video@ =~= partial_video(s0, row as int, 0),
                collision == partial_collides(s0, row as int, 0),
            decreases height - row,
        {
            let bits = self.memory[base + row];
            let mut col: usize = 0;
            while col < 8
                invariant
                    0 <= row < height < 16,
                    0 <= col <= 8,
                    base + height <= MEM_SIZE,
                    base == s0.index,
                    height == op_n(s0.opcode),
                    x0 == draw_x0(s0),
                    y0 == draw_y0(s0),
                    bits == s0.memory[base + row],
                    self@ == (Chip8View { video: self@.video, ..s0 }),
                    self.video@ =~= partial_video(s0, row as int, col as int),
                    collision == partial_collides(s0, row as int, col as int),
                decreases 8 - col,
            {
                let p = ((y0 + row) % VIDEO_HEIGHT) * VIDEO_WIDTH + (x0 + col) % VIDEO_WIDTH;
                proof {
                    lemma_draw_column(s0, row as int, col as int);
                    assert(p == pixel_at(x0 as int, y0 as int, row as int, col as int));
                }
                if bits & (0x80u8 >> col as u8) != 0 {
                    if self.video[p] != 0 {
                        collision = true;
                        self.video[p] = 0;
                    } else {
                        self.video[p] = PIXEL_ON;
                    }
                }
                assert(self.video@ =~= partial_video(s0, row as int, col + 1));
                col += 1;
            }
            proof {
                lemma_draw_row(s0, row as int);
                assert(partial_video(s0, row as int, 8) =~= partial_video(s0, row + 1, 0));
            }
            row += 1;
        }
        proof {
            lemma_draw_done(s0);
            assert(partial_video(s0, height as int, 0) =~= drawn_video(s0));
        }
        self.registers[0xF] = if collision {
            1
        } else {
            0
        };
        Ok(())
    }

    /// SKP Vx: skip the next instruction if key Vx is pressed; a key index
    /// above 0xF is out of bounds.
    pub fn OP_Ex9E(&mut self) -> (r: Result<(), Chip8Error>)
        ensures
            (final(self)@, r) == outcome(skip_if_key(old(self)@), old(self)@),
    {
        let key = self.registers[field_x(self.opcode)] as usize;
        if key >= 16 {
            return Err(Chip8Error::OutOfBounds);
        }
        if self.keypad[key] {
            self.pc = self.pc.wrapping_add(2);
        }
        Ok(())
    }

    /// SKNP Vx: skip the next instruction if key Vx is not pressed; a key index
    /// above 0xF is out of bounds.
    pub fn OP_ExA1(&mut self) -> (r: Result<(), Chip8Error>)
        ensures
            (final(self)@, r) == outcome(skip_if_not_key(old(self)@), old(self)@),
    {
        let key = self.registers[field_x(self.opcode)] as usize;
        if key >= 16 {
            return Err(Chip8Error::OutOfBounds);
        }
        if !self.keypad[key] {
            self.pc = self.pc.wrapping_add(2);
        }
        Ok(())
    }

    /// LD Vx, DT: Vx = delay timer.
    pub fn OP_Fx07(&mut self)
        ensures
            final(self)@ == load_delay(old(self)@),
    {
        let x = field_x(self.opcode);
        self.registers[x] = self.delay_timer;
    }

    /// LD Vx, K: store the lowest pressed key in Vx; with no key pressed,
    /// rewind the program counter so that this instruction runs again.
    pub fn OP_Fx0A(&mut self)
        ensures
            final(self)@ == wait_key(old(self)@),
    {
        let x = field_x(self.opcode);
        let mut key: usize = 0;
        while key < 16 && !self.keypad[key]
            invariant
                0 <= key <= 16,
                self@ == old(self)@,
                lowest_pressed(self.keypad@, 0) == lowest_pressed(self.keypad@, key as int),
            decreases 16 - key,
        {
            key += 1;
        }
        if key < 16 {
            self.registers[x] = key as u8;
        } else {
            self.pc = self.pc.wrapping_sub(2);
        }
    }

    /// LD DT, Vx: delay timer = Vx.
    pub fn OP_Fx15(&mut self)
        ensures
            final(self)@ == set_delay(old(self)@),
    {
        self.delay_timer = self.registers[field_x(self.opcode)];
    }

    /// LD ST, Vx: sound timer = Vx.
    pub fn OP_Fx18(&mut self)
        ensures
            final(self)@ == set_sound(old(self)@),
    {
        self.sound_timer = self.registers[field_x(self.opcode)];
    }

    /// ADD I, Vx: I = I + Vx, wrapping at 16 bits.
    pub fn OP_Fx1E(&mut self)
        ensures
            final(self)@ == add_index(old(self)@),
    {
        self.index = self.index.wrapping_add(self.registers[field_x(self.opcode)] as u16);
    }

    /// LD F, Vx: I = address of the glyph of digit Vx.
    pub fn OP_Fx29(&mut self)
        ensures
            final(self)@ == font_address(old(self)@),
    {
        let digit = self.registers[field_x(self.opcode)];
        self.index = (FONT_SET_START_ADDRESS + 5 * digit as usize) as u16;
    }

    /// LD B, Vx: hundreds, tens and ones of Vx at I, I+1 and I+2.
    pub fn OP_Fx33(&mut self) -> (r: Result<(), Chip8Error>)
        ensures
            (final(self)@, r) == outcome(store_bcd(old(self)@), old(self)@),
    {
        let i = self.index as usize;
        if i + 2 >= MEM_SIZE {
            return Err(Chip8Error::OutOfBounds);
        }
        let val = self.registers[field_x(self.opcode)];
        self.memory[i + 2] = val % 10;
        self.memory[i + 1] = (val / 10) % 10;
        self.memory[i] = val / 100;
        assert(self.memory@ =~= store_bcd(old(self)@)->Ok_0.memory);
        Ok(())
    }

    /// LD [I], Vx: registers V0..=Vx to memory from I on.
    pub fn OP_Fx55(&mut self) -> (r: Result<(), Chip8Error>)
        ensures
            (final(self)@, r) == outcome(store_registers(old(self)@), old(self)@),
    {
        let x = field_x(self.opcode);
        let base = self.index as usize;
        if base + x >= MEM_SIZE {
            return Err(Chip8Error::OutOfBounds);
        }
        let mut i: usize = 0;
        while i <= x
            invariant
                0 <= i <= x + 1,
                x < 16,
                base + x < MEM_SIZE,
                base == old(self).index,
                self@ == (Chip8View { memory: self@.memory, ..old(self)@ }),
                self.memory@ =~= Seq::new(
                    MEM_SIZE as nat,
                    |a: int|
                        if base <= a < base + i {
                            old(self)@.registers[a - base]
                        } else {
                            old(self)@.memory[a]
                        },
                ),
            decreases x + 1 - i,
        {
            self.memory[base + i] = self.registers[i];
            i += 1;
            assert(self.memory@ =~= Seq::new(
                MEM_SIZE as nat,
                |a: int|
                    if base <= a < base + i {
                        old(self)@.registers[a - base]
                    } else {
                        old(self)@.memory[a]
                    },
            ));
        }
        assert(self.memory@ =~= store_registers(old(self)@)->Ok_0.memory);
        Ok(())
    }

    /// LD Vx, [I]: memory from I on to registers V0..=Vx.
    pub fn OP_Fx65(&mut self) -> (r: Result<(), Chip8Error>)
        ensures
            (final(self)@, r) == outcome(load_registers(old(self)@), old(self)@),
    {
        let x = field_x(self.opcode);
        let base = self.index as usize;
        if base + x >= MEM_SIZE {
            return Err(Chip8Error::OutOfBounds);
        }
        let mut i: usize = 0;
        while i <= x
            invariant
                0 <= i <= x + 1,
                x < 16,
                base + x < MEM_SIZE,
                base == old(self).index,
                self@ == (Chip8View { registers: self@.registers, ..old(self)@ }),
                self.registers@ =~= Seq::new(
                    16,
                    |r: int|
                        if r < i {
                            old(self)@.memory[base + r]
                        } else {
                            old(self)@.registers[r]
                        },
                ),
            decreases x + 1 - i,
        {
            self.registers[i] = self.memory[base + i];
            i += 1;
            assert(self.registers@ =~= Seq::new(
                16,
                |r: int|
                    if r < i {
                        old(self)@.memory[base + r]
                    } else {
                        old(self)@.registers[r]
                    },
            ));
        }
        assert(self.registers@ =~= load_registers(old(self)@)->Ok_0.registers);
        Ok(())
    }
}

} // verus!
