//! Properties that relate several instructions or whole cycles, proved over
//! the model that the handlers' contracts are stated in.
use crate::semantics::{
    add_carry, and_reg, can_fetch, clear_screen, cycle_result, draw, draw_collides, draw_x0,
    draw_y0, fetch_word, lemma_pixel_at, load_registers, lowest_pressed, op_class, op_kk, op_n,
    op_nnn, op_x, op_y, or_reg, pixel_at, pixel_is_on, sprite_bit, sprite_covers, store_registers,
    toggled, wait_key, with_reg, wrap16, xor_reg, Chip8View, PIXEL_ON, VIDEO_SIZE,
};
use vstd::prelude::*;

verus! {

/// With both operands the same register, OR and AND leave the machine as it
/// was, and XOR clears that register.
pub proof fn law_logic_same_register(s: Chip8View)
    requires
        s.wf(),
        op_x(s.opcode) == op_y(s.opcode),
    ensures
        or_reg(s) == s,
        and_reg(s) == s,
        xor_reg(s) == with_reg(s, op_x(s.opcode), 0),
        xor_reg(s).registers[op_x(s.opcode)] == 0,
{
    let x = op_x(s.opcode);
    let v = s.registers[x];
    assert(v | v == v) by (bit_vector);
    assert(v & v == v) by (bit_vector);
    assert(v ^ v == 0) by (bit_vector);
    assert(or_reg(s).registers =~= s.registers);
    assert(and_reg(s).registers =~= s.registers);
}

/// 8xy4 (x other than the flag register): a sum that fits in a byte is stored
/// exactly with VF = 0; a larger one is stored modulo 256 with VF = 1.
pub proof fn law_add_carry(s: Chip8View)
    requires
        s.wf(),
        op_x(s.opcode) != 0xF,
    ensures
        ({
            let x = op_x(s.opcode);
            let sum = s.reg(x) + s.reg(op_y(s.opcode));
            let t = add_carry(s);
            &&& sum <= 255 ==> t.reg(0xF) == 0 && t.reg(x) == sum
            &&& sum > 255 ==> t.reg(0xF) == 1 && t.reg(x) == sum % 256
        }),
{
}

/// 00E0 turns every pixel off, whatever the screen held.
pub proof fn law_clear_screen(s: Chip8View)
    requires
        s.wf(),
    ensures
        clear_screen(s).wf(),
        forall|p: int| 0 <= p < VIDEO_SIZE ==> #[trigger] clear_screen(s).video[p] == 0,
{
}

/// A cycle that executes a 2nnn, followed by a cycle that executes the 00EE at
/// nnn, resumes right after the call with the stack pointer as it was.
pub proof fn law_call_then_return(s: Chip8View, r1: u8, r2: u8)
    requires
        s.wf(),
        can_fetch(s),
        op_class(fetch_word(s)) == 2,
        s.sp < 16,
        op_nnn(fetch_word(s)) + 1 < s.memory.len(),
        s.memory[op_nnn(fetch_word(s))] == 0x00,
        s.memory[op_nnn(fetch_word(s)) + 1] == 0xEE,
    ensures
        ({
            let (t, first) = cycle_result(s, r1);
            let (u, second) = cycle_result(t, r2);
            &&& first is Ok
            &&& second is Ok
            &&& u.pc == s.pc + 2
            &&& u.sp == s.sp
        }),
{
    let t = cycle_result(s, r1).0;
    assert(t.pc == op_nnn(fetch_word(s)));
    assert(fetch_word(t) == 0x00EE);
}

/// Drawing a sprite a second time at the same place (neither coordinate
/// register being VF) restores the screen, and the second draw reports a
/// collision exactly when the first turned some pixel on.
pub proof fn law_draw_twice(s: Chip8View)
    requires
        s.wf(),
        draw(s) is Ok,
        op_x(s.opcode) != 0xF,
        op_y(s.opcode) != 0xF,
    ensures
        ({
            let t = draw(s)->Ok_0;
            let u = draw(t);
            &&& u is Ok
            &&& u->Ok_0.video == s.video
            &&& u->Ok_0.reg(0xF) == if (exists|p: int|
                0 <= p < VIDEO_SIZE && #[trigger] sprite_covers(s, p) && !pixel_is_on(s.video[p])) {
                1int
            } else {
                0int
            }
            &&& (exists|p: int| 0 <= p < VIDEO_SIZE && #[trigger] sprite_covers(s, p)) && (forall|
                p: int,
            | 0 <= p < VIDEO_SIZE && #[trigger] sprite_covers(s, p) ==> !pixel_is_on(s.video[p]))
                ==> u->Ok_0.reg(0xF) == 1
        }),
{
    let t = draw(s)->Ok_0;
    let u = draw(t)->Ok_0;
    assert forall|p: int| #[trigger] sprite_covers(t, p) == sprite_covers(s, p) by {}
    assert(u.video =~= s.video) by {
        assert forall|p: int| 0 <= p < VIDEO_SIZE implies u.video[p] == s.video[p] by {
            assert(s.video[p] == 0 || s.video[p] == PIXEL_ON);
        }
    }
    if draw_collides(t) {
        let w = choose|w: int|
            0 <= w < VIDEO_SIZE && #[trigger] sprite_covers(t, w) && pixel_is_on(t.video[w]);
        assert(sprite_covers(s, w) && !pixel_is_on(s.video[w]));
    }
    if exists|p: int| 0 <= p < VIDEO_SIZE && #[trigger] sprite_covers(s, p) && !pixel_is_on(s.video[p]) {
        let w = choose|w: int|
            0 <= w < VIDEO_SIZE && #[trigger] sprite_covers(s, w) && !pixel_is_on(s.video[w]);
        assert(sprite_covers(t, w) && pixel_is_on(t.video[w]));
    }
}

/// A sprite whose left edge is in the last screen column (Vx = 63) wraps: its
/// column `col` (1..8) lands on screen column `col - 1`, and is drawn there
/// exactly when that sprite bit is set.
pub proof fn law_draw_wraps_right_edge(s: Chip8View, row: int, col: int)
    requires
        s.wf(),
        s.reg(op_x(s.opcode)) == 63,
        0 <= row < op_n(s.opcode),
        1 <= col < 8,
    ensures
        ({
            let p = pixel_at(draw_x0(s), draw_y0(s), row, col);
            &&& p % 64 == col - 1
            &&& p / 64 == (draw_y0(s) + row) % 32
            &&& sprite_covers(s, p) == sprite_bit(s.memory[s.index + row], col)
            &&& draw(s) is Ok ==> draw(s)->Ok_0.video[p] == if sprite_bit(
                s.memory[s.index + row],
                col,
            ) {
                toggled(s.video[p])
            } else {
                s.video[p]
            }
        }),
{
    lemma_pixel_at(draw_x0(s), draw_y0(s), row, col);
    let p = pixel_at(draw_x0(s), draw_y0(s), row, col);
    vstd::arithmetic::div_mod::lemma_fundamental_div_mod_converse(
        p,
        64,
        (draw_y0(s) + row) % 32,
        col - 1,
    );
}

/// Fx55 then Fx65 with the same x and the same index: the registers come back
/// exactly as they were.
pub proof fn law_store_then_load_registers(s: Chip8View, load_op: u16)
    requires
        s.wf(),
        store_registers(s) is Ok,
        op_x(load_op) == op_x(s.opcode),
    ensures
        ({
            let t = Chip8View { opcode: load_op, ..store_registers(s)->Ok_0 };
            &&& load_registers(t) is Ok
            &&& load_registers(t)->Ok_0.registers == s.registers
        }),
{
    let t = Chip8View { opcode: load_op, ..store_registers(s)->Ok_0 };
    assert(load_registers(t)->Ok_0.registers =~= s.registers);
}

/// `lowest_pressed` is the lowest pressed key from `from` on, or 16 if none is.
pub proof fn lemma_lowest_pressed(keys: Seq<bool>, from: int)
    requires
        0 <= from <= 16,
        keys.len() == 16,
    ensures
        from <= lowest_pressed(keys, from) <= 16,
        lowest_pressed(keys, from) < 16 ==> keys[lowest_pressed(keys, from)],
        forall|j: int| from <= j < lowest_pressed(keys, from) ==> !#[trigger] keys[j],
    decreases 16 - from,
{
    if from < 16 && !keys[from] {
        lemma_lowest_pressed(keys, from + 1);
    }
}

/// Fx0A with some key pressed stores the lowest pressed key in Vx; with none
/// pressed, nothing but the program counter changes, which steps back by 2.
pub proof fn law_wait_key(s: Chip8View)
    requires
        s.wf(),
    ensures
        ({
            let t = wait_key(s);
            let x = op_x(s.opcode);
            &&& (exists|k: int| 0 <= k < 16 && #[trigger] s.keypad[k]) ==> {
                &&& s.keypad[t.reg(x)]
                &&& forall|j: int| 0 <= j < t.reg(x) ==> !#[trigger] s.keypad[j]
                &&& t == with_reg(s, x, t.reg(x))
            }
            &&& (forall|k: int| 0 <= k < 16 ==> !#[trigger] s.keypad[k]) ==> t == (Chip8View {
                pc: wrap16(s.pc - 2),
                ..s
            })
        }),
{
    lemma_lowest_pressed(s.keypad, 0);
    let k = lowest_pressed(s.keypad, 0);
    if k < 16 {
        let t = wait_key(s);
        assert(t.reg(op_x(s.opcode)) == k);
        assert(t.registers =~= s.registers.update(op_x(s.opcode), k as u8));
    }
}

/// Two cycles on an Fx0A with no key pressed: each leaves the program counter
/// on the Fx0A, so it is unchanged from after the first attempt.
pub proof fn law_wait_key_cycles(s: Chip8View, r1: u8, r2: u8)
    requires
        s.wf(),
        can_fetch(s),
        op_class(fetch_word(s)) == 0xF,
        op_kk(fetch_word(s)) == 0x0A,
        forall|k: int| 0 <= k < 16 ==> !#[trigger] s.keypad[k],
    ensures
        ({
            let (t, first) = cycle_result(s, r1);
            let (u, second) = cycle_result(t, r2);
            &&& first is Ok
            &&& second is Ok
            &&& t.pc == s.pc
            &&& u.pc == t.pc
        }),
{
    lemma_lowest_pressed(s.keypad, 0);
    let t = cycle_result(s, r1).0;
    assert(t.memory == s.memory && t.pc == s.pc && t.keypad == s.keypad);
    assert(fetch_word(t) == fetch_word(s));
}

} // verus!
