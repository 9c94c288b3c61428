//! The machine state, start-up, ROM loading and the fetch-decode-execute cycle.
use crate::semantics::{
    cycle_result, execute, fetched, font_glyphs, initial_memory, outcome, initial_state, op_class, op_kk, op_n, op_nnn, op_x, op_y,
    with_rom, Chip8Error, Chip8View, FONT_SET_SIZE, FONT_SET_START_ADDRESS, MAX_ROM_SIZE,
    MEM_SIZE, STACK_SIZE, START_ADDRESS, VIDEO_SIZE,
};
use rand::Rng;
use vstd::prelude::*;

verus! {

/// A CHIP-8 machine. Every field is public so that a host can render the
/// framebuffer, feed the keypad and read the timers.
pub struct Chip8 {
    pub memory: [u8; MEM_SIZE],
    pub registers: [u8; 16],
    pub index: u16,
    pub pc: u16,
    pub stack: [u16; STACK_SIZE],
    pub sp: u8,
    pub delay_timer: u8,
    pub sound_timer: u8,
    /// `true` while the key is held down.
    pub keypad: [bool; 16],
    /// Row-major: pixel (x, y) at `y * VIDEO_WIDTH + x`; 0 is clear, `PIXEL_ON` set.
    pub video: [u32; VIDEO_SIZE],
    pub opcode: u16,
}

impl View for Chip8 {
    type V = Chip8View;

    open spec fn view(&self) -> Chip8View {
        Chip8View {
            memory: self.memory@,
            registers: self.registers@,
            index: self.index,
            pc: self.pc,
            stack: self.stack@,
            sp: self.sp,
            delay_timer: self.delay_timer,
            sound_timer: self.sound_timer,
            keypad: self.keypad@,
            video: self.video@,
            opcode: self.opcode,
        }
    }
}

/// Bits 8-11 of `op`.
pub fn field_x(op: u16) -> (r: usize)
    ensures
        r as int == op_x(op),
        r < 16,
{
    proof {
        assert((op & 0x0F00u16) >> 8u16 == (op / 0x100u16) % 16u16) by (bit_vector);
    }
    ((op & 0x0F00) >> 8) as usize
}

/// Bits 4-7 of `op`.
pub fn field_y(op: u16) -> (r: usize)
    ensures
        r as int == op_y(op),
        r < 16,
{
    proof {
        assert((op & 0x00F0u16) >> 4u16 == (op / 0x10u16) % 16u16) by (bit_vector);
    }
    ((op & 0x00F0) >> 4) as usize
}

/// Bits 0-3 of `op`.
pub fn field_n(op: u16) -> (r: u8)
    ensures
        r as int == op_n(op),
        r < 16,
{
    proof {
        assert(op & 0x000Fu16 == op % 16u16) by (bit_vector);
    }
    (op & 0x000F) as u8
}

/// Bits 0-7 of `op`.
pub fn field_kk(op: u16) -> (r: u8)
    ensures
        r as int == op_kk(op),
{
    proof {
        assert(op & 0x00FFu16 == op % 0x100u16) by (bit_vector);
    }
    (op & 0x00FF) as u8
}

/// Bits 0-11 of `op`.
pub fn field_nnn(op: u16) -> (r: u16)
    ensures
        r as int == op_nnn(op),
{
    proof {
        assert(op & 0x0FFFu16 == op % 0x1000u16) by (bit_vector);
    }
    op & 0x0FFF
}

/// Bits 12-15 of `op`.
pub fn field_class(op: u16) -> (r: u16)
    ensures
        r as int == op_class(op),
        r < 16,
{
    proof {
        assert((op & 0xF000u16) >> 12u16 == op / 0x1000u16) by (bit_vector);
    }
    (op & 0xF000) >> 12
}

/// The built-in font set.
fn font_set() -> (r: [u8; FONT_SET_SIZE])
    ensures
        r@ == font_glyphs(),
{
    let r: [u8; FONT_SET_SIZE] = [
        0xF0, 0x90, 0x90, 0x90, 0xF0, // 0
        0x20, 0x60, 0x20, 0x20, 0x70, // 1
        0xF0, 0x10, 0xF0, 0x80, 0xF0, // 2
        0xF0, 0x10, 0xF0, 0x10, 0xF0, // 3
        0x90, 0x90, 0xF0, 0x10, 0x10, // 4
        0xF0, 0x80, 0xF0, 0x10, 0xF0, // 5
        0xF0, 0x80, 0xF0, 0x90, 0xF0, // 6
        0xF0, 0x10, 0x20, 0x40, 0x40, // 7
        0xF0, 0x90, 0xF0, 0x90, 0xF0, // 8
        0xF0, 0x90, 0xF0, 0x10, 0xF0, // 9
        0xF0, 0x90, 0xF0, 0x90, 0x90, // A
        0xE0, 0x90, 0xE0, 0x90, 0xE0, // B
        0xF0, 0x80, 0x80, 0x80, 0xF0, // C
        0xE0, 0x90, 0x90, 0x90, 0xE0, // D
        0xF0, 0x80, 0xF0, 0x80, 0xF0, // E
        0xF0, 0x80, 0xF0, 0x80, 0x80, // F
    ];
    assert(r@ =~= font_glyphs());
    r
}

impl Chip8 {
    /// Relies on rand's `thread_rng().gen::<u8>()`: a byte drawn from the
    /// thread-local generator. Nothing is promised of its value.
    #[verifier::external_body]
    pub fn rand_gen() -> u8 {
        let mut rng = rand::thread_rng();
        rng.gen::<u8>()
    }

    /// A machine at start-up: font set loaded, everything else zero, program
    /// counter at `START_ADDRESS`.
    pub fn new() -> (r: Self)
        ensures
            r@ == initial_state(),
            r@.wf(),
    {
        let font = font_set();
        let mut memory: [u8; MEM_SIZE] = [0u8; MEM_SIZE];
        Self::load_font_set(&mut memory, &font);
        let r = Chip8 {
            memory: memory,
            registers: [0u8; 16],
            index: 0,
            pc: START_ADDRESS as u16,
            stack: [0u16; STACK_SIZE],
            sp: 0,
            delay_timer: 0,
            sound_timer: 0,
            keypad: [false; 16],
            video: [0u32; VIDEO_SIZE],
            opcode: 0,
        };
        assert(r.memory@ =~= initial_memory());
        assert(r.registers@ =~= Seq::new(16, |_i: int| 0u8));
        assert(r.stack@ =~= Seq::new(STACK_SIZE as nat, |_i: int| 0u16));
        assert(r.keypad@ =~= Seq::new(16, |_i: int| false));
        assert(r.video@ =~= Seq::new(VIDEO_SIZE as nat, |_i: int| 0u32));
        r
    }

    /// Copies the font set to `FONT_SET_START_ADDRESS`.
    fn load_font_set(memory: &mut [u8; MEM_SIZE], font: &[u8; FONT_SET_SIZE])
        ensures
            forall|a: int|
                0 <= a < MEM_SIZE ==> #[trigger] final(memory)@[a] == if FONT_SET_START_ADDRESS
                    <= a < FONT_SET_START_ADDRESS + FONT_SET_SIZE {
                    font@[a - FONT_SET_START_ADDRESS]
                } else {
                    old(memory)@[a]
                },
    {
        let mut i: usize = 0;
        while i < FONT_SET_SIZE
            invariant
                0 <= i <= FONT_SET_SIZE,
                forall|a: int|
                    0 <= a < MEM_SIZE ==> #[trigger] memory@[a] == if FONT_SET_START_ADDRESS <= a
                        < FONT_SET_START_ADDRESS + i {
                        font@[a - FONT_SET_START_ADDRESS]
                    } else {
                        old(memory)@[a]
                    },
            decreases FONT_SET_SIZE - i,
        {
            memory[FONT_SET_START_ADDRESS + i] = font[i];
            i += 1;
        }
    }

    /// Copies `rom` verbatim to memory from `START_ADDRESS` on. A ROM longer
    /// than `MAX_ROM_SIZE` is refused and memory is left as it was; nothing but
    /// memory changes.
    pub fn load_rom(&mut self, rom: &[u8]) -> (r: Result<(), Chip8Error>)
        ensures
            rom@.len() <= MAX_ROM_SIZE <==> r is Ok,
            r is Err ==> r == Err::<(), Chip8Error>(Chip8Error::RomTooLarge) && final(self)@ == old(
                self,
            )@,
            r is Ok ==> final(self)@ == (Chip8View {
                memory: with_rom(old(self)@.memory, rom@),
                ..old(self)@
            }),
    {
        if rom.len() > MAX_ROM_SIZE {
            return Err(Chip8Error::RomTooLarge);
        }
        let mut i: usize = 0;
        while i < rom.len()
            invariant
                0 <= i <= rom@.len() <= MAX_ROM_SIZE,
                self@ == (Chip8View { memory: self@.memory, ..old(self)@ }),
                self.memory@ =~= with_rom(old(self)@.memory, rom@.take(i as int)),
            decreases rom@.len() - i,
        {
            self.memory[START_ADDRESS + i] = rom[i];
            i += 1;
            assert(self.memory@ =~= with_rom(old(self)@.memory, rom@.take(i as int)));
        }
        assert(rom@.take(rom@.len() as int) =~= rom@);
        Ok(())
    }

    /// One cycle: fetch the big-endian word at `pc`, advance `pc` by 2,
    /// execute it, then count each non-zero timer down by one. The random
    /// byte of a Cxkk comes from rand.
    pub fn cycle(&mut self) -> (r: Result<(), Chip8Error>)
        ensures
            exists|random: u8| (final(self)@, r) == cycle_result(old(self)@, random),
            old(self)@.wf() ==> final(self)@.wf(),
    {
        let random = Self::rand_gen();
        self.step(random)
    }

    /// One cycle, with `random` as the random byte of a Cxkk. A fetch past the
    /// end of memory fails and changes nothing; a faulting instruction leaves
    /// the machine as the fetch left it, timers untouched.
    pub fn step(&mut self, random: u8) -> (r: Result<(), Chip8Error>)
        ensures
            (final(self)@, r) == cycle_result(old(self)@, random),
            old(self)@.wf() ==> final(self)@.wf(),
    {
        let pc = self.pc as usize;
        if pc + 1 >= MEM_SIZE {
            return Err(Chip8Error::OutOfBounds);
        }
        self.opcode = (self.memory[pc] as u16) * 256 + self.memory[pc + 1] as u16;
        self.pc = self.pc + 2;
        assert(self@ == fetched(old(self)@));
        match self.dispatch(random) {
            Ok(()) => {
                if self.delay_timer > 0 {
                    self.delay_timer = self.delay_timer - 1;
                }
                if self.sound_timer > 0 {
                    self.sound_timer = self.sound_timer - 1;
                }
                Ok(())
            },
            Err(e) => Err(e),
        }
    }

    /// Executes `opcode` by its class and, for classes 0, 8, E and F, its
    /// low nibble or low byte; an opcode without a meaning changes nothing.
    fn dispatch(&mut self, random: u8) -> (r: Result<(), Chip8Error>)
        ensures
            (final(self)@, r) == outcome(execute(old(self)@, random), old(self)@),
    {
        let class = field_class(self.opcode);
        let n = field_n(self.opcode);
        match class {
            0x0 => {
                if n == 0x0 {
                    self.OP_00E0();
                    Ok(())
                } else if n == 0xE {
                    self.OP_00EE()
                } else {
                    Ok(())
                }
            },
            0x1 => {
                self.OP_1nnn();
                Ok(())
            },
            0x2 => self.OP_2nnn(),
            0x3 => {
                self.OP_3xkk();
                Ok(())
            },
            0x4 => {
                self.OP_4xkk();
                Ok(())
            },
            0x5 => {
                self.OP_5xy0();
                Ok(())
            },
            0x6 => {
                self.OP_6xkk();
                Ok(())
            },
            0x7 => {
                self.OP_7xkk();
                Ok(())
            },
            0x8 => {
                match n {
                    0x0 => self.OP_8xy0(),
                    0x1 => self.OP_8xy1(),
                    0x2 => self.OP_8xy2(),
                    0x3 => self.OP_8xy3(),
                    0x4 => self.OP_8xy4(),
                    0x5 => self.OP_8xy5(),
                    0x6 => self.OP_8xy6(),
                    0x7 => self.OP_8xy7(),
                    0xE => self.OP_8xyE(),
                    _ => {},
                }
                Ok(())
            },
            0x9 => {
                self.OP_9xy0();
                Ok(())
            },
            0xA => {
                self.OP_Annn();
                Ok(())
            },
            0xB => {
                self.OP_Bnnn();
                Ok(())
            },
            0xC => {
                self.OP_Cxkk_with(random);
                Ok(())
            },
            0xD => self.OP_Dxyn(),
            0xE => {
                if n == 0xE {
                    self.OP_Ex9E()
                } else if n == 0x1 {
                    self.OP_ExA1()
                } else {
                    Ok(())
                }
            },
            _ => {
                match field_kk(self.opcode) {
                    0x07 => {
                        self.OP_Fx07();
                        Ok(())
                    },
                    0x0A => {
                        self.OP_Fx0A();
                        Ok(())
                    },
                    0x15 => {
                        self.OP_Fx15();
                        Ok(())
                    },
                    0x18 => {
                        self.OP_Fx18();
                        Ok(())
                    },
                    0x1E => {
                        self.OP_Fx1E();
                        Ok(())
                    },
                    0x29 => {
                        self.OP_Fx29();
                        Ok(())
                    },
                    0x33 => self.OP_Fx33(),
                    0x55 => self.OP_Fx55(),
                    0x65 => self.OP_Fx65(),
                    _ => Ok(()),
                }
            },
        }
    }
}

} // verus!
