//! The executable machine: the state record and the fetch-decode-execute
//! engine, proved to follow the transition functions of `semantics`.
use vstd::prelude::*;

use crate::semantics::MState;
use crate::semantics::alu_handles;
use crate::semantics::covers_upto;
use crate::semantics::draw_cell;
use crate::semantics::draw_collision;
use crate::semantics::draw_display;
use crate::semantics::exec_draw_spec;
use crate::semantics::lemma_covers_upto_col;
use crate::semantics::lemma_covers_upto_full;
use crate::semantics::lemma_covers_upto_row;
use crate::semantics::lemma_current_not_covered;
use crate::semantics::exec_alu_spec;
use crate::semantics::exec_hi_spec;
use crate::semantics::exec_misc_spec;
use crate::semantics::exec_sys_spec;
use crate::semantics::first_key_from;
use crate::semantics::hi_handles;
use crate::semantics::lemma_op_bounds;
use crate::semantics::load_regs;
use crate::semantics::misc_handles;
use crate::semantics::op_n;
use crate::semantics::op_x;
use crate::semantics::op_y;
use crate::semantics::spec_cycle;
use crate::semantics::spec_execute;
use crate::semantics::spec_fetch;
use crate::semantics::sprite_bit;
use crate::semantics::store_regs;
use crate::semantics::sys_handles;

verus! {

/// The machine state: 4096 bytes of memory (the font table in its first 80
/// bytes, program ROM from 0x200), the sixteen V registers, the index
/// register, the program counter, the two countdown timers, the 16-deep
/// call stack with its pointer, the hex keypad bitmap and the 64 x 32
/// display, one byte per cell.
pub struct Chip8 {
    pub opcode: u16,
    pub memory: [u8; 4096],
    pub v_registers: [u8; 16],
    pub i: u16,
    pub pc: u16,
    pub delay_timer: u8,
    pub sound_timer: u8,
    pub jump_stack: [u16; 16],
    pub stack_pointer: u16,
    pub key_state: [u8; 16],
    pub display: [u8; 2048],
}

impl View for Chip8 {
    type V = MState;

    open spec fn view(&self) -> MState {
        MState {
            opcode: self.opcode,
            memory: self.memory@,
            v: self.v_registers@,
            index: self.i,
            pc: self.pc,
            delay_timer: self.delay_timer,
            sound_timer: self.sound_timer,
            stack: self.jump_stack@,
            sp: self.stack_pointer,
            keys: self.key_state@,
            display: self.display@,
        }
    }
}

/// The built-in font table: one 5-byte glyph per hexadecimal digit.
pub open spec fn spec_fontset() -> Seq<u8> {
    seq![
        0xF0u8, 0x90, 0x90, 0x90, 0xF0, // 0
        0x20, 0x60, 0x20, 0x20, 0x70, // 1
        0xF0, 0x10, 0xF0, 0x80, 0xF0, // 2
        0xF0, 0x10, 0xF0, 0x10, 0xF0, // 3
        0x90, 0x90, 0xF0, 0x10, 0x10, // 4
        0xF0, 0x80, 0xF0, 0x10, 0xF0, // 5
        0xF0, 0x80, 0xF0, 0x90, 0xF0, // 6
        0xF0, 0x10, 0x20, 0x40, 0x40, // 7
        0xF0, 0x90, 0xF0, 0x90, 0xF0, // 8
        0xF0, 0x90, 0xF0, 0x10, 0xF0, // 9
        0xF0, 0x90, 0xF0, 0x90, 0x90, // A
        0xE0, 0x90, 0xE0, 0x90, 0xE0, // B
        0xF0, 0x80, 0x80, 0x80, 0xF0, // C
        0xE0, 0x90, 0x90, 0x90, 0xE0, // D
        0xF0, 0x80, 0xF0, 0x80, 0xF0, // E
        0xF0, 0x80, 0xF0, 0x80, 0x80, // F
    ]
}

/// The font table as a byte array, for loading into memory.
pub fn fontset() -> (f: [u8; 80])
    ensures
        f@ == spec_fontset(),
{
    let f: [u8; 80] = [
        0xF0, 0x90, 0x90, 0x90, 0xF0, 0x20, 0x60, 0x20, 0x20, 0x70, 0xF0, 0x10, 0xF0, 0x80, 0xF0,
        0xF0, 0x10, 0xF0, 0x10, 0xF0, 0x90, 0x90, 0xF0, 0x10, 0x10, 0xF0, 0x80, 0xF0, 0x10, 0xF0,
        0xF0, 0x80, 0xF0, 0x90, 0xF0, 0xF0, 0x10, 0x20, 0x40, 0x40, 0xF0, 0x90, 0xF0, 0x90, 0xF0,
        0xF0, 0x90, 0xF0, 0x10, 0xF0, 0xF0, 0x90, 0xF0, 0x90, 0x90, 0xE0, 0x90, 0xE0, 0x90, 0xE0,
        0xF0, 0x80, 0x80, 0x80, 0xF0, 0xE0, 0x90, 0x90, 0x90, 0xE0, 0xF0, 0x80, 0xF0, 0x80, 0xF0,
        0xF0, 0x80, 0xF0, 0x80, 0x80,
    ];
    proof {
        assert(f@ =~= spec_fontset());
    }
    f
}

/// The state of a freshly constructed machine: everything zeroed, the font
/// table in memory, the program counter at the start of program ROM.
pub open spec fn spec_init() -> MState {
    MState {
        opcode: 0,
        memory: Seq::new(4096, |j: int| if 0 <= j < 80 { spec_fontset()[j] } else { 0u8 }),
        v: Seq::new(16, |j: int| 0u8),
        index: 0,
        pc: 0x200,
        delay_timer: 0,
        sound_timer: 0,
        stack: Seq::new(16, |j: int| 0u16),
        sp: 0,
        keys: Seq::new(16, |j: int| 0u8),
        display: Seq::new(2048, |j: int| 0u8),
    }
}

impl Default for Chip8 {
    /// A freshly constructed machine, as `spec_init` describes it.
    fn default() -> (c: Self)
        ensures
            c@ == spec_init(),
    {
        let mut c = Chip8 {
            opcode: 0,
            memory: [0; 4096],
            v_registers: [0; 16],
            i: 0,
            pc: 0x200,
            delay_timer: 0,
            sound_timer: 0,
            jump_stack: [0; 16],
            stack_pointer: 0,
            key_state: [0; 16],
            display: [0; 2048],
        };
        c.load_font_set(fontset());
        proof {
            assert(c@.memory =~= spec_init().memory);
            assert(c@.v =~= spec_init().v);
            assert(c@.stack =~= spec_init().stack);
            assert(c@.keys =~= spec_init().keys);
            assert(c@.display =~= spec_init().display);
            assert(c@ =~= spec_init());
        }
        c
    }
}

impl Chip8 {
    /// Copies the 80-byte font table to the bottom of memory; the rest of
    /// the state is untouched.
    pub fn load_font_set(&mut self, fontset: [u8; 80])
        ensures
            forall|j: int| 0 <= j < 80 ==> final(self)@.memory[j] == fontset@[j],
            forall|j: int| 80 <= j < 4096 ==> final(self)@.memory[j] == old(self)@.memory[j],
            final(self)@ == (MState { memory: final(self)@.memory, ..old(self)@ }),
    {
        let mut idx: usize = 0;
        while idx < 80
            invariant
                idx <= 80,
                forall|j: int| 0 <= j < idx ==> self.memory@[j] == fontset@[j],
                forall|j: int| idx <= j < 4096 ==> self.memory@[j] == old(self)@.memory[j],
                self@ == (MState { memory: self@.memory, ..old(self)@ }),
            decreases 80 - idx,
        {
            self.memory[idx] = fontset[idx];
            idx += 1;
        }
    }

    /// Loads a program image at 0x200: the image truncated to the space
    /// available, the rest of program ROM zero-filled. Memory below 0x200
    /// and all other state are untouched.
    pub fn load_program(&mut self, program: &[u8])
        ensures
            forall|j: int|
                0x200 <= j < 4096 ==> final(self)@.memory[j] == (if j - 0x200
                    < program@.len() {
                    program@[j - 0x200]
                } else {
                    0u8
                }),
            forall|j: int| 0 <= j < 0x200 ==> final(self)@.memory[j] == old(self)@.memory[j],
            final(self)@ == (MState { memory: final(self)@.memory, ..old(self)@ }),
    {
        let mut idx: usize = 0x200;
        while idx < 4096
            invariant
                0x200 <= idx <= 4096,
                forall|j: int|
                    0x200 <= j < idx ==> self.memory@[j] == (if j - 0x200 < program@.len() {
                        program@[j - 0x200]
                    } else {
                        0u8
                    }),
                forall|j: int| 0 <= j < 0x200 ==> self.memory@[j] == old(self)@.memory[j],
                forall|j: int| idx <= j < 4096 ==> self.memory@[j] == old(self)@.memory[j],
                self@ == (MState { memory: self@.memory, ..old(self)@ }),
            decreases 4096 - idx,
        {
            if idx - 0x200 < program.len() {
                self.memory[idx] = program[idx - 0x200];
            } else {
                self.memory[idx] = 0;
            }
            idx += 1;
        }
    }

    /// Records one key going down or up in the key bitmap.
    pub fn set_key(&mut self, key: usize, pressed: bool)
        requires
            key < 16,
        ensures
            final(self)@.keys == old(self)@.keys.update(
                key as int,
                if pressed {
                    1u8
                } else {
                    0u8
                },
            ),
            final(self)@ == (MState { keys: final(self)@.keys, ..old(self)@ }),
    {
        self.key_state[key] = if pressed {
            1
        } else {
            0
        };
    }

    /// One 60 Hz tick: each nonzero timer counts down by one.
    pub fn tick_timers(&mut self)
        ensures
            final(self)@.delay_timer == (if old(self)@.delay_timer > 0 {
                old(self)@.delay_timer - 1
            } else {
                0int
            }),
            final(self)@.sound_timer == (if old(self)@.sound_timer > 0 {
                old(self)@.sound_timer - 1
            } else {
                0int
            }),
            final(self)@ == (MState {
                delay_timer: final(self)@.delay_timer,
                sound_timer: final(self)@.sound_timer,
                ..old(self)@
            }),
    {
        if self.delay_timer > 0 {
            self.delay_timer = self.delay_timer - 1;
        }
        if self.sound_timer > 0 {
            self.sound_timer = self.sound_timer - 1;
        }
    }

    /// Whether the beeper should sound: precisely while the sound timer is
    /// running.
    pub fn sound_active(&self) -> (active: bool)
        ensures
            active == (self@.sound_timer > 0),
    {
        self.sound_timer > 0
    }

    /// Fills every display cell with one value (used to start from an
    /// inverted screen).
    pub fn fill_display(&mut self, value: u8)
        ensures
            forall|j: int| 0 <= j < 2048 ==> final(self)@.display[j] == value,
            final(self)@ == (MState { display: final(self)@.display, ..old(self)@ }),
    {
        self.display = [value; 2048];
        proof {
            assert(forall|j: int| 0 <= j < 2048 ==> self@.display[j] == value);
        }
    }

    /// Flips every display cell: lit cells (any nonzero value) go dark,
    /// dark cells light up.
    pub fn invert_display(&mut self)
        ensures
            forall|j: int|
                0 <= j < 2048 ==> final(self)@.display[j] == (if old(self)@.display[j] > 0 {
                    0u8
                } else {
                    1u8
                }),
            final(self)@ == (MState { display: final(self)@.display, ..old(self)@ }),
    {
        let mut idx: usize = 0;
        while idx < 2048
            invariant
                idx <= 2048,
                forall|j: int|
                    0 <= j < idx ==> self.display@[j] == (if old(self)@.display[j] > 0 {
                        0u8
                    } else {
                        1u8
                    }),
                forall|j: int| idx <= j < 2048 ==> self.display@[j] == old(self)@.display[j],
                self@ == (MState { display: self@.display, ..old(self)@ }),
            decreases 2048 - idx,
        {
            if self.display[idx] > 0 {
                self.display[idx] = 0;
            } else {
                self.display[idx] = 1;
            }
            idx += 1;
        }
    }
}

/// Relies on rand::random::<u8>: one byte from the host's thread-local
/// generator. Nothing is promised of its value; every caller is verified
/// for every byte that can come back.
#[verifier::external_body]
fn random_byte() -> u8 {
    rand::random::<u8>()
}

impl Chip8 {
    /// One full cycle: fetch the big-endian instruction word at the program
    /// counter, advance past it, and execute it. Total: every state and
    /// every instruction word has a defined next state, reached without
    /// failing. The cycle follows `spec_cycle` for whatever byte the random
    /// source produced.
    pub fn single_cycle(&mut self)
        ensures
            exists|rnd: u8| final(self)@ == #[trigger] spec_cycle(old(self)@, rnd),
    {
        let b0 = self.memory[(self.pc % 4096) as usize];
        let b1 = self.memory[(self.pc.wrapping_add(1) % 4096) as usize];
        self.opcode = ((b0 as u16) << 8) | (b1 as u16);
        self.pc = self.pc.wrapping_add(2);
        proof {
            assert(self@ =~= spec_fetch(old(self)@));
        }
        let rnd = random_byte();
        self.execute(rnd);
        proof {
            assert(self@ == spec_cycle(old(self)@, rnd));
        }
    }

    /// Executes the instruction word already latched in `opcode`, trying the
    /// four decode stages in order; a word no stage recognizes is a no-op.
    fn execute(&mut self, rnd: u8)
        ensures
            final(self)@ == spec_execute(old(self)@, rnd),
    {
        if self.exec_sys() {
            return ;
        }
        if self.exec_imm(rnd) {
            return ;
        }
        if self.exec_alu() {
            return ;
        }
        self.exec_misc();
    }

    /// The two exact-match system instructions: clear screen and return.
    fn exec_sys(&mut self) -> (handled: bool)
        ensures
            handled == sys_handles(old(self)@.opcode),
            handled ==> final(self)@ == exec_sys_spec(old(self)@),
            !handled ==> *final(self) == *old(self),
    {
        if self.opcode == 0x00E0 {
            self.display = [0; 2048];
            proof {
                assert(self@.display =~= exec_sys_spec(old(self)@).display);
                assert(self@ =~= exec_sys_spec(old(self)@));
            }
            true
        } else if self.opcode == 0x00EE {
            if self.stack_pointer >= 1 && self.stack_pointer <= 15 {
                self.pc = self.jump_stack[self.stack_pointer as usize];
                self.stack_pointer = self.stack_pointer - 1;
            }
            true
        } else {
            false
        }
    }

    /// The instructions matched on the high nibble: jumps, calls, the
    /// immediate register operations, the random byte and the sprite draw.
    fn exec_imm(&mut self, rnd: u8) -> (handled: bool)
        ensures
            handled == hi_handles(old(self)@.opcode),
            handled ==> final(self)@ == exec_hi_spec(old(self)@, rnd),
            !handled ==> *final(self) == *old(self),
    {
        proof {
            lemma_op_bounds(self.opcode);
        }
        let x = ((self.opcode & 0x0F00) >> 8) as usize;
        let nn = (self.opcode & 0x00FF) as u8;
        match self.opcode & 0xF000 {
            0x0000 => {
                // 0NNN machine-code call: ignored by modern interpreters.
                true
            },
            0x1000 => {
                // 1NNN: jump.
                self.pc = self.opcode & 0x0FFF;
                true
            },
            0x2000 => {
                // 2NNN: call subroutine; a full stack makes this a no-op.
                if self.stack_pointer < 15 {
                    self.stack_pointer = self.stack_pointer + 1;
                    self.jump_stack[self.stack_pointer as usize] = self.pc;
                    self.pc = self.opcode & 0x0FFF;
                }
                true
            },
            0x3000 => {
                // 3XNN: skip if VX == NN.
                if self.v_registers[x] == nn {
                    self.pc = self.pc.wrapping_add(2);
                }
                true
            },
            0x4000 => {
                // 4XNN: skip if VX != NN.
                if self.v_registers[x] != nn {
                    self.pc = self.pc.wrapping_add(2);
                }
                true
            },
            0x6000 => {
                // 6XNN: load immediate.
                self.v_registers[x] = nn;
                true
            },
            0x7000 => {
                // 7XNN: add immediate, 8-bit wraparound, no flag.
                self.v_registers[x] = self.v_registers[x].wrapping_add(nn);
                true
            },
            0xA000 => {
                // ANNN: load the index register.
                self.i = self.opcode & 0x0FFF;
                true
            },
            0xB000 => {
                // BNNN: jump to NNN + V0.
                self.pc = (self.opcode & 0x0FFF) + self.v_registers[0] as u16;
                true
            },
            0xC000 => {
                // CXNN: the random byte, masked by NN.
                self.v_registers[x] = nn & rnd;
                true
            },
            0xD000 => {
                // DXYN: draw a sprite.
                self.exec_draw();
                true
            },
            _ => false,
        }
    }

    /// The sprite draw `DXYN`: `n` rows of 8 pixels from memory at the index
    /// register, XOR-composited at `(VX, VY)` with both axes wrapping; VF
    /// reports whether a lit cell went dark.
    fn exec_draw(&mut self)
        ensures
            final(self)@ == exec_draw_spec(old(self)@),
    {
        proof {
            lemma_op_bounds(self.opcode);
        }
        let x = ((self.opcode & 0x0F00) >> 8) as usize;
        let y = ((self.opcode & 0x00F0) >> 4) as usize;
        let nbytes = (self.opcode & 0x000F) as usize;
        let vx = self.v_registers[x];
        let vy = self.v_registers[y];
        let ghost m0 = self@;
        let ghost base = self.i;
        self.v_registers[15] = 0;
        let mut row: usize = 0;
        while row < nbytes
            invariant
                row <= nbytes,
                nbytes < 16,
                nbytes == op_n(m0.opcode),
                vx == m0.v[op_x(m0.opcode)],
                vy == m0.v[op_y(m0.opcode)],
                base == m0.index,
                m0.v.len() == 16,
                self@ == (MState { v: self@.v, display: self@.display, ..m0 }),
                self@.v.len() == 16,
                forall|j: int| 0 <= j < 16 && j != 15 ==> self@.v[j] == m0.v[j],
                self@.v[15] == 0 || self@.v[15] == 1,
                forall|cell: int|
                    0 <= cell < 2048 ==> self@.display[cell] == (if covers_upto(
                        m0.memory,
                        base,
                        vx,
                        vy,
                        row as int,
                        0,
                        cell,
                    ) {
                        m0.display[cell] ^ 1
                    } else {
                        m0.display[cell]
                    }),
                (self@.v[15] == 1) == (exists|cell: int|
                    0 <= cell < 2048 && #[trigger] covers_upto(
                        m0.memory,
                        base,
                        vx,
                        vy,
                        row as int,
                        0,
                        cell,
                    ) && m0.display[cell] == 1),
            decreases nbytes - row,
        {
            let sprt = self.memory[(self.i as usize + row) % 4096];
            proof {
                assert(sprt == m0.memory[(base + row as int) % 4096]);
            }
            let mut col: usize = 0;
            while col < 8
                invariant
                    col <= 8,
                    row < nbytes,
                    nbytes < 16,
                    nbytes == op_n(m0.opcode),
                    vx == m0.v[op_x(m0.opcode)],
                    vy == m0.v[op_y(m0.opcode)],
                    base == m0.index,
                    m0.v.len() == 16,
                    sprt == m0.memory[(base + row as int) % 4096],
                    self@ == (MState { v: self@.v, display: self@.display, ..m0 }),
                    self@.v.len() == 16,
                    forall|j: int| 0 <= j < 16 && j != 15 ==> self@.v[j] == m0.v[j],
                    self@.v[15] == 0 || self@.v[15] == 1,
                    forall|cell: int|
                        0 <= cell < 2048 ==> self@.display[cell] == (if covers_upto(
                            m0.memory,
                            base,
                            vx,
                            vy,
                            row as int,
                            col as int,
                            cell,
                        ) {
                            m0.display[cell] ^ 1
                        } else {
                            m0.display[cell]
                        }),
                    (self@.v[15] == 1) == (exists|cell: int|
                        0 <= cell < 2048 && #[trigger] covers_upto(
                            m0.memory,
                            base,
                            vx,
                            vy,
                            row as int,
                            col as int,
                            cell,
                        ) && m0.display[cell] == 1),
                decreases 8 - col,
            {
                let shift: u8 = (7 - col) as u8;
                let bit_on = (sprt >> shift) & 1 == 1;
                proof {
                    assert(bit_on == sprite_bit(m0.memory, base, row as int, col as int));
                }
                if bit_on {
                    let cell = ((vy as usize + row) % 32) * 64 + ((vx as usize + col) % 64);
                    proof {
                        assert(cell < 2048);
                        assert(cell as int == draw_cell(vx, vy, row as int, col as int));
                        lemma_current_not_covered(m0.memory, base, vx, vy, row as int, col as int);
                        assert(self@.display[cell as int] == m0.display[cell as int]);
                    }
                    if self.display[cell] == 1 {
                        self.v_registers[15] = 1;
                    }
                    let toggled = self.display[cell] ^ 1;
                    self.display[cell] = toggled;
                    proof {
                        lemma_covers_upto_col(m0.memory, base, vx, vy, row as int, col as int);
                    }
                } else {
                    proof {
                        lemma_covers_upto_col(m0.memory, base, vx, vy, row as int, col as int);
                    }
                }
                col += 1;
            }
            proof {
                lemma_covers_upto_row(m0.memory, base, vx, vy, row as int);
            }
            row += 1;
        }
        proof {
            lemma_covers_upto_full(m0.memory, base, vx, vy, nbytes as int);
            assert(self@.display =~= draw_display(
                m0.display,
                m0.memory,
                base,
                vx,
                vy,
                nbytes as int,
            ));
            assert((self@.v[15] == 1) == draw_collision(
                m0.display,
                m0.memory,
                base,
                vx,
                vy,
                nbytes as int,
            ));
            assert(self@.v =~= m0.v.update(
                15,
                if draw_collision(m0.display, m0.memory, base, vx, vy, nbytes as int) {
                    1u8
                } else {
                    0u8
                },
            ));
            assert(self@ =~= exec_draw_spec(m0));
        }
    }

    /// The register-to-register operations, matched on high and low nibble.
    fn exec_alu(&mut self) -> (handled: bool)
        ensures
            handled == alu_handles(old(self)@.opcode),
            handled ==> final(self)@ == exec_alu_spec(old(self)@),
            !handled ==> *final(self) == *old(self),
    {
        proof {
            lemma_op_bounds(self.opcode);
        }
        let x = ((self.opcode & 0x0F00) >> 8) as usize;
        let y = ((self.opcode & 0x00F0) >> 4) as usize;
        match self.opcode & 0xF00F {
            0x5000 => {
                // 5XY0: skip if VX == VY.
                if self.v_registers[x] == self.v_registers[y] {
                    self.pc = self.pc.wrapping_add(2);
                }
                true
            },
            0x8000 => {
                // 8XY0: copy VY into VX.
                self.v_registers[x] = self.v_registers[y];
                true
            },
            0x8001 => {
                // 8XY1: bitwise or.
                self.v_registers[x] = self.v_registers[x] | self.v_registers[y];
                true
            },
            0x8002 => {
                // 8XY2: bitwise and.
                self.v_registers[x] = self.v_registers[x] & self.v_registers[y];
                true
            },
            0x8003 => {
                // 8XY3: bitwise xor.
                self.v_registers[x] = self.v_registers[x] ^ self.v_registers[y];
                true
            },
            0x8004 => {
                // 8XY4: add with carry flag.
                let sum = self.v_registers[x] as u16 + self.v_registers[y] as u16;
                if sum > 0x00FF {
                    self.v_registers[15] = 1;
                } else {
                    self.v_registers[15] = 0;
                }
                self.v_registers[x] = self.v_registers[x].wrapping_add(self.v_registers[y]);
                true
            },
            0x8005 => {
                // 8XY5: subtract with borrow flag.
                if self.v_registers[x] > self.v_registers[y] {
                    self.v_registers[15] = 1;
                } else {
                    self.v_registers[15] = 0;
                }
                self.v_registers[x] = self.v_registers[x].wrapping_sub(self.v_registers[y]);
                true
            },
            0x8006 => {
                // 8XY6: shift right, VF takes the dropped bit.
                self.v_registers[15] = self.v_registers[x] & 0x01;
                self.v_registers[x] = self.v_registers[x] >> 1;
                true
            },
            0x8007 => {
                // 8XY7: reversed subtract, VF clear on borrow.
                if self.v_registers[y] > self.v_registers[x] {
                    self.v_registers[15] = 1;
                } else {
                    self.v_registers[15] = 0;
                }
                self.v_registers[x] = self.v_registers[y].wrapping_sub(self.v_registers[x]);
                true
            },
            0x800E => {
                // 8XYE: shift left, VF takes the dropped bit.
                self.v_registers[15] = self.v_registers[x] >> 7;
                self.v_registers[x] = self.v_registers[x] << 1;
                true
            },
            0x9000 => {
                // 9XY0: skip if VX != VY.
                if self.v_registers[x] != self.v_registers[y] {
                    self.pc = self.pc.wrapping_add(2);
                }
                true
            },
            _ => false,
        }
    }

    /// The smallest pressed key index, if any key is down.
    fn first_pressed_key(&self) -> (r: Option<u8>)
        ensures
            r == (if first_key_from(self@.keys, 0) < 16 {
                Some(first_key_from(self@.keys, 0) as u8)
            } else {
                Option::<u8>::None
            }),
    {
        let mut k: usize = 0;
        while k < 16
            invariant
                k <= 16,
                first_key_from(self@.keys, 0) == first_key_from(self@.keys, k as int),
            decreases 16 - k,
        {
            if self.key_state[k] != 0 {
                proof {
                    assert(first_key_from(self@.keys, k as int) == k as int);
                }
                return Some(k as u8);
            }
            k += 1;
        }
        None
    }

    /// The keyboard, timer and memory-block operations, matched on high
    /// nibble and low byte.
    fn exec_misc(&mut self)
        ensures
            misc_handles(old(self)@.opcode) ==> final(self)@ == exec_misc_spec(old(self)@),
            !misc_handles(old(self)@.opcode) ==> *final(self) == *old(self),
    {
        proof {
            lemma_op_bounds(self.opcode);
        }
        let x = ((self.opcode & 0x0F00) >> 8) as usize;
        match self.opcode & 0xF0FF {
            0xE09E => {
                // EX9E: skip if the key in VX is pressed. A value above 15
                // names no key and counts as not pressed.
                let key = self.v_registers[x] as usize;
                if key < 16 && self.key_state[key] != 0 {
                    self.pc = self.pc.wrapping_add(2);
                }
            },
            0xE0A1 => {
                // EXA1: skip if the key in VX is not pressed.
                let key = self.v_registers[x] as usize;
                if !(key < 16 && self.key_state[key] != 0) {
                    self.pc = self.pc.wrapping_add(2);
                }
            },
            0xF007 => {
                // FX07: read the delay timer.
                self.v_registers[x] = self.delay_timer;
            },
            0xF00A => {
                // FX0A: block for a key press by rewinding the program
                // counter until one is down.
                match self.first_pressed_key() {
                    Some(key) => {
                        self.v_registers[x] = key;
                    },
                    None => {
                        self.pc = self.pc.wrapping_sub(2);
                    },
                }
            },
            0xF015 => {
                // FX15: set the delay timer.
                self.delay_timer = self.v_registers[x];
            },
            0xF018 => {
                // FX18: set the sound timer.
                self.sound_timer = self.v_registers[x];
            },
            0xF01E => {
                // FX1E: add VX to the index register.
                self.i = self.i.wrapping_add(self.v_registers[x] as u16);
            },
            0xF029 => {
                // FX29: point the index register at the 5-byte font glyph
                // for the digit in VX.
                self.i = self.v_registers[x] as u16 * 5;
            },
            0xF033 => {
                // FX33: store the decimal digits of VX at the index register.
                let vxv = self.v_registers[x];
                self.memory[(self.i as usize) % 4096] = (vxv / 100) % 10;
                self.memory[(self.i as usize + 1) % 4096] = (vxv / 10) % 10;
                self.memory[(self.i as usize + 2) % 4096] = vxv % 10;
            },
            0xF055 => {
                // FX55: store V0 up to (exclusive) VX at the index register.
                let ghost m0 = self@;
                let mut k: usize = 0;
                while k < x
                    invariant
                        k <= x,
                        x < 16,
                        self@.memory == store_regs(m0.memory, m0.v, m0.index, k as int),
                        self@ == (MState { memory: self@.memory, ..m0 }),
                    decreases x - k,
                {
                    self.memory[(self.i as usize + k) % 4096] = self.v_registers[k];
                    k += 1;
                }
            },
            0xF065 => {
                // FX65: load V0 up to (exclusive) VX from the index register.
                let ghost m0 = self@;
                let mut k: usize = 0;
                while k < x
                    invariant
                        k <= x,
                        x < 16,
                        self@.v == load_regs(m0.v, m0.memory, m0.index, k as int),
                        self@ == (MState { v: self@.v, ..m0 }),
                    decreases x - k,
                {
                    self.v_registers[k] = self.memory[(self.i as usize + k) % 4096];
                    k += 1;
                }
            },
            _ => {},
        }
    }
}

} // verus!
