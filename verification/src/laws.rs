//! The interpreter-wide properties, proved against the transition functions
//! of `semantics`: immediate loads and adds, the skip instructions, screen
//! clearing, call and return pairing, and the XOR idempotence of sprite
//! drawing.
use vstd::prelude::*;

use crate::semantics::MState;
use crate::semantics::covers;
use crate::semantics::draw_collision;
use crate::semantics::draw_display;
use crate::semantics::alu_handles;
use crate::semantics::exec_alu_spec;
use crate::semantics::exec_draw_spec;
use crate::semantics::exec_hi_spec;
use crate::semantics::exec_sys_spec;
use crate::semantics::hi_handles;
use crate::semantics::lemma_op_bounds;
use crate::semantics::op_n;
use crate::semantics::op_nn;
use crate::semantics::op_nnn;
use crate::semantics::op_x;
use crate::semantics::op_y;
use crate::semantics::spec_cycle;
use crate::semantics::store_regs;
use crate::semantics::load_regs;
use crate::semantics::spec_fetch;
use crate::semantics::sys_handles;

verus! {

/// The decoded fields of an instruction word in terms of its two bytes.
proof fn lemma_word_fields(w: u16, a: u8, b: u8)
    requires
        w == ((a as u16) << 8) | (b as u16),
    ensures
        w == a * 256 + b,
        w & 0xF000 == (a >> 4) * 4096,
        w & 0xF00F == (a >> 4) * 4096 + (b & 0x0F),
        w & 0xF0FF == (a >> 4) * 4096 + b,
        op_x(w) == (a & 0x0F) as int,
        op_y(w) == (b >> 4) as int,
        op_n(w) == (b & 0x0F) as int,
        op_nn(w) == b,
        op_nnn(w) == (a & 0x0F) * 256 + b,
{
    assert(w == (a as u16) * 256 + (b as u16) && w & 0xF000 == ((a >> 4) as u16) * 4096 && w
        & 0xF00F == ((a >> 4) as u16) * 4096 + ((b & 0x0F) as u16) && w & 0xF0FF == ((a
        >> 4) as u16) * 4096 + (b as u16) && (w & 0x0F00) >> 8 == (a & 0x0F) as u16 && (w & 0x00F0)
        >> 4 == (b >> 4) as u16 && w & 0x000F == (b & 0x0F) as u16 && w & 0x00FF == b as u16 && w
        & 0x0FFF == ((a & 0x0F) as u16) * 256 + (b as u16) && (a >> 4) < 16 && (a & 0x0F) < 16 && (b
        >> 4) < 16 && (b & 0x0F) < 16) by (bit_vector)
        requires
            w == ((a as u16) << 8) | (b as u16),
    ;
}

/// A byte written as sixteen times its high nibble plus its low nibble
/// splits back into those nibbles.
proof fn lemma_byte_nibbles(a: u8, hi: u8, lo: u8)
    requires
        a == hi * 16 + lo,
        hi < 16,
        lo < 16,
    ensures
        a >> 4 == hi,
        a & 0x0F == lo,
{
    assert(hi < 16 && lo < 16 && a == hi * 16 + lo ==> (a >> 4 == hi && a & 0x0F == lo))
        by (bit_vector);
}

/// Toggling a display cell twice restores it, and a toggled cell reads 1
/// exactly when it was 0.
proof fn lemma_xor1(a: u8)
    ensures
        (a ^ 1) ^ 1 == a,
        ((a ^ 1) == 1) == (a == 0),
{
    assert((a ^ 1) ^ 1 == a && (((a ^ 1) == 1) == (a == 0))) by (bit_vector);
}

/// The instruction word the next cycle will fetch, when the program counter
/// and its successor address stay below 4096.
proof fn lemma_fetch_bytes(m: MState)
    requires
        m.wf(),
        m.pc + 1 < 4096,
    ensures
        spec_fetch(m) == (MState {
            opcode: ((m.memory[m.pc as int] as u16) << 8) | (m.memory[m.pc as int + 1] as u16),
            pc: (m.pc + 2) as u16,
            ..m
        }),
{
    assert(m.pc.wrapping_add(1) == m.pc + 1);
    assert(m.pc.wrapping_add(2) == m.pc + 2);
    assert(m.pc % 4096 == m.pc);
    assert((m.pc + 1) as u16 % 4096 == m.pc + 1);
}

/// Loading an immediate: `6XNN` makes register X read NN, and execution
/// moves to the next instruction.
pub proof fn lemma_load_immediate(m: MState, rnd: u8, x: u8)
    requires
        m.wf(),
        m.pc + 1 < 4096,
        x < 16,
        m.memory[m.pc as int] == 0x60 + x,
    ensures
        spec_cycle(m, rnd).v[x as int] == m.memory[m.pc as int + 1],
        spec_cycle(m, rnd).pc == m.pc + 2,
{
    let a = m.memory[m.pc as int];
    let b = m.memory[m.pc as int + 1];
    lemma_fetch_bytes(m);
    let m1 = spec_fetch(m);
    lemma_word_fields(m1.opcode, a, b);
    lemma_byte_nibbles(a, 6, x);
    assert(!sys_handles(m1.opcode));
    assert(hi_handles(m1.opcode));
    assert(spec_cycle(m, rnd) == exec_hi_spec(m1, rnd));
}

/// Adding an immediate: `7XNN` adds NN to register X modulo 256, touching
/// no flag: every other register, VF among them, keeps its value.
pub proof fn lemma_add_immediate(m: MState, rnd: u8, x: u8)
    requires
        m.wf(),
        m.pc + 1 < 4096,
        x < 16,
        m.memory[m.pc as int] == 0x70 + x,
    ensures
        spec_cycle(m, rnd).v[x as int] == (m.v[x as int] + m.memory[m.pc as int + 1]) % 256,
        forall|j: int| 0 <= j < 16 && j != x ==> spec_cycle(m, rnd).v[j] == m.v[j],
        spec_cycle(m, rnd).pc == m.pc + 2,
{
    let a = m.memory[m.pc as int];
    let b = m.memory[m.pc as int + 1];
    lemma_fetch_bytes(m);
    let m1 = spec_fetch(m);
    lemma_word_fields(m1.opcode, a, b);
    lemma_byte_nibbles(a, 7, x);
    assert(!sys_handles(m1.opcode));
    assert(hi_handles(m1.opcode));
    assert(spec_cycle(m, rnd) == exec_hi_spec(m1, rnd));
    assert(m.v[x as int].wrapping_add(b) == (m.v[x as int] + b) % 256);
}

/// Clearing the screen: after `00E0` every one of the 2048 display cells
/// is 0, whatever was there before.
pub proof fn lemma_clear_display(m: MState, rnd: u8)
    requires
        m.wf(),
        m.pc + 1 < 4096,
        m.memory[m.pc as int] == 0x00,
        m.memory[m.pc as int + 1] == 0xE0,
    ensures
        spec_cycle(m, rnd).display.len() == 2048,
        forall|cell: int| 0 <= cell < 2048 ==> spec_cycle(m, rnd).display[cell] == 0,
{
    let a = m.memory[m.pc as int];
    let b = m.memory[m.pc as int + 1];
    lemma_fetch_bytes(m);
    let m1 = spec_fetch(m);
    lemma_word_fields(m1.opcode, a, b);
    assert(m1.opcode == 0x00E0);
}

/// The skip-if-equal-immediate instruction: `3XNN` moves execution past the
/// next instruction (4 bytes in all) when VX holds NN, and to the next
/// instruction (2 bytes) when it does not.
pub proof fn lemma_skip_if_equal(m: MState, rnd: u8, x: u8)
    requires
        m.wf(),
        m.pc + 1 < 4096,
        x < 16,
        m.memory[m.pc as int] == 0x30 + x,
    ensures
        spec_cycle(m, rnd).pc == (if m.v[x as int] == m.memory[m.pc as int + 1] {
            m.pc + 4
        } else {
            m.pc + 2
        }),
{
    let a = m.memory[m.pc as int];
    let b = m.memory[m.pc as int + 1];
    lemma_fetch_bytes(m);
    let m1 = spec_fetch(m);
    lemma_word_fields(m1.opcode, a, b);
    lemma_byte_nibbles(a, 3, x);
    assert(!sys_handles(m1.opcode));
    assert(hi_handles(m1.opcode));
    assert(spec_cycle(m, rnd) == exec_hi_spec(m1, rnd));
}

/// The skip-if-unequal-immediate instruction: `4XNN` skips (4 bytes) when
/// VX differs from NN, and does not (2 bytes) when they agree.
pub proof fn lemma_skip_if_unequal(m: MState, rnd: u8, x: u8)
    requires
        m.wf(),
        m.pc + 1 < 4096,
        x < 16,
        m.memory[m.pc as int] == 0x40 + x,
    ensures
        spec_cycle(m, rnd).pc == (if m.v[x as int] != m.memory[m.pc as int + 1] {
            m.pc + 4
        } else {
            m.pc + 2
        }),
{
    let a = m.memory[m.pc as int];
    let b = m.memory[m.pc as int + 1];
    lemma_fetch_bytes(m);
    let m1 = spec_fetch(m);
    lemma_word_fields(m1.opcode, a, b);
    lemma_byte_nibbles(a, 4, x);
    assert(!sys_handles(m1.opcode));
    assert(hi_handles(m1.opcode));
    assert(spec_cycle(m, rnd) == exec_hi_spec(m1, rnd));
}

/// The skip-if-registers-equal instruction: `5XY0` skips (4 bytes) when VX
/// and VY agree, and does not (2 bytes) when they differ.
pub proof fn lemma_skip_if_registers_equal(m: MState, rnd: u8, x: u8, y: u8)
    requires
        m.wf(),
        m.pc + 1 < 4096,
        x < 16,
        y < 16,
        m.memory[m.pc as int] == 0x50 + x,
        m.memory[m.pc as int + 1] == y * 16,
    ensures
        spec_cycle(m, rnd).pc == (if m.v[x as int] == m.v[y as int] {
            m.pc + 4
        } else {
            m.pc + 2
        }),
{
    let a = m.memory[m.pc as int];
    let b = m.memory[m.pc as int + 1];
    lemma_fetch_bytes(m);
    let m1 = spec_fetch(m);
    lemma_word_fields(m1.opcode, a, b);
    lemma_byte_nibbles(a, 5, x);
    lemma_byte_nibbles(b, y, 0);
    assert(!sys_handles(m1.opcode));
    assert(!hi_handles(m1.opcode));
    assert(alu_handles(m1.opcode));
    assert(spec_cycle(m, rnd) == exec_alu_spec(m1));
}

/// The skip-if-registers-unequal instruction: `9XY0` skips (4 bytes) when
/// VX and VY differ, and does not (2 bytes) when they agree.
pub proof fn lemma_skip_if_registers_unequal(m: MState, rnd: u8, x: u8, y: u8)
    requires
        m.wf(),
        m.pc + 1 < 4096,
        x < 16,
        y < 16,
        m.memory[m.pc as int] == 0x90 + x,
        m.memory[m.pc as int + 1] == y * 16,
    ensures
        spec_cycle(m, rnd).pc == (if m.v[x as int] != m.v[y as int] {
            m.pc + 4
        } else {
            m.pc + 2
        }),
{
    let a = m.memory[m.pc as int];
    let b = m.memory[m.pc as int + 1];
    lemma_fetch_bytes(m);
    let m1 = spec_fetch(m);
    lemma_word_fields(m1.opcode, a, b);
    lemma_byte_nibbles(a, 9, x);
    lemma_byte_nibbles(b, y, 0);
    assert(!sys_handles(m1.opcode));
    assert(!hi_handles(m1.opcode));
    assert(alu_handles(m1.opcode));
    assert(spec_cycle(m, rnd) == exec_alu_spec(m1));
}

/// Drawing a sprite twice over a display restores it: each covered cell is
/// XOR-toggled twice. The second draw collides (a lit cell goes dark)
/// exactly where the first draw lit a covered cell that started dark.
pub proof fn lemma_draw_display_twice(d: Seq<u8>, mem: Seq<u8>, base: u16, vx: u8, vy: u8, n: int)
    requires
        d.len() == 2048,
    ensures
        draw_display(draw_display(d, mem, base, vx, vy, n), mem, base, vx, vy, n) == d,
        draw_collision(draw_display(d, mem, base, vx, vy, n), mem, base, vx, vy, n) == (exists|
            cell: int,
        |
            0 <= cell < 2048 && #[trigger] covers(mem, base, vx, vy, n, cell) && d[cell] == 0),
{
    let d1 = draw_display(d, mem, base, vx, vy, n);
    let d2 = draw_display(d1, mem, base, vx, vy, n);
    assert forall|cell: int| 0 <= cell < 2048 implies d2[cell] == d[cell] by {
        lemma_xor1(d[cell]);
    }
    assert(d2 =~= d);
    if draw_collision(d1, mem, base, vx, vy, n) {
        let cell = choose|cell: int|
            0 <= cell < 2048 && #[trigger] covers(mem, base, vx, vy, n, cell) && d1[cell] == 1;
        lemma_xor1(d[cell]);
        assert(d[cell] == 0);
    }
    if exists|cell: int|
        0 <= cell < 2048 && #[trigger] covers(mem, base, vx, vy, n, cell) && d[cell] == 0 {
        let cell = choose|cell: int|
            0 <= cell < 2048 && #[trigger] covers(mem, base, vx, vy, n, cell) && d[cell] == 0;
        lemma_xor1(d[cell]);
        assert(d1[cell] == 1);
        assert(draw_collision(d1, mem, base, vx, vy, n));
    }
}

/// Drawing the same sprite twice at the same position, by two consecutive
/// `DXYN` instructions, returns the display to its pre-draw state. The
/// second draw reports a collision in VF exactly when some set sprite bit
/// fell on a cell that was dark before the first draw (the first draw lit
/// it, so the second turns it off).
pub proof fn lemma_draw_twice(m: MState, r1: u8, r2: u8, x: u8, y: u8, n: u8)
    requires
        m.wf(),
        m.pc + 3 < 4096,
        x < 16,
        y < 16,
        n < 16,
        x != 15,
        y != 15,
        m.memory[m.pc as int] == 0xD0 + x,
        m.memory[m.pc as int + 1] == y * 16 + n,
        m.memory[m.pc as int + 2] == 0xD0 + x,
        m.memory[m.pc as int + 3] == y * 16 + n,
    ensures
        spec_cycle(spec_cycle(m, r1), r2).display == m.display,
        (spec_cycle(spec_cycle(m, r1), r2).v[15] == 1) == (exists|cell: int|
            0 <= cell < 2048 && #[trigger] covers(
                m.memory,
                m.index,
                m.v[x as int],
                m.v[y as int],
                n as int,
                cell,
            ) && m.display[cell] == 0),
{
    let a = m.memory[m.pc as int];
    let b = m.memory[m.pc as int + 1];
    lemma_fetch_bytes(m);
    let m1 = spec_fetch(m);
    lemma_word_fields(m1.opcode, a, b);
    lemma_byte_nibbles(a, 13, x);
    lemma_byte_nibbles(b, y, n);
    assert(!sys_handles(m1.opcode));
    assert(hi_handles(m1.opcode));
    let vx = m.v[x as int];
    let vy = m.v[y as int];
    let m2 = spec_cycle(m, r1);
    assert(m2 == exec_draw_spec(m1));
    assert(m2.display == draw_display(m.display, m.memory, m.index, vx, vy, n as int));
    assert(m2.memory == m.memory && m2.index == m.index && m2.pc == m.pc + 2);
    assert(m2.v[x as int] == vx && m2.v[y as int] == vy);
    lemma_fetch_bytes(m2);
    let m3 = spec_fetch(m2);
    assert(m3.opcode == m1.opcode);
    assert(spec_cycle(m2, r2) == exec_draw_spec(m3));
    lemma_draw_display_twice(m.display, m.memory, m.index, vx, vy, n as int);
}

/// Call and return pair up: a `2NNN` whose target holds `00EE` comes back,
/// one cycle later, to the instruction after the call, with the stack
/// depth it started from.
pub proof fn lemma_call_return(m: MState, r1: u8, r2: u8, t: u16)
    requires
        m.wf(),
        m.pc + 1 < 4096,
        m.sp < 15,
        t + 1 < 4096,
        m.memory[m.pc as int] == 0x20 + t / 256,
        m.memory[m.pc as int + 1] == t % 256,
        m.memory[t as int] == 0x00,
        m.memory[t as int + 1] == 0xEE,
    ensures
        spec_cycle(spec_cycle(m, r1), r2).pc == m.pc + 2,
        spec_cycle(spec_cycle(m, r1), r2).sp == m.sp,
{
    let a = m.memory[m.pc as int];
    let b = m.memory[m.pc as int + 1];
    lemma_fetch_bytes(m);
    let m1 = spec_fetch(m);
    lemma_word_fields(m1.opcode, a, b);
    lemma_byte_nibbles(a, 2, (t / 256) as u8);
    assert(op_nnn(m1.opcode) == t);
    assert(!sys_handles(m1.opcode));
    assert(hi_handles(m1.opcode));
    let m2 = spec_cycle(m, r1);
    assert(m2 == exec_hi_spec(m1, r1));
    assert(m2.pc == t);
    assert(m2.sp == m.sp + 1);
    assert(m2.stack[m.sp + 1] == m.pc + 2);
    assert(m2.memory == m.memory);
    lemma_fetch_bytes(m2);
    let m3 = spec_fetch(m2);
    lemma_word_fields(m3.opcode, m.memory[t as int], m.memory[t as int + 1]);
    assert(m3.opcode == 0x00EE);
    assert(sys_handles(m3.opcode));
    assert(spec_cycle(m2, r2) == exec_sys_spec(m3));
}

/// Storing registers to memory never changes how much memory there is.
proof fn lemma_store_regs_len(mem: Seq<u8>, v: Seq<u8>, base: u16, count: int)
    requires
        mem.len() == 4096,
    ensures
        store_regs(mem, v, base, count).len() == mem.len(),
    decreases (if count > 0 {
        count
    } else {
        0
    }),
{
    if count > 0 {
        lemma_store_regs_len(mem, v, base, count - 1);
    }
}

/// Loading registers from memory never changes how many registers there are.
proof fn lemma_load_regs_len(v: Seq<u8>, mem: Seq<u8>, base: u16, count: int)
    requires
        v.len() == 16,
        count <= 16,
    ensures
        load_regs(v, mem, base, count).len() == v.len(),
    decreases (if count > 0 {
        count
    } else {
        0
    }),
{
    if count > 0 {
        lemma_load_regs_len(v, mem, base, count - 1);
    }
}

/// The machine invariants are kept forever: whatever instruction a cycle
/// executes, every array keeps its hardware size, and a stack pointer
/// within the 16 slots stays within them: calls on a full stack and
/// returns on an empty one are no-ops.
pub proof fn lemma_cycle_preserves_wf(m: MState, rnd: u8)
    requires
        m.wf(),
    ensures
        spec_cycle(m, rnd).wf(),
        m.sp <= 15 ==> spec_cycle(m, rnd).sp <= 15,
{
    let m1 = spec_fetch(m);
    lemma_op_bounds(m1.opcode);
    lemma_store_regs_len(m1.memory, m1.v, m1.index, op_x(m1.opcode));
    lemma_load_regs_len(m1.v, m1.memory, m1.index, op_x(m1.opcode));
}

} // verus!
