//! The mathematical model of the interpreter: the machine state as plain
//! sequences and integers, and one total transition function per cycle.
//!
//! Every instruction of the 16-bit ISA is given its meaning here; the
//! executable engine in `chip8` is proved to follow these functions exactly.
//! Where the reference behavior is undefined (call-stack overflow or
//! underflow, register indices above 15 used as key numbers), the policy
//! chosen here is the safe one: the instruction is a no-op, or the key is
//! treated as not pressed. Memory addresses wrap modulo the 4096-byte address
//! space, and the program counter wraps as a 16-bit value, so the transition
//! is total.
use vstd::prelude::*;

verus! {

/// The CPU-visible machine state: memory, registers, index register, program
/// counter, the two countdown timers, the call stack with its pointer, the
/// key bitmap and the monochrome framebuffer (row-major, `y * 64 + x`).
#[verifier::ext_equal]
pub struct MState {
    pub opcode: u16,
    pub memory: Seq<u8>,
    pub v: Seq<u8>,
    pub index: u16,
    pub pc: u16,
    pub delay_timer: u8,
    pub sound_timer: u8,
    pub stack: Seq<u16>,
    pub sp: u16,
    pub keys: Seq<u8>,
    pub display: Seq<u8>,
}

impl MState {
    /// The sizes the hardware fixes: 4096 bytes of memory, 16 registers,
    /// 16 stack slots, 16 keys, 64 * 32 display cells.
    pub open spec fn wf(self) -> bool {
        &&& self.memory.len() == 4096
        &&& self.v.len() == 16
        &&& self.stack.len() == 16
        &&& self.keys.len() == 16
        &&& self.display.len() == 2048
    }
}

// ---------------------------------------------------------------------------
// Instruction word fields: X and Y register numbers, the 8-bit immediate NN,
// the 12-bit address NNN and the low nibble N.
// ---------------------------------------------------------------------------

pub open spec fn op_x(op: u16) -> int {
    ((op & 0x0F00) >> 8) as int
}

pub open spec fn op_y(op: u16) -> int {
    ((op & 0x00F0) >> 4) as int
}

pub open spec fn op_n(op: u16) -> int {
    (op & 0x000F) as int
}

pub open spec fn op_nn(op: u16) -> u8 {
    (op & 0x00FF) as u8
}

pub open spec fn op_nnn(op: u16) -> u16 {
    op & 0x0FFF
}

/// Ranges of the decoded fields, so that register numbers index the register
/// file and addresses stay below 4096.
pub proof fn lemma_op_bounds(op: u16)
    ensures
        0 <= op_x(op) < 16,
        0 <= op_y(op) < 16,
        0 <= op_n(op) < 16,
        op_nn(op) == (op & 0x00FF) as int,
        op_nnn(op) < 4096,
{
    assert((op & 0x0F00) >> 8 < 16 && (op & 0x00F0) >> 4 < 16 && (op & 0x000F) < 16 && (op
        & 0x00FF) < 256 && (op & 0x0FFF) < 4096) by (bit_vector);
}

// ---------------------------------------------------------------------------
// Which of the four decode stages recognizes an instruction word.
// ---------------------------------------------------------------------------

/// The two exact-match system instructions: clear screen and return.
pub open spec fn sys_handles(op: u16) -> bool {
    op == 0x00E0 || op == 0x00EE
}

/// Instructions matched on the high nibble alone (addresses and immediates),
/// including the ignored machine-code call `0NNN`.
pub open spec fn hi_handles(op: u16) -> bool {
    let h = op & 0xF000;
    ||| h == 0x0000
    ||| h == 0x1000
    ||| h == 0x2000
    ||| h == 0x3000
    ||| h == 0x4000
    ||| h == 0x6000
    ||| h == 0x7000
    ||| h == 0xA000
    ||| h == 0xB000
    ||| h == 0xC000
    ||| h == 0xD000
}

/// Register-to-register operations, matched on high and low nibble.
pub open spec fn alu_handles(op: u16) -> bool {
    let k = op & 0xF00F;
    ||| k == 0x5000
    ||| k == 0x8000
    ||| k == 0x8001
    ||| k == 0x8002
    ||| k == 0x8003
    ||| k == 0x8004
    ||| k == 0x8005
    ||| k == 0x8006
    ||| k == 0x8007
    ||| k == 0x800E
    ||| k == 0x9000
}

/// Keyboard, timer and memory-block operations, matched on high nibble and
/// low byte.
pub open spec fn misc_handles(op: u16) -> bool {
    let k = op & 0xF0FF;
    ||| k == 0xE09E
    ||| k == 0xE0A1
    ||| k == 0xF007
    ||| k == 0xF00A
    ||| k == 0xF015
    ||| k == 0xF018
    ||| k == 0xF01E
    ||| k == 0xF029
    ||| k == 0xF033
    ||| k == 0xF055
    ||| k == 0xF065
}

// ---------------------------------------------------------------------------
// Sprite drawing, stated cell by cell.
// ---------------------------------------------------------------------------

/// Bit `c` (from the left) of sprite row `r`, read from memory at
/// `base + r`, wrapping modulo the address space.
pub open spec fn sprite_bit(mem: Seq<u8>, base: u16, r: int, c: int) -> bool {
    ((mem[(base + r) % 4096] >> ((7 - c) as u8)) & 1) == 1
}

/// The display cell that row `r`, column `c` of a sprite drawn at
/// `(vx, vy)` lands on; both axes wrap modulo the screen size.
pub open spec fn draw_cell(vx: u8, vy: u8, r: int, c: int) -> int {
    ((vy + r) % 32) * 64 + ((vx + c) % 64)
}

/// Whether some set bit of the `n`-row sprite lands on `cell`.
pub open spec fn covers(mem: Seq<u8>, base: u16, vx: u8, vy: u8, n: int, cell: int) -> bool {
    exists|r: int, c: int|
        #![trigger sprite_bit(mem, base, r, c)]
        #![trigger draw_cell(vx, vy, r, c)]
        0 <= r < n && 0 <= c < 8 && sprite_bit(mem, base, r, c) && draw_cell(vx, vy, r, c) == cell
}

/// The display after the sprite is drawn: every covered cell is XOR-toggled,
/// every other cell keeps its value.
pub open spec fn draw_display(
    d: Seq<u8>,
    mem: Seq<u8>,
    base: u16,
    vx: u8,
    vy: u8,
    n: int,
) -> Seq<u8> {
    Seq::new(2048, |cell: int| if covers(mem, base, vx, vy, n, cell) { d[cell] ^ 1 } else { d[cell] })
}

/// Whether the draw turns some lit cell off: a set sprite bit lands on a
/// cell holding 1.
pub open spec fn draw_collision(
    d: Seq<u8>,
    mem: Seq<u8>,
    base: u16,
    vx: u8,
    vy: u8,
    n: int,
) -> bool {
    exists|cell: int|
        0 <= cell < 2048 && #[trigger] covers(mem, base, vx, vy, n, cell) && d[cell] == 1
}

/// Whether some set sprite bit among the pairs processed before row `r0`,
/// column `c0` (rows before `r0` whole, row `r0` up to column `c0`) lands on
/// `cell`: the intermediate states of drawing, bit by bit.
pub open spec fn covers_upto(
    mem: Seq<u8>,
    base: u16,
    vx: u8,
    vy: u8,
    r0: int,
    c0: int,
    cell: int,
) -> bool {
    exists|r: int, c: int|
        #![trigger sprite_bit(mem, base, r, c)]
        #![trigger draw_cell(vx, vy, r, c)]
        0 <= r && 0 <= c < 8 && (r < r0 || (r == r0 && c < c0)) && sprite_bit(mem, base, r, c)
            && draw_cell(vx, vy, r, c) == cell
}

/// Two distinct bit positions of one sprite land on distinct display cells,
/// because a sprite is at most 16 rows high and 8 columns wide while the
/// screen wraps at 32 and 64.
pub proof fn lemma_draw_cell_inj(vx: u8, vy: u8, r1: int, c1: int, r2: int, c2: int)
    requires
        0 <= r1 < 32,
        0 <= c1 < 8,
        0 <= r2 < 32,
        0 <= c2 < 8,
        draw_cell(vx, vy, r1, c1) == draw_cell(vx, vy, r2, c2),
    ensures
        r1 == r2 && c1 == c2,
{
    let y1 = (vy + r1) % 32;
    let x1 = (vx + c1) % 64;
    let y2 = (vy + r2) % 32;
    let x2 = (vx + c2) % 64;
    assert(y1 == y2 && x1 == x2);
    let qy1 = (vy + r1) / 32;
    let qy2 = (vy + r2) / 32;
    assert(vy + r1 == 32 * qy1 + y1 && vy + r2 == 32 * qy2 + y2);
    assert(32 * (qy1 - qy2) == r1 - r2);
    assert(qy1 == qy2);
    let qx1 = (vx + c1) / 64;
    let qx2 = (vx + c2) / 64;
    assert(vx + c1 == 64 * qx1 + x1 && vx + c2 == 64 * qx2 + x2);
    assert(64 * (qx1 - qx2) == c1 - c2);
    assert(qx1 == qx2);
}

/// Processing all of the first `n` rows is the same set of bits however the
/// boundary is written: `covers_upto` at `(n, 0)` is `covers` at `n`.
pub proof fn lemma_covers_upto_full(mem: Seq<u8>, base: u16, vx: u8, vy: u8, n: int)
    ensures
        forall|cell: int|
            #![trigger covers_upto(mem, base, vx, vy, n, 0, cell)]
            #![trigger covers(mem, base, vx, vy, n, cell)]
            covers_upto(mem, base, vx, vy, n, 0, cell) == covers(mem, base, vx, vy, n, cell),
{
    assert forall|cell: int|
        #![trigger covers_upto(mem, base, vx, vy, n, 0, cell)]
        #![trigger covers(mem, base, vx, vy, n, cell)]
        covers_upto(mem, base, vx, vy, n, 0, cell) == covers(mem, base, vx, vy, n, cell) by {
        if covers_upto(mem, base, vx, vy, n, 0, cell) {
            let (r, c) = choose|r: int, c: int|
                0 <= r && 0 <= c < 8 && (r < n || (r == n && c < 0)) && #[trigger] sprite_bit(
                    mem,
                    base,
                    r,
                    c,
                ) && draw_cell(vx, vy, r, c) == cell;
            assert(covers(mem, base, vx, vy, n, cell));
        }
        if covers(mem, base, vx, vy, n, cell) {
            let (r, c) = choose|r: int, c: int|
                0 <= r < n && 0 <= c < 8 && #[trigger] sprite_bit(mem, base, r, c) && draw_cell(
                    vx,
                    vy,
                    r,
                    c,
                ) == cell;
            assert(covers_upto(mem, base, vx, vy, n, 0, cell));
        }
    }
}

/// Finishing row `r0` and standing at the start of row `r0 + 1` are the same
/// set of processed bits.
pub proof fn lemma_covers_upto_row(mem: Seq<u8>, base: u16, vx: u8, vy: u8, r0: int)
    ensures
        forall|cell: int|
            #![trigger covers_upto(mem, base, vx, vy, r0, 8, cell)]
            #![trigger covers_upto(mem, base, vx, vy, r0 + 1, 0, cell)]
            covers_upto(mem, base, vx, vy, r0, 8, cell) == covers_upto(
                mem,
                base,
                vx,
                vy,
                r0 + 1,
                0,
                cell,
            ),
{
    assert forall|cell: int|
        #![trigger covers_upto(mem, base, vx, vy, r0, 8, cell)]
        #![trigger covers_upto(mem, base, vx, vy, r0 + 1, 0, cell)]
        covers_upto(mem, base, vx, vy, r0, 8, cell) == covers_upto(
            mem,
            base,
            vx,
            vy,
            r0 + 1,
            0,
            cell,
        ) by {
        if covers_upto(mem, base, vx, vy, r0, 8, cell) {
            let (r, c) = choose|r: int, c: int|
                0 <= r && 0 <= c < 8 && (r < r0 || (r == r0 && c < 8)) && #[trigger] sprite_bit(
                    mem,
                    base,
                    r,
                    c,
                ) && draw_cell(vx, vy, r, c) == cell;
            assert(covers_upto(mem, base, vx, vy, r0 + 1, 0, cell));
        }
        if covers_upto(mem, base, vx, vy, r0 + 1, 0, cell) {
            let (r, c) = choose|r: int, c: int|
                0 <= r && 0 <= c < 8 && (r < r0 + 1 || (r == r0 + 1 && c < 0)) && #[trigger] sprite_bit(
                    mem,
                    base,
                    r,
                    c,
                ) && draw_cell(vx, vy, r, c) == cell;
            assert(covers_upto(mem, base, vx, vy, r0, 8, cell));
        }
    }
}

/// Processing one more bit adds exactly that bit's cell (when the bit is
/// set) to the covered set.
pub proof fn lemma_covers_upto_col(mem: Seq<u8>, base: u16, vx: u8, vy: u8, r0: int, c0: int)
    requires
        0 <= r0,
        0 <= c0 < 8,
    ensures
        forall|cell: int|
            #![trigger covers_upto(mem, base, vx, vy, r0, c0 + 1, cell)]
            #![trigger covers_upto(mem, base, vx, vy, r0, c0, cell)]
            covers_upto(mem, base, vx, vy, r0, c0 + 1, cell) == (covers_upto(
                mem,
                base,
                vx,
                vy,
                r0,
                c0,
                cell,
            ) || (sprite_bit(mem, base, r0, c0) && draw_cell(vx, vy, r0, c0) == cell)),
{
    assert forall|cell: int|
        #![trigger covers_upto(mem, base, vx, vy, r0, c0 + 1, cell)]
        #![trigger covers_upto(mem, base, vx, vy, r0, c0, cell)]
        covers_upto(mem, base, vx, vy, r0, c0 + 1, cell) == (covers_upto(
            mem,
            base,
            vx,
            vy,
            r0,
            c0,
            cell,
        ) || (sprite_bit(mem, base, r0, c0) && draw_cell(vx, vy, r0, c0) == cell)) by {
        if covers_upto(mem, base, vx, vy, r0, c0 + 1, cell) {
            let (r, c) = choose|r: int, c: int|
                0 <= r && 0 <= c < 8 && (r < r0 || (r == r0 && c < c0 + 1)) && #[trigger] sprite_bit(
                    mem,
                    base,
                    r,
                    c,
                ) && draw_cell(vx, vy, r, c) == cell;
            if r == r0 && c == c0 {
                assert(sprite_bit(mem, base, r0, c0) && draw_cell(vx, vy, r0, c0) == cell);
            } else {
                assert(covers_upto(mem, base, vx, vy, r0, c0, cell));
            }
        }
        if covers_upto(mem, base, vx, vy, r0, c0, cell) {
            let (r, c) = choose|r: int, c: int|
                0 <= r && 0 <= c < 8 && (r < r0 || (r == r0 && c < c0)) && #[trigger] sprite_bit(
                    mem,
                    base,
                    r,
                    c,
                ) && draw_cell(vx, vy, r, c) == cell;
            assert(covers_upto(mem, base, vx, vy, r0, c0 + 1, cell));
        }
        if sprite_bit(mem, base, r0, c0) && draw_cell(vx, vy, r0, c0) == cell {
            assert(covers_upto(mem, base, vx, vy, r0, c0 + 1, cell));
        }
    }
}

/// The cell the bit at `(r0, c0)` lands on is untouched by the bits
/// processed before it: no two bits of one sprite share a cell.
pub proof fn lemma_current_not_covered(
    mem: Seq<u8>,
    base: u16,
    vx: u8,
    vy: u8,
    r0: int,
    c0: int,
)
    requires
        0 <= r0 < 32,
        0 <= c0 < 8,
    ensures
        !covers_upto(mem, base, vx, vy, r0, c0, draw_cell(vx, vy, r0, c0)),
{
    let cell = draw_cell(vx, vy, r0, c0);
    if covers_upto(mem, base, vx, vy, r0, c0, cell) {
        let (r, c) = choose|r: int, c: int|
            0 <= r && 0 <= c < 8 && (r < r0 || (r == r0 && c < c0)) && #[trigger] sprite_bit(
                mem,
                base,
                r,
                c,
            ) && draw_cell(vx, vy, r, c) == cell;
        lemma_draw_cell_inj(vx, vy, r, c, r0, c0);
        assert(false);
    }
}

// ---------------------------------------------------------------------------
// Register block stores and loads, and the blocking key wait.
// ---------------------------------------------------------------------------

/// Memory after `V0 .. V(count-1)` are stored at `base ..`, in increasing
/// register order, addresses wrapping modulo the address space.
pub open spec fn store_regs(mem: Seq<u8>, v: Seq<u8>, base: u16, count: int) -> Seq<u8>
    decreases count,
{
    if count <= 0 {
        mem
    } else {
        store_regs(mem, v, base, count - 1).update((base + (count - 1)) % 4096, v[count - 1])
    }
}

/// Registers after `V0 .. V(count-1)` are filled from memory at `base ..`.
pub open spec fn load_regs(v: Seq<u8>, mem: Seq<u8>, base: u16, count: int) -> Seq<u8>
    decreases count,
{
    if count <= 0 {
        v
    } else {
        load_regs(v, mem, base, count - 1).update(count - 1, mem[(base + (count - 1)) % 4096])
    }
}

/// The smallest pressed key index at or above `k`, or 16 if none is pressed.
pub open spec fn first_key_from(keys: Seq<u8>, k: int) -> int
    decreases 16 - k,
{
    if k < 0 || k >= 16 {
        16
    } else if keys[k] != 0 {
        k
    } else {
        first_key_from(keys, k + 1)
    }
}

// ---------------------------------------------------------------------------
// The transition function.
// ---------------------------------------------------------------------------

/// The two system instructions. A return with an empty (or corrupt) stack
/// pointer is a no-op: the reference leaves that case undefined.
pub open spec fn exec_sys_spec(m: MState) -> MState {
    if m.opcode == 0x00E0 {
        MState { display: Seq::new(2048, |cell: int| 0u8), ..m }
    } else {
        // 0x00EE
        if 1 <= m.sp <= 15 {
            MState { pc: m.stack[m.sp as int], sp: (m.sp - 1) as u16, ..m }
        } else {
            m
        }
    }
}

/// The instructions matched on the high nibble. A subroutine call with a
/// full stack is a no-op: the reference leaves that case undefined.
pub open spec fn exec_hi_spec(m: MState, rnd: u8) -> MState {
    let op = m.opcode;
    let h = op & 0xF000;
    let x = op_x(op);
    let nn = op_nn(op);
    if h == 0x0000 {
        m
    } else if h == 0x1000 {
        MState { pc: op_nnn(op), ..m }
    } else if h == 0x2000 {
        if m.sp < 15 {
            MState {
                sp: (m.sp + 1) as u16,
                stack: m.stack.update(m.sp + 1, m.pc),
                pc: op_nnn(op),
                ..m
            }
        } else {
            m
        }
    } else if h == 0x3000 {
        if m.v[x] == nn {
            MState { pc: m.pc.wrapping_add(2), ..m }
        } else {
            m
        }
    } else if h == 0x4000 {
        if m.v[x] != nn {
            MState { pc: m.pc.wrapping_add(2), ..m }
        } else {
            m
        }
    } else if h == 0x6000 {
        MState { v: m.v.update(x, nn), ..m }
    } else if h == 0x7000 {
        MState { v: m.v.update(x, m.v[x].wrapping_add(nn)), ..m }
    } else if h == 0xA000 {
        MState { index: op_nnn(op), ..m }
    } else if h == 0xB000 {
        MState { pc: (op_nnn(op) + m.v[0]) as u16, ..m }
    } else if h == 0xC000 {
        MState { v: m.v.update(x, nn & rnd), ..m }
    } else {
        // 0xD000
        exec_draw_spec(m)
    }
}

/// The sprite-draw instruction `DXYN`: the screen position is read from the
/// X and Y registers, VF reports whether a lit cell went dark.
pub open spec fn exec_draw_spec(m: MState) -> MState {
    let vx = m.v[op_x(m.opcode)];
    let vy = m.v[op_y(m.opcode)];
    let n = op_n(m.opcode);
    let flag: u8 = if draw_collision(m.display, m.memory, m.index, vx, vy, n) {
        1
    } else {
        0
    };
    MState {
        v: m.v.update(15, flag),
        display: draw_display(m.display, m.memory, m.index, vx, vy, n),
        ..m
    }
}

/// The register-to-register operations. The flag register VF is written
/// before the target register, as the reference does, so the two writes
/// interact exactly as they do there when X (or Y) is 15.
pub open spec fn exec_alu_spec(m: MState) -> MState {
    let op = m.opcode;
    let k = op & 0xF00F;
    let x = op_x(op);
    let y = op_y(op);
    if k == 0x5000 {
        if m.v[x] == m.v[y] {
            MState { pc: m.pc.wrapping_add(2), ..m }
        } else {
            m
        }
    } else if k == 0x8000 {
        MState { v: m.v.update(x, m.v[y]), ..m }
    } else if k == 0x8001 {
        MState { v: m.v.update(x, m.v[x] | m.v[y]), ..m }
    } else if k == 0x8002 {
        MState { v: m.v.update(x, m.v[x] & m.v[y]), ..m }
    } else if k == 0x8003 {
        MState { v: m.v.update(x, m.v[x] ^ m.v[y]), ..m }
    } else if k == 0x8004 {
        let flag: u8 = if m.v[x] + m.v[y] > 255 { 1 } else { 0 };
        let v1 = m.v.update(15, flag);
        MState { v: v1.update(x, v1[x].wrapping_add(v1[y])), ..m }
    } else if k == 0x8005 {
        let flag: u8 = if m.v[x] > m.v[y] { 1 } else { 0 };
        let v1 = m.v.update(15, flag);
        MState { v: v1.update(x, v1[x].wrapping_sub(v1[y])), ..m }
    } else if k == 0x8006 {
        let v1 = m.v.update(15, m.v[x] & 0x01);
        MState { v: v1.update(x, v1[x] >> 1), ..m }
    } else if k == 0x8007 {
        let flag: u8 = if m.v[y] > m.v[x] { 1 } else { 0 };
        let v1 = m.v.update(15, flag);
        MState { v: v1.update(x, v1[y].wrapping_sub(v1[x])), ..m }
    } else if k == 0x800E {
        let v1 = m.v.update(15, m.v[x] >> 7);
        MState { v: v1.update(x, v1[x] << 1), ..m }
    } else {
        // 0x9000
        if m.v[x] != m.v[y] {
            MState { pc: m.pc.wrapping_add(2), ..m }
        } else {
            m
        }
    }
}

/// The keyboard, timer and memory-block operations. A key number above 15
/// names no key and counts as not pressed.
pub open spec fn exec_misc_spec(m: MState) -> MState {
    let op = m.opcode;
    let k = op & 0xF0FF;
    let x = op_x(op);
    if k == 0xE09E {
        if m.v[x] < 16 && m.keys[m.v[x] as int] != 0 {
            MState { pc: m.pc.wrapping_add(2), ..m }
        } else {
            m
        }
    } else if k == 0xE0A1 {
        if !(m.v[x] < 16 && m.keys[m.v[x] as int] != 0) {
            MState { pc: m.pc.wrapping_add(2), ..m }
        } else {
            m
        }
    } else if k == 0xF007 {
        MState { v: m.v.update(x, m.delay_timer), ..m }
    } else if k == 0xF00A {
        let first = first_key_from(m.keys, 0);
        if first < 16 {
            MState { v: m.v.update(x, first as u8), ..m }
        } else {
            MState { pc: m.pc.wrapping_sub(2), ..m }
        }
    } else if k == 0xF015 {
        MState { delay_timer: m.v[x], ..m }
    } else if k == 0xF018 {
        MState { sound_timer: m.v[x], ..m }
    } else if k == 0xF01E {
        MState { index: m.index.wrapping_add(m.v[x] as u16), ..m }
    } else if k == 0xF029 {
        MState { index: (m.v[x] * 5) as u16, ..m }
    } else if k == 0xF033 {
        let mem1 = m.memory.update((m.index as int) % 4096, ((m.v[x] / 100) % 10) as u8);
        let mem2 = mem1.update((m.index + 1) % 4096, ((m.v[x] / 10) % 10) as u8);
        let mem3 = mem2.update((m.index + 2) % 4096, (m.v[x] % 10) as u8);
        MState { memory: mem3, ..m }
    } else if k == 0xF055 {
        MState { memory: store_regs(m.memory, m.v, m.index, x), ..m }
    } else {
        // 0xF065
        MState { v: load_regs(m.v, m.memory, m.index, x), ..m }
    }
}

/// Executes the already-fetched instruction word in `m.opcode`. An
/// instruction word no stage recognizes is a no-op. `rnd` is the byte the
/// host's random source produced for this cycle; only `CXNN` reads it.
pub open spec fn spec_execute(m: MState, rnd: u8) -> MState {
    if sys_handles(m.opcode) {
        exec_sys_spec(m)
    } else if hi_handles(m.opcode) {
        exec_hi_spec(m, rnd)
    } else if alu_handles(m.opcode) {
        exec_alu_spec(m)
    } else if misc_handles(m.opcode) {
        exec_misc_spec(m)
    } else {
        m
    }
}

/// The fetch: the big-endian instruction word at the program counter is
/// latched into `opcode` and the program counter moves past it.
pub open spec fn spec_fetch(m: MState) -> MState {
    let b0 = m.memory[(m.pc % 4096) as int];
    let b1 = m.memory[(m.pc.wrapping_add(1) % 4096) as int];
    MState { opcode: ((b0 as u16) << 8) | (b1 as u16), pc: m.pc.wrapping_add(2), ..m }
}

/// One full cycle: fetch, advance, execute.
pub open spec fn spec_cycle(m: MState, rnd: u8) -> MState {
    spec_execute(spec_fetch(m), rnd)
}

} // verus!
