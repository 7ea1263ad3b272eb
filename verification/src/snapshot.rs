//! Save and restore: the whole machine state as one versioned binary blob.
//!
//! `save_state` lays every field out at a fixed offset; `load_state` accepts
//! exactly the blobs `save_state` produces (right length, right version
//! byte) and rebuilds the state bit for bit, leaving the machine untouched
//! when it refuses. The round trip is proved below.
use vstd::prelude::*;

use crate::chip8::Chip8;
use crate::semantics::MState;

verus! {

/// The version byte at the front of every snapshot.
pub const SNAP_VERSION: u8 = 1;

/// The exact size of a snapshot: one version byte, the 2-byte opcode latch,
/// 4096 bytes of memory, 16 registers, 2 bytes each of index register,
/// program counter and stack pointer, the two timers, 32 bytes of call
/// stack, 16 key flags and 2048 display cells.
pub const SNAP_LEN: usize = 6219;

/// The high byte of a 16-bit word.
pub open spec fn hi_byte(w: u16) -> u8 {
    ((w >> 8) & 0xFF) as u8
}

/// The low byte of a 16-bit word.
pub open spec fn lo_byte(w: u16) -> u8 {
    (w & 0xFF) as u8
}

/// A 16-bit word as its two big-endian bytes.
pub open spec fn word_bytes(w: u16) -> Seq<u8> {
    seq![hi_byte(w), lo_byte(w)]
}

/// The 16 call-stack slots as 32 big-endian bytes.
pub open spec fn stack_bytes(s: Seq<u16>) -> Seq<u8> {
    Seq::new(32, |j: int| if j % 2 == 0 { hi_byte(s[j / 2]) } else { lo_byte(s[j / 2]) })
}

/// The 16-bit word stored big-endian at offset `off`.
pub open spec fn word_at(b: Seq<u8>, off: int) -> u16 {
    (b[off] * 256 + b[off + 1]) as u16
}

/// The byte encoding of a machine state.
pub open spec fn spec_save(m: MState) -> Seq<u8> {
    seq![SNAP_VERSION] + word_bytes(m.opcode) + m.memory + m.v + word_bytes(m.index) + word_bytes(
        m.pc,
    ) + seq![m.delay_timer, m.sound_timer] + stack_bytes(m.stack) + word_bytes(m.sp) + m.keys
        + m.display
}

/// Whether a blob is structurally a snapshot: the exact length and the
/// version byte. These are the only checks restore makes; the engine is
/// total, so any field values are safe to run.
pub open spec fn valid_snapshot(b: Seq<u8>) -> bool {
    b.len() == SNAP_LEN && b[0] == SNAP_VERSION
}

/// The machine state a structurally valid blob decodes to.
pub open spec fn spec_restore(b: Seq<u8>) -> MState {
    MState {
        opcode: word_at(b, 1),
        memory: b.subrange(3, 4099),
        v: b.subrange(4099, 4115),
        index: word_at(b, 4115),
        pc: word_at(b, 4117),
        delay_timer: b[4119],
        sound_timer: b[4120],
        stack: Seq::new(16, |k: int| word_at(b, 4121 + 2 * k)),
        sp: word_at(b, 4153),
        keys: b.subrange(4155, 4171),
        display: b.subrange(4171, 6219),
    }
}

/// Why a blob was refused: not the size of a snapshot, or not a version
/// this layout understands.
#[derive(Clone, Copy, Debug, PartialEq, Eq, Structural)]
pub enum SnapshotError {
    WrongLength,
    WrongVersion,
}

/// A word's two big-endian bytes recompose to the word.
pub proof fn lemma_word_roundtrip(w: u16)
    ensures
        hi_byte(w) * 256 + lo_byte(w) == w,
{
    assert((w >> 8) & 0xFF < 256 && w & 0xFF < 256 && ((w >> 8) & 0xFF) * 256 + (w & 0xFF) == w)
        by (bit_vector);
}

/// Restoring a saved state reproduces it bit for bit: the encoding loses
/// nothing, and every blob it produces passes restore's checks.
pub proof fn lemma_snapshot_round_trip(m: MState)
    requires
        m.wf(),
    ensures
        valid_snapshot(spec_save(m)),
        spec_restore(spec_save(m)) == m,
{
    let b = spec_save(m);
    assert(b.len() == SNAP_LEN);
    assert(b[0] == SNAP_VERSION);
    lemma_word_roundtrip(m.opcode);
    assert(b[1] == hi_byte(m.opcode) && b[2] == lo_byte(m.opcode));
    assert(spec_restore(b).opcode == m.opcode);
    assert(spec_restore(b).memory =~= m.memory);
    assert(spec_restore(b).v =~= m.v);
    lemma_word_roundtrip(m.index);
    assert(spec_restore(b).index == m.index);
    lemma_word_roundtrip(m.pc);
    assert(spec_restore(b).pc == m.pc);
    assert(spec_restore(b).delay_timer == m.delay_timer);
    assert(spec_restore(b).sound_timer == m.sound_timer);
    assert forall|k: int| 0 <= k < 16 implies spec_restore(b).stack[k] == m.stack[k] by {
        assert(b[4121 + 2 * k] == stack_bytes(m.stack)[2 * k]);
        assert(b[4121 + 2 * k + 1] == stack_bytes(m.stack)[2 * k + 1]);
        assert(stack_bytes(m.stack)[2 * k] == hi_byte(m.stack[k]));
        assert(stack_bytes(m.stack)[2 * k + 1] == lo_byte(m.stack[k]));
        lemma_word_roundtrip(m.stack[k]);
    }
    assert(spec_restore(b).stack =~= m.stack);
    lemma_word_roundtrip(m.sp);
    assert(spec_restore(b).sp == m.sp);
    assert(spec_restore(b).keys =~= m.keys);
    assert(spec_restore(b).display =~= m.display);
    assert(spec_restore(b) =~= m);
}

/// Appends a word's two big-endian bytes.
fn push_word(out: &mut Vec<u8>, w: u16)
    ensures
        final(out)@ == old(out)@ + word_bytes(w),
{
    proof {
        assert((w >> 8) & 0xFF < 256 && w & 0xFF < 256) by (bit_vector);
    }
    out.push(((w >> 8) & 0xFF) as u8);
    out.push((w & 0xFF) as u8);
    proof {
        assert(out@ =~= old(out)@ + word_bytes(w));
    }
}

/// Reads the big-endian word at offset `off`.
fn word_from(bytes: &[u8], off: usize) -> (w: u16)
    requires
        off + 1 < bytes@.len(),
    ensures
        w == word_at(bytes@, off as int),
{
    let a = bytes[off] as u16;
    let b = bytes[off + 1] as u16;
    proof {
        assert(a < 256 && b < 256 ==> ((a << 8) | b) == a * 256 + b) by (bit_vector);
    }
    (a << 8) | b
}

impl Chip8 {
    /// Serializes the whole machine state into the versioned blob
    /// `spec_save` describes.
    pub fn save_state(&self) -> (out: Vec<u8>)
        ensures
            out@ == spec_save(self@),
    {
        let mut out: Vec<u8> = Vec::new();
        out.push(SNAP_VERSION);
        proof {
            assert(out@ =~= seq![SNAP_VERSION]);
        }
        push_word(&mut out, self.opcode);
        let ghost p0 = seq![SNAP_VERSION] + word_bytes(self@.opcode);
        let mut j: usize = 0;
        while j < 4096
            invariant
                j <= 4096,
                out@ == p0 + self@.memory.take(j as int),
                p0 == seq![SNAP_VERSION] + word_bytes(self@.opcode),
            decreases 4096 - j,
        {
            out.push(self.memory[j]);
            proof {
                assert(out@ =~= p0 + self@.memory.take(j as int + 1));
            }
            j += 1;
        }
        proof {
            assert(self@.memory.take(4096) =~= self@.memory);
        }
        let ghost p1 = p0 + self@.memory;
        let mut j: usize = 0;
        while j < 16
            invariant
                j <= 16,
                out@ == p1 + self@.v.take(j as int),
                p1 == p0 + self@.memory,
                p0 == seq![SNAP_VERSION] + word_bytes(self@.opcode),
            decreases 16 - j,
        {
            out.push(self.v_registers[j]);
            proof {
                assert(out@ =~= p1 + self@.v.take(j as int + 1));
            }
            j += 1;
        }
        proof {
            assert(self@.v.take(16) =~= self@.v);
        }
        push_word(&mut out, self.i);
        push_word(&mut out, self.pc);
        out.push(self.delay_timer);
        out.push(self.sound_timer);
        let ghost p2 = p1 + self@.v + word_bytes(self@.index) + word_bytes(self@.pc) + seq![
            self@.delay_timer,
            self@.sound_timer,
        ];
        proof {
            assert(out@ =~= p2);
        }
        let mut j: usize = 0;
        while j < 16
            invariant
                j <= 16,
                out@ == p2 + stack_bytes(self@.stack).take(2 * j as int),
                p2 == p1 + self@.v + word_bytes(self@.index) + word_bytes(self@.pc) + seq![
                    self@.delay_timer,
                    self@.sound_timer,
                ],
            decreases 16 - j,
        {
            push_word(&mut out, self.jump_stack[j]);
            proof {
                assert(out@ =~= p2 + stack_bytes(self@.stack).take(2 * (j as int) + 2));
            }
            j += 1;
        }
        let ghost p3 = p2 + stack_bytes(self@.stack);
        proof {
            assert(stack_bytes(self@.stack).take(32) =~= stack_bytes(self@.stack));
        }
        push_word(&mut out, self.stack_pointer);
        let ghost p4 = p3 + word_bytes(self@.sp);
        let mut j: usize = 0;
        while j < 16
            invariant
                j <= 16,
                out@ == p4 + self@.keys.take(j as int),
                p4 == p3 + word_bytes(self@.sp),
                p3 == p2 + stack_bytes(self@.stack),
            decreases 16 - j,
        {
            out.push(self.key_state[j]);
            proof {
                assert(out@ =~= p4 + self@.keys.take(j as int + 1));
            }
            j += 1;
        }
        proof {
            assert(self@.keys.take(16) =~= self@.keys);
        }
        let ghost p5 = p4 + self@.keys;
        let mut j: usize = 0;
        while j < 2048
            invariant
                j <= 2048,
                out@ == p5 + self@.display.take(j as int),
                p5 == p4 + self@.keys,
                p4 == p3 + word_bytes(self@.sp),
                p3 == p2 + stack_bytes(self@.stack),
            decreases 2048 - j,
        {
            out.push(self.display[j]);
            proof {
                assert(out@ =~= p5 + self@.display.take(j as int + 1));
            }
            j += 1;
        }
        proof {
            assert(self@.display.take(2048) =~= self@.display);
            assert(out@ =~= spec_save(self@));
        }
        out
    }

    /// Replaces the machine state with the one a snapshot blob encodes.
    /// Succeeds exactly on the blobs `save_state` produces (the right
    /// length with the right version byte); on any other input the error
    /// says what was wrong and the current state is left untouched.
    pub fn load_state(&mut self, bytes: &[u8]) -> (r: Result<(), SnapshotError>)
        ensures
            valid_snapshot(bytes@) ==> r == Ok::<(), SnapshotError>(()) && final(self)@
                == spec_restore(bytes@),
            bytes@.len() != SNAP_LEN ==> r == Err::<(), SnapshotError>(SnapshotError::WrongLength)
                && *final(self) == *old(self),
            bytes@.len() == SNAP_LEN && bytes@[0] != SNAP_VERSION ==> r == Err::<
                (),
                SnapshotError,
            >(SnapshotError::WrongVersion) && *final(self) == *old(self),
    {
        if bytes.len() != SNAP_LEN {
            return Err(SnapshotError::WrongLength);
        }
        if bytes[0] != SNAP_VERSION {
            return Err(SnapshotError::WrongVersion);
        }
        let mut memory: [u8; 4096] = [0; 4096];
        let mut j: usize = 0;
        while j < 4096
            invariant
                j <= 4096,
                bytes@.len() == SNAP_LEN,
                forall|t: int| 0 <= t < j ==> memory@[t] == bytes@[3 + t],
            decreases 4096 - j,
        {
            memory[j] = bytes[3 + j];
            j += 1;
        }
        let mut v_registers: [u8; 16] = [0; 16];
        let mut j: usize = 0;
        while j < 16
            invariant
                j <= 16,
                bytes@.len() == SNAP_LEN,
                forall|t: int| 0 <= t < j ==> v_registers@[t] == bytes@[4099 + t],
            decreases 16 - j,
        {
            v_registers[j] = bytes[4099 + j];
            j += 1;
        }
        let mut jump_stack: [u16; 16] = [0; 16];
        let mut j: usize = 0;
        while j < 16
            invariant
                j <= 16,
                bytes@.len() == SNAP_LEN,
                forall|t: int| 0 <= t < j ==> jump_stack@[t] == word_at(bytes@, 4121 + 2 * t),
            decreases 16 - j,
        {
            jump_stack[j] = word_from(bytes, 4121 + 2 * j);
            j += 1;
        }
        let mut key_state: [u8; 16] = [0; 16];
        let mut j: usize = 0;
        while j < 16
            invariant
                j <= 16,
                bytes@.len() == SNAP_LEN,
                forall|t: int| 0 <= t < j ==> key_state@[t] == bytes@[4155 + t],
            decreases 16 - j,
        {
            key_state[j] = bytes[4155 + j];
            j += 1;
        }
        let mut display: [u8; 2048] = [0; 2048];
        let mut j: usize = 0;
        while j < 2048
            invariant
                j <= 2048,
                bytes@.len() == SNAP_LEN,
                forall|t: int| 0 <= t < j ==> display@[t] == bytes@[4171 + t],
            decreases 2048 - j,
        {
            display[j] = bytes[4171 + j];
            j += 1;
        }
        *self = Chip8 {
            opcode: word_from(bytes, 1),
            memory,
            v_registers,
            i: word_from(bytes, 4115),
            pc: word_from(bytes, 4117),
            delay_timer: bytes[4119],
            sound_timer: bytes[4120],
            jump_stack,
            stack_pointer: word_from(bytes, 4153),
            key_state,
            display,
        };
        proof {
            assert(self@.memory =~= spec_restore(bytes@).memory);
            assert(self@.v =~= spec_restore(bytes@).v);
            assert(self@.stack =~= spec_restore(bytes@).stack);
            assert(self@.keys =~= spec_restore(bytes@).keys);
            assert(self@.display =~= spec_restore(bytes@).display);
            assert(self@ =~= spec_restore(bytes@));
        }
        Ok(())
    }
}

} // verus!
