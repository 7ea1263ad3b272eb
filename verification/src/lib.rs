//! A verified interpreter core for the classic 16-bit hex-keypad virtual
//! machine: a byte-addressable memory, sixteen 8-bit registers, an index
//! register, a call stack, two 60 Hz countdown timers, a key bitmap and a
//! 64 x 32 monochrome framebuffer, driven two bytes at a time by a
//! fetch-decode-execute engine.
//!
//! The `semantics` module states what every instruction does as spec
//! functions over plain sequences; `chip8` holds the executable machine,
//! proved to follow those functions; `snapshot` gives a verified byte
//! encoding of the whole state for save and restore; `laws` proves the
//! interpreter-wide properties; `utils` renders the framebuffer to pixels;
//! `timing` derives the pacing of the engine loop.
pub mod chip8;
pub mod laws;
pub mod semantics;
pub mod snapshot;
pub mod timing;
pub mod utils;
