//! A verified CHIP-8 interpreter core.
//!
//! The machine state (memory, registers, call stack, timers, display
//! buffer, key pad) lives in [`emu::Emu`]; `tick` fetches and executes one
//! instruction, and every instruction's effect is pinned down by the
//! specification-level step function in [`state`].

pub mod decode;
pub mod emu;
pub mod laws;
pub mod stack;
pub mod state;

pub use emu::Emu;
