//! A verified CHIP-8 virtual machine core.
//!
//! The interpreter state (memory, registers, program counter, index
//! register, call stack, timers, display buffer, key latch) lives in
//! [`vm::EmulatorContext`]; every instruction's effect is pinned down by
//! the mathematical model in [`model`], and the exported lemmas in
//! [`laws`] prove the headline properties of the instruction set.
//!
//! Presentation concerns (rendering the display buffer, audio, physical
//! keyboard events, frame pacing) are left to the host program driving
//! the core.

pub mod types;

pub mod keyboard;

pub mod font;

pub mod model;

pub mod vm;

pub mod laws;

mod rng;

