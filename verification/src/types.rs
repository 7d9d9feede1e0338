//! Plain data types shared by the whole machine: display coordinates,
//! the play/pause state, and the faults a step can signal.

use vstd::prelude::*;

verus! {

/// A display coordinate. The logical grid is 64 x 32, but the core
/// applies no wrapping when drawing: coordinates outside the grid are
/// kept as they are, and any wrapping is the renderer's concern.
#[derive(Copy, Clone, PartialEq, Eq, Structural, Debug)]
pub struct Point(pub i32, pub i32);

/// Whether the machine is executing instructions. While `Paused`,
/// stepping and timer updates are no-ops.
#[derive(Copy, Clone, PartialEq, Eq, Structural, Debug)]
pub enum EmulatorState {
    Playing,
    Paused,
}

/// The faults an operation can signal instead of mutating state.
#[derive(Copy, Clone, PartialEq, Eq, Structural, Debug)]
pub enum VmFault {
    /// A `00EE` return was executed with an empty call stack.
    EmptyStack,
    /// A program longer than the memory region above `0x200` was given
    /// to the loader.
    ProgramTooLarge,
}

} // verus!
