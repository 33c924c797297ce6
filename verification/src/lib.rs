pub mod display;
pub mod laws;
pub mod processor;
pub mod state;

use vstd::prelude::*;

verus! {

/// A fatal condition that halts the interpreter.
#[derive(Clone, Copy, Debug, PartialEq, Eq, Structural)]
pub enum Chip8Error {
    /// A memory access or the program counter left the address space;
    /// carries the offending address.
    OutOfBounds(u16),
    /// The fetched 16-bit value matches no defined opcode pattern;
    /// carries the raw instruction.
    InvalidInstruction(u16),
    /// A subroutine call was issued while the call stack was at capacity.
    StackOverflow,
    /// A return was issued while the call stack was empty.
    StackUnderflow,
}

} // verus!
