//! The ways in which parsing or running a program can fail.

use vstd::prelude::*;

verus! {

/// Why a program could not be parsed, or why its run stopped early. Every kind
/// is fatal: nothing is retried, and a run that failed is over.
#[derive(Clone, Copy, Debug, PartialEq, Eq, Structural)]
pub enum Error {
    /// The program text holds a character that starts no instruction, or a
    /// sigil that no digit follows.
    SyntaxError,
    /// A spawn or jump names line zero, or a line whose index no `usize` holds.
    InvalidTarget,
    /// A read found the input queue empty.
    InputExhausted,
    /// A write in character mode found a register that is no Unicode scalar
    /// value.
    OutputEncodingError,
}

} // verus!
