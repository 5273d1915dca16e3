//! Faults that stop a disassembly or a run.
use vstd::prelude::*;

verus! {

/// An internal-consistency fault: malformed bytecode or a broken stack
/// discipline.
#[derive(Clone, Copy, Debug, PartialEq, Eq, Structural)]
pub enum Fault {
    /// A byte that encodes no opcode.
    UnknownOpcode(u8),
    /// A constant-loading opcode at the end of the code, without its operand.
    MissingOperand,
    /// A constant index past the end of the pool.
    ConstantOutOfRange(u8),
    /// A pop from an empty stack.
    StackUnderflow,
    /// A push onto a full stack.
    StackOverflow,
    /// The code ended before a return.
    CodeExhausted,
}

} // verus!
