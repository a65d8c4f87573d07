//! The error type of EVM execution, shared by the interpreter and the opcodes.

use vstd::prelude::*;
use crate::evm::memory::MemoryError;
use crate::evm::stack::StackError;

verus! {

/// Errors that can occur during EVM execution.
#[derive(Debug, Clone, PartialEq, Eq)]
pub enum EvmError {
    /// Stack error (overflow, underflow, invalid index).
    StackError(StackError),
    /// Memory error (invalid offset, overflow).
    MemoryError(MemoryError),
    /// Insufficient gas for the operation.
    OutOfGas,
    /// Invalid opcode encountered.
    InvalidOpcode(u8),
    /// Invalid JUMP destination.
    InvalidJump,
    /// Execution reverted with this output.
    Revert(Vec<u8>),
    /// Program counter out of bounds.
    PcOutOfBounds,
    /// Not enough bytes after a PUSH.
    InvalidPush,
    /// A word that is not a valid address.
    InvalidAddress,
}

} // verus!
