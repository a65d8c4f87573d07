//! The Ethereum Virtual Machine: gas schedule, stack, memory, opcodes and interpreter.

pub mod disassembler;
pub mod error;
pub mod gas;
pub mod host;
pub mod interpreter;
pub mod memory;
pub mod opcodes;
pub mod precompiles;
pub mod stack;
pub mod trace;
