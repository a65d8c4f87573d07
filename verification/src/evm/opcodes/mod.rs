//! Opcode semantics, grouped by kind: arithmetic and bitwise, control flow and
//! memory, logging, and the helpers they share.

pub mod arithmetic;
pub mod control;
pub mod environment;
pub mod exec;
pub mod log;
pub mod utils;
