//! Claudeth: an Ethereum execution layer (EVM, RLP, Keccak-256, secp256k1
//! helpers) whose behaviour is stated in contracts and proved by Verus.
//!
//! - [`types`]: 256-bit words, addresses and hashes, each with a mathematical view.
//! - [`crypto`]: Keccak-256, RIPEMD-160, RLP, secp256k1 field and point helpers.
//! - [`evm`]: stack, memory, gas schedule, opcode semantics and the interpreter.

pub mod types;
pub mod crypto;
pub mod evm;
pub mod state;
pub mod text;
