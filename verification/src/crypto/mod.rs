//! Cryptographic primitives and encodings: Keccak-256, RIPEMD-160, RLP and
//! secp256k1 helpers.

pub mod keccak;
pub mod ripemd160;
pub mod rlp;
pub mod secp256k1;
pub mod secp256k1_math;
pub mod secp256k1_point;
pub mod sha256;

pub use keccak::keccak256;
