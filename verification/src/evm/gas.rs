//! EVM gas schedule.
//!
//! Fixed opcode costs, the quadratic memory-expansion cost, and the dynamic costs
//! of calls, logs, copies, hashing, EXP, CREATE2, init code, code deposit and SSTORE.
//!
//! Memory cost for `size` bytes: with `words = ceil(size / 32)`,
//! `words² / 512 + 3 · words`.

use vstd::prelude::*;
use crate::types::{U256, pow256};
use vstd::arithmetic::div_mod::{lemma_fundamental_div_mod, lemma_mod_pos_bound, lemma_small_mod};

verus! {

/// Gas cost for operations like PC, MSIZE, GAS, ADDRESS, ORIGIN, CALLER, etc.
pub const GAS_QUICK_STEP: u64 = 2;

/// Gas cost for fastest operations like ADD, SUB, NOT, EQ, ISZERO, etc.
pub const GAS_FASTEST_STEP: u64 = 3;

/// Gas cost for fast-ish operations
pub const GAS_FASTISH_STEP: u64 = 4;

/// Gas cost for operations like MUL, DIV, MOD, etc.
pub const GAS_FAST_STEP: u64 = 5;

/// Gas cost for operations like ADDMOD, MULMOD, JUMP
pub const GAS_MID_STEP: u64 = 8;

/// Gas cost for operations like JUMPI
pub const GAS_SLOW_STEP: u64 = 10;

/// Gas cost for operations like BLOCKHASH
pub const GAS_EXT_STEP: u64 = 20;

/// Gas cost for STOP opcode
pub const GAS_STOP: u64 = 0;

/// Gas cost for ADD opcode
pub const GAS_ADD: u64 = GAS_FASTEST_STEP;

/// Gas cost for MUL opcode
pub const GAS_MUL: u64 = GAS_FAST_STEP;

/// Gas cost for SUB opcode
pub const GAS_SUB: u64 = GAS_FASTEST_STEP;

/// Gas cost for DIV opcode
pub const GAS_DIV: u64 = GAS_FAST_STEP;

/// Gas cost for SDIV (signed division) opcode
pub const GAS_SDIV: u64 = GAS_FAST_STEP;

/// Gas cost for MOD opcode
pub const GAS_MOD: u64 = GAS_FAST_STEP;

/// Gas cost for SMOD (signed modulo) opcode
pub const GAS_SMOD: u64 = GAS_FAST_STEP;

/// Gas cost for ADDMOD opcode
pub const GAS_ADDMOD: u64 = GAS_MID_STEP;

/// Gas cost for MULMOD opcode
pub const GAS_MULMOD: u64 = GAS_MID_STEP;

/// Base gas cost for EXP opcode
pub const GAS_EXP: u64 = 10;

/// Gas cost per byte of exponent for EXP opcode
pub const GAS_EXP_BYTE: u64 = 50;

/// Gas cost for SIGNEXTEND opcode
pub const GAS_SIGNEXTEND: u64 = GAS_FAST_STEP;

/// Gas cost for LT (less than) opcode
pub const GAS_LT: u64 = GAS_FASTEST_STEP;

/// Gas cost for GT (greater than) opcode
pub const GAS_GT: u64 = GAS_FASTEST_STEP;

/// Gas cost for SLT (signed less than) opcode
pub const GAS_SLT: u64 = GAS_FASTEST_STEP;

/// Gas cost for SGT (signed greater than) opcode
pub const GAS_SGT: u64 = GAS_FASTEST_STEP;

/// Gas cost for EQ (equal) opcode
pub const GAS_EQ: u64 = GAS_FASTEST_STEP;

/// Gas cost for ISZERO opcode
pub const GAS_ISZERO: u64 = GAS_FASTEST_STEP;

/// Gas cost for AND opcode
pub const GAS_AND: u64 = GAS_FASTEST_STEP;

/// Gas cost for OR opcode
pub const GAS_OR: u64 = GAS_FASTEST_STEP;

/// Gas cost for XOR opcode
pub const GAS_XOR: u64 = GAS_FASTEST_STEP;

/// Gas cost for NOT opcode
pub const GAS_NOT: u64 = GAS_FASTEST_STEP;

/// Gas cost for BYTE opcode
pub const GAS_BYTE: u64 = GAS_FASTEST_STEP;

/// Gas cost for SHL (shift left) opcode
pub const GAS_SHL: u64 = GAS_FASTEST_STEP;

/// Gas cost for SHR (logical shift right) opcode
pub const GAS_SHR: u64 = GAS_FASTEST_STEP;

/// Gas cost for SAR (arithmetic shift right) opcode
pub const GAS_SAR: u64 = GAS_FASTEST_STEP;

/// Base gas cost for KECCAK256 opcode
pub const GAS_KECCAK256: u64 = 30;

/// Gas cost per word (32 bytes) for KECCAK256 opcode
pub const GAS_KECCAK256_WORD: u64 = 6;

/// Gas cost for MLOAD opcode
pub const GAS_MLOAD: u64 = GAS_FASTEST_STEP;

/// Gas cost for MSTORE opcode
pub const GAS_MSTORE: u64 = GAS_FASTEST_STEP;

/// Gas cost for MSTORE8 opcode
pub const GAS_MSTORE8: u64 = GAS_FASTEST_STEP;

/// Gas cost per word for memory copy operations
pub const GAS_COPY: u64 = 3;

/// Memory expansion coefficient
pub const MEMORY_GAS: u64 = 3;

/// Quadratic coefficient divisor for memory expansion
pub const QUAD_COEFF_DIV: u64 = 512;

/// Gas cost for SLOAD with cold access (EIP-2929)
pub const GAS_SLOAD_COLD: u64 = 2100;

/// Gas cost for SLOAD with warm access (EIP-2929)
pub const GAS_SLOAD_WARM: u64 = 100;

/// Gas cost for SSTORE when setting a new non-zero value (from zero)
pub const GAS_SSTORE_SET: u64 = 20000;

/// Gas cost for SSTORE when modifying an existing value
pub const GAS_SSTORE_RESET: u64 = 5000;

/// Gas cost for SSTORE when clearing a value (to zero)
pub const GAS_SSTORE_CLEAR: u64 = 5000;

/// Sentry gas reserved for SSTORE (EIP-2200)
pub const GAS_SSTORE_SENTRY: u64 = 2300;

/// Gas cost for SSTORE no-op (warm access, no change)
pub const GAS_SSTORE_NOOP: u64 = 100;

/// Gas cost for TLOAD opcode
pub const GAS_TLOAD: u64 = GAS_SLOAD_WARM;

/// Gas cost for TSTORE opcode
pub const GAS_TSTORE: u64 = GAS_SLOAD_WARM;

/// Gas cost for JUMP opcode
pub const GAS_JUMP: u64 = GAS_MID_STEP;

/// Gas cost for JUMPI (conditional jump) opcode
pub const GAS_JUMPI: u64 = GAS_SLOW_STEP;

/// Gas cost for JUMPDEST opcode
pub const GAS_JUMPDEST: u64 = 1;

/// Gas cost for PC (program counter) opcode
pub const GAS_PC: u64 = GAS_QUICK_STEP;

/// Gas cost for MSIZE opcode
pub const GAS_MSIZE: u64 = GAS_QUICK_STEP;

/// Gas cost for GAS opcode
pub const GAS_GAS: u64 = GAS_QUICK_STEP;

/// Gas cost for POP opcode
pub const GAS_POP: u64 = GAS_QUICK_STEP;

/// Gas cost for PUSH0 opcode
pub const GAS_PUSH0: u64 = GAS_QUICK_STEP;

/// Gas cost for PUSH1-PUSH32 opcodes
pub const GAS_PUSH: u64 = GAS_FASTEST_STEP;

/// Gas cost for DUP1-DUP16 opcodes
pub const GAS_DUP: u64 = GAS_FASTEST_STEP;

/// Gas cost for SWAP1-SWAP16 opcodes
pub const GAS_SWAP: u64 = GAS_FASTEST_STEP;

/// Gas cost for BLOCKHASH opcode
pub const GAS_BLOCKHASH: u64 = GAS_EXT_STEP;

/// Gas cost for COINBASE opcode
pub const GAS_COINBASE: u64 = GAS_QUICK_STEP;

/// Gas cost for TIMESTAMP opcode
pub const GAS_TIMESTAMP: u64 = GAS_QUICK_STEP;

/// Gas cost for NUMBER opcode
pub const GAS_NUMBER: u64 = GAS_QUICK_STEP;

/// Gas cost for DIFFICULTY/PREVRANDAO opcode
pub const GAS_DIFFICULTY: u64 = GAS_QUICK_STEP;

/// Gas cost for GASLIMIT opcode
pub const GAS_GASLIMIT: u64 = GAS_QUICK_STEP;

/// Gas cost for CHAINID opcode
pub const GAS_CHAINID: u64 = GAS_QUICK_STEP;

/// Gas cost for SELFBALANCE opcode
pub const GAS_SELFBALANCE: u64 = GAS_FAST_STEP;

/// Gas cost for BASEFEE opcode
pub const GAS_BASEFEE: u64 = GAS_QUICK_STEP;

/// Gas cost for BLOBHASH opcode
pub const GAS_BLOBHASH: u64 = GAS_FASTEST_STEP;

/// Gas cost for BLOBBASEFEE opcode
pub const GAS_BLOBBASEFEE: u64 = GAS_QUICK_STEP;

/// Gas cost for ADDRESS opcode
pub const GAS_ADDRESS: u64 = GAS_QUICK_STEP;

/// Gas cost for BALANCE opcode with cold access
pub const GAS_BALANCE_COLD: u64 = 2600;

/// Gas cost for BALANCE opcode with warm access
pub const GAS_BALANCE_WARM: u64 = 100;

/// Gas cost for ORIGIN opcode
pub const GAS_ORIGIN: u64 = GAS_QUICK_STEP;

/// Gas cost for CALLER opcode
pub const GAS_CALLER: u64 = GAS_QUICK_STEP;

/// Gas cost for CALLVALUE opcode
pub const GAS_CALLVALUE: u64 = GAS_QUICK_STEP;

/// Gas cost for CALLDATALOAD opcode
pub const GAS_CALLDATALOAD: u64 = GAS_FASTEST_STEP;

/// Gas cost for CALLDATASIZE opcode
pub const GAS_CALLDATASIZE: u64 = GAS_QUICK_STEP;

/// Gas cost for CALLDATACOPY base cost
pub const GAS_CALLDATACOPY: u64 = GAS_FASTEST_STEP;

/// Gas cost for CODESIZE opcode
pub const GAS_CODESIZE: u64 = GAS_QUICK_STEP;

/// Gas cost for CODECOPY base cost
pub const GAS_CODECOPY: u64 = GAS_FASTEST_STEP;

/// Gas cost for GASPRICE opcode
pub const GAS_GASPRICE: u64 = GAS_QUICK_STEP;

/// Gas cost for EXTCODESIZE with cold access
pub const GAS_EXTCODESIZE_COLD: u64 = 2600;

/// Gas cost for EXTCODESIZE with warm access
pub const GAS_EXTCODESIZE_WARM: u64 = 100;

/// Gas cost for EXTCODECOPY with cold access (base)
pub const GAS_EXTCODECOPY_COLD: u64 = 2600;

/// Gas cost for EXTCODECOPY with warm access (base)
pub const GAS_EXTCODECOPY_WARM: u64 = 100;

/// Gas cost for RETURNDATASIZE opcode
pub const GAS_RETURNDATASIZE: u64 = GAS_QUICK_STEP;

/// Gas cost for RETURNDATACOPY base cost
pub const GAS_RETURNDATACOPY: u64 = GAS_FASTEST_STEP;

/// Gas cost for EXTCODEHASH with cold access
pub const GAS_EXTCODEHASH_COLD: u64 = 2600;

/// Gas cost for EXTCODEHASH with warm access
pub const GAS_EXTCODEHASH_WARM: u64 = 100;

/// Gas cost for MCOPY base cost
pub const GAS_MCOPY: u64 = GAS_FASTEST_STEP;

/// Base gas cost for CALL opcode (warm access)
pub const GAS_CALL_WARM: u64 = 100;

/// Base gas cost for CALL opcode (cold access)
pub const GAS_CALL_COLD: u64 = 2600;

/// Additional gas for value transfer in CALL
pub const GAS_CALL_VALUE_TRANSFER: u64 = 9000;

/// Additional gas for creating new account in CALL
pub const GAS_CALL_NEW_ACCOUNT: u64 = 25000;

/// Stipend provided for value transfer
pub const GAS_CALL_STIPEND: u64 = 2300;

/// Base gas cost for CALLCODE opcode (warm)
pub const GAS_CALLCODE_WARM: u64 = 100;

/// Base gas cost for CALLCODE opcode (cold)
pub const GAS_CALLCODE_COLD: u64 = 2600;

/// Base gas cost for DELEGATECALL opcode (warm)
pub const GAS_DELEGATECALL_WARM: u64 = 100;

/// Base gas cost for DELEGATECALL opcode (cold)
pub const GAS_DELEGATECALL_COLD: u64 = 2600;

/// Base gas cost for STATICCALL opcode (warm)
pub const GAS_STATICCALL_WARM: u64 = 100;

/// Base gas cost for STATICCALL opcode (cold)
pub const GAS_STATICCALL_COLD: u64 = 2600;

/// Gas cost for CREATE opcode
pub const GAS_CREATE: u64 = 32000;

/// Gas cost for CREATE2 opcode (base)
pub const GAS_CREATE2: u64 = 32000;

/// Gas cost per word for CREATE2 init code hashing
pub const GAS_CREATE2_WORD: u64 = 6;

/// Gas cost per byte for code deposit
pub const GAS_CODE_DEPOSIT: u64 = 200;

/// Maximum code size (24KB)
pub const MAX_CODE_SIZE: usize = 24576;

/// Maximum init code size (48KB)
pub const MAX_INIT_CODE_SIZE: usize = 49152;

/// Gas cost per word for init code (EIP-3860)
pub const GAS_INIT_CODE_WORD: u64 = 2;

/// Base gas cost for LOG operations
pub const GAS_LOG: u64 = 375;

/// Gas cost per LOG topic
pub const GAS_LOG_TOPIC: u64 = 375;

/// Gas cost per byte of LOG data
pub const GAS_LOG_DATA: u64 = 8;

/// Gas cost for RETURN opcode (base)
pub const GAS_RETURN: u64 = 0;

/// Gas cost for REVERT opcode (base)
pub const GAS_REVERT: u64 = 0;

/// Gas cost for SELFDESTRUCT opcode
pub const GAS_SELFDESTRUCT: u64 = 5000;

/// Additional gas for SELFDESTRUCT to new account
pub const GAS_SELFDESTRUCT_NEW_ACCOUNT: u64 = 25000;

/// Cold access cost for SELFDESTRUCT
pub const GAS_SELFDESTRUCT_COLD: u64 = 2600;

/// Base gas cost for transaction
pub const GAS_TRANSACTION: u64 = 21000;

/// Gas cost for contract creation transaction
pub const GAS_TRANSACTION_CREATE: u64 = 53000;

/// Gas cost per zero byte in transaction data
pub const GAS_TX_DATA_ZERO: u64 = 4;

/// Gas cost per non-zero byte in transaction data (post EIP-2028)
pub const GAS_TX_DATA_NONZERO: u64 = 16;

/// Gas cost per access list address
pub const GAS_ACCESS_LIST_ADDRESS: u64 = 2400;

/// Gas cost per access list storage key
pub const GAS_ACCESS_LIST_STORAGE_KEY: u64 = 1900;

/// Gas cost for ECRECOVER precompile
pub const GAS_ECRECOVER: u64 = 3000;

/// Base gas cost for SHA256 precompile
pub const GAS_SHA256_BASE: u64 = 60;

/// Gas cost per word for SHA256 precompile
pub const GAS_SHA256_WORD: u64 = 12;

/// Base gas cost for RIPEMD160 precompile
pub const GAS_RIPEMD160_BASE: u64 = 600;

/// Gas cost per word for RIPEMD160 precompile
pub const GAS_RIPEMD160_WORD: u64 = 120;

/// Base gas cost for IDENTITY precompile
pub const GAS_IDENTITY_BASE: u64 = 15;

/// Gas cost per word for IDENTITY precompile
pub const GAS_IDENTITY_WORD: u64 = 3;

/// Gas cost for MODEXP precompile (complex calculation)
pub const GAS_MODEXP_BASE: u64 = 200;

/// Gas cost for BN256ADD precompile (post-Istanbul)
pub const GAS_BN256_ADD: u64 = 150;

/// Gas cost for BN256MUL precompile (post-Istanbul)
pub const GAS_BN256_MUL: u64 = 6000;

/// Base gas cost for BN256PAIRING precompile (post-Istanbul)
pub const GAS_BN256_PAIRING_BASE: u64 = 45000;

/// Gas cost per point for BN256PAIRING precompile (post-Istanbul)
pub const GAS_BN256_PAIRING_POINT: u64 = 34000;

/// Gas cost for BLAKE2F precompile per round
pub const GAS_BLAKE2F_ROUND: u64 = 1;

/// Gas cost for BLS12-381 G1 addition
pub const GAS_BLS12_G1_ADD: u64 = 375;

/// Gas cost for BLS12-381 G1 multiplication
pub const GAS_BLS12_G1_MUL: u64 = 12000;

/// Gas cost for BLS12-381 G2 addition
pub const GAS_BLS12_G2_ADD: u64 = 600;

/// Gas cost for BLS12-381 G2 multiplication
pub const GAS_BLS12_G2_MUL: u64 = 22500;

/// Base gas cost for BLS12-381 pairing
pub const GAS_BLS12_PAIRING_BASE: u64 = 37700;

/// Gas cost per pair for BLS12-381 pairing
pub const GAS_BLS12_PAIRING_PER_PAIR: u64 = 32600;

/// Gas cost for BLS12-381 G1 map
pub const GAS_BLS12_MAP_G1: u64 = 5500;

/// Gas cost for BLS12-381 G2 map
pub const GAS_BLS12_MAP_G2: u64 = 23800;

/// Gas cost for P256VERIFY precompile
pub const GAS_P256_VERIFY: u64 = 6900;

/// Gas cost for point evaluation precompile (EIP-4844)
pub const GAS_POINT_EVALUATION: u64 = 50000;

/// Maximum stack depth
pub const STACK_LIMIT: usize = 1024;

/// Maximum call depth
pub const CALL_DEPTH_LIMIT: usize = 1024;

/// Minimum blob gas price (EIP-4844).
pub const MIN_BLOB_GASPRICE: u64 = 1;

/// Blob gas price update fraction (EIP-7691, Prague).
pub const BLOB_BASE_FEE_UPDATE_FRACTION: u64 = 5007716;

// =============================================================================
// Opcode base costs
// =============================================================================

/// The base cost of each opcode (0 for opcodes whose cost is only dynamic, and for
/// undefined opcodes).
pub open spec fn opcode_base_gas(opcode: u8) -> u64 {
    match opcode {
        0x00 => GAS_STOP,
        0x01 => GAS_ADD,
        0x02 => GAS_MUL,
        0x03 => GAS_SUB,
        0x04 => GAS_DIV,
        0x05 => GAS_SDIV,
        0x06 => GAS_MOD,
        0x07 => GAS_SMOD,
        0x08 => GAS_ADDMOD,
        0x09 => GAS_MULMOD,
        0x0A => GAS_EXP,
        0x0B => GAS_SIGNEXTEND,
        0x10 => GAS_LT,
        0x11 => GAS_GT,
        0x12 => GAS_SLT,
        0x13 => GAS_SGT,
        0x14 => GAS_EQ,
        0x15 => GAS_ISZERO,
        0x16 => GAS_AND,
        0x17 => GAS_OR,
        0x18 => GAS_XOR,
        0x19 => GAS_NOT,
        0x1A => GAS_BYTE,
        0x1B => GAS_SHL,
        0x1C => GAS_SHR,
        0x1D => GAS_SAR,
        0x20 => GAS_KECCAK256,
        0x30 => GAS_ADDRESS,
        0x31 => GAS_BALANCE_COLD,
        0x32 => GAS_ORIGIN,
        0x33 => GAS_CALLER,
        0x34 => GAS_CALLVALUE,
        0x35 => GAS_CALLDATALOAD,
        0x36 => GAS_CALLDATASIZE,
        0x37 => GAS_CALLDATACOPY,
        0x38 => GAS_CODESIZE,
        0x39 => GAS_CODECOPY,
        0x3A => GAS_GASPRICE,
        0x3B => GAS_EXTCODESIZE_COLD,
        0x3C => GAS_EXTCODECOPY_COLD,
        0x3D => GAS_RETURNDATASIZE,
        0x3E => GAS_RETURNDATACOPY,
        0x3F => GAS_EXTCODEHASH_COLD,
        0x40 => GAS_BLOCKHASH,
        0x41 => GAS_COINBASE,
        0x42 => GAS_TIMESTAMP,
        0x43 => GAS_NUMBER,
        0x44 => GAS_DIFFICULTY,
        0x45 => GAS_GASLIMIT,
        0x46 => GAS_CHAINID,
        0x47 => GAS_SELFBALANCE,
        0x48 => GAS_BASEFEE,
        0x49 => GAS_BLOBHASH,
        0x4A => GAS_BLOBBASEFEE,
        0x50 => GAS_POP,
        0x51 => GAS_MLOAD,
        0x52 => GAS_MSTORE,
        0x53 => GAS_MSTORE8,
        0x54 => GAS_SLOAD_COLD,
        0x55 => 0,
        0x56 => GAS_JUMP,
        0x57 => GAS_JUMPI,
        0x58 => GAS_PC,
        0x59 => GAS_MSIZE,
        0x5A => GAS_GAS,
        0x5B => GAS_JUMPDEST,
        0x5C => GAS_TLOAD,
        0x5D => GAS_TSTORE,
        0x5E => GAS_MCOPY,
        0x5F => GAS_PUSH0,
        _ if 0x60 <= opcode && opcode <= 0x7F => GAS_PUSH,
        _ if 0x80 <= opcode && opcode <= 0x8F => GAS_DUP,
        _ if 0x90 <= opcode && opcode <= 0x9F => GAS_SWAP,
        0xA0 => GAS_LOG,
        0xA1 => GAS_LOG,
        0xA2 => GAS_LOG,
        0xA3 => GAS_LOG,
        0xA4 => GAS_LOG,
        0xF0 => GAS_CREATE,
        0xF1 => GAS_CALL_COLD,
        0xF2 => GAS_CALLCODE_COLD,
        0xF3 => GAS_RETURN,
        0xF4 => GAS_DELEGATECALL_COLD,
        0xF5 => GAS_CREATE2,
        0xFA => GAS_STATICCALL_COLD,
        0xFD => GAS_REVERT,
        0xFE => 0,
        0xFF => GAS_SELFDESTRUCT,
        _ => 0,
    }
}

/// Base gas cost of an opcode.
pub fn opcode_gas_cost(opcode: u8) -> (r: u64)
    ensures
        r == opcode_base_gas(opcode),
{
    match opcode {
        0x00 => GAS_STOP,
        0x01 => GAS_ADD,
        0x02 => GAS_MUL,
        0x03 => GAS_SUB,
        0x04 => GAS_DIV,
        0x05 => GAS_SDIV,
        0x06 => GAS_MOD,
        0x07 => GAS_SMOD,
        0x08 => GAS_ADDMOD,
        0x09 => GAS_MULMOD,
        0x0A => GAS_EXP,
        0x0B => GAS_SIGNEXTEND,
        0x10 => GAS_LT,
        0x11 => GAS_GT,
        0x12 => GAS_SLT,
        0x13 => GAS_SGT,
        0x14 => GAS_EQ,
        0x15 => GAS_ISZERO,
        0x16 => GAS_AND,
        0x17 => GAS_OR,
        0x18 => GAS_XOR,
        0x19 => GAS_NOT,
        0x1A => GAS_BYTE,
        0x1B => GAS_SHL,
        0x1C => GAS_SHR,
        0x1D => GAS_SAR,
        0x20 => GAS_KECCAK256,
        0x30 => GAS_ADDRESS,
        0x31 => GAS_BALANCE_COLD,
        0x32 => GAS_ORIGIN,
        0x33 => GAS_CALLER,
        0x34 => GAS_CALLVALUE,
        0x35 => GAS_CALLDATALOAD,
        0x36 => GAS_CALLDATASIZE,
        0x37 => GAS_CALLDATACOPY,
        0x38 => GAS_CODESIZE,
        0x39 => GAS_CODECOPY,
        0x3A => GAS_GASPRICE,
        0x3B => GAS_EXTCODESIZE_COLD,
        0x3C => GAS_EXTCODECOPY_COLD,
        0x3D => GAS_RETURNDATASIZE,
        0x3E => GAS_RETURNDATACOPY,
        0x3F => GAS_EXTCODEHASH_COLD,
        0x40 => GAS_BLOCKHASH,
        0x41 => GAS_COINBASE,
        0x42 => GAS_TIMESTAMP,
        0x43 => GAS_NUMBER,
        0x44 => GAS_DIFFICULTY,
        0x45 => GAS_GASLIMIT,
        0x46 => GAS_CHAINID,
        0x47 => GAS_SELFBALANCE,
        0x48 => GAS_BASEFEE,
        0x49 => GAS_BLOBHASH,
        0x4A => GAS_BLOBBASEFEE,
        0x50 => GAS_POP,
        0x51 => GAS_MLOAD,
        0x52 => GAS_MSTORE,
        0x53 => GAS_MSTORE8,
        0x54 => GAS_SLOAD_COLD,
        0x55 => 0,
        0x56 => GAS_JUMP,
        0x57 => GAS_JUMPI,
        0x58 => GAS_PC,
        0x59 => GAS_MSIZE,
        0x5A => GAS_GAS,
        0x5B => GAS_JUMPDEST,
        0x5C => GAS_TLOAD,
        0x5D => GAS_TSTORE,
        0x5E => GAS_MCOPY,
        0x5F => GAS_PUSH0,
        _ if 0x60 <= opcode && opcode <= 0x7F => GAS_PUSH,
        _ if 0x80 <= opcode && opcode <= 0x8F => GAS_DUP,
        _ if 0x90 <= opcode && opcode <= 0x9F => GAS_SWAP,
        0xA0 => GAS_LOG,
        0xA1 => GAS_LOG,
        0xA2 => GAS_LOG,
        0xA3 => GAS_LOG,
        0xA4 => GAS_LOG,
        0xF0 => GAS_CREATE,
        0xF1 => GAS_CALL_COLD,
        0xF2 => GAS_CALLCODE_COLD,
        0xF3 => GAS_RETURN,
        0xF4 => GAS_DELEGATECALL_COLD,
        0xF5 => GAS_CREATE2,
        0xFA => GAS_STATICCALL_COLD,
        0xFD => GAS_REVERT,
        0xFE => 0,
        0xFF => GAS_SELFDESTRUCT,
        _ => 0,
    }
}

// =============================================================================
// Dynamic costs
// =============================================================================

/// Number of 32-byte words needed for `size` bytes.
pub open spec fn words(size: nat) -> nat {
    (size + 31) / 32
}

/// Total memory cost of `size` bytes of memory.
pub open spec fn memory_cost(size: nat) -> nat {
    words(size) * words(size) / 512 + 3 * words(size)
}

/// Memory never gets cheaper as it grows: the cost of `a` bytes is at most that
/// of `b >= a` bytes.
pub proof fn lemma_memory_cost_monotone(a: nat, b: nat)
    requires
        a <= b,
    ensures
        memory_cost(a) <= memory_cost(b),
{
    let wa = words(a);
    let wb = words(b);
    vstd::arithmetic::div_mod::lemma_div_is_ordered((a + 31) as int, (b + 31) as int, 32);
    assert(wa * wa <= wb * wb) by (nonlinear_arith)
        requires
            wa <= wb,
    ;
    vstd::arithmetic::div_mod::lemma_div_is_ordered((wa * wa) as int, (wb * wb) as int, 512);
}

/// Whether the memory cost of `size` bytes can be computed in machine words.
pub open spec fn memory_cost_fits(size: nat) -> bool {
    words(size) * words(size) <= usize::MAX
}

/// `ceil(size / 32)` without overflow.
fn word_count(size: usize) -> (r: usize)
    ensures
        r == words(size as nat),
{
    size / 32 + if size % 32 == 0 { 0 } else { 1 }
}

/// Gas for expanding memory from `old_size` to `new_size` bytes (0 when not growing).
pub fn memory_expansion_cost(old_size: usize, new_size: usize) -> (r: u64)
    requires
        memory_cost_fits(new_size as nat),
    ensures
        r == if new_size <= old_size { 0 } else { (memory_cost(new_size as nat) - memory_cost(old_size as nat)) as nat },
{
    if new_size <= old_size {
        return 0;
    }
    let new_words = word_count(new_size);
    let old_words = word_count(old_size);
    proof {
        assert(old_words * old_words <= new_words * new_words) by (nonlinear_arith)
            requires
                old_words <= new_words,
        ;
        assert(old_words * old_words / 512 <= new_words * new_words / 512) by (nonlinear_arith)
            requires
                old_words * old_words <= new_words * new_words,
        ;
        assert(new_words * new_words / 512 + 3 * new_words <= usize::MAX) by (nonlinear_arith)
            requires
                new_words * new_words <= usize::MAX,
                new_words <= usize::MAX / 32 + 1,
        ;
    }
    let new_cost = (new_words * new_words) / 512 + 3 * new_words;
    let old_cost = (old_words * old_words) / 512 + 3 * old_words;
    (new_cost - old_cost) as u64
}

/// Gas for expanding memory to cover `size` bytes at `offset` (0 for an empty range).
pub fn memory_expansion_cost_for_range(msize: usize, offset: usize, size: usize) -> (r: u64)
    requires
        size == 0 || memory_cost_fits(sat_add(offset as nat, size as nat)),
    ensures
        r == if size == 0 { 0 } else {
            let end = sat_add(offset as nat, size as nat);
            if end <= msize { 0 } else { (memory_cost(end) - memory_cost(msize as nat)) as nat }
        },
{
    if size == 0 {
        return 0;
    }
    memory_expansion_cost(msize, offset.saturating_add(size))
}

/// `a + b` saturated at `usize::MAX`.
pub open spec fn sat_add(a: nat, b: nat) -> nat {
    if a + b > usize::MAX { usize::MAX as nat } else { a + b }
}

/// Base cost of a call: cold or warm access, plus value transfer and new-account costs.
pub fn call_gas_cost(is_value_transfer: bool, is_new_account: bool, is_cold_access: bool) -> (r: u64)
    ensures
        r == (if is_cold_access { GAS_CALL_COLD } else { GAS_CALL_WARM }) + (if is_value_transfer {
            GAS_CALL_VALUE_TRANSFER + if is_new_account { GAS_CALL_NEW_ACCOUNT } else { 0 }
        } else {
            0
        }),
{
    let mut cost = if is_cold_access {
        GAS_CALL_COLD
    } else {
        GAS_CALL_WARM
    };
    if is_value_transfer {
        cost += GAS_CALL_VALUE_TRANSFER;
        if is_new_account {
            cost += GAS_CALL_NEW_ACCOUNT;
        }
    }
    cost
}

/// Gas for LOGn: base, per topic, and per data byte.
pub fn log_gas_cost(num_topics: u8, data_size: usize) -> (r: u64)
    requires
        GAS_LOG + GAS_LOG_TOPIC * num_topics + GAS_LOG_DATA * data_size <= u64::MAX,
    ensures
        r == GAS_LOG + GAS_LOG_TOPIC * num_topics + GAS_LOG_DATA * data_size,
{
    GAS_LOG + (GAS_LOG_TOPIC * num_topics as u64) + (GAS_LOG_DATA * data_size as u64)
}

/// Gas for copying `size` bytes: 3 per word.
pub fn copy_gas_cost(size: usize) -> (r: u64)
    ensures
        r == GAS_COPY * words(size as nat),
{
    let w = word_count(size);
    GAS_COPY * w as u64
}

/// Gas for KECCAK256 over `size` bytes: base plus 6 per word.
pub fn keccak256_gas_cost(size: usize) -> (r: u64)
    ensures
        r == GAS_KECCAK256 + GAS_KECCAK256_WORD * words(size as nat),
{
    let w = word_count(size);
    GAS_KECCAK256 + (GAS_KECCAK256_WORD * w as u64)
}

/// Gas for EXP with an exponent of `exponent_bytes` significant bytes.
pub fn exp_gas_cost(exponent_bytes: usize) -> (r: u64)
    requires
        GAS_EXP + GAS_EXP_BYTE * exponent_bytes <= u64::MAX,
    ensures
        r == GAS_EXP + GAS_EXP_BYTE * exponent_bytes,
{
    GAS_EXP + (GAS_EXP_BYTE * exponent_bytes as u64)
}

/// Gas for hashing CREATE2 init code: 6 per word.
pub fn create2_hash_cost(init_code_size: usize) -> (r: u64)
    ensures
        r == GAS_CREATE2_WORD * words(init_code_size as nat),
{
    let w = word_count(init_code_size);
    GAS_CREATE2_WORD * w as u64
}

/// Gas for init code (EIP-3860): 2 per word.
pub fn init_code_gas_cost(init_code_size: usize) -> (r: u64)
    ensures
        r == GAS_INIT_CODE_WORD * words(init_code_size as nat),
{
    let w = word_count(init_code_size);
    GAS_INIT_CODE_WORD * w as u64
}

/// Gas for depositing `code_size` bytes of contract code: 200 per byte.
pub fn code_deposit_cost(code_size: usize) -> (r: u64)
    requires
        GAS_CODE_DEPOSIT * code_size <= u64::MAX,
    ensures
        r == GAS_CODE_DEPOSIT * code_size,
{
    GAS_CODE_DEPOSIT * code_size as u64
}

/// Dynamic SSTORE cost (before the cold-slot surcharge): unchanged slot, fresh
/// slot, or rewritten slot.
pub open spec fn sstore_cost(current: nat, new: nat) -> u64 {
    if current == new {
        GAS_SSTORE_NOOP
    } else if current == 0 {
        GAS_SSTORE_SET
    } else {
        (GAS_SSTORE_RESET - GAS_SLOAD_COLD) as u64
    }
}

/// Dynamic SSTORE cost for writing `new_value` over `current_value`.
pub fn sstore_gas_cost(current_value: U256, new_value: U256) -> (r: u64)
    ensures
        r == sstore_cost(current_value@, new_value@),
{
    if current_value.eq_word(&new_value) {
        GAS_SSTORE_NOOP
    } else if current_value.is_zero() {
        GAS_SSTORE_SET
    } else {
        GAS_SSTORE_RESET - GAS_SLOAD_COLD
    }
}

// =============================================================================
// Blob gas (EIP-4844)
// =============================================================================

/// Dividing `a · n` by a number above `n` gives less than `a`.
pub proof fn lemma_term_shrinks(a: nat, n: nat, d: nat)
    requires
        a > 0,
        n < d,
    ensures
        (a * n) / d < a,
{
    lemma_fundamental_div_mod((a * n) as int, d as int);
    lemma_mod_pos_bound((a * n) as int, d as int);
    let q = (a * n) / d;
    if q >= a {
        assert(d * q >= d * a) by (nonlinear_arith)
            requires
                q >= a,
        ;
        assert(d * a > n * a) by (nonlinear_arith)
            requires
                d > n,
                a > 0,
        ;
        assert(n * a == a * n) by (nonlinear_arith);
    }
}

/// The Taylor-series loop of EIP-4844's `fake_exponential` from term `i`: the
/// running term `accum` is added to `output`, then becomes
/// `accum · numerator / (denominator · i)`; once it is zero the result is
/// `output / denominator`. `None` when a sum or product reaches 2^256.
pub open spec fn fake_exp_from(num: nat, den: nat, i: nat, accum: nat, output: nat) -> Option<
    nat,
>
    decreases
            (if i <= num {
                (num + 1 - i) as nat
            } else {
                0nat
            }),
            accum,
    when den > 0 && i >= 1
{
    if accum == 0 {
        Some(output / den)
    } else if output + accum >= pow256() || accum * num >= pow256() || den * i >= pow256() || i
        + 1 >= pow256() {
        None
    } else {
        proof {
            if i > num {
                assert(den * i >= i) by (nonlinear_arith)
                    requires
                        den >= 1,
                        i >= 1,
                ;
                lemma_term_shrinks(accum, num, den * i);
            }
        }
        fake_exp_from(num, den, i + 1, (accum * num) / (den * i), output + accum)
    }
}

/// EIP-4844's `fake_exponential(factor, numerator, denominator)`, an integer
/// approximation of `factor · e^(numerator / denominator)`; `None` when an
/// intermediate value reaches 2^256.
pub open spec fn fake_exponential_spec(factor: nat, num: nat, den: nat) -> Option<nat> {
    if factor * den >= pow256() {
        None
    } else {
        fake_exp_from(num, den, 1, factor * den, 0)
    }
}

/// `fake_exponential` on words, saturating at 2^256 - 1 when an intermediate
/// value does not fit.
pub fn fake_exponential(factor: U256, numerator: U256, denominator: U256) -> (r: U256)
    requires
        denominator@ > 0,
    ensures
        r@ == match fake_exponential_spec(factor@, numerator@, denominator@) {
            Some(v) => v,
            None => (pow256() - 1) as nat,
        },
{
    let (start, o) = factor.overflowing_mul(denominator);
    if o {
        return U256::max_value();
    }
    proof {
        lemma_small_mod((factor@ * denominator@) as nat, pow256());
    }
    let mut i = U256::one();
    let mut accum = start;
    let mut output = U256::zero();
    while !accum.is_zero()
        invariant
            denominator@ > 0,
            i@ >= 1,
            fake_exponential_spec(factor@, numerator@, denominator@) == fake_exp_from(
                numerator@,
                denominator@,
                i@,
                accum@,
                output@,
            ),
        decreases
                (if i@ <= numerator@ {
                    (numerator@ + 1 - i@) as nat
                } else {
                    0nat
                }),
                accum@,
    {
        let ghost (i0, a0, o0) = (i@, accum@, output@);
        let sum = match output.checked_add(accum) {
            Some(v) => v,
            None => {
                return U256::max_value();
            },
        };
        let (prod, o1) = accum.overflowing_mul(numerator);
        if o1 {
            return U256::max_value();
        }
        let (div, o2) = denominator.overflowing_mul(i);
        if o2 {
            return U256::max_value();
        }
        let next_i = match i.checked_add(U256::one()) {
            Some(v) => v,
            None => {
                return U256::max_value();
            },
        };
        proof {
            lemma_small_mod((a0 * numerator@) as nat, pow256());
            lemma_small_mod((denominator@ * i0) as nat, pow256());
            assert(denominator@ * i0 >= i0) by (nonlinear_arith)
                requires
                    denominator@ >= 1,
                    i0 >= 1,
            ;
            if i0 > numerator@ {
                lemma_term_shrinks(a0, numerator@, denominator@ * i0);
            }
        }
        let (q, _) = prod.div_rem(div);
        accum = q;
        output = sum;
        i = next_i;
    }
    let (res, _) = output.div_rem(denominator);
    res
}

/// The blob base fee for a block's excess blob gas (EIP-4844):
/// `fake_exponential(MIN_BLOB_GASPRICE, excess, BLOB_BASE_FEE_UPDATE_FRACTION)`.
pub fn blob_gas_price(excess_blob_gas: U256) -> (r: U256)
    ensures
        r@ == match fake_exponential_spec(
            MIN_BLOB_GASPRICE as nat,
            excess_blob_gas@,
            BLOB_BASE_FEE_UPDATE_FRACTION as nat,
        ) {
            Some(v) => v,
            None => (pow256() - 1) as nat,
        },
{
    fake_exponential(
        U256::from_u64(MIN_BLOB_GASPRICE),
        excess_blob_gas,
        U256::from_u64(BLOB_BASE_FEE_UPDATE_FRACTION),
    )
}

} // verus!
