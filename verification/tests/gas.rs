use claudeth::evm::gas::{call_gas_cost, code_deposit_cost, copy_gas_cost, create2_hash_cost, exp_gas_cost, init_code_gas_cost, keccak256_gas_cost, log_gas_cost, memory_expansion_cost, opcode_gas_cost, GAS_CALL_COLD, GAS_CALL_NEW_ACCOUNT, GAS_CALL_VALUE_TRANSFER, GAS_CALL_WARM, GAS_CODE_DEPOSIT, GAS_CREATE, GAS_CREATE2, GAS_EXT_STEP, GAS_FASTEST_STEP, GAS_FAST_STEP, GAS_MID_STEP, GAS_QUICK_STEP, GAS_SLOAD_COLD, GAS_SLOAD_WARM, GAS_SLOW_STEP, GAS_SSTORE_SET, MAX_CODE_SIZE};
#[test]
fn test_arithmetic_opcodes() {
    assert_eq!(opcode_gas_cost(0x00), 0);   // STOP
    assert_eq!(opcode_gas_cost(0x01), 3);   // ADD
    assert_eq!(opcode_gas_cost(0x02), 5);   // MUL
    assert_eq!(opcode_gas_cost(0x03), 3);   // SUB
    assert_eq!(opcode_gas_cost(0x04), 5);   // DIV
    assert_eq!(opcode_gas_cost(0x05), 5);   // SDIV
    assert_eq!(opcode_gas_cost(0x06), 5);   // MOD
    assert_eq!(opcode_gas_cost(0x07), 5);   // SMOD
    assert_eq!(opcode_gas_cost(0x08), 8);   // ADDMOD
    assert_eq!(opcode_gas_cost(0x09), 8);   // MULMOD
    assert_eq!(opcode_gas_cost(0x0A), 10);  // EXP (base)
    assert_eq!(opcode_gas_cost(0x0B), 5);   // SIGNEXTEND
}

#[test]
fn test_comparison_opcodes() {
    assert_eq!(opcode_gas_cost(0x10), 3);   // LT
    assert_eq!(opcode_gas_cost(0x11), 3);   // GT
    assert_eq!(opcode_gas_cost(0x12), 3);   // SLT
    assert_eq!(opcode_gas_cost(0x13), 3);   // SGT
    assert_eq!(opcode_gas_cost(0x14), 3);   // EQ
    assert_eq!(opcode_gas_cost(0x15), 3);   // ISZERO
}

#[test]
fn test_bitwise_opcodes() {
    assert_eq!(opcode_gas_cost(0x16), 3);   // AND
    assert_eq!(opcode_gas_cost(0x17), 3);   // OR
    assert_eq!(opcode_gas_cost(0x18), 3);   // XOR
    assert_eq!(opcode_gas_cost(0x19), 3);   // NOT
    assert_eq!(opcode_gas_cost(0x1A), 3);   // BYTE
    assert_eq!(opcode_gas_cost(0x1B), 3);   // SHL
    assert_eq!(opcode_gas_cost(0x1C), 3);   // SHR
    assert_eq!(opcode_gas_cost(0x1D), 3);   // SAR
}

#[test]
fn test_hash_opcode() {
    assert_eq!(opcode_gas_cost(0x20), 30);  // KECCAK256 (base)
}

#[test]
fn test_environment_opcodes() {
    assert_eq!(opcode_gas_cost(0x30), 2);     // ADDRESS
    assert_eq!(opcode_gas_cost(0x31), 2600);  // BALANCE (cold)
    assert_eq!(opcode_gas_cost(0x32), 2);     // ORIGIN
    assert_eq!(opcode_gas_cost(0x33), 2);     // CALLER
    assert_eq!(opcode_gas_cost(0x34), 2);     // CALLVALUE
    assert_eq!(opcode_gas_cost(0x35), 3);     // CALLDATALOAD
    assert_eq!(opcode_gas_cost(0x36), 2);     // CALLDATASIZE
    assert_eq!(opcode_gas_cost(0x37), 3);     // CALLDATACOPY (base)
    assert_eq!(opcode_gas_cost(0x38), 2);     // CODESIZE
    assert_eq!(opcode_gas_cost(0x39), 3);     // CODECOPY (base)
    assert_eq!(opcode_gas_cost(0x3A), 2);     // GASPRICE
    assert_eq!(opcode_gas_cost(0x3B), 2600);  // EXTCODESIZE (cold)
    assert_eq!(opcode_gas_cost(0x3C), 2600);  // EXTCODECOPY (cold)
    assert_eq!(opcode_gas_cost(0x3D), 2);     // RETURNDATASIZE
    assert_eq!(opcode_gas_cost(0x3E), 3);     // RETURNDATACOPY (base)
    assert_eq!(opcode_gas_cost(0x3F), 2600);  // EXTCODEHASH (cold)
}

#[test]
fn test_block_opcodes() {
    assert_eq!(opcode_gas_cost(0x40), 20);  // BLOCKHASH
    assert_eq!(opcode_gas_cost(0x41), 2);   // COINBASE
    assert_eq!(opcode_gas_cost(0x42), 2);   // TIMESTAMP
    assert_eq!(opcode_gas_cost(0x43), 2);   // NUMBER
    assert_eq!(opcode_gas_cost(0x44), 2);   // DIFFICULTY
    assert_eq!(opcode_gas_cost(0x45), 2);   // GASLIMIT
    assert_eq!(opcode_gas_cost(0x46), 2);   // CHAINID
    assert_eq!(opcode_gas_cost(0x47), 5);   // SELFBALANCE
    assert_eq!(opcode_gas_cost(0x48), 2);   // BASEFEE
    assert_eq!(opcode_gas_cost(0x49), 3);   // BLOBHASH
    assert_eq!(opcode_gas_cost(0x4A), 2);   // BLOBBASEFEE
}

#[test]
fn test_stack_memory_storage_opcodes() {
    assert_eq!(opcode_gas_cost(0x50), 2);     // POP
    assert_eq!(opcode_gas_cost(0x51), 3);     // MLOAD (base)
    assert_eq!(opcode_gas_cost(0x52), 3);     // MSTORE (base)
    assert_eq!(opcode_gas_cost(0x53), 3);     // MSTORE8 (base)
    assert_eq!(opcode_gas_cost(0x54), 2100);  // SLOAD (cold)
    assert_eq!(opcode_gas_cost(0x55), 0);     // SSTORE (dynamic only)
    assert_eq!(opcode_gas_cost(0x56), 8);     // JUMP
    assert_eq!(opcode_gas_cost(0x57), 10);    // JUMPI
    assert_eq!(opcode_gas_cost(0x58), 2);     // PC
    assert_eq!(opcode_gas_cost(0x59), 2);     // MSIZE
    assert_eq!(opcode_gas_cost(0x5A), 2);     // GAS
    assert_eq!(opcode_gas_cost(0x5B), 1);     // JUMPDEST
    assert_eq!(opcode_gas_cost(0x5C), 100);   // TLOAD
    assert_eq!(opcode_gas_cost(0x5D), 100);   // TSTORE
    assert_eq!(opcode_gas_cost(0x5E), 3);     // MCOPY
    assert_eq!(opcode_gas_cost(0x5F), 2);     // PUSH0
}

#[test]
fn test_push_opcodes() {
    // PUSH1-PUSH32
    for i in 0x60..=0x7F {
        assert_eq!(opcode_gas_cost(i), 3);
    }
}

#[test]
fn test_dup_opcodes() {
    // DUP1-DUP16
    for i in 0x80..=0x8F {
        assert_eq!(opcode_gas_cost(i), 3);
    }
}

#[test]
fn test_swap_opcodes() {
    // SWAP1-SWAP16
    for i in 0x90..=0x9F {
        assert_eq!(opcode_gas_cost(i), 3);
    }
}

#[test]
fn test_log_opcodes() {
    // LOG0-LOG4
    for i in 0xA0..=0xA4 {
        assert_eq!(opcode_gas_cost(i), 375);
    }
}

#[test]
fn test_system_opcodes() {
    assert_eq!(opcode_gas_cost(0xF0), 32000); // CREATE
    assert_eq!(opcode_gas_cost(0xF1), 2600);  // CALL (cold)
    assert_eq!(opcode_gas_cost(0xF2), 2600);  // CALLCODE (cold)
    assert_eq!(opcode_gas_cost(0xF3), 0);     // RETURN (base)
    assert_eq!(opcode_gas_cost(0xF4), 2600);  // DELEGATECALL (cold)
    assert_eq!(opcode_gas_cost(0xF5), 32000); // CREATE2 (base)
    assert_eq!(opcode_gas_cost(0xFA), 2600);  // STATICCALL (cold)
    assert_eq!(opcode_gas_cost(0xFD), 0);     // REVERT (base)
    assert_eq!(opcode_gas_cost(0xFE), 0);     // INVALID
    assert_eq!(opcode_gas_cost(0xFF), 5000);  // SELFDESTRUCT (base)
}

#[test]
fn test_invalid_opcodes() {
    // Undefined opcodes should return 0
    assert_eq!(opcode_gas_cost(0x0C), 0);
    assert_eq!(opcode_gas_cost(0x21), 0);
    assert_eq!(opcode_gas_cost(0xA5), 0);
}

#[test]
fn test_memory_expansion_no_expansion() {
    assert_eq!(memory_expansion_cost(0, 0), 0);
    assert_eq!(memory_expansion_cost(100, 100), 0);
    assert_eq!(memory_expansion_cost(1000, 500), 0); // new < old
}

#[test]
fn test_memory_expansion_first_word() {
    // Expanding from 0 to 32 bytes (1 word)
    // Cost = (1*1)/512 + 3*1 = 0 + 3 = 3
    assert_eq!(memory_expansion_cost(0, 32), 3);
}

#[test]
fn test_memory_expansion_second_word() {
    // Expanding from 32 to 64 bytes (1 to 2 words)
    // Cost for 2 words = (2*2)/512 + 3*2 = 0 + 6 = 6
    // Cost for 1 word = (1*1)/512 + 3*1 = 0 + 3 = 3
    // Additional cost = 6 - 3 = 3
    assert_eq!(memory_expansion_cost(32, 64), 3);
}

#[test]
fn test_memory_expansion_partial_word() {
    // Expanding from 0 to 33 bytes (rounds up to 2 words)
    // Cost for 2 words = (2*2)/512 + 3*2 = 0 + 6 = 6
    assert_eq!(memory_expansion_cost(0, 33), 6);

    // Expanding from 0 to 63 bytes (rounds up to 2 words)
    assert_eq!(memory_expansion_cost(0, 63), 6);

    // Expanding from 0 to 64 bytes (exactly 2 words)
    assert_eq!(memory_expansion_cost(0, 64), 6);
}

#[test]
fn test_memory_expansion_large() {
    // Expanding to 1024 bytes (32 words)
    // Cost = (32*32)/512 + 3*32 = 2 + 96 = 98
    assert_eq!(memory_expansion_cost(0, 1024), 98);

    // Expanding from 1024 to 2048 bytes (32 to 64 words)
    // Cost for 64 words = (64*64)/512 + 3*64 = 8 + 192 = 200
    // Cost for 32 words = 98
    // Additional cost = 200 - 98 = 102
    assert_eq!(memory_expansion_cost(1024, 2048), 102);
}

#[test]
fn test_memory_expansion_quadratic_growth() {
    // Verify quadratic nature: larger expansions cost more per word
    let cost_0_to_1024 = memory_expansion_cost(0, 1024);
    let cost_1024_to_2048 = memory_expansion_cost(1024, 2048);

    // Second expansion should cost more (quadratic)
    assert!(cost_1024_to_2048 > cost_0_to_1024);
}

#[test]
fn test_call_gas_simple_warm() {
    // Simple call to warm account, no value transfer
    assert_eq!(call_gas_cost(false, false, false), 100);
}

#[test]
fn test_call_gas_cold_access() {
    // First access to account (cold)
    assert_eq!(call_gas_cost(false, false, true), 2600);
}

#[test]
fn test_call_gas_value_transfer_warm() {
    // Value transfer to existing warm account
    assert_eq!(call_gas_cost(true, false, false), 9100);
}

#[test]
fn test_call_gas_value_transfer_cold() {
    // Value transfer to cold account
    assert_eq!(call_gas_cost(true, false, true), 11600);
}

#[test]
fn test_call_gas_new_account_warm() {
    // Call with value to new account (warm)
    assert_eq!(call_gas_cost(true, true, false), 34100);
}

#[test]
fn test_call_gas_new_account_cold() {
    // Call with value to new account (cold) - most expensive
    assert_eq!(call_gas_cost(true, true, true), 36600);
}

#[test]
fn test_call_gas_new_account_no_value() {
    // New account flag is irrelevant without value transfer
    assert_eq!(call_gas_cost(false, true, false), 100);
    assert_eq!(call_gas_cost(false, true, true), 2600);
}

#[test]
fn test_log0_no_data() {
    // LOG0 with no data: 375 base
    assert_eq!(log_gas_cost(0, 0), 375);
}

#[test]
fn test_log0_with_data() {
    // LOG0 with 32 bytes: 375 + 8*32 = 631
    assert_eq!(log_gas_cost(0, 32), 631);
}

#[test]
fn test_log1() {
    // LOG1 with 1 topic, 32 bytes: 375 + 375 + 8*32 = 1006
    assert_eq!(log_gas_cost(1, 32), 1006);
}

#[test]
fn test_log4_large_data() {
    // LOG4 with 4 topics, 256 bytes: 375 + 4*375 + 8*256 = 3923
    assert_eq!(log_gas_cost(4, 256), 3923);
}

#[test]
fn test_log_formula() {
    for topics in 0..=4 {
        for size in [0, 32, 64, 128, 256] {
            let expected = 375 + (375 * topics as u64) + (8 * size as u64);
            assert_eq!(log_gas_cost(topics, size), expected);
        }
    }
}

#[test]
fn test_copy_zero_bytes() {
    assert_eq!(copy_gas_cost(0), 0);
}

#[test]
fn test_copy_one_word() {
    assert_eq!(copy_gas_cost(32), 3);
}

#[test]
fn test_copy_two_words() {
    assert_eq!(copy_gas_cost(64), 6);
}

#[test]
fn test_copy_partial_word() {
    // 33 bytes = 2 words (rounded up)
    assert_eq!(copy_gas_cost(33), 6);

    // 1 byte = 1 word
    assert_eq!(copy_gas_cost(1), 3);

    // 63 bytes = 2 words
    assert_eq!(copy_gas_cost(63), 6);
}

#[test]
fn gas_test_keccak256_empty() {
    // Empty data: 30 base
    assert_eq!(keccak256_gas_cost(0), 30);
}

#[test]
fn test_keccak256_one_word() {
    // 32 bytes: 30 + 6*1 = 36
    assert_eq!(keccak256_gas_cost(32), 36);
}

#[test]
fn test_keccak256_two_words() {
    // 64 bytes: 30 + 6*2 = 42
    assert_eq!(keccak256_gas_cost(64), 42);
}

#[test]
fn test_keccak256_partial_word() {
    // 33 bytes = 2 words: 30 + 6*2 = 42
    assert_eq!(keccak256_gas_cost(33), 42);
}

#[test]
fn gas_test_exp_zero_exponent() {
    // x^0: 10 base
    assert_eq!(exp_gas_cost(0), 10);
}

#[test]
fn test_exp_one_byte() {
    // Exponent fits in 1 byte: 10 + 50*1 = 60
    assert_eq!(exp_gas_cost(1), 60);
}

#[test]
fn test_exp_multi_byte() {
    // Exponent needs 8 bytes: 10 + 50*8 = 410
    assert_eq!(exp_gas_cost(8), 410);
}

#[test]
fn test_create2_hash_one_word() {
    assert_eq!(create2_hash_cost(32), 6);
}

#[test]
fn test_create2_hash_large_code() {
    // 1024 bytes = 32 words: 6*32 = 192
    assert_eq!(create2_hash_cost(1024), 192);
}

#[test]
fn test_init_code_one_word() {
    assert_eq!(init_code_gas_cost(32), 2);
}

#[test]
fn test_init_code_large() {
    // 1024 bytes = 32 words: 2*32 = 64
    assert_eq!(init_code_gas_cost(1024), 64);
}

#[test]
fn test_code_deposit_one_byte() {
    assert_eq!(code_deposit_cost(1), 200);
}

#[test]
fn test_code_deposit_max_size() {
    // Max code size is 24576 bytes
    assert_eq!(code_deposit_cost(MAX_CODE_SIZE), 200 * 24576);
}

#[test]
fn test_code_deposit_typical() {
    // 1000 bytes of code
    assert_eq!(code_deposit_cost(1000), 200000);
}

#[test]
fn test_gas_constants() {
    // Verify basic step costs
    assert_eq!(GAS_QUICK_STEP, 2);
    assert_eq!(GAS_FASTEST_STEP, 3);
    assert_eq!(GAS_FAST_STEP, 5);
    assert_eq!(GAS_MID_STEP, 8);
    assert_eq!(GAS_SLOW_STEP, 10);
    assert_eq!(GAS_EXT_STEP, 20);

    // Verify storage costs
    assert_eq!(GAS_SLOAD_COLD, 2100);
    assert_eq!(GAS_SLOAD_WARM, 100);
    assert_eq!(GAS_SSTORE_SET, 20000);

    // Verify call costs
    assert_eq!(GAS_CALL_COLD, 2600);
    assert_eq!(GAS_CALL_WARM, 100);
    assert_eq!(GAS_CALL_VALUE_TRANSFER, 9000);
    assert_eq!(GAS_CALL_NEW_ACCOUNT, 25000);

    // Verify creation costs
    assert_eq!(GAS_CREATE, 32000);
    assert_eq!(GAS_CREATE2, 32000);
    assert_eq!(GAS_CODE_DEPOSIT, 200);
}

#[test]
fn test_memory_expansion_edge_cases() {
    // Expansion by 1 byte
    let cost = memory_expansion_cost(0, 1);
    assert_eq!(cost, 3); // Rounds up to 1 word

    // Very large expansion
    let cost = memory_expansion_cost(0, 100000);
    assert!(cost > 0);
}

#[test]
fn test_log_max_topics() {
    // LOG4 is the maximum (4 topics)
    let cost = log_gas_cost(4, 0);
    assert_eq!(cost, 375 + 375 * 4);
}

