use claudeth::evm::memory::Memory;
use claudeth::evm::opcodes::control::{
    analyze_jumpdests, dup_n, gas, jump, jumpdest, jumpi, mload, msize, mstore, mstore8, pc, pop, push_n,
    sload, sstore, swap_n, OpcodeError,
};
use claudeth::evm::stack::{Stack, StackError};
use claudeth::state::Storage;
use claudeth::types::U256;

#[test]
fn test_mload_basic() {
    let mut stack = Stack::new();
    let mut memory = Memory::new();

    // Store a value first
    memory.mstore(0, U256::from(0x1234u64)).unwrap();

    // Load it back
    stack.push(U256::zero()).unwrap();
    mload(&mut stack, &mut memory).unwrap();

    assert_eq!(stack.pop().unwrap(), U256::from(0x1234u64));
}

#[test]
fn test_mload_offset() {
    let mut stack = Stack::new();
    let mut memory = Memory::new();

    // Store at offset 32
    memory.mstore(32, U256::from(0xABCDu64)).unwrap();

    // Load from offset 32
    stack.push(U256::from(32u64)).unwrap();
    mload(&mut stack, &mut memory).unwrap();

    assert_eq!(stack.pop().unwrap(), U256::from(0xABCDu64));
}

#[test]
fn test_mstore_basic() {
    let mut stack = Stack::new();
    let mut memory = Memory::new();

    stack.push(U256::from(0x9876u64)).unwrap();
    stack.push(U256::zero()).unwrap();
    mstore(&mut stack, &mut memory).unwrap();

    let loaded = memory.mload(0).unwrap();
    assert_eq!(loaded, U256::from(0x9876u64));
}

#[test]
fn control_test_mstore8_basic() {
    let mut stack = Stack::new();
    let mut memory = Memory::new();

    // Store byte 0xAB at offset 0
    stack.push(U256::from(0x1234ABu64)).unwrap(); // Only last byte should be stored
    stack.push(U256::zero()).unwrap();
    mstore8(&mut stack, &mut memory).unwrap();

    // Load the word and check only the first byte
    let loaded = memory.mload(0).unwrap();
    let bytes = loaded.to_be_bytes();
    assert_eq!(bytes[0], 0xAB);
    // Other bytes should be zero
    assert_eq!(bytes[1], 0x00);
}

#[test]
fn test_msize_empty() {
    let stack = &mut Stack::new();
    let memory = Memory::new();

    msize(stack, &memory).unwrap();

    assert_eq!(stack.pop().unwrap(), U256::zero());
}

#[test]
fn test_msize_after_store() {
    let mut stack = Stack::new();
    let mut memory = Memory::new();

    // Store at offset 0 - expands memory to 32 bytes
    memory.mstore(0, U256::from(42u64)).unwrap();

    msize(&mut stack, &memory).unwrap();

    assert_eq!(stack.pop().unwrap(), U256::from(32u64));
}

#[test]
fn test_msize_after_large_offset() {
    let mut stack = Stack::new();
    let mut memory = Memory::new();

    // Store at offset 64 - expands memory to 96 bytes
    memory.mstore(64, U256::from(123u64)).unwrap();

    msize(&mut stack, &memory).unwrap();

    assert_eq!(stack.pop().unwrap(), U256::from(96u64));
}

#[test]
fn test_sload_empty() {
    let mut stack = Stack::new();
    let storage = Storage::new();

    stack.push(U256::from(42u64)).unwrap();
    sload(&mut stack, &storage).unwrap();

    // Empty storage returns zero
    assert_eq!(stack.pop().unwrap(), U256::zero());
}

#[test]
fn test_sstore_sload_roundtrip() {
    let mut stack = Stack::new();
    let mut storage = Storage::new();

    // Store value
    stack.push(U256::from(0x1234u64)).unwrap();
    stack.push(U256::from(5u64)).unwrap(); // key
    sstore(&mut stack, &mut storage).unwrap();

    // Load value
    stack.push(U256::from(5u64)).unwrap();
    sload(&mut stack, &storage).unwrap();

    assert_eq!(stack.pop().unwrap(), U256::from(0x1234u64));
}

#[test]
fn test_sstore_zero_deletes() {
    let mut stack = Stack::new();
    let mut storage = Storage::new();

    // Store non-zero value
    stack.push(U256::from(100u64)).unwrap();
    stack.push(U256::from(7u64)).unwrap();
    sstore(&mut stack, &mut storage).unwrap();

    // Store zero (delete)
    stack.push(U256::zero()).unwrap();
    stack.push(U256::from(7u64)).unwrap();
    sstore(&mut stack, &mut storage).unwrap();

    // Load should return zero
    stack.push(U256::from(7u64)).unwrap();
    sload(&mut stack, &storage).unwrap();

    assert_eq!(stack.pop().unwrap(), U256::zero());
}

#[test]
fn test_pop_basic() {
    let mut stack = Stack::new();
    stack.push(U256::from(1u64)).unwrap();
    stack.push(U256::from(2u64)).unwrap();
    stack.push(U256::from(3u64)).unwrap();

    pop(&mut stack).unwrap();

    assert_eq!(stack.pop().unwrap(), U256::from(2u64));
    assert_eq!(stack.pop().unwrap(), U256::from(1u64));
}

#[test]
fn test_pop_empty_stack() {
    let mut stack = Stack::new();
    let result = pop(&mut stack);
    assert!(matches!(
        result,
        Err(OpcodeError::Stack(StackError::Underflow))
    ));
}

#[test]
fn test_push1() {
    let mut stack = Stack::new();
    let bytecode = vec![0x60, 0x42]; // PUSH1 0x42

    push_n(&mut stack, &bytecode, 0, 1).unwrap();

    assert_eq!(stack.pop().unwrap(), U256::from(0x42u64));
}

#[test]
fn test_push2() {
    let mut stack = Stack::new();
    let bytecode = vec![0x61, 0x12, 0x34]; // PUSH2 0x1234

    push_n(&mut stack, &bytecode, 0, 2).unwrap();

    assert_eq!(stack.pop().unwrap(), U256::from(0x1234u64));
}

#[test]
fn test_push32_max() {
    let mut stack = Stack::new();
    let mut bytecode = vec![0x7F]; // PUSH32
    bytecode.extend_from_slice(&[0xFF; 32]);

    push_n(&mut stack, &bytecode, 0, 32).unwrap();

    assert_eq!(stack.pop().unwrap(), U256::max_value());
}

#[test]
fn test_push_partial_data() {
    let mut stack = Stack::new();
    let bytecode = vec![0x62, 0x12]; // PUSH3 with only 1 byte (missing 2 bytes)

    push_n(&mut stack, &bytecode, 0, 3).unwrap();

    // Should be left-padded: 0x12 followed by two zero bytes = 0x120000
    assert_eq!(stack.pop().unwrap(), U256::from(0x120000u64));
}

#[test]
fn control_test_dup1() {
    let mut stack = Stack::new();
    stack.push(U256::from(42u64)).unwrap();

    dup_n(&mut stack, 1).unwrap();

    assert_eq!(stack.pop().unwrap(), U256::from(42u64));
    assert_eq!(stack.pop().unwrap(), U256::from(42u64));
}

#[test]
fn control_test_dup2() {
    let mut stack = Stack::new();
    stack.push(U256::from(1u64)).unwrap();
    stack.push(U256::from(2u64)).unwrap();

    dup_n(&mut stack, 2).unwrap();

    assert_eq!(stack.pop().unwrap(), U256::from(1u64));
    assert_eq!(stack.pop().unwrap(), U256::from(2u64));
    assert_eq!(stack.pop().unwrap(), U256::from(1u64));
}

#[test]
fn control_test_dup16() {
    let mut stack = Stack::new();
    for i in 1..=16 {
        stack.push(U256::from(i as u64)).unwrap();
    }

    dup_n(&mut stack, 16).unwrap();

    assert_eq!(stack.pop().unwrap(), U256::from(1u64));
}

#[test]
fn control_test_swap1() {
    let mut stack = Stack::new();
    stack.push(U256::from(1u64)).unwrap();
    stack.push(U256::from(2u64)).unwrap();

    swap_n(&mut stack, 1).unwrap();

    assert_eq!(stack.pop().unwrap(), U256::from(1u64));
    assert_eq!(stack.pop().unwrap(), U256::from(2u64));
}

#[test]
fn control_test_swap2() {
    let mut stack = Stack::new();
    stack.push(U256::from(1u64)).unwrap();
    stack.push(U256::from(2u64)).unwrap();
    stack.push(U256::from(3u64)).unwrap();

    swap_n(&mut stack, 2).unwrap();

    assert_eq!(stack.pop().unwrap(), U256::from(1u64));
    assert_eq!(stack.pop().unwrap(), U256::from(2u64));
    assert_eq!(stack.pop().unwrap(), U256::from(3u64));
}

#[test]
fn control_test_swap16() {
    let mut stack = Stack::new();
    for i in 1..=17 {
        stack.push(U256::from(i as u64)).unwrap();
    }

    swap_n(&mut stack, 16).unwrap();

    assert_eq!(stack.pop().unwrap(), U256::from(1u64));
    for _ in 2..=16 {
        stack.pop().unwrap();
    }
    assert_eq!(stack.pop().unwrap(), U256::from(17u64));
}

#[test]
fn test_pc_basic() {
    let mut stack = Stack::new();

    pc(&mut stack, 42).unwrap();

    assert_eq!(stack.pop().unwrap(), U256::from(42u64));
}

#[test]
fn test_gas_basic() {
    let mut stack = Stack::new();

    gas(&mut stack, 1000).unwrap();

    assert_eq!(stack.pop().unwrap(), U256::from(1000u64));
}

#[test]
fn test_jumpdest_noop() {
    // JUMPDEST is a no-op
    assert!(jumpdest().is_ok());
}

#[test]
fn test_analyze_jumpdests_simple() {
    let bytecode = vec![
        0x60, 0x0A, // PUSH1 10
        0x5B, // JUMPDEST at position 2
        0x56, // JUMP
    ];

    let jumpdests = analyze_jumpdests(&bytecode);

    assert_eq!(jumpdests.len(), 1);
    assert!(jumpdests.contains(&2));
}

#[test]
fn test_analyze_jumpdests_with_push() {
    let bytecode = vec![
        0x60, 0x5B, // PUSH1 0x5B (not a real JUMPDEST!)
        0x5B, // JUMPDEST at position 2
        0x61, 0x5B, 0x5B, // PUSH2 0x5B5B (not real JUMPDESTs!)
        0x5B, // JUMPDEST at position 6
    ];

    let jumpdests = analyze_jumpdests(&bytecode);

    assert_eq!(jumpdests.len(), 2);
    assert!(jumpdests.contains(&2));
    assert!(jumpdests.contains(&6));
    assert!(!jumpdests.contains(&1)); // Inside PUSH1
    assert!(!jumpdests.contains(&4)); // Inside PUSH2
    assert!(!jumpdests.contains(&5)); // Inside PUSH2
}

#[test]
fn test_jump_valid() {
    let mut stack = Stack::new();
    let bytecode = vec![0x5B, 0x00, 0x5B]; // JUMPDEST at 0 and 2
    let jumpdests = analyze_jumpdests(&bytecode);

    stack.push(U256::from(2u64)).unwrap();
    let new_pc = jump(&mut stack, &bytecode, &jumpdests).unwrap();

    assert_eq!(new_pc, 2);
}

#[test]
fn test_jump_invalid_destination() {
    let mut stack = Stack::new();
    let bytecode = vec![0x5B, 0x00, 0x00]; // Only JUMPDEST at 0
    let jumpdests = analyze_jumpdests(&bytecode);

    stack.push(U256::from(1u64)).unwrap(); // Not a JUMPDEST
    let result = jump(&mut stack, &bytecode, &jumpdests);

    assert!(matches!(result, Err(OpcodeError::InvalidJumpDestination)));
}

#[test]
fn test_jump_out_of_bounds() {
    let mut stack = Stack::new();
    let bytecode = vec![0x5B];
    let jumpdests = analyze_jumpdests(&bytecode);

    stack.push(U256::from(100u64)).unwrap();
    let result = jump(&mut stack, &bytecode, &jumpdests);

    assert!(matches!(result, Err(OpcodeError::InvalidJumpDestination)));
}

#[test]
fn control_test_jumpi_taken() {
    let mut stack = Stack::new();
    let bytecode = vec![0x5B, 0x00, 0x5B]; // JUMPDEST at 0 and 2
    let jumpdests = analyze_jumpdests(&bytecode);

    stack.push(U256::from(1u64)).unwrap(); // condition (non-zero)
    stack.push(U256::from(2u64)).unwrap(); // destination
    let new_pc = jumpi(&mut stack, &bytecode, &jumpdests, 0).unwrap();

    assert_eq!(new_pc, 2);
}

#[test]
fn control_test_jumpi_not_taken() {
    let mut stack = Stack::new();
    let bytecode = vec![0x5B, 0x00, 0x5B];
    let jumpdests = analyze_jumpdests(&bytecode);

    stack.push(U256::zero()).unwrap(); // condition (zero)
    stack.push(U256::from(2u64)).unwrap(); // destination
    let new_pc = jumpi(&mut stack, &bytecode, &jumpdests, 0).unwrap();

    assert_eq!(new_pc, 1); // current_pc + 1
}

#[test]
fn test_jumpi_invalid_destination() {
    let mut stack = Stack::new();
    let bytecode = vec![0x5B, 0x00, 0x00]; // Only JUMPDEST at 0
    let jumpdests = analyze_jumpdests(&bytecode);

    stack.push(U256::from(1u64)).unwrap(); // condition (non-zero)
    stack.push(U256::from(1u64)).unwrap(); // destination (not a JUMPDEST)
    let result = jumpi(&mut stack, &bytecode, &jumpdests, 0);

    assert!(matches!(result, Err(OpcodeError::InvalidJumpDestination)));
}

#[test]
fn test_mload_mstore_large_offset() {
    let mut stack = Stack::new();
    let mut memory = Memory::new();

    // Store at large offset
    let offset = 1024u64;
    stack.push(U256::from(0xDEADBEEFu64)).unwrap();
    stack.push(U256::from(offset)).unwrap();
    mstore(&mut stack, &mut memory).unwrap();

    // Load it back
    stack.push(U256::from(offset)).unwrap();
    mload(&mut stack, &mut memory).unwrap();

    assert_eq!(stack.pop().unwrap(), U256::from(0xDEADBEEFu64));
}

#[test]
fn test_sload_multiple_keys() {
    let mut stack = Stack::new();
    let mut storage = Storage::new();

    // Store multiple values
    for i in 0u64..10 {
        stack.push(U256::from(i * 100)).unwrap();
        stack.push(U256::from(i)).unwrap();
        sstore(&mut stack, &mut storage).unwrap();
    }

    // Load them all back
    for i in 0u64..10 {
        stack.push(U256::from(i)).unwrap();
        sload(&mut stack, &storage).unwrap();
        assert_eq!(stack.pop().unwrap(), U256::from(i * 100));
    }
}

#[test]
fn test_push_all_sizes() {
    for n in 1..=32 {
        let mut stack = Stack::new();
        let mut bytecode = vec![0x5F + n as u8]; // PUSH opcode
        bytecode.extend_from_slice(&vec![0xFF; n]);

        push_n(&mut stack, &bytecode, 0, n).unwrap();

        let result = stack.pop().unwrap();
        // For n bytes of 0xFF, result should be 2^(8n) - 1
        let mut expected = U256::zero();
        for _ in 0..n {
            expected = expected.shl_bits(8).bitor(U256::from(0xFFu64));
        }
        assert_eq!(result, expected);
    }
}

#[test]
fn test_dup_invalid_n() {
    let mut stack = Stack::new();
    stack.push(U256::from(42u64)).unwrap();

    assert!(dup_n(&mut stack, 0).is_err());
    assert!(dup_n(&mut stack, 17).is_err());
}

#[test]
fn test_swap_invalid_n() {
    let mut stack = Stack::new();
    stack.push(U256::from(1u64)).unwrap();
    stack.push(U256::from(2u64)).unwrap();

    assert!(swap_n(&mut stack, 0).is_err());
    assert!(swap_n(&mut stack, 17).is_err());
}

#[test]
fn test_complex_jump_pattern() {
    // Test a more complex bytecode with multiple jumps
    let bytecode = vec![
        0x5B, // 0: JUMPDEST
        0x60, 0x06, // 1-2: PUSH1 6
        0x56, // 3: JUMP
        0x00, // 4: STOP (dead code)
        0x00, // 5: STOP (dead code)
        0x5B, // 6: JUMPDEST
        0x60, 0x0A, // 7-8: PUSH1 10
        0x57, // 9: JUMPI
        0x5B, // 10: JUMPDEST
    ];

    let jumpdests = analyze_jumpdests(&bytecode);
    assert_eq!(jumpdests.len(), 3);
    assert!(jumpdests.contains(&0));
    assert!(jumpdests.contains(&6));
    assert!(jumpdests.contains(&10));
}

#[test]
fn test_memory_expansion_multiple_stores() {
    let mut stack = Stack::new();
    let mut memory = Memory::new();

    // Store at multiple offsets
    for i in 0u64..5 {
        stack.push(U256::from(i * 111)).unwrap();
        stack.push(U256::from(i * 32)).unwrap();
        mstore(&mut stack, &mut memory).unwrap();
    }

    // Verify memory size expanded correctly
    msize(&mut stack, &memory).unwrap();
    assert_eq!(stack.pop().unwrap(), U256::from(160u64)); // 5 * 32 = 160 bytes
}

