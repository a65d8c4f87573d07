//! EVM memory: loads, stores, copies, growth and its cost.

use claudeth::evm::memory::Memory;
use claudeth::types::U256;

#[test]
fn test_memory_new() {
    let mem = Memory::new();
    assert_eq!(mem.msize(), 0);
}

#[test]
fn test_memory_default() {
    let mem = Memory::default();
    assert_eq!(mem.msize(), 0);
}

#[test]
fn test_mstore_and_mload() {
    let mut mem = Memory::new();
    let value = U256::from(0x123456789abcdef0u64);

    mem.mstore(0, value).unwrap();
    assert_eq!(mem.msize(), 32);

    let loaded = mem.mload(0).unwrap();
    assert_eq!(loaded, value);
}

#[test]
fn test_mstore_at_offset() {
    let mut mem = Memory::new();
    let value = U256::from(42u64);

    mem.mstore(64, value).unwrap();
    assert_eq!(mem.msize(), 96); // 64 + 32

    let loaded = mem.mload(64).unwrap();
    assert_eq!(loaded, value);
}

#[test]
fn memory_test_mstore8_basic() {
    let mut mem = Memory::new();

    mem.mstore8(0, 0xFF).unwrap();
    assert_eq!(mem.msize(), 1);

    let loaded = mem.mload(0).unwrap();
    let bytes = loaded.to_be_bytes();
    assert_eq!(bytes[0], 0xFF);
    assert_eq!(bytes[1], 0x00); // Rest should be zero
}

#[test]
fn test_mstore8_multiple_bytes() {
    let mut mem = Memory::new();

    mem.mstore8(0, 0xAA).unwrap();
    mem.mstore8(1, 0xBB).unwrap();
    mem.mstore8(2, 0xCC).unwrap();

    let loaded = mem.mload(0).unwrap();
    let bytes = loaded.to_be_bytes();
    assert_eq!(bytes[0], 0xAA);
    assert_eq!(bytes[1], 0xBB);
    assert_eq!(bytes[2], 0xCC);
}

#[test]
fn test_mload_expands_with_zeros() {
    let mut mem = Memory::new();

    // Load from uninitialized memory
    let loaded = mem.mload(0).unwrap();
    assert_eq!(loaded, U256::zero());
    assert_eq!(mem.msize(), 32);
}

#[test]
fn test_mload_partial_overlap() {
    let mut mem = Memory::new();
    let value = U256::from(0xFFFFFFFFFFFFFFFFu64);

    mem.mstore(0, value).unwrap();

    // Load overlapping with first store (offset 16)
    // The U256 value has 0xFF in the last 8 bytes (little-endian in value, but stored big-endian)
    // When stored at offset 0, bytes 24-31 will have 0xFF
    // When we load at offset 16, we read bytes 16-47
    // Bytes 16-23 should be 0x00 (from the stored value's high bytes)
    // Bytes 24-31 should be 0xFF (from the stored value's low bytes)
    // Bytes 32-47 should be 0x00 (expanded memory)
    let loaded = mem.mload(16).unwrap();
    let bytes = loaded.to_be_bytes();

    // Bytes 0-7 of loaded value come from bytes 16-23 of memory (zeros from high part of U256)
    assert_eq!(bytes[0], 0x00);
    // Bytes 8-15 of loaded value come from bytes 24-31 of memory (0xFF from U256 low bytes)
    assert_eq!(bytes[8], 0xFF);
    // Bytes 16-31 of loaded value come from bytes 32-47 of memory (expanded zeros)
    assert_eq!(bytes[16], 0x00);
}

#[test]
fn test_expand_from_zero() {
    let mut mem = Memory::new();

    let gas = mem.expand(32).unwrap();
    assert_eq!(mem.msize(), 32);

    // Expected: words=1, cost = 1²/512 + 3*1 = 0 + 3 = 3
    assert_eq!(gas, 3);
}

#[test]
fn test_expand_multiple_words() {
    let mut mem = Memory::new();

    // Expand to 64 bytes (2 words)
    let gas = mem.expand(64).unwrap();
    assert_eq!(mem.msize(), 64);

    // Expected: words=2, cost = 2²/512 + 3*2 = 0 + 6 = 6
    assert_eq!(gas, 6);
}

#[test]
fn test_expand_with_rounding() {
    let mut mem = Memory::new();

    // Expand to 33 bytes (should round up to 2 words = 64 bytes of gas cost)
    let gas = mem.expand(33).unwrap();
    assert_eq!(mem.msize(), 33);

    // Expected: words=2 (rounded up), cost = 2²/512 + 3*2 = 0 + 6 = 6
    assert_eq!(gas, 6);
}

#[test]
fn test_expand_large_memory() {
    let mut mem = Memory::new();

    // Expand to 1024 bytes (32 words)
    let gas = mem.expand(1024).unwrap();
    assert_eq!(mem.msize(), 1024);

    // Expected: words=32, cost = 32²/512 + 3*32 = 1024/512 + 96 = 2 + 96 = 98
    assert_eq!(gas, 98);
}

#[test]
fn test_expand_no_shrink() {
    let mut mem = Memory::new();

    mem.expand(64).unwrap();
    let gas = mem.expand(32).unwrap();

    // Memory should not shrink
    assert_eq!(mem.msize(), 64);

    // Gas cost is for current size (64 bytes)
    assert_eq!(gas, 6);
}

#[test]
fn test_memory_gas_cost_formula() {
    // Test the gas cost formula directly
    assert_eq!(Memory::memory_gas_cost(0), 0);
    assert_eq!(Memory::memory_gas_cost(32), 3); // 1 word
    assert_eq!(Memory::memory_gas_cost(64), 6); // 2 words
    assert_eq!(Memory::memory_gas_cost(96), 9); // 3 words
    assert_eq!(Memory::memory_gas_cost(1024), 98); // 32 words
}

#[test]
fn test_memory_gas_cost_quadratic() {
    // Verify quadratic growth
    let cost_1k = Memory::memory_gas_cost(1024); // 32 words
    let cost_2k = Memory::memory_gas_cost(2048); // 64 words

    // Cost should more than double (quadratic component)
    assert!(cost_2k > cost_1k * 2);

    // Exact values:
    // 32 words: 32²/512 + 3*32 = 2 + 96 = 98
    // 64 words: 64²/512 + 3*64 = 8 + 192 = 200
    assert_eq!(cost_1k, 98);
    assert_eq!(cost_2k, 200);
}

#[test]
fn test_copy_basic() {
    let mut mem = Memory::new();

    // Write data to source
    mem.mstore(0, U256::from(0xDEADBEEFu64)).unwrap();

    // Copy to different location
    mem.copy(64, 0, 32).unwrap();

    // Verify source is unchanged
    assert_eq!(mem.mload(0).unwrap(), U256::from(0xDEADBEEFu64));

    // Verify destination has copied data
    assert_eq!(mem.mload(64).unwrap(), U256::from(0xDEADBEEFu64));
}

#[test]
fn test_copy_zero_length() {
    let mut mem = Memory::new();

    mem.mstore(0, U256::from(42u64)).unwrap();
    mem.copy(32, 0, 0).unwrap();

    // Memory size should not change beyond initial store
    assert_eq!(mem.msize(), 32);
}

#[test]
fn test_copy_overlapping_forward() {
    let mut mem = Memory::new();

    // Set up initial data
    mem.mstore8(0, 0xAA).unwrap();
    mem.mstore8(1, 0xBB).unwrap();
    mem.mstore8(2, 0xCC).unwrap();
    mem.mstore8(3, 0xDD).unwrap();

    // Copy forward (overlapping)
    mem.copy(2, 0, 4).unwrap();

    // Check result
    assert_eq!(mem.data[0], 0xAA);
    assert_eq!(mem.data[1], 0xBB);
    assert_eq!(mem.data[2], 0xAA); // Copied from offset 0
    assert_eq!(mem.data[3], 0xBB); // Copied from offset 1
    assert_eq!(mem.data[4], 0xCC); // Copied from offset 2
    assert_eq!(mem.data[5], 0xDD); // Copied from offset 3
}

#[test]
fn test_copy_overlapping_backward() {
    let mut mem = Memory::new();

    // Set up initial data
    // After these operations memory is: [0x00, 0x00, 0xAA, 0xBB, 0xCC, 0xDD]
    mem.mstore8(2, 0xAA).unwrap();
    mem.mstore8(3, 0xBB).unwrap();
    mem.mstore8(4, 0xCC).unwrap();
    mem.mstore8(5, 0xDD).unwrap();

    // Copy backward (overlapping): copy bytes 2-5 to positions 0-3
    mem.copy(0, 2, 4).unwrap();

    // Check result - should be: [0xAA, 0xBB, 0xCC, 0xDD, 0xCC, 0xDD]
    assert_eq!(mem.data[0], 0xAA); // Copied from offset 2
    assert_eq!(mem.data[1], 0xBB); // Copied from offset 3
    assert_eq!(mem.data[2], 0xCC); // Copied from offset 4 (overwrites original 0xAA)
    assert_eq!(mem.data[3], 0xDD); // Copied from offset 5 (overwrites original 0xBB)
    assert_eq!(mem.data[4], 0xCC); // Original
    assert_eq!(mem.data[5], 0xDD); // Original
}

#[test]
fn test_copy_expands_memory() {
    let mut mem = Memory::new();

    mem.mstore8(0, 0xFF).unwrap();

    // Copy to high offset
    mem.copy(100, 0, 1).unwrap();

    // Memory should expand
    assert!(mem.msize() >= 101);
    assert_eq!(mem.data[100], 0xFF);
}

#[test]
fn test_mstore_at_max_safe_offset() {
    let mut mem = Memory::new();

    // Use a large but safe offset
    let offset = 1_000_000;
    mem.mstore(offset, U256::from(42u64)).unwrap();

    assert_eq!(mem.mload(offset).unwrap(), U256::from(42u64));
}

#[test]
fn test_mload_at_offset_zero() {
    let mut mem = Memory::new();

    let loaded = mem.mload(0).unwrap();
    assert_eq!(loaded, U256::zero());
}

#[test]
fn test_mstore8_at_word_boundary() {
    let mut mem = Memory::new();

    mem.mstore8(31, 0xFF).unwrap();
    mem.mstore8(32, 0xAA).unwrap();

    let word0 = mem.mload(0).unwrap();
    let word1 = mem.mload(32).unwrap();

    let bytes0 = word0.to_be_bytes();
    let bytes1 = word1.to_be_bytes();

    assert_eq!(bytes0[31], 0xFF);
    assert_eq!(bytes1[0], 0xAA);
}

#[test]
fn test_multiple_mstore_operations() {
    let mut mem = Memory::new();

    for i in 0..10 {
        mem.mstore(i * 32, U256::from((i + 1) as u64)).unwrap();
    }

    for i in 0..10 {
        assert_eq!(mem.mload(i * 32).unwrap(), U256::from((i + 1) as u64));
    }
}

#[test]
fn test_mstore_overwrite() {
    let mut mem = Memory::new();

    mem.mstore(0, U256::from(111u64)).unwrap();
    mem.mstore(0, U256::from(222u64)).unwrap();

    assert_eq!(mem.mload(0).unwrap(), U256::from(222u64));
}

#[test]
fn test_copy_full_memory() {
    let mut mem = Memory::new();

    // Fill first 64 bytes
    for i in 0..64 {
        mem.mstore8(i, i as u8).unwrap();
    }

    // Copy to second 64 bytes
    mem.copy(64, 0, 64).unwrap();

    // Verify
    for i in 0..64 {
        assert_eq!(mem.data[i], mem.data[64 + i]);
    }
}

#[test]
fn test_memory_expansion_preserves_data() {
    let mut mem = Memory::new();

    mem.mstore(0, U256::from(0xDEADBEEFu64)).unwrap();
    let before = mem.mload(0).unwrap();

    mem.expand(1000).unwrap();

    let after = mem.mload(0).unwrap();
    assert_eq!(before, after);
}

#[test]
fn test_msize_after_operations() {
    let mut mem = Memory::new();
    assert_eq!(mem.msize(), 0);

    mem.mstore(0, U256::zero()).unwrap();
    assert_eq!(mem.msize(), 32);

    mem.mstore8(100, 0).unwrap();
    assert_eq!(mem.msize(), 101);

    mem.copy(200, 0, 32).unwrap();
    assert_eq!(mem.msize(), 232);
}

#[test]
fn test_realistic_evm_scenario() {
    let mut mem = Memory::new();

    // Simulate a contract storing data
    mem.mstore(0x40, U256::from(0x80u64)).unwrap(); // Free memory pointer
    mem.mstore(0x80, U256::from(0x20u64)).unwrap(); // Array length
    mem.mstore(0xa0, U256::from(0xDEADBEEFu64)).unwrap(); // Array data

    // Verify all stores
    assert_eq!(mem.mload(0x40).unwrap(), U256::from(0x80u64));
    assert_eq!(mem.mload(0x80).unwrap(), U256::from(0x20u64));
    assert_eq!(mem.mload(0xa0).unwrap(), U256::from(0xDEADBEEFu64));
}

#[test]
fn test_memory_clone() {
    let mut mem1 = Memory::new();
    mem1.mstore(0, U256::from(42u64)).unwrap();

    let mut mem2 = mem1.clone();

    assert_eq!(mem1.mload(0).unwrap(), mem2.mload(0).unwrap());
}

#[test]
fn test_memory_equality() {
    let mut mem1 = Memory::new();
    let mut mem2 = Memory::new();

    mem1.mstore(0, U256::from(42u64)).unwrap();
    mem2.mstore(0, U256::from(42u64)).unwrap();

    assert_eq!(mem1, mem2);
}

#[test]
fn test_large_offset_with_small_copy() {
    let mut mem = Memory::new();

    // Write at high offset
    mem.mstore(10000, U256::from(123u64)).unwrap();

    // Copy small amount
    mem.copy(20000, 10000, 32).unwrap();

    assert_eq!(mem.mload(20000).unwrap(), U256::from(123u64));
}

#[test]
fn test_gas_cost_edge_cases() {
    assert_eq!(Memory::memory_gas_cost(1), 3); // 1 byte = 1 word
    assert_eq!(Memory::memory_gas_cost(31), 3); // 31 bytes = 1 word
    assert_eq!(Memory::memory_gas_cost(32), 3); // 32 bytes = 1 word
    assert_eq!(Memory::memory_gas_cost(33), 6); // 33 bytes = 2 words
}

#[test]
fn test_expand_returns_total_cost_not_delta() {
    let mut mem = Memory::new();

    let cost1 = mem.expand(32).unwrap();
    assert_eq!(cost1, 3);

    let cost2 = mem.expand(64).unwrap();
    assert_eq!(cost2, 6); // Total cost, not delta
}

