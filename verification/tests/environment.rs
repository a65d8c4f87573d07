use claudeth::crypto::keccak::keccak256;
use claudeth::evm::host::NullHost;
use claudeth::evm::memory::Memory;
use claudeth::evm::opcodes::control::OpcodeError;
use claudeth::evm::opcodes::environment::{
    address, balance, basefee, blockhash_with_host, calldatacopy, calldataload, calldatasize,
    caller, callvalue, chainid, codecopy, codesize, coinbase, difficulty, execute_create,
    execute_selfdestruct, extcodecopy, extcodehash, extcodesize, gaslimit, gasprice, number,
    op_return, origin, returndatacopy, returndatasize, revert, selfbalance, sha3, timestamp,
    BlockContext, BlockContextParams, CallEnv, ContractContext, TxContext,
};
use claudeth::evm::opcodes::utils::address_to_u256;
use claudeth::evm::stack::Stack;
use claudeth::state::InMemoryState;
use claudeth::types::{Address, U256};

fn create_block_context() -> BlockContext {
    BlockContext::new(BlockContextParams {
        coinbase: Address::from([0x42; 20]),
        timestamp: U256::from_u64(1234567890),
        number: U256::from_u64(1000),
        difficulty: U256::from_u64(12345),
        gas_limit: U256::from_u64(30_000_000),
        chain_id: U256::from_u64(1),
        base_fee: U256::from_u64(100),
        excess_blob_gas: None,
    })
}

fn create_tx_context() -> TxContext {
    TxContext::new(Address::from([0x11; 20]), U256::from_u64(20_000_000_000))
}

fn create_contract_context() -> ContractContext {
    ContractContext::new(
        Address::from([0xAA; 20]),
        Address::from([0xBB; 20]),
        U256::from_u64(1_000_000),
        vec![0x12, 0x34, 0x56, 0x78],
        vec![0x60, 0x00, 0x60, 0x00],
    )
}

#[test]
fn test_coinbase() {
    let mut stack = Stack::new();
    let block_ctx = create_block_context();

    coinbase(&mut stack, &block_ctx).unwrap();

    let result = stack.pop().unwrap();
    assert_eq!(result, address_to_u256(&block_ctx.coinbase));
}

#[test]
fn test_timestamp() {
    let mut stack = Stack::new();
    let block_ctx = create_block_context();

    timestamp(&mut stack, &block_ctx).unwrap();

    assert_eq!(stack.pop().unwrap(), U256::from_u64(1234567890));
}

#[test]
fn test_number() {
    let mut stack = Stack::new();
    let block_ctx = create_block_context();

    number(&mut stack, &block_ctx).unwrap();

    assert_eq!(stack.pop().unwrap(), U256::from_u64(1000));
}

#[test]
fn test_difficulty() {
    let mut stack = Stack::new();
    let block_ctx = create_block_context();

    difficulty(&mut stack, &block_ctx).unwrap();

    assert_eq!(stack.pop().unwrap(), U256::from_u64(12345));
}

#[test]
fn test_gaslimit() {
    let mut stack = Stack::new();
    let block_ctx = create_block_context();

    gaslimit(&mut stack, &block_ctx).unwrap();

    assert_eq!(stack.pop().unwrap(), U256::from_u64(30_000_000));
}

#[test]
fn test_chainid() {
    let mut stack = Stack::new();
    let block_ctx = create_block_context();

    chainid(&mut stack, &block_ctx).unwrap();

    assert_eq!(stack.pop().unwrap(), U256::from_u64(1));
}

#[test]
fn test_basefee() {
    let mut stack = Stack::new();
    let block_ctx = create_block_context();

    basefee(&mut stack, &block_ctx).unwrap();

    assert_eq!(stack.pop().unwrap(), U256::from_u64(100));
}

#[test]
fn test_blockhash() {

    let mut stack = Stack::new();
    let host = NullHost;

    stack.push(U256::from_u64(999)).unwrap();
    blockhash_with_host::<InMemoryState, _>(&mut stack, &host).unwrap();

    // NullHost returns None -> zero hash
    assert_eq!(stack.pop().unwrap(), U256::zero());
}

#[test]
fn test_origin() {
    let mut stack = Stack::new();
    let tx_ctx = create_tx_context();

    origin(&mut stack, &tx_ctx).unwrap();

    let result = stack.pop().unwrap();
    assert_eq!(result, address_to_u256(&tx_ctx.origin));
}

#[test]
fn test_gasprice() {
    let mut stack = Stack::new();
    let tx_ctx = create_tx_context();

    gasprice(&mut stack, &tx_ctx).unwrap();

    assert_eq!(stack.pop().unwrap(), U256::from_u64(20_000_000_000));
}

#[test]
fn test_address() {
    let mut stack = Stack::new();
    let contract_ctx = create_contract_context();

    address(&mut stack, &contract_ctx).unwrap();

    let result = stack.pop().unwrap();
    assert_eq!(result, address_to_u256(&contract_ctx.address));
}

#[test]
fn test_caller() {
    let mut stack = Stack::new();
    let contract_ctx = create_contract_context();

    caller(&mut stack, &contract_ctx).unwrap();

    let result = stack.pop().unwrap();
    assert_eq!(result, address_to_u256(&contract_ctx.caller));
}

#[test]
fn test_callvalue() {
    let mut stack = Stack::new();
    let contract_ctx = create_contract_context();

    callvalue(&mut stack, &contract_ctx).unwrap();

    assert_eq!(stack.pop().unwrap(), U256::from_u64(1_000_000));
}

#[test]
fn test_calldataload() {
    let mut stack = Stack::new();
    let contract_ctx = create_contract_context();

    stack.push(U256::zero()).unwrap();
    calldataload(&mut stack, &contract_ctx).unwrap();

    let result = stack.pop().unwrap();
    let expected = {
        let mut data = [0u8; 32];
        data[0] = 0x12;
        data[1] = 0x34;
        data[2] = 0x56;
        data[3] = 0x78;
        U256::from_be_bytes(data)
    };
    assert_eq!(result, expected);
}

#[test]
fn test_calldataload_offset() {
    let mut stack = Stack::new();
    let contract_ctx = create_contract_context();

    stack.push(U256::from_u64(2)).unwrap();
    calldataload(&mut stack, &contract_ctx).unwrap();

    let result = stack.pop().unwrap();
    let expected = {
        let mut data = [0u8; 32];
        data[0] = 0x56;
        data[1] = 0x78;
        U256::from_be_bytes(data)
    };
    assert_eq!(result, expected);
}

#[test]
fn test_calldataload_beyond_end() {
    let mut stack = Stack::new();
    let contract_ctx = create_contract_context();

    stack.push(U256::from_u64(100)).unwrap();
    calldataload(&mut stack, &contract_ctx).unwrap();

    assert_eq!(stack.pop().unwrap(), U256::zero());
}

#[test]
fn test_calldatasize() {
    let mut stack = Stack::new();
    let contract_ctx = create_contract_context();

    calldatasize(&mut stack, &contract_ctx).unwrap();

    assert_eq!(stack.pop().unwrap(), U256::from_u64(4));
}

#[test]
fn test_calldatacopy() {
    let mut stack = Stack::new();
    let mut memory = Memory::new();
    let contract_ctx = create_contract_context();

    stack.push(U256::from_u64(4)).unwrap(); // size
    stack.push(U256::zero()).unwrap(); // offset
    stack.push(U256::zero()).unwrap(); // dest_offset
    calldatacopy(&mut stack, &mut memory, &contract_ctx).unwrap();

    let result = memory.mload(0).unwrap();
    let expected = {
        let mut data = [0u8; 32];
        data[0] = 0x12;
        data[1] = 0x34;
        data[2] = 0x56;
        data[3] = 0x78;
        U256::from_be_bytes(data)
    };
    assert_eq!(result, expected);
}

#[test]
fn test_calldatacopy_partial() {
    let mut stack = Stack::new();
    let mut memory = Memory::new();
    let contract_ctx = create_contract_context();

    stack.push(U256::from_u64(2)).unwrap(); // size
    stack.push(U256::from_u64(1)).unwrap(); // offset
    stack.push(U256::from_u64(10)).unwrap(); // dest_offset
    calldatacopy(&mut stack, &mut memory, &contract_ctx).unwrap();

    let result = memory.mload(0).unwrap();
    let bytes = result.to_be_bytes();
    assert_eq!(bytes[10], 0x34);
    assert_eq!(bytes[11], 0x56);
}

#[test]
fn test_calldatacopy_beyond_end() {
    let mut stack = Stack::new();
    let mut memory = Memory::new();
    let contract_ctx = create_contract_context();

    stack.push(U256::from_u64(10)).unwrap(); // size (beyond call data)
    stack.push(U256::from_u64(2)).unwrap(); // offset
    stack.push(U256::zero()).unwrap(); // dest_offset
    calldatacopy(&mut stack, &mut memory, &contract_ctx).unwrap();

    let result = memory.mload(0).unwrap();
    let bytes = result.to_be_bytes();
    assert_eq!(bytes[0], 0x56);
    assert_eq!(bytes[1], 0x78);
    assert_eq!(bytes[2], 0x00); // Zero padding
}

#[test]
fn test_codesize() {
    let mut stack = Stack::new();
    let contract_ctx = create_contract_context();

    codesize(&mut stack, &contract_ctx).unwrap();

    assert_eq!(stack.pop().unwrap(), U256::from_u64(4));
}

#[test]
fn environment_test_codecopy() {
    let mut stack = Stack::new();
    let mut memory = Memory::new();
    let contract_ctx = create_contract_context();

    stack.push(U256::from_u64(4)).unwrap(); // size
    stack.push(U256::zero()).unwrap(); // offset
    stack.push(U256::zero()).unwrap(); // dest_offset
    codecopy(&mut stack, &mut memory, &contract_ctx).unwrap();

    let result = memory.mload(0).unwrap();
    let expected = {
        let mut data = [0u8; 32];
        data[0] = 0x60;
        data[1] = 0x00;
        data[2] = 0x60;
        data[3] = 0x00;
        U256::from_be_bytes(data)
    };
    assert_eq!(result, expected);
}

#[test]
fn test_returndatasize() {
    let mut stack = Stack::new();
    let mut contract_ctx = create_contract_context();
    contract_ctx.return_data = vec![0xAA, 0xBB, 0xCC];

    returndatasize(&mut stack, &contract_ctx).unwrap();

    assert_eq!(stack.pop().unwrap(), U256::from_u64(3));
}

#[test]
fn test_returndatacopy() {
    let mut stack = Stack::new();
    let mut memory = Memory::new();
    let mut contract_ctx = create_contract_context();
    contract_ctx.return_data = vec![0xAA, 0xBB, 0xCC, 0xDD];

    stack.push(U256::from_u64(3)).unwrap(); // size
    stack.push(U256::from_u64(1)).unwrap(); // offset
    stack.push(U256::zero()).unwrap(); // dest_offset
    returndatacopy(&mut stack, &mut memory, &contract_ctx).unwrap();

    let result = memory.mload(0).unwrap();
    let bytes = result.to_be_bytes();
    assert_eq!(bytes[0], 0xBB);
    assert_eq!(bytes[1], 0xCC);
    assert_eq!(bytes[2], 0xDD);
}

#[test]
fn environment_test_returndatacopy_out_of_bounds() {
    let mut stack = Stack::new();
    let mut memory = Memory::new();
    let mut contract_ctx = create_contract_context();
    contract_ctx.return_data = vec![0xAA, 0xBB];

    stack.push(U256::from_u64(5)).unwrap(); // size (exceeds return data)
    stack.push(U256::zero()).unwrap(); // offset
    stack.push(U256::zero()).unwrap(); // dest_offset

    let result = returndatacopy(&mut stack, &mut memory, &contract_ctx);
    assert_eq!(result, Err(OpcodeError::InvalidOffset));
}

#[test]
fn test_balance() {

    let mut stack = Stack::new();
    let state = InMemoryState::new();
    let mut gas = 10_000u64;

    stack
        .push(address_to_u256(&Address::from([0x12; 20])))
        .unwrap();
    balance::<InMemoryState>(&mut stack, &state, false, &mut gas).unwrap();

    // Empty state returns zero
    assert_eq!(stack.pop().unwrap(), U256::zero());
}

#[test]
fn test_extcodesize() {

    let mut stack = Stack::new();
    let state = InMemoryState::new();
    let mut gas = 10_000u64;

    stack
        .push(address_to_u256(&Address::from([0x12; 20])))
        .unwrap();
    extcodesize::<InMemoryState>(&mut stack, &state, false, &mut gas).unwrap();

    // No code returns zero
    assert_eq!(stack.pop().unwrap(), U256::zero());
}

#[test]
fn test_extcodecopy() {

    let mut stack = Stack::new();
    let mut memory = Memory::new();
    let state = InMemoryState::new();
    let mut gas = 10_000u64;

    stack.push(U256::from_u64(10)).unwrap(); // size
    stack.push(U256::zero()).unwrap(); // offset
    stack.push(U256::zero()).unwrap(); // dest_offset
    stack
        .push(address_to_u256(&Address::from([0x12; 20])))
        .unwrap(); // address
    extcodecopy::<InMemoryState>(&mut stack, &state, &mut memory, false, &mut gas).unwrap();

    // No code fills with zeros
    let result = memory.mload(0).unwrap();
    assert_eq!(result, U256::zero());
}

#[test]
fn test_extcodehash() {

    let mut stack = Stack::new();
    let state = InMemoryState::new();
    let mut gas = 10_000u64;

    stack
        .push(address_to_u256(&Address::from([0x12; 20])))
        .unwrap();
    extcodehash::<InMemoryState>(&mut stack, &state, false, &mut gas).unwrap();

    // Empty account returns EMPTY_CODE_HASH (keccak256 of empty)
    let empty_hash = keccak256(&[]);
    let mut bytes = [0u8; 32];
    bytes.copy_from_slice(empty_hash.as_bytes());
    assert_eq!(stack.pop().unwrap(), U256::from_be_bytes(bytes));
}

#[test]
fn test_selfbalance() {

    let mut stack = Stack::new();
    let state = InMemoryState::new();
    let addr = Address::from([0x42; 20]);

    selfbalance::<InMemoryState>(&mut stack, &state, addr).unwrap();

    // Empty state returns zero
    assert_eq!(stack.pop().unwrap(), U256::zero());
}

#[test]
fn test_sha3_empty() {
    let mut stack = Stack::new();
    let mut memory = Memory::new();

    stack.push(U256::zero()).unwrap(); // size
    stack.push(U256::zero()).unwrap(); // offset
    sha3(&mut stack, &mut memory).unwrap();

    let result = stack.pop().unwrap();
    let expected_hash = keccak256(&[]);
    assert_eq!(result, U256::from_be_bytes(*expected_hash.as_bytes()));
}

#[test]
fn test_sha3_data() {
    let mut stack = Stack::new();
    let mut memory = Memory::new();

    // Store some data in memory
    let data = U256::from_be_bytes([0xFF; 32]);
    memory.mstore(0, data).unwrap();

    stack.push(U256::from_u64(32)).unwrap(); // size
    stack.push(U256::zero()).unwrap(); // offset
    sha3(&mut stack, &mut memory).unwrap();

    let result = stack.pop().unwrap();
    // Verify it's not zero (actual hash computed)
    assert_ne!(result, U256::zero());
}

#[test]
fn environment_test_return_empty() {
    let mut stack = Stack::new();
    let mut memory = Memory::new();

    stack.push(U256::zero()).unwrap(); // size
    stack.push(U256::zero()).unwrap(); // offset
    let data = op_return(&mut stack, &mut memory).unwrap();

    assert_eq!(data.len(), 0);
}

#[test]
fn test_return_data() {
    let mut stack = Stack::new();
    let mut memory = Memory::new();

    // Store some data in memory
    let value = U256::from_u64(0xDEADBEEF);
    memory.mstore(0, value).unwrap();

    stack.push(U256::from_u64(4)).unwrap(); // size
    stack.push(U256::from_u64(28)).unwrap(); // offset (last 4 bytes of the word)
    let data = op_return(&mut stack, &mut memory).unwrap();

    assert_eq!(data.len(), 4);
    assert_eq!(data[0], 0xDE);
    assert_eq!(data[1], 0xAD);
    assert_eq!(data[2], 0xBE);
    assert_eq!(data[3], 0xEF);
}

#[test]
fn test_revert_empty() {
    let mut stack = Stack::new();
    let mut memory = Memory::new();

    stack.push(U256::zero()).unwrap(); // size
    stack.push(U256::zero()).unwrap(); // offset
    let data = revert(&mut stack, &mut memory).unwrap();

    assert_eq!(data.len(), 0);
}

#[test]
fn test_revert_data() {
    let mut stack = Stack::new();
    let mut memory = Memory::new();

    // Store some data in memory
    let value = U256::from_u64(0xBADC0DE);
    memory.mstore(0, value).unwrap();

    stack.push(U256::from_u64(4)).unwrap(); // size
    stack.push(U256::from_u64(28)).unwrap(); // offset
    let data = revert(&mut stack, &mut memory).unwrap();

    assert_eq!(data.len(), 4);
}

#[test]
fn test_execute_create_with_null_host() {

    let mut stack = Stack::new();
    let mut memory = Memory::new();
    let mut state = InMemoryState::new();
    let mut host = NullHost;
    let mut gas = 100_000u64;
    let mut return_data = Vec::new();
    let call_env = CallEnv {
        self_address: Address::from([0xAA; 20]),
        caller: Address::from([0xBB; 20]),
        call_value: U256::zero(),
    };

    stack.push(U256::from_u64(0)).unwrap(); // size
    stack.push(U256::from_u64(0)).unwrap(); // offset
    stack.push(U256::zero()).unwrap(); // value
    execute_create::<InMemoryState, _>(
        &mut state,
        &mut host,
        &mut stack,
        &mut memory,
        &call_env,
        &mut gas,
        &mut return_data,
    )
    .unwrap();
    // NullHost returns failure -> 0 on stack
    assert_eq!(stack.pop().unwrap(), U256::zero());
}

#[test]
fn test_execute_selfdestruct() {

    let mut stack = Stack::new();
    let mut state = InMemoryState::new();
    let self_addr = Address::from([0xAA; 20]);
    let beneficiary = Address::from([0xBB; 20]);

    stack.push(address_to_u256(&beneficiary)).unwrap();
    execute_selfdestruct::<InMemoryState>(&mut state, &mut stack, self_addr).unwrap();
}

#[test]
fn test_calldataload_empty_calldata() {
    let mut stack = Stack::new();
    let mut contract_ctx = create_contract_context();
    contract_ctx.call_data = Vec::new();

    stack.push(U256::zero()).unwrap();
    calldataload(&mut stack, &contract_ctx).unwrap();

    assert_eq!(stack.pop().unwrap(), U256::zero());
}

#[test]
fn test_codecopy_empty_code() {
    let mut stack = Stack::new();
    let mut memory = Memory::new();
    let mut contract_ctx = create_contract_context();
    contract_ctx.code = Vec::new();

    stack.push(U256::from_u64(10)).unwrap(); // size
    stack.push(U256::zero()).unwrap(); // offset
    stack.push(U256::zero()).unwrap(); // dest_offset
    codecopy(&mut stack, &mut memory, &contract_ctx).unwrap();

    // Should fill with zeros
    let result = memory.mload(0).unwrap();
    assert_eq!(result, U256::zero());
}

#[test]
fn test_sha3_large_data() {
    let mut stack = Stack::new();
    let mut memory = Memory::new();

    // Store multiple words
    for i in 0..10 {
        memory.mstore(i * 32, U256::from_u64(i as u64)).unwrap();
    }

    stack.push(U256::from_u64(320)).unwrap(); // 10 words
    stack.push(U256::zero()).unwrap();
    sha3(&mut stack, &mut memory).unwrap();

    let result = stack.pop().unwrap();
    assert_ne!(result, U256::zero());
}

#[test]
fn test_context_cloning() {
    let block_ctx = create_block_context();
    let block_ctx_clone = block_ctx.clone();
    assert_eq!(block_ctx.timestamp, block_ctx_clone.timestamp);

    let tx_ctx = create_tx_context();
    let tx_ctx_clone = tx_ctx.clone();
    assert_eq!(tx_ctx.gas_price, tx_ctx_clone.gas_price);

    let contract_ctx = create_contract_context();
    let contract_ctx_clone = contract_ctx.clone();
    assert_eq!(contract_ctx.call_value, contract_ctx_clone.call_value);
}

