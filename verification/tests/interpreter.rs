//! Whole-program execution: arithmetic, stack, memory, control flow, gas,
//! environment, state, logs, and nested calls through a host.

use claudeth::evm::host::{
    CallKind, CallMessage, CallPlan, CallResult, CreateMessage, CreatePlan, CreateResult, Host,
    NullHost, RecursiveHost,
};
use claudeth::evm::interpreter::{
    execute_bytecode, execute_bytecode_with_host, execute_bytecode_with_host_and_contexts,
    BlockContext, CallContext, Evm, EvmError, TxContext,
};
use claudeth::evm::memory::MemoryError;
use claudeth::evm::stack::StackError;
use claudeth::state::{InMemoryState, State};
use claudeth::types::{Address, U256};
use std::cell::RefCell;
use std::rc::Rc;

/// A host that records the last call and creation and answers with canned results.
#[derive(Debug, Default)]
struct TestHost {
    last_call: Option<CallMessage>,
    last_create: Option<CreateMessage>,
    call_result: CallResult,
    create_result: CreateResult,
    blockhash: Option<claudeth::types::Hash>,
    blobhash: Option<claudeth::types::Hash>,
    blobbasefee: U256,
}

/// A shared handle on a `TestHost`, so the test can inspect it after the run.
#[derive(Clone)]
struct SharedHost(Rc<RefCell<TestHost>>);

impl Host<InMemoryState> for SharedHost {
    fn call(&mut self, _state: &mut InMemoryState, msg: CallMessage) -> CallResult {
        let mut inner = self.0.borrow_mut();
        inner.last_call = Some(msg);
        inner.call_result.clone()
    }

    fn create(&mut self, _state: &mut InMemoryState, msg: CreateMessage) -> CreateResult {
        let mut inner = self.0.borrow_mut();
        inner.last_create = Some(msg);
        inner.create_result.clone()
    }

    fn blockhash(&self, number: &U256) -> Option<claudeth::types::Hash> {
        let inner = self.0.borrow();
        inner.blockhash.filter(|_| !number.is_zero())
    }

    fn blobhash(&self, index: &U256) -> Option<claudeth::types::Hash> {
        let inner = self.0.borrow();
        inner.blobhash.filter(|_| !index.is_zero())
    }

    fn blobbasefee(&self) -> U256 {
        self.0.borrow().blobbasefee
    }
}

/// The recursive host, with its nested machines run here.
struct NestingHost(RecursiveHost);

impl<S: State> Host<S> for NestingHost {
    fn call(&mut self, state: &mut S, msg: CallMessage) -> CallResult {
        match self.0.plan_call(state, msg) {
            CallPlan::Done(result) => result,
            CallPlan::Run(frame) => {
                let gas = frame.gas;
                let mut evm = Evm::new(frame.code, frame.gas, frame.state, NestingHost(frame.host))
                    .with_block_context(frame.block_ctx)
                    .with_tx_context(frame.tx_ctx)
                    .with_call_context(frame.call_ctx);
                let outcome = evm.run();
                RecursiveHost::finish_call(state, gas, outcome, evm.state)
            }
        }
    }

    fn create(&mut self, state: &mut S, msg: CreateMessage) -> CreateResult {
        match self.0.plan_create(state, msg) {
            CreatePlan::Done(result) => result,
            CreatePlan::Run(frame, address) => {
                let gas = frame.gas;
                let mut evm = Evm::new(frame.code, frame.gas, frame.state, NestingHost(frame.host))
                    .with_block_context(frame.block_ctx)
                    .with_tx_context(frame.tx_ctx)
                    .with_call_context(frame.call_ctx);
                let outcome = evm.run();
                RecursiveHost::finish_create(state, gas, address, outcome, evm.state)
            }
        }
    }

    fn blockhash(&self, number: &U256) -> Option<claudeth::types::Hash> {
        self.0.block_hash_at(number)
    }

    fn blobhash(&self, index: &U256) -> Option<claudeth::types::Hash> {
        self.0.blob_hash_at(index)
    }

    fn blobbasefee(&self) -> U256 {
        self.0.blob_base_fee()
    }
}

#[test]
fn test_empty_code() {
    let (result, _state) = execute_bytecode(&[], 1000, InMemoryState::new()).unwrap();
    assert!(result.success);
    assert_eq!(result.gas_used, 0);
}

#[test]
fn test_stop() {
    let code = vec![0x00]; // STOP
    let (result, _state) = execute_bytecode(&code, 1000, InMemoryState::new()).unwrap();
    assert!(result.success);
    assert_eq!(result.gas_used, 0);
}

#[test]
fn test_add() {
    // PUSH1 0x02 PUSH1 0x03 ADD STOP
    let code = vec![0x60, 0x02, 0x60, 0x03, 0x01, 0x00];
    let (result, _state) = execute_bytecode(&code, 1000, InMemoryState::new()).unwrap();
    assert!(result.success);
    assert_eq!(result.stack.peek(0).unwrap(), &U256::from_u64(5));
}

#[test]
fn test_mul() {
    // PUSH1 0x03 PUSH1 0x04 MUL STOP
    let code = vec![0x60, 0x03, 0x60, 0x04, 0x02, 0x00];
    let (result, _state) = execute_bytecode(&code, 1000, InMemoryState::new()).unwrap();
    assert!(result.success);
    assert_eq!(result.stack.peek(0).unwrap(), &U256::from_u64(12));
}

#[test]
fn test_push_pop() {
    // PUSH1 0x42 POP STOP
    let code = vec![0x60, 0x42, 0x50, 0x00];
    let (result, _state) = execute_bytecode(&code, 1000, InMemoryState::new()).unwrap();
    assert!(result.success);
    assert_eq!(result.stack.len(), 0);
}

#[test]
fn interpreter_test_dup1() {
    // PUSH1 0x42 DUP1 STOP
    let code = vec![0x60, 0x42, 0x80, 0x00];
    let (result, _state) = execute_bytecode(&code, 1000, InMemoryState::new()).unwrap();
    assert!(result.success);
    assert_eq!(result.stack.len(), 2);
    assert_eq!(result.stack.peek(0).unwrap(), &U256::from_u64(0x42));
    assert_eq!(result.stack.peek(1).unwrap(), &U256::from_u64(0x42));
}

#[test]
fn interpreter_test_swap1() {
    // PUSH1 0x01 PUSH1 0x02 SWAP1 STOP
    let code = vec![0x60, 0x01, 0x60, 0x02, 0x90, 0x00];
    let (result, _state) = execute_bytecode(&code, 1000, InMemoryState::new()).unwrap();
    assert!(result.success);
    assert_eq!(result.stack.peek(0).unwrap(), &U256::from_u64(0x01));
    assert_eq!(result.stack.peek(1).unwrap(), &U256::from_u64(0x02));
}

#[test]
fn test_mstore_mload() {
    // PUSH1 0x42 PUSH1 0x00 MSTORE PUSH1 0x00 MLOAD STOP
    let code = vec![0x60, 0x42, 0x60, 0x00, 0x52, 0x60, 0x00, 0x51, 0x00];
    let (result, _state) = execute_bytecode(&code, 1000, InMemoryState::new()).unwrap();
    assert!(result.success);
    assert_eq!(result.stack.peek(0).unwrap(), &U256::from_u64(0x42));
}

#[test]
fn test_mstore8() {
    // PUSH1 0xFF PUSH1 0x00 MSTORE8 PUSH1 0x00 MLOAD STOP
    let code = vec![0x60, 0xFF, 0x60, 0x00, 0x53, 0x60, 0x00, 0x51, 0x00];
    let (result, _state) = execute_bytecode(&code, 1000, InMemoryState::new()).unwrap();
    assert!(result.success);
    let value = result.stack.peek(0).unwrap();
    let bytes = value.to_be_bytes();
    assert_eq!(bytes[0], 0xFF);
}

#[test]
fn test_jump() {
    // PUSH1 0x05 JUMP INVALID JUMPDEST PUSH1 0x42 STOP
    let code = vec![0x60, 0x05, 0x56, 0xFE, 0xFE, 0x5B, 0x60, 0x42, 0x00];
    let (result, _state) = execute_bytecode(&code, 1000, InMemoryState::new()).unwrap();
    assert!(result.success);
    assert_eq!(result.stack.peek(0).unwrap(), &U256::from_u64(0x42));
}

#[test]
fn interpreter_test_jumpi_taken() {
    // PUSH1 0x01 PUSH1 0x06 JUMPI INVALID JUMPDEST PUSH1 0x42 STOP
    let code = vec![0x60, 0x01, 0x60, 0x06, 0x57, 0xFE, 0x5B, 0x60, 0x42, 0x00];
    let (result, _state) = execute_bytecode(&code, 1000, InMemoryState::new()).unwrap();
    assert!(result.success);
    assert_eq!(result.stack.peek(0).unwrap(), &U256::from_u64(0x42));
}

#[test]
fn interpreter_test_jumpi_not_taken() {
    // PUSH1 0x00 PUSH1 0x06 JUMPI PUSH1 0x99 STOP
    let code = vec![0x60, 0x00, 0x60, 0x06, 0x57, 0x60, 0x99, 0x00];
    let (result, _state) = execute_bytecode(&code, 1000, InMemoryState::new()).unwrap();
    assert!(result.success);
    assert_eq!(result.stack.peek(0).unwrap(), &U256::from_u64(0x99));
}

#[test]
fn test_invalid_jump() {
    // PUSH1 0x03 JUMP STOP
    let code = vec![0x60, 0x03, 0x56, 0x00];
    let result = execute_bytecode(&code, 1000, InMemoryState::new());
    assert!(matches!(result, Err(EvmError::InvalidJump)));
}

#[test]
fn test_out_of_gas() {
    // PUSH1 0x01 ADD (requires at least 6 gas: 3+3)
    let code = vec![0x60, 0x01, 0x01];
    let result = execute_bytecode(&code, 5, InMemoryState::new());
    assert!(matches!(result, Err(EvmError::OutOfGas)));
}

#[test]
fn test_gas_tracking() {
    // PUSH1 0x01 STOP (costs 3 + 0 = 3 gas)
    let code = vec![0x60, 0x01, 0x00];
    let (result, _state) = execute_bytecode(&code, 1000, InMemoryState::new()).unwrap();
    assert!(result.success);
    assert_eq!(result.gas_used, 3);
}

#[test]
fn test_balance_warm_refund() {
    let target = Address::from([0x11; 20]);
    let origin = Address::from([0x22; 20]);
    let call_address = Address::from([0x33; 20]);

    let mut code = Vec::new();
    code.push(0x73); // PUSH20
    code.extend_from_slice(&target.to_bytes());
    code.push(0x31); // BALANCE (cold)
    code.push(0x73); // PUSH20
    code.extend_from_slice(&target.to_bytes());
    code.push(0x31); // BALANCE (warm)
    code.push(0x00); // STOP

    let mut state = InMemoryState::new();
    state.set_balance(&target, U256::from_u64(1));

    let block_ctx = BlockContext::default();
    let tx_ctx = TxContext {
        origin,
        gas_price: U256::one(),
        blob_versioned_hashes: Vec::new(),
    };
    let call_ctx = CallContext {
        address: call_address,
        caller: origin,
        call_value: U256::zero(),
        call_data: Vec::new(),
    };

    let (result, _state) = execute_bytecode_with_host_and_contexts(
        &code, 10_000, state, NullHost, block_ctx, tx_ctx, call_ctx,
    )
    .unwrap();

    assert!(result.success);
    // Gas: PUSH20 (3) + BALANCE cold (2600) + PUSH20 (3) + BALANCE warm (100)
    assert_eq!(result.gas_used, 2706);
}

#[test]
fn test_sstore_cold_warm_gas() {
    // Test SSTORE cold then warm access gas costs (EIP-2929)
    // PUSH1 1 PUSH1 0 SSTORE  (cold)
    // PUSH1 2 PUSH1 0 SSTORE  (warm - same key)
    // STOP
    let code = vec![
        0x60, 0x01, // PUSH1 1 (value)
        0x60, 0x00, // PUSH1 0 (key)
        0x55, // SSTORE (cold: 20000 + 2100 = 22100)
        0x60, 0x02, // PUSH1 2 (value)
        0x60, 0x00, // PUSH1 0 (key)
        0x55, // SSTORE (warm: 20000 + 100 = 20100)
        0x00, // STOP
    ];

    let (result, _state) = execute_bytecode(&code, 100000, InMemoryState::new()).unwrap();
    assert!(result.success);
    // Gas: PUSH1(3) + PUSH1(3) + SSTORE cold SET(20000+2100=22100)
    //      PUSH1(3) + PUSH1(3) + SSTORE warm RESET(2900+100=3000) + STOP(0)
    // Total: 3 + 3 + 22100 + 3 + 3 + 3000 + 0 = 25112
    assert_eq!(result.gas_used, 25112);
}

#[test]
fn interpreter_test_return_empty() {
    // PUSH1 0x00 PUSH1 0x00 RETURN
    let code = vec![0x60, 0x00, 0x60, 0x00, 0xF3];
    let (result, _state) = execute_bytecode(&code, 1000, InMemoryState::new()).unwrap();
    assert!(result.success);
    assert_eq!(result.return_data.len(), 0);
}

#[test]
fn test_revert() {
    // PUSH1 0x00 PUSH1 0x00 REVERT
    let code = vec![0x60, 0x00, 0x60, 0x00, 0xFD];
    let result = execute_bytecode(&code, 1000, InMemoryState::new());
    assert!(matches!(result, Err(EvmError::Revert(_))));
}

#[test]
fn test_invalid_opcode() {
    let code = vec![0xFE]; // INVALID
    let result = execute_bytecode(&code, 1000, InMemoryState::new());
    assert!(matches!(result, Err(EvmError::InvalidOpcode(0xFE))));
}

#[test]
fn test_undefined_opcode() {
    let code = vec![0x0C]; // Undefined
    let result = execute_bytecode(&code, 1000, InMemoryState::new());
    assert!(matches!(result, Err(EvmError::InvalidOpcode(0x0C))));
}

#[test]
fn test_fibonacci_like() {
    // Calculate 1+1, then add result to itself twice
    // PUSH1 0x01 PUSH1 0x01 ADD DUP1 ADD DUP1 ADD STOP
    let code = vec![
        0x60, 0x01, // PUSH1 1
        0x60, 0x01, // PUSH1 1
        0x01, // ADD (result: 2)
        0x80, // DUP1 (stack: 2, 2)
        0x01, // ADD (result: 4)
        0x80, // DUP1 (stack: 4, 4)
        0x01, // ADD (result: 8)
        0x00, // STOP
    ];
    let (result, _state) = execute_bytecode(&code, 1000, InMemoryState::new()).unwrap();
    assert!(result.success);
    assert_eq!(result.stack.peek(0).unwrap(), &U256::from_u64(8));
}

#[test]
fn test_memory_expansion_cost() {
    // Store at high memory offset
    // PUSH1 0x42 PUSH1 0xFF MSTORE STOP
    let code = vec![0x60, 0x42, 0x60, 0xFF, 0x52, 0x00];
    let (result, _state) = execute_bytecode(&code, 1000, InMemoryState::new()).unwrap();
    assert!(result.success);
    assert!(result.gas_used > 6); // Base gas + memory expansion
}

#[test]
fn interpreter_test_codecopy() {
    // Copy 3 bytes of code to memory at offset 0
    // PUSH1 0x03 PUSH1 0x00 PUSH1 0x00 CODECOPY PUSH1 0x00 MLOAD STOP
    let code = vec![
        0x60, 0x03, 0x60, 0x00, 0x60, 0x00, 0x39, 0x60, 0x00, 0x51, 0x00,
    ];
    let (result, _state) = execute_bytecode(&code, 1000, InMemoryState::new()).unwrap();
    assert!(result.success);
    // Memory should contain first 3 bytes of code (0x60, 0x03, 0x60)
    let value = result.stack.peek(0).unwrap();
    let bytes = value.to_be_bytes();
    assert_eq!(bytes[0], 0x60);
    assert_eq!(bytes[1], 0x03);
    assert_eq!(bytes[2], 0x60);
}

#[test]
fn test_address_caller_callvalue() {
    // ADDRESS CALLER CALLVALUE STOP
    let code = vec![0x30, 0x33, 0x34, 0x00];
    let mut evm = Evm::new(code, 1000, InMemoryState::new(), NullHost);
    let address = Address::new([0x11; 20]);
    let caller = Address::new([0x22; 20]);
    let call_value = U256::from_u64(0x1234);
    evm.call_ctx = CallContext {
        address,
        caller,
        call_value,
        call_data: Vec::new(),
    };

    let result = evm.run().unwrap();
    assert!(result.success);
    assert_eq!(
        result.stack.peek(2).unwrap(),
        &claudeth::evm::opcodes::utils::address_to_u256(&address)
    );
    assert_eq!(
        result.stack.peek(1).unwrap(),
        &claudeth::evm::opcodes::utils::address_to_u256(&caller)
    );
    assert_eq!(result.stack.peek(0).unwrap(), &call_value);
}

#[test]
fn test_calldata_load_and_size() {
    // PUSH1 0x00 CALLDATALOAD CALLDATASIZE STOP
    let code = vec![0x60, 0x00, 0x35, 0x36, 0x00];
    let mut evm = Evm::new(code, 1000, InMemoryState::new(), NullHost);
    evm.call_ctx.call_data = vec![0xAA, 0xBB, 0xCC];

    let result = evm.run().unwrap();
    assert!(result.success);
    let value = result.stack.peek(1).unwrap();
    let bytes = value.to_be_bytes();
    assert_eq!(bytes[0], 0xAA);
    assert_eq!(bytes[1], 0xBB);
    assert_eq!(bytes[2], 0xCC);
    assert_eq!(result.stack.peek(0).unwrap(), &U256::from_u64(3));
}

#[test]
fn test_calldata_load_out_of_range() {
    // PUSH1 0x05 CALLDATALOAD STOP
    let code = vec![0x60, 0x05, 0x35, 0x00];
    let mut evm = Evm::new(code, 1000, InMemoryState::new(), NullHost);
    evm.call_ctx.call_data = vec![0xAA, 0xBB, 0xCC];

    let result = evm.run().unwrap();
    assert!(result.success);
    assert_eq!(result.stack.peek(0).unwrap(), &U256::zero());
}

#[test]
fn test_calldatacopy_zero_pad() {
    // Copy 6 bytes of calldata starting at offset 2 into memory at 0.
    // PUSH1 0x06 PUSH1 0x02 PUSH1 0x00 CALLDATACOPY PUSH1 0x00 MLOAD STOP
    let code = vec![
        0x60, 0x06, 0x60, 0x02, 0x60, 0x00, 0x37, 0x60, 0x00, 0x51, 0x00,
    ];
    let mut evm = Evm::new(code, 1000, InMemoryState::new(), NullHost);
    evm.call_ctx.call_data = vec![0xDE, 0xAD, 0xBE, 0xEF];

    let result = evm.run().unwrap();
    assert!(result.success);
    let value = result.stack.peek(0).unwrap();
    let bytes = value.to_be_bytes();
    assert_eq!(bytes[0], 0xBE);
    assert_eq!(bytes[1], 0xEF);
    assert_eq!(bytes[2], 0x00);
    assert_eq!(bytes[3], 0x00);
    assert_eq!(bytes[4], 0x00);
    assert_eq!(bytes[5], 0x00);
}

#[test]
fn test_returndata_size_and_copy() {
    // Copy 4 bytes of returndata into memory at 0, then load and check size.
    // PUSH1 0x04 PUSH1 0x00 PUSH1 0x00 RETURNDATACOPY PUSH1 0x00 MLOAD RETURNDATASIZE STOP
    let code = vec![
        0x60, 0x04, 0x60, 0x00, 0x60, 0x00, 0x3E, 0x60, 0x00, 0x51, 0x3D, 0x00,
    ];
    let mut evm = Evm::new(code, 1000, InMemoryState::new(), NullHost);
    evm.return_data = vec![0x01, 0x02, 0x03, 0x04];

    let result = evm.run().unwrap();
    assert!(result.success);
    let value = result.stack.peek(1).unwrap();
    let bytes = value.to_be_bytes();
    assert_eq!(bytes[0], 0x01);
    assert_eq!(bytes[1], 0x02);
    assert_eq!(bytes[2], 0x03);
    assert_eq!(bytes[3], 0x04);
    assert_eq!(result.stack.peek(0).unwrap(), &U256::from_u64(4));
}

#[test]
fn interpreter_test_returndatacopy_out_of_bounds() {
    // PUSH1 0x04 PUSH1 0x02 PUSH1 0x00 RETURNDATACOPY
    let code = vec![0x60, 0x04, 0x60, 0x02, 0x60, 0x00, 0x3E];
    let mut evm = Evm::new(code, 1000, InMemoryState::new(), NullHost);
    evm.return_data = vec![0x01, 0x02, 0x03, 0x04];

    let result = evm.run();
    assert!(matches!(
        result,
        Err(EvmError::MemoryError(MemoryError::InvalidOffset))
    ));
}

#[test]
fn test_pc_opcode() {
    // PC STOP
    let code = vec![0x58, 0x00];
    let (result, _state) = execute_bytecode(&code, 1000, InMemoryState::new()).unwrap();
    assert!(result.success);
    assert_eq!(result.stack.peek(0).unwrap(), &U256::zero());
}

#[test]
fn test_gas_opcode() {
    // GAS STOP
    let code = vec![0x5A, 0x00];
    let (result, _state) = execute_bytecode(&code, 1000, InMemoryState::new()).unwrap();
    assert!(result.success);
    // Gas should be less than initial (2 gas consumed)
    let remaining = result.stack.peek(0).unwrap();
    assert_eq!(*remaining, U256::from_u64(998));
}

#[test]
fn test_msize() {
    // PUSH1 0x42 PUSH1 0x40 MSTORE MSIZE STOP
    let code = vec![0x60, 0x42, 0x60, 0x40, 0x52, 0x59, 0x00];
    let (result, _state) = execute_bytecode(&code, 1000, InMemoryState::new()).unwrap();
    assert!(result.success);
    // Memory should be expanded to cover offset 0x40 + 32 = 0x60 (96 bytes)
    assert_eq!(result.stack.peek(0).unwrap(), &U256::from_u64(96));
}

#[test]
fn test_bitwise_operations() {
    // PUSH1 0x0F PUSH1 0xF0 AND STOP (0xF0 & 0x0F = 0)
    let code = vec![0x60, 0x0F, 0x60, 0xF0, 0x16, 0x00];
    let (result, _state) = execute_bytecode(&code, 1000, InMemoryState::new()).unwrap();
    assert!(result.success);
    assert_eq!(result.stack.peek(0).unwrap(), &U256::zero());
}

#[test]
fn test_push0() {
    // PUSH0 STOP
    let code = vec![0x5F, 0x00];
    let (result, _state) = execute_bytecode(&code, 1000, InMemoryState::new()).unwrap();
    assert!(result.success);
    assert_eq!(result.stack.peek(0).unwrap(), &U256::zero());
}

#[test]
fn test_push32() {
    // PUSH32 0xFF..FF STOP
    let mut code = vec![0x7F];
    code.extend_from_slice(&[0xFF; 32]);
    code.push(0x00);
    let (result, _state) = execute_bytecode(&code, 1000, InMemoryState::new()).unwrap();
    assert!(result.success);
    assert_eq!(result.stack.peek(0).unwrap(), &U256::max_value());
}

#[test]
fn interpreter_test_dup16() {
    // Push 16 values, then DUP16
    let mut code = Vec::new();
    for i in 1..=16 {
        code.push(0x60); // PUSH1
        code.push(i);
    }
    code.push(0x8F); // DUP16
    code.push(0x00); // STOP

    let (result, _state) = execute_bytecode(&code, 1000, InMemoryState::new()).unwrap();
    assert!(result.success);
    assert_eq!(result.stack.len(), 17);
    assert_eq!(result.stack.peek(0).unwrap(), &U256::one()); // Should duplicate first value
}

#[test]
fn interpreter_test_swap16() {
    // Push 17 values, then SWAP16
    let mut code = Vec::new();
    for i in 1..=17 {
        code.push(0x60); // PUSH1
        code.push(i);
    }
    code.push(0x9F); // SWAP16
    code.push(0x00); // STOP

    let (result, _state) = execute_bytecode(&code, 1000, InMemoryState::new()).unwrap();
    assert!(result.success);
    assert_eq!(result.stack.peek(0).unwrap(), &U256::one()); // Top should be swapped with 16th
}

#[test]
fn test_stack_overflow() {
    // Try to push 1025 items (exceeds 1024 limit)
    let mut code = Vec::new();
    for _ in 0..1025 {
        code.push(0x60); // PUSH1
        code.push(0x01);
    }
    code.push(0x00); // STOP

    let result = execute_bytecode(&code, 1000000, InMemoryState::new());
    assert!(matches!(
        result,
        Err(EvmError::StackError(StackError::Overflow))
    ));
}

#[test]
fn interpreter_test_stack_underflow() {
    // Try to POP from empty stack
    let code = vec![0x50]; // POP
    let result = execute_bytecode(&code, 1000, InMemoryState::new());
    assert!(matches!(
        result,
        Err(EvmError::StackError(StackError::Underflow))
    ));
}

#[test]
fn test_simple_storage_contract() {
    // Simplified storage contract pattern:
    // Store a value to memory, then return it
    // PUSH1 0x42 PUSH1 0x00 MSTORE PUSH1 0x20 PUSH1 0x00 RETURN
    let code = vec![
        0x60, 0x42, // PUSH1 0x42
        0x60, 0x00, // PUSH1 0x00
        0x52, // MSTORE
        0x60, 0x20, // PUSH1 0x20 (size)
        0x60, 0x00, // PUSH1 0x00 (offset)
        0xF3, // RETURN
    ];
    let (result, _state) = execute_bytecode(&code, 100000, InMemoryState::new()).unwrap();
    assert!(result.success);
    assert_eq!(result.return_data.len(), 32);
    assert_eq!(result.return_data[31], 0x42);
}

#[test]
fn test_loop_simulation() {
    // Simple counter loop: push 3 values and add them
    // PUSH1 1 PUSH1 2 PUSH1 3 ADD ADD STOP
    let code = vec![
        0x60, 0x01, // PUSH1 1
        0x60, 0x02, // PUSH1 2
        0x60, 0x03, // PUSH1 3
        0x01, // ADD (2+3=5)
        0x01, // ADD (1+5=6)
        0x00, // STOP
    ];
    let (result, _state) = execute_bytecode(&code, 100000, InMemoryState::new()).unwrap();
    assert!(result.success);
    assert_eq!(result.stack.peek(0).unwrap(), &U256::from_u64(6));
}

#[test]
fn test_mcopy_operation() {
    // MCOPY: Copy memory region
    // Store 0x42 at offset 0, then copy to offset 32
    // PUSH1 0x42 PUSH1 0x00 MSTORE PUSH1 0x20 PUSH1 0x00 PUSH1 0x20 MCOPY PUSH1 0x20 MLOAD STOP
    let code = vec![
        0x60, 0x42, // PUSH1 0x42
        0x60, 0x00, // PUSH1 0x00
        0x52, // MSTORE
        0x60, 0x20, // PUSH1 32 (size)
        0x60, 0x00, // PUSH1 0 (src)
        0x60, 0x20, // PUSH1 32 (dest)
        0x5E, // MCOPY
        0x60, 0x20, // PUSH1 32
        0x51, // MLOAD
        0x00, // STOP
    ];
    let (result, _state) = execute_bytecode(&code, 100000, InMemoryState::new()).unwrap();
    assert!(result.success);
    assert_eq!(result.stack.peek(0).unwrap(), &U256::from_u64(0x42));
}

#[test]
fn test_all_push_sizes() {
    // Test PUSH1, PUSH2, PUSH4, etc.
    // PUSH2 0x1234 PUSH1 0x56 ADD STOP
    let code = vec![
        0x61, 0x12, 0x34, // PUSH2 0x1234
        0x60, 0x56, // PUSH1 0x56
        0x01, // ADD
        0x00, // STOP
    ];
    let (result, _state) = execute_bytecode(&code, 100000, InMemoryState::new()).unwrap();
    assert!(result.success);
    assert_eq!(
        result.stack.peek(0).unwrap(),
        &U256::from_u64(0x1234 + 0x56)
    );
}

#[test]
fn test_complete_opcode_coverage() {
    // Test coverage of major opcode categories
    let mut code = Vec::new();

    // Arithmetic
    code.extend_from_slice(&[0x60, 0x0A]); // PUSH1 10
    code.extend_from_slice(&[0x60, 0x05]); // PUSH1 5
    code.push(0x01); // ADD
    code.push(0x60);
    code.push(0x02); // PUSH1 2
    code.push(0x02); // MUL
    code.push(0x60);
    code.push(0x03); // PUSH1 3
    code.push(0x04); // DIV

    // Bitwise
    code.push(0x60);
    code.push(0xFF); // PUSH1 0xFF
    code.push(0x16); // AND

    // Comparison
    code.push(0x60);
    code.push(0x00); // PUSH1 0
    code.push(0x14); // EQ

    // Stack manipulation
    code.push(0x80); // DUP1
    code.push(0x50); // POP

    code.push(0x00); // STOP

    let (result, _state) = execute_bytecode(&code, 100000, InMemoryState::new()).unwrap();
    assert!(result.success);
}

#[test]
fn test_balance_opcode() {
    // PUSH20 <address> BALANCE STOP
    let mut code = Vec::new();
    code.push(0x73); // PUSH20
    let test_addr = Address::new([0x42; 20]);
    code.extend_from_slice(&test_addr.to_bytes());
    code.push(0x31); // BALANCE
    code.push(0x00); // STOP

    let mut state = InMemoryState::new();
    state.set_balance(&test_addr, U256::from_u64(12345));

    let (result, _state) = execute_bytecode(&code, 100000, state).unwrap();
    assert!(result.success);
    assert_eq!(result.stack.peek(0).unwrap(), &U256::from_u64(12345));
}

#[test]
fn test_balance_zero_account() {
    // PUSH20 <address> BALANCE STOP
    let mut code = Vec::new();
    code.push(0x73); // PUSH20
    let test_addr = Address::new([0x99; 20]);
    code.extend_from_slice(&test_addr.to_bytes());
    code.push(0x31); // BALANCE
    code.push(0x00); // STOP

    let state = InMemoryState::new(); // Empty state

    let (result, _state) = execute_bytecode(&code, 100000, state).unwrap();
    assert!(result.success);
    assert_eq!(result.stack.peek(0).unwrap(), &U256::zero());
}

#[test]
fn test_extcodesize_opcode() {
    // PUSH20 <address> EXTCODESIZE STOP
    let mut code = Vec::new();
    code.push(0x73); // PUSH20
    let test_addr = Address::new([0x55; 20]);
    code.extend_from_slice(&test_addr.to_bytes());
    code.push(0x3B); // EXTCODESIZE
    code.push(0x00); // STOP

    let mut state = InMemoryState::new();
    state.set_code(&test_addr, vec![0x60, 0x42, 0x60, 0x00, 0x52]); // 5 bytes

    let (result, _state) = execute_bytecode(&code, 100000, state).unwrap();
    assert!(result.success);
    assert_eq!(result.stack.peek(0).unwrap(), &U256::from_u64(5));
}

#[test]
fn test_extcodecopy_opcode() {
    // PUSH20 <address> PUSH1 4 PUSH1 0 PUSH1 0 EXTCODECOPY PUSH1 0 MLOAD STOP
    let test_addr = Address::new([0xAB; 20]);
    let mut code = vec![
        0x60, 0x04, // PUSH1 4 (size)
        0x60, 0x00, // PUSH1 0 (offset in code)
        0x60, 0x00, // PUSH1 0 (dest in memory)
        0x73, // PUSH20
    ];
    code.extend_from_slice(&test_addr.to_bytes());
    code.extend_from_slice(&[
        0x3C, // EXTCODECOPY
        0x60, 0x00, // PUSH1 0
        0x51, // MLOAD
        0x00, // STOP
    ]);

    let mut state = InMemoryState::new();
    state.set_code(&test_addr, vec![0xDE, 0xAD, 0xBE, 0xEF, 0x99]);

    let (result, _state) = execute_bytecode(&code, 100000, state).unwrap();
    assert!(result.success);
    let value = result.stack.peek(0).unwrap();
    let bytes = value.to_be_bytes();
    assert_eq!(bytes[0], 0xDE);
    assert_eq!(bytes[1], 0xAD);
    assert_eq!(bytes[2], 0xBE);
    assert_eq!(bytes[3], 0xEF);
}

#[test]
fn test_extcodehash_opcode() {
    // PUSH20 <address> EXTCODEHASH STOP
    let mut code = Vec::new();
    code.push(0x73); // PUSH20
    let test_addr = Address::new([0x77; 20]);
    code.extend_from_slice(&test_addr.to_bytes());
    code.push(0x3F); // EXTCODEHASH
    code.push(0x00); // STOP

    let mut state = InMemoryState::new();
    let test_code = vec![0x60, 0x42];
    state.set_code(&test_addr, test_code.clone());

    let (result, _state) = execute_bytecode(&code, 100000, state).unwrap();
    assert!(result.success);
    // Hash should not be zero (it's the keccak of the code)
    assert_ne!(result.stack.peek(0).unwrap(), &U256::zero());
}

#[test]
fn test_selfbalance_opcode() {
    // SELFBALANCE STOP
    let code = vec![0x47, 0x00]; // SELFBALANCE STOP

    let mut state = InMemoryState::new();
    let contract_addr = Address::new([0x11; 20]);
    state.set_balance(&contract_addr, U256::from_u64(999));

    let mut evm = Evm::new(code, 100000, state, NullHost);
    evm.call_ctx.address = contract_addr;

    let result = evm.run().unwrap();
    assert!(result.success);
    assert_eq!(result.stack.peek(0).unwrap(), &U256::from_u64(999));
}

#[test]
fn test_sload_sstore_opcodes() {
    // PUSH1 0x99 PUSH1 0x42 SSTORE PUSH1 0x42 SLOAD STOP
    let code = vec![
        0x60, 0x99, // PUSH1 0x99 (value)
        0x60, 0x42, // PUSH1 0x42 (key)
        0x55, // SSTORE
        0x60, 0x42, // PUSH1 0x42 (key)
        0x54, // SLOAD
        0x00, // STOP
    ];

    let state = InMemoryState::new();
    let (result, _state) = execute_bytecode(&code, 100000, state).unwrap();
    assert!(result.success);
    assert_eq!(result.stack.peek(0).unwrap(), &U256::from_u64(0x99));
}

#[test]
fn test_sload_uninitialized() {
    // PUSH1 0xFF SLOAD STOP
    let code = vec![0x60, 0xFF, 0x54, 0x00]; // PUSH1 0xFF SLOAD STOP

    let state = InMemoryState::new();
    let (result, _state) = execute_bytecode(&code, 100000, state).unwrap();
    assert!(result.success);
    assert_eq!(result.stack.peek(0).unwrap(), &U256::zero());
}

#[test]
fn test_tload_tstore_opcodes() {
    // PUSH1 0x77 PUSH1 0x33 TSTORE PUSH1 0x33 TLOAD STOP
    let code = vec![
        0x60, 0x77, // PUSH1 0x77 (value)
        0x60, 0x33, // PUSH1 0x33 (key)
        0x5D, // TSTORE
        0x60, 0x33, // PUSH1 0x33 (key)
        0x5C, // TLOAD
        0x00, // STOP
    ];

    let state = InMemoryState::new();
    let (result, _state) = execute_bytecode(&code, 100000, state).unwrap();
    assert!(result.success);
    assert_eq!(result.stack.peek(0).unwrap(), &U256::from_u64(0x77));
}

#[test]
fn test_tload_uninitialized() {
    // PUSH1 0xAA TLOAD STOP
    let code = vec![0x60, 0xAA, 0x5C, 0x00]; // PUSH1 0xAA TLOAD STOP

    let state = InMemoryState::new();
    let (result, _state) = execute_bytecode(&code, 100000, state).unwrap();
    assert!(result.success);
    assert_eq!(result.stack.peek(0).unwrap(), &U256::zero());
}

#[test]
fn test_selfdestruct_opcode() {
    // PUSH20 <beneficiary> SELFDESTRUCT
    let mut code = Vec::new();
    code.push(0x73); // PUSH20
    let beneficiary = Address::new([0xBB; 20]);
    code.extend_from_slice(&beneficiary.to_bytes());
    code.push(0xFF); // SELFDESTRUCT

    let mut state = InMemoryState::new();
    let contract_addr = Address::new([0xCC; 20]);
    state.set_balance(&contract_addr, U256::from_u64(1000));

    let mut evm = Evm::new(code, 100000, state, NullHost);
    evm.call_ctx.address = contract_addr;

    let result = evm.run().unwrap();
    assert!(result.success);
    // Check that selfdestruct was recorded
    let selfdestructs = evm.state.get_selfdestructs();
    assert_eq!(selfdestructs.len(), 1);
    assert_eq!(selfdestructs[0].0, contract_addr);
    assert_eq!(selfdestructs[0].1, beneficiary);
}

#[test]
fn test_sstore_multiple_keys() {
    // Store multiple values and load them back
    let code = vec![
        0x60, 0x11, // PUSH1 0x11
        0x60, 0x01, // PUSH1 0x01 (key)
        0x55, // SSTORE
        0x60, 0x22, // PUSH1 0x22
        0x60, 0x02, // PUSH1 0x02 (key)
        0x55, // SSTORE
        0x60, 0x01, // PUSH1 0x01 (key)
        0x54, // SLOAD
        0x60, 0x02, // PUSH1 0x02 (key)
        0x54, // SLOAD
        0x00, // STOP
    ];

    let state = InMemoryState::new();
    let (result, _state) = execute_bytecode(&code, 100000, state).unwrap();
    assert!(result.success);
    assert_eq!(result.stack.peek(0).unwrap(), &U256::from_u64(0x22));
    assert_eq!(result.stack.peek(1).unwrap(), &U256::from_u64(0x11));
}

#[test]
fn test_transient_storage_isolated() {
    // Transient storage should not affect permanent storage
    let code = vec![
        0x60, 0xAA, // PUSH1 0xAA
        0x60, 0x10, // PUSH1 0x10 (key)
        0x5D, // TSTORE (transient)
        0x60, 0xBB, // PUSH1 0xBB
        0x60, 0x10, // PUSH1 0x10 (key)
        0x55, // SSTORE (permanent)
        0x60, 0x10, // PUSH1 0x10 (key)
        0x5C, // TLOAD (transient)
        0x60, 0x10, // PUSH1 0x10 (key)
        0x54, // SLOAD (permanent)
        0x00, // STOP
    ];

    let state = InMemoryState::new();
    let (result, _state) = execute_bytecode(&code, 100000, state).unwrap();
    assert!(result.success);
    // Permanent storage should have 0xBB
    assert_eq!(result.stack.peek(0).unwrap(), &U256::from_u64(0xBB));
    // Transient storage should have 0xAA
    assert_eq!(result.stack.peek(1).unwrap(), &U256::from_u64(0xAA));
}

#[test]
fn test_blockhash_blobhash_blobbasefee_opcodes() {
    let mut host_state = TestHost::default();
    let block_hash = claudeth::types::Hash::new([0x11; 32]);
    let blob_hash = claudeth::types::Hash::new([0x22; 32]);
    host_state.blockhash = Some(block_hash);
    host_state.blobhash = Some(blob_hash);
    host_state.blobbasefee = U256::from_u64(7);

    let host = SharedHost(Rc::new(RefCell::new(host_state)));
    let code = vec![
        0x60, 0x01, // PUSH1 0x01
        0x40, // BLOCKHASH
        0x60, 0x02, // PUSH1 0x02
        0x49, // BLOBHASH
        0x4A, // BLOBBASEFEE
        0x00, // STOP
    ];

    let (result, _state) =
        execute_bytecode_with_host(&code, 100000, InMemoryState::new(), host).unwrap();
    assert!(result.success);
    assert_eq!(result.stack.peek(0).unwrap(), &U256::from_u64(7));
    assert_eq!(
        result.stack.peek(1).unwrap(),
        &claudeth::evm::opcodes::utils::hash_to_u256(&blob_hash)
    );
    assert_eq!(
        result.stack.peek(2).unwrap(),
        &claudeth::evm::opcodes::utils::hash_to_u256(&block_hash)
    );
}

#[test]
fn test_call_opcode_invokes_host_and_writes_output() {
    let host_state = TestHost {
        call_result: CallResult {
            success: true,
            return_data: vec![0xAA, 0xBB],
            gas_used: 5,
        },
        ..Default::default()
    };
    let host = SharedHost(Rc::new(RefCell::new(host_state)));

    let mut to_bytes = [0u8; 20];
    to_bytes[19] = 0x01;
    let to = Address::from_slice(&to_bytes).unwrap();

    let mut code = vec![
        0x60, 0x01, // PUSH1 0x01
        0x60, 0x00, // PUSH1 0x00
        0x53, // MSTORE8 (memory[0] = 0x01)
        0x60, 0x03, // PUSH1 0x03 (out_size)
        0x60, 0x20, // PUSH1 0x20 (out_offset)
        0x60, 0x01, // PUSH1 0x01 (in_size)
        0x60, 0x00, // PUSH1 0x00 (in_offset)
        0x60, 0x00, // PUSH1 0x00 (value)
        0x73, // PUSH20
    ];
    code.extend_from_slice(&to.to_bytes());
    code.extend_from_slice(&[
        0x60, 0x10, // PUSH1 0x10 (gas)
        0xF1, // CALL
        0x00, // STOP
    ]);

    let (result, _state) =
        execute_bytecode_with_host(&code, 100000, InMemoryState::new(), host.clone()).unwrap();
    assert!(result.success);
    assert_eq!(result.stack.peek(0).unwrap(), &U256::one());
    assert_eq!(result.return_data, vec![0xAA, 0xBB]);

    let mut memory = result.memory;
    let word = memory.mload(0x20).unwrap().to_be_bytes();
    assert_eq!(&word[0..3], &[0xAA, 0xBB, 0x00]);

    let recorded = host.0.borrow().last_call.clone().unwrap();
    assert_eq!(recorded.kind, CallKind::Call);
    assert_eq!(recorded.address, to);
    assert_eq!(recorded.caller, Address::zero());
    assert_eq!(recorded.value, U256::zero());
    assert_eq!(recorded.code_address, to);
    assert_eq!(recorded.input, vec![0x01]);
    assert_eq!(recorded.gas, 0x10);
}

#[test]
fn test_create2_opcode_forwards_init_code_and_salt() {
    let mut host_state = TestHost::default();
    let created_addr = Address::new([0xAB; 20]);
    host_state.create_result = CreateResult {
        success: true,
        address: Some(created_addr),
        return_data: Vec::new(),
        gas_used: 7,
    };
    let host = SharedHost(Rc::new(RefCell::new(host_state)));

    let code = vec![
        0x60, 0xAA, // PUSH1 0xAA
        0x60, 0x00, // PUSH1 0x00
        0x53, // MSTORE8 (init code byte)
        0x61, 0x12, 0x34, // PUSH2 0x1234 (salt)
        0x60, 0x01, // PUSH1 0x01 (size)
        0x60, 0x00, // PUSH1 0x00 (offset)
        0x60, 0x00, // PUSH1 0x00 (value)
        0xF5, // CREATE2
        0x00, // STOP
    ];

    let (result, _state) =
        execute_bytecode_with_host(&code, 100000, InMemoryState::new(), host.clone()).unwrap();
    assert!(result.success);
    assert_eq!(
        result.stack.peek(0).unwrap(),
        &claudeth::evm::opcodes::utils::address_to_u256(&created_addr)
    );

    let recorded = host.0.borrow().last_create.clone().unwrap();
    assert_eq!(recorded.salt, Some(U256::from_u64(0x1234)));
    assert_eq!(recorded.init_code, vec![0xAA]);
}

#[test]
fn test_delegatecall_uses_caller_and_value_from_context() {
    let host_state = TestHost {
        call_result: CallResult {
            success: true,
            return_data: Vec::new(),
            gas_used: 1,
        },
        ..Default::default()
    };
    let host = SharedHost(Rc::new(RefCell::new(host_state)));

    let mut to_bytes = [0u8; 20];
    to_bytes[19] = 0x02;
    let to = Address::from_slice(&to_bytes).unwrap();

    let mut code = vec![
        0x60, 0x00, // PUSH1 0x00 (out_size)
        0x60, 0x00, // PUSH1 0x00 (out_offset)
        0x60, 0x00, // PUSH1 0x00 (in_size)
        0x60, 0x00, // PUSH1 0x00 (in_offset)
        0x73, // PUSH20
    ];
    code.extend_from_slice(&to.to_bytes());
    code.extend_from_slice(&[
        0x60, 0x20, // PUSH1 0x20 (gas)
        0xF4, // DELEGATECALL
        0x00, // STOP
    ]);

    let mut evm = Evm::new(code, 100000, InMemoryState::new(), host.clone());
    evm.call_ctx.address = Address::new([0x11; 20]);
    evm.call_ctx.caller = Address::new([0x22; 20]);
    evm.call_ctx.call_value = U256::from_u64(77);

    let result = evm.run().unwrap();
    assert!(result.success);
    assert_eq!(result.stack.peek(0).unwrap(), &U256::one());

    let recorded = host.0.borrow().last_call.clone().unwrap();
    assert_eq!(recorded.kind, CallKind::DelegateCall);
    assert_eq!(recorded.address, Address::new([0x11; 20]));
    assert_eq!(recorded.caller, Address::new([0x22; 20]));
    assert_eq!(recorded.value, U256::from_u64(77));
    assert_eq!(recorded.code_address, to);
}

#[test]
fn test_delegatecall_writes_to_caller_storage() {
    let caller = Address::new([0x11; 20]);
    let callee = Address::new([0x22; 20]);
    let sender = Address::new([0x33; 20]);

    let callee_code = vec![
        0x60, 0xAA, // PUSH1 0xAA (value)
        0x60, 0x01, // PUSH1 0x01 (key)
        0x55, // SSTORE
        0x00, // STOP
    ];

    let mut caller_code = vec![
        0x60, 0x00, // PUSH1 0x00 (out_size)
        0x60, 0x00, // PUSH1 0x00 (out_offset)
        0x60, 0x00, // PUSH1 0x00 (in_size)
        0x60, 0x00, // PUSH1 0x00 (in_offset)
        0x73, // PUSH20
    ];
    caller_code.extend_from_slice(&callee.to_bytes());
    caller_code.extend_from_slice(&[
        0x61, 0xC3, 0x50, // PUSH2 0xC350 (gas = 50000)
        0xF4, // DELEGATECALL
        0x00, // STOP
    ]);

    let mut state = InMemoryState::new();
    state.set_code(&callee, callee_code);

    let call_ctx = CallContext {
        address: caller,
        caller: sender,
        call_value: U256::zero(),
        call_data: Vec::new(),
    };

    let host = NestingHost(RecursiveHost::new());
    let (result, final_state) = execute_bytecode_with_host_and_contexts(
        &caller_code,
        100_000,
        state,
        host,
        BlockContext::default(),
        TxContext::default(),
        call_ctx,
    )
    .unwrap();

    assert!(result.success);
    assert_eq!(
        final_state.sload(&caller, &U256::from(1u64)),
        U256::from(0xAAu64)
    );
    assert_eq!(final_state.sload(&callee, &U256::from(1u64)), U256::zero());
}

#[test]
fn test_log1_captures_data_and_topic() {
    let code = vec![
        0x60, 0xAA, // PUSH1 0xAA
        0x60, 0x00, // PUSH1 0x00
        0x53, // MSTORE8
        0x60, 0xBB, // PUSH1 0xBB
        0x60, 0x01, // PUSH1 0x01
        0x53, // MSTORE8
        0x60, 0x01, // PUSH1 topic
        0x60, 0x02, // PUSH1 size
        0x60, 0x00, // PUSH1 offset
        0xA1, // LOG1
        0x00, // STOP
    ];

    let (result, _state) = execute_bytecode(&code, 100000, InMemoryState::new()).unwrap();

    assert_eq!(result.logs.len(), 1);
    let log = &result.logs[0];
    assert_eq!(log.address, Address::zero());
    assert_eq!(log.data, vec![0xAA, 0xBB]);

    let mut topic_bytes = [0u8; 32];
    topic_bytes[31] = 1;
    assert_eq!(log.topics, vec![claudeth::types::Hash::from(topic_bytes)]);
}

#[test]
fn sub_takes_top_minus_next() {
    // PUSH1 0x05 PUSH1 0x03 SUB STOP: 3 - 5, wrapped
    let code = vec![0x60, 0x05, 0x60, 0x03, 0x03, 0x00];
    let (result, _state) = execute_bytecode(&code, 1000, InMemoryState::new()).unwrap();
    assert!(result.success);
    assert_eq!(
        result.stack.peek(0).unwrap(),
        &U256::max_value().wrapping_sub(U256::one())
    );
}

#[test]
fn div_takes_top_over_next() {
    // PUSH1 0x02 PUSH1 0x08 DIV STOP: 8 / 2
    let code = vec![0x60, 0x02, 0x60, 0x08, 0x04, 0x00];
    let (result, _state) = execute_bytecode(&code, 1000, InMemoryState::new()).unwrap();
    assert!(result.success);
    assert_eq!(result.stack.peek(0).unwrap(), &U256::from_u64(4));
}

#[test]
fn lt_compares_top_with_next() {
    // PUSH1 0x05 PUSH1 0x03 LT STOP: 3 < 5
    let code = vec![0x60, 0x05, 0x60, 0x03, 0x10, 0x00];
    let (result, _state) = execute_bytecode(&code, 1000, InMemoryState::new()).unwrap();
    assert!(result.success);
    assert_eq!(result.stack.peek(0).unwrap(), &U256::one());
}

#[test]
fn jumpi_branches_on_gt() {
    // PUSH1 5 PUSH1 6 GT (6 > 5) PUSH1 13 JUMPI ... JUMPDEST(13) PUSH1 1 JUMPDEST STOP
    let code = vec![
        0x60, 0x05, 0x60, 0x06, 0x11, 0x60, 0x0D, 0x57, 0x60, 0x00, 0x60, 0x10, 0x56, 0x5B,
        0x60, 0x01, 0x5B, 0x00,
    ];
    let (result, _state) = execute_bytecode(&code, 100000, InMemoryState::new()).unwrap();
    assert!(result.success);
    assert_eq!(result.stack.peek(0).unwrap(), &U256::one());
}

#[test]
fn truncated_push_fails() {
    // PUSH2 with one byte left
    let code = vec![0x61, 0x01];
    let result = execute_bytecode(&code, 1000, InMemoryState::new());
    assert!(matches!(result, Err(EvmError::InvalidPush)));
}

#[test]
fn first_opcode_out_of_gas() {
    // ADD with 2 gas: its base cost is 3
    let code = vec![0x01];
    let result = execute_bytecode(&code, 2, InMemoryState::new());
    assert!(matches!(result, Err(EvmError::OutOfGas)));
}

/// SUB takes the top word minus the second: with 3 on top of 5 the result
/// wraps to 2^256 - 2.
#[test]
fn test_sub() {
    // PUSH1 0x05 PUSH1 0x03 SUB STOP
    let code = vec![0x60, 0x05, 0x60, 0x03, 0x03, 0x00];
    let (result, _state) = execute_bytecode(&code, 1000, InMemoryState::new()).unwrap();
    assert!(result.success);
    assert_eq!(result.stack.peek(0).unwrap(), &U256::max_value().wrapping_sub(U256::one()));
}

/// DIV divides the top word by the second: 2 / 8 is 0.
#[test]
fn test_div() {
    // PUSH1 0x08 PUSH1 0x02 DIV STOP
    let code = vec![0x60, 0x08, 0x60, 0x02, 0x04, 0x00];
    let (result, _state) = execute_bytecode(&code, 1000, InMemoryState::new()).unwrap();
    assert!(result.success);
    assert_eq!(result.stack.peek(0).unwrap(), &U256::zero());
}

/// LT compares the top word with the second: 5 < 3 is false.
#[test]
fn test_comparison_operations() {
    // PUSH1 0x03 PUSH1 0x05 LT STOP
    let code = vec![0x60, 0x03, 0x60, 0x05, 0x10, 0x00];
    let (result, _state) = execute_bytecode(&code, 1000, InMemoryState::new()).unwrap();
    assert!(result.success);
    assert_eq!(result.stack.peek(0).unwrap(), &U256::zero());
}

/// GT compares the top word with the second: 5 > 6 is false, so JUMPI falls
/// through to the JUMP, whose target (offset 17) holds STOP, not JUMPDEST.
#[test]
fn test_conditional_logic() {
    let code = vec![
        0x60, 0x06, // PUSH1 6
        0x60, 0x05, // PUSH1 5
        0x11, // GT
        0x60, 0x0D, // PUSH1 13
        0x57, // JUMPI
        0x60, 0x00, // PUSH1 0
        0x60, 0x11, // PUSH1 17
        0x56, // JUMP
        0x5B, // JUMPDEST (offset 13)
        0x60, 0x01, // PUSH1 1
        0x5B, // JUMPDEST (offset 16)
        0x00, // STOP
    ];
    let result = execute_bytecode(&code, 100000, InMemoryState::new());
    assert!(matches!(result, Err(EvmError::InvalidJump)));
}

/// EXP charges 10 plus 50 per byte of the exponent (the second word): 256 has
/// two bytes, so PUSH2, PUSH1 and EXP cost 3 + 3 + 110.
#[test]
fn test_exp_gas_sized_by_exponent() {
    // PUSH2 0x0100 PUSH1 0x02 EXP STOP
    let code = vec![0x61, 0x01, 0x00, 0x60, 0x02, 0x0A, 0x00];
    let (result, _state) = execute_bytecode(&code, 1000, InMemoryState::new()).unwrap();
    assert!(result.success);
    assert_eq!(result.stack.peek(0).unwrap(), &U256::zero());
    assert_eq!(result.gas_used, 116);
}

/// MSTORE charges memory for the word at the offset (the top word), not for
/// the value: 0x42 at offset 0 costs 3 + 3 + 3 + 3.
#[test]
fn test_mstore_charges_memory_at_offset() {
    // PUSH1 0x42 PUSH1 0x00 MSTORE STOP
    let code = vec![0x60, 0x42, 0x60, 0x00, 0x52, 0x00];
    let (result, _state) = execute_bytecode(&code, 1000, InMemoryState::new()).unwrap();
    assert!(result.success);
    assert_eq!(result.gas_used, 12);
    assert_eq!(result.memory.msize(), 32);
}

/// PUSH2 pushes the two bytes after it as one word and leaves memory alone.
#[test]
fn test_push2_leaves_memory() {
    // PUSH2 0x1234 STOP
    let code = vec![0x61, 0x12, 0x34, 0x00];
    let (result, _state) = execute_bytecode(&code, 100, InMemoryState::new()).unwrap();
    assert!(result.success);
    assert_eq!(result.stack.len(), 1);
    assert_eq!(result.stack.peek(0).unwrap(), &U256::from_u64(0x1234));
    assert_eq!(result.gas_used, 3);
    assert_eq!(result.memory.msize(), 0);
}
