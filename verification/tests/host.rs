//! The recursive host: BLOCKHASH and BLOBHASH answers, and the refusal of
//! created code starting with 0xEF.

use claudeth::evm::host::{
    compute_create_address, CallMessage, CallPlan, CallResult, CreateMessage, CreatePlan,
    CreateResult, Host, RecursiveHost,
};
use claudeth::evm::interpreter::{BlockContext, Evm, TxContext};
use claudeth::state::{InMemoryState, State};
use claudeth::types::{Address, U256};

/// The recursive host, with its nested machines run here.
struct NestingHost(RecursiveHost);

impl<S: State> Host<S> for NestingHost {
    fn call(&mut self, state: &mut S, msg: CallMessage) -> CallResult {
        match self.0.plan_call(state, msg) {
            CallPlan::Done(result) => result,
            CallPlan::Run(frame) => {
                let gas = frame.gas;
                let mut evm = Evm::new(frame.code, frame.gas, frame.state, NestingHost(frame.host))
                    .with_block_context(frame.block_ctx)
                    .with_tx_context(frame.tx_ctx)
                    .with_call_context(frame.call_ctx);
                let outcome = evm.run();
                RecursiveHost::finish_call(state, gas, outcome, evm.state)
            }
        }
    }

    fn create(&mut self, state: &mut S, msg: CreateMessage) -> CreateResult {
        match self.0.plan_create(state, msg) {
            CreatePlan::Done(result) => result,
            CreatePlan::Run(frame, address) => {
                let gas = frame.gas;
                let mut evm = Evm::new(frame.code, frame.gas, frame.state, NestingHost(frame.host))
                    .with_block_context(frame.block_ctx)
                    .with_tx_context(frame.tx_ctx)
                    .with_call_context(frame.call_ctx);
                let outcome = evm.run();
                RecursiveHost::finish_create(state, gas, address, outcome, evm.state)
            }
        }
    }

    fn blockhash(&self, number: &U256) -> Option<claudeth::types::Hash> {
        self.0.block_hash_at(number)
    }

    fn blobhash(&self, index: &U256) -> Option<claudeth::types::Hash> {
        self.0.blob_hash_at(index)
    }

    fn blobbasefee(&self) -> U256 {
        self.0.blob_base_fee()
    }
}

#[test]
fn test_recursive_host_blockhash_parent_only() {
    let parent_hash = claudeth::types::Hash::from([0x11; 32]);
    let block_ctx = BlockContext {
        number: U256::from_u64(100),
        ..BlockContext::default()
    };

    let host = RecursiveHost::new()
        .with_block_context(block_ctx)
        .with_parent_hash(parent_hash);

    assert_eq!(
        host.block_hash_at(&U256::from_u64(99)),
        Some(parent_hash)
    );
    assert_eq!(
        host.block_hash_at(&U256::from_u64(100)),
        None
    );
    assert_eq!(
        host.block_hash_at(&U256::from_u64(98)),
        None
    );
}

#[test]
fn test_recursive_host_blockhash_recent_hashes() {
    let block_ctx = BlockContext {
        number: U256::from_u64(100),
        ..BlockContext::default()
    };
    let hash_98 = claudeth::types::Hash::from([0x22; 32]);
    let hash_99 = claudeth::types::Hash::from([0x33; 32]);
    let recent_hashes = vec![hash_98, hash_99];

    let host = RecursiveHost::new()
        .with_block_context(block_ctx)
        .with_recent_block_hashes(&recent_hashes);

    assert_eq!(
        host.block_hash_at(&U256::from_u64(99)),
        Some(hash_99)
    );
    assert_eq!(
        host.block_hash_at(&U256::from_u64(98)),
        Some(hash_98)
    );
    assert_eq!(
        host.block_hash_at(&U256::from_u64(97)),
        None
    );
}

#[test]
fn test_recursive_host_blobhash_from_tx_context() {
    let blob_hash_0 = claudeth::types::Hash::from([0x10; 32]);
    let blob_hash_1 = claudeth::types::Hash::from([0x20; 32]);
    let tx_ctx = TxContext {
        origin: Address::from([0x01; 20]),
        gas_price: U256::from_u64(1),
        blob_versioned_hashes: vec![blob_hash_0, blob_hash_1],
    };

    let host = RecursiveHost::new().with_tx_context(tx_ctx);

    assert_eq!(
        host.blob_hash_at(&U256::from_u64(0)),
        Some(blob_hash_0)
    );
    assert_eq!(
        host.blob_hash_at(&U256::from_u64(1)),
        Some(blob_hash_1)
    );
    assert_eq!(
        host.blob_hash_at(&U256::from_u64(2)),
        None
    );
}

#[test]
fn test_recursive_host_create_rejects_0xef_prefix() {
    let mut state = InMemoryState::new();
    let caller = Address::from([0x01; 20]);
    state.set_balance(&caller, U256::from_u64(1_000_000));
    state.increment_nonce(&caller);

    let block_ctx = BlockContext::default();
    let tx_ctx = TxContext::default();
    let mut host = RecursiveHost::new()
        .with_block_context(block_ctx)
        .with_tx_context(tx_ctx);

    let init_code = vec![
        0x60, 0xEF, // PUSH1 0xEF
        0x60, 0x00, // PUSH1 0x00
        0x53,       // MSTORE8
        0x60, 0x01, // PUSH1 0x01
        0x60, 0x00, // PUSH1 0x00
        0xF3,       // RETURN
    ];

    let gas = 100000;
    let msg = CreateMessage {
        gas,
        caller,
        value: U256::zero(),
        init_code,
        salt: None,
    };

    let result = NestingHost(host).create(&mut state, msg);

    assert!(!result.success);
    assert_eq!(result.gas_used, gas);
    assert!(result.return_data.is_empty());
    assert!(result.address.is_none());

    let expected_address = compute_create_address(&caller, U256::zero());
    assert!(state.get_code(&expected_address).is_empty());
}

/// A nested call runs in the host's block and transaction contexts, under a host
/// one frame deeper with the same contexts, on a state with the same transient
/// storage.
#[test]
fn planned_call_frame_keeps_contexts() {
    let mut block = BlockContext::default();
    block.number = U256::from_u64(7);
    block.timestamp = U256::from_u64(1234);
    let mut tx = TxContext::default();
    tx.origin = Address::from([0x11; 20]);
    tx.gas_price = U256::from_u64(9);
    let host = RecursiveHost::new().with_block_context(block).with_tx_context(tx);
    let target = Address::from([0x22; 20]);
    let caller = Address::from([0x33; 20]);
    let mut state = InMemoryState::new();
    state.set_code(&target, vec![0x00]);
    state.tstore(&target, &U256::from_u64(1), U256::from_u64(5));
    let msg = CallMessage {
        kind: claudeth::evm::host::CallKind::Call,
        gas: 1000,
        address: target,
        caller,
        value: U256::zero(),
        code_address: target,
        input: Vec::new(),
        is_static: false,
    };
    match host.plan_call(&mut state, msg) {
        CallPlan::Run(frame) => {
            assert_eq!(frame.block_ctx.number, U256::from_u64(7));
            assert_eq!(frame.block_ctx.timestamp, U256::from_u64(1234));
            assert_eq!(frame.tx_ctx.origin, Address::from([0x11; 20]));
            assert_eq!(frame.tx_ctx.gas_price, U256::from_u64(9));
            assert_eq!(frame.host.depth, 1);
            assert_eq!(frame.host.block_ctx.number, U256::from_u64(7));
            assert_eq!(frame.host.tx_ctx.origin, Address::from([0x11; 20]));
            assert_eq!(frame.state.tload(&target, &U256::from_u64(1)), U256::from_u64(5));
        }
        CallPlan::Done(_) => panic!("the call should run the target's code"),
    }
}
