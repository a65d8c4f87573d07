//! Environment, block and system opcodes: block and transaction data, call data,
//! code and return data, account queries against the world state, RETURN and
//! REVERT, and the calls and creations handed to the host.

use vstd::prelude::*;
use crate::crypto::keccak::{keccak256, keccak256_spec};
use crate::evm::error::EvmError;
use crate::evm::gas::{memory_cost, words};
use crate::evm::host::{Host, CallKind, CallMessage, CallResult, CreateMessage, CreateResult};
use crate::evm::memory::{Memory, MemoryError, expand_to, write_at};
use crate::evm::opcodes::control::{OpcodeError, nth, popped, usize_of};
use crate::evm::opcodes::utils::{
    address_to_u256, hash_to_u256, read_bytes, write_memory_bytes, u256_to_address, word_to_address,
    read_memory_bytes, read_touch, consume_gas,
};
use crate::evm::stack::{Stack, StackError, MAX_STACK_SIZE};
use crate::state::{State, word_at, code_at};
use crate::types::{Address, U256, be_val, be_bytes};

verus! {

// =============================================================================
// Contexts
// =============================================================================

/// Block context information.
#[derive(Debug, Clone)]
pub struct BlockContext {
    /// Coinbase (block beneficiary).
    pub coinbase: Address,
    /// Block timestamp.
    pub timestamp: U256,
    /// Block number.
    pub number: U256,
    /// Difficulty (PREVRANDAO after the merge).
    pub difficulty: U256,
    /// Block gas limit.
    pub gas_limit: U256,
    /// Chain identifier.
    pub chain_id: U256,
    /// Base fee per gas (EIP-1559).
    pub base_fee: U256,
    /// Excess blob gas (EIP-4844).
    pub excess_blob_gas: Option<U256>,
}

/// The fields of a block context.
#[derive(Debug, Clone)]
pub struct BlockContextParams {
    /// Coinbase.
    pub coinbase: Address,
    /// Timestamp.
    pub timestamp: U256,
    /// Number.
    pub number: U256,
    /// Difficulty.
    pub difficulty: U256,
    /// Gas limit.
    pub gas_limit: U256,
    /// Chain identifier.
    pub chain_id: U256,
    /// Base fee.
    pub base_fee: U256,
    /// Excess blob gas.
    pub excess_blob_gas: Option<U256>,
}

impl BlockContext {
    /// The block context with these fields.
    pub fn new(params: BlockContextParams) -> (r: BlockContext)
        ensures
            r.coinbase == params.coinbase,
            r.timestamp == params.timestamp,
            r.number == params.number,
            r.difficulty == params.difficulty,
            r.gas_limit == params.gas_limit,
            r.chain_id == params.chain_id,
            r.base_fee == params.base_fee,
            r.excess_blob_gas == params.excess_blob_gas,
    {
        BlockContext {
            coinbase: params.coinbase,
            timestamp: params.timestamp,
            number: params.number,
            difficulty: params.difficulty,
            gas_limit: params.gas_limit,
            chain_id: params.chain_id,
            base_fee: params.base_fee,
            excess_blob_gas: params.excess_blob_gas,
        }
    }
}

/// Transaction context information.
#[derive(Debug, Clone)]
pub struct TxContext {
    /// Sender of the transaction.
    pub origin: Address,
    /// Gas price.
    pub gas_price: U256,
}

impl TxContext {
    /// The transaction context with this origin and gas price.
    pub fn new(origin: Address, gas_price: U256) -> (r: TxContext)
        ensures
            r.origin == origin,
            r.gas_price == gas_price,
    {
        TxContext { origin, gas_price }
    }
}

/// Context of the executing contract.
#[derive(Debug, Clone)]
pub struct ContractContext {
    /// The executing account.
    pub address: Address,
    /// The caller.
    pub caller: Address,
    /// Value sent with the call.
    pub call_value: U256,
    /// Call data.
    pub call_data: Vec<u8>,
    /// The code being executed.
    pub code: Vec<u8>,
    /// Data returned by the last nested call.
    pub return_data: Vec<u8>,
}

impl ContractContext {
    /// A contract context with no return data yet.
    pub fn new(
        address: Address,
        caller: Address,
        call_value: U256,
        call_data: Vec<u8>,
        code: Vec<u8>,
    ) -> (r: ContractContext)
        ensures
            r.address == address,
            r.caller == caller,
            r.call_value == call_value,
            r.call_data@ == call_data@,
            r.code@ == code@,
            r.return_data@.len() == 0,
    {
        ContractContext { address, caller, call_value, call_data, code, return_data: Vec::new() }
    }
}

/// What the call and create opcodes need of the executing frame.
#[derive(Debug, Clone)]
pub struct CallEnv {
    /// The executing account.
    pub self_address: Address,
    /// Its caller.
    pub caller: Address,
    /// The value it was called with.
    pub call_value: U256,
}

// =============================================================================
// Specification
// =============================================================================

/// An opcode that pushes one word of value `v`: overflow on a full stack.
pub open spec fn pushes(before: Seq<U256>, after: Seq<U256>, r: Result<(), OpcodeError>, v: nat) -> bool {
    if before.len() >= MAX_STACK_SIZE {
        r == Err::<(), OpcodeError>(OpcodeError::Stack(StackError::Overflow)) && after == before
    } else {
        &&& r is Ok
        &&& after.len() == before.len() + 1
        &&& popped(after, 1) == before
        &&& after.last()@ == v
    }
}

/// Underflow after popping every word of a stack shorter than `k`.
pub open spec fn underflows(before: Seq<U256>, after: Seq<U256>, r: Result<(), OpcodeError>, k: nat) -> bool {
    before.len() < k && r == Err::<(), OpcodeError>(OpcodeError::Stack(StackError::Underflow))
        && after.len() == 0
}

// =============================================================================
// Helpers
// =============================================================================

/// Pushes a word.
fn push_word(stack: &mut Stack, v: U256) -> (r: Result<(), OpcodeError>)
    ensures
        pushes(old(stack)@, final(stack)@, r, v@),
{
    match stack.push(v) {
        Ok(()) => {
            proof {
                assert(popped(stack@, 1) =~= old(stack)@);
            }
            Ok(())
        },
        Err(e) => Err(OpcodeError::Stack(e)),
    }
}

/// Pops a word.
fn pop_word(stack: &mut Stack) -> (r: Result<U256, OpcodeError>)
    ensures
        old(stack)@.len() == 0 ==> r == Err::<U256, OpcodeError>(
            OpcodeError::Stack(StackError::Underflow),
        ) && final(stack)@.len() == 0,
        old(stack)@.len() > 0 ==> r == Ok::<U256, OpcodeError>(old(stack)@.last()) && final(stack)@
            == popped(old(stack)@, 1),
        old(stack)@.len() <= MAX_STACK_SIZE,
{
    match stack.pop() {
        Ok(v) => Ok(v),
        Err(e) => Err(OpcodeError::Stack(e)),
    }
}

/// `size` bytes of `data` from `offset`, zero past its end.
pub(crate) fn slice_padded(data: &[u8], offset: usize, size: usize) -> (r: Vec<u8>)
    ensures
        r@ == read_bytes(data@, offset as nat, size as nat),
{
    let mut out: Vec<u8> = Vec::new();
    let mut i: usize = 0;
    while i < size
        invariant
            i <= size,
            out@ == read_bytes(data@, offset as nat, size as nat).subrange(0, i as int),
        decreases size - i,
    {
        let byte = if offset < data.len() && i < data.len() - offset {
            data[offset + i]
        } else {
            0
        };
        out.push(byte);
        i = i + 1;
        proof {
            assert(out@ =~= read_bytes(data@, offset as nat, size as nat).subrange(0, i as int));
        }
    }
    proof {
        assert(out@ =~= read_bytes(data@, offset as nat, size as nat));
    }
    out
}

// =============================================================================
// Block information
// =============================================================================

/// A hash the host answered as a word: its big-endian value, or zero for none.
pub open spec fn hash_word(h: Option<crate::types::Hash>) -> nat {
    match h {
        Some(x) => be_val(x@),
        None => 0,
    }
}

/// BLOCKHASH (0x40): pops a block number and pushes the host's hash of that block
/// (zero when the host knows none).
pub fn blockhash_with_host<S: State, H: Host<S>>(stack: &mut Stack, host: &H) -> (r: Result<
    (),
    OpcodeError,
>)
    ensures
        underflows(old(stack)@, final(stack)@, r, 1) || (old(stack)@.len() >= 1 && r is Ok
            && final(stack)@.len() == old(stack)@.len() && popped(final(stack)@, 1) == popped(
            old(stack)@,
            1,
        ) && exists|h: Option<crate::types::Hash>|
            #[trigger] host.answers_blockhash(old(stack)@.last(), h) && final(stack)@.last()@
                == hash_word(h)),
{
    let number = pop_word(stack)?;
    let answer = host.blockhash(&number);
    let hash = match answer {
        Some(h) => h,
        None => crate::types::Hash::zero(),
    };
    proof {
        crate::types::lemma_be_val_zeros(32);
        assert(be_val(hash@) == hash_word(answer));
    }
    push_word(stack, hash_to_u256(&hash))?;
    assert(host.answers_blockhash(old(stack)@.last(), answer));
    Ok(())
}

/// COINBASE (0x41): pushes the block's beneficiary address.
pub fn coinbase(stack: &mut Stack, block_ctx: &BlockContext) -> (r: Result<(), OpcodeError>)
    ensures
        pushes(old(stack)@, final(stack)@, r, be_val(block_ctx.coinbase@)),
{
    push_word(stack, address_to_u256(&block_ctx.coinbase))
}

/// TIMESTAMP (0x42): pushes the block's timestamp.
pub fn timestamp(stack: &mut Stack, block_ctx: &BlockContext) -> (r: Result<(), OpcodeError>)
    ensures
        pushes(old(stack)@, final(stack)@, r, block_ctx.timestamp@),
{
    push_word(stack, block_ctx.timestamp)
}

/// NUMBER (0x43): pushes the block's number.
pub fn number(stack: &mut Stack, block_ctx: &BlockContext) -> (r: Result<(), OpcodeError>)
    ensures
        pushes(old(stack)@, final(stack)@, r, block_ctx.number@),
{
    push_word(stack, block_ctx.number)
}

/// DIFFICULTY (0x44): pushes the block's difficulty (PREVRANDAO).
pub fn difficulty(stack: &mut Stack, block_ctx: &BlockContext) -> (r: Result<(), OpcodeError>)
    ensures
        pushes(old(stack)@, final(stack)@, r, block_ctx.difficulty@),
{
    push_word(stack, block_ctx.difficulty)
}

/// GASLIMIT (0x45): pushes the block's gas limit.
pub fn gaslimit(stack: &mut Stack, block_ctx: &BlockContext) -> (r: Result<(), OpcodeError>)
    ensures
        pushes(old(stack)@, final(stack)@, r, block_ctx.gas_limit@),
{
    push_word(stack, block_ctx.gas_limit)
}

/// CHAINID (0x46): pushes the chain identifier.
pub fn chainid(stack: &mut Stack, block_ctx: &BlockContext) -> (r: Result<(), OpcodeError>)
    ensures
        pushes(old(stack)@, final(stack)@, r, block_ctx.chain_id@),
{
    push_word(stack, block_ctx.chain_id)
}

/// BASEFEE (0x48): pushes the base fee.
pub fn basefee(stack: &mut Stack, block_ctx: &BlockContext) -> (r: Result<(), OpcodeError>)
    ensures
        pushes(old(stack)@, final(stack)@, r, block_ctx.base_fee@),
{
    push_word(stack, block_ctx.base_fee)
}

// =============================================================================
// Transaction and contract context
// =============================================================================

/// ORIGIN (0x32): pushes the transaction's sender.
pub fn origin(stack: &mut Stack, tx_ctx: &TxContext) -> (r: Result<(), OpcodeError>)
    ensures
        pushes(old(stack)@, final(stack)@, r, be_val(tx_ctx.origin@)),
{
    push_word(stack, address_to_u256(&tx_ctx.origin))
}

/// GASPRICE (0x3A): pushes the gas price.
pub fn gasprice(stack: &mut Stack, tx_ctx: &TxContext) -> (r: Result<(), OpcodeError>)
    ensures
        pushes(old(stack)@, final(stack)@, r, tx_ctx.gas_price@),
{
    push_word(stack, tx_ctx.gas_price)
}

/// ADDRESS (0x30): pushes the executing account's address.
pub fn address(stack: &mut Stack, contract_ctx: &ContractContext) -> (r: Result<(), OpcodeError>)
    ensures
        pushes(old(stack)@, final(stack)@, r, be_val(contract_ctx.address@)),
{
    push_word(stack, address_to_u256(&contract_ctx.address))
}

/// CALLER (0x33): pushes the caller's address.
pub fn caller(stack: &mut Stack, contract_ctx: &ContractContext) -> (r: Result<(), OpcodeError>)
    ensures
        pushes(old(stack)@, final(stack)@, r, be_val(contract_ctx.caller@)),
{
    push_word(stack, address_to_u256(&contract_ctx.caller))
}

/// CALLVALUE (0x34): pushes the value sent with the call.
pub fn callvalue(stack: &mut Stack, contract_ctx: &ContractContext) -> (r: Result<(), OpcodeError>)
    ensures
        pushes(old(stack)@, final(stack)@, r, contract_ctx.call_value@),
{
    push_word(stack, contract_ctx.call_value)
}

/// CALLDATALOAD (0x35): pops an offset and pushes the 32 bytes of call data there
/// (zero past its end) as a big-endian word.
pub fn calldataload(stack: &mut Stack, contract_ctx: &ContractContext) -> (r: Result<
    (),
    OpcodeError,
>)
    ensures
        underflows(old(stack)@, final(stack)@, r, 1) || (old(stack)@.len() >= 1 && r is Ok
            && final(stack)@ == popped(old(stack)@, 1).push(final(stack)@.last()) && final(stack)@.last()@ == be_val(
            read_bytes(contract_ctx.call_data@, usize_of(old(stack)@.last()@), 32),
        )),
{
    let offset = pop_word(stack)?.as_usize();
    let data = slice_padded(contract_ctx.call_data.as_slice(), offset, 32);
    let value = U256::from_be_slice(data.as_slice());
    match stack.push(value) {
        Ok(()) => Ok(()),
        Err(e) => Err(OpcodeError::Stack(e)),
    }
}

/// CALLDATASIZE (0x36): pushes the size of the call data.
pub fn calldatasize(stack: &mut Stack, contract_ctx: &ContractContext) -> (r: Result<
    (),
    OpcodeError,
>)
    ensures
        pushes(old(stack)@, final(stack)@, r, contract_ctx.call_data@.len()),
{
    push_word(stack, U256::from_u64(contract_ctx.call_data.len() as u64))
}

/// CODESIZE (0x38): pushes the size of the executing code.
pub fn codesize(stack: &mut Stack, contract_ctx: &ContractContext) -> (r: Result<(), OpcodeError>)
    ensures
        pushes(old(stack)@, final(stack)@, r, contract_ctx.code@.len()),
{
    push_word(stack, U256::from_u64(contract_ctx.code.len() as u64))
}

/// RETURNDATASIZE (0x3D): pushes the size of the last call's return data.
pub fn returndatasize(stack: &mut Stack, contract_ctx: &ContractContext) -> (r: Result<
    (),
    OpcodeError,
>)
    ensures
        pushes(old(stack)@, final(stack)@, r, contract_ctx.return_data@.len()),
{
    push_word(stack, U256::from_u64(contract_ctx.return_data.len() as u64))
}

/// Pops destination, offset and size of a copy to memory.
fn pop_copy_args(stack: &mut Stack) -> (r: Result<(usize, usize, usize), OpcodeError>)
    ensures
        old(stack)@.len() < 3 ==> r == Err::<(usize, usize, usize), OpcodeError>(
            OpcodeError::Stack(StackError::Underflow),
        ) && final(stack)@.len() == 0,
        old(stack)@.len() >= 3 ==> r == Ok::<(usize, usize, usize), OpcodeError>(
            (
                usize_of(nth(old(stack)@, 0)@) as usize,
                usize_of(nth(old(stack)@, 1)@) as usize,
                usize_of(nth(old(stack)@, 2)@) as usize,
            ),
        ) && final(stack)@ == popped(old(stack)@, 3),
{
    let dest = pop_word(stack)?.as_usize();
    let offset = pop_word(stack)?.as_usize();
    let size = pop_word(stack)?.as_usize();
    proof {
        assert(stack@ =~= popped(old(stack)@, 3));
    }
    Ok((dest, offset, size))
}

/// Copies `size` bytes of `source` (zero past its end) from `offset` to memory at
/// `dest`, growing memory to cover the destination.
fn copy_to_memory(memory: &mut Memory, dest: usize, source: &[u8], offset: usize, size: usize) -> (r:
    Result<(), OpcodeError>)
    requires
        size > 0,
    ensures
        dest + size > usize::MAX ==> r == Err::<(), OpcodeError>(OpcodeError::InvalidOffset)
            && final(memory)@ == old(memory)@,
        dest + size <= usize::MAX ==> r is Ok && final(memory)@ == write_at(
            expand_to(old(memory)@, (dest + size) as nat),
            dest as nat,
            read_bytes(source@, offset as nat, size as nat),
        ),
{
    if dest > usize::MAX - size {
        return Err(OpcodeError::InvalidOffset);
    }
    let data = slice_padded(source, offset, size);
    let _ = write_memory_bytes(memory, dest, data.as_slice(), size);
    proof {
        assert(data@.subrange(0, size as int) =~= data@);
    }
    Ok(())
}

/// CALLDATACOPY (0x37): pops destination, offset and size and copies that much
/// call data (zero past its end) to memory.
pub fn calldatacopy(stack: &mut Stack, memory: &mut Memory, contract_ctx: &ContractContext) -> (r:
    Result<(), OpcodeError>)
    ensures
        underflows(old(stack)@, final(stack)@, r, 3) && final(memory)@ == old(memory)@ || (old(stack)@.len() >= 3 && final(stack)@ == popped(old(stack)@, 3) && {
            let dest = usize_of(nth(old(stack)@, 0)@);
            let offset = usize_of(nth(old(stack)@, 1)@);
            let size = usize_of(nth(old(stack)@, 2)@);
            if size == 0 {
                r is Ok && final(memory)@ == old(memory)@
            } else if dest + size > usize::MAX {
                r == Err::<(), OpcodeError>(OpcodeError::InvalidOffset) && final(memory)@ == old(memory)@
            } else {
                r is Ok && final(memory)@ == write_at(
                    expand_to(old(memory)@, dest + size),
                    dest,
                    read_bytes(contract_ctx.call_data@, offset, size),
                )
            }
        }),
{
    let (dest, offset, size) = pop_copy_args(stack)?;
    if size == 0 {
        return Ok(());
    }
    copy_to_memory(memory, dest, contract_ctx.call_data.as_slice(), offset, size)
}

/// CODECOPY (0x39): pops destination, offset and size and copies that much of the
/// executing code (zero past its end) to memory.
pub fn codecopy(stack: &mut Stack, memory: &mut Memory, contract_ctx: &ContractContext) -> (r:
    Result<(), OpcodeError>)
    ensures
        underflows(old(stack)@, final(stack)@, r, 3) && final(memory)@ == old(memory)@ || (old(stack)@.len() >= 3 && final(stack)@ == popped(old(stack)@, 3) && {
            let dest = usize_of(nth(old(stack)@, 0)@);
            let offset = usize_of(nth(old(stack)@, 1)@);
            let size = usize_of(nth(old(stack)@, 2)@);
            if size == 0 {
                r is Ok && final(memory)@ == old(memory)@
            } else if dest + size > usize::MAX {
                r == Err::<(), OpcodeError>(OpcodeError::InvalidOffset) && final(memory)@ == old(memory)@
            } else {
                r is Ok && final(memory)@ == write_at(
                    expand_to(old(memory)@, dest + size),
                    dest,
                    read_bytes(contract_ctx.code@, offset, size),
                )
            }
        }),
{
    let (dest, offset, size) = pop_copy_args(stack)?;
    if size == 0 {
        return Ok(());
    }
    copy_to_memory(memory, dest, contract_ctx.code.as_slice(), offset, size)
}

/// RETURNDATACOPY (0x3E): pops destination, offset and size and copies that much
/// of the last call's return data to memory; reading past its end is an error.
pub fn returndatacopy(stack: &mut Stack, memory: &mut Memory, contract_ctx: &ContractContext) -> (r:
    Result<(), OpcodeError>)
    ensures
        underflows(old(stack)@, final(stack)@, r, 3) && final(memory)@ == old(memory)@ || (old(stack)@.len() >= 3 && final(stack)@ == popped(old(stack)@, 3) && {
            let dest = usize_of(nth(old(stack)@, 0)@);
            let offset = usize_of(nth(old(stack)@, 1)@);
            let size = usize_of(nth(old(stack)@, 2)@);
            if size == 0 {
                r is Ok && final(memory)@ == old(memory)@
            } else if offset + size > contract_ctx.return_data@.len() || dest + size > usize::MAX {
                r == Err::<(), OpcodeError>(OpcodeError::InvalidOffset) && final(memory)@ == old(memory)@
            } else {
                r is Ok && final(memory)@ == write_at(
                    expand_to(old(memory)@, dest + size),
                    dest,
                    contract_ctx.return_data@.subrange(offset as int, (offset + size) as int),
                )
            }
        }),
{
    let (dest, offset, size) = pop_copy_args(stack)?;
    if size == 0 {
        return Ok(());
    }
    let len = contract_ctx.return_data.len();
    if offset > len || size > len - offset {
        return Err(OpcodeError::InvalidOffset);
    }
    let r = copy_to_memory(memory, dest, contract_ctx.return_data.as_slice(), offset, size);
    proof {
        assert(read_bytes(contract_ctx.return_data@, offset as nat, size as nat) =~= contract_ctx.return_data@.subrange(
            offset as int,
            offset + size,
        ));
    }
    r
}

// =============================================================================
// Accounts (world state, EIP-2929 warm/cold)
// =============================================================================

/// `a + b` saturated at `u64::MAX`.
pub open spec fn sat_add64(a: nat, b: nat) -> nat {
    if a + b > u64::MAX {
        u64::MAX as nat
    } else {
        a + b
    }
}

/// The gas left after an account access: a warm account gets 2600 − 100 back.
pub open spec fn after_access(gas: u64, is_warm: bool) -> nat {
    if is_warm {
        sat_add64(gas as nat, 2500)
    } else {
        gas as nat
    }
}

/// Pops a word as an EVM error.
fn pop_evm(stack: &mut Stack) -> (r: Result<U256, EvmError>)
    ensures
        old(stack)@.len() == 0 ==> r == Err::<U256, EvmError>(
            EvmError::StackError(StackError::Underflow),
        ) && final(stack)@.len() == 0,
        old(stack)@.len() > 0 ==> r == Ok::<U256, EvmError>(old(stack)@.last()) && final(stack)@
            == popped(old(stack)@, 1),
        old(stack)@.len() <= MAX_STACK_SIZE,
{
    match stack.pop() {
        Ok(v) => Ok(v),
        Err(e) => Err(EvmError::StackError(e)),
    }
}

/// Pops an address.
fn pop_address(stack: &mut Stack) -> (r: Result<Address, EvmError>)
    ensures
        old(stack)@.len() == 0 ==> r == Err::<Address, EvmError>(
            EvmError::StackError(StackError::Underflow),
        ) && final(stack)@.len() == 0,
        old(stack)@.len() > 0 ==> r == Ok::<Address, EvmError>(
            word_to_address(old(stack)@.last()@),
        ) && final(stack)@ == popped(old(stack)@, 1),
        old(stack)@.len() <= MAX_STACK_SIZE,
{
    let v = pop_evm(stack)?;
    u256_to_address(&v)
}

/// Replaces the popped operand with `v`; the stack has room since one word was popped.
fn push_after_pop(stack: &mut Stack, v: U256) -> (r: Result<(), EvmError>)
    requires
        old(stack)@.len() < MAX_STACK_SIZE,
    ensures
        r is Ok,
        final(stack)@ == old(stack)@.push(v),
{
    match stack.push(v) {
        Ok(()) => Ok(()),
        Err(e) => Err(EvmError::StackError(e)),
    }
}

/// BALANCE (0x31): pops an address and pushes its balance. The caller has charged
/// the cold cost; a warm account gets the difference back.
pub fn balance<S: State>(stack: &mut Stack, state: &S, is_warm: bool, gas_remaining: &mut u64) -> (r:
    Result<(), EvmError>)
    ensures
        old(stack)@.len() == 0 ==> r == Err::<(), EvmError>(
            EvmError::StackError(StackError::Underflow),
        ) && final(stack)@.len() == 0 && *final(gas_remaining) == *old(gas_remaining),
        old(stack)@.len() > 0 ==> r is Ok && *final(gas_remaining) == after_access(
            *old(gas_remaining),
            is_warm,
        ) && final(stack)@ == popped(old(stack)@, 1).push(
            word_at(state.balances(), word_to_address(old(stack)@.last()@)),
        ),
{
    let address = pop_address(stack)?;
    if is_warm {
        *gas_remaining = (*gas_remaining).saturating_add(2600 - 100);
    }
    let b = state.get_balance(&address);
    push_after_pop(stack, b)
}

/// EXTCODESIZE (0x3B): pops an address and pushes the size of its code. The caller
/// has charged the cold cost; a warm account gets the difference back.
pub fn extcodesize<S: State>(stack: &mut Stack, state: &S, is_warm: bool, gas_remaining: &mut u64) -> (r:
    Result<(), EvmError>)
    ensures
        old(stack)@.len() == 0 ==> r == Err::<(), EvmError>(
            EvmError::StackError(StackError::Underflow),
        ) && final(stack)@.len() == 0 && *final(gas_remaining) == *old(gas_remaining),
        old(stack)@.len() > 0 ==> r is Ok && *final(gas_remaining) == after_access(
            *old(gas_remaining),
            is_warm,
        ) && final(stack)@.len() == old(stack)@.len() && popped(final(stack)@, 1) == popped(
            old(stack)@,
            1,
        ) && final(stack)@.last()@ == code_at(
            state.codes(),
            word_to_address(old(stack)@.last()@),
        ).len(),
{
    let address = pop_address(stack)?;
    if is_warm {
        *gas_remaining = (*gas_remaining).saturating_add(2600 - 100);
    }
    let len = state.get_code(&address).len();
    let r = push_after_pop(stack, U256::from_u64(len as u64));
    proof {
        assert(popped(stack@, 1) =~= popped(old(stack)@, 1));
    }
    r
}

/// EXTCODECOPY (0x3C): pops an address, destination, offset and size and copies
/// that much of the account's code (zero past its end) to memory. The caller has
/// charged the cold cost; a warm account gets the difference back.
pub fn extcodecopy<S: State>(
    stack: &mut Stack,
    state: &S,
    memory: &mut Memory,
    is_warm: bool,
    gas_remaining: &mut u64,
) -> (r: Result<(), EvmError>)
    ensures
        old(stack)@.len() == 0 ==> r == Err::<(), EvmError>(
            EvmError::StackError(StackError::Underflow),
        ) && final(stack)@.len() == 0 && *final(gas_remaining) == *old(gas_remaining)
            && final(memory)@ == old(memory)@,
        old(stack)@.len() > 0 ==> *final(gas_remaining) == after_access(*old(gas_remaining), is_warm),
        0 < old(stack)@.len() < 4 ==> r == Err::<(), EvmError>(
            EvmError::StackError(StackError::Underflow),
        ) && final(stack)@.len() == 0 && final(memory)@ == old(memory)@,
        old(stack)@.len() >= 4 ==> final(stack)@ == popped(old(stack)@, 4) && {
                let a = word_to_address(nth(old(stack)@, 0)@);
                let dest = usize_of(nth(old(stack)@, 1)@);
                let offset = usize_of(nth(old(stack)@, 2)@);
                let size = usize_of(nth(old(stack)@, 3)@);
                if size == 0 {
                    r is Ok && final(memory)@ == old(memory)@
                } else if dest + size > usize::MAX {
                    r == Err::<(), EvmError>(EvmError::MemoryError(MemoryError::Overflow))
                        && final(memory)@ == old(memory)@
                } else {
                    r is Ok && final(memory)@ == write_at(
                        expand_to(old(memory)@, dest + size),
                        dest,
                        read_bytes(code_at(state.codes(), a), offset, size),
                    )
                }
            },
{
    let address = pop_address(stack)?;
    if is_warm {
        *gas_remaining = (*gas_remaining).saturating_add(2600 - 100);
    }
    let dest = pop_evm(stack)?.as_usize();
    let offset = pop_evm(stack)?.as_usize();
    let size = pop_evm(stack)?.as_usize();
    proof {
        assert(stack@ =~= popped(old(stack)@, 4));
    }
    if size == 0 {
        return Ok(());
    }
    let code = state.get_code(&address);
    let data = slice_padded(code, offset, size);
    let r = write_memory_bytes(memory, dest, data.as_slice(), size);
    proof {
        assert(data@.subrange(0, size as int) =~= data@);
    }
    r
}

/// EXTCODEHASH (0x3F): pops an address and pushes the Keccak-256 hash of its code
/// (of the empty code for an account without code). The caller has charged the
/// cold cost; a warm account gets the difference back.
pub fn extcodehash<S: State>(stack: &mut Stack, state: &S, is_warm: bool, gas_remaining: &mut u64) -> (r:
    Result<(), EvmError>)
    ensures
        old(stack)@.len() == 0 ==> r == Err::<(), EvmError>(
            EvmError::StackError(StackError::Underflow),
        ) && final(stack)@.len() == 0 && *final(gas_remaining) == *old(gas_remaining),
        old(stack)@.len() > 0 ==> r is Ok && *final(gas_remaining) == after_access(
            *old(gas_remaining),
            is_warm,
        ) && final(stack)@.len() == old(stack)@.len() && popped(final(stack)@, 1) == popped(
            old(stack)@,
            1,
        ) && final(stack)@.last()@ == be_val(
            keccak256_spec(code_at(state.codes(), word_to_address(old(stack)@.last()@))),
        ),
{
    let address = pop_address(stack)?;
    if is_warm {
        *gas_remaining = (*gas_remaining).saturating_add(2600 - 100);
    }
    let code_hash = keccak256(state.get_code(&address));
    let r = push_after_pop(stack, hash_to_u256(&code_hash));
    proof {
        assert(popped(stack@, 1) =~= popped(old(stack)@, 1));
    }
    r
}

/// SELFBALANCE (0x47): pushes the executing account's balance.
pub fn selfbalance<S: State>(stack: &mut Stack, state: &S, address: Address) -> (r: Result<
    (),
    EvmError,
>)
    ensures
        old(stack)@.len() >= MAX_STACK_SIZE ==> r == Err::<(), EvmError>(
            EvmError::StackError(StackError::Overflow),
        ) && final(stack)@ == old(stack)@,
        old(stack)@.len() < MAX_STACK_SIZE ==> r is Ok && final(stack)@ == old(stack)@.push(
            word_at(state.balances(), address),
        ),
{
    let b = state.get_balance(&address);
    match stack.push(b) {
        Ok(()) => Ok(()),
        Err(e) => Err(EvmError::StackError(e)),
    }
}

/// BLOBHASH (0x49): pops an index and pushes the host's blob hash there (zero when
/// there is none).
pub fn blobhash_with_host<S: State, H: Host<S>>(stack: &mut Stack, host: &H) -> (r: Result<
    (),
    OpcodeError,
>)
    ensures
        underflows(old(stack)@, final(stack)@, r, 1) || (old(stack)@.len() >= 1 && r is Ok
            && final(stack)@.len() == old(stack)@.len() && popped(final(stack)@, 1) == popped(
            old(stack)@,
            1,
        ) && exists|h: Option<crate::types::Hash>|
            #[trigger] host.answers_blobhash(old(stack)@.last(), h) && final(stack)@.last()@
                == hash_word(h)),
{
    let index = pop_word(stack)?;
    let answer = host.blobhash(&index);
    let hash = match answer {
        Some(h) => h,
        None => crate::types::Hash::zero(),
    };
    proof {
        crate::types::lemma_be_val_zeros(32);
        assert(be_val(hash@) == hash_word(answer));
    }
    push_word(stack, hash_to_u256(&hash))?;
    assert(host.answers_blobhash(old(stack)@.last(), answer));
    Ok(())
}

/// BLOBBASEFEE (0x4A): pushes the host's blob base fee.
pub fn blobbasefee_with_host<S: State, H: Host<S>>(stack: &mut Stack, host: &H) -> (r: Result<
    (),
    OpcodeError,
>)
    ensures
        old(stack)@.len() >= MAX_STACK_SIZE ==> r == Err::<(), OpcodeError>(
            OpcodeError::Stack(StackError::Overflow),
        ) && final(stack)@ == old(stack)@,
        old(stack)@.len() < MAX_STACK_SIZE ==> r is Ok && final(stack)@.len() == old(stack)@.len()
            + 1 && popped(final(stack)@, 1) == old(stack)@ && host.answers_blobbasefee(
            final(stack)@.last(),
        ),
{
    push_word(stack, host.blobbasefee())
}

// =============================================================================
// Hashing, RETURN and REVERT
// =============================================================================

/// Whether the memory cost of `size` bytes fits in 64 bits.
pub open spec fn cost_fits64(size: nat) -> bool {
    words(size) * words(size) <= u64::MAX
}

/// Whether a word-by-word read of `size` bytes at `offset` stays addressable and
/// its memory cost fits in 64 bits.
pub open spec fn range_fits(offset: nat, size: nat) -> bool {
    offset + 32 * words(size) <= usize::MAX && cost_fits64(offset + size)
}

/// The memory size after reading `size > 0` bytes at `offset` word by word:
/// the range rounded up to whole words from `offset`.
pub open spec fn word_read_end(offset: nat, size: nat) -> nat {
    offset + 32 * words(size)
}

/// Pops the offset and size of a memory range.
fn pop_range(stack: &mut Stack) -> (r: Result<(usize, usize), OpcodeError>)
    ensures
        old(stack)@.len() < 2 ==> r == Err::<(usize, usize), OpcodeError>(
            OpcodeError::Stack(StackError::Underflow),
        ) && final(stack)@.len() == 0,
        old(stack)@.len() >= 2 ==> r == Ok::<(usize, usize), OpcodeError>(
            (usize_of(nth(old(stack)@, 0)@) as usize, usize_of(nth(old(stack)@, 1)@) as usize),
        ) && final(stack)@ == popped(old(stack)@, 2),
        old(stack)@.len() <= MAX_STACK_SIZE,
{
    let offset = pop_word(stack)?.as_usize();
    let size = pop_word(stack)?.as_usize();
    proof {
        assert(stack@ =~= popped(old(stack)@, 2));
    }
    Ok((offset, size))
}

/// Reads `size > 0` bytes at `offset` after growing memory to cover them, then
/// grows memory to whole words from `offset`, as a word-by-word read does.
fn read_range_words(memory: &mut Memory, offset: usize, size: usize) -> (r: Vec<u8>)
    requires
        size > 0,
        offset + size <= usize::MAX,
        range_fits(offset as nat, size as nat),
        cost_fits64(old(memory)@.len()),
    ensures
        r@ == read_bytes(old(memory)@, offset as nat, size as nat),
        final(memory)@ == expand_to(old(memory)@, word_read_end(offset as nat, size as nat)),
{
    let end = offset + size;
    let _ = memory.expand(end);
    let ghost m1 = memory@;
    let mut data: Vec<u8> = Vec::new();
    let mut i: usize = 0;
    while i < size
        invariant
            i <= size,
            end == offset + size,
            memory@ == m1,
            m1.len() >= end,
            m1 == expand_to(old(memory)@, end as nat),
            data@ == read_bytes(old(memory)@, offset as nat, size as nat).subrange(0, i as int),
        decreases size - i,
    {
        data.push(memory.byte_at(offset + i));
        i = i + 1;
        proof {
            assert(data@ =~= read_bytes(old(memory)@, offset as nat, size as nat).subrange(
                0,
                i as int,
            ));
        }
    }
    proof {
        assert(data@ =~= read_bytes(old(memory)@, offset as nat, size as nat));
        assert(words(end as nat) * words(end as nat) <= u64::MAX);
        assert(words(size as nat) <= words(end as nat));
        assert(words(end as nat) <= 0x1_0000_0000) by (nonlinear_arith)
            requires
                words(end as nat) * words(end as nat) <= u64::MAX,
        ;
    }
    let w = size / 32 + if size % 32 == 0 {
        0
    } else {
        1
    };
    memory.ensure_capacity(offset + 32 * w);
    proof {
        assert(expand_to(m1, (offset + 32 * w) as nat) =~= expand_to(
            old(memory)@,
            word_read_end(offset as nat, size as nat),
        ));
    }
    data
}

/// SHA3 (0x20): pops an offset and a size and pushes the Keccak-256 hash of that
/// memory range, after growing memory to whole words from the offset.
pub fn sha3(stack: &mut Stack, memory: &mut Memory) -> (r: Result<(), OpcodeError>)
    requires
        cost_fits64(old(memory)@.len()),
        old(stack)@.len() >= 2 && usize_of(nth(old(stack)@, 1)@) > 0 && usize_of(
            nth(old(stack)@, 0)@,
        ) + usize_of(nth(old(stack)@, 1)@) <= usize::MAX ==> range_fits(
            usize_of(nth(old(stack)@, 0)@),
            usize_of(nth(old(stack)@, 1)@),
        ),
    ensures
        underflows(old(stack)@, final(stack)@, r, 2) && final(memory)@ == old(memory)@ || (old(stack)@.len() >= 2 && {
            let offset = usize_of(nth(old(stack)@, 0)@);
            let size = usize_of(nth(old(stack)@, 1)@);
            if size > 0 && offset + size > usize::MAX {
                r == Err::<(), OpcodeError>(OpcodeError::InvalidOffset) && final(memory)@ == old(memory)@ && final(stack)@ == popped(old(stack)@, 2)
            } else {
                &&& r is Ok
                &&& final(memory)@ == if size == 0 {
                    old(memory)@
                } else {
                    expand_to(old(memory)@, word_read_end(offset, size))
                }
                &&& final(stack)@ == popped(old(stack)@, 2).push(final(stack)@.last())
                &&& final(stack)@.last()@ == be_val(
                    keccak256_spec(read_bytes(old(memory)@, offset, size)),
                )
            }
        }),
{
    let ghost m0 = memory@;
    let (offset, size) = pop_range(stack)?;
    let data = if size == 0 {
        let d: Vec<u8> = Vec::new();
        proof {
            assert(d@ =~= read_bytes(m0, offset as nat, size as nat));
        }
        d
    } else {
        if offset > usize::MAX - size {
            return Err(OpcodeError::InvalidOffset);
        }
        read_range_words(memory, offset, size)
    };
    let hash = keccak256(data.as_slice());
    match stack.push(hash_to_u256(&hash)) {
        Ok(()) => Ok(()),
        Err(e) => Err(OpcodeError::Stack(e)),
    }
}

/// The contract shared by RETURN and REVERT.
pub open spec fn halts_with(
    before: Seq<U256>,
    after: Seq<U256>,
    m0: Seq<u8>,
    m1: Seq<u8>,
    r: Result<Vec<u8>, OpcodeError>,
) -> bool {
    if before.len() < 2 {
        r == Err::<Vec<u8>, OpcodeError>(OpcodeError::Stack(StackError::Underflow))
            && after.len() == 0 && m1 == m0
    } else {
        let offset = usize_of(nth(before, 0)@);
        let size = usize_of(nth(before, 1)@);
        &&& after == popped(before, 2)
        &&& if size == 0 {
            r matches Ok(v) && v@.len() == 0 && m1 == m0
        } else if offset + size > usize::MAX {
            r == Err::<Vec<u8>, OpcodeError>(OpcodeError::InvalidOffset) && m1 == m0
        } else {
            &&& r matches Ok(v) && v@ == read_bytes(m0, offset, size)
            &&& m1 == expand_to(m0, word_read_end(offset, size))
        }
    }
}

/// Reads the output range of RETURN and REVERT.
fn halt_output(stack: &mut Stack, memory: &mut Memory) -> (r: Result<Vec<u8>, OpcodeError>)
    requires
        cost_fits64(old(memory)@.len()),
        old(stack)@.len() >= 2 && usize_of(nth(old(stack)@, 1)@) > 0 && usize_of(
            nth(old(stack)@, 0)@,
        ) + usize_of(nth(old(stack)@, 1)@) <= usize::MAX ==> range_fits(
            usize_of(nth(old(stack)@, 0)@),
            usize_of(nth(old(stack)@, 1)@),
        ),
    ensures
        halts_with(old(stack)@, final(stack)@, old(memory)@, final(memory)@, r),
{
    let (offset, size) = pop_range(stack)?;
    if size == 0 {
        return Ok(Vec::new());
    }
    if offset > usize::MAX - size {
        return Err(OpcodeError::InvalidOffset);
    }
    Ok(read_range_words(memory, offset, size))
}

/// RETURN (0xF3): pops an offset and a size and returns that memory range.
pub fn op_return(stack: &mut Stack, memory: &mut Memory) -> (r: Result<Vec<u8>, OpcodeError>)
    requires
        cost_fits64(old(memory)@.len()),
        old(stack)@.len() >= 2 && usize_of(nth(old(stack)@, 1)@) > 0 && usize_of(
            nth(old(stack)@, 0)@,
        ) + usize_of(nth(old(stack)@, 1)@) <= usize::MAX ==> range_fits(
            usize_of(nth(old(stack)@, 0)@),
            usize_of(nth(old(stack)@, 1)@),
        ),
    ensures
        halts_with(old(stack)@, final(stack)@, old(memory)@, final(memory)@, r),
{
    halt_output(stack, memory)
}

/// REVERT (0xFD): pops an offset and a size and returns that memory range as the
/// revert data.
pub fn revert(stack: &mut Stack, memory: &mut Memory) -> (r: Result<Vec<u8>, OpcodeError>)
    requires
        cost_fits64(old(memory)@.len()),
        old(stack)@.len() >= 2 && usize_of(nth(old(stack)@, 1)@) > 0 && usize_of(
            nth(old(stack)@, 0)@,
        ) + usize_of(nth(old(stack)@, 1)@) <= usize::MAX ==> range_fits(
            usize_of(nth(old(stack)@, 0)@),
            usize_of(nth(old(stack)@, 1)@),
        ),
    ensures
        halts_with(old(stack)@, final(stack)@, old(memory)@, final(memory)@, r),
{
    halt_output(stack, memory)
}

/// SELFDESTRUCT (0xFF): pops the beneficiary and records the self-destruct of the
/// executing account.
pub fn execute_selfdestruct<S: State>(state: &mut S, stack: &mut Stack, self_address: Address) -> (r:
    Result<(), EvmError>)
    ensures
        old(stack)@.len() == 0 ==> r == Err::<(), EvmError>(
            EvmError::StackError(StackError::Underflow),
        ) && final(stack)@.len() == 0 && final(state).selfdestructs() == old(state).selfdestructs(),
        old(stack)@.len() > 0 ==> r is Ok && final(stack)@ == popped(old(stack)@, 1)
            && final(state).selfdestructs() == old(state).selfdestructs().push(
            (self_address, word_to_address(old(stack)@.last()@)),
        ),
        final(state).balances() == old(state).balances(),
        final(state).nonces() == old(state).nonces(),
        final(state).codes() == old(state).codes(),
        final(state).storage() == old(state).storage(),
        final(state).transient() == old(state).transient(),
{
    let beneficiary = pop_address(stack)?;
    state.selfdestruct(&self_address, &beneficiary);
    Ok(())
}

// =============================================================================
// Nested calls and creations
// =============================================================================

/// The gas forwarded to a callee: what was requested, capped at all but one 64th of
/// the gas left, plus the 2300 stipend (saturating) for a value transfer.
pub open spec fn forwarded_gas(requested: nat, gas: nat, value_transfer: bool) -> nat {
    let cap = (gas - gas / 64) as nat;
    let g = if requested > cap {
        cap
    } else {
        requested
    };
    if value_transfer {
        sat_add64(g, 2300)
    } else {
        g
    }
}

/// A word as a 64-bit gas amount, saturated.
pub open spec fn gas_of(v: nat) -> nat {
    if v <= u64::MAX {
        v
    } else {
        u64::MAX as nat
    }
}

/// Whether a call kind takes a value operand.
pub open spec fn takes_value(kind: CallKind) -> bool {
    kind == CallKind::Call || kind == CallKind::CallCode
}

/// The gas forwarded to a callee.
fn forward_gas(requested: u64, gas: u64, value_transfer: bool) -> (r: u64)
    ensures
        r == forwarded_gas(requested as nat, gas as nat, value_transfer),
{
    let cap = gas - gas / 64;
    let g = if requested > cap {
        cap
    } else {
        requested
    };
    if value_transfer {
        g.saturating_add(2300)
    } else {
        g
    }
}

/// What preparing a call does: the operands popped, the input read from memory,
/// the access, transfer and new-account charges, and the message for the host with
/// the output range, or the error.
pub open spec fn prepare_call_outcome<S: State>(
    kind: CallKind,
    state: S,
    call_env: CallEnv,
    is_warm: bool,
    s0: Seq<U256>,
    s1: Seq<U256>,
    m0: Seq<u8>,
    m1: Seq<u8>,
    gas0: u64,
    gas1: u64,
    r: Result<(CallMessage, usize, usize), EvmError>,
) -> bool {
    &&& (gas1 <= after_access(gas0, is_warm))
    &&& (({
            let s = s0;
            let n: nat = if takes_value(kind) { 7 } else { 6 };
            let k: int = if takes_value(kind) { 1 } else { 0 };
            if s.len() < n {
                &&& r == Err::<(CallMessage, usize, usize), EvmError>(
                    EvmError::StackError(StackError::Underflow),
                )
                &&& s1.len() == 0
                &&& m1 =~= m0
                &&& gas1 == gas0
            } else {
                let to = word_to_address(nth(s, 1)@);
                let value = if takes_value(kind) {
                    nth(s, 2)@
                } else {
                    0
                };
                let in_offset = usize_of(nth(s, 2 + k)@);
                let in_size = usize_of(nth(s, 3 + k)@);
                let ga = after_access(gas0, is_warm);
                let transfer = takes_value(kind) && value != 0;
                let cost: nat = if transfer {
                    9000 + if kind == CallKind::Call && !(state.balances().contains_key(to)
                        || state.nonces().contains_key(to) || state.codes().contains_key(to)) {
                        25000nat
                    } else {
                        0nat
                    }
                } else {
                    0
                };
                &&& s1 =~= popped(s, n)
                &&& in_size > 0 ==> m1 =~= expand_to(
                    m0,
                    read_touch(m0.len(), in_offset, in_size),
                )
                &&& in_size == 0 ==> m1 =~= m0
                &&& if in_size > 0 && in_offset + in_size - 1 > usize::MAX {
                    r == Err::<(CallMessage, usize, usize), EvmError>(EvmError::OutOfGas)
                } else if ga < cost {
                    r == Err::<(CallMessage, usize, usize), EvmError>(EvmError::OutOfGas)
                } else {
                    &&& gas1 == ga - cost
                    &&& r matches Ok(plan) && {
                        let msg = plan.0;
                        &&& msg.kind == kind
                        &&& msg.gas == forwarded_gas(gas_of(nth(s, 0)@), (ga - cost) as nat, transfer)
                        &&& msg.code_address == to
                        &&& msg.address == if kind == CallKind::Call || kind == CallKind::StaticCall {
                            to
                        } else {
                            call_env.self_address
                        }
                        &&& msg.caller == if kind == CallKind::DelegateCall {
                            call_env.caller
                        } else {
                            call_env.self_address
                        }
                        &&& msg.value@ == if kind == CallKind::DelegateCall {
                            call_env.call_value@
                        } else {
                            value
                        }
                        &&& msg.input@ == read_bytes(m0, in_offset, in_size)
                        &&& msg.is_static == (kind == CallKind::StaticCall)
                        &&& plan.1 == usize_of(nth(s, 4 + k)@)
                        &&& plan.2 == usize_of(nth(s, 5 + k)@)
                    }
                }
            }
        }))
}

/// Pops the operands of a call, reads its input from memory and charges the value
/// transfer costs; the message to hand to the host and the output range.
///
/// Operands, top first: gas, target, value (CALL and CALLCODE only), input offset,
/// input size, output offset, output size. A warm target gets 2600 − 100 back. A
/// value transfer costs 9000, and a CALL that transfers value to an account that
/// does not exist 25000 more. The message forwards the requested gas capped at all
/// but a 64th of the gas left, plus the 2300 stipend with a value transfer.
pub fn prepare_call<S: State>(
    kind: CallKind,
    state: &S,
    stack: &mut Stack,
    memory: &mut Memory,
    call_env: &CallEnv,
    gas_remaining: &mut u64,
    is_warm: bool,
) -> (r: Result<(CallMessage, usize, usize), EvmError>)
    requires
        old(memory)@.len() + 32 <= usize::MAX,
    ensures
        prepare_call_outcome(
            kind,
            *state,
            *call_env,
            is_warm,
            old(stack)@,
            final(stack)@,
            old(memory)@,
            final(memory)@,
            *old(gas_remaining),
            *final(gas_remaining),
            r,
        ),
{
    let ghost s = stack@;
    let gas_requested = pop_evm(stack)?.as_u64();
    let to = pop_address(stack)?;
    let value = if kind == CallKind::Call || kind == CallKind::CallCode {
        pop_evm(stack)?
    } else if kind == CallKind::DelegateCall {
        call_env.call_value
    } else {
        U256::zero()
    };
    let in_offset = pop_evm(stack)?.as_usize();
    let in_size = pop_evm(stack)?.as_usize();
    let out_offset = pop_evm(stack)?.as_usize();
    let out_size = pop_evm(stack)?.as_usize();
    proof {
        let n: int = if takes_value(kind) { 7 } else { 6 };
        assert(stack@ =~= popped(s, n as nat));
    }
    if is_warm {
        *gas_remaining = (*gas_remaining).saturating_add(2600 - 100);
    }
    let ghost m0 = memory@;
    let input = read_memory_bytes(memory, in_offset, in_size)?;
    proof {
        if in_size == 0 {
            assert(input@ =~= read_bytes(m0, in_offset as nat, in_size as nat));
        }
    }
    let is_value_transfer = (kind == CallKind::Call || kind == CallKind::CallCode) && !value.is_zero();
    if is_value_transfer {
        consume_gas(gas_remaining, 9000)?;
        if kind == CallKind::Call && !state.account_exists(&to) {
            consume_gas(gas_remaining, 25000)?;
        }
    }
    let gas_to_forward = forward_gas(gas_requested, *gas_remaining, is_value_transfer);
    let (address, caller) = if kind == CallKind::Call || kind == CallKind::StaticCall {
        (to, call_env.self_address)
    } else if kind == CallKind::DelegateCall {
        (call_env.self_address, call_env.caller)
    } else {
        (call_env.self_address, call_env.self_address)
    };
    let msg = CallMessage {
        kind,
        gas: gas_to_forward,
        address,
        caller,
        value,
        code_address: to,
        input,
        is_static: kind == CallKind::StaticCall,
    };
    Ok((msg, out_offset, out_size))
}

/// What applying the host's answer to a call does.
pub open spec fn complete_call_outcome(
    result: CallResult,
    gas_forwarded: u64,
    out_offset: usize,
    out_size: usize,
    s0: Seq<U256>,
    s1: Seq<U256>,
    m0: Seq<u8>,
    m1: Seq<u8>,
    gas0: u64,
    gas1: u64,
    rd0: Seq<u8>,
    rd1: Seq<u8>,
    r: Result<(), EvmError>,
) -> bool {
    &&& (gas1 <= gas0)
    &&& (result.gas_used > gas_forwarded || result.gas_used > gas0 ==> r == Err::<
            (),
            EvmError,
        >(EvmError::OutOfGas) && s1 =~= s0 && m1 =~= m0
            && rd1 =~= rd0)
    &&& (result.gas_used <= gas_forwarded && result.gas_used <= gas0 ==> {
            &&& gas1 == gas0 - result.gas_used
            &&& rd1 =~= result.return_data@
            &&& if out_size > 0 && out_offset + out_size > usize::MAX {
                &&& r == Err::<(), EvmError>(EvmError::MemoryError(MemoryError::Overflow))
                &&& m1 =~= m0
                &&& s1 =~= s0
            } else {
                &&& m1 =~= if out_size == 0 {
                    m0
                } else {
                    write_at(
                        expand_to(m0, (out_offset + out_size) as nat),
                        out_offset as nat,
                        result.return_data@.subrange(
                            0,
                            if out_size < result.return_data@.len() {
                                out_size as int
                            } else {
                                result.return_data@.len() as int
                            },
                        ),
                    )
                }
                &&& s0.len() >= MAX_STACK_SIZE ==> r == Err::<(), EvmError>(
                    EvmError::StackError(StackError::Overflow),
                ) && s1 =~= s0
                &&& s0.len() < MAX_STACK_SIZE ==> r is Ok && s1.len() == s0.len() + 1 && popped(s1, 1) =~= s0 && s1.last()@ == if result.success {
                    1nat
                } else {
                    0nat
                }
            }
        })
}

/// Applies the host's answer to a call: out of gas if the callee used more than
/// was forwarded or than is left; otherwise charges it, keeps the return data,
/// writes up to `out_size` bytes of it at `out_offset`, and pushes 1 on success
/// and 0 on failure.
pub fn complete_call(
    result: &CallResult,
    gas_forwarded: u64,
    out_offset: usize,
    out_size: usize,
    stack: &mut Stack,
    memory: &mut Memory,
    gas_remaining: &mut u64,
    return_data: &mut Vec<u8>,
) -> (r: Result<(), EvmError>)
    ensures
        complete_call_outcome(
            *result,
            gas_forwarded,
            out_offset,
            out_size,
            old(stack)@,
            final(stack)@,
            old(memory)@,
            final(memory)@,
            *old(gas_remaining),
            *final(gas_remaining),
            old(return_data)@,
            final(return_data)@,
            r,
        ),
{
    if result.gas_used > gas_forwarded {
        return Err(EvmError::OutOfGas);
    }
    consume_gas(gas_remaining, result.gas_used)?;
    *return_data = crate::types::bytes_to_vec(result.return_data.as_slice());
    write_memory_bytes(memory, out_offset, result.return_data.as_slice(), out_size)?;
    let flag = if result.success {
        U256::one()
    } else {
        U256::zero()
    };
    match stack.push(flag) {
        Ok(()) => {
            proof {
                assert(popped(stack@, 1) =~= old(stack)@);
            }
            Ok(())
        },
        Err(e) => Err(EvmError::StackError(e)),
    }
}

/// A call through the host: prepared as `prepare_call_outcome` states, giving the
/// plan and the stack, memory and gas in between; an error in preparing ends the
/// call there; otherwise the host answered `answer` to the plan's message, and the
/// answer is applied as `complete_call_outcome` states.
pub open spec fn call_via<S: State, H: Host<S>>(
    kind: CallKind,
    state0: S,
    host0: H,
    call_env: CallEnv,
    is_warm: bool,
    s0: Seq<U256>,
    m0: Seq<u8>,
    gas0: u64,
    rd0: Seq<u8>,
    smid: Seq<U256>,
    mmid: Seq<u8>,
    gmid: u64,
    plan: Result<(CallMessage, usize, usize), EvmError>,
    answer: CallResult,
    s1: Seq<U256>,
    m1: Seq<u8>,
    gas1: u64,
    rd1: Seq<u8>,
    r: Result<(), EvmError>,
) -> bool {
    &&& prepare_call_outcome(kind, state0, call_env, is_warm, s0, smid, m0, mmid, gas0, gmid, plan)
    &&& match plan {
        Err(e) => r == Err::<(), EvmError>(e) && s1 == smid && m1 == mmid && gas1 == gmid && rd1
            == rd0,
        Ok((msg, oo, os)) => host0.answers_call(state0, msg, answer) && complete_call_outcome(
            answer,
            msg.gas,
            oo,
            os,
            smid,
            s1,
            mmid,
            m1,
            gmid,
            gas1,
            rd0,
            rd1,
            r,
        ),
    }
}

/// A call opcode: prepares the message, hands it to the host, and applies the
/// answer. Whatever the host answers, the operands are gone from the stack, and on
/// success exactly one word, 1 or 0, replaced them.
fn run_call<S: State, H: Host<S>>(
    kind: CallKind,
    state: &mut S,
    host: &mut H,
    stack: &mut Stack,
    memory: &mut Memory,
    call_env: &CallEnv,
    gas_remaining: &mut u64,
    return_data: &mut Vec<u8>,
    is_warm: bool,
) -> (r: Result<(), EvmError>)
    requires
        old(memory)@.len() + 32 <= usize::MAX,
    ensures
        *final(gas_remaining) <= after_access(*old(gas_remaining), is_warm),
        ({
            let n: nat = if takes_value(kind) { 7 } else { 6 };
            &&& old(stack)@.len() < n ==> r == Err::<(), EvmError>(
                EvmError::StackError(StackError::Underflow),
            ) && final(stack)@.len() == 0 && *final(gas_remaining) == *old(gas_remaining)
            &&& r is Ok ==> old(stack)@.len() >= n && final(stack)@.len() == old(stack)@.len() - n + 1
                && popped(final(stack)@, 1) == popped(old(stack)@, n) && (final(stack)@.last()@ == 0
                || final(stack)@.last()@ == 1)
        }),
        exists|smid: Seq<U256>, mmid: Seq<u8>, gmid: u64, plan: Result<(CallMessage, usize, usize), EvmError>, answer: CallResult|
            #[trigger] call_via(
                kind,
                *old(state),
                *old(host),
                *call_env,
                is_warm,
                old(stack)@,
                old(memory)@,
                *old(gas_remaining),
                old(return_data)@,
                smid,
                mmid,
                gmid,
                plan,
                answer,
                final(stack)@,
                final(memory)@,
                *final(gas_remaining),
                final(return_data)@,
                r,
            ),
{
    let ghost st0 = *state;
    let ghost h0 = *host;
    let plan = prepare_call(kind, state, stack, memory, call_env, gas_remaining, is_warm);
    let ghost (smid, mmid, gmid, plan_g) = (stack@, memory@, *gas_remaining, plan);
    let (msg, out_offset, out_size) = match plan {
        Ok(p) => p,
        Err(e) => {
            proof {
                let answer: CallResult = arbitrary();
                assert(call_via(
                    kind,
                    st0,
                    h0,
                    *call_env,
                    is_warm,
                    old(stack)@,
                    old(memory)@,
                    *old(gas_remaining),
                    old(return_data)@,
                    smid,
                    mmid,
                    gmid,
                    plan_g,
                    answer,
                    stack@,
                    memory@,
                    *gas_remaining,
                    return_data@,
                    Err::<(), EvmError>(e),
                ));
            }
            return Err(e);
        },
    };
    let gas_forwarded = msg.gas;
    let result = host.call(state, msg);
    let r = complete_call(&result, gas_forwarded, out_offset, out_size, stack, memory, gas_remaining, return_data);
    proof {
        assert(call_via(
            kind,
            st0,
            h0,
            *call_env,
            is_warm,
            old(stack)@,
            old(memory)@,
            *old(gas_remaining),
            old(return_data)@,
            smid,
            mmid,
            gmid,
            plan_g,
            result,
            stack@,
            memory@,
            *gas_remaining,
            return_data@,
            r,
        ));
    }
    r
}

/// CALL (0xF1): message call to the target, running its code in its own context
/// with the value transferred.
pub fn execute_call<S: State, H: Host<S>>(
    state: &mut S,
    host: &mut H,
    stack: &mut Stack,
    memory: &mut Memory,
    call_env: &CallEnv,
    gas_remaining: &mut u64,
    return_data: &mut Vec<u8>,
    is_warm: bool,
) -> (r: Result<(), EvmError>)
    requires
        old(memory)@.len() + 32 <= usize::MAX,
    ensures
        *final(gas_remaining) <= after_access(*old(gas_remaining), is_warm),
        old(stack)@.len() < 7 ==> r == Err::<(), EvmError>(
            EvmError::StackError(StackError::Underflow),
        ) && final(stack)@.len() == 0 && *final(gas_remaining) == *old(gas_remaining),
        r is Ok ==> old(stack)@.len() >= 7 && final(stack)@.len() == old(stack)@.len() - 6
            && popped(final(stack)@, 1) == popped(old(stack)@, 7) && (final(stack)@.last()@ == 0
            || final(stack)@.last()@ == 1),
        exists|smid: Seq<U256>, mmid: Seq<u8>, gmid: u64, plan: Result<(CallMessage, usize, usize), EvmError>, answer: CallResult|
            #[trigger] call_via(
                CallKind::Call,
                *old(state),
                *old(host),
                *call_env,
                is_warm,
                old(stack)@,
                old(memory)@,
                *old(gas_remaining),
                old(return_data)@,
                smid,
                mmid,
                gmid,
                plan,
                answer,
                final(stack)@,
                final(memory)@,
                *final(gas_remaining),
                final(return_data)@,
                r,
            ),
{
    run_call(CallKind::Call, state, host, stack, memory, call_env, gas_remaining, return_data, is_warm)
}

/// CALLCODE (0xF2): runs the target's code in the executing account's context.
pub fn execute_callcode<S: State, H: Host<S>>(
    state: &mut S,
    host: &mut H,
    stack: &mut Stack,
    memory: &mut Memory,
    call_env: &CallEnv,
    gas_remaining: &mut u64,
    return_data: &mut Vec<u8>,
    is_warm: bool,
) -> (r: Result<(), EvmError>)
    requires
        old(memory)@.len() + 32 <= usize::MAX,
    ensures
        *final(gas_remaining) <= after_access(*old(gas_remaining), is_warm),
        old(stack)@.len() < 7 ==> r == Err::<(), EvmError>(
            EvmError::StackError(StackError::Underflow),
        ) && final(stack)@.len() == 0 && *final(gas_remaining) == *old(gas_remaining),
        r is Ok ==> old(stack)@.len() >= 7 && final(stack)@.len() == old(stack)@.len() - 6
            && popped(final(stack)@, 1) == popped(old(stack)@, 7) && (final(stack)@.last()@ == 0
            || final(stack)@.last()@ == 1),
        exists|smid: Seq<U256>, mmid: Seq<u8>, gmid: u64, plan: Result<(CallMessage, usize, usize), EvmError>, answer: CallResult|
            #[trigger] call_via(
                CallKind::CallCode,
                *old(state),
                *old(host),
                *call_env,
                is_warm,
                old(stack)@,
                old(memory)@,
                *old(gas_remaining),
                old(return_data)@,
                smid,
                mmid,
                gmid,
                plan,
                answer,
                final(stack)@,
                final(memory)@,
                *final(gas_remaining),
                final(return_data)@,
                r,
            ),
{
    run_call(
        CallKind::CallCode,
        state,
        host,
        stack,
        memory,
        call_env,
        gas_remaining,
        return_data,
        is_warm,
    )
}

/// DELEGATECALL (0xF4): runs the target's code with the executing frame's caller,
/// value and account.
pub fn execute_delegatecall<S: State, H: Host<S>>(
    state: &mut S,
    host: &mut H,
    stack: &mut Stack,
    memory: &mut Memory,
    call_env: &CallEnv,
    gas_remaining: &mut u64,
    return_data: &mut Vec<u8>,
    is_warm: bool,
) -> (r: Result<(), EvmError>)
    requires
        old(memory)@.len() + 32 <= usize::MAX,
    ensures
        *final(gas_remaining) <= after_access(*old(gas_remaining), is_warm),
        old(stack)@.len() < 6 ==> r == Err::<(), EvmError>(
            EvmError::StackError(StackError::Underflow),
        ) && final(stack)@.len() == 0 && *final(gas_remaining) == *old(gas_remaining),
        r is Ok ==> old(stack)@.len() >= 6 && final(stack)@.len() == old(stack)@.len() - 5
            && popped(final(stack)@, 1) == popped(old(stack)@, 6) && (final(stack)@.last()@ == 0
            || final(stack)@.last()@ == 1),
        exists|smid: Seq<U256>, mmid: Seq<u8>, gmid: u64, plan: Result<(CallMessage, usize, usize), EvmError>, answer: CallResult|
            #[trigger] call_via(
                CallKind::DelegateCall,
                *old(state),
                *old(host),
                *call_env,
                is_warm,
                old(stack)@,
                old(memory)@,
                *old(gas_remaining),
                old(return_data)@,
                smid,
                mmid,
                gmid,
                plan,
                answer,
                final(stack)@,
                final(memory)@,
                *final(gas_remaining),
                final(return_data)@,
                r,
            ),
{
    run_call(
        CallKind::DelegateCall,
        state,
        host,
        stack,
        memory,
        call_env,
        gas_remaining,
        return_data,
        is_warm,
    )
}

/// STATICCALL (0xFA): a call that may not change state, with no value.
pub fn execute_staticcall<S: State, H: Host<S>>(
    state: &mut S,
    host: &mut H,
    stack: &mut Stack,
    memory: &mut Memory,
    call_env: &CallEnv,
    gas_remaining: &mut u64,
    return_data: &mut Vec<u8>,
    is_warm: bool,
) -> (r: Result<(), EvmError>)
    requires
        old(memory)@.len() + 32 <= usize::MAX,
    ensures
        *final(gas_remaining) <= after_access(*old(gas_remaining), is_warm),
        old(stack)@.len() < 6 ==> r == Err::<(), EvmError>(
            EvmError::StackError(StackError::Underflow),
        ) && final(stack)@.len() == 0 && *final(gas_remaining) == *old(gas_remaining),
        r is Ok ==> old(stack)@.len() >= 6 && final(stack)@.len() == old(stack)@.len() - 5
            && popped(final(stack)@, 1) == popped(old(stack)@, 6) && (final(stack)@.last()@ == 0
            || final(stack)@.last()@ == 1),
        exists|smid: Seq<U256>, mmid: Seq<u8>, gmid: u64, plan: Result<(CallMessage, usize, usize), EvmError>, answer: CallResult|
            #[trigger] call_via(
                CallKind::StaticCall,
                *old(state),
                *old(host),
                *call_env,
                is_warm,
                old(stack)@,
                old(memory)@,
                *old(gas_remaining),
                old(return_data)@,
                smid,
                mmid,
                gmid,
                plan,
                answer,
                final(stack)@,
                final(memory)@,
                *final(gas_remaining),
                final(return_data)@,
                r,
            ),
{
    run_call(
        CallKind::StaticCall,
        state,
        host,
        stack,
        memory,
        call_env,
        gas_remaining,
        return_data,
        is_warm,
    )
}

/// What preparing a creation does: the operands popped, the init code read from
/// memory, and the message for the host, or the error.
pub open spec fn prepare_create_outcome(
    with_salt: bool,
    call_env: CallEnv,
    gas0: u64,
    s0: Seq<U256>,
    s1: Seq<U256>,
    m0: Seq<u8>,
    m1: Seq<u8>,
    r: Result<CreateMessage, EvmError>,
) -> bool {
    &&& (({
            let s = s0;
            let n: nat = if with_salt { 4 } else { 3 };
            if s.len() < n {
                &&& r == Err::<CreateMessage, EvmError>(EvmError::StackError(StackError::Underflow))
                &&& s1.len() == 0
                &&& m1 =~= m0
            } else {
                let offset = usize_of(nth(s, 1)@);
                let size = usize_of(nth(s, 2)@);
                &&& s1 =~= popped(s, n)
                &&& size > 0 ==> m1 =~= expand_to(
                    m0,
                    read_touch(m0.len(), offset, size),
                )
                &&& size == 0 ==> m1 =~= m0
                &&& if size > 0 && offset + size - 1 > usize::MAX {
                    r == Err::<CreateMessage, EvmError>(EvmError::OutOfGas)
                } else {
                    r matches Ok(msg) && msg.gas == gas0 - gas0 / 64
                        && msg.caller == call_env.self_address && msg.value == nth(s, 0)
                        && msg.init_code@ == read_bytes(m0, offset, size) && (if with_salt {
                        msg.salt == Some(nth(s, 3))
                    } else {
                        msg.salt is None
                    })
                }
            }
        }))
}

/// Pops the operands of a creation (value, offset, size, and the salt for CREATE2)
/// and reads the init code; the message to hand to the host, which forwards all
/// but a 64th of the gas left.
pub fn prepare_create(
    with_salt: bool,
    stack: &mut Stack,
    memory: &mut Memory,
    call_env: &CallEnv,
    gas_remaining: u64,
) -> (r: Result<CreateMessage, EvmError>)
    requires
        old(memory)@.len() + 32 <= usize::MAX,
    ensures
        prepare_create_outcome(
            with_salt,
            *call_env,
            gas_remaining,
            old(stack)@,
            final(stack)@,
            old(memory)@,
            final(memory)@,
            r,
        ),
{
    let ghost s = stack@;
    let value = pop_evm(stack)?;
    let offset = pop_evm(stack)?.as_usize();
    let size = pop_evm(stack)?.as_usize();
    let salt = if with_salt {
        Some(pop_evm(stack)?)
    } else {
        None
    };
    proof {
        let n: int = if with_salt { 4 } else { 3 };
        assert(stack@ =~= popped(s, n as nat));
    }
    let ghost m0 = memory@;
    let init_code = read_memory_bytes(memory, offset, size)?;
    proof {
        if size == 0 {
            assert(init_code@ =~= read_bytes(m0, offset as nat, size as nat));
        }
    }
    let max_gas = gas_remaining - gas_remaining / 64;
    Ok(CreateMessage { gas: max_gas, caller: call_env.self_address, value, init_code, salt })
}

/// What applying the host's answer to a creation does.
pub open spec fn complete_create_outcome(
    result: CreateResult,
    gas_forwarded: u64,
    s0: Seq<U256>,
    s1: Seq<U256>,
    gas0: u64,
    gas1: u64,
    rd0: Seq<u8>,
    rd1: Seq<u8>,
    r: Result<(), EvmError>,
) -> bool {
    &&& (gas1 <= gas0)
    &&& (result.gas_used > gas_forwarded || result.gas_used > gas0 ==> r == Err::<
            (),
            EvmError,
        >(EvmError::OutOfGas) && s1 =~= s0 && rd1 =~= rd0)
    &&& (result.gas_used <= gas_forwarded && result.gas_used <= gas0 ==> {
            &&& gas1 == gas0 - result.gas_used
            &&& rd1 =~= result.return_data@
            &&& s0.len() >= MAX_STACK_SIZE ==> r == Err::<(), EvmError>(
                EvmError::StackError(StackError::Overflow),
            ) && s1 =~= s0
            &&& s0.len() < MAX_STACK_SIZE ==> r is Ok && s1.len() == s0.len() + 1 && popped(s1, 1) =~= s0 && s1.last()@
                == if result.success {
                match result.address {
                    Some(a) => be_val(a@),
                    None => 0nat,
                }
            } else {
                0nat
            }
        })
}

/// A creation through the host: prepared as `prepare_create_outcome` states; an
/// error in preparing ends it there; otherwise the host answered `answer` to the
/// message, applied as `complete_create_outcome` states.
pub open spec fn create_via<S: State, H: Host<S>>(
    with_salt: bool,
    state0: S,
    host0: H,
    call_env: CallEnv,
    s0: Seq<U256>,
    m0: Seq<u8>,
    gas0: u64,
    rd0: Seq<u8>,
    smid: Seq<U256>,
    plan: Result<CreateMessage, EvmError>,
    answer: CreateResult,
    s1: Seq<U256>,
    m1: Seq<u8>,
    gas1: u64,
    rd1: Seq<u8>,
    r: Result<(), EvmError>,
) -> bool {
    &&& prepare_create_outcome(with_salt, call_env, gas0, s0, smid, m0, m1, plan)
    &&& match plan {
        Err(e) => r == Err::<(), EvmError>(e) && s1 == smid && gas1 == gas0 && rd1 == rd0,
        Ok(msg) => host0.answers_create(state0, msg, answer) && complete_create_outcome(
            answer,
            msg.gas,
            smid,
            s1,
            gas0,
            gas1,
            rd0,
            rd1,
            r,
        ),
    }
}

/// Applies the host's answer to a creation: out of gas if the init code used more
/// than was forwarded or than is left; otherwise charges it, keeps the return data,
/// and pushes the new address on success (zero if the host named none) and 0 on
/// failure.
pub fn complete_create(
    result: &CreateResult,
    gas_forwarded: u64,
    stack: &mut Stack,
    gas_remaining: &mut u64,
    return_data: &mut Vec<u8>,
) -> (r: Result<(), EvmError>)
    ensures
        complete_create_outcome(
            *result,
            gas_forwarded,
            old(stack)@,
            final(stack)@,
            *old(gas_remaining),
            *final(gas_remaining),
            old(return_data)@,
            final(return_data)@,
            r,
        ),
{
    if result.gas_used > gas_forwarded {
        return Err(EvmError::OutOfGas);
    }
    consume_gas(gas_remaining, result.gas_used)?;
    *return_data = crate::types::bytes_to_vec(result.return_data.as_slice());
    let word = if result.success {
        match result.address {
            Some(a) => address_to_u256(&a),
            None => {
                let z = Address::zero();
                let w = address_to_u256(&z);
                proof {
                    crate::types::lemma_be_val_zeros(20);
                }
                w
            },
        }
    } else {
        U256::zero()
    };
    match stack.push(word) {
        Ok(()) => {
            proof {
                assert(popped(stack@, 1) =~= old(stack)@);
            }
            Ok(())
        },
        Err(e) => Err(EvmError::StackError(e)),
    }
}

/// A creation: prepares the message, hands it to the host, and applies the answer.
fn run_create<S: State, H: Host<S>>(
    with_salt: bool,
    state: &mut S,
    host: &mut H,
    stack: &mut Stack,
    memory: &mut Memory,
    call_env: &CallEnv,
    gas_remaining: &mut u64,
    return_data: &mut Vec<u8>,
) -> (r: Result<(), EvmError>)
    requires
        old(memory)@.len() + 32 <= usize::MAX,
    ensures
        *final(gas_remaining) <= *old(gas_remaining),
        ({
            let n: nat = if with_salt { 4 } else { 3 };
            &&& old(stack)@.len() < n ==> r == Err::<(), EvmError>(
                EvmError::StackError(StackError::Underflow),
            ) && final(stack)@.len() == 0 && *final(gas_remaining) == *old(gas_remaining)
            &&& r is Ok ==> old(stack)@.len() >= n && final(stack)@.len() == old(stack)@.len() - n + 1
                && popped(final(stack)@, 1) == popped(old(stack)@, n)
        }),
        exists|smid: Seq<U256>, plan: Result<CreateMessage, EvmError>, answer: CreateResult|
            #[trigger] create_via(
                with_salt,
                *old(state),
                *old(host),
                *call_env,
                old(stack)@,
                old(memory)@,
                *old(gas_remaining),
                old(return_data)@,
                smid,
                plan,
                answer,
                final(stack)@,
                final(memory)@,
                *final(gas_remaining),
                final(return_data)@,
                r,
            ),
{
    let ghost st0 = *state;
    let ghost h0 = *host;
    let plan = prepare_create(with_salt, stack, memory, call_env, *gas_remaining);
    let ghost (smid, plan_g) = (stack@, plan);
    let msg = match plan {
        Ok(m) => m,
        Err(e) => {
            proof {
                let answer: CreateResult = arbitrary();
                assert(create_via(
                    with_salt,
                    st0,
                    h0,
                    *call_env,
                    old(stack)@,
                    old(memory)@,
                    *old(gas_remaining),
                    old(return_data)@,
                    smid,
                    plan_g,
                    answer,
                    stack@,
                    memory@,
                    *gas_remaining,
                    return_data@,
                    Err::<(), EvmError>(e),
                ));
            }
            return Err(e);
        },
    };
    let gas_forwarded = msg.gas;
    let ghost mem1 = memory@;
    let result = host.create(state, msg);
    let r = complete_create(&result, gas_forwarded, stack, gas_remaining, return_data);
    proof {
        assert(create_via(
            with_salt,
            st0,
            h0,
            *call_env,
            old(stack)@,
            old(memory)@,
            *old(gas_remaining),
            old(return_data)@,
            smid,
            plan_g,
            result,
            stack@,
            memory@,
            *gas_remaining,
            return_data@,
            r,
        ));
    }
    r
}

/// CREATE (0xF0): creates an account from init code in memory.
pub fn execute_create<S: State, H: Host<S>>(
    state: &mut S,
    host: &mut H,
    stack: &mut Stack,
    memory: &mut Memory,
    call_env: &CallEnv,
    gas_remaining: &mut u64,
    return_data: &mut Vec<u8>,
) -> (r: Result<(), EvmError>)
    requires
        old(memory)@.len() + 32 <= usize::MAX,
    ensures
        *final(gas_remaining) <= *old(gas_remaining),
        old(stack)@.len() < 3 ==> r == Err::<(), EvmError>(
            EvmError::StackError(StackError::Underflow),
        ) && final(stack)@.len() == 0 && *final(gas_remaining) == *old(gas_remaining),
        r is Ok ==> old(stack)@.len() >= 3 && final(stack)@.len() == old(stack)@.len() - 2
            && popped(final(stack)@, 1) == popped(old(stack)@, 3),
        exists|smid: Seq<U256>, plan: Result<CreateMessage, EvmError>, answer: CreateResult|
            #[trigger] create_via(
                false,
                *old(state),
                *old(host),
                *call_env,
                old(stack)@,
                old(memory)@,
                *old(gas_remaining),
                old(return_data)@,
                smid,
                plan,
                answer,
                final(stack)@,
                final(memory)@,
                *final(gas_remaining),
                final(return_data)@,
                r,
            ),
{
    run_create(false, state, host, stack, memory, call_env, gas_remaining, return_data)
}

/// CREATE2 (0xF5): creates an account from init code in memory and a salt.
pub fn execute_create2<S: State, H: Host<S>>(
    state: &mut S,
    host: &mut H,
    stack: &mut Stack,
    memory: &mut Memory,
    call_env: &CallEnv,
    gas_remaining: &mut u64,
    return_data: &mut Vec<u8>,
) -> (r: Result<(), EvmError>)
    requires
        old(memory)@.len() + 32 <= usize::MAX,
    ensures
        *final(gas_remaining) <= *old(gas_remaining),
        old(stack)@.len() < 4 ==> r == Err::<(), EvmError>(
            EvmError::StackError(StackError::Underflow),
        ) && final(stack)@.len() == 0 && *final(gas_remaining) == *old(gas_remaining),
        r is Ok ==> old(stack)@.len() >= 4 && final(stack)@.len() == old(stack)@.len() - 3
            && popped(final(stack)@, 1) == popped(old(stack)@, 4),
        exists|smid: Seq<U256>, plan: Result<CreateMessage, EvmError>, answer: CreateResult|
            #[trigger] create_via(
                true,
                *old(state),
                *old(host),
                *call_env,
                old(stack)@,
                old(memory)@,
                *old(gas_remaining),
                old(return_data)@,
                smid,
                plan,
                answer,
                final(stack)@,
                final(memory)@,
                *final(gas_remaining),
                final(return_data)@,
                r,
            ),
{
    run_create(true, state, host, stack, memory, call_env, gas_remaining, return_data)
}

} // verus!
