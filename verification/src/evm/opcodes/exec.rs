//! The opcode dispatcher: executes one opcode against the machine (stack, memory,
//! gas, return data, warm sets), the world state and the host, charging its
//! dynamic gas, and tells the interpreter how to continue.

use vstd::prelude::*;
use crate::evm::error::EvmError;
use crate::evm::gas::{
    memory_expansion_cost, memory_expansion_cost_for_range, memory_cost, memory_cost_fits, words,
    copy_gas_cost,
    create2_hash_cost, init_code_gas_cost, sat_add, sstore_cost, GAS_CREATE2_WORD,
    GAS_INIT_CODE_WORD,
};
use crate::evm::host::{
    CallKind, CallMessage, CallResult, CreateMessage, CreateResult, Host, compute_create_address,
    compute_create2_address, create_address_spec, create2_address_spec,
};
use crate::evm::memory::{Memory, MemoryError, expand_to, write_at};
use crate::evm::opcodes::arithmetic::{self, pops_push, arg, exp_spec};
use crate::evm::opcodes::control::{self, OpcodeError, nth, popped, usize_of};
use crate::evm::opcodes::environment::{self, CallEnv, slice_padded};
use crate::evm::opcodes::log;
use crate::evm::opcodes::utils;
use crate::evm::stack::{Stack, StackError, swapped};
use crate::state::{AssocList, State, code_at, word_at};
use crate::types::{Address, U256, be_bytes, be_val, pow256, significant_bytes};
use crate::evm::opcodes::utils::{read_bytes, read_touch};
use crate::crypto::keccak::keccak256_spec;

verus! {

/// How the interpreter continues after an opcode.
#[derive(Debug)]
pub enum StepOutcome {
    /// Advance the program counter by this much.
    Continue(u32),
    /// STOP: halt successfully.
    Stop,
    /// RETURN: halt successfully with this output.
    Return(Vec<u8>),
    /// REVERT: fail with this output.
    Revert(Vec<u8>),
    /// JUMP/JUMPI: continue at this program counter.
    Jump(usize),
    /// LOG: record a log entry (account, topics, data) and advance by one.
    Log(Address, Vec<crate::types::Hash>, Vec<u8>),
}

/// A storage write (account, key, value), reported for tracing.
pub type StorageWriteInfo = (Address, U256, U256);

/// Accounts already accessed in the transaction (EIP-2929).
pub type WarmAddresses = AssocList<Address, ()>;

/// Storage slots already accessed in the transaction (EIP-2929).
pub type WarmSlots = AssocList<(Address, U256), ()>;

/// The read-only context of an opcode: the code and position, the valid jump
/// destinations, and the block, transaction and call data.
pub struct ExecContext<'a> {
    /// The executing code.
    pub code: &'a [u8],
    /// The program counter of the opcode.
    pub pc: usize,
    /// `jumpdests[i]` holds when `i` is a valid jump destination.
    pub jumpdests: &'a [bool],
    /// Block number.
    pub block_number: U256,
    /// Block timestamp.
    pub block_timestamp: U256,
    /// Block beneficiary.
    pub block_coinbase: Address,
    /// Block difficulty (PREVRANDAO).
    pub block_difficulty: U256,
    /// Block gas limit.
    pub block_gas_limit: U256,
    /// Chain identifier.
    pub block_chain_id: U256,
    /// Base fee.
    pub block_base_fee: U256,
    /// Excess blob gas.
    pub block_excess_blob_gas: Option<U256>,
    /// Transaction sender.
    pub tx_origin: Address,
    /// Gas price.
    pub tx_gas_price: U256,
    /// The executing account.
    pub call_address: Address,
    /// The caller.
    pub call_caller: Address,
    /// The value sent.
    pub call_value: U256,
    /// The call data.
    pub call_data: &'a [u8],
}

/// What an opcode reads of its context, as plain values.
pub struct ContextView {
    pub code: Seq<u8>,
    pub pc: usize,
    pub jumpdests: Seq<bool>,
    pub block_number: U256,
    pub block_timestamp: U256,
    pub block_coinbase: Address,
    pub block_difficulty: U256,
    pub block_gas_limit: U256,
    pub block_chain_id: U256,
    pub block_base_fee: U256,
    pub block_excess_blob_gas: Option<U256>,
    pub tx_origin: Address,
    pub tx_gas_price: U256,
    pub call_address: Address,
    pub call_caller: Address,
    pub call_value: U256,
    pub call_data: Seq<u8>,
}

impl<'a> View for ExecContext<'a> {
    type V = ContextView;

    open spec fn view(&self) -> ContextView {
        ContextView {
            code: self.code@,
            pc: self.pc,
            jumpdests: self.jumpdests@,
            block_number: self.block_number,
            block_timestamp: self.block_timestamp,
            block_coinbase: self.block_coinbase,
            block_difficulty: self.block_difficulty,
            block_gas_limit: self.block_gas_limit,
            block_chain_id: self.block_chain_id,
            block_base_fee: self.block_base_fee,
            block_excess_blob_gas: self.block_excess_blob_gas,
            tx_origin: self.tx_origin,
            tx_gas_price: self.tx_gas_price,
            call_address: self.call_address,
            call_caller: self.call_caller,
            call_value: self.call_value,
            call_data: self.call_data@,
        }
    }
}

// =============================================================================
// Specification
// =============================================================================

/// Whether a byte is an opcode this machine executes.
pub open spec fn is_defined(op: u8) -> bool {
    op <= 0x0B || (0x10 <= op && op <= 0x1D) || op == 0x20 || (0x30 <= op && op <= 0x4A) || (0x50
        <= op && op <= 0xA4) || op == 0xF0 || op == 0xF1 || op == 0xF2 || op == 0xF3 || op == 0xF4
        || op == 0xF5 || op == 0xFA || op == 0xFD || op == 0xFE || op == 0xFF
}

/// The most gas an opcode can give back after its base cost was charged: the
/// cold-access cost of a warm account or slot less the warm cost.
pub open spec fn refund_bound(op: u8) -> nat {
    if op == 0x31 || op == 0x3B || op == 0x3C || op == 0x3F || op == 0xF1 || op == 0xF2 || op
        == 0xF4 || op == 0xFA {
        2500
    } else if op == 0x54 {
        2000
    } else {
        0
    }
}

/// Every opcode that can continue execution costs more base gas than it can give
/// back (SSTORE, whose base cost is zero, charges its cost itself).
pub proof fn lemma_base_exceeds_refund(op: u8)
    requires
        is_defined(op),
        op != 0x00,
        op != 0x55,
        op != 0xF3,
        op != 0xFD,
        op != 0xFE,
    ensures
        crate::evm::gas::opcode_base_gas(op) > refund_bound(op),
{
}

/// Whether an opcode only transforms the stack by an arithmetic, comparison or
/// bitwise rule (EXP excepted: it also charges gas).
pub open spec fn is_stack_arith(op: u8) -> bool {
    (0x01 <= op && op <= 0x0B && op != 0x0A) || (0x10 <= op && op <= 0x1D)
}

/// How many operands such an opcode pops.
pub open spec fn arith_arity(op: u8) -> nat {
    if op == 0x08 || op == 0x09 {
        3
    } else if op == 0x15 || op == 0x19 {
        1
    } else {
        2
    }
}

/// The value such an opcode pushes.
pub open spec fn arith_value(op: u8, s: Seq<U256>) -> nat {
    let a = arg(s, 0);
    let b = arg(s, 1);
    if op == 0x01 {
        arithmetic::add_spec(a, b)
    } else if op == 0x02 {
        arithmetic::mul_spec(a, b)
    } else if op == 0x03 {
        arithmetic::sub_spec(a, b)
    } else if op == 0x04 {
        arithmetic::div_spec(a, b)
    } else if op == 0x05 {
        arithmetic::sdiv_spec(a, b)
    } else if op == 0x06 {
        arithmetic::mod_spec(a, b)
    } else if op == 0x07 {
        arithmetic::smod_spec(a, b)
    } else if op == 0x08 {
        arithmetic::addmod_spec(a, b, arg(s, 2))
    } else if op == 0x09 {
        arithmetic::mulmod_spec(a, b, arg(s, 2))
    } else if op == 0x0B {
        arithmetic::signextend_spec(a, b)
    } else if op == 0x10 {
        arithmetic::flag(a < b)
    } else if op == 0x11 {
        arithmetic::flag(a > b)
    } else if op == 0x12 {
        arithmetic::flag(crate::types::to_signed(a) < crate::types::to_signed(b))
    } else if op == 0x13 {
        arithmetic::flag(crate::types::to_signed(a) > crate::types::to_signed(b))
    } else if op == 0x14 {
        arithmetic::flag(a == b)
    } else if op == 0x15 {
        arithmetic::flag(a == 0)
    } else if op == 0x16 {
        arithmetic::and_word(s[s.len() - 1], s[s.len() - 2])@
    } else if op == 0x17 {
        arithmetic::or_word(s[s.len() - 1], s[s.len() - 2])@
    } else if op == 0x18 {
        arithmetic::xor_word(s[s.len() - 1], s[s.len() - 2])@
    } else if op == 0x19 {
        (pow256() - 1 - a) as nat
    } else if op == 0x1A {
        arithmetic::byte_spec(a, b)
    } else if op == 0x1B {
        arithmetic::shl_spec(a, b)
    } else if op == 0x1C {
        arithmetic::shr_spec(a, b)
    } else {
        arithmetic::sar_spec(a, b)
    }
}

// =============================================================================
// Helpers
// =============================================================================

/// The interpreter's error for an opcode error.
fn opcode_error_to_evm(err: OpcodeError) -> (r: EvmError)
    ensures
        err matches OpcodeError::Stack(e) ==> r == EvmError::StackError(e),
        err matches OpcodeError::Memory(e) ==> r == EvmError::MemoryError(e),
        err == OpcodeError::InvalidJumpDestination ==> r == EvmError::InvalidJump,
        err == OpcodeError::InvalidPush ==> r == EvmError::InvalidPush,
        err == OpcodeError::InvalidProgramCounter ==> r == EvmError::PcOutOfBounds,
        err == OpcodeError::InvalidOffset ==> r == EvmError::MemoryError(MemoryError::InvalidOffset),
        err == OpcodeError::NotImplemented ==> r == EvmError::InvalidOpcode(0),
{
    match err {
        OpcodeError::InvalidJumpDestination => EvmError::InvalidJump,
        OpcodeError::InvalidPush => EvmError::InvalidPush,
        OpcodeError::Stack(e) => EvmError::StackError(e),
        OpcodeError::Memory(e) => EvmError::MemoryError(e),
        OpcodeError::InvalidProgramCounter => EvmError::PcOutOfBounds,
        OpcodeError::InvalidOffset => EvmError::MemoryError(MemoryError::InvalidOffset),
        OpcodeError::NotImplemented => EvmError::InvalidOpcode(0),
    }
}

/// The interpreter's error for an arithmetic opcode error.
fn arith_error_to_evm(err: arithmetic::EvmError) -> (r: EvmError)
    ensures
        err matches arithmetic::EvmError::Stack(e) ==> r == EvmError::StackError(e),
        err matches arithmetic::EvmError::Memory(e) ==> r == EvmError::MemoryError(e),
{
    match err {
        arithmetic::EvmError::Stack(e) => EvmError::StackError(e),
        arithmetic::EvmError::Memory(e) => EvmError::MemoryError(e),
    }
}

/// Whether an account is warm; marks it warm.
pub fn access_address(set: &mut WarmAddresses, address: &Address) -> (r: bool)
    ensures
        r == old(set).map().contains_key(*address),
        final(set).map().dom() == old(set).map().dom().insert(*address),
{
    let warm = set.get(address).is_some();
    if !warm {
        set.insert(*address, ());
    } else {
        proof {
            assert(old(set).map().dom().insert(*address) =~= old(set).map().dom());
        }
    }
    proof {
        assert(set.map().dom() =~= old(set).map().dom().insert(*address));
    }
    warm
}

/// Whether a storage slot is warm; marks it warm.
pub fn access_storage(set: &mut WarmSlots, address: &Address, key: &U256) -> (r: bool)
    ensures
        r == old(set).map().contains_key((*address, *key)),
        final(set).map().dom() == old(set).map().dom().insert((*address, *key)),
{
    let k = (*address, *key);
    let warm = set.get(&k).is_some();
    if !warm {
        set.insert(k, ());
    }
    proof {
        assert(set.map().dom() =~= old(set).map().dom().insert((*address, *key)));
    }
    warm
}

/// Whether the memory cost of `size` bytes can be computed.
fn cost_fits(size: usize) -> (r: bool)
    ensures
        r == memory_cost_fits(size as nat),
{
    let w = size / 32 + if size % 32 == 0 {
        0
    } else {
        1
    };
    proof {
        assert(w == words(size as nat));
    }
    if w == 0 {
        return true;
    }
    let q = usize::MAX / w;
    proof {
        assert(w * w <= usize::MAX <==> w <= q) by (nonlinear_arith)
            requires
                w > 0,
                q == usize::MAX / w,
        ;
    }
    w <= q
}

/// Charges the growth of memory to `end` bytes; a growth whose cost cannot be
/// computed is out of gas.
fn charge_memory(gas_remaining: &mut u64, msize: usize, end: usize) -> (r: Result<(), EvmError>)
    ensures
        r is Ok ==> memory_cost_fits(end as nat),
        *final(gas_remaining) <= *old(gas_remaining),
        r is Err ==> r == Err::<(), EvmError>(EvmError::OutOfGas),
        !memory_cost_fits(end as nat) || memory_charge(msize as nat, end as nat) > *old(gas_remaining)
            ==> r is Err && *final(gas_remaining) == *old(gas_remaining),
        memory_cost_fits(end as nat) && memory_charge(msize as nat, end as nat) <= *old(gas_remaining)
            ==> r is Ok && *final(gas_remaining) == *old(gas_remaining) - memory_charge(
            msize as nat,
            end as nat,
        ),
{
    if !cost_fits(end) {
        return Err(EvmError::OutOfGas);
    }
    let cost = memory_expansion_cost(msize, end);
    utils::consume_gas(gas_remaining, cost)
}

/// `offset + size` saturated, or 0 for an empty range.
fn memory_range_end(offset: usize, size: usize) -> (r: usize)
    ensures
        r == if size == 0 { 0 } else { sat_add(offset as nat, size as nat) },
{
    if size == 0 {
        0
    } else {
        offset.saturating_add(size)
    }
}

/// The word at `index` below the top, as an EVM error.
fn peek_word(stack: &Stack, index: usize) -> (r: Result<U256, EvmError>)
    ensures
        index >= stack@.len() ==> r == Err::<U256, EvmError>(
            EvmError::StackError(StackError::InvalidIndex),
        ),
        index < stack@.len() ==> r == Ok::<U256, EvmError>(stack@[stack@.len() - 1 - index]),
{
    match stack.peek(index) {
        Ok(v) => Ok(*v),
        Err(e) => Err(EvmError::StackError(e)),
    }
}

/// Pushes a word, as an EVM error.
fn push_evm(stack: &mut Stack, v: U256) -> (r: Result<(), EvmError>)
    ensures
        r is Ok ==> final(stack)@ == old(stack)@.push(v),
        r is Err ==> final(stack)@ == old(stack)@,
        old(stack)@.len() < 1024 <==> r is Ok,
        old(stack)@.len() >= 1024 ==> r == Err::<(), EvmError>(
            EvmError::StackError(StackError::Overflow),
        ),
{
    match stack.push(v) {
        Ok(()) => Ok(()),
        Err(e) => Err(EvmError::StackError(e)),
    }
}

/// Pops a word, as an EVM error.
fn pop_evm(stack: &mut Stack) -> (r: Result<U256, EvmError>)
    ensures
        old(stack)@.len() == 0 ==> r == Err::<U256, EvmError>(
            EvmError::StackError(StackError::Underflow),
        ),
        old(stack)@.len() > 0 ==> r == Ok::<U256, EvmError>(old(stack)@.last()),
        old(stack)@.len() == 0 ==> final(stack)@ == old(stack)@,
        old(stack)@.len() > 0 ==> final(stack)@ == old(stack)@.drop_last(),
        old(stack)@.len() <= 1024,
{
    match stack.pop() {
        Ok(v) => Ok(v),
        Err(e) => Err(EvmError::StackError(e)),
    }
}

/// Memory must stay far from the end of the address space for byte-range reads; a
/// memory that large cannot have been paid for.
fn check_memory(memory: &Memory) -> (r: Result<(), EvmError>)
    ensures
        r is Ok <==> memory@.len() + 32 <= usize::MAX,
        r is Err ==> r == Err::<(), EvmError>(EvmError::OutOfGas),
{
    if memory.msize() > usize::MAX - 32 {
        Err(EvmError::OutOfGas)
    } else {
        Ok(())
    }
}

/// Copies `size` bytes of `source` (zero past its end) from `offset` to memory at
/// `dest`, which was charged for.
fn copy_padded(memory: &mut Memory, dest: usize, source: &[u8], offset: usize, size: usize) -> (r:
    Result<(), EvmError>)
    ensures
        size == 0 ==> r is Ok && final(memory)@ == old(memory)@,
        size > 0 && dest + size > usize::MAX ==> r == Err::<(), EvmError>(
            EvmError::MemoryError(MemoryError::Overflow),
        ) && final(memory)@ == old(memory)@,
        size > 0 && dest + size <= usize::MAX ==> r is Ok && final(memory)@ == write_at(
            expand_to(old(memory)@, (dest + size) as nat),
            dest as nat,
            read_bytes(source@, offset as nat, size as nat),
        ),
{
    let data = slice_padded(source, offset, size);
    proof {
        assert(data@.subrange(0, size as int) =~= data@);
    }
    utils::write_memory_bytes(memory, dest, data.as_slice(), size)
}

/// Runs a stack-only arithmetic, comparison or bitwise opcode.
fn run_arith(opcode: u8, stack: &mut Stack) -> (r: Result<(), arithmetic::EvmError>)
    requires
        is_stack_arith(opcode),
    ensures
        pops_push(old(stack)@, final(stack)@, r, arith_arity(opcode), arith_value(opcode, old(stack)@)),
{
    match opcode {
        0x01 => arithmetic::add(stack),
        0x02 => arithmetic::mul(stack),
        0x03 => arithmetic::sub(stack),
        0x04 => arithmetic::div(stack),
        0x05 => arithmetic::sdiv(stack),
        0x06 => arithmetic::modulo(stack),
        0x07 => arithmetic::smod(stack),
        0x08 => arithmetic::addmod(stack),
        0x09 => arithmetic::mulmod(stack),
        0x0B => arithmetic::signextend(stack),
        0x10 => arithmetic::lt(stack),
        0x11 => arithmetic::gt(stack),
        0x12 => arithmetic::slt(stack),
        0x13 => arithmetic::sgt(stack),
        0x14 => arithmetic::eq(stack),
        0x15 => arithmetic::iszero(stack),
        0x16 => arithmetic::and(stack),
        0x17 => arithmetic::or(stack),
        0x18 => arithmetic::xor(stack),
        0x19 => arithmetic::not(stack),
        0x1A => arithmetic::byte(stack),
        0x1B => arithmetic::shl(stack),
        0x1C => arithmetic::shr(stack),
        _ => arithmetic::sar(stack),
    }
}

/// Opcodes that push one word read from the execution context or the machine.
pub open spec fn is_context_push(op: u8) -> bool {
    ||| op == 0x30
    ||| 0x32 <= op <= 0x34
    ||| op == 0x36
    ||| op == 0x38
    ||| op == 0x3A
    ||| op == 0x3D
    ||| 0x41 <= op <= 0x46
    ||| op == 0x48
    ||| 0x58 <= op <= 0x5A
    ||| op == 0x5F
}

/// The word such an opcode pushes: an address of the context as a number, a
/// value of the block, transaction or call, a length, the program counter, the
/// memory size, the gas left, or zero (PUSH0).
pub open spec fn context_word(
    op: u8,
    ctx: ContextView,
    memory_len: nat,
    return_len: nat,
    gas: nat,
) -> nat {
    if op == 0x30 {
        be_val(ctx.call_address@)
    } else if op == 0x32 {
        be_val(ctx.tx_origin@)
    } else if op == 0x33 {
        be_val(ctx.call_caller@)
    } else if op == 0x34 {
        ctx.call_value@
    } else if op == 0x36 {
        ctx.call_data.len()
    } else if op == 0x38 {
        ctx.code.len()
    } else if op == 0x3A {
        ctx.tx_gas_price@
    } else if op == 0x3D {
        return_len
    } else if op == 0x41 {
        be_val(ctx.block_coinbase@)
    } else if op == 0x42 {
        ctx.block_timestamp@
    } else if op == 0x43 {
        ctx.block_number@
    } else if op == 0x44 {
        ctx.block_difficulty@
    } else if op == 0x45 {
        ctx.block_gas_limit@
    } else if op == 0x46 {
        ctx.block_chain_id@
    } else if op == 0x48 {
        ctx.block_base_fee@
    } else if op == 0x58 {
        ctx.pc as nat
    } else if op == 0x59 {
        memory_len
    } else if op == 0x5A {
        gas
    } else {
        0
    }
}

/// The gas charged for growing memory of `old_size` bytes to cover `end`: the
/// difference of the total memory costs, or nothing when it already does.
pub open spec fn memory_charge(old_size: nat, end: nat) -> nat {
    if end <= old_size {
        0
    } else {
        (memory_cost(end) - memory_cost(old_size)) as nat
    }
}

/// A memory size whose cost can be computed leaves room for another word before
/// the end of the address space.
proof fn lemma_fits_leaves_room(end: nat)
    requires
        memory_cost_fits(end),
    ensures
        end + 32 <= usize::MAX,
{
    let w = words(end);
    let m = usize::MAX as int;
    assert(m >= 4294967295);
    assert(end <= 32 * w);
    assert(32 * w + 32 <= m) by (nonlinear_arith)
        requires
            w * w <= m,
            m >= 4294967295,
            w >= 0,
    {
        if w > 33 {
            assert(w * w >= 34 * w);
        }
    }
}

/// Whether `d` is a valid jump destination of the code.
pub open spec fn valid_jump(ctx: ContextView, d: nat) -> bool {
    d < ctx.code.len() && d < ctx.jumpdests.len() && ctx.jumpdests[d as int]
}

/// Whether an opcode is a stack-only arithmetic, comparison or bitwise opcode.
fn stack_arith(op: u8) -> (r: bool)
    ensures
        r == is_stack_arith(op),
{
    (0x01 <= op && op <= 0x0B && op != 0x0A) || (0x10 <= op && op <= 0x1D)
}

/// MLOAD, MSTORE and MSTORE8: the memory range at the offset (the top word) is
/// charged for, then the word or byte is read or written there.
pub open spec fn word_access_outcome(
    opcode: u8,
    s0: Seq<U256>,
    s1: Seq<U256>,
    m0: Seq<u8>,
    m1: Seq<u8>,
    g0: u64,
    g1: u64,
    r: Result<(StepOutcome, Option<StorageWriteInfo>), EvmError>,
) -> bool {
    if opcode == 0x51 {
        &&& s0.len() == 0 ==> r == Err::<
            (StepOutcome, Option<StorageWriteInfo>),
            EvmError,
        >(EvmError::StackError(StackError::InvalidIndex)) && s1 == s0
            && m1 == m0 && g1 == g0
        &&& s0.len() > 0 ==> {
            let off = usize_of(s0.last()@);
            let end = sat_add(off, 32);
            let charge = memory_charge(m0.len(), end);
            if !memory_cost_fits(end) || charge > g0 {
                &&& r == Err::<(StepOutcome, Option<StorageWriteInfo>), EvmError>(
                    EvmError::OutOfGas,
                )
                &&& s1 == s0
                &&& m1 == m0
                &&& g1 == g0
            } else {
                let m = expand_to(m0, off + 32);
                &&& r == Ok::<(StepOutcome, Option<StorageWriteInfo>), EvmError>(
                    (StepOutcome::Continue(1), None),
                )
                &&& g1 == g0 - charge
                &&& m1 == m
                &&& s1 == s0.drop_last().push(s1.last())
                &&& s1.last()@ == be_val(m.subrange(off as int, off + 32int))
            }
        }
    } else {
        let width: nat = if opcode == 0x52 { 32 } else { 1 };
        &&& s0.len() < 2 ==> r == Err::<
            (StepOutcome, Option<StorageWriteInfo>),
            EvmError,
        >(EvmError::StackError(StackError::InvalidIndex)) && s1 == s0
            && m1 == m0 && g1 == g0
        &&& s0.len() >= 2 ==> {
            let off = usize_of(nth(s0, 0)@);
            let value = nth(s0, 1)@;
            let end = sat_add(off, width);
            let charge = memory_charge(m0.len(), end);
            if !memory_cost_fits(end) || charge > g0 {
                &&& r == Err::<(StepOutcome, Option<StorageWriteInfo>), EvmError>(
                    EvmError::OutOfGas,
                )
                &&& s1 == s0
                &&& m1 == m0
                &&& g1 == g0
            } else {
                &&& g1 == g0 - charge
                &&& s1 == popped(s0, 2)
                &&& off + width > usize::MAX ==> r == Err::<
                    (StepOutcome, Option<StorageWriteInfo>),
                    EvmError,
                >(EvmError::MemoryError(MemoryError::Overflow)) && m1 == m0
                &&& off + width <= usize::MAX ==> r == Ok::<
                    (StepOutcome, Option<StorageWriteInfo>),
                    EvmError,
                >((StepOutcome::Continue(1), None)) && m1 == if opcode == 0x52 {
                    write_at(expand_to(m0, off + 32), off, be_bytes(value, 32))
                } else {
                    expand_to(m0, off + 1).update(off as int, (value % 256) as u8)
                }
            }
        }
    }
}

/// EXP: 50 gas per significant byte of the exponent, then the power.
pub open spec fn exp_outcome(
    s0: Seq<U256>,
    s1: Seq<U256>,
    g0: u64,
    g1: u64,
    r: Result<(StepOutcome, Option<StorageWriteInfo>), EvmError>,
) -> bool {
    &&& s0.len() < 2 ==> r == Err::<(StepOutcome, Option<StorageWriteInfo>), EvmError>(
        EvmError::StackError(StackError::InvalidIndex),
    ) && s1 == s0 && g1 == g0
    &&& s0.len() >= 2 ==> {
        let charge = 50 * significant_bytes(nth(s0, 1)@);
        if charge > g0 {
            &&& r == Err::<(StepOutcome, Option<StorageWriteInfo>), EvmError>(EvmError::OutOfGas)
            &&& s1 == s0
            &&& g1 == g0
        } else {
            &&& g1 == g0 - charge
            &&& r == Ok::<(StepOutcome, Option<StorageWriteInfo>), EvmError>(
                (StepOutcome::Continue(1), None),
            )
            &&& s1.len() == s0.len() - 1
            &&& s1.drop_last() == popped(s0, 2)
            &&& s1.last()@ == exp_spec(arg(s0, 0), arg(s0, 1))
        }
    }
}

/// SLOAD (EIP-2929): the slot's value replaces the key; a warm slot gives back the
/// difference between the cold cost charged as base gas and the warm cost; the
/// slot becomes warm.
pub open spec fn sload_outcome(
    address: Address,
    storage: Map<(Address, U256), U256>,
    s0: Seq<U256>,
    s1: Seq<U256>,
    w0: Map<(Address, U256), ()>,
    w1: Map<(Address, U256), ()>,
    g0: u64,
    g1: u64,
    r: Result<(StepOutcome, Option<StorageWriteInfo>), EvmError>,
) -> bool {
        &&& s0.len() == 0 ==> r == Err::<
            (StepOutcome, Option<StorageWriteInfo>),
            EvmError,
        >(EvmError::StackError(StackError::InvalidIndex)) && s1 == s0
            && g1 == g0
        &&& s0.len() > 0 ==> {
            let slot_id = (address, s0.last());
            &&& r == Ok::<(StepOutcome, Option<StorageWriteInfo>), EvmError>(
                (StepOutcome::Continue(1), None),
            )
            &&& s1 == popped(s0, 1).push(
                word_at(storage, slot_id),
            )
            &&& w1.dom() == w0.dom().insert(
                slot_id,
            )
            &&& g1 == if w0.contains_key(slot_id) {
                control::sat_add_u64(g0 as nat, 2000)
            } else {
                g0 as nat
            }
        }
}

/// SSTORE (EIP-2929 access costs, the 2300 sentry, EIP-3529 refunds): the slot
/// becomes warm; the write, its cost and refund, or out-of-gas.
pub open spec fn sstore_outcome<S: State>(
    address: Address,
    st0: S,
    st1: S,
    s0: Seq<U256>,
    s1: Seq<U256>,
    w0: Map<(Address, U256), ()>,
    w1: Map<(Address, U256), ()>,
    g0: u64,
    g1: u64,
    f0: u64,
    f1: u64,
    r: Result<(StepOutcome, Option<StorageWriteInfo>), EvmError>,
) -> bool {
        &&& st1.balances() == st0.balances()
        &&& st1.nonces() == st0.nonces()
        &&& st1.codes() == st0.codes()
        &&& st1.transient() == st0.transient()
        &&& st1.selfdestructs() == st0.selfdestructs()
        &&& s0.len() < 2 ==> r == Err::<
            (StepOutcome, Option<StorageWriteInfo>),
            EvmError,
        >(EvmError::StackError(StackError::InvalidIndex)) && s1 == s0
            && g1 == g0 && st1.storage() == st0.storage()
        &&& s0.len() >= 2 ==> {
            let key = nth(s0, 0);
            let new = nth(s0, 1);
            let slot_id = (address, key);
            let current = word_at(st0.storage(), slot_id);
            let cost = sstore_cost(current@, new@) + 2100;
            &&& w1.dom() == w0.dom().insert(
                slot_id,
            )
            &&& g0 <= 2300 ==> r == Err::<
                (StepOutcome, Option<StorageWriteInfo>),
                EvmError,
            >(EvmError::OutOfGas) && s1 == s0 && g1
                == g0 && st1.storage() == st0.storage()
            &&& g0 > 2300 && g0 < cost ==> r == Err::<
                (StepOutcome, Option<StorageWriteInfo>),
                EvmError,
            >(EvmError::OutOfGas) && s1 == popped(s0, 2)
                && st1.storage() == st0.storage() && f1
                == f0
            &&& g0 > 2300 && g0 >= cost ==> {
                &&& r == Ok::<(StepOutcome, Option<StorageWriteInfo>), EvmError>(
                    (StepOutcome::Continue(1), Some((address, key, new))),
                )
                &&& s1 == popped(s0, 2)
                &&& st1.storage() == st0.storage().insert(slot_id, new)
                &&& g1 == if w0.contains_key(slot_id) {
                    control::sat_add_u64((g0 - cost) as nat, 2000)
                } else {
                    (g0 - cost) as nat
                }
                &&& f1 == if current@ != 0 && new@ == 0 {
                    control::sat_add_u64(f0 as nat, 4800)
                } else {
                    f0 as nat
                }
            }
        }
}

/// RETURN and REVERT: the memory range charged for and the output data.
pub open spec fn halt_outcome(
    opcode: u8,
    s0: Seq<U256>,
    s1: Seq<U256>,
    m0: Seq<u8>,
    m1: Seq<u8>,
    g0: u64,
    g1: u64,
    r: Result<(StepOutcome, Option<StorageWriteInfo>), EvmError>,
) -> bool {
        &&& s0.len() < 2 ==> r == Err::<
            (StepOutcome, Option<StorageWriteInfo>),
            EvmError,
        >(EvmError::StackError(StackError::Underflow))
        &&& s0.len() >= 2 ==> {
            let off = usize_of(nth(s0, 0)@);
            let size = usize_of(nth(s0, 1)@);
            let end = sat_add(off, size);
            let charge = if size > 0 {
                memory_charge(m0.len(), end)
            } else {
                0
            };
            &&& s1 == popped(s0, 2)
            &&& size > 0 && (!memory_cost_fits(end) || charge > g0) ==> r
                == Err::<(StepOutcome, Option<StorageWriteInfo>), EvmError>(EvmError::OutOfGas)
                && m1 == m0 && g1 == g0
            &&& (size == 0 || (memory_cost_fits(end) && charge <= g0)) ==> {
                &&& g1 == g0 - charge
                &&& m0.len() + 32 > usize::MAX ==> r == Err::<
                    (StepOutcome, Option<StorageWriteInfo>),
                    EvmError,
                >(EvmError::OutOfGas) && m1 == m0
                &&& m0.len() + 32 <= usize::MAX ==> {
                    &&& m1 == if size > 0 {
                        expand_to(m0, read_touch(m0.len(), off, size))
                    } else {
                        m0
                    }
                    &&& opcode == 0xF3 ==> (r matches Ok((StepOutcome::Return(d), None)) && d@
                        == read_bytes(m0, off, size))
                    &&& opcode == 0xFD ==> (r matches Ok((StepOutcome::Revert(d), None)) && d@
                        == read_bytes(m0, off, size))
                }
            }
        }
}

/// MLOAD, MSTORE and MSTORE8.
fn exec_word_access(opcode: u8, stack: &mut Stack, memory: &mut Memory, gas_remaining: &mut u64) -> (r:
    Result<(StepOutcome, Option<StorageWriteInfo>), EvmError>)
    requires
        0x51 <= opcode <= 0x53,
    ensures
        word_access_outcome(
            opcode,
            old(stack)@,
            final(stack)@,
            old(memory)@,
            final(memory)@,
            *old(gas_remaining),
            *final(gas_remaining),
            r,
        ),
{
    if opcode == 0x51 {
        let offset = peek_word(stack, 0)?.as_usize();
        charge_memory(gas_remaining, memory.msize(), offset.saturating_add(32))?;
        proof {
            lemma_fits_leaves_room(sat_add(offset as nat, 32));
        }
        let res = control::mload(stack, memory);
        proof {
            if res is Ok {
                assert(stack@ =~= old(stack)@.drop_last().push(stack@.last()));
            }
        }
        match res {
            Ok(()) => Ok((StepOutcome::Continue(1), None)),
            Err(e) => Err(opcode_error_to_evm(e)),
        }
    } else if opcode == 0x52 {
        peek_word(stack, 1)?;
        let offset = peek_word(stack, 0)?.as_usize();
        charge_memory(gas_remaining, memory.msize(), offset.saturating_add(32))?;
        match control::mstore(stack, memory) {
            Ok(()) => Ok((StepOutcome::Continue(1), None)),
            Err(e) => Err(opcode_error_to_evm(e)),
        }
    } else {
        peek_word(stack, 1)?;
        let offset = peek_word(stack, 0)?.as_usize();
        charge_memory(gas_remaining, memory.msize(), offset.saturating_add(1))?;
        match control::mstore8(stack, memory) {
            Ok(()) => Ok((StepOutcome::Continue(1), None)),
            Err(e) => Err(opcode_error_to_evm(e)),
        }
    }
}

/// EXP.
fn exec_exp(stack: &mut Stack, gas_remaining: &mut u64) -> (r: Result<(StepOutcome, Option<StorageWriteInfo>), EvmError>)
    ensures
        exp_outcome(old(stack)@, final(stack)@, *old(gas_remaining), *final(gas_remaining), r),
{
    let exponent = peek_word(stack, 1)?;
    let exp_bytes = exponent.byte_len();
    let extra = 50 * exp_bytes as u64;
    utils::consume_gas(gas_remaining, extra)?;
    match arithmetic::exp(stack) {
        Ok(()) => Ok((StepOutcome::Continue(1), None)),
        Err(e) => Err(arith_error_to_evm(e)),
    }
}

/// SLOAD.
fn exec_sload<S: State>(
    address: Address,
    stack: &mut Stack,
    state: &S,
    gas_remaining: &mut u64,
    accessed_storage: &mut WarmSlots,
) -> (r: Result<(StepOutcome, Option<StorageWriteInfo>), EvmError>)
    ensures
        sload_outcome(
            address,
            state.storage(),
            old(stack)@,
            final(stack)@,
            old(accessed_storage).map(),
            final(accessed_storage).map(),
            *old(gas_remaining),
            *final(gas_remaining),
            r,
        ),
{
    let key = peek_word(stack, 0)?;
    let is_warm = access_storage(accessed_storage, &address, &key);
    control::sload_eip2929(stack, state, address, is_warm, gas_remaining)?;
    Ok((StepOutcome::Continue(1), None))
}

/// SSTORE.
fn exec_sstore<S: State>(
    address: Address,
    stack: &mut Stack,
    state: &mut S,
    gas_remaining: &mut u64,
    gas_refund: &mut u64,
    accessed_storage: &mut WarmSlots,
) -> (r: Result<(StepOutcome, Option<StorageWriteInfo>), EvmError>)
    ensures
        sstore_outcome(
            address,
            *old(state),
            *final(state),
            old(stack)@,
            final(stack)@,
            old(accessed_storage).map(),
            final(accessed_storage).map(),
            *old(gas_remaining),
            *final(gas_remaining),
            *old(gas_refund),
            *final(gas_refund),
            r,
        ),
{
    let key = peek_word(stack, 0)?;
    let new_value = peek_word(stack, 1)?;
    let is_warm = access_storage(accessed_storage, &address, &key);
    if *gas_remaining <= 2300 {
        return Err(EvmError::OutOfGas);
    }
    control::sstore_eip2929(stack, state, address, is_warm, gas_remaining, gas_refund)?;
    Ok((StepOutcome::Continue(1), Some((address, key, new_value))))
}

/// RETURN and REVERT.
fn exec_halt(opcode: u8, stack: &mut Stack, memory: &mut Memory, gas_remaining: &mut u64) -> (r:
    Result<(StepOutcome, Option<StorageWriteInfo>), EvmError>)
    requires
        opcode == 0xF3 || opcode == 0xFD,
    ensures
        halt_outcome(
            opcode,
            old(stack)@,
            final(stack)@,
            old(memory)@,
            final(memory)@,
            *old(gas_remaining),
            *final(gas_remaining),
            r,
        ),
{
    let offset = pop_evm(stack)?.as_usize();
    let size = pop_evm(stack)?.as_usize();
    proof {
        assert(stack@ =~= popped(old(stack)@, 2));
    }
    if size > 0 {
        charge_memory(gas_remaining, memory.msize(), offset.saturating_add(size))?;
        proof {
            lemma_fits_leaves_room(sat_add(offset as nat, size as nat));
        }
    }
    check_memory(memory)?;
    let data = utils::read_memory_bytes(memory, offset, size)?;
    proof {
        if size == 0 {
            assert(data@ =~= read_bytes(old(memory)@, offset as nat, 0));
        }
    }
    if opcode == 0xF3 {
        Ok((StepOutcome::Return(data), None))
    } else {
        Ok((StepOutcome::Revert(data), None))
    }
}

/// KECCAK256: the memory range charged for, 6 gas per word hashed, and the hash of
/// the range (zero past the end of memory) replacing offset and size.
pub open spec fn keccak_outcome(
    s0: Seq<U256>,
    s1: Seq<U256>,
    m0: Seq<u8>,
    m1: Seq<u8>,
    g0: u64,
    g1: u64,
    r: Result<(StepOutcome, Option<StorageWriteInfo>), EvmError>,
) -> bool {
    &&& s0.len() < 2 ==> r == Err::<(StepOutcome, Option<StorageWriteInfo>), EvmError>(
        EvmError::StackError(StackError::InvalidIndex),
    ) && s1 == s0 && m1 == m0 && g1 == g0
    &&& s0.len() >= 2 ==> {
        let off = usize_of(nth(s0, 0)@);
        let size = usize_of(nth(s0, 1)@);
        let charge = if size > 0 {
            memory_charge(m0.len(), off + size)
        } else {
            0
        };
        let word_cost = 6 * words(size);
        if m0.len() + 32 > usize::MAX || (size > 0 && (off + size > usize::MAX || !memory_cost_fits(
            off + size,
        ) || charge > g0)) {
            &&& r == Err::<(StepOutcome, Option<StorageWriteInfo>), EvmError>(EvmError::OutOfGas)
            &&& s1 == s0
            &&& m1 == m0
            &&& g1 == g0
        } else if word_cost > g0 - charge {
            &&& r == Err::<(StepOutcome, Option<StorageWriteInfo>), EvmError>(EvmError::OutOfGas)
            &&& s1 == s0
            &&& m1 == m0
            &&& g1 == g0 - charge
        } else {
            &&& r == Ok::<(StepOutcome, Option<StorageWriteInfo>), EvmError>(
                (StepOutcome::Continue(1), None),
            )
            &&& g1 == g0 - charge - word_cost
            &&& s1.len() == s0.len() - 1
            &&& s1.drop_last() == popped(s0, 2)
            &&& s1.last()@ == be_val(keccak256_spec(read_bytes(m0, off, size)))
            &&& m1 == if size > 0 {
                expand_to(m0, read_touch(m0.len(), off, size))
            } else {
                m0
            }
        }
    }
}

/// KECCAK256.
fn exec_keccak(stack: &mut Stack, memory: &mut Memory, gas_remaining: &mut u64) -> (r: Result<(StepOutcome, Option<StorageWriteInfo>), EvmError>)
    ensures
        keccak_outcome(
            old(stack)@,
            final(stack)@,
            old(memory)@,
            final(memory)@,
            *old(gas_remaining),
            *final(gas_remaining),
            r,
        ),
{
    let offset = peek_word(stack, 0)?.as_usize();
    let size = peek_word(stack, 1)?.as_usize();
    check_memory(memory)?;
    if size > 0 {
        if offset > usize::MAX - size {
            return Err(EvmError::OutOfGas);
        }
        charge_memory(gas_remaining, memory.msize(), offset + size)?;
    }
    let w = size / 32 + if size % 32 == 0 {
        0
    } else {
        1
    };
    proof {
        assert(w == words(size as nat));
    }
    utils::consume_gas(gas_remaining, 6 * w as u64)?;
    let res = arithmetic::keccak256(stack, memory);
    proof {
        if res is Ok {
            assert(stack@.drop_last() =~= stack@.subrange(0, stack@.len() - 1));
        }
    }
    match res {
        Ok(()) => Ok((StepOutcome::Continue(1), None)),
        Err(e) => Err(arith_error_to_evm(e)),
    }
}

/// CALLDATACOPY, CODECOPY and RETURNDATACOPY once checked: the memory range
/// charged for, 3 gas per word copied, and `size` bytes of `source` from `offset`
/// (zero past its end) written to memory at `dest`.
pub open spec fn copy_outcome(
    source: Seq<u8>,
    s0: Seq<U256>,
    s1: Seq<U256>,
    m0: Seq<u8>,
    m1: Seq<u8>,
    g0: u64,
    g1: u64,
    r: Result<(StepOutcome, Option<StorageWriteInfo>), EvmError>,
) -> bool {
    &&& s0.len() < 3 ==> r == Err::<(StepOutcome, Option<StorageWriteInfo>), EvmError>(
        EvmError::StackError(StackError::InvalidIndex),
    ) && s1 == s0 && m1 == m0 && g1 == g0
    &&& s0.len() >= 3 ==> {
        let dest = usize_of(nth(s0, 0)@);
        let off = usize_of(nth(s0, 1)@);
        let size = usize_of(nth(s0, 2)@);
        let end = sat_add(dest, size);
        let charge = if size > 0 {
            memory_charge(m0.len(), end)
        } else {
            0
        };
        let copy_cost = 3 * words(size);
        if size > 0 && (!memory_cost_fits(end) || charge > g0) {
            &&& r == Err::<(StepOutcome, Option<StorageWriteInfo>), EvmError>(EvmError::OutOfGas)
            &&& s1 == s0
            &&& m1 == m0
            &&& g1 == g0
        } else if copy_cost > g0 - charge {
            &&& r == Err::<(StepOutcome, Option<StorageWriteInfo>), EvmError>(EvmError::OutOfGas)
            &&& s1 == s0
            &&& m1 == m0
            &&& g1 == g0 - charge
        } else {
            &&& r == Ok::<(StepOutcome, Option<StorageWriteInfo>), EvmError>(
                (StepOutcome::Continue(1), None),
            )
            &&& g1 == g0 - charge - copy_cost
            &&& s1 == popped(s0, 3)
            &&& m1 == if size > 0 {
                write_at(expand_to(m0, dest + size), dest, read_bytes(source, off, size))
            } else {
                m0
            }
        }
    }
}

/// RETURNDATACOPY: reading past the end of the return data fails; otherwise as
/// the other copies.
pub open spec fn return_copy_outcome(
    return_data: Seq<u8>,
    s0: Seq<U256>,
    s1: Seq<U256>,
    m0: Seq<u8>,
    m1: Seq<u8>,
    g0: u64,
    g1: u64,
    r: Result<(StepOutcome, Option<StorageWriteInfo>), EvmError>,
) -> bool {
    if s0.len() >= 3 && usize_of(nth(s0, 1)@) + usize_of(nth(s0, 2)@) > return_data.len() {
        &&& r == Err::<(StepOutcome, Option<StorageWriteInfo>), EvmError>(
            EvmError::MemoryError(MemoryError::InvalidOffset),
        )
        &&& s1 == s0
        &&& m1 == m0
        &&& g1 == g0
    } else {
        copy_outcome(return_data, s0, s1, m0, m1, g0, g1, r)
    }
}

/// CALLDATACOPY and CODECOPY (and RETURNDATACOPY once checked).
fn exec_copy(source: &[u8], stack: &mut Stack, memory: &mut Memory, gas_remaining: &mut u64) -> (r: Result<(StepOutcome, Option<StorageWriteInfo>), EvmError>)
    ensures
        copy_outcome(
            source@,
            old(stack)@,
            final(stack)@,
            old(memory)@,
            final(memory)@,
            *old(gas_remaining),
            *final(gas_remaining),
            r,
        ),
{
    let dest = peek_word(stack, 0)?.as_usize();
    let offset = peek_word(stack, 1)?.as_usize();
    let size = peek_word(stack, 2)?.as_usize();
    if size > 0 {
        charge_memory(gas_remaining, memory.msize(), dest.saturating_add(size))?;
        proof {
            lemma_fits_leaves_room(sat_add(dest as nat, size as nat));
        }
    }
    utils::consume_gas(gas_remaining, copy_gas_cost(size))?;
    copy_padded(memory, dest, source, offset, size)?;
    pop_evm(stack)?;
    pop_evm(stack)?;
    pop_evm(stack)?;
    proof {
        assert(stack@ =~= popped(old(stack)@, 3));
    }
    Ok((StepOutcome::Continue(1), None))
}

/// RETURNDATACOPY.
fn exec_return_copy(return_data: &[u8], stack: &mut Stack, memory: &mut Memory, gas_remaining: &mut u64) -> (r:
    Result<(StepOutcome, Option<StorageWriteInfo>), EvmError>)
    ensures
        return_copy_outcome(
            return_data@,
            old(stack)@,
            final(stack)@,
            old(memory)@,
            final(memory)@,
            *old(gas_remaining),
            *final(gas_remaining),
            r,
        ),
{
    let available = return_data.len();
    if stack.len() >= 3 {
        let offset = peek_word(stack, 1)?.as_usize();
        let size = peek_word(stack, 2)?.as_usize();
        if offset > usize::MAX - size || offset + size > available {
            return Err(EvmError::MemoryError(MemoryError::InvalidOffset));
        }
    }
    exec_copy(return_data, stack, memory, gas_remaining)
}

/// MCOPY: the memory range charged for (the farther of source and destination),
/// 3 gas per word, and the copy.
pub open spec fn mcopy_outcome(
    s0: Seq<U256>,
    s1: Seq<U256>,
    m0: Seq<u8>,
    m1: Seq<u8>,
    g0: u64,
    g1: u64,
    r: Result<(StepOutcome, Option<StorageWriteInfo>), EvmError>,
) -> bool {
    &&& s0.len() < 3 ==> r == Err::<(StepOutcome, Option<StorageWriteInfo>), EvmError>(
        EvmError::StackError(StackError::InvalidIndex),
    ) && s1 == s0 && m1 == m0 && g1 == g0
    &&& s0.len() >= 3 ==> {
        let dest = usize_of(nth(s0, 0)@);
        let src = usize_of(nth(s0, 1)@);
        let size = usize_of(nth(s0, 2)@);
        let far = if dest >= src {
            dest
        } else {
            src
        };
        let end = if size == 0 {
            0
        } else {
            sat_add(far, size)
        };
        let charge = memory_charge(m0.len(), end);
        let copy_cost = 3 * words(size);
        if !memory_cost_fits(end) || charge > g0 {
            &&& r == Err::<(StepOutcome, Option<StorageWriteInfo>), EvmError>(EvmError::OutOfGas)
            &&& s1 == s0
            &&& m1 == m0
            &&& g1 == g0
        } else if copy_cost > g0 - charge {
            &&& r == Err::<(StepOutcome, Option<StorageWriteInfo>), EvmError>(EvmError::OutOfGas)
            &&& s1 == s0
            &&& m1 == m0
            &&& g1 == g0 - charge
        } else {
            let m = expand_to(m0, far + size);
            &&& r == Ok::<(StepOutcome, Option<StorageWriteInfo>), EvmError>(
                (StepOutcome::Continue(1), None),
            )
            &&& g1 == g0 - charge - copy_cost
            &&& s1 == popped(s0, 3)
            &&& m1 == if size == 0 {
                m0
            } else {
                write_at(m, dest, m.subrange(src as int, (src + size) as int))
            }
        }
    }
}

/// LOG0 to LOG4: memory must be addressable and its cost computable; then the gas
/// for memory growth and for the topics and data, and the log entry of the
/// executing account, its topics (the words below offset and size, as 32 bytes
/// each) and the data read from memory.
pub open spec fn log_outcome(
    address: Address,
    n: nat,
    s0: Seq<U256>,
    s1: Seq<U256>,
    m0: Seq<u8>,
    m1: Seq<u8>,
    g0: u64,
    g1: u64,
    r: Result<(StepOutcome, Option<StorageWriteInfo>), EvmError>,
) -> bool {
    let off = usize_of(nth(s0, 0)@);
    let size = usize_of(nth(s0, 1)@);
    if m0.len() + 32 > usize::MAX || (s0.len() >= 2 && (off + size > usize::MAX
        || !memory_cost_fits(off + size))) {
        &&& r == Err::<(StepOutcome, Option<StorageWriteInfo>), EvmError>(EvmError::OutOfGas)
        &&& s1 == s0
        &&& m1 == m0
        &&& g1 == g0
    } else if s0.len() < 2 {
        &&& r == Err::<(StepOutcome, Option<StorageWriteInfo>), EvmError>(
            EvmError::StackError(StackError::Underflow),
        )
        &&& s1.len() == 0
        &&& m1 == m0
        &&& g1 == g0
    } else {
        let mem_gas = log::log_memory_gas(m0.len(), off + size);
        let data_gas = log::log_data_gas(n, size);
        if g0 < mem_gas {
            &&& r == Err::<(StepOutcome, Option<StorageWriteInfo>), EvmError>(EvmError::OutOfGas)
            &&& g1 == g0
            &&& s1 == popped(s0, 2)
            &&& m1 == m0
        } else if g0 - mem_gas < data_gas {
            &&& r == Err::<(StepOutcome, Option<StorageWriteInfo>), EvmError>(EvmError::OutOfGas)
            &&& g1 == g0 - mem_gas
            &&& s1 == popped(s0, 2)
            &&& m1 == m0
        } else if s0.len() < 2 + n {
            &&& r == Err::<(StepOutcome, Option<StorageWriteInfo>), EvmError>(
                EvmError::StackError(StackError::Underflow),
            )
            &&& g1 == g0 - mem_gas - data_gas
            &&& s1.len() == 0
            &&& m1 == m0
        } else {
            &&& g1 == g0 - mem_gas - data_gas
            &&& s1 == popped(s0, 2 + n)
            &&& m1 == if size == 0 {
                m0
            } else {
                expand_to(m0, read_touch(m0.len(), off, size))
            }
            &&& r matches Ok((StepOutcome::Log(a, topics, data), None)) && a == address
                && topics@.len() == n && (forall|j: int|
                0 <= j < n ==> #[trigger] topics@[j]@ == be_bytes(nth(s0, 2 + j)@, 32))
                && data@ == read_bytes(m0, off, size)
        }
    }
}

/// MCOPY.
fn exec_mcopy(stack: &mut Stack, memory: &mut Memory, gas_remaining: &mut u64) -> (r: Result<(StepOutcome, Option<StorageWriteInfo>), EvmError>)
    ensures
        mcopy_outcome(
            old(stack)@,
            final(stack)@,
            old(memory)@,
            final(memory)@,
            *old(gas_remaining),
            *final(gas_remaining),
            r,
        ),
{
    let dest = peek_word(stack, 0)?.as_usize();
    let src = peek_word(stack, 1)?.as_usize();
    let size = peek_word(stack, 2)?.as_usize();
    let far = if dest >= src {
        dest
    } else {
        src
    };
    let end = memory_range_end(far, size);
    charge_memory(gas_remaining, memory.msize(), end)?;
    proof {
        if size > 0 {
            lemma_fits_leaves_room(end as nat);
        }
    }
    utils::consume_gas(gas_remaining, copy_gas_cost(size))?;
    match control::mcopy(stack, memory) {
        Ok(()) => Ok((StepOutcome::Continue(1), None)),
        Err(e) => Err(opcode_error_to_evm(e)),
    }
}

/// LOG0 to LOG4.
fn exec_log(opcode: u8, address: Address, stack: &mut Stack, memory: &mut Memory, gas_remaining: &mut u64) -> (r:
    Result<(StepOutcome, Option<StorageWriteInfo>), EvmError>)
    requires
        0xA0 <= opcode <= 0xA4,
    ensures
        log_outcome(
            address,
            (opcode - 0xA0) as nat,
            old(stack)@,
            final(stack)@,
            old(memory)@,
            final(memory)@,
            *old(gas_remaining),
            *final(gas_remaining),
            r,
        ),
{
    let num_topics = opcode - 0xA0;
    check_memory(memory)?;
    if stack.len() >= 2 {
        let offset = peek_word(stack, 0)?.as_usize();
        let size = peek_word(stack, 1)?.as_usize();
        if offset > usize::MAX - size || !cost_fits(offset + size) {
            return Err(EvmError::OutOfGas);
        }
    }
    let (topics, data) = log::execute_log(stack, memory, num_topics, address, gas_remaining)?;
    Ok((StepOutcome::Log(address, topics, data), None))
}

/// BALANCE, EXTCODESIZE and EXTCODEHASH (EIP-2929): the account becomes warm; a
/// warm account gives back the difference between the cold cost charged as base
/// gas and the warm cost; its balance, code size or code hash replaces it.
pub open spec fn account_query_outcome<S: State>(
    opcode: u8,
    st: S,
    s0: Seq<U256>,
    s1: Seq<U256>,
    w0: Map<Address, ()>,
    w1: Map<Address, ()>,
    g0: u64,
    g1: u64,
    r: Result<(StepOutcome, Option<StorageWriteInfo>), EvmError>,
) -> bool {
    &&& s0.len() == 0 ==> r == Err::<(StepOutcome, Option<StorageWriteInfo>), EvmError>(
        EvmError::StackError(StackError::InvalidIndex),
    ) && s1 == s0 && g1 == g0 && w1 == w0
    &&& s0.len() > 0 ==> {
        let a = utils::word_to_address(s0.last()@);
        &&& w1.dom() == w0.dom().insert(a)
        &&& r == Ok::<(StepOutcome, Option<StorageWriteInfo>), EvmError>(
            (StepOutcome::Continue(1), None),
        )
        &&& g1 == environment::after_access(g0, w0.contains_key(a))
        &&& s1 == popped(s0, 1).push(s1.last())
        &&& s1.last()@ == if opcode == 0x31 {
            word_at(st.balances(), a)@
        } else if opcode == 0x3B {
            code_at(st.codes(), a).len()
        } else {
            be_val(keccak256_spec(code_at(st.codes(), a)))
        }
    }
}

/// EXTCODECOPY (EIP-2929): the account becomes warm; the memory range charged
/// for, 3 gas per word, the warm refund, and the copy of its code.
pub open spec fn extcodecopy_outcome<S: State>(
    st: S,
    s0: Seq<U256>,
    s1: Seq<U256>,
    m0: Seq<u8>,
    m1: Seq<u8>,
    w0: Map<Address, ()>,
    w1: Map<Address, ()>,
    g0: u64,
    g1: u64,
    r: Result<(StepOutcome, Option<StorageWriteInfo>), EvmError>,
) -> bool {
    &&& s0.len() == 0 ==> r == Err::<(StepOutcome, Option<StorageWriteInfo>), EvmError>(
        EvmError::StackError(StackError::InvalidIndex),
    ) && s1 == s0 && m1 == m0 && g1 == g0 && w1 == w0
    &&& s0.len() > 0 ==> {
        let a = utils::word_to_address(nth(s0, 0)@);
        &&& w1.dom() == w0.dom().insert(a)
        &&& s0.len() < 4 ==> r == Err::<(StepOutcome, Option<StorageWriteInfo>), EvmError>(
            EvmError::StackError(StackError::InvalidIndex),
        ) && s1 == s0 && m1 == m0 && g1 == g0
        &&& s0.len() >= 4 ==> {
            let dest = usize_of(nth(s0, 1)@);
            let off = usize_of(nth(s0, 2)@);
            let size = usize_of(nth(s0, 3)@);
            let end = sat_add(dest, size);
            let charge = if size > 0 {
                memory_charge(m0.len(), end)
            } else {
                0
            };
            let copy_cost = 3 * words(size);
            if size > 0 && (!memory_cost_fits(end) || charge > g0) {
                &&& r == Err::<(StepOutcome, Option<StorageWriteInfo>), EvmError>(EvmError::OutOfGas)
                &&& s1 == s0
                &&& m1 == m0
                &&& g1 == g0
            } else if copy_cost > g0 - charge {
                &&& r == Err::<(StepOutcome, Option<StorageWriteInfo>), EvmError>(EvmError::OutOfGas)
                &&& s1 == s0
                &&& m1 == m0
                &&& g1 == g0 - charge
            } else {
                &&& r == Ok::<(StepOutcome, Option<StorageWriteInfo>), EvmError>(
                    (StepOutcome::Continue(1), None),
                )
                &&& g1 == environment::after_access(
                    (g0 - charge - copy_cost) as u64,
                    w0.contains_key(a),
                )
                &&& s1 == popped(s0, 4)
                &&& m1 == if size == 0 {
                    m0
                } else {
                    write_at(
                        expand_to(m0, dest + size),
                        dest,
                        read_bytes(code_at(st.codes(), a), off, size),
                    )
                }
            }
        }
    }
}

/// BALANCE, EXTCODESIZE and EXTCODEHASH.
fn exec_account_query<S: State>(
    opcode: u8,
    stack: &mut Stack,
    state: &S,
    gas_remaining: &mut u64,
    accessed_addresses: &mut WarmAddresses,
) -> (r: Result<(StepOutcome, Option<StorageWriteInfo>), EvmError>)
    requires
        opcode == 0x31 || opcode == 0x3B || opcode == 0x3F,
    ensures
        account_query_outcome(
            opcode,
            *state,
            old(stack)@,
            final(stack)@,
            old(accessed_addresses).map(),
            final(accessed_addresses).map(),
            *old(gas_remaining),
            *final(gas_remaining),
            r,
        ),
{
    let to = utils::u256_to_address(&peek_word(stack, 0)?)?;
    let is_warm = access_address(accessed_addresses, &to);
    if opcode == 0x31 {
        environment::balance(stack, state, is_warm, gas_remaining)?;
    } else if opcode == 0x3B {
        environment::extcodesize(stack, state, is_warm, gas_remaining)?;
        proof {
            assert(stack@ =~= popped(old(stack)@, 1).push(stack@.last()));
        }
    } else {
        environment::extcodehash(stack, state, is_warm, gas_remaining)?;
        proof {
            assert(stack@ =~= popped(old(stack)@, 1).push(stack@.last()));
        }
    }
    Ok((StepOutcome::Continue(1), None))
}

/// EXTCODECOPY.
fn exec_extcodecopy<S: State>(
    stack: &mut Stack,
    state: &S,
    memory: &mut Memory,
    gas_remaining: &mut u64,
    accessed_addresses: &mut WarmAddresses,
) -> (r: Result<(StepOutcome, Option<StorageWriteInfo>), EvmError>)
    ensures
        extcodecopy_outcome(
            *state,
            old(stack)@,
            final(stack)@,
            old(memory)@,
            final(memory)@,
            old(accessed_addresses).map(),
            final(accessed_addresses).map(),
            *old(gas_remaining),
            *final(gas_remaining),
            r,
        ),
{
    let addr = utils::u256_to_address(&peek_word(stack, 0)?)?;
    let is_warm = access_address(accessed_addresses, &addr);
    let dest = peek_word(stack, 1)?.as_usize();
    let size = peek_word(stack, 3)?.as_usize();
    if size > 0 {
        charge_memory(gas_remaining, memory.msize(), dest.saturating_add(size))?;
        proof {
            lemma_fits_leaves_room(sat_add(dest as nat, size as nat));
        }
    }
    utils::consume_gas(gas_remaining, copy_gas_cost(size))?;
    environment::extcodecopy(stack, state, memory, is_warm, gas_remaining)?;
    Ok((StepOutcome::Continue(1), None))
}

/// The call kind of a call opcode.
pub open spec fn call_kind_of(op: u8) -> CallKind {
    if op == 0xF1 {
        CallKind::Call
    } else if op == 0xF2 {
        CallKind::CallCode
    } else if op == 0xF4 {
        CallKind::DelegateCall
    } else {
        CallKind::StaticCall
    }
}

/// A nested frame's status as an opcode outcome: continue with the next
/// instruction, or fail with its error.
pub open spec fn lift_status(rc: Result<(), EvmError>) -> Result<(StepOutcome, Option<StorageWriteInfo>), EvmError> {
    match rc {
        Ok(()) => Ok((StepOutcome::Continue(1), None)),
        Err(e) => Err(e),
    }
}

/// The call itself, after the memory charge: the host runs the call as
/// `call_via` states, and the opcode continues or fails with its status.
pub open spec fn call_through_host<S: State, H: Host<S>>(
    opcode: u8,
    env: CallEnv,
    st0: S,
    h0: H,
    is_warm: bool,
    s0: Seq<U256>,
    m0: Seq<u8>,
    g0: u64,
    rd0: Seq<u8>,
    s1: Seq<U256>,
    m1: Seq<u8>,
    g1: u64,
    rd1: Seq<u8>,
    r: Result<(StepOutcome, Option<StorageWriteInfo>), EvmError>,
) -> bool {
    exists|
        smid: Seq<U256>,
        mmid: Seq<u8>,
        gmid: u64,
        plan: Result<(CallMessage, usize, usize), EvmError>,
        answer: CallResult,
        rc: Result<(), EvmError>,
    |
        #[trigger] environment::call_via(
            call_kind_of(opcode),
            st0,
            h0,
            env,
            is_warm,
            s0,
            m0,
            g0,
            rd0,
            smid,
            mmid,
            gmid,
            plan,
            answer,
            s1,
            m1,
            g1,
            rd1,
            rc,
        ) && r == lift_status(rc)
}

/// CALL, CALLCODE, DELEGATECALL and STATICCALL: the target (the second word)
/// becomes warm; memory for the larger of the input and output ranges is charged;
/// then the call runs through the host as `call_via` states.
pub open spec fn call_op_outcome<S: State, H: Host<S>>(
    opcode: u8,
    env: CallEnv,
    st0: S,
    h0: H,
    s0: Seq<U256>,
    s1: Seq<U256>,
    m0: Seq<u8>,
    m1: Seq<u8>,
    g0: u64,
    g1: u64,
    rd0: Seq<u8>,
    rd1: Seq<u8>,
    wa0: Map<Address, ()>,
    wa1: Map<Address, ()>,
    r: Result<(StepOutcome, Option<StorageWriteInfo>), EvmError>,
) -> bool {
    let has_value = opcode == 0xF1 || opcode == 0xF2;
    let n: nat = if has_value { 7 } else { 6 };
    let k: int = if has_value { 1 } else { 0 };
    &&& s0.len() < 2 ==> r == Err::<(StepOutcome, Option<StorageWriteInfo>), EvmError>(
        EvmError::StackError(StackError::InvalidIndex),
    ) && s1 =~= s0 && m1 =~= m0 && g1 == g0 && wa1 == wa0
    &&& s0.len() >= 2 ==> {
        let to = utils::word_to_address(nth(s0, 1)@);
        &&& wa1.dom() == wa0.dom().insert(to)
        &&& s0.len() < n ==> r == Err::<(StepOutcome, Option<StorageWriteInfo>), EvmError>(
            EvmError::StackError(StackError::InvalidIndex),
        ) && s1 =~= s0 && m1 =~= m0 && g1 == g0
        &&& s0.len() >= n ==> {
            let io = usize_of(nth(s0, 2 + k)@);
            let is = usize_of(nth(s0, 3 + k)@);
            let oo = usize_of(nth(s0, 4 + k)@);
            let os = usize_of(nth(s0, 5 + k)@);
            let in_end = if is == 0 {
                0
            } else {
                sat_add(io, is)
            };
            let out_end = if os == 0 {
                0
            } else {
                sat_add(oo, os)
            };
            let end = if in_end >= out_end {
                in_end
            } else {
                out_end
            };
            let charge = memory_charge(m0.len(), end);
            if !memory_cost_fits(end) || charge > g0 {
                &&& r == Err::<(StepOutcome, Option<StorageWriteInfo>), EvmError>(EvmError::OutOfGas)
                &&& s1 =~= s0
                &&& m1 =~= m0
                &&& g1 == g0
            } else if m0.len() + 32 > usize::MAX {
                &&& r == Err::<(StepOutcome, Option<StorageWriteInfo>), EvmError>(EvmError::OutOfGas)
                &&& s1 =~= s0
                &&& m1 =~= m0
                &&& g1 == g0 - charge
            } else {
                call_through_host(
                    opcode,
                    env,
                    st0,
                    h0,
                    wa0.contains_key(to),
                    s0,
                    m0,
                    (g0 - charge) as u64,
                    rd0,
                    s1,
                    m1,
                    g1,
                    rd1,
                    r,
                )
            }
        }
    }
}

/// CALL, CALLCODE, DELEGATECALL and STATICCALL.
#[verifier::spinoff_prover]
#[verifier::rlimit(40)]
fn exec_call_op<S: State, H: Host<S>>(
    opcode: u8,
    call_env: &CallEnv,
    stack: &mut Stack,
    memory: &mut Memory,
    state: &mut S,
    host: &mut H,
    gas_remaining: &mut u64,
    return_data: &mut Vec<u8>,
    accessed_addresses: &mut WarmAddresses,
) -> (r: Result<(StepOutcome, Option<StorageWriteInfo>), EvmError>)
    requires
        opcode == 0xF1 || opcode == 0xF2 || opcode == 0xF4 || opcode == 0xFA,
    ensures
        call_op_outcome(
            opcode,
            *call_env,
            *old(state),
            *old(host),
            old(stack)@,
            final(stack)@,
            old(memory)@,
            final(memory)@,
            *old(gas_remaining),
            *final(gas_remaining),
            old(return_data)@,
            final(return_data)@,
            old(accessed_addresses).map(),
            final(accessed_addresses).map(),
            r,
        ),
{
    let has_value = opcode == 0xF1 || opcode == 0xF2;
    let to = utils::u256_to_address(&peek_word(stack, 1)?)?;
    let is_warm = access_address(accessed_addresses, &to);
    let (in_offset, in_size, out_offset, out_size) = if has_value {
        (
            peek_word(stack, 3)?.as_usize(),
            peek_word(stack, 4)?.as_usize(),
            peek_word(stack, 5)?.as_usize(),
            peek_word(stack, 6)?.as_usize(),
        )
    } else {
        (
            peek_word(stack, 2)?.as_usize(),
            peek_word(stack, 3)?.as_usize(),
            peek_word(stack, 4)?.as_usize(),
            peek_word(stack, 5)?.as_usize(),
        )
    };
    let in_end = memory_range_end(in_offset, in_size);
    let out_end = memory_range_end(out_offset, out_size);
    let max_off = if in_end >= out_end {
        in_end
    } else {
        out_end
    };
    charge_memory(gas_remaining, memory.msize(), max_off)?;
    check_memory(memory)?;
    let ghost st0 = *state;
    let ghost h0 = *host;
    let ghost (s0, m0, g0, rd0) = (stack@, memory@, *gas_remaining, return_data@);
    let rc = if opcode == 0xF1 {
        environment::execute_call(state, host, stack, memory, call_env, gas_remaining, return_data, is_warm)
    } else if opcode == 0xF2 {
        environment::execute_callcode(state, host, stack, memory, call_env, gas_remaining, return_data, is_warm)
    } else if opcode == 0xF4 {
        environment::execute_delegatecall(
            state,
            host,
            stack,
            memory,
            call_env,
            gas_remaining,
            return_data,
            is_warm,
        )
    } else {
        environment::execute_staticcall(
            state,
            host,
            stack,
            memory,
            call_env,
            gas_remaining,
            return_data,
            is_warm,
        )
    };
    let r = match rc {
        Ok(()) => Ok((StepOutcome::Continue(1), None)),
        Err(e) => Err(e),
    };
    assert(call_through_host(opcode, *call_env, st0, h0, is_warm, s0, m0, g0, rd0, stack@, memory@, *gas_remaining, return_data@, r)) by {
        let (smid, mmid, gmid, plan, answer) = choose|
            smid: Seq<U256>,
            mmid: Seq<u8>,
            gmid: u64,
            plan: Result<(CallMessage, usize, usize), EvmError>,
            answer: CallResult,
        |
            #[trigger] environment::call_via(
                call_kind_of(opcode),
                st0,
                h0,
                *call_env,
                is_warm,
                s0,
                m0,
                g0,
                rd0,
                smid,
                mmid,
                gmid,
                plan,
                answer,
                stack@,
                memory@,
                *gas_remaining,
                return_data@,
                rc,
            );
        assert(r == lift_status(rc));
        assert(environment::call_via(
            call_kind_of(opcode),
            st0,
            h0,
            *call_env,
            is_warm,
            s0,
            m0,
            g0,
            rd0,
            smid,
            mmid,
            gmid,
            plan,
            answer,
            stack@,
            memory@,
            *gas_remaining,
            return_data@,
            rc,
        ));
    }
    r
}

/// The creation itself, after the charges: the host runs it as `create_via`
/// states, and the opcode continues or fails with its status.
pub open spec fn create_through_host<S: State, H: Host<S>>(
    with_salt: bool,
    st0: S,
    h0: H,
    env: CallEnv,
    s0: Seq<U256>,
    m0: Seq<u8>,
    g0: u64,
    rd0: Seq<u8>,
    s1: Seq<U256>,
    m1: Seq<u8>,
    g1: u64,
    rd1: Seq<u8>,
    r: Result<(StepOutcome, Option<StorageWriteInfo>), EvmError>,
) -> bool {
    exists|smid: Seq<U256>, plan: Result<CreateMessage, EvmError>, answer: CreateResult, rc: Result<(), EvmError>|
        #[trigger] environment::create_via(
            with_salt,
            st0,
            h0,
            env,
            s0,
            m0,
            g0,
            rd0,
            smid,
            plan,
            answer,
            s1,
            m1,
            g1,
            rd1,
            rc,
        ) && r == lift_status(rc)
}

/// The gas that CREATE (`with_salt` false) or CREATE2 charges for `size` bytes of
/// init code, besides memory: 2 per word, and for CREATE2 6 more per word for
/// hashing.
pub open spec fn create_code_cost(with_salt: bool, size: nat) -> int {
    if with_salt {
        GAS_INIT_CODE_WORD * words(size) + GAS_CREATE2_WORD * words(size)
    } else {
        GAS_INIT_CODE_WORD * words(size)
    }
}

/// CREATE and CREATE2: memory for the init code (offset and size, the second
/// and third words) is charged, then the init code cost; CREATE2 reads the init
/// code and the salt (the fourth word); the new account's address becomes warm;
/// then the creation runs through the host as `create_via` states.
pub open spec fn create_op_outcome<S: State, H: Host<S>>(
    opcode: u8,
    env: CallEnv,
    st0: S,
    h0: H,
    s0: Seq<U256>,
    s1: Seq<U256>,
    m0: Seq<u8>,
    m1: Seq<u8>,
    g0: u64,
    g1: u64,
    rd0: Seq<u8>,
    rd1: Seq<u8>,
    wa0: Map<Address, ()>,
    wa1: Map<Address, ()>,
    r: Result<(StepOutcome, Option<StorageWriteInfo>), EvmError>,
) -> bool {
    let with_salt = opcode == 0xF5;
    let invalid = Err::<(StepOutcome, Option<StorageWriteInfo>), EvmError>(
        EvmError::StackError(StackError::InvalidIndex),
    );
    let oog = Err::<(StepOutcome, Option<StorageWriteInfo>), EvmError>(EvmError::OutOfGas);
    if s0.len() < 3 {
        r == invalid && s1 =~= s0 && m1 =~= m0 && g1 == g0 && wa1 == wa0
    } else {
        let offset = usize_of(nth(s0, 1)@);
        let size = usize_of(nth(s0, 2)@);
        let end = sat_add(offset, size);
        let charge: int = if size > 0 { memory_charge(m0.len(), end) as int } else { 0 };
        let cost = create_code_cost(with_salt, size);
        let g2 = g0 - charge - cost;
        if m0.len() + 32 > usize::MAX || (size > 0 && (!memory_cost_fits(end) || charge > g0)) {
            r == oog && s1 =~= s0 && m1 =~= m0 && g1 == g0 && wa1 == wa0
        } else if cost > g0 - charge {
            r == oog && s1 =~= s0 && m1 =~= m0 && g1 == g0 - charge && wa1 == wa0
        } else {
            let m2 = if with_salt && size > 0 {
                expand_to(m0, read_touch(m0.len(), offset, size))
            } else {
                m0
            };
            let code = read_bytes(m0, offset, size);
            if with_salt && s0.len() < 4 {
                r == invalid && s1 =~= s0 && m1 =~= m2 && g1 == g2 && wa1 == wa0
            } else {
                let created = if with_salt {
                    create2_address_spec(env.self_address@, nth(s0, 3)@, code)
                } else {
                    let nonce = word_at(st0.nonces(), env.self_address)@;
                    create_address_spec(env.self_address@, if nonce >= 1 { (nonce - 1) as nat } else { 0 })
                };
                &&& exists|a: Address| a@ == created && #[trigger] wa0.dom().insert(a) == wa1.dom()
                &&& if m2.len() + 32 > usize::MAX {
                    r == oog && s1 =~= s0 && m1 =~= m2 && g1 == g2
                } else {
                    create_through_host(with_salt, st0, h0, env, s0, m2, g2 as u64, rd0, s1, m1, g1, rd1, r)
                }
            }
        }
    }
}

/// The init code of any size that memory can hold is at most 2^59 words.
proof fn lemma_words_bound(size: nat)
    requires
        size <= usize::MAX,
    ensures
        words(size) <= 0x800_0000_0000_0000,
{
}

/// CREATE and CREATE2.
#[verifier::spinoff_prover]
#[verifier::rlimit(40)]
fn exec_create_op<S: State, H: Host<S>>(
    opcode: u8,
    call_env: &CallEnv,
    stack: &mut Stack,
    memory: &mut Memory,
    state: &mut S,
    host: &mut H,
    gas_remaining: &mut u64,
    return_data: &mut Vec<u8>,
    accessed_addresses: &mut WarmAddresses,
) -> (r: Result<(StepOutcome, Option<StorageWriteInfo>), EvmError>)
    requires
        opcode == 0xF0 || opcode == 0xF5,
    ensures
        create_op_outcome(
            opcode,
            *call_env,
            *old(state),
            *old(host),
            old(stack)@,
            final(stack)@,
            old(memory)@,
            final(memory)@,
            *old(gas_remaining),
            *final(gas_remaining),
            old(return_data)@,
            final(return_data)@,
            old(accessed_addresses).map(),
            final(accessed_addresses).map(),
            r,
        ),
{
    let with_salt = opcode == 0xF5;
    let offset = peek_word(stack, 1)?.as_usize();
    let size = peek_word(stack, 2)?.as_usize();
    check_memory(memory)?;
    if size > 0 {
        charge_memory(gas_remaining, memory.msize(), offset.saturating_add(size))?;
        proof {
            lemma_fits_leaves_room(sat_add(offset as nat, size as nat));
        }
    }
    let init_cost = init_code_gas_cost(size);
    proof {
        lemma_words_bound(size as nat);
    }
    let cost = if with_salt {
        init_cost + create2_hash_cost(size)
    } else {
        init_cost
    };
    utils::consume_gas(gas_remaining, cost)?;
    let contract_address = if with_salt {
        let ghost m_start = memory@;
        let init_code = utils::read_memory_bytes(memory, offset, size)?;
        proof {
            assert(init_code@ =~= read_bytes(m_start, offset as nat, size as nat));
        }
        let salt = peek_word(stack, 3)?;
        compute_create2_address(&call_env.self_address, &salt, init_code.as_slice())
    } else {
        let nonce = state.get_nonce(&call_env.self_address);
        compute_create_address(&call_env.self_address, nonce.saturating_sub(U256::one()))
    };
    access_address(accessed_addresses, &contract_address);
    check_memory(memory)?;
    let ghost st0 = *state;
    let ghost h0 = *host;
    let ghost (s0, m0, g0, rd0) = (stack@, memory@, *gas_remaining, return_data@);
    let rc = if with_salt {
        environment::execute_create2(state, host, stack, memory, call_env, gas_remaining, return_data)
    } else {
        environment::execute_create(state, host, stack, memory, call_env, gas_remaining, return_data)
    };
    let r = match rc {
        Ok(()) => Ok((StepOutcome::Continue(1), None)),
        Err(e) => Err(e),
    };
    assert(create_through_host(with_salt, st0, h0, *call_env, s0, m0, g0, rd0, stack@, memory@, *gas_remaining, return_data@, r)) by {
        let (smid, plan, answer) = choose|smid: Seq<U256>, plan: Result<CreateMessage, EvmError>, answer: CreateResult|
            #[trigger] environment::create_via(
                with_salt,
                st0,
                h0,
                *call_env,
                s0,
                m0,
                g0,
                rd0,
                smid,
                plan,
                answer,
                stack@,
                memory@,
                *gas_remaining,
                return_data@,
                rc,
            );
        assert(r == lift_status(rc));
        assert(environment::create_via(
            with_salt,
            st0,
            h0,
            *call_env,
            s0,
            m0,
            g0,
            rd0,
            smid,
            plan,
            answer,
            stack@,
            memory@,
            *gas_remaining,
            return_data@,
            rc,
        ));
    }
    r
}

/// What executing `opcode` does to the machine: the stack, memory, world state,
/// gas, refund, return data and warm sets before (`0`) and after (`1`), and the
/// outcome. `h0` is the host before the opcode: the calls and creations it runs
/// are answered as it answers them.
pub open spec fn opcode_effect<S: State, H: Host<S>>(
    opcode: u8,
    ctx: ContextView,
    h0: H,
    s0: Seq<U256>,
    s1: Seq<U256>,
    m0: Seq<u8>,
    m1: Seq<u8>,
    st0: S,
    st1: S,
    g0: u64,
    g1: u64,
    f0: u64,
    f1: u64,
    rd0: Seq<u8>,
    rd1: Seq<u8>,
    wa0: Map<Address, ()>,
    wa1: Map<Address, ()>,
    ws0: Map<(Address, U256), ()>,
    ws1: Map<(Address, U256), ()>,
    r: Result<(StepOutcome, Option<StorageWriteInfo>), EvmError>,
) -> bool {
    &&& (opcode == 0xF0 || opcode == 0xF5 ==> create_op_outcome(
        opcode,
        CallEnv {
            self_address: ctx.call_address,
            caller: ctx.call_caller,
            call_value: ctx.call_value,
        },
        st0,
        h0,
        s0,
        s1,
        m0,
        m1,
        g0,
        g1,
        rd0,
        rd1,
        wa0,
        wa1,
        r,
    ))
    &&& (opcode == 0xF1 || opcode == 0xF2 || opcode == 0xF4 || opcode == 0xFA ==> call_op_outcome(
        opcode,
        CallEnv {
            self_address: ctx.call_address,
            caller: ctx.call_caller,
            call_value: ctx.call_value,
        },
        st0,
        h0,
        s0,
        s1,
        m0,
        m1,
        g0,
        g1,
        rd0,
        rd1,
        wa0,
        wa1,
        r,
    ))
    &&& (r is Ok ==> g1 <= g0 + refund_bound(opcode))
    &&& (opcode == 0x55 && r is Ok ==> g1 < g0)
    &&& (!is_defined(opcode) || opcode == 0xFE ==> r == Err::<
        (StepOutcome, Option<StorageWriteInfo>),
        EvmError,
    >(EvmError::InvalidOpcode(opcode)))
    &&& (opcode == 0xF3 && r is Ok ==> r matches Ok((StepOutcome::Return(_), _)))
    &&& (opcode == 0xFD && r is Ok ==> r matches Ok((StepOutcome::Revert(_), _)))
    &&& (opcode == 0xFF && r is Ok ==> r matches Ok((StepOutcome::Stop, _)))
    &&& (opcode == 0x00 ==> r == Ok::<(StepOutcome, Option<StorageWriteInfo>), EvmError>(
        (StepOutcome::Stop, None),
    ) && s1 =~= s0 && m1 =~= m0 && g1
        == g0)
    &&& (is_stack_arith(opcode) ==> {
        let k = arith_arity(opcode);
        &&& g1 == g0
        &&& m1 =~= m0
        &&& s0.len() < k ==> r == Err::<
            (StepOutcome, Option<StorageWriteInfo>),
            EvmError,
        >(EvmError::StackError(StackError::Underflow)) && s1.len() == 0
        &&& s0.len() >= k ==> r == Ok::<
            (StepOutcome, Option<StorageWriteInfo>),
            EvmError,
        >((StepOutcome::Continue(1), None)) && s1.len() == s0.len() - k + 1
            && s1.subrange(0, s1.len() - 1) == s0.subrange(
            0,
            s0.len() - k,
        ) && s1.last()@ == arith_value(opcode, s0)
    })
    &&& (is_context_push(opcode) ==> {
        &&& g1 == g0
        &&& m1 =~= m0
        &&& st1 == st0
        &&& s0.len() >= 1024 ==> r == Err::<
            (StepOutcome, Option<StorageWriteInfo>),
            EvmError,
        >(EvmError::StackError(StackError::Overflow)) && s1 =~= s0
        &&& s0.len() < 1024 ==> r == Ok::<
            (StepOutcome, Option<StorageWriteInfo>),
            EvmError,
        >((StepOutcome::Continue(1), None)) && s1 =~= s0.push(
            s1.last(),
        ) && s1.last()@ == context_word(
            opcode,
            ctx,
            m0.len(),
            rd0.len(),
            g0 as nat,
        )
    })
    &&& (opcode == 0x50 ==> {
        &&& g1 == g0
        &&& m1 =~= m0
        &&& st1 == st0
        &&& s0.len() == 0 ==> r == Err::<
            (StepOutcome, Option<StorageWriteInfo>),
            EvmError,
        >(EvmError::StackError(StackError::Underflow)) && s1.len() == 0
        &&& s0.len() > 0 ==> r == Ok::<
            (StepOutcome, Option<StorageWriteInfo>),
            EvmError,
        >((StepOutcome::Continue(1), None)) && s1 =~= s0.drop_last()
    })
    &&& (0x80 <= opcode <= 0x8F ==> {
        let n = (opcode - 0x7F) as int;
        &&& g1 == g0
        &&& m1 =~= m0
        &&& st1 == st0
        &&& n > s0.len() ==> r == Err::<
            (StepOutcome, Option<StorageWriteInfo>),
            EvmError,
        >(EvmError::StackError(StackError::Underflow)) && s1 =~= s0
        &&& n <= s0.len() && s0.len() >= 1024 ==> r == Err::<
            (StepOutcome, Option<StorageWriteInfo>),
            EvmError,
        >(EvmError::StackError(StackError::Overflow)) && s1 =~= s0
        &&& n <= s0.len() && s0.len() < 1024 ==> r == Ok::<
            (StepOutcome, Option<StorageWriteInfo>),
            EvmError,
        >((StepOutcome::Continue(1), None)) && s1 =~= s0.push(
            s0[s0.len() - n],
        )
    })
    &&& (0x90 <= opcode <= 0x9F ==> {
        let n = (opcode - 0x8F) as int;
        &&& g1 == g0
        &&& m1 =~= m0
        &&& st1 == st0
        &&& n >= s0.len() ==> r == Err::<
            (StepOutcome, Option<StorageWriteInfo>),
            EvmError,
        >(EvmError::StackError(StackError::Underflow)) && s1 =~= s0
        &&& n < s0.len() ==> r == Ok::<
            (StepOutcome, Option<StorageWriteInfo>),
            EvmError,
        >((StepOutcome::Continue(1), None)) && s1 =~= swapped(s0, n)
    })
    &&& (opcode == 0x56 ==> {
        &&& g1 == g0
        &&& m1 =~= m0
        &&& st1 == st0
        &&& s0.len() == 0 ==> r == Err::<
            (StepOutcome, Option<StorageWriteInfo>),
            EvmError,
        >(EvmError::StackError(StackError::Underflow)) && s1.len() == 0
        &&& s0.len() > 0 ==> {
            let d = usize_of(s0.last()@);
            &&& s1 =~= s0.drop_last()
            &&& valid_jump(ctx, d) ==> r == Ok::<
                (StepOutcome, Option<StorageWriteInfo>),
                EvmError,
            >((StepOutcome::Jump(d as usize), None))
            &&& !valid_jump(ctx, d) ==> r == Err::<
                (StepOutcome, Option<StorageWriteInfo>),
                EvmError,
            >(EvmError::InvalidJump)
        }
    })
    &&& (opcode == 0x57 ==> {
        &&& g1 == g0
        &&& m1 =~= m0
        &&& st1 == st0
        &&& s0.len() < 2 ==> r == Err::<
            (StepOutcome, Option<StorageWriteInfo>),
            EvmError,
        >(EvmError::StackError(StackError::Underflow)) && s1.len() == 0
        &&& s0.len() >= 2 ==> {
            let d = usize_of(nth(s0, 0)@);
            &&& s1 =~= popped(s0, 2)
            &&& nth(s0, 1)@ == 0 ==> r == Ok::<
                (StepOutcome, Option<StorageWriteInfo>),
                EvmError,
            >((StepOutcome::Jump((ctx.pc + 1) as usize), None))
            &&& nth(s0, 1)@ != 0 && valid_jump(ctx, d) ==> r == Ok::<
                (StepOutcome, Option<StorageWriteInfo>),
                EvmError,
            >((StepOutcome::Jump(d as usize), None))
            &&& nth(s0, 1)@ != 0 && !valid_jump(ctx, d) ==> r == Err::<
                (StepOutcome, Option<StorageWriteInfo>),
                EvmError,
            >(EvmError::InvalidJump)
        }
    })
    &&& (0x51 <= opcode <= 0x53 ==> st1 == st0 && word_access_outcome(
        opcode,
        s0,
        s1,
        m0,
        m1,
        g0,
        g1,
        r,
    ))
    &&& (opcode == 0x20 ==> st1 == st0 && keccak_outcome(
        s0,
        s1,
        m0,
        m1,
        g0,
        g1,
        r,
    ))
    &&& (opcode == 0x37 || opcode == 0x39 ==> st1 == st0 && copy_outcome(
        if opcode == 0x37 {
            ctx.call_data
        } else {
            ctx.code
        },
        s0,
        s1,
        m0,
        m1,
        g0,
        g1,
        r,
    ))
    &&& (opcode == 0x3E ==> st1 == st0 && return_copy_outcome(
        rd0,
        s0,
        s1,
        m0,
        m1,
        g0,
        g1,
        r,
    ))
    &&& (opcode == 0x5E ==> st1 == st0 && mcopy_outcome(
        s0,
        s1,
        m0,
        m1,
        g0,
        g1,
        r,
    ))
    &&& (0xA0 <= opcode <= 0xA4 ==> st1 == st0 && log_outcome(
        ctx.call_address,
        (opcode - 0xA0) as nat,
        s0,
        s1,
        m0,
        m1,
        g0,
        g1,
        r,
    ))
    &&& (opcode == 0x31 || opcode == 0x3B || opcode == 0x3F ==> st1 == st0
        && m1 =~= m0 && account_query_outcome(
        opcode,
        st0,
        s0,
        s1,
        wa0,
        wa1,
        g0,
        g1,
        r,
    ))
    &&& (opcode == 0x3C ==> st1 == st0 && extcodecopy_outcome(
        st0,
        s0,
        s1,
        m0,
        m1,
        wa0,
        wa1,
        g0,
        g1,
        r,
    ))
    &&& (opcode == 0x40 || opcode == 0x49 ==> st1 == st0 && m1 =~= m0 && g1 == g0 && (if s0.len() == 0 {
        r == Err::<(StepOutcome, Option<StorageWriteInfo>), EvmError>(
            EvmError::StackError(StackError::Underflow),
        ) && s1.len() == 0
    } else {
        r == Ok::<(StepOutcome, Option<StorageWriteInfo>), EvmError>(
            (StepOutcome::Continue(1), None),
        ) && s1.len() == s0.len() && popped(s1, 1) =~= popped(
            s0,
            1,
        )
    }))
    &&& (opcode == 0x40 && r is Ok ==> exists|h: Option<crate::types::Hash>|
        #[trigger] h0.answers_blockhash(s0.last(), h) && s1.last()@ == environment::hash_word(h))
    &&& (opcode == 0x49 && r is Ok ==> exists|h: Option<crate::types::Hash>|
        #[trigger] h0.answers_blobhash(s0.last(), h) && s1.last()@ == environment::hash_word(h))
    &&& (opcode == 0x4A ==> st1 == st0 && m1 =~= m0
        && g1 == g0 && (if s0.len() >= 1024 {
        r == Err::<(StepOutcome, Option<StorageWriteInfo>), EvmError>(
            EvmError::StackError(StackError::Overflow),
        ) && s1 =~= s0
    } else {
        r == Ok::<(StepOutcome, Option<StorageWriteInfo>), EvmError>(
            (StepOutcome::Continue(1), None),
        ) && s1.len() == s0.len() + 1 && popped(s1, 1) =~= s0 && h0.answers_blobbasefee(s1.last())
    }))
    &&& (opcode == 0x0A ==> st1 == st0 && m1 =~= m0
        && exp_outcome(s0, s1, g0, g1, r))
    &&& (opcode == 0x35 ==> {
        &&& st1 == st0
        &&& m1 =~= m0
        &&& g1 == g0
        &&& s0.len() == 0 ==> r == Err::<
            (StepOutcome, Option<StorageWriteInfo>),
            EvmError,
        >(EvmError::StackError(StackError::Underflow))
        &&& s0.len() > 0 ==> r == Ok::<
            (StepOutcome, Option<StorageWriteInfo>),
            EvmError,
        >((StepOutcome::Continue(1), None)) && s1 =~= s0.drop_last().push(
            s1.last(),
        ) && s1.last()@ == be_val(
            read_bytes(ctx.call_data, usize_of(s0.last()@), 32),
        )
    })
    &&& (opcode == 0x47 ==> {
        &&& st1 == st0
        &&& m1 =~= m0
        &&& g1 == g0
        &&& s0.len() >= 1024 ==> r == Err::<
            (StepOutcome, Option<StorageWriteInfo>),
            EvmError,
        >(EvmError::StackError(StackError::Overflow)) && s1 =~= s0
        &&& s0.len() < 1024 ==> r == Ok::<
            (StepOutcome, Option<StorageWriteInfo>),
            EvmError,
        >((StepOutcome::Continue(1), None)) && s1 =~= s0.push(
            word_at(st0.balances(), ctx.call_address),
        )
    })
    &&& (opcode == 0x5C ==> {
        &&& st1 == st0
        &&& m1 =~= m0
        &&& g1 == g0
        &&& s0.len() == 0 ==> r == Err::<
            (StepOutcome, Option<StorageWriteInfo>),
            EvmError,
        >(EvmError::StackError(StackError::Underflow)) && s1.len() == 0
        &&& s0.len() > 0 ==> r == Ok::<
            (StepOutcome, Option<StorageWriteInfo>),
            EvmError,
        >((StepOutcome::Continue(1), None)) && s1 =~= s0.drop_last().push(
            word_at(st0.transient(), (ctx.call_address, s0.last())),
        )
    })
    &&& (opcode == 0x5D ==> {
        &&& m1 =~= m0
        &&& g1 == g0
        &&& st1.balances() == st0.balances()
        &&& st1.nonces() == st0.nonces()
        &&& st1.codes() == st0.codes()
        &&& st1.storage() == st0.storage()
        &&& st1.selfdestructs() == st0.selfdestructs()
        &&& s0.len() < 2 ==> r == Err::<
            (StepOutcome, Option<StorageWriteInfo>),
            EvmError,
        >(EvmError::StackError(StackError::Underflow)) && s1.len() == 0
            && st1.transient() == st0.transient()
        &&& s0.len() >= 2 ==> r == Ok::<
            (StepOutcome, Option<StorageWriteInfo>),
            EvmError,
        >((StepOutcome::Continue(1), None)) && s1 =~= popped(s0, 2)
            && st1.transient() == st0.transient().insert(
            (ctx.call_address, nth(s0, 0)),
            nth(s0, 1),
        )
    })
    &&& (opcode == 0x54 ==> st1 == st0 && m1 =~= m0
        && sload_outcome(
        ctx.call_address,
        st0.storage(),
        s0,
        s1,
        ws0,
        ws1,
        g0,
        g1,
        r,
    ))
    &&& (opcode == 0x55 ==> m1 =~= m0 && sstore_outcome(
        ctx.call_address,
        st0,
        st1,
        s0,
        s1,
        ws0,
        ws1,
        g0,
        g1,
        f0,
        f1,
        r,
    ))
    &&& (opcode == 0xF3 || opcode == 0xFD ==> st1 == st0 && halt_outcome(
        opcode,
        s0,
        s1,
        m0,
        m1,
        g0,
        g1,
        r,
    ))
    &&& (opcode == 0xFF ==> {
        &&& m1 =~= m0
        &&& g1 == g0
        &&& st1.balances() == st0.balances()
        &&& st1.nonces() == st0.nonces()
        &&& st1.codes() == st0.codes()
        &&& st1.storage() == st0.storage()
        &&& st1.transient() == st0.transient()
        &&& s0.len() == 0 ==> r == Err::<
            (StepOutcome, Option<StorageWriteInfo>),
            EvmError,
        >(EvmError::StackError(StackError::Underflow)) && s1.len() == 0
            && st1.selfdestructs() == st0.selfdestructs()
        &&& s0.len() > 0 ==> r == Ok::<
            (StepOutcome, Option<StorageWriteInfo>),
            EvmError,
        >((StepOutcome::Stop, None)) && s1 =~= popped(s0, 1)
            && st1.selfdestructs() == st0.selfdestructs().push(
            (ctx.call_address, utils::word_to_address(s0.last()@)),
        )
    })
    &&& (opcode == 0x5B ==> r == Ok::<(StepOutcome, Option<StorageWriteInfo>), EvmError>(
        (StepOutcome::Continue(1), None),
    ) && s1 =~= s0 && m1 =~= m0 && g1
        == g0 && st1 == st0)
    &&& (0x60 <= opcode <= 0x7F ==> {
        let n = (opcode - 0x5F) as nat;
        &&& g1 == g0
        &&& m1 =~= m0
        &&& st1 == st0
        &&& ctx.pc + 1 + n <= ctx.code.len() && s0.len() >= 1024 ==> r == Err::<
            (StepOutcome, Option<StorageWriteInfo>),
            EvmError,
        >(EvmError::StackError(StackError::Overflow)) && s1 =~= s0
        &&& ctx.pc + 1 + n > ctx.code.len() ==> r == Err::<
            (StepOutcome, Option<StorageWriteInfo>),
            EvmError,
        >(EvmError::InvalidPush) && s1 =~= s0
        &&& ctx.pc + 1 + n <= ctx.code.len() && s0.len() < 1024 ==> r == Ok::<
            (StepOutcome, Option<StorageWriteInfo>),
            EvmError,
        >((StepOutcome::Continue((1 + n) as u32), None)) && s1 =~= s0.push(
            s1.last(),
        ) && s1.last()@ == crate::types::be_val(
            ctx.code.subrange(ctx.pc + 1, ctx.pc + 1 + n),
        )
    })
}

/// Executes one opcode; the interpreter has charged its base gas.
///
/// STOP halts; undefined opcodes and INVALID fail; the arithmetic, comparison and
/// bitwise opcodes transform the stack as their own contracts state and continue
/// with the next instruction; PUSHn pushes the `n` code bytes after the opcode and
/// skips them; the call and creation opcodes charge memory and their own costs,
/// then hand the host the message that `prepare_call`/`prepare_create` build and
/// apply its answer as `complete_call`/`complete_create` do. Gas never grows by
/// more than what a warm access gives back, and SSTORE always costs gas.
#[verifier::spinoff_prover]
#[verifier::rlimit(60)]
pub fn execute_opcode<S: State, H: Host<S>>(
    opcode: u8,
    ctx: &ExecContext<'_>,
    stack: &mut Stack,
    memory: &mut Memory,
    state: &mut S,
    host: &mut H,
    gas_remaining: &mut u64,
    gas_refund: &mut u64,
    return_data: &mut Vec<u8>,
    accessed_addresses: &mut WarmAddresses,
    accessed_storage: &mut WarmSlots,
) -> (r: Result<(StepOutcome, Option<StorageWriteInfo>), EvmError>)
    requires
        ctx.pc < ctx.code@.len(),
    ensures
        opcode_effect(
            opcode,
            ctx@,
            *old(host),
            old(stack)@,
            final(stack)@,
            old(memory)@,
            final(memory)@,
            *old(state),
            *final(state),
            *old(gas_remaining),
            *final(gas_remaining),
            *old(gas_refund),
            *final(gas_refund),
            old(return_data)@,
            final(return_data)@,
            old(accessed_addresses).map(),
            final(accessed_addresses).map(),
            old(accessed_storage).map(),
            final(accessed_storage).map(),
            r,
        ),
{
    let code_len = ctx.code.len();
    if opcode == 0x00 {
        return Ok((StepOutcome::Stop, None));
    }
    if stack_arith(opcode) {
        match run_arith(opcode, stack) {
            Ok(()) => {
                return Ok((StepOutcome::Continue(1), None));
            },
            Err(e) => {
                return Err(arith_error_to_evm(e));
            },
        }
    }
    if 0x60 <= opcode && opcode <= 0x7F {
        let n = (opcode - 0x5F) as usize;
        let code_len = ctx.code.len();
        if n > usize::MAX - ctx.pc - 1 {
            return Err(EvmError::InvalidPush);
        }
        match control::push_n_strict(stack, ctx.code, ctx.pc, n) {
            Ok(()) => {
                return Ok((StepOutcome::Continue(1 + n as u32), None));
            },
            Err(e) => {
                return Err(opcode_error_to_evm(e));
            },
        }
    }
    if 0x80 <= opcode && opcode <= 0x8F {
        let n = (opcode - 0x7F) as usize;
        match control::dup_n(stack, n) {
            Ok(()) => {
                return Ok((StepOutcome::Continue(1), None));
            },
            Err(e) => {
                return Err(opcode_error_to_evm(e));
            },
        }
    }
    if 0x90 <= opcode && opcode <= 0x9F {
        let n = (opcode - 0x8F) as usize;
        match control::swap_n(stack, n) {
            Ok(()) => {
                return Ok((StepOutcome::Continue(1), None));
            },
            Err(e) => {
                return Err(opcode_error_to_evm(e));
            },
        }
    }
    if 0xA0 <= opcode && opcode <= 0xA4 {
        return exec_log(opcode, ctx.call_address, stack, memory, gas_remaining);
    }
    let call_env = CallEnv {
        self_address: ctx.call_address,
        caller: ctx.call_caller,
        call_value: ctx.call_value,
    };
    match opcode {
        0x0A => exec_exp(stack, gas_remaining),
        0x20 => exec_keccak(stack, memory, gas_remaining),
        0x30 => {
            push_evm(stack, utils::address_to_u256(&ctx.call_address))?;
            Ok((StepOutcome::Continue(1), None))
        },
        0x31 | 0x3B | 0x3F => exec_account_query(opcode, stack, state, gas_remaining, accessed_addresses),
        0x32 => {
            push_evm(stack, utils::address_to_u256(&ctx.tx_origin))?;
            Ok((StepOutcome::Continue(1), None))
        },
        0x33 => {
            push_evm(stack, utils::address_to_u256(&ctx.call_caller))?;
            Ok((StepOutcome::Continue(1), None))
        },
        0x34 => {
            push_evm(stack, ctx.call_value)?;
            Ok((StepOutcome::Continue(1), None))
        },
        0x35 => {
            let offset = pop_evm(stack)?.as_usize();
            let data = slice_padded(ctx.call_data, offset, 32);
            push_evm(stack, U256::from_be_slice(data.as_slice()))?;
            Ok((StepOutcome::Continue(1), None))
        },
        0x36 => {
            push_evm(stack, U256::from_u64(ctx.call_data.len() as u64))?;
            Ok((StepOutcome::Continue(1), None))
        },
        0x37 => exec_copy(ctx.call_data, stack, memory, gas_remaining),
        0x39 => exec_copy(ctx.code, stack, memory, gas_remaining),
        0x38 => {
            push_evm(stack, U256::from_u64(ctx.code.len() as u64))?;
            Ok((StepOutcome::Continue(1), None))
        },
        0x3A => {
            push_evm(stack, ctx.tx_gas_price)?;
            Ok((StepOutcome::Continue(1), None))
        },
        0x3C => exec_extcodecopy(stack, state, memory, gas_remaining, accessed_addresses),
        0x3D => {
            push_evm(stack, U256::from_u64(return_data.len() as u64))?;
            Ok((StepOutcome::Continue(1), None))
        },
        0x3E => exec_return_copy(return_data.as_slice(), stack, memory, gas_remaining),
        0x40 => {
            match environment::blockhash_with_host(stack, host) {
                Ok(()) => Ok((StepOutcome::Continue(1), None)),
                Err(e) => Err(opcode_error_to_evm(e)),
            }
        },
        0x41 => {
            push_evm(stack, utils::address_to_u256(&ctx.block_coinbase))?;
            Ok((StepOutcome::Continue(1), None))
        },
        0x42 => {
            push_evm(stack, ctx.block_timestamp)?;
            Ok((StepOutcome::Continue(1), None))
        },
        0x43 => {
            push_evm(stack, ctx.block_number)?;
            Ok((StepOutcome::Continue(1), None))
        },
        0x44 => {
            push_evm(stack, ctx.block_difficulty)?;
            Ok((StepOutcome::Continue(1), None))
        },
        0x45 => {
            push_evm(stack, ctx.block_gas_limit)?;
            Ok((StepOutcome::Continue(1), None))
        },
        0x46 => {
            push_evm(stack, ctx.block_chain_id)?;
            Ok((StepOutcome::Continue(1), None))
        },
        0x47 => {
            environment::selfbalance(stack, state, ctx.call_address)?;
            Ok((StepOutcome::Continue(1), None))
        },
        0x48 => {
            push_evm(stack, ctx.block_base_fee)?;
            Ok((StepOutcome::Continue(1), None))
        },
        0x49 => {
            match environment::blobhash_with_host(stack, host) {
                Ok(()) => Ok((StepOutcome::Continue(1), None)),
                Err(e) => Err(opcode_error_to_evm(e)),
            }
        },
        0x4A => {
            match environment::blobbasefee_with_host(stack, host) {
                Ok(()) => Ok((StepOutcome::Continue(1), None)),
                Err(e) => Err(opcode_error_to_evm(e)),
            }
        },
        0x50 => {
            match control::pop(stack) {
                Ok(()) => Ok((StepOutcome::Continue(1), None)),
                Err(e) => Err(opcode_error_to_evm(e)),
            }
        },
        0x51 | 0x52 | 0x53 => exec_word_access(opcode, stack, memory, gas_remaining),
        0x54 => exec_sload(ctx.call_address, stack, state, gas_remaining, accessed_storage),
        0x55 => exec_sstore(
            ctx.call_address,
            stack,
            state,
            gas_remaining,
            gas_refund,
            accessed_storage,
        ),
        0x56 => {
            match control::jump_bitmap(stack, ctx.code, ctx.jumpdests) {
                Ok(new_pc) => Ok((StepOutcome::Jump(new_pc), None)),
                Err(e) => Err(opcode_error_to_evm(e)),
            }
        },
        0x57 => {
            match control::jumpi_bitmap(stack, ctx.code, ctx.jumpdests, ctx.pc) {
                Ok(new_pc) => Ok((StepOutcome::Jump(new_pc), None)),
                Err(e) => Err(opcode_error_to_evm(e)),
            }
        },
        0x58 => {
            match control::pc(stack, ctx.pc) {
                Ok(()) => Ok((StepOutcome::Continue(1), None)),
                Err(e) => Err(opcode_error_to_evm(e)),
            }
        },
        0x59 => {
            match control::msize(stack, memory) {
                Ok(()) => Ok((StepOutcome::Continue(1), None)),
                Err(e) => Err(opcode_error_to_evm(e)),
            }
        },
        0x5A => {
            match control::gas(stack, *gas_remaining) {
                Ok(()) => Ok((StepOutcome::Continue(1), None)),
                Err(e) => Err(opcode_error_to_evm(e)),
            }
        },
        0x5B => {
            match control::jumpdest() {
                Ok(()) => Ok((StepOutcome::Continue(1), None)),
                Err(e) => Err(opcode_error_to_evm(e)),
            }
        },
        0x5C => {
            control::tload(stack, state, ctx.call_address)?;
            Ok((StepOutcome::Continue(1), None))
        },
        0x5D => {
            control::tstore(stack, state, ctx.call_address)?;
            Ok((StepOutcome::Continue(1), None))
        },
        0x5E => exec_mcopy(stack, memory, gas_remaining),
        0x5F => {
            match control::push0(stack) {
                Ok(()) => Ok((StepOutcome::Continue(1), None)),
                Err(e) => Err(opcode_error_to_evm(e)),
            }
        },
        0xF0 | 0xF5 => exec_create_op(
            opcode,
            &call_env,
            stack,
            memory,
            state,
            host,
            gas_remaining,
            return_data,
            accessed_addresses,
        ),
        0xF1 | 0xF2 | 0xF4 | 0xFA => exec_call_op(
            opcode,
            &call_env,
            stack,
            memory,
            state,
            host,
            gas_remaining,
            return_data,
            accessed_addresses,
        ),
        0xF3 | 0xFD => exec_halt(opcode, stack, memory, gas_remaining),
        0xFF => {
            environment::execute_selfdestruct(state, stack, ctx.call_address)?;
            Ok((StepOutcome::Stop, None))
        },
        _ => Err(EvmError::InvalidOpcode(opcode)),
    }
}

} // verus!
