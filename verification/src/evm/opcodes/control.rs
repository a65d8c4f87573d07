//! Memory, storage, stack and control-flow opcodes: MLOAD, MSTORE, MSTORE8, MSIZE,
//! MCOPY, SLOAD, SSTORE, POP, PUSH0–PUSH32, DUP1–DUP16, SWAP1–SWAP16, JUMP, JUMPI,
//! PC, GAS, JUMPDEST, and the analysis of valid jump destinations.

use vstd::prelude::*;
use std::collections::HashSet;
use crate::evm::memory::{Memory, MemoryError, expand_to, write_at};
use crate::evm::stack::{Stack, StackError, MAX_STACK_SIZE};
use crate::state::{Storage, State, slot, word_at};
use crate::evm::error::EvmError;
use crate::evm::gas::{sstore_gas_cost, sstore_cost};
use crate::evm::opcodes::utils::consume_gas;
use crate::types::Address;
use crate::types::{U256, be_val, be_bytes};

verus! {

broadcast use vstd::std_specs::hash::group_hash_axioms;

/// Errors of the memory, stack and control-flow opcodes.
#[derive(Debug, Clone, Copy, PartialEq, Eq, Structural)]
pub enum OpcodeError {
    /// Stack error (overflow/underflow).
    Stack(StackError),
    /// Memory error (invalid offset/overflow).
    Memory(MemoryError),
    /// Invalid jump destination.
    InvalidJumpDestination,
    /// Program counter out of bounds (also: a PUSH width outside 1..=32).
    InvalidProgramCounter,
    /// Invalid offset or size.
    InvalidOffset,
    /// Not enough bytes in the code after a PUSH.
    InvalidPush,
    /// Operation not implemented.
    NotImplemented,
}

// =============================================================================
// Specification
// =============================================================================

/// A word as a memory offset or size: saturated at `usize::MAX`.
pub open spec fn usize_of(v: nat) -> nat {
    if v <= usize::MAX {
        v
    } else {
        usize::MAX as nat
    }
}

/// The `i`-th word from the top (0 = top).
pub open spec fn nth(s: Seq<U256>, i: int) -> U256 {
    s[s.len() - 1 - i]
}

/// The stack with its top `k` words removed.
pub open spec fn popped(s: Seq<U256>, k: nat) -> Seq<U256> {
    s.subrange(0, s.len() - k)
}

/// Underflow, reported after popping every word of a stack shorter than `k`.
pub open spec fn underflow_after_pops(
    before: Seq<U256>,
    after: Seq<U256>,
    k: nat,
    e: OpcodeError,
) -> bool {
    before.len() < k && e == OpcodeError::Stack(StackError::Underflow) && after.len() == 0
}

/// The `n` bytes after a PUSH at `pc`, zero-padded past the end of the code.
pub open spec fn push_bytes(code: Seq<u8>, pc: nat, n: nat) -> Seq<u8> {
    Seq::new(n, |i: int| if pc + 1 + i < code.len() { code[pc + 1 + i] } else { 0u8 })
}

/// The valid jump destinations reached by scanning the code from `pc`: every
/// JUMPDEST (0x5B) that is an instruction and not PUSH data.
pub open spec fn jumpdests_from(code: Seq<u8>, pc: nat) -> Set<usize>
    decreases code.len() - pc,
{
    if pc >= code.len() {
        Set::empty()
    } else {
        let op = code[pc as int];
        if op == 0x5B {
            jumpdests_from(code, pc + 1).insert(pc as usize)
        } else if 0x60 <= op && op <= 0x7F {
            let next = pc + 1 + (op - 0x5F) as nat;
            if next >= code.len() {
                Set::empty()
            } else {
                jumpdests_from(code, next)
            }
        } else {
            jumpdests_from(code, pc + 1)
        }
    }
}

/// The valid jump destinations of a code.
pub open spec fn valid_jumpdests(code: Seq<u8>) -> Set<usize> {
    jumpdests_from(code, 0)
}

/// A scan from `pc` finds only positions in `[pc, len)`.
pub proof fn lemma_jumpdests_range(code: Seq<u8>, pc: nat, i: usize)
    requires
        code.len() <= usize::MAX,
        jumpdests_from(code, pc).contains(i),
    ensures
        pc <= i < code.len(),
    decreases code.len() - pc,
{
    if pc < code.len() {
        let op = code[pc as int];
        if op == 0x5B {
            if i != pc as usize {
                lemma_jumpdests_range(code, pc + 1, i);
            }
        } else if 0x60 <= op && op <= 0x7F {
            let next = pc + 1 + (op - 0x5F) as nat;
            if next < code.len() {
                lemma_jumpdests_range(code, next, i);
            }
        } else {
            lemma_jumpdests_range(code, pc + 1, i);
        }
    }
}

// =============================================================================
// Helpers
// =============================================================================

/// A word as a memory offset or size, saturated at `usize::MAX`.
fn u256_to_usize(value: &U256) -> (r: usize)
    ensures
        r == usize_of(value@),
{
    value.as_usize()
}

/// Pops one word.
fn pop_word(stack: &mut Stack) -> (r: Result<U256, OpcodeError>)
    ensures
        old(stack)@.len() == 0 ==> r == Err::<U256, OpcodeError>(
            OpcodeError::Stack(StackError::Underflow),
        ) && final(stack)@.len() == 0,
        old(stack)@.len() > 0 ==> r == Ok::<U256, OpcodeError>(old(stack)@.last())
            && final(stack)@ == popped(old(stack)@, 1),
        old(stack)@.len() <= MAX_STACK_SIZE,
{
    match stack.pop() {
        Ok(v) => Ok(v),
        Err(e) => Err(OpcodeError::Stack(e)),
    }
}

/// Pushes one word.
fn push_word(stack: &mut Stack, v: U256) -> (r: Result<(), OpcodeError>)
    ensures
        old(stack)@.len() >= MAX_STACK_SIZE ==> r == Err::<(), OpcodeError>(
            OpcodeError::Stack(StackError::Overflow),
        ) && final(stack)@ == old(stack)@,
        old(stack)@.len() < MAX_STACK_SIZE ==> r is Ok && final(stack)@ == old(stack)@.push(v),
{
    match stack.push(v) {
        Ok(()) => Ok(()),
        Err(e) => Err(OpcodeError::Stack(e)),
    }
}

// =============================================================================
// Memory opcodes
// =============================================================================

/// MLOAD (0x51): pops an offset and pushes the 32-byte big-endian word there,
/// growing memory to cover it.
pub fn mload(stack: &mut Stack, memory: &mut Memory) -> (r: Result<(), OpcodeError>)
    ensures
        old(stack)@.len() == 0 ==> r == Err::<(), OpcodeError>(
            OpcodeError::Stack(StackError::Underflow),
        ) && final(stack)@.len() == 0 && final(memory)@ == old(memory)@,
        old(stack)@.len() > 0 ==> {
            let off = usize_of(old(stack)@.last()@);
            let m = expand_to(old(memory)@, off + 32);
            if off + 32 > usize::MAX {
                &&& r == Err::<(), OpcodeError>(OpcodeError::Memory(MemoryError::Overflow))
                &&& final(stack)@ == popped(old(stack)@, 1)
                &&& final(memory)@ == old(memory)@
            } else {
                &&& r is Ok
                &&& final(memory)@ == m
                &&& final(stack)@.len() == old(stack)@.len()
                &&& popped(final(stack)@, 1) == popped(old(stack)@, 1)
                &&& final(stack)@.last()@ == be_val(m.subrange(off as int, off + 32int))
            }
        },
{
    let ghost s0 = stack@;
    let offset = pop_word(stack)?;
    let ghost s1 = stack@;
    let value = match memory.mload(u256_to_usize(&offset)) {
        Ok(v) => v,
        Err(e) => return Err(OpcodeError::Memory(e)),
    };
    push_word(stack, value)?;
    proof {
        assert(popped(stack@, 1) =~= s1);
    }
    Ok(())
}

/// MSTORE (0x52): pops an offset and a value and stores the value as 32
/// big-endian bytes there, growing memory to cover them.
pub fn mstore(stack: &mut Stack, memory: &mut Memory) -> (r: Result<(), OpcodeError>)
    ensures
        old(stack)@.len() < 2 ==> r == Err::<(), OpcodeError>(
            OpcodeError::Stack(StackError::Underflow),
        ) && final(stack)@.len() == 0 && final(memory)@ == old(memory)@,
        old(stack)@.len() >= 2 ==> {
            let off = usize_of(nth(old(stack)@, 0)@);
            &&& final(stack)@ == popped(old(stack)@, 2)
            &&& if off + 32 > usize::MAX {
                &&& r == Err::<(), OpcodeError>(OpcodeError::Memory(MemoryError::Overflow))
                &&& final(memory)@ == old(memory)@
            } else {
                &&& r is Ok
                &&& final(memory)@ == write_at(
                    expand_to(old(memory)@, off + 32),
                    off,
                    be_bytes(nth(old(stack)@, 1)@, 32),
                )
            }
        },
{
    let offset = pop_word(stack)?;
    let value = pop_word(stack)?;
    proof {
        assert(stack@ =~= popped(old(stack)@, 2));
    }
    match memory.mstore(u256_to_usize(&offset), value) {
        Ok(()) => Ok(()),
        Err(e) => Err(OpcodeError::Memory(e)),
    }
}

/// MSTORE8 (0x53): pops an offset and a value and stores the value's low byte there.
pub fn mstore8(stack: &mut Stack, memory: &mut Memory) -> (r: Result<(), OpcodeError>)
    ensures
        old(stack)@.len() < 2 ==> r == Err::<(), OpcodeError>(
            OpcodeError::Stack(StackError::Underflow),
        ) && final(stack)@.len() == 0 && final(memory)@ == old(memory)@,
        old(stack)@.len() >= 2 ==> {
            let off = usize_of(nth(old(stack)@, 0)@);
            &&& final(stack)@ == popped(old(stack)@, 2)
            &&& if off + 1 > usize::MAX {
                &&& r == Err::<(), OpcodeError>(OpcodeError::Memory(MemoryError::Overflow))
                &&& final(memory)@ == old(memory)@
            } else {
                &&& r is Ok
                &&& final(memory)@ == expand_to(old(memory)@, off + 1).update(
                    off as int,
                    (nth(old(stack)@, 1)@ % 256) as u8,
                )
            }
        },
{
    let offset = pop_word(stack)?;
    let value = pop_word(stack)?;
    proof {
        assert(stack@ =~= popped(old(stack)@, 2));
    }
    let byte = value.low_u8();
    match memory.mstore8(u256_to_usize(&offset), byte) {
        Ok(()) => Ok(()),
        Err(e) => Err(OpcodeError::Memory(e)),
    }
}

/// MSIZE (0x59): pushes the memory size in bytes.
pub fn msize(stack: &mut Stack, memory: &Memory) -> (r: Result<(), OpcodeError>)
    ensures
        old(stack)@.len() >= MAX_STACK_SIZE ==> r == Err::<(), OpcodeError>(
            OpcodeError::Stack(StackError::Overflow),
        ) && final(stack)@ == old(stack)@,
        old(stack)@.len() < MAX_STACK_SIZE ==> r is Ok && final(stack)@.len() == old(stack)@.len()
            + 1 && popped(final(stack)@, 1) == old(stack)@ && final(stack)@.last()@
            == memory@.len(),
{
    let size = memory.msize();
    let r = push_word(stack, U256::from_u64(size as u64));
    proof {
        if r is Ok {
            assert(popped(stack@, 1) =~= old(stack)@);
        }
    }
    r
}

/// MCOPY (0x5E): pops destination, source and size and copies that many bytes
/// within memory (regions may overlap), growing memory to cover both regions.
pub fn mcopy(stack: &mut Stack, memory: &mut Memory) -> (r: Result<(), OpcodeError>)
    ensures
        old(stack)@.len() < 3 ==> r == Err::<(), OpcodeError>(
            OpcodeError::Stack(StackError::Underflow),
        ) && final(stack)@.len() == 0 && final(memory)@ == old(memory)@,
        old(stack)@.len() >= 3 ==> {
            let dest = usize_of(nth(old(stack)@, 0)@);
            let src = usize_of(nth(old(stack)@, 1)@);
            let len = usize_of(nth(old(stack)@, 2)@);
            &&& final(stack)@ == popped(old(stack)@, 3)
            &&& len == 0 ==> r is Ok && final(memory)@ == old(memory)@
            &&& len > 0 && (src + len > usize::MAX || dest + len > usize::MAX) ==> r == Err::<
                (),
                OpcodeError,
            >(OpcodeError::Memory(MemoryError::Overflow)) && final(memory)@ == old(memory)@
            &&& len > 0 && src + len <= usize::MAX && dest + len <= usize::MAX ==> {
                let m = expand_to(
                    old(memory)@,
                    if src + len >= dest + len { (src + len) as nat } else { (dest + len) as nat },
                );
                &&& r is Ok
                &&& final(memory)@ == write_at(m, dest, m.subrange(src as int, (src + len) as int))
            }
        },
{
    let dest = u256_to_usize(&pop_word(stack)?);
    let src = u256_to_usize(&pop_word(stack)?);
    let size = u256_to_usize(&pop_word(stack)?);
    proof {
        assert(stack@ =~= popped(old(stack)@, 3));
    }
    match memory.copy(dest, src, size) {
        Ok(()) => Ok(()),
        Err(e) => Err(OpcodeError::Memory(e)),
    }
}

// =============================================================================
// Storage opcodes
// =============================================================================

/// SLOAD (0x54): pops a key and pushes the value stored under it (zero if never written).
pub fn sload(stack: &mut Stack, storage: &Storage) -> (r: Result<(), OpcodeError>)
    ensures
        old(stack)@.len() == 0 ==> r == Err::<(), OpcodeError>(
            OpcodeError::Stack(StackError::Underflow),
        ) && final(stack)@.len() == 0,
        old(stack)@.len() > 0 ==> r is Ok && final(stack)@ == popped(old(stack)@, 1).push(
            slot(storage@, old(stack)@.last()),
        ),
{
    let key = pop_word(stack)?;
    let value = storage.get(&key);
    push_word(stack, value)?;
    Ok(())
}

/// SSTORE (0x55): pops a key and a value and stores the value under the key.
pub fn sstore(stack: &mut Stack, storage: &mut Storage) -> (r: Result<(), OpcodeError>)
    ensures
        old(stack)@.len() < 2 ==> r == Err::<(), OpcodeError>(
            OpcodeError::Stack(StackError::Underflow),
        ) && final(stack)@.len() == 0 && final(storage)@ == old(storage)@,
        old(stack)@.len() >= 2 ==> r is Ok && final(stack)@ == popped(old(stack)@, 2)
            && final(storage)@ == old(storage)@.insert(nth(old(stack)@, 0), nth(old(stack)@, 1)),
{
    let key = pop_word(stack)?;
    let value = pop_word(stack)?;
    proof {
        assert(stack@ =~= popped(old(stack)@, 2));
    }
    storage.set(&key, value);
    Ok(())
}

// =============================================================================
// Stack opcodes
// =============================================================================

/// POP (0x50): discards the top word.
pub fn pop(stack: &mut Stack) -> (r: Result<(), OpcodeError>)
    ensures
        old(stack)@.len() == 0 ==> r == Err::<(), OpcodeError>(
            OpcodeError::Stack(StackError::Underflow),
        ) && final(stack)@.len() == 0,
        old(stack)@.len() > 0 ==> r is Ok && final(stack)@ == popped(old(stack)@, 1),
{
    pop_word(stack)?;
    Ok(())
}

/// PUSH1–PUSH32 (0x60–0x7F): pushes the `n` bytes after the opcode at `pc` as a
/// big-endian word, zero-padded on the right past the end of the code; `n` must be
/// in `1..=32`.
pub fn push_n(stack: &mut Stack, bytecode: &[u8], pc: usize, n: usize) -> (r: Result<
    (),
    OpcodeError,
>)
    ensures
        (n == 0 || n > 32) ==> r == Err::<(), OpcodeError>(OpcodeError::InvalidProgramCounter)
            && final(stack)@ == old(stack)@,
        1 <= n <= 32 && old(stack)@.len() >= MAX_STACK_SIZE ==> r == Err::<(), OpcodeError>(
            OpcodeError::Stack(StackError::Overflow),
        ) && final(stack)@ == old(stack)@,
        1 <= n <= 32 && old(stack)@.len() < MAX_STACK_SIZE ==> r is Ok && final(stack)@.len()
            == old(stack)@.len() + 1 && popped(final(stack)@, 1) == old(stack)@
            && final(stack)@.last()@ == be_val(push_bytes(bytecode@, pc as nat, n as nat)),
{
    if n == 0 || n > 32 {
        return Err(OpcodeError::InvalidProgramCounter);
    }
    let mut bytes: Vec<u8> = Vec::new();
    let mut i: usize = 0;
    while i < n
        invariant
            i <= n <= 32,
            bytes@ == push_bytes(bytecode@, pc as nat, n as nat).subrange(0, i as int),
        decreases n - i,
    {
        let byte = if pc < bytecode.len() && i < bytecode.len() - pc - 1 {
            bytecode[pc + 1 + i]
        } else {
            0
        };
        bytes.push(byte);
        i = i + 1;
        proof {
            assert(bytes@ =~= push_bytes(bytecode@, pc as nat, n as nat).subrange(0, i as int));
        }
    }
    proof {
        assert(bytes@ =~= push_bytes(bytecode@, pc as nat, n as nat));
    }
    let value = U256::from_be_slice(bytes.as_slice());
    let r = push_word(stack, value);
    proof {
        if r is Ok {
            assert(popped(stack@, 1) =~= old(stack)@);
        }
    }
    r
}

/// PUSH with strict bounds: like [`push_n`], but `InvalidPush` when the code
/// holds fewer than `n` bytes after `pc`.
pub fn push_n_strict(stack: &mut Stack, bytecode: &[u8], pc: usize, n: usize) -> (r: Result<
    (),
    OpcodeError,
>)
    requires
        1 <= n <= 32 ==> pc + 1 + n <= usize::MAX,
    ensures
        (n == 0 || n > 32) ==> r == Err::<(), OpcodeError>(OpcodeError::InvalidProgramCounter)
            && final(stack)@ == old(stack)@,
        1 <= n <= 32 && pc + 1 + n > bytecode@.len() ==> r == Err::<(), OpcodeError>(
            OpcodeError::InvalidPush,
        ) && final(stack)@ == old(stack)@,
        1 <= n <= 32 && pc + 1 + n <= bytecode@.len() && old(stack)@.len() >= MAX_STACK_SIZE ==> r
            == Err::<(), OpcodeError>(OpcodeError::Stack(StackError::Overflow)) && final(stack)@
            == old(stack)@,
        1 <= n <= 32 && pc + 1 + n <= bytecode@.len() && old(stack)@.len() < MAX_STACK_SIZE ==> r
            is Ok && final(stack)@ == old(stack)@.push(final(stack)@.last()) && final(stack)@.last()@ == be_val(bytecode@.subrange(pc + 1, pc + 1 + n)),
{
    if n == 0 || n > 32 {
        return Err(OpcodeError::InvalidProgramCounter);
    }
    let start = pc + 1;
    let end = start + n;
    if end > bytecode.len() {
        return Err(OpcodeError::InvalidPush);
    }
    let value = U256::from_be_slice(&bytecode[start..end]);
    push_word(stack, value)
}

/// PUSH0 (0x5F): pushes 0.
pub fn push0(stack: &mut Stack) -> (r: Result<(), OpcodeError>)
    ensures
        old(stack)@.len() >= MAX_STACK_SIZE ==> r == Err::<(), OpcodeError>(
            OpcodeError::Stack(StackError::Overflow),
        ) && final(stack)@ == old(stack)@,
        old(stack)@.len() < MAX_STACK_SIZE ==> r is Ok && final(stack)@ == old(stack)@.push(
            final(stack)@.last(),
        ) && final(stack)@.last()@ == 0,
{
    push_word(stack, U256::zero())
}

/// DUP1–DUP16 (0x80–0x8F): pushes a copy of the `n`-th word (1 = top).
pub fn dup_n(stack: &mut Stack, n: usize) -> (r: Result<(), OpcodeError>)
    ensures
        (n == 0 || n > 16) ==> r == Err::<(), OpcodeError>(
            OpcodeError::Stack(StackError::InvalidIndex),
        ) && final(stack)@ == old(stack)@,
        1 <= n <= 16 && n > old(stack)@.len() ==> r == Err::<(), OpcodeError>(
            OpcodeError::Stack(StackError::Underflow),
        ) && final(stack)@ == old(stack)@,
        1 <= n <= 16 && n <= old(stack)@.len() && old(stack)@.len() >= MAX_STACK_SIZE ==> r
            == Err::<(), OpcodeError>(OpcodeError::Stack(StackError::Overflow)) && final(stack)@
            == old(stack)@,
        1 <= n <= 16 && n <= old(stack)@.len() && old(stack)@.len() < MAX_STACK_SIZE ==> r is Ok
            && final(stack)@ == old(stack)@.push(old(stack)@[old(stack)@.len() - n]),
{
    if n == 0 || n > 16 {
        return Err(OpcodeError::Stack(StackError::InvalidIndex));
    }
    match stack.dup(n) {
        Ok(()) => Ok(()),
        Err(e) => Err(OpcodeError::Stack(e)),
    }
}

/// SWAP1–SWAP16 (0x90–0x9F): exchanges the top word with the word `n` below it.
pub fn swap_n(stack: &mut Stack, n: usize) -> (r: Result<(), OpcodeError>)
    ensures
        (n == 0 || n > 16) ==> r == Err::<(), OpcodeError>(
            OpcodeError::Stack(StackError::InvalidIndex),
        ) && final(stack)@ == old(stack)@,
        1 <= n <= 16 && n >= old(stack)@.len() ==> r == Err::<(), OpcodeError>(
            OpcodeError::Stack(StackError::Underflow),
        ) && final(stack)@ == old(stack)@,
        1 <= n <= 16 && n < old(stack)@.len() ==> r is Ok && final(stack)@ == old(stack)@.update(
            old(stack)@.len() - 1,
            old(stack)@[old(stack)@.len() - 1 - n],
        ).update(old(stack)@.len() - 1 - n, old(stack)@[old(stack)@.len() - 1]),
{
    if n == 0 || n > 16 {
        return Err(OpcodeError::Stack(StackError::InvalidIndex));
    }
    match stack.swap(n) {
        Ok(()) => Ok(()),
        Err(e) => Err(OpcodeError::Stack(e)),
    }
}

// =============================================================================
// Control flow
// =============================================================================

/// JUMP (0x56): pops a destination and returns it as the new program counter when
/// it is a valid jump destination inside the code.
pub fn jump(stack: &mut Stack, bytecode: &[u8], valid_jumpdests: &HashSet<usize>) -> (r: Result<
    usize,
    OpcodeError,
>)
    ensures
        old(stack)@.len() == 0 ==> r == Err::<usize, OpcodeError>(
            OpcodeError::Stack(StackError::Underflow),
        ) && final(stack)@.len() == 0,
        old(stack)@.len() > 0 ==> {
            let d = usize_of(old(stack)@.last()@);
            &&& final(stack)@ == popped(old(stack)@, 1)
            &&& if d < bytecode@.len() && valid_jumpdests@.contains(d as usize) {
                r == Ok::<usize, OpcodeError>(d as usize)
            } else {
                r == Err::<usize, OpcodeError>(OpcodeError::InvalidJumpDestination)
            }
        },
{
    let dest = pop_word(stack)?;
    let dest_usize = u256_to_usize(&dest);
    if dest_usize >= bytecode.len() || !valid_jumpdests.contains(&dest_usize) {
        return Err(OpcodeError::InvalidJumpDestination);
    }
    Ok(dest_usize)
}

/// JUMPI (0x57): pops a destination and a condition; jumps as JUMP does when the
/// condition is nonzero, and otherwise continues at `current_pc + 1`.
pub fn jumpi(
    stack: &mut Stack,
    bytecode: &[u8],
    valid_jumpdests: &HashSet<usize>,
    current_pc: usize,
) -> (r: Result<usize, OpcodeError>)
    requires
        current_pc < usize::MAX,
    ensures
        old(stack)@.len() < 2 ==> r == Err::<usize, OpcodeError>(
            OpcodeError::Stack(StackError::Underflow),
        ) && final(stack)@.len() == 0,
        old(stack)@.len() >= 2 ==> {
            let d = usize_of(nth(old(stack)@, 0)@);
            &&& final(stack)@ == popped(old(stack)@, 2)
            &&& if nth(old(stack)@, 1)@ == 0 {
                r == Ok::<usize, OpcodeError>((current_pc + 1) as usize)
            } else if d < bytecode@.len() && valid_jumpdests@.contains(d as usize) {
                r == Ok::<usize, OpcodeError>(d as usize)
            } else {
                r == Err::<usize, OpcodeError>(OpcodeError::InvalidJumpDestination)
            }
        },
{
    let dest = pop_word(stack)?;
    let condition = pop_word(stack)?;
    proof {
        assert(stack@ =~= popped(old(stack)@, 2));
    }
    if !condition.is_zero() {
        let dest_usize = u256_to_usize(&dest);
        if dest_usize >= bytecode.len() || !valid_jumpdests.contains(&dest_usize) {
            return Err(OpcodeError::InvalidJumpDestination);
        }
        Ok(dest_usize)
    } else {
        Ok(current_pc + 1)
    }
}

/// JUMP (0x56) checked against a bitmap of valid jump destinations.
pub fn jump_bitmap(stack: &mut Stack, bytecode: &[u8], jumpdests: &[bool]) -> (r: Result<
    usize,
    OpcodeError,
>)
    ensures
        old(stack)@.len() == 0 ==> r == Err::<usize, OpcodeError>(
            OpcodeError::Stack(StackError::Underflow),
        ) && final(stack)@.len() == 0,
        old(stack)@.len() > 0 ==> {
            let d = usize_of(old(stack)@.last()@);
            &&& final(stack)@ == popped(old(stack)@, 1)
            &&& if d < bytecode@.len() && d < jumpdests@.len() && jumpdests@[d as int] {
                r == Ok::<usize, OpcodeError>(d as usize)
            } else {
                r == Err::<usize, OpcodeError>(OpcodeError::InvalidJumpDestination)
            }
        },
{
    let dest = pop_word(stack)?;
    let dest_usize = u256_to_usize(&dest);
    if dest_usize >= bytecode.len() || dest_usize >= jumpdests.len() || !jumpdests[dest_usize] {
        return Err(OpcodeError::InvalidJumpDestination);
    }
    Ok(dest_usize)
}

/// JUMPI (0x57) checked against a bitmap of valid jump destinations.
pub fn jumpi_bitmap(stack: &mut Stack, bytecode: &[u8], jumpdests: &[bool], current_pc: usize) -> (r:
    Result<usize, OpcodeError>)
    requires
        current_pc < usize::MAX,
    ensures
        old(stack)@.len() < 2 ==> r == Err::<usize, OpcodeError>(
            OpcodeError::Stack(StackError::Underflow),
        ) && final(stack)@.len() == 0,
        old(stack)@.len() >= 2 ==> {
            let d = usize_of(nth(old(stack)@, 0)@);
            &&& final(stack)@ == popped(old(stack)@, 2)
            &&& if nth(old(stack)@, 1)@ == 0 {
                r == Ok::<usize, OpcodeError>((current_pc + 1) as usize)
            } else if d < bytecode@.len() && d < jumpdests@.len() && jumpdests@[d as int] {
                r == Ok::<usize, OpcodeError>(d as usize)
            } else {
                r == Err::<usize, OpcodeError>(OpcodeError::InvalidJumpDestination)
            }
        },
{
    let dest = pop_word(stack)?;
    let condition = pop_word(stack)?;
    proof {
        assert(stack@ =~= popped(old(stack)@, 2));
    }
    if !condition.is_zero() {
        let dest_usize = u256_to_usize(&dest);
        if dest_usize >= bytecode.len() || dest_usize >= jumpdests.len() || !jumpdests[dest_usize] {
            return Err(OpcodeError::InvalidJumpDestination);
        }
        Ok(dest_usize)
    } else {
        Ok(current_pc + 1)
    }
}

/// PC (0x58): pushes the program counter of this instruction.
pub fn pc(stack: &mut Stack, current_pc: usize) -> (r: Result<(), OpcodeError>)
    ensures
        old(stack)@.len() >= MAX_STACK_SIZE ==> r == Err::<(), OpcodeError>(
            OpcodeError::Stack(StackError::Overflow),
        ) && final(stack)@ == old(stack)@,
        old(stack)@.len() < MAX_STACK_SIZE ==> r is Ok && final(stack)@ == old(stack)@.push(
            final(stack)@.last(),
        ) && final(stack)@.last()@ == current_pc,
{
    push_word(stack, U256::from_u64(current_pc as u64))
}

/// GAS (0x5A): pushes the gas remaining.
pub fn gas(stack: &mut Stack, gas_remaining: u64) -> (r: Result<(), OpcodeError>)
    ensures
        old(stack)@.len() >= MAX_STACK_SIZE ==> r == Err::<(), OpcodeError>(
            OpcodeError::Stack(StackError::Overflow),
        ) && final(stack)@ == old(stack)@,
        old(stack)@.len() < MAX_STACK_SIZE ==> r is Ok && final(stack)@ == old(stack)@.push(
            final(stack)@.last(),
        ) && final(stack)@.last()@ == gas_remaining,
{
    push_word(stack, U256::from_u64(gas_remaining))
}

/// JUMPDEST (0x5B): marks a jump destination; does nothing.
pub fn jumpdest() -> (r: Result<(), OpcodeError>)
    ensures
        r is Ok,
{
    Ok(())
}

// =============================================================================
// Jump destination analysis
// =============================================================================

/// Where the scan goes after the instruction at `pc`.
fn next_instruction(bytecode: &[u8], pc: usize) -> (r: usize)
    requires
        pc < bytecode@.len(),
    ensures
        bytecode@[pc as int] == 0x5B ==> r == pc + 1,
        0x60 <= bytecode@[pc as int] <= 0x7F ==> {
            let next = pc + 1 + (bytecode@[pc as int] - 0x5F);
            &&& next < bytecode@.len() ==> r == next
            &&& next >= bytecode@.len() ==> r == bytecode@.len()
        },
        bytecode@[pc as int] != 0x5B && !(0x60 <= bytecode@[pc as int] <= 0x7F) ==> r == pc + 1,
        pc < r <= bytecode@.len(),
{
    let opcode = bytecode[pc];
    if 0x60 <= opcode && opcode <= 0x7F {
        let push_size = (opcode - 0x5F) as usize;
        if push_size + 1 >= bytecode.len() - pc {
            bytecode.len()
        } else {
            pc + 1 + push_size
        }
    } else {
        pc + 1
    }
}

/// The set of valid JUMPDEST positions: every 0x5B that is an instruction rather
/// than PUSH data.
pub fn analyze_jumpdests(bytecode: &[u8]) -> (r: HashSet<usize>)
    ensures
        r@ == valid_jumpdests(bytecode@),
{
    let mut jumpdests: HashSet<usize> = HashSet::new();
    let mut pc: usize = 0;
    let ghost code = bytecode@;
    while pc < bytecode.len()
        invariant
            code == bytecode@,
            pc <= code.len(),
            forall|i: usize| #[trigger]
                jumpdests@.contains(i) <==> (valid_jumpdests(code).contains(i) && i < pc),
            forall|i: usize|
                pc <= i < code.len() ==> (#[trigger] valid_jumpdests(code).contains(i)
                    <==> jumpdests_from(code, pc as nat).contains(i)),
        decreases code.len() - pc,
    {
        let opcode = bytecode[pc];
        let next = next_instruction(bytecode, pc);
        if opcode == 0x5B {
            jumpdests.insert(pc);
        }
        proof {
            assert forall|i: usize|
                next <= i < code.len() implies (#[trigger] valid_jumpdests(code).contains(i)
                <==> jumpdests_from(code, next as nat).contains(i)) by {
                if next < code.len() {
                    assert(jumpdests_from(code, pc as nat).contains(i) <==> jumpdests_from(
                        code,
                        next as nat,
                    ).contains(i));
                }
            }
            assert forall|i: usize|
                pc <= i < next implies !#[trigger] valid_jumpdests(code).contains(i) || (i == pc
                && opcode == 0x5B) by {
                if valid_jumpdests(code).contains(i) && !(i == pc && opcode == 0x5B) {
                    assert(jumpdests_from(code, pc as nat).contains(i));
                    if next < code.len() {
                        assert(jumpdests_from(code, next as nat).contains(i));
                        lemma_jumpdests_range(code, next as nat, i);
                    } else if !(0x60 <= opcode && opcode <= 0x7F) {
                        assert(jumpdests_from(code, (pc + 1) as nat) == Set::<usize>::empty());
                    }
                }
            }
            assert(opcode == 0x5B ==> valid_jumpdests(code).contains(pc));
        }
        pc = next;
    }
    proof {
        assert forall|i: usize| #[trigger] valid_jumpdests(code).contains(i) implies i < code.len() by {
            lemma_jumpdests_range(code, 0, i);
        }
        assert(jumpdests@ =~= valid_jumpdests(code));
    }
    jumpdests
}

/// A bitmap of valid JUMPDEST positions: `r[i]` holds exactly when `i` is one.
pub fn analyze_jumpdests_bitmap(bytecode: &[u8]) -> (r: Vec<bool>)
    ensures
        r@.len() == bytecode@.len(),
        forall|i: int| 0 <= i < r@.len() ==> r@[i] == valid_jumpdests(bytecode@).contains(i as usize),
{
    let mut jumpdests: Vec<bool> = Vec::new();
    let mut k: usize = 0;
    while k < bytecode.len()
        invariant
            k <= bytecode@.len(),
            jumpdests@.len() == k,
            forall|i: int| 0 <= i < k ==> !jumpdests@[i],
        decreases bytecode@.len() - k,
    {
        jumpdests.push(false);
        k = k + 1;
    }
    let mut pc: usize = 0;
    let ghost code = bytecode@;
    while pc < bytecode.len()
        invariant
            code == bytecode@,
            pc <= code.len(),
            jumpdests@.len() == code.len(),
            forall|i: int|
                0 <= i < code.len() ==> #[trigger] jumpdests@[i] == (valid_jumpdests(code).contains(
                    i as usize,
                ) && i < pc),
            forall|i: usize|
                pc <= i < code.len() ==> (#[trigger] valid_jumpdests(code).contains(i)
                    <==> jumpdests_from(code, pc as nat).contains(i)),
        decreases code.len() - pc,
    {
        let opcode = bytecode[pc];
        let next = next_instruction(bytecode, pc);
        if opcode == 0x5B {
            jumpdests.set(pc, true);
        }
        proof {
            assert forall|i: usize|
                next <= i < code.len() implies (#[trigger] valid_jumpdests(code).contains(i)
                <==> jumpdests_from(code, next as nat).contains(i)) by {
                if next < code.len() {
                    assert(jumpdests_from(code, pc as nat).contains(i) <==> jumpdests_from(
                        code,
                        next as nat,
                    ).contains(i));
                }
            }
            assert forall|i: usize|
                pc <= i < next implies !#[trigger] valid_jumpdests(code).contains(i) || (i == pc
                && opcode == 0x5B) by {
                if valid_jumpdests(code).contains(i) && !(i == pc && opcode == 0x5B) {
                    assert(jumpdests_from(code, pc as nat).contains(i));
                    if next < code.len() {
                        assert(jumpdests_from(code, next as nat).contains(i));
                        lemma_jumpdests_range(code, next as nat, i);
                    } else if !(0x60 <= opcode && opcode <= 0x7F) {
                        assert(jumpdests_from(code, (pc + 1) as nat) == Set::<usize>::empty());
                    }
                }
            }
            assert(opcode == 0x5B ==> valid_jumpdests(code).contains(pc));
            assert forall|i: int| 0 <= i < code.len() implies #[trigger] jumpdests@[i] == (
            valid_jumpdests(code).contains(i as usize) && i < next) by {
                if pc <= i < next {
                    assert(valid_jumpdests(code).contains(i as usize) ==> i == pc);
                }
            }
        }
        pc = next;
    }
    jumpdests
}

// =============================================================================
// Storage opcodes against the world state (EIP-2929 warm/cold, EIP-3529 refunds)
// =============================================================================

/// `a + b` saturated at `u64::MAX`.
pub open spec fn sat_add_u64(a: nat, b: nat) -> nat {
    if a + b > u64::MAX {
        u64::MAX as nat
    } else {
        a + b
    }
}

/// Pops one word, as an EVM error.
fn pop_evm(stack: &mut Stack) -> (r: Result<U256, EvmError>)
    ensures
        old(stack)@.len() == 0 ==> r == Err::<U256, EvmError>(
            EvmError::StackError(StackError::Underflow),
        ) && final(stack)@.len() == 0,
        old(stack)@.len() > 0 ==> r == Ok::<U256, EvmError>(old(stack)@.last()) && final(stack)@
            == popped(old(stack)@, 1),
        old(stack)@.len() <= MAX_STACK_SIZE,
{
    match stack.pop() {
        Ok(v) => Ok(v),
        Err(e) => Err(EvmError::StackError(e)),
    }
}

/// Pushes one word, as an EVM error.
fn push_evm(stack: &mut Stack, v: U256) -> (r: Result<(), EvmError>)
    ensures
        old(stack)@.len() >= MAX_STACK_SIZE ==> r == Err::<(), EvmError>(
            EvmError::StackError(StackError::Overflow),
        ) && final(stack)@ == old(stack)@,
        old(stack)@.len() < MAX_STACK_SIZE ==> r is Ok && final(stack)@ == old(stack)@.push(v),
{
    match stack.push(v) {
        Ok(()) => Ok(()),
        Err(e) => Err(EvmError::StackError(e)),
    }
}

/// SLOAD (0x54) against the world state. The caller has charged the cold cost;
/// a warm slot gets the difference (2100 − 100) back.
pub fn sload_eip2929<S: State>(
    stack: &mut Stack,
    state: &S,
    address: Address,
    is_warm: bool,
    gas_remaining: &mut u64,
) -> (r: Result<(), EvmError>)
    ensures
        old(stack)@.len() == 0 ==> r == Err::<(), EvmError>(
            EvmError::StackError(StackError::Underflow),
        ) && final(stack)@.len() == 0 && *final(gas_remaining) == *old(gas_remaining),
        old(stack)@.len() > 0 ==> {
            &&& r is Ok
            &&& final(stack)@ == popped(old(stack)@, 1).push(
                word_at(state.storage(), (address, old(stack)@.last())),
            )
            &&& *final(gas_remaining) == if is_warm {
                sat_add_u64(*old(gas_remaining) as nat, 2000)
            } else {
                *old(gas_remaining) as nat
            }
        },
{
    let key = pop_evm(stack)?;
    if is_warm {
        *gas_remaining = (*gas_remaining).saturating_add(2000);
    }
    let value = state.sload(&address, &key);
    push_evm(stack, value)?;
    Ok(())
}

/// SSTORE (0x55) against the world state (EIP-2929 and EIP-3529): out of gas at or
/// below the 2300 sentry; charges the dynamic cost and the cold-slot cost 2100
/// (2000 of it back for a warm slot); refunds 4800 (saturating) when a nonzero slot
/// is cleared.
pub fn sstore_eip2929<S: State>(
    stack: &mut Stack,
    state: &mut S,
    address: Address,
    is_warm: bool,
    gas_remaining: &mut u64,
    gas_refund: &mut u64,
) -> (r: Result<(), EvmError>)
    ensures
        old(stack)@.len() < 2 ==> r == Err::<(), EvmError>(
            EvmError::StackError(StackError::Underflow),
        ) && final(stack)@.len() == 0 && *final(gas_remaining) == *old(gas_remaining)
            && *final(gas_refund) == *old(gas_refund) && final(state).storage() == old(state).storage(),
        old(stack)@.len() >= 2 ==> {
            let key = nth(old(stack)@, 0);
            let new = nth(old(stack)@, 1);
            let current = word_at(old(state).storage(), (address, key));
            let cost = sstore_cost(current@, new@) + 2100;
            &&& final(stack)@ == popped(old(stack)@, 2)
            &&& if *old(gas_remaining) <= 2300 || *old(gas_remaining) < cost {
                &&& r == Err::<(), EvmError>(EvmError::OutOfGas)
                &&& final(state).storage() == old(state).storage()
                &&& *final(gas_refund) == *old(gas_refund)
                &&& *final(gas_remaining) == if *old(gas_remaining) > 2300
                    && *old(gas_remaining) >= sstore_cost(current@, new@) {
                    (*old(gas_remaining) - sstore_cost(current@, new@)) as nat
                } else {
                    *old(gas_remaining) as nat
                }
            } else {
                &&& r is Ok
                &&& *final(gas_remaining) == if is_warm {
                    sat_add_u64((*old(gas_remaining) - cost) as nat, 2000)
                } else {
                    (*old(gas_remaining) - cost) as nat
                }
                &&& *final(gas_refund) == if current@ != 0 && new@ == 0 {
                    sat_add_u64(*old(gas_refund) as nat, 4800)
                } else {
                    *old(gas_refund) as nat
                }
                &&& final(state).storage() == old(state).storage().insert((address, key), new)
            }
        },
        final(state).balances() == old(state).balances(),
        final(state).nonces() == old(state).nonces(),
        final(state).codes() == old(state).codes(),
        final(state).transient() == old(state).transient(),
        final(state).selfdestructs() == old(state).selfdestructs(),
{
    let key = pop_evm(stack)?;
    let new_value = pop_evm(stack)?;
    proof {
        assert(stack@ =~= popped(old(stack)@, 2));
    }
    let current_value = state.sload(&address, &key);
    if *gas_remaining <= 2300 {
        return Err(EvmError::OutOfGas);
    }
    let sstore_gas = sstore_gas_cost(current_value, new_value);
    consume_gas(gas_remaining, sstore_gas)?;
    consume_gas(gas_remaining, 2100)?;
    if is_warm {
        *gas_remaining = (*gas_remaining).saturating_add(2000);
    }
    if !current_value.is_zero() && new_value.is_zero() {
        *gas_refund = (*gas_refund).saturating_add(4800);
    }
    state.sstore(&address, &key, new_value);
    Ok(())
}

/// TLOAD (0x5C): pops a key and pushes the account's transient storage under it.
pub fn tload<S: State>(stack: &mut Stack, state: &S, address: Address) -> (r: Result<(), EvmError>)
    ensures
        old(stack)@.len() == 0 ==> r == Err::<(), EvmError>(
            EvmError::StackError(StackError::Underflow),
        ) && final(stack)@.len() == 0,
        old(stack)@.len() > 0 ==> r is Ok && final(stack)@ == popped(old(stack)@, 1).push(
            word_at(state.transient(), (address, old(stack)@.last())),
        ),
{
    let key = pop_evm(stack)?;
    let value = state.tload(&address, &key);
    push_evm(stack, value)?;
    Ok(())
}

/// TSTORE (0x5D): pops a key and a value and writes the account's transient storage.
pub fn tstore<S: State>(stack: &mut Stack, state: &mut S, address: Address) -> (r: Result<
    (),
    EvmError,
>)
    ensures
        old(stack)@.len() < 2 ==> r == Err::<(), EvmError>(
            EvmError::StackError(StackError::Underflow),
        ) && final(stack)@.len() == 0 && final(state).transient() == old(state).transient(),
        old(stack)@.len() >= 2 ==> r is Ok && final(stack)@ == popped(old(stack)@, 2) && final(state).transient() == old(state).transient().insert(
            (address, nth(old(stack)@, 0)),
            nth(old(stack)@, 1),
        ),
        final(state).balances() == old(state).balances(),
        final(state).nonces() == old(state).nonces(),
        final(state).codes() == old(state).codes(),
        final(state).storage() == old(state).storage(),
        final(state).selfdestructs() == old(state).selfdestructs(),
{
    let key = pop_evm(stack)?;
    let value = pop_evm(stack)?;
    proof {
        assert(stack@ =~= popped(old(stack)@, 2));
    }
    state.tstore(&address, &key, value);
    Ok(())
}

} // verus!
