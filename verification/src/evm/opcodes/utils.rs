//! Helpers shared by the opcodes: address and hash conversion, reading and writing
//! byte ranges of memory, and charging gas.

use vstd::prelude::*;
use crate::evm::error::EvmError;
use crate::evm::memory::{Memory, MemoryError, expand_to, write_at};
use crate::types::{Address, U256, be_val, be_bytes};

verus! {

// =============================================================================
// Specification
// =============================================================================

/// `n` rounded up to a multiple of 32.
pub open spec fn round_up32(n: nat) -> nat {
    ((n + 31) / 32) * 32
}

/// The size memory is grown to by reading `size` bytes at `offset` from memory of
/// `len` bytes: the word-aligned end of the part of the range that lies within
/// memory (0, i.e. no growth, when none does).
pub open spec fn read_touch(len: nat, offset: nat, size: nat) -> nat {
    if size > 0 && offset < len {
        round_up32(if offset + size < len { offset + size } else { len })
    } else {
        0
    }
}

/// `size` bytes of `m` from `offset`, zero past its end.
pub open spec fn read_bytes(m: Seq<u8>, offset: nat, size: nat) -> Seq<u8> {
    Seq::new(size, |i: int| if offset + i < m.len() { m[offset + i] } else { 0u8 })
}

// =============================================================================
// Address / hash conversion
// =============================================================================

/// The address held in the low 20 bytes of a word.
pub open spec fn word_to_address(v: nat) -> Address {
    choose|a: Address| a@ == be_bytes(v, 32).subrange(12, 32)
}

/// An address is the one its bytes determine.
pub proof fn lemma_word_to_address(a: Address, v: nat)
    requires
        a@ == be_bytes(v, 32).subrange(12, 32),
    ensures
        a == word_to_address(v),
{
    let c = word_to_address(v);
    assert(c@ == a@);
    assert(c.bytes =~= a.bytes);
}

/// An address as a word: its 20 bytes big-endian, the high 12 bytes zero.
pub fn address_to_u256(address: &Address) -> (r: U256)
    ensures
        r@ == be_val(address@),
{
    U256::from_be_slice(address.as_bytes())
}

/// The address held in the low 20 bytes of a word.
pub fn u256_to_address(u256: &U256) -> (r: Result<Address, EvmError>)
    ensures
        r matches Ok(a) && a@ == be_bytes(u256@, 32).subrange(12, 32) && a == word_to_address(u256@),
{
    let bytes = u256.to_be_bytes();
    let mut addr_bytes = [0u8; 20];
    let mut i: usize = 0;
    while i < 20
        invariant
            i <= 20,
            bytes@ == be_bytes(u256@, 32),
            addr_bytes@.len() == 20,
            forall|j: int| 0 <= j < i ==> addr_bytes@[j] == bytes@[12 + j],
        decreases 20 - i,
    {
        addr_bytes[i] = bytes[12 + i];
        i = i + 1;
    }
    proof {
        assert(addr_bytes@ =~= be_bytes(u256@, 32).subrange(12, 32));
    }
    match Address::from_slice(&addr_bytes) {
        Some(a) => {
            proof {
                lemma_word_to_address(a, u256@);
            }
            Ok(a)
        },
        None => Err(EvmError::InvalidAddress),
    }
}

/// A hash as a big-endian word.
pub fn hash_to_u256(hash: &crate::types::Hash) -> (r: U256)
    ensures
        r@ == be_val(hash@),
{
    U256::from_be_bytes(*hash.as_bytes())
}

/// A word as a 32-byte big-endian hash.
pub fn u256_to_hash(value: &U256) -> (r: crate::types::Hash)
    ensures
        r@ == be_bytes(value@, 32),
{
    crate::types::Hash::new(value.to_be_bytes())
}

// =============================================================================
// Memory byte ranges
// =============================================================================

/// Reads `size` bytes from memory at `offset`, zero past the end of memory. Memory
/// grows to the word-aligned end of the part of the range it already holds; a
/// range whose end does not fit in `usize` is out of gas.
pub fn read_memory_bytes(memory: &mut Memory, offset: usize, size: usize) -> (r: Result<
    Vec<u8>,
    EvmError,
>)
    requires
        old(memory)@.len() + 32 <= usize::MAX,
    ensures
        size == 0 ==> (r matches Ok(v) && v@.len() == 0) && final(memory)@ == old(memory)@,
        size > 0 ==> final(memory)@ == expand_to(
            old(memory)@,
            read_touch(old(memory)@.len(), offset as nat, size as nat),
        ),
        size > 0 && offset + size - 1 > usize::MAX ==> r == Err::<Vec<u8>, EvmError>(
            EvmError::OutOfGas,
        ),
        size > 0 && offset + size - 1 <= usize::MAX ==> (r matches Ok(v) && v@ == read_bytes(
            old(memory)@,
            offset as nat,
            size as nat,
        )),
{
    if size == 0 {
        return Ok(Vec::new());
    }
    let ghost m0 = memory@;
    let len = memory.msize();
    if offset < len {
        let end = if size < len - offset {
            offset + size
        } else {
            len
        };
        let touch = (end + 31) / 32 * 32;
        memory.ensure_capacity(touch);
    }
    if size - 1 > usize::MAX - offset {
        return Err(EvmError::OutOfGas);
    }
    let mut out: Vec<u8> = Vec::new();
    let mut i: usize = 0;
    while i < size
        invariant
            i <= size,
            offset + size - 1 <= usize::MAX,
            memory@ == expand_to(m0, read_touch(m0.len(), offset as nat, size as nat)),
            out@ == read_bytes(m0, offset as nat, size as nat).subrange(0, i as int),
        decreases size - i,
    {
        let pos = offset + i;
        let byte = if pos < memory.msize() {
            memory.byte_at(pos)
        } else {
            0
        };
        out.push(byte);
        i = i + 1;
        proof {
            assert(out@ =~= read_bytes(m0, offset as nat, size as nat).subrange(0, i as int));
        }
    }
    proof {
        assert(out@ =~= read_bytes(m0, offset as nat, size as nat));
    }
    Ok(out)
}

/// Grows memory to cover `size` bytes at `offset`, then writes the first
/// `min(size, data.len())` bytes of `data` there; the rest of the range is left
/// unchanged.
pub fn write_memory_bytes(memory: &mut Memory, offset: usize, data: &[u8], size: usize) -> (r:
    Result<(), EvmError>)
    ensures
        size == 0 ==> r is Ok && final(memory)@ == old(memory)@,
        size > 0 && offset + size > usize::MAX ==> r == Err::<(), EvmError>(
            EvmError::MemoryError(MemoryError::Overflow),
        ) && final(memory)@ == old(memory)@,
        size > 0 && offset + size <= usize::MAX ==> r is Ok && final(memory)@ == write_at(
            expand_to(old(memory)@, (offset + size) as nat),
            offset as nat,
            data@.subrange(0, if size < data@.len() { size as int } else { data@.len() as int }),
        ),
{
    if size == 0 {
        return Ok(());
    }
    let end = match offset.checked_add(size) {
        Some(e) => e,
        None => return Err(EvmError::MemoryError(MemoryError::Overflow)),
    };
    memory.ensure_capacity(end);
    let ghost m1 = memory@;
    let copy_size = if size < data.len() {
        size
    } else {
        data.len()
    };
    let mut i: usize = 0;
    while i < copy_size
        invariant
            i <= copy_size <= size,
            copy_size <= data@.len(),
            end == offset + size,
            m1.len() >= end,
            memory@ == write_at(m1, offset as nat, data@.subrange(0, i as int)),
        decreases copy_size - i,
    {
        let pos = offset + i;
        let _ = memory.mstore8(pos, data[i]);
        i = i + 1;
        proof {
            assert(memory@ =~= write_at(m1, offset as nat, data@.subrange(0, i as int)));
        }
    }
    Ok(())
}

// =============================================================================
// Gas
// =============================================================================

/// Takes `amount` from the gas remaining; out of gas (gas untouched) when less remains.
pub fn consume_gas(gas_remaining: &mut u64, amount: u64) -> (r: Result<(), EvmError>)
    ensures
        *old(gas_remaining) < amount ==> r == Err::<(), EvmError>(EvmError::OutOfGas)
            && *final(gas_remaining) == *old(gas_remaining),
        *old(gas_remaining) >= amount ==> r is Ok && *final(gas_remaining) == *old(gas_remaining)
            - amount,
{
    if *gas_remaining < amount {
        return Err(EvmError::OutOfGas);
    }
    *gas_remaining = *gas_remaining - amount;
    Ok(())
}

} // verus!
