//! LOG0–LOG4: pop offset, size and the topics, charge gas, read the data from
//! memory, and hand (topics, data) to the caller to record as a log entry.

use vstd::prelude::*;
use crate::evm::error::EvmError;
use crate::evm::gas::{memory_expansion_cost, log_gas_cost, memory_cost, memory_cost_fits, words};
use crate::evm::memory::{Memory, expand_to};
use crate::evm::opcodes::utils::{consume_gas, read_memory_bytes, read_bytes, read_touch, u256_to_hash};
use crate::evm::stack::{Stack, StackError};
use crate::types::{Address, U256, be_bytes};

verus! {

/// A word as a memory offset or size: saturated at `usize::MAX`.
pub open spec fn log_size(v: nat) -> nat {
    if v <= usize::MAX {
        v
    } else {
        usize::MAX as nat
    }
}

/// The gas LOGn charges for memory growth to `end` bytes from `msize` bytes.
pub open spec fn log_memory_gas(msize: nat, end: nat) -> nat {
    if end <= msize {
        0
    } else {
        (memory_cost(end) - memory_cost(msize)) as nat
    }
}

/// The gas LOGn charges for `n` topics and `size` data bytes.
pub open spec fn log_data_gas(n: nat, size: nat) -> nat {
    375 + 375 * n + 8 * size
}

/// Pops one word, as an EVM error.
fn pop_evm(stack: &mut Stack) -> (r: Result<U256, EvmError>)
    ensures
        old(stack)@.len() == 0 ==> r == Err::<U256, EvmError>(
            EvmError::StackError(StackError::Underflow),
        ) && final(stack)@.len() == 0,
        old(stack)@.len() > 0 ==> r == Ok::<U256, EvmError>(old(stack)@.last()) && final(stack)@
            == old(stack)@.subrange(0, old(stack)@.len() - 1),
{
    match stack.pop() {
        Ok(v) => Ok(v),
        Err(e) => Err(EvmError::StackError(e)),
    }
}

/// LOGn (0xA0 + n): pops offset, size and `num_topics` topics (as hashes, top
/// first); charges memory growth to `offset + size` and `375 + 375·n + 8·size`;
/// reads the data from memory and returns (topics, data).
pub fn execute_log(
    stack: &mut Stack,
    memory: &mut Memory,
    num_topics: u8,
    _address: Address,
    gas_remaining: &mut u64,
) -> (r: Result<(Vec<crate::types::Hash>, Vec<u8>), EvmError>)
    requires
        old(memory)@.len() + 32 <= usize::MAX,
        old(stack)@.len() >= 2 ==> {
            let off = log_size(old(stack)@.last()@);
            let size = log_size(old(stack)@[old(stack)@.len() - 2]@);
            &&& off + size <= usize::MAX
            &&& memory_cost_fits(off + size)
        },
    ensures
        old(stack)@.len() < 2 ==> r == Err::<(Vec<crate::types::Hash>, Vec<u8>), EvmError>(
            EvmError::StackError(StackError::Underflow),
        ) && final(stack)@.len() == 0 && final(memory)@ == old(memory)@ && *final(gas_remaining)
            == *old(gas_remaining),
        old(stack)@.len() >= 2 ==> {
            let s = old(stack)@;
            let off = log_size(s.last()@);
            let size = log_size(s[s.len() - 2]@);
            let mem_gas = log_memory_gas(old(memory)@.len(), off + size);
            let data_gas = log_data_gas(num_topics as nat, size);
            let n = num_topics as int;
            if *old(gas_remaining) < mem_gas {
                &&& r == Err::<(Vec<crate::types::Hash>, Vec<u8>), EvmError>(EvmError::OutOfGas)
                &&& *final(gas_remaining) == *old(gas_remaining)
                &&& final(stack)@ == s.subrange(0, s.len() - 2)
                &&& final(memory)@ == old(memory)@
            } else if *old(gas_remaining) - mem_gas < data_gas {
                &&& r == Err::<(Vec<crate::types::Hash>, Vec<u8>), EvmError>(EvmError::OutOfGas)
                &&& *final(gas_remaining) == *old(gas_remaining) - mem_gas
                &&& final(stack)@ == s.subrange(0, s.len() - 2)
                &&& final(memory)@ == old(memory)@
            } else if s.len() < 2 + n {
                &&& r == Err::<(Vec<crate::types::Hash>, Vec<u8>), EvmError>(
                    EvmError::StackError(StackError::Underflow),
                )
                &&& *final(gas_remaining) == *old(gas_remaining) - mem_gas - data_gas
                &&& final(stack)@.len() == 0
                &&& final(memory)@ == old(memory)@
            } else {
                &&& *final(gas_remaining) == *old(gas_remaining) - mem_gas - data_gas
                &&& final(stack)@ == s.subrange(0, s.len() - 2 - n)
                &&& final(memory)@ == if size == 0 {
                    old(memory)@
                } else {
                    expand_to(old(memory)@, read_touch(old(memory)@.len(), off, size))
                }
                &&& r matches Ok(out) && out.0@.len() == n && (forall|j: int|
                    0 <= j < n ==> #[trigger] out.0@[j]@ == be_bytes(s[s.len() - 3 - j]@, 32))
                    && out.1@ == read_bytes(old(memory)@, off, size)
            }
        },
{
    let ghost s = stack@;
    let offset = pop_evm(stack)?.as_usize();
    let size = pop_evm(stack)?.as_usize();
    proof {
        assert(stack@ =~= s.subrange(0, s.len() - 2));
        assert(words((offset + size) as nat) * words((offset + size) as nat) <= u64::MAX);
        assert(words(size as nat) <= words((offset + size) as nat));
        assert(size <= 32 * words(size as nat));
        assert(words(size as nat) <= 0x1_0000_0000) by (nonlinear_arith)
            requires
                words(size as nat) <= words((offset + size) as nat),
                words((offset + size) as nat) * words((offset + size) as nat) <= u64::MAX,
        ;
    }
    let mem_cost = memory_expansion_cost(memory.msize(), offset + size);
    consume_gas(gas_remaining, mem_cost)?;
    consume_gas(gas_remaining, log_gas_cost(num_topics, size))?;
    let mut topics: Vec<crate::types::Hash> = Vec::new();
    let mut i: u8 = 0;
    let ghost g = *gas_remaining;
    let ghost m = memory@;
    while i < num_topics
        invariant
            i <= num_topics,
            s.len() >= 2 + i,
            s == old(stack)@,
            m == old(memory)@,
            memory@ == m,
            *gas_remaining == g,
            g == *old(gas_remaining) - log_memory_gas(m.len(), log_size(s.last()@) + log_size(
                s[s.len() - 2]@,
            )) - log_data_gas(num_topics as nat, log_size(s[s.len() - 2]@)),
            stack@ == s.subrange(0, s.len() - 2 - i),
            topics@.len() == i,
            forall|j: int| 0 <= j < i ==> #[trigger] topics@[j]@ == be_bytes(s[s.len() - 3 - j]@, 32),
        decreases num_topics - i,
    {
        let ghost before = stack@;
        let t = pop_evm(stack)?;
        proof {
            assert(stack@ =~= s.subrange(0, s.len() - 2 - (i + 1)));
        }
        topics.push(u256_to_hash(&t));
        i = i + 1;
    }
    let ghost m0 = memory@;
    let data = read_memory_bytes(memory, offset, size)?;
    proof {
        assert(data@ =~= read_bytes(m0, offset as nat, size as nat));
    }
    Ok((topics, data))
}

} // verus!
