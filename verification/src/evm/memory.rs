//! EVM memory: a byte array that grows with zeros when touched past its end.
//!
//! Memory cost for `size` bytes, with `words = ceil(size / 32)`, is
//! `words² / 512 + 3 · words`.

use vstd::prelude::*;
use crate::types::{U256, be_val, be_bytes};
use crate::evm::gas::{words, memory_cost};

verus! {

/// Errors of memory operations.
#[derive(Debug, Clone, Copy, PartialEq, Eq, Structural)]
pub enum MemoryError {
    /// Offset invalid or out of bounds.
    InvalidOffset,
    /// An end offset does not fit in `usize`.
    Overflow,
}

/// `n` zero bytes.
pub open spec fn zeros(n: nat) -> Seq<u8> {
    Seq::new(n, |i: int| 0u8)
}

/// Memory grown with zeros to at least `size` bytes.
pub open spec fn expand_to(m: Seq<u8>, size: nat) -> Seq<u8> {
    if size > m.len() {
        m + zeros((size - m.len()) as nat)
    } else {
        m
    }
}

/// Memory with `b` written at `offset` (which must lie within it).
pub open spec fn write_at(m: Seq<u8>, offset: nat, b: Seq<u8>) -> Seq<u8> {
    Seq::new(
        m.len(),
        |i: int|
            if offset <= i < offset + b.len() {
                b[i - offset]
            } else {
                m[i]
            },
    )
}

/// Growing memory keeps every byte it held and never shrinks it; the new bytes
/// are zero.
pub proof fn lemma_expand_keeps_bytes(m: Seq<u8>, size: nat)
    ensures
        expand_to(m, size).len() == if size > m.len() { size } else { m.len() },
        forall|i: int| 0 <= i < m.len() ==> #[trigger] expand_to(m, size)[i] == m[i],
        forall|i: int| m.len() <= i < expand_to(m, size).len() ==> #[trigger] expand_to(m, size)[i] == 0,
{
}

/// A word stored at `offset` and then loaded from `offset` reads back as the
/// stored word, and the load does not grow memory any further.
pub proof fn lemma_load_after_store(m: Seq<u8>, offset: nat, v: U256)
    ensures
        ({
            let stored = write_at(expand_to(m, offset + 32), offset, be_bytes(v@, 32));
            &&& expand_to(stored, offset + 32) == stored
            &&& be_val(stored.subrange(offset as int, offset + 32int)) == v@
        }),
{
    let stored = write_at(expand_to(m, offset + 32), offset, be_bytes(v@, 32));
    assert(stored.subrange(offset as int, offset + 32int) =~= be_bytes(v@, 32));
    crate::types::lemma_u256_bytes_roundtrip(v);
}

/// A store at `offset` changes only the 32 bytes it covers.
pub proof fn lemma_store_keeps_other_bytes(m: Seq<u8>, offset: nat, v: U256, i: int)
    requires
        0 <= i < m.len(),
        i < offset || offset + 32 <= i,
    ensures
        write_at(expand_to(m, offset + 32), offset, be_bytes(v@, 32))[i] == m[i],
{
}

/// EVM memory; its view is the byte sequence.
#[derive(Debug, Clone, PartialEq, Eq)]
pub struct Memory {
    pub data: Vec<u8>,
}

impl View for Memory {
    type V = Seq<u8>;

    closed spec fn view(&self) -> Seq<u8> {
        self.data@
    }
}

impl Memory {
    /// Empty memory.
    pub fn new() -> (m: Memory)
        ensures
            m@ == Seq::<u8>::empty(),
    {
        Memory { data: Vec::new() }
    }

    /// Current size in bytes.
    pub fn msize(&self) -> (r: usize)
        ensures
            r == self@.len(),
    {
        self.data.len()
    }

    /// Grows the memory with zeros to at least `size` bytes.
    pub(crate) fn ensure_capacity(&mut self, size: usize)
        ensures
            final(self)@ == expand_to(old(self)@, size as nat),
    {
        let ghost m0 = self.data@;
        if size > self.data.len() {
            let n = size - self.data.len();
            let mut i: usize = 0;
            while i < n
                invariant
                    i <= n,
                    n == size - m0.len(),
                    self.data@ == m0 + zeros(i as nat),
                decreases n - i,
            {
                self.data.push(0);
                i = i + 1;
                proof {
                    assert(m0 + zeros(i as nat) =~= (m0 + zeros((i - 1) as nat)).push(0u8));
                }
            }
        } else {
            proof {
                assert(self.data@ == expand_to(m0, size as nat));
            }
        }
    }

    /// The byte at `index`, which must lie within memory.
    pub(crate) fn byte_at(&self, index: usize) -> (r: u8)
        requires
            index < self@.len(),
        ensures
            r == self@[index as int],
    {
        self.data[index]
    }

    /// Loads the 32-byte big-endian word at `offset`, growing memory as needed.
    pub fn mload(&mut self, offset: usize) -> (r: Result<U256, MemoryError>)
        ensures
            offset + 32 > usize::MAX ==> r == Err::<U256, MemoryError>(MemoryError::Overflow)
                && final(self)@ == old(self)@,
            offset + 32 <= usize::MAX ==> {
                let m = expand_to(old(self)@, (offset + 32) as nat);
                &&& final(self)@ == m
                &&& r matches Ok(v) && v@ == be_val(m.subrange(offset as int, offset + 32))
            },
    {
        let end = match offset.checked_add(32) {
            Some(e) => e,
            None => return Err(MemoryError::Overflow),
        };
        self.ensure_capacity(end);
        let mut bytes = [0u8; 32];
        let mut i: usize = 0;
        while i < 32
            invariant
                i <= 32,
                end == offset + 32,
                self.data@.len() >= end,
                bytes@.len() == 32,
                forall|j: int| 0 <= j < i ==> bytes@[j] == self.data@[offset + j],
            decreases 32 - i,
        {
            bytes[i] = self.data[offset + i];
            i = i + 1;
        }
        proof {
            assert(bytes@ =~= self.data@.subrange(offset as int, offset + 32));
        }
        Ok(U256::from_be_bytes(bytes))
    }

    /// Writes `b` at `offset`; memory must already hold the range.
    fn write_range(&mut self, offset: usize, b: &[u8])
        requires
            offset + b@.len() <= old(self)@.len(),
        ensures
            final(self)@ == write_at(old(self)@, offset as nat, b@),
    {
        let ghost m0 = self.data@;
        let total = self.data.len();
        let mut i: usize = 0;
        while i < b.len()
            invariant
                i <= b@.len(),
                total == m0.len(),
                offset + b@.len() <= m0.len(),
                self.data@.len() == m0.len(),
                forall|j: int|
                    0 <= j < m0.len() ==> self.data@[j] == if offset <= j < offset + i {
                        b@[j - offset]
                    } else {
                        m0[j]
                    },
            decreases b@.len() - i,
        {
            self.data.set(offset + i, b[i]);
            i = i + 1;
        }
        proof {
            assert(self.data@ =~= write_at(m0, offset as nat, b@));
        }
    }

    /// Stores `value` as 32 big-endian bytes at `offset`, growing memory as needed.
    pub fn mstore(&mut self, offset: usize, value: U256) -> (r: Result<(), MemoryError>)
        ensures
            offset + 32 > usize::MAX ==> r == Err::<(), MemoryError>(MemoryError::Overflow)
                && final(self)@ == old(self)@,
            offset + 32 <= usize::MAX ==> r is Ok && final(self)@ == write_at(
                expand_to(old(self)@, (offset + 32) as nat),
                offset as nat,
                be_bytes(value@, 32),
            ),
    {
        let end = match offset.checked_add(32) {
            Some(e) => e,
            None => return Err(MemoryError::Overflow),
        };
        self.ensure_capacity(end);
        let bytes = value.to_be_bytes();
        self.write_range(offset, &bytes);
        Ok(())
    }

    /// Stores one byte at `offset`, growing memory as needed.
    pub fn mstore8(&mut self, offset: usize, byte: u8) -> (r: Result<(), MemoryError>)
        ensures
            offset + 1 > usize::MAX ==> r == Err::<(), MemoryError>(MemoryError::Overflow)
                && final(self)@ == old(self)@,
            offset + 1 <= usize::MAX ==> r is Ok && final(self)@ == expand_to(
                old(self)@,
                (offset + 1) as nat,
            ).update(offset as int, byte),
    {
        let end = match offset.checked_add(1) {
            Some(e) => e,
            None => return Err(MemoryError::Overflow),
        };
        self.ensure_capacity(end);
        self.data.set(offset, byte);
        Ok(())
    }

    /// Copies `len` bytes from `src` to `dest` (regions may overlap), growing memory
    /// to cover both regions.
    pub fn copy(&mut self, dest: usize, src: usize, len: usize) -> (r: Result<(), MemoryError>)
        ensures
            len == 0 ==> r is Ok && final(self)@ == old(self)@,
            len > 0 && (src + len > usize::MAX || dest + len > usize::MAX) ==> r == Err::<
                (),
                MemoryError,
            >(MemoryError::Overflow) && final(self)@ == old(self)@,
            len > 0 && src + len <= usize::MAX && dest + len <= usize::MAX ==> {
                let m = expand_to(
                    old(self)@,
                    if src + len >= dest + len { (src + len) as nat } else { (dest + len) as nat },
                );
                &&& r is Ok
                &&& final(self)@ == write_at(m, dest as nat, m.subrange(src as int, src + len))
            },
    {
        if len == 0 {
            return Ok(());
        }
        let src_end = match src.checked_add(len) {
            Some(e) => e,
            None => return Err(MemoryError::Overflow),
        };
        let dest_end = match dest.checked_add(len) {
            Some(e) => e,
            None => return Err(MemoryError::Overflow),
        };
        let max_end = if src_end >= dest_end {
            src_end
        } else {
            dest_end
        };
        self.ensure_capacity(max_end);
        let mut tmp: Vec<u8> = Vec::new();
        let mut i: usize = 0;
        while i < len
            invariant
                i <= len,
                src_end == src + len,
                self.data@.len() >= src_end,
                tmp@ == self.data@.subrange(src as int, src + i),
            decreases len - i,
        {
            tmp.push(self.data[src + i]);
            i = i + 1;
            proof {
                assert(tmp@ =~= self.data@.subrange(src as int, src + i));
            }
        }
        self.write_range(dest, tmp.as_slice());
        Ok(())
    }

    /// Grows memory to `new_size` bytes (if larger) and returns the total memory cost
    /// of the resulting size.
    pub fn expand(&mut self, new_size: usize) -> (r: Result<u64, MemoryError>)
        requires
            words(new_size as nat) * words(new_size as nat) <= u64::MAX,
            words(old(self)@.len()) * words(old(self)@.len()) <= u64::MAX,
        ensures
            final(self)@ == expand_to(old(self)@, new_size as nat),
            r == Ok::<u64, MemoryError>(memory_cost(final(self)@.len()) as u64),
    {
        if new_size <= self.data.len() {
            return Ok(Self::memory_gas_cost(self.data.len()));
        }
        self.ensure_capacity(new_size);
        Ok(Self::memory_gas_cost(new_size))
    }

    /// Total memory cost of `size` bytes.
    pub fn memory_gas_cost(size: usize) -> (r: u64)
        requires
            words(size as nat) * words(size as nat) <= u64::MAX,
        ensures
            r == memory_cost(size as nat),
    {
        if size == 0 {
            proof {
                assert(words(0) == 0);
                assert(memory_cost(0) == 0) by (nonlinear_arith)
                    requires
                        words(0) == 0,
                ;
            }
            return 0;
        }
        let w = (size / 32 + if size % 32 == 0 { 0 } else { 1 }) as u64;
        proof {
            assert(w * w / 512 + 3 * w <= u64::MAX) by (nonlinear_arith)
                requires
                    w * w <= u64::MAX,
                    w <= u64::MAX / 32 + 1,
            ;
        }
        let quadratic_cost = (w * w) / 512;
        let linear_cost = 3 * w;
        quadratic_cost + linear_cost
    }
}

impl Default for Memory {
    fn default() -> (m: Memory)
        ensures
            m@ == Seq::<u8>::empty(),
    {
        Memory::new()
    }
}

} // verus!
