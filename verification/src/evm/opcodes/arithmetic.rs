//! Arithmetic, comparison and bitwise opcodes (0x01–0x1D) and KECCAK256 (0x20).
//!
//! Each opcode pops its operands (the first operand is the top of the stack) and
//! pushes one result word. Arithmetic wraps modulo 2^256; signed opcodes read
//! words in two's complement.

use vstd::prelude::*;
use vstd::arithmetic::div_mod::*;
use vstd::arithmetic::mul::*;
use vstd::arithmetic::power::*;
use vstd::arithmetic::power2::*;
use crate::evm::memory::{Memory, MemoryError, expand_to};
use crate::evm::opcodes::utils::{read_memory_bytes, read_bytes, read_touch};
use crate::crypto::keccak::keccak256_spec;
use crate::evm::stack::{Stack, StackError, MAX_STACK_SIZE};
use crate::types::{U256, pow255, pow256, to_signed, is_neg, neg_word, abs_word, be_byte, be_val, lemma_pow2_radix, pow64, pow128};

verus! {

/// Errors of the stack-only opcodes.
#[derive(Debug, Clone, Copy, PartialEq, Eq, Structural)]
pub enum EvmError {
    /// Stack error (overflow, underflow, invalid index).
    Stack(StackError),
    /// Memory error (invalid offset, overflow).
    Memory(MemoryError),
}

// =============================================================================
// Specification
// =============================================================================

/// The value of the `i`-th word from the top (0 = top).
pub open spec fn arg(s: Seq<U256>, i: int) -> nat {
    s[s.len() - 1 - i]@
}

/// An opcode that pops `k` words and pushes one word of value `v`: with fewer than
/// `k` words it reports underflow, having popped everything; otherwise the `k`
/// operands are replaced by the result.
pub open spec fn pops_push(
    before: Seq<U256>,
    after: Seq<U256>,
    r: Result<(), EvmError>,
    k: nat,
    v: nat,
) -> bool {
    if before.len() < k {
        &&& r == Err::<(), EvmError>(EvmError::Stack(StackError::Underflow))
        &&& after.len() == 0
    } else {
        &&& r is Ok
        &&& after.len() == before.len() - k + 1
        &&& after.subrange(0, after.len() - 1) == before.subrange(0, before.len() - k)
        &&& after.last()@ == v
    }
}

/// A signed value as a word (modulo 2^256).
pub open spec fn word(i: int) -> nat {
    (i % (pow256() as int)) as nat
}

/// 1 for true, 0 for false.
pub open spec fn flag(b: bool) -> nat {
    if b {
        1
    } else {
        0
    }
}

/// ADD: `(a + b) mod 2^256`.
pub open spec fn add_spec(a: nat, b: nat) -> nat {
    (a + b) % pow256()
}

/// MUL: `(a · b) mod 2^256`.
pub open spec fn mul_spec(a: nat, b: nat) -> nat {
    (a * b) % pow256()
}

/// SUB: `(a − b) mod 2^256`.
pub open spec fn sub_spec(a: nat, b: nat) -> nat {
    word(a - b)
}

/// DIV: `a / b`, or 0 when `b = 0`.
pub open spec fn div_spec(a: nat, b: nat) -> nat {
    if b == 0 {
        0
    } else {
        a / b
    }
}

/// MOD: `a mod b`, or 0 when `b = 0`.
pub open spec fn mod_spec(a: nat, b: nat) -> nat {
    if b == 0 {
        0
    } else {
        a % b
    }
}

/// SDIV: signed division truncated toward zero; 0 when `b = 0`; the minimum
/// divided by −1 is the minimum.
pub open spec fn sdiv_spec(a: nat, b: nat) -> nat {
    if b == 0 {
        0
    } else {
        let q = abs_word(a) / abs_word(b);
        if is_neg(a) != is_neg(b) {
            neg_word(q)
        } else {
            q
        }
    }
}

/// SMOD: signed remainder with the sign of `a`; 0 when `b = 0`.
pub open spec fn smod_spec(a: nat, b: nat) -> nat {
    if b == 0 {
        0
    } else {
        let m = abs_word(a) % abs_word(b);
        if is_neg(a) {
            neg_word(m)
        } else {
            m
        }
    }
}

/// ADDMOD: `(a + b) mod n` computed without wrapping; 0 when `n = 0`.
pub open spec fn addmod_spec(a: nat, b: nat, n: nat) -> nat {
    if n == 0 {
        0
    } else {
        (a + b) % n
    }
}

/// MULMOD: `(a · b) mod n` computed without wrapping; 0 when `n = 0`.
pub open spec fn mulmod_spec(a: nat, b: nat, n: nat) -> nat {
    if n == 0 {
        0
    } else {
        (a * b) % n
    }
}

/// EXP: `a^e mod 2^256`.
pub open spec fn exp_spec(a: nat, e: nat) -> nat {
    (pow(a as int, e) % (pow256() as int)) as nat
}

/// SIGNEXTEND: extend the sign of the low `b + 1` bytes of `x`; `x` when `b ≥ 31`.
pub open spec fn signextend_spec(b: nat, x: nat) -> nat {
    if b >= 31 {
        x
    } else {
        let t = 8 * (b + 1);
        let low = x % pow2(t);
        if low >= pow2((t - 1) as nat) {
            (low + pow256() - pow2(t)) as nat
        } else {
            low
        }
    }
}

/// BYTE: byte `i` of `x`, counting from the most significant; 0 when `i ≥ 32`.
pub open spec fn byte_spec(i: nat, x: nat) -> nat {
    if i >= 32 {
        0
    } else {
        be_byte(x, 32, i as int) as nat
    }
}

/// SHL: `v · 2^s mod 2^256`; 0 when `s ≥ 256`.
pub open spec fn shl_spec(s: nat, v: nat) -> nat {
    if s >= 256 {
        0
    } else {
        (v * pow2(s)) % pow256()
    }
}

/// SHR: `v / 2^s`; 0 when `s ≥ 256`.
pub open spec fn shr_spec(s: nat, v: nat) -> nat {
    if s >= 256 {
        0
    } else {
        v / pow2(s)
    }
}

/// SAR: the signed value of `v` divided by `2^s`, rounded toward −∞.
pub open spec fn sar_spec(s: nat, v: nat) -> nat {
    if s >= 256 {
        if is_neg(v) {
            (pow256() - 1) as nat
        } else {
            0
        }
    } else {
        word(to_signed(v) / (pow2(s) as int))
    }
}

/// Limb-wise AND of two words.
pub open spec fn and_word(a: U256, b: U256) -> U256 {
    U256 { l0: a.l0 & b.l0, l1: a.l1 & b.l1, l2: a.l2 & b.l2, l3: a.l3 & b.l3 }
}

/// Limb-wise OR of two words.
pub open spec fn or_word(a: U256, b: U256) -> U256 {
    U256 { l0: a.l0 | b.l0, l1: a.l1 | b.l1, l2: a.l2 | b.l2, l3: a.l3 | b.l3 }
}

/// Limb-wise XOR of two words.
pub open spec fn xor_word(a: U256, b: U256) -> U256 {
    U256 { l0: a.l0 ^ b.l0, l1: a.l1 ^ b.l1, l2: a.l2 ^ b.l2, l3: a.l3 ^ b.l3 }
}

// =============================================================================
// Stack plumbing
// =============================================================================

/// Pops one operand.
fn pop1(stack: &mut Stack) -> (r: Result<U256, EvmError>)
    ensures
        old(stack)@.len() < 1 ==> r == Err::<U256, EvmError>(EvmError::Stack(StackError::Underflow))
            && final(stack)@.len() == 0,
        old(stack)@.len() >= 1 ==> r == Ok::<U256, EvmError>(old(stack)@.last()) && final(stack)@
            == old(stack)@.subrange(0, old(stack)@.len() - 1),
        old(stack)@.len() <= MAX_STACK_SIZE,
{
    match stack.pop() {
        Ok(a) => Ok(a),
        Err(e) => Err(EvmError::Stack(e)),
    }
}

/// Pops two operands, top first.
fn pop2(stack: &mut Stack) -> (r: Result<(U256, U256), EvmError>)
    ensures
        old(stack)@.len() < 2 ==> r == Err::<(U256, U256), EvmError>(
            EvmError::Stack(StackError::Underflow),
        ) && final(stack)@.len() == 0,
        old(stack)@.len() >= 2 ==> r == Ok::<(U256, U256), EvmError>(
            (old(stack)@[old(stack)@.len() - 1], old(stack)@[old(stack)@.len() - 2]),
        ) && final(stack)@ == old(stack)@.subrange(0, old(stack)@.len() - 2),
        old(stack)@.len() <= MAX_STACK_SIZE,
{
    let a = pop1(stack)?;
    let b = pop1(stack)?;
    Ok((a, b))
}

/// Pops three operands, top first.
fn pop3(stack: &mut Stack) -> (r: Result<(U256, U256, U256), EvmError>)
    ensures
        old(stack)@.len() < 3 ==> r == Err::<(U256, U256, U256), EvmError>(
            EvmError::Stack(StackError::Underflow),
        ) && final(stack)@.len() == 0,
        old(stack)@.len() >= 3 ==> r == Ok::<(U256, U256, U256), EvmError>(
            (
                old(stack)@[old(stack)@.len() - 1],
                old(stack)@[old(stack)@.len() - 2],
                old(stack)@[old(stack)@.len() - 3],
            ),
        ) && final(stack)@ == old(stack)@.subrange(0, old(stack)@.len() - 3),
        old(stack)@.len() <= MAX_STACK_SIZE,
{
    let (a, b) = pop2(stack)?;
    let c = pop1(stack)?;
    Ok((a, b, c))
}

/// Pushes a result onto a stack that has room for it.
fn push_result(stack: &mut Stack, v: U256) -> (r: Result<(), EvmError>)
    requires
        old(stack)@.len() < MAX_STACK_SIZE,
    ensures
        r is Ok,
        final(stack)@ == old(stack)@.push(v),
{
    match stack.push(v) {
        Ok(()) => Ok(()),
        Err(e) => Err(EvmError::Stack(e)),
    }
}

/// Pops two operands and pushes `f(a, b)`: the shape shared by the binary opcodes.
proof fn lemma_binary_shape(before: Seq<U256>, mid: Seq<U256>, after: Seq<U256>, v: U256)
    requires
        before.len() >= 2,
        mid == before.subrange(0, before.len() - 2),
        after == mid.push(v),
    ensures
        after.len() == before.len() - 1,
        after.subrange(0, after.len() - 1) == before.subrange(0, before.len() - 2),
        after.last() == v,
{
    assert(after.subrange(0, after.len() - 1) =~= mid);
}

/// The shape of the unary opcodes.
proof fn lemma_unary_shape(before: Seq<U256>, mid: Seq<U256>, after: Seq<U256>, v: U256)
    requires
        before.len() >= 1,
        mid == before.subrange(0, before.len() - 1),
        after == mid.push(v),
    ensures
        after.len() == before.len(),
        after.subrange(0, after.len() - 1) == before.subrange(0, before.len() - 1),
        after.last() == v,
{
    assert(after.subrange(0, after.len() - 1) =~= mid);
}

/// The shape of the ternary opcodes.
proof fn lemma_ternary_shape(before: Seq<U256>, mid: Seq<U256>, after: Seq<U256>, v: U256)
    requires
        before.len() >= 3,
        mid == before.subrange(0, before.len() - 3),
        after == mid.push(v),
    ensures
        after.len() == before.len() - 2,
        after.subrange(0, after.len() - 1) == before.subrange(0, before.len() - 3),
        after.last() == v,
{
    assert(after.subrange(0, after.len() - 1) =~= mid);
}

/// The word 0 or 1.
fn flag_word(b: bool) -> (r: U256)
    ensures
        r@ == flag(b),
{
    if b {
        U256::one()
    } else {
        U256::zero()
    }
}

// =============================================================================
// Arithmetic
// =============================================================================

/// ADD (0x01): `a + b` modulo 2^256.
pub fn add(stack: &mut Stack) -> (r: Result<(), EvmError>)
    ensures
        pops_push(
            old(stack)@,
            final(stack)@,
            r,
            2,
            add_spec(arg(old(stack)@, 0), arg(old(stack)@, 1)),
        ),
{
    let ghost s0 = stack@;
    let (a, b) = pop2(stack)?;
    let ghost s1 = stack@;
    let (result, _overflow) = a.overflowing_add(b);
    push_result(stack, result)?;
    proof {
        lemma_binary_shape(s0, s1, stack@, result);
    }
    Ok(())
}

/// MUL (0x02): `a · b` modulo 2^256.
pub fn mul(stack: &mut Stack) -> (r: Result<(), EvmError>)
    ensures
        pops_push(
            old(stack)@,
            final(stack)@,
            r,
            2,
            mul_spec(arg(old(stack)@, 0), arg(old(stack)@, 1)),
        ),
{
    let ghost s0 = stack@;
    let (a, b) = pop2(stack)?;
    let ghost s1 = stack@;
    let (result, _overflow) = a.overflowing_mul(b);
    push_result(stack, result)?;
    proof {
        lemma_binary_shape(s0, s1, stack@, result);
    }
    Ok(())
}

/// SUB (0x03): `a − b` modulo 2^256, with `a` the top of the stack.
pub fn sub(stack: &mut Stack) -> (r: Result<(), EvmError>)
    ensures
        pops_push(
            old(stack)@,
            final(stack)@,
            r,
            2,
            sub_spec(arg(old(stack)@, 0), arg(old(stack)@, 1)),
        ),
{
    let ghost s0 = stack@;
    let (a, b) = pop2(stack)?;
    let ghost s1 = stack@;
    let (result, _overflow) = a.overflowing_sub(b);
    push_result(stack, result)?;
    proof {
        lemma_binary_shape(s0, s1, stack@, result);
    }
    Ok(())
}

/// DIV (0x04): unsigned `a / b`; 0 when `b = 0`.
pub fn div(stack: &mut Stack) -> (r: Result<(), EvmError>)
    ensures
        pops_push(
            old(stack)@,
            final(stack)@,
            r,
            2,
            div_spec(arg(old(stack)@, 0), arg(old(stack)@, 1)),
        ),
{
    let ghost s0 = stack@;
    let (a, b) = pop2(stack)?;
    let ghost s1 = stack@;
    let result = if b.is_zero() {
        U256::zero()
    } else {
        a.div_rem(b).0
    };
    push_result(stack, result)?;
    proof {
        lemma_binary_shape(s0, s1, stack@, result);
    }
    Ok(())
}

/// MOD (0x06): unsigned `a mod b`; 0 when `b = 0`.
pub fn modulo(stack: &mut Stack) -> (r: Result<(), EvmError>)
    ensures
        pops_push(
            old(stack)@,
            final(stack)@,
            r,
            2,
            mod_spec(arg(old(stack)@, 0), arg(old(stack)@, 1)),
        ),
{
    let ghost s0 = stack@;
    let (a, b) = pop2(stack)?;
    let ghost s1 = stack@;
    let result = if b.is_zero() {
        U256::zero()
    } else {
        a.div_rem(b).1
    };
    push_result(stack, result)?;
    proof {
        lemma_binary_shape(s0, s1, stack@, result);
    }
    Ok(())
}

// =============================================================================
// Comparison
// =============================================================================

/// LT (0x10): 1 when `a < b` (unsigned), else 0.
pub fn lt(stack: &mut Stack) -> (r: Result<(), EvmError>)
    ensures
        pops_push(
            old(stack)@,
            final(stack)@,
            r,
            2,
            flag(arg(old(stack)@, 0) < arg(old(stack)@, 1)),
        ),
{
    let ghost s0 = stack@;
    let (a, b) = pop2(stack)?;
    let ghost s1 = stack@;
    let result = flag_word(a.lt(&b));
    push_result(stack, result)?;
    proof {
        lemma_binary_shape(s0, s1, stack@, result);
    }
    Ok(())
}

/// GT (0x11): 1 when `a > b` (unsigned), else 0.
pub fn gt(stack: &mut Stack) -> (r: Result<(), EvmError>)
    ensures
        pops_push(
            old(stack)@,
            final(stack)@,
            r,
            2,
            flag(arg(old(stack)@, 0) > arg(old(stack)@, 1)),
        ),
{
    let ghost s0 = stack@;
    let (a, b) = pop2(stack)?;
    let ghost s1 = stack@;
    let result = flag_word(a.gt(&b));
    push_result(stack, result)?;
    proof {
        lemma_binary_shape(s0, s1, stack@, result);
    }
    Ok(())
}

/// EQ (0x14): 1 when `a = b`, else 0.
pub fn eq(stack: &mut Stack) -> (r: Result<(), EvmError>)
    ensures
        pops_push(
            old(stack)@,
            final(stack)@,
            r,
            2,
            flag(arg(old(stack)@, 0) == arg(old(stack)@, 1)),
        ),
{
    let ghost s0 = stack@;
    let (a, b) = pop2(stack)?;
    let ghost s1 = stack@;
    let result = flag_word(a.eq_word(&b));
    push_result(stack, result)?;
    proof {
        lemma_binary_shape(s0, s1, stack@, result);
    }
    Ok(())
}

/// ISZERO (0x15): 1 when `a = 0`, else 0.
pub fn iszero(stack: &mut Stack) -> (r: Result<(), EvmError>)
    ensures
        pops_push(old(stack)@, final(stack)@, r, 1, flag(arg(old(stack)@, 0) == 0)),
{
    let ghost s0 = stack@;
    let a = pop1(stack)?;
    let ghost s1 = stack@;
    let result = flag_word(a.is_zero());
    push_result(stack, result)?;
    proof {
        lemma_unary_shape(s0, s1, stack@, result);
    }
    Ok(())
}

// =============================================================================
// Bitwise
// =============================================================================

/// Bit `k` of the number `v`: whether `v` holds `2^k` in its binary expansion.
pub open spec fn bit(v: nat, k: nat) -> bool {
    (v / pow2(k)) % 2 == 1
}

/// Limb `i` (0 the least significant) of a word.
pub open spec fn limb(w: U256, i: nat) -> u64 {
    if i == 0 {
        w.l0
    } else if i == 1 {
        w.l1
    } else if i == 2 {
        w.l2
    } else {
        w.l3
    }
}

/// On 64-bit numbers, `|`, `&` and `^` act bit by bit.
proof fn lemma_u64_bitwise(x: u64, y: u64, j: nat)
    requires
        j < 64,
    ensures
        bit((x | y) as nat, j) == (bit(x as nat, j) || bit(y as nat, j)),
        bit((x & y) as nat, j) == (bit(x as nat, j) && bit(y as nat, j)),
        bit((x ^ y) as nat, j) == (bit(x as nat, j) != bit(y as nat, j)),
{
    let s = j as u64;
    vstd::bits::lemma_u64_shr_is_div(x, s);
    vstd::bits::lemma_u64_shr_is_div(y, s);
    vstd::bits::lemma_u64_shr_is_div(x | y, s);
    vstd::bits::lemma_u64_shr_is_div(x & y, s);
    vstd::bits::lemma_u64_shr_is_div(x ^ y, s);
    assert(((x | y) >> s) % 2 == 1 <==> ((x >> s) % 2 == 1 || (y >> s) % 2 == 1)) by (bit_vector)
        requires
            s < 64,
    ;
    assert(((x & y) >> s) % 2 == 1 <==> ((x >> s) % 2 == 1 && (y >> s) % 2 == 1)) by (bit_vector)
        requires
            s < 64,
    ;
    assert(((x ^ y) >> s) % 2 == 1 <==> ((x >> s) % 2 == 1 != ((y >> s) % 2 == 1))) by (
    bit_vector)
        requires
            s < 64,
    ;
}

/// Bit `e + j` of `lo + 2^e (x + 2^64 hi)`, with `lo < 2^e` and `x < 2^64`, is bit
/// `j < 64` of `x`.
proof fn lemma_bit_split(lo: nat, x: nat, hi: nat, e: nat, j: nat)
    requires
        lo < pow2(e),
        x < pow2(64),
        j < 64,
    ensures
        bit(lo + pow2(e) * (x + pow2(64) * hi), e + j) == bit(x, j),
{
    let pe = pow2(e) as int;
    let pj = pow2(j) as int;
    let k = pow2((64 - j) as nat) as int;
    let k1 = pow2((63 - j) as nat) as int;
    let q = x + pow2(64) * hi;
    let v = lo + pow2(e) * q;
    lemma_pow2_pos(e);
    lemma_pow2_pos(j);
    lemma_pow2_adds(e, j);
    lemma_pow2_adds(j, (64 - j) as nat);
    lemma_pow2_adds(1, (63 - j) as nat);
    lemma2_to64();
    assert(k == 2 * k1);
    assert(pow2(64) == pj * k);
    // v / 2^e = q
    assert(v == q * pe + lo) by (nonlinear_arith)
        requires
            v == lo + pe * q,
    ;
    lemma_fundamental_div_mod_converse(v as int, pe, q as int, lo as int);
    lemma_div_denominator(v as int, pe, pj);
    // q / 2^j = x / 2^j + k hi
    let qx = x as int / pj;
    let rx = x as int % pj;
    lemma_fundamental_div_mod(x as int, pj);
    lemma_mod_pos_bound(x as int, pj);
    assert(q == (qx + k * hi) * pj + rx) by (nonlinear_arith)
        requires
            x == pj * qx + rx,
            q == x + pj * k * hi,
    ;
    lemma_fundamental_div_mod_converse(q as int, pj, qx + k * hi, rx);
    // the multiple of 2 vanishes modulo 2
    assert(qx + k * hi == 2 * (k1 * hi) + qx) by (nonlinear_arith)
        requires
            k == 2 * k1,
    ;
    lemma_mod_multiples_vanish(k1 * hi, qx, 2);
}

/// Bit `64 i + j` of a word is bit `j` of its limb `i`.
proof fn lemma_word_bit(w: U256, i: nat, j: nat)
    requires
        i < 4,
        j < 64,
    ensures
        bit(w@, 64 * i + j) == bit(limb(w, i) as nat, j),
{
    lemma_pow2_radix();
    lemma2_to64();
    lemma_pow2_pos(0);
    assert(pow2(0) == 1);
    let (l0, l1, l2, l3) = (w.l0 as nat, w.l1 as nat, w.l2 as nat, w.l3 as nat);
    if i == 0 {
        let hi = l1 + l2 * pow64() + l3 * pow128();
        assert(w@ == 0 + pow2(0) * (l0 + pow2(64) * hi));
        lemma_bit_split(0, l0, hi, 0, j);
    } else if i == 1 {
        let hi = l2 + l3 * pow64();
        assert(w@ == l0 + pow2(64) * (l1 + pow2(64) * hi));
        lemma_bit_split(l0, l1, hi, 64, j);
    } else if i == 2 {
        assert(w@ == (l0 + l1 * pow64()) + pow2(128) * (l2 + pow2(64) * l3));
        lemma_bit_split(l0 + l1 * pow64(), l2, l3, 128, j);
    } else {
        assert(w@ == (l0 + l1 * pow64() + l2 * pow128()) + pow2(192) * (l3 + pow2(64) * 0));
        lemma_bit_split(l0 + l1 * pow64() + l2 * pow128(), l3, 0, 192, j);
    }
}

/// OR sets exactly the bits set in either operand: for every position `k` below
/// 256, bit `k` of the result is set iff bit `k` of `a` or of `b` is.
pub proof fn lemma_or_bits(a: U256, b: U256, k: nat)
    requires
        k < 256,
    ensures
        bit(or_word(a, b)@, k) == (bit(a@, k) || bit(b@, k)),
{
    let i = k / 64;
    let j = k % 64;
    assert(k == 64 * i + j);
    lemma_word_bit(or_word(a, b), i, j);
    lemma_word_bit(a, i, j);
    lemma_word_bit(b, i, j);
    assert(limb(or_word(a, b), i) == limb(a, i) | limb(b, i));
    lemma_u64_bitwise(limb(a, i), limb(b, i), j);
}

/// AND keeps exactly the bits set in both operands: for every position `k` below
/// 256, bit `k` of the result is set iff bit `k` of `a` and of `b` are.
pub proof fn lemma_and_bits(a: U256, b: U256, k: nat)
    requires
        k < 256,
    ensures
        bit(and_word(a, b)@, k) == (bit(a@, k) && bit(b@, k)),
{
    let i = k / 64;
    let j = k % 64;
    assert(k == 64 * i + j);
    lemma_word_bit(and_word(a, b), i, j);
    lemma_word_bit(a, i, j);
    lemma_word_bit(b, i, j);
    assert(limb(and_word(a, b), i) == limb(a, i) & limb(b, i));
    lemma_u64_bitwise(limb(a, i), limb(b, i), j);
}

/// XOR sets exactly the bits where the operands differ: for every position `k`
/// below 256, bit `k` of the result is set iff bits `k` of `a` and `b` differ.
pub proof fn lemma_xor_bits(a: U256, b: U256, k: nat)
    requires
        k < 256,
    ensures
        bit(xor_word(a, b)@, k) == (bit(a@, k) != bit(b@, k)),
{
    let i = k / 64;
    let j = k % 64;
    assert(k == 64 * i + j);
    lemma_word_bit(xor_word(a, b), i, j);
    lemma_word_bit(a, i, j);
    lemma_word_bit(b, i, j);
    assert(limb(xor_word(a, b), i) == limb(a, i) ^ limb(b, i));
    lemma_u64_bitwise(limb(a, i), limb(b, i), j);
}

/// AND (0x16): bitwise AND.
pub fn and(stack: &mut Stack) -> (r: Result<(), EvmError>)
    ensures
        pops_push(
            old(stack)@,
            final(stack)@,
            r,
            2,
            and_word(old(stack)@.last(), old(stack)@[old(stack)@.len() - 2])@,
        ),
        old(stack)@.len() >= 2 ==> forall|k: nat|
            k < 256 ==> #[trigger] bit(final(stack)@.last()@, k) == (bit(old(stack)@.last()@, k)
                && bit(old(stack)@[old(stack)@.len() - 2]@, k)),
{
    let ghost s0 = stack@;
    let (a, b) = pop2(stack)?;
    let ghost s1 = stack@;
    let result = a.bitand(b);
    push_result(stack, result)?;
    proof {
        lemma_binary_shape(s0, s1, stack@, result);
        assert(result == and_word(a, b));
        assert forall|k: nat| k < 256 implies bit(stack@.last()@, k) == (bit(a@, k) && bit(b@, k)) by {
            lemma_and_bits(a, b, k);
        }
    }
    Ok(())
}

/// OR (0x17): bitwise OR.
pub fn or(stack: &mut Stack) -> (r: Result<(), EvmError>)
    ensures
        pops_push(
            old(stack)@,
            final(stack)@,
            r,
            2,
            or_word(old(stack)@.last(), old(stack)@[old(stack)@.len() - 2])@,
        ),
        old(stack)@.len() >= 2 ==> forall|k: nat|
            k < 256 ==> #[trigger] bit(final(stack)@.last()@, k) == (bit(old(stack)@.last()@, k)
                || bit(old(stack)@[old(stack)@.len() - 2]@, k)),
{
    let ghost s0 = stack@;
    let (a, b) = pop2(stack)?;
    let ghost s1 = stack@;
    let result = a.bitor(b);
    push_result(stack, result)?;
    proof {
        lemma_binary_shape(s0, s1, stack@, result);
        assert(result == or_word(a, b));
        assert forall|k: nat| k < 256 implies bit(stack@.last()@, k) == (bit(a@, k) || bit(b@, k)) by {
            lemma_or_bits(a, b, k);
        }
    }
    Ok(())
}

/// XOR (0x18): bitwise XOR.
pub fn xor(stack: &mut Stack) -> (r: Result<(), EvmError>)
    ensures
        pops_push(
            old(stack)@,
            final(stack)@,
            r,
            2,
            xor_word(old(stack)@.last(), old(stack)@[old(stack)@.len() - 2])@,
        ),
        old(stack)@.len() >= 2 ==> forall|k: nat|
            k < 256 ==> #[trigger] bit(final(stack)@.last()@, k) == (bit(old(stack)@.last()@, k)
                != bit(old(stack)@[old(stack)@.len() - 2]@, k)),
{
    let ghost s0 = stack@;
    let (a, b) = pop2(stack)?;
    let ghost s1 = stack@;
    let result = a.bitxor(b);
    push_result(stack, result)?;
    proof {
        lemma_binary_shape(s0, s1, stack@, result);
        assert(result == xor_word(a, b));
        assert forall|k: nat| k < 256 implies bit(stack@.last()@, k) == (bit(a@, k) != bit(b@, k)) by {
            lemma_xor_bits(a, b, k);
        }
    }
    Ok(())
}

/// NOT (0x19): bitwise complement, `2^256 − 1 − a`.
pub fn not(stack: &mut Stack) -> (r: Result<(), EvmError>)
    ensures
        pops_push(
            old(stack)@,
            final(stack)@,
            r,
            1,
            (pow256() - 1 - arg(old(stack)@, 0)) as nat,
        ),
{
    let ghost s0 = stack@;
    let a = pop1(stack)?;
    let ghost s1 = stack@;
    let result = a.not();
    push_result(stack, result)?;
    proof {
        lemma_unary_shape(s0, s1, stack@, result);
    }
    Ok(())
}

// =============================================================================
// Signed helpers
// =============================================================================

/// The sign bit, 2^255.
fn sign_bit() -> (r: U256)
    ensures
        r@ == pow255(),
{
    U256 { l0: 0, l1: 0, l2: 0, l3: 0x8000_0000_0000_0000 }
}

/// Whether a word is negative in two's complement.
fn is_negative(value: U256) -> (r: bool)
    ensures
        r == is_neg(value@),
{
    value.ge(&sign_bit())
}

/// Two's-complement negation.
pub fn twos_complement(value: U256) -> (r: U256)
    ensures
        r@ == neg_word(value@),
{
    let (result, _) = value.not().overflowing_add(U256::one());
    result
}

/// Magnitude of a word read in two's complement.
fn magnitude(value: U256) -> (r: U256)
    ensures
        r@ == abs_word(value@),
{
    if is_negative(value) {
        let r = twos_complement(value);
        proof {
            lemma_small_mod((pow256() - value@) as nat, pow256());
        }
        r
    } else {
        value
    }
}

// =============================================================================
// Signed arithmetic
// =============================================================================

/// Signed division of two words.
fn sdiv_word(a: U256, b: U256) -> (r: U256)
    ensures
        r@ == sdiv_spec(a@, b@),
{
    if b.is_zero() {
        U256::zero()
    } else if a.eq_word(&sign_bit()) && b.eq_word(&U256::max_value()) {
        proof {
            assert(abs_word(a@) == pow255());
            assert(abs_word(b@) == 1);
            lemma_div_basics(pow255() as int);
            assert(sdiv_spec(a@, b@) == pow255());
        }
        sign_bit()
    } else {
        let a_negative = is_negative(a);
        let b_negative = is_negative(b);
        let q = magnitude(a).div_rem(magnitude(b)).0;
        proof {
            assert(q@ == abs_word(a@) / abs_word(b@));
        }
        if a_negative != b_negative {
            twos_complement(q)
        } else {
            q
        }
    }
}

/// SDIV (0x05): signed division truncated toward zero; 0 when the divisor is 0;
/// the minimum divided by −1 is the minimum.
pub fn sdiv(stack: &mut Stack) -> (r: Result<(), EvmError>)
    ensures
        pops_push(
            old(stack)@,
            final(stack)@,
            r,
            2,
            sdiv_spec(arg(old(stack)@, 0), arg(old(stack)@, 1)),
        ),
{
    let ghost s0 = stack@;
    let (a, b) = pop2(stack)?;
    let ghost s1 = stack@;
    let result = sdiv_word(a, b);
    push_result(stack, result)?;
    proof {
        lemma_binary_shape(s0, s1, stack@, result);
    }
    Ok(())
}

/// SMOD (0x07): signed remainder taking the sign of the dividend; 0 when the
/// divisor is 0.
pub fn smod(stack: &mut Stack) -> (r: Result<(), EvmError>)
    ensures
        pops_push(
            old(stack)@,
            final(stack)@,
            r,
            2,
            smod_spec(arg(old(stack)@, 0), arg(old(stack)@, 1)),
        ),
{
    let ghost s0 = stack@;
    let (a, b) = pop2(stack)?;
    let ghost s1 = stack@;
    let result = if b.is_zero() {
        U256::zero()
    } else {
        let m = magnitude(a).div_rem(magnitude(b)).1;
        if is_negative(a) {
            twos_complement(m)
        } else {
            m
        }
    };
    push_result(stack, result)?;
    proof {
        lemma_binary_shape(s0, s1, stack@, result);
    }
    Ok(())
}

/// SLT (0x12): 1 when `a < b` read as signed words, else 0.
pub fn slt(stack: &mut Stack) -> (r: Result<(), EvmError>)
    ensures
        pops_push(
            old(stack)@,
            final(stack)@,
            r,
            2,
            flag(to_signed(arg(old(stack)@, 0)) < to_signed(arg(old(stack)@, 1))),
        ),
{
    let ghost s0 = stack@;
    let (a, b) = pop2(stack)?;
    let ghost s1 = stack@;
    let a_negative = is_negative(a);
    let b_negative = is_negative(b);
    let less = if a_negative == b_negative {
        a.lt(&b)
    } else {
        a_negative
    };
    let result = flag_word(less);
    push_result(stack, result)?;
    proof {
        lemma_binary_shape(s0, s1, stack@, result);
    }
    Ok(())
}

/// SGT (0x13): 1 when `a > b` read as signed words, else 0.
pub fn sgt(stack: &mut Stack) -> (r: Result<(), EvmError>)
    ensures
        pops_push(
            old(stack)@,
            final(stack)@,
            r,
            2,
            flag(to_signed(arg(old(stack)@, 0)) > to_signed(arg(old(stack)@, 1))),
        ),
{
    let ghost s0 = stack@;
    let (a, b) = pop2(stack)?;
    let ghost s1 = stack@;
    let a_negative = is_negative(a);
    let b_negative = is_negative(b);
    let greater = if a_negative == b_negative {
        a.gt(&b)
    } else {
        !a_negative
    };
    let result = flag_word(greater);
    push_result(stack, result)?;
    proof {
        lemma_binary_shape(s0, s1, stack@, result);
    }
    Ok(())
}

/// `2^e` as a word, for `e < 256`.
fn pow2_word(e: u32) -> (r: U256)
    requires
        e < 256,
    ensures
        r@ == pow2(e as nat),
        pow2(e as nat) < pow256(),
{
    proof {
        lemma_pow2_radix();
        lemma_pow2_strictly_increases(e as nat, 256);
        lemma_small_mod(pow2(e as nat), pow256());
    }
    U256::one().shl_bits(e)
}

/// SIGNEXTEND (0x0B): extends the sign bit of the low `b + 1` bytes of `x` over
/// the higher bytes; `x` unchanged when `b ≥ 31`.
pub fn signextend(stack: &mut Stack) -> (r: Result<(), EvmError>)
    ensures
        pops_push(
            old(stack)@,
            final(stack)@,
            r,
            2,
            signextend_spec(arg(old(stack)@, 0), arg(old(stack)@, 1)),
        ),
{
    let ghost s0 = stack@;
    let (b, x) = pop2(stack)?;
    let ghost s1 = stack@;
    let result = if b.ge(&U256::from_u64(31)) {
        x
    } else {
        let bb = b.low_u64() as u32;
        proof {
            lemma_small_mod(b@, crate::types::pow64());
        }
        let t: u32 = 8 * (bb + 1);
        let p = pow2_word(t);
        let high = x.shr_bits(t).shl_bits(t);
        let ghost pt = pow2(t as nat);
        proof {
            lemma_pow2_pos(t as nat);
            lemma_fundamental_div_mod(x@ as int, pt as int);
            lemma_mul_is_commutative((x@ / pt) as int, pt as int);
            lemma_small_mod((x@ / pt * pt) as nat, pow256());
            assert(high@ == x@ - x@ % pt);
        }
        let low = x.wrapping_sub(high);
        proof {
            lemma_small_mod((x@ % pt) as nat, pow256());
        }
        let half = pow2_word(t - 1);
        if low.ge(&half) {
            let ext = low.wrapping_sub(p);
            proof {
                lemma_fundamental_div_mod_converse(
                    low@ - pt,
                    pow256() as int,
                    -1,
                    low@ - pt + pow256(),
                );
            }
            ext
        } else {
            low
        }
    };
    push_result(stack, result)?;
    proof {
        lemma_binary_shape(s0, s1, stack@, result);
    }
    Ok(())
}

/// The shift amount of a word below 256.
fn small_amount(v: U256) -> (r: u32)
    requires
        v@ < 256,
    ensures
        r == v@,
{
    proof {
        lemma_small_mod(v@, crate::types::pow64());
    }
    v.low_u64() as u32
}

/// BYTE (0x1A): byte `i` of `x`, counting from the most significant; 0 when `i ≥ 32`.
pub fn byte(stack: &mut Stack) -> (r: Result<(), EvmError>)
    ensures
        pops_push(
            old(stack)@,
            final(stack)@,
            r,
            2,
            byte_spec(arg(old(stack)@, 0), arg(old(stack)@, 1)),
        ),
{
    let ghost s0 = stack@;
    let (i, x) = pop2(stack)?;
    let ghost s1 = stack@;
    let result = if i.ge(&U256::from_u64(32)) {
        U256::zero()
    } else {
        let index = small_amount(i) as usize;
        let bytes = x.to_be_bytes();
        U256::from_u64(bytes[index] as u64)
    };
    push_result(stack, result)?;
    proof {
        lemma_binary_shape(s0, s1, stack@, result);
    }
    Ok(())
}

/// SHL (0x1B): `value · 2^shift` modulo 2^256; 0 when `shift ≥ 256`.
pub fn shl(stack: &mut Stack) -> (r: Result<(), EvmError>)
    ensures
        pops_push(
            old(stack)@,
            final(stack)@,
            r,
            2,
            shl_spec(arg(old(stack)@, 0), arg(old(stack)@, 1)),
        ),
{
    let ghost s0 = stack@;
    let (shift, value) = pop2(stack)?;
    let ghost s1 = stack@;
    let result = if shift.ge(&U256::from_u64(256)) {
        U256::zero()
    } else {
        value.shl_bits(small_amount(shift))
    };
    push_result(stack, result)?;
    proof {
        lemma_binary_shape(s0, s1, stack@, result);
    }
    Ok(())
}

/// SHR (0x1C): `value / 2^shift`; 0 when `shift ≥ 256`.
pub fn shr(stack: &mut Stack) -> (r: Result<(), EvmError>)
    ensures
        pops_push(
            old(stack)@,
            final(stack)@,
            r,
            2,
            shr_spec(arg(old(stack)@, 0), arg(old(stack)@, 1)),
        ),
{
    let ghost s0 = stack@;
    let (shift, value) = pop2(stack)?;
    let ghost s1 = stack@;
    let result = if shift.ge(&U256::from_u64(256)) {
        U256::zero()
    } else {
        value.shr_bits(small_amount(shift))
    };
    push_result(stack, result)?;
    proof {
        lemma_binary_shape(s0, s1, stack@, result);
    }
    Ok(())
}

/// Floor division of a negative number: `(−1 − n) / d = −1 − n / d`.
proof fn lemma_floor_div_negative(n: int, d: int)
    requires
        n >= 0,
        d > 0,
    ensures
        (-1 - n) / d == -1 - n / d,
{
    lemma_fundamental_div_mod(n, d);
    let q = n / d;
    let m = n % d;
    assert((-1 - q) * d + (d - m - 1) == -1 - n) by (nonlinear_arith)
        requires
            n == d * q + m,
    ;
    lemma_fundamental_div_mod_converse(-1 - n, d, -1 - q, d - m - 1);
}

/// SAR (0x1D): arithmetic shift right, rounding the signed value toward −∞;
/// all ones (negative) or 0 when `shift ≥ 256`.
pub fn sar(stack: &mut Stack) -> (r: Result<(), EvmError>)
    ensures
        pops_push(
            old(stack)@,
            final(stack)@,
            r,
            2,
            sar_spec(arg(old(stack)@, 0), arg(old(stack)@, 1)),
        ),
{
    let ghost s0 = stack@;
    let (shift, value) = pop2(stack)?;
    let ghost s1 = stack@;
    let negative = is_negative(value);
    let result = if shift.ge(&U256::from_u64(256)) {
        if negative {
            U256::max_value()
        } else {
            U256::zero()
        }
    } else {
        let s = small_amount(shift);
        let ghost d = pow2(s as nat);
        proof {
            lemma_pow2_pos(s as nat);
        }
        if negative {
            let r = value.not().shr_bits(s).not();
            proof {
                let n = pow256() - 1 - value@;
                lemma_floor_div_negative(n, d as int);
                lemma_div_is_ordered_by_denominator(n, 1, d as int);
                lemma_fundamental_div_mod_converse(
                    -1 - n / (d as int),
                    pow256() as int,
                    -1,
                    pow256() - 1 - n / (d as int),
                );
            }
            r
        } else {
            let r = value.shr_bits(s);
            proof {
                lemma_div_is_ordered_by_denominator(value@ as int, 1, d as int);
                lemma_small_mod(value@ / d, pow256());
            }
            r
        }
    };
    push_result(stack, result)?;
    proof {
        lemma_binary_shape(s0, s1, stack@, result);
    }
    Ok(())
}

// =============================================================================
// Modular arithmetic
// =============================================================================

/// `(x + y) mod n` for reduced `x, y < n`, without leaving 256 bits.
pub(crate) fn addmod_reduced(x: U256, y: U256, n: U256) -> (r: U256)
    requires
        x@ < n@,
        y@ < n@,
    ensures
        r@ == (x@ + y@) % n@,
        r@ < n@,
{
    let (s, carry) = x.overflowing_add(y);
    if carry || s.ge(&n) {
        let r = s.wrapping_sub(n);
        proof {
            let t = x@ + y@ - n@;
            if carry {
                lemma_fundamental_div_mod_converse(
                    s@ - n@,
                    pow256() as int,
                    -1,
                    t,
                );
            } else {
                lemma_small_mod(t as nat, pow256());
            }
            lemma_fundamental_div_mod_converse((x@ + y@) as int, n@ as int, 1, t);
        }
        r
    } else {
        proof {
            lemma_small_mod((x@ + y@) as nat, n@);
        }
        s
    }
}

/// ADDMOD (0x08): `(a + b) mod n` without wrapping; 0 when `n = 0`.
pub fn addmod(stack: &mut Stack) -> (r: Result<(), EvmError>)
    ensures
        pops_push(
            old(stack)@,
            final(stack)@,
            r,
            3,
            addmod_spec(arg(old(stack)@, 0), arg(old(stack)@, 1), arg(old(stack)@, 2)),
        ),
{
    let ghost s0 = stack@;
    let (a, b, n) = pop3(stack)?;
    let ghost s1 = stack@;
    let result = if n.is_zero() {
        U256::zero()
    } else {
        let am = a.div_rem(n).1;
        let bm = b.div_rem(n).1;
        proof {
            lemma_add_mod_noop(a@ as int, b@ as int, n@ as int);
        }
        addmod_reduced(am, bm, n)
    };
    push_result(stack, result)?;
    proof {
        lemma_ternary_shape(s0, s1, stack@, result);
    }
    Ok(())
}

/// One step of double-and-add: halving `e` while doubling the addend keeps
/// `acc + add · e` modulo `n`.
proof fn lemma_mulmod_step(acc: int, add: int, e: int, n: int, acc2: int, add2: int)
    requires
        n > 0,
        e >= 0,
        acc2 == if e % 2 == 1 { (acc + add) % n } else { acc % n },
        add2 == (add + add) % n,
    ensures
        (acc2 + add2 * (e / 2)) % n == (acc + add * e) % n,
{
    let h = e / 2;
    let bit = e % 2;
    lemma_fundamental_div_mod(e, 2);
    assert(bit * add == if bit == 1 { add } else { 0 }) by (nonlinear_arith)
        requires
            bit == 0 || bit == 1,
    ;
    let x = acc + bit * add;
    let y = add + add;
    lemma_fundamental_div_mod(x, n);
    lemma_fundamental_div_mod(y, n);
    let q1 = x / n;
    let q2 = y / n;
    assert(acc2 + add2 * h == n * (-(q1 + q2 * h)) + (acc + add * e)) by (nonlinear_arith)
        requires
            e == 2 * h + bit,
            x == acc + bit * add,
            y == add + add,
            x == n * q1 + acc2,
            y == n * q2 + add2,
    ;
    lemma_mod_multiples_vanish(-(q1 + q2 * h), acc + add * e, n);
}

/// `(a · b) mod n` for `n > 0`, by double-and-add over the bits of `b`.
pub(crate) fn mulmod_word(a: U256, b: U256, n: U256) -> (r: U256)
    requires
        n@ > 0,
    ensures
        r@ == (a@ * b@) % n@,
{
    let mut acc = U256::zero();
    let mut add = a.div_rem(n).1;
    let mut e = b;
    proof {
        lemma_mul_mod_noop_left(a@ as int, b@ as int, n@ as int);
    }
    while !e.is_zero()
        invariant
            n@ > 0,
            acc@ < n@,
            add@ < n@,
            (acc@ + add@ * e@) % n@ == (a@ * b@) % n@,
        decreases e@,
    {
        let (half, bit) = e.div_rem_small(2);
        let ghost acc0 = acc@;
        let ghost add0 = add@;
        if bit == 1 {
            acc = addmod_reduced(acc, add, n);
        } else {
            proof {
                lemma_small_mod(acc0, n@);
            }
        }
        add = addmod_reduced(add, add, n);
        proof {
            lemma_mulmod_step(
                acc0 as int,
                add0 as int,
                e@ as int,
                n@ as int,
                acc@ as int,
                add@ as int,
            );
        }
        e = half;
    }
    proof {
        lemma_mul_basics(add@ as int);
        lemma_small_mod(acc@, n@);
    }
    acc
}

/// MULMOD (0x09): `(a · b) mod n` without wrapping; 0 when `n = 0`.
pub fn mulmod(stack: &mut Stack) -> (r: Result<(), EvmError>)
    ensures
        pops_push(
            old(stack)@,
            final(stack)@,
            r,
            3,
            mulmod_spec(arg(old(stack)@, 0), arg(old(stack)@, 1), arg(old(stack)@, 2)),
        ),
{
    let ghost s0 = stack@;
    let (a, b, n) = pop3(stack)?;
    let ghost s1 = stack@;
    let result = if n.is_zero() {
        U256::zero()
    } else {
        mulmod_word(a, b, n)
    };
    push_result(stack, result)?;
    proof {
        lemma_ternary_shape(s0, s1, stack@, result);
    }
    Ok(())
}

/// One step of square-and-multiply: `r · b^e ≡ r' · (b²)^(e/2)` where `r'` takes
/// the factor `b` when `e` is odd.
pub(crate) proof fn lemma_exp_step(r: int, b: int, e: nat, m: int, r2: int, b2: int)
    requires
        m > 0,
        r2 == if e % 2 == 1 { (r * b) % m } else { r },
        b2 == (b * b) % m,
    ensures
        (r2 * pow(b2, e / 2)) % m == (r * pow(b, e)) % m,
{
    let k = e / 2;
    let bit = (e % 2) as nat;
    lemma_fundamental_div_mod(e as int, 2);
    lemma_square_is_pow2(b);
    lemma_pow_multiplies(b, 2, k);
    lemma_pow_adds(b, 2 * k, bit);
    assert(e == 2 * k + bit);
    let p = pow(b * b, k);
    lemma_pow_mod_noop(b * b, k, m);
    lemma_mul_mod_noop_right(r2, pow(b2, k), m);
    lemma_mul_mod_noop_right(r2, p, m);
    assert((r2 * pow(b2, k)) % m == (r2 * p) % m);
    if bit == 1 {
        lemma_pow1(b);
        lemma_mul_mod_noop_left(r * b, p, m);
        lemma_mul_is_associative(r, b, p);
        lemma_mul_is_commutative(b, p);
    } else {
        lemma_pow0(b);
    }
}

/// `base^exponent` modulo 2^256 by square-and-multiply.
fn pow_mod_256(base: U256, exponent: U256) -> (r: U256)
    ensures
        r@ == exp_spec(base@, exponent@),
{
    let mut result = U256::one();
    let mut b = base;
    let mut e = exponent;
    proof {
        lemma_mul_basics(pow(base@ as int, exponent@));
    }
    while !e.is_zero()
        invariant
            (result@ * pow(b@ as int, e@)) % (pow256() as int) == pow(base@ as int, exponent@) % (
            pow256() as int),
        decreases e@,
    {
        let (half, bit) = e.div_rem_small(2);
        let ghost r0 = result@;
        let ghost b0 = b@;
        if bit == 1 {
            result = result.wrapping_mul(b);
        }
        b = b.wrapping_mul(b);
        proof {
            lemma_exp_step(r0 as int, b0 as int, e@, pow256() as int, result@ as int, b@ as int);
        }
        e = half;
    }
    proof {
        lemma_pow0(b@ as int);
        lemma_small_mod(result@, pow256());
    }
    result
}

/// EXP (0x0A): `base^exponent` modulo 2^256, with the base on top of the stack.
pub fn exp(stack: &mut Stack) -> (r: Result<(), EvmError>)
    ensures
        pops_push(
            old(stack)@,
            final(stack)@,
            r,
            2,
            exp_spec(arg(old(stack)@, 0), arg(old(stack)@, 1)),
        ),
{
    let ghost s0 = stack@;
    let (base, exponent) = pop2(stack)?;
    let ghost s1 = stack@;
    let result = if exponent.is_zero() {
        proof {
            lemma_pow0(base@ as int);
            lemma_small_mod(1, pow256());
        }
        U256::one()
    } else if exponent.is_one() {
        proof {
            lemma_pow1(base@ as int);
            lemma_small_mod(base@, pow256());
        }
        base
    } else if base.is_zero() {
        proof {
            lemma0_pow(exponent@);
        }
        U256::zero()
    } else if base.is_one() {
        proof {
            lemma1_pow(exponent@);
            lemma_small_mod(1, pow256());
        }
        U256::one()
    } else {
        pow_mod_256(base, exponent)
    };
    push_result(stack, result)?;
    proof {
        lemma_binary_shape(s0, s1, stack@, result);
    }
    Ok(())
}

// =============================================================================
// Hashing
// =============================================================================

/// A word as a memory offset or size: saturated at `usize::MAX`.
pub open spec fn as_size(v: nat) -> nat {
    if v <= usize::MAX {
        v
    } else {
        usize::MAX as nat
    }
}

/// KECCAK256 (0x20): pops an offset and a size and pushes the Keccak-256 hash
/// (big-endian) of that memory range, zero past the end of memory. Memory grows to
/// the word-aligned end of the part of the range it already holds.
pub fn keccak256(stack: &mut Stack, memory: &mut Memory) -> (r: Result<(), EvmError>)
    requires
        old(memory)@.len() + 32 <= usize::MAX,
        old(stack)@.len() >= 2 ==> as_size(arg(old(stack)@, 0)) + as_size(arg(old(stack)@, 1))
            <= usize::MAX + 1,
    ensures
        pops_push(
            old(stack)@,
            final(stack)@,
            r,
            2,
            be_val(
                keccak256_spec(
                    read_bytes(
                        old(memory)@,
                        as_size(arg(old(stack)@, 0)),
                        as_size(arg(old(stack)@, 1)),
                    ),
                ),
            ),
        ),
        old(stack)@.len() < 2 || as_size(arg(old(stack)@, 1)) == 0 ==> final(memory)@ == old(
            memory,
        )@,
        old(stack)@.len() >= 2 && as_size(arg(old(stack)@, 1)) > 0 ==> final(memory)@
            == expand_to(
            old(memory)@,
            read_touch(
                old(memory)@.len(),
                as_size(arg(old(stack)@, 0)),
                as_size(arg(old(stack)@, 1)),
            ),
        ),
{
    let ghost s0 = stack@;
    let (offset, size) = pop2(stack)?;
    let ghost s1 = stack@;
    let ghost m0 = memory@;
    let offset_usize = offset.as_usize();
    let size_usize = size.as_usize();
    let data = match read_memory_bytes(memory, offset_usize, size_usize) {
        Ok(d) => d,
        Err(_) => {
            proof {
                assert(false);
            }
            Vec::new()
        },
    };
    proof {
        assert(data@ =~= read_bytes(m0, offset_usize as nat, size_usize as nat));
    }
    let hash = crate::crypto::keccak::keccak256(data.as_slice());
    let result = U256::from_be_bytes(hash.bytes);
    push_result(stack, result)?;
    proof {
        lemma_binary_shape(s0, s1, stack@, result);
    }
    Ok(())
}

} // verus!
