//! Precompiled contracts at addresses 0x01 to 0x09: ECRECOVER, SHA256, RIPEMD160,
//! IDENTITY, MODEXP (EIP-2565 gas), the alt_bn128 ECADD and ECMUL, and BLAKE2F
//! (EIP-152).
//!
//! A precompile either answers with its output and the gas it used, or fails with
//! out-of-gas (which also stands for malformed input, so that the calling frame
//! sees a failed sub-call rather than halting).

use vstd::prelude::*;
use crate::crypto::keccak::{le_lane, read_lane};
use crate::crypto::ripemd160::{ripemd160, ripemd160_spec};
use crate::crypto::secp256k1::{address_of_key, recover_address, recovered_key};
use crate::crypto::secp256k1_math::{mod_add, mod_mul, secp256k1_n, secp256k1_n_spec};
use crate::crypto::secp256k1_point::{
    add_ok, add_spec, ladder, ladder_mul, ladder_ok, on_curve, on_curve_mod, point_add_mod,
    AffinePoint,
};
use crate::crypto::sha256::{sha256, sha256_spec};
use crate::evm::gas::{
    GAS_MODEXP_BASE, GAS_BLAKE2F_ROUND, GAS_BN256_ADD, GAS_BN256_MUL, GAS_ECRECOVER, GAS_IDENTITY_BASE,
    GAS_IDENTITY_WORD, GAS_RIPEMD160_BASE, GAS_RIPEMD160_WORD, GAS_SHA256_BASE, GAS_SHA256_WORD,
};
use crate::evm::memory::zeros;
use crate::evm::opcodes::environment::slice_padded;
use crate::evm::opcodes::utils::read_bytes;
use crate::types::{
    Address, U256, be_bytes, be_val, lemma_be_bytes_of_be_val, lemma_be_val_append,
    lemma_be_val_bound, lemma_be_val_zeros, pow256,
};
use vstd::arithmetic::div_mod::*;
use vstd::arithmetic::mul::*;
use vstd::arithmetic::power::*;

verus! {

/// The output of a precompile and the gas it used.
#[derive(Debug, Clone, PartialEq, Eq)]
pub struct PrecompileResult {
    /// Output bytes.
    pub output: Vec<u8>,
    /// Gas used.
    pub gas_used: u64,
}

/// Why a precompile failed.
#[derive(Debug, Clone, Copy, PartialEq, Eq, Structural)]
pub enum PrecompileError {
    /// Not enough gas, or input the precompile rejects.
    OutOfGas,
}

// =============================================================================
// Dispatch
// =============================================================================

/// The precompile number of an address: its last byte, when the first nineteen
/// are zero and the last is not.
pub open spec fn precompile_number(a: Seq<u8>) -> Option<u8> {
    if (forall|i: int| 0 <= i < 19 ==> a[i] == 0) && a[19] != 0 {
        Some(a[19])
    } else {
        None
    }
}

/// The number of 32-byte words needed for `n` bytes.
pub open spec fn words_for(n: nat) -> nat {
    (n + 31) / 32
}

/// A result whose fixed cost is checked against the gas available.
pub open spec fn metered(output: Seq<u8>, cost: int, available: u64) -> Option<(Seq<u8>, nat)> {
    if cost > available {
        None
    } else {
        Some((output, cost as nat))
    }
}

/// Whether a precompile outcome is `Ok` with exactly this output and gas, or
/// out-of-gas when `expected` is `None`.
pub open spec fn outcome_is(
    r: Result<PrecompileResult, PrecompileError>,
    expected: Option<(Seq<u8>, nat)>,
) -> bool {
    match expected {
        Some((out, gas)) => r matches Ok(res) && res.output@ == out && res.gas_used == gas,
        None => r == Err::<PrecompileResult, PrecompileError>(PrecompileError::OutOfGas),
    }
}

/// The precompile number of an address, if it names one.
fn precompile_id(address: &Address) -> (r: Option<u8>)
    ensures
        r == precompile_number(address@),
{
    let bytes = address.as_bytes();
    let mut i: usize = 0;
    while i < 19
        invariant
            i <= 19,
            bytes@ == address@,
            bytes@.len() == 20,
            forall|j: int| 0 <= j < i ==> bytes@[j] == 0,
        decreases 19 - i,
    {
        if bytes[i] != 0 {
            return None;
        }
        i = i + 1;
    }
    let id = bytes[19];
    if id == 0 {
        None
    } else {
        Some(id)
    }
}

/// Runs the precompile at `address` on `input` with `available_gas`; `None` when
/// the address is not one of 0x01 to 0x07 or 0x09.
pub fn execute_precompile(address: &Address, input: &[u8], available_gas: u64) -> (r: Option<
    Result<PrecompileResult, PrecompileError>,
>)
    requires
        precompile_number(address@) == Some(2u8) ==> GAS_SHA256_BASE + GAS_SHA256_WORD * words_for(
            input@.len(),
        ) <= u64::MAX,
        precompile_number(address@) == Some(3u8) ==> GAS_RIPEMD160_BASE + GAS_RIPEMD160_WORD
            * words_for(input@.len()) <= u64::MAX,
        precompile_number(address@) == Some(4u8) ==> GAS_IDENTITY_BASE + GAS_IDENTITY_WORD
            * words_for(input@.len()) <= u64::MAX,
    ensures
        match precompile_number(address@) {
            Some(1) => r matches Some(o) && outcome_is(
                o,
                metered(ecrecover_output(input@), GAS_ECRECOVER as int, available_gas),
            ),
            Some(2) => r matches Some(o) && outcome_is(
                o,
                metered(sha256_spec(input@), GAS_SHA256_BASE + GAS_SHA256_WORD * words_for(input@.len()), available_gas),
            ),
            Some(3) => r matches Some(o) && outcome_is(
                o,
                metered(
                    zeros(12) + ripemd160_spec(input@),
                    GAS_RIPEMD160_BASE + GAS_RIPEMD160_WORD * words_for(input@.len()),
                    available_gas,
                ),
            ),
            Some(4) => r matches Some(o) && outcome_is(
                o,
                metered(input@, GAS_IDENTITY_BASE + GAS_IDENTITY_WORD * words_for(input@.len()), available_gas),
            ),
            Some(5) => r matches Some(o) && outcome_is(o, modexp_outcome(input@, available_gas)),
            Some(6) => r matches Some(o) && outcome_is(o, ecadd_outcome(input@, available_gas)),
            Some(7) => r matches Some(o) && outcome_is(o, ecmul_outcome(input@, available_gas)),
            Some(9) => r matches Some(o) && outcome_is(o, blake2f_outcome(input@, available_gas)),
            _ => r is None,
        },
{
    let id = match precompile_id(address) {
        Some(id) => id,
        None => {
            return None;
        },
    };
    match id {
        1 => Some(meter_precompile_result(ecrecover_precompile(input), available_gas)),
        2 => Some(meter_precompile_result(sha256_precompile(input), available_gas)),
        3 => Some(meter_precompile_result(ripemd160_precompile(input), available_gas)),
        4 => Some(meter_precompile_result(identity_precompile(input), available_gas)),
        5 => Some(modexp_precompile(input, available_gas)),
        6 => Some(ecadd_precompile(input, available_gas)),
        7 => Some(ecmul_precompile(input, available_gas)),
        9 => Some(blake2f_precompile(input, available_gas)),
        _ => None,
    }
}

/// Out of gas when the result used more than is available.
fn meter_precompile_result(result: PrecompileResult, available_gas: u64) -> (r: Result<
    PrecompileResult,
    PrecompileError,
>)
    ensures
        outcome_is(r, metered(result.output@, result.gas_used as int, available_gas)),
{
    if result.gas_used > available_gas {
        return Err(PrecompileError::OutOfGas);
    }
    Ok(result)
}

/// `ceil(n / 32)`.
fn word_count(n: usize) -> (r: u64)
    ensures
        r == words_for(n as nat),
{
    ((n as u64) / 32) + if (n as u64) % 32 == 0 {
        0
    } else {
        1
    }
}

// =============================================================================
// IDENTITY, SHA256, RIPEMD160
// =============================================================================

/// IDENTITY: the input, for `15 + 3` per word.
fn identity_precompile(input: &[u8]) -> (r: PrecompileResult)
    requires
        GAS_IDENTITY_BASE + GAS_IDENTITY_WORD * words_for(input@.len()) <= u64::MAX,
    ensures
        r.output@ == input@,
        r.gas_used == GAS_IDENTITY_BASE + GAS_IDENTITY_WORD * words_for(input@.len()),
{
    let words = word_count(input.len());
    PrecompileResult {
        output: crate::types::bytes_to_vec(input),
        gas_used: GAS_IDENTITY_BASE + GAS_IDENTITY_WORD * words,
    }
}

/// SHA256: the digest, for `60 + 12` per word.
fn sha256_precompile(input: &[u8]) -> (r: PrecompileResult)
    requires
        GAS_SHA256_BASE + GAS_SHA256_WORD * words_for(input@.len()) <= u64::MAX,
    ensures
        r.output@ == sha256_spec(input@),
        r.gas_used == GAS_SHA256_BASE + GAS_SHA256_WORD * words_for(input@.len()),
{
    let words = word_count(input.len());
    let digest = sha256(input);
    PrecompileResult {
        output: crate::types::bytes_to_vec(&digest),
        gas_used: GAS_SHA256_BASE + GAS_SHA256_WORD * words,
    }
}

/// RIPEMD160: the digest left-padded to 32 bytes, for `600 + 120` per word.
fn ripemd160_precompile(input: &[u8]) -> (r: PrecompileResult)
    requires
        GAS_RIPEMD160_BASE + GAS_RIPEMD160_WORD * words_for(input@.len()) <= u64::MAX,
    ensures
        r.output@ == zeros(12) + ripemd160_spec(input@),
        r.gas_used == GAS_RIPEMD160_BASE + GAS_RIPEMD160_WORD * words_for(input@.len()),
{
    let words = word_count(input.len());
    let digest = ripemd160(input);
    let mut output: Vec<u8> = Vec::new();
    let mut i: usize = 0;
    while i < 12
        invariant
            i <= 12,
            output@ == zeros(i as nat),
        decreases 12 - i,
    {
        output.push(0);
        i = i + 1;
        proof {
            assert(output@ =~= zeros(i as nat));
        }
    }
    crate::types::extend_bytes(&mut output, &digest);
    PrecompileResult { output, gas_used: GAS_RIPEMD160_BASE + GAS_RIPEMD160_WORD * words }
}

// =============================================================================
// ECRECOVER
// =============================================================================

/// The 32-byte word of the input at `offset`, zero past the end.
pub open spec fn input_word(input: Seq<u8>, offset: nat) -> Seq<u8> {
    read_bytes(input, offset, 32)
}

/// ECRECOVER's output: with `v` 27 or 28 and `r`, `s` in `1..n`, the recovered
/// signer's address left-padded to 32 bytes, or nothing when no key is recovered;
/// nothing otherwise.
pub open spec fn ecrecover_output(input: Seq<u8>) -> Seq<u8> {
    let v = be_val(input_word(input, 32));
    let r = be_val(input_word(input, 64));
    let s = be_val(input_word(input, 96));
    if (v == 27 || v == 28) && 0 < r < secp256k1_n_spec() && 0 < s < secp256k1_n_spec() {
        match recovered_key(
            input_word(input, 0),
            input_word(input, 64) + input_word(input, 96),
            (v - 27) as u8,
        ) {
            Some(k) => zeros(12) + address_of_key(k.subrange(1, 65)),
            None => Seq::empty(),
        }
    } else {
        Seq::empty()
    }
}

/// ECRECOVER recovers with recovery id `v - 27`: for any 32-byte hash `h`, any `r`
/// and `s` in `1..n`, and `v = 27 + j` with `j` 0 or 1, the output is the address of
/// the key that recovery with id `j` gives from `h` and `r ‖ s`, left-padded to 32
/// bytes, or nothing when that recovery gives no key.
pub proof fn lemma_ecrecover_recovery_id(h: Seq<u8>, j: u8, r: Seq<u8>, s: Seq<u8>)
    requires
        h.len() == 32,
        r.len() == 32,
        s.len() == 32,
        j <= 1,
        0 < be_val(r) < secp256k1_n_spec(),
        0 < be_val(s) < secp256k1_n_spec(),
    ensures
        ecrecover_output(h + be_bytes((27 + j) as nat, 32) + r + s) == match recovered_key(h, r + s, j) {
            Some(k) => zeros(12) + address_of_key(k.subrange(1, 65)),
            None => Seq::<u8>::empty(),
        },
{
    let vb = be_bytes((27 + j) as nat, 32);
    let input = h + vb + r + s;
    assert(input_word(input, 0) =~= h);
    assert(input_word(input, 32) =~= vb);
    assert(input_word(input, 64) =~= r);
    assert(input_word(input, 96) =~= s);
    crate::types::lemma_be_val_of_be_bytes((27 + j) as nat, 32);
    crate::types::lemma_pow256_bytes();
    lemma_small_mod((27 + j) as nat, pow256());
    assert(be_val(vb) == 27 + j);
}

/// ECRECOVER answers nothing unless `v` (the second 32-byte word of the input,
/// zero-padded) is 27 or 28 and `r` and `s` (the third and fourth) are in `1..n`.
pub proof fn lemma_ecrecover_rejects(input: Seq<u8>)
    requires
        ({
            let v = be_val(read_bytes(input, 32, 32));
            let r = be_val(read_bytes(input, 64, 32));
            let s = be_val(read_bytes(input, 96, 32));
            ||| v != 27 && v != 28
            ||| r == 0 || r >= secp256k1_n_spec()
            ||| s == 0 || s >= secp256k1_n_spec()
        }),
    ensures
        ecrecover_output(input).len() == 0,
{
}

/// ECRECOVER: the signer of a hash, from `v`, `r` and `s`; 3000 gas.
fn ecrecover_precompile(input: &[u8]) -> (r: PrecompileResult)
    ensures
        r.output@ == ecrecover_output(input@),
        r.gas_used == GAS_ECRECOVER,
{
    let hash_word = slice_padded(input, 0, 32);
    let v_word = slice_padded(input, 32, 32);
    let r_word = slice_padded(input, 64, 32);
    let s_word = slice_padded(input, 96, 32);
    let v = U256::from_be_slice(v_word.as_slice());
    let r = U256::from_be_slice(r_word.as_slice());
    let s = U256::from_be_slice(s_word.as_slice());
    let n = secp256k1_n();
    let mut output: Vec<u8> = Vec::new();
    if (v.eq_word(&U256::from_u64(27)) || v.eq_word(&U256::from_u64(28))) && !r.is_zero()
        && r.lt(&n) && !s.is_zero() && s.lt(&n) {
        let mut signature = r_word;
        crate::types::extend_bytes(&mut signature, s_word.as_slice());
        let recovery_id: u8 = if v.eq_word(&U256::from_u64(27)) {
            0
        } else {
            1
        };
        let mut hash_bytes = [0u8; 32];
        let mut i: usize = 0;
        while i < 32
            invariant
                i <= 32,
                hash_word@.len() == 32,
                forall|j: int| 0 <= j < i ==> hash_bytes@[j] == hash_word@[j],
            decreases 32 - i,
        {
            hash_bytes[i] = hash_word[i];
            i = i + 1;
        }
        let message_hash = crate::types::Hash::new(hash_bytes);
        proof {
            assert(message_hash@ =~= hash_word@);
            assert(signature@.subrange(0, 32) =~= r_word@);
            assert(signature@.subrange(32, 64) =~= s_word@);
        }
        match recover_address(&message_hash, signature.as_slice(), recovery_id) {
            Ok(address) => {
                let mut j: usize = 0;
                while j < 12
                    invariant
                        j <= 12,
                        output@ == zeros(j as nat),
                    decreases 12 - j,
                {
                    output.push(0);
                    j = j + 1;
                    proof {
                        assert(output@ =~= zeros(j as nat));
                    }
                }
                crate::types::extend_bytes(&mut output, address.as_bytes());
            },
            Err(_) => {},
        }
    }
    PrecompileResult { output, gas_used: GAS_ECRECOVER }
}

// =============================================================================
// BLAKE2F (EIP-152)
// =============================================================================

/// Rotation right by `0 < n < 64` bits.
pub open spec fn rotr64(x: u64, n: u64) -> u64 {
    (x >> n) | (x << ((64 - n) as u64))
}

/// The BLAKE2b initialisation vector.
pub open spec fn blake2b_iv() -> Seq<u64> {
    seq![
        0x6a09e667f3bcc908u64, 0xbb67ae8584caa73b, 0x3c6ef372fe94f82b, 0xa54ff53a5f1d36f1,
        0x510e527fade682d1, 0x9b05688c2b3e6c1f, 0x1f83d9abfb41bd6b, 0x5be0cd19137e2179,
    ]
}

/// The ten message schedules, one row of 16 after another.
pub open spec fn blake2b_sigma() -> Seq<u8> {
    seq![
        0u8, 1, 2, 3, 4, 5, 6, 7, 8, 9, 10, 11, 12, 13, 14, 15,
        14, 10, 4, 8, 9, 15, 13, 6, 1, 12, 0, 2, 11, 7, 5, 3,
        11, 8, 12, 0, 5, 2, 15, 13, 10, 14, 3, 6, 7, 1, 9, 4,
        7, 9, 3, 1, 13, 12, 11, 14, 2, 6, 5, 10, 4, 0, 15, 8,
        9, 0, 5, 7, 2, 4, 10, 15, 14, 1, 11, 12, 6, 8, 3, 13,
        2, 12, 6, 10, 0, 11, 8, 3, 4, 13, 7, 5, 15, 14, 1, 9,
        12, 5, 1, 15, 14, 13, 4, 10, 0, 7, 6, 3, 9, 2, 8, 11,
        13, 11, 7, 14, 12, 1, 3, 9, 5, 0, 15, 4, 8, 6, 2, 10,
        6, 15, 14, 9, 11, 3, 0, 8, 12, 2, 13, 7, 1, 4, 10, 5,
        10, 2, 8, 4, 7, 6, 1, 5, 15, 11, 9, 14, 3, 12, 13, 0,
    ]
}

/// The mixing function G on words `a`, `b`, `c`, `d` with message words `x`, `y`
/// (RFC 7693, section 3.1).
pub open spec fn g_mix(v: Seq<u64>, a: int, b: int, c: int, d: int, x: u64, y: u64) -> Seq<u64> {
    let va = wrapping_add64(wrapping_add64(v[a], v[b]), x);
    let vd = rotr64(v[d] ^ va, 32);
    let vc = wrapping_add64(v[c], vd);
    let vb = rotr64(v[b] ^ vc, 24);
    let va2 = wrapping_add64(wrapping_add64(va, vb), y);
    let vd2 = rotr64(vd ^ va2, 16);
    let vc2 = wrapping_add64(vc, vd2);
    let vb2 = rotr64(vb ^ vc2, 63);
    v.update(a, va2).update(b, vb2).update(c, vc2).update(d, vd2)
}

/// Message word `i` of the schedule of round `r`.
pub open spec fn sched(m: Seq<u64>, r: int, i: int) -> u64 {
    m[blake2b_sigma()[16 * (r % 10) + i] as int]
}

/// One round: the columns, then the diagonals.
pub open spec fn blake2b_round(v: Seq<u64>, m: Seq<u64>, r: int) -> Seq<u64> {
    let v1 = g_mix(v, 0, 4, 8, 12, sched(m, r, 0), sched(m, r, 1));
    let v2 = g_mix(v1, 1, 5, 9, 13, sched(m, r, 2), sched(m, r, 3));
    let v3 = g_mix(v2, 2, 6, 10, 14, sched(m, r, 4), sched(m, r, 5));
    let v4 = g_mix(v3, 3, 7, 11, 15, sched(m, r, 6), sched(m, r, 7));
    let v5 = g_mix(v4, 0, 5, 10, 15, sched(m, r, 8), sched(m, r, 9));
    let v6 = g_mix(v5, 1, 6, 11, 12, sched(m, r, 10), sched(m, r, 11));
    let v7 = g_mix(v6, 2, 7, 8, 13, sched(m, r, 12), sched(m, r, 13));
    g_mix(v7, 3, 4, 9, 14, sched(m, r, 14), sched(m, r, 15))
}

/// The first `n` rounds.
pub open spec fn blake2b_rounds(v: Seq<u64>, m: Seq<u64>, n: nat) -> Seq<u64>
    decreases n,
{
    if n == 0 {
        v
    } else {
        blake2b_round(blake2b_rounds(v, m, (n - 1) as nat), m, n - 1)
    }
}

/// The working vector before the rounds: the state, the IV with the offset
/// counter xored into words 12 and 13, and word 14 inverted for a final block.
pub open spec fn blake2b_init(h: Seq<u64>, t0: u64, t1: u64, final_block: bool) -> Seq<u64> {
    let v = (h + blake2b_iv()).update(12, blake2b_iv()[4] ^ t0).update(13, blake2b_iv()[5] ^ t1);
    if final_block {
        v.update(14, !blake2b_iv()[6])
    } else {
        v
    }
}

/// The compression function F with a given number of rounds.
pub open spec fn blake2b_compress_spec(
    rounds: nat,
    h: Seq<u64>,
    m: Seq<u64>,
    t0: u64,
    t1: u64,
    final_block: bool,
) -> Seq<u64> {
    let v = blake2b_rounds(blake2b_init(h, t0, t1, final_block), m, rounds);
    Seq::new(8, |i: int| h[i] ^ v[i] ^ v[i + 8])
}

/// `a + b` modulo 2^64.
pub open spec fn wrapping_add64(a: u64, b: u64) -> u64 {
    vstd::wrapping::u64_specs::wrapping_add(a, b)
}

/// Rotation right.
fn rotr(x: u64, n: u64) -> (r: u64)
    requires
        0 < n < 64,
    ensures
        r == rotr64(x, n),
{
    (x >> n) | (x << (64 - n))
}

/// The schedule table.
fn sigma_table() -> (r: [u8; 160])
    ensures
        r@ == blake2b_sigma(),
{
    let t: [u8; 160] = [
        0, 1, 2, 3, 4, 5, 6, 7, 8, 9, 10, 11, 12, 13, 14, 15,
        14, 10, 4, 8, 9, 15, 13, 6, 1, 12, 0, 2, 11, 7, 5, 3,
        11, 8, 12, 0, 5, 2, 15, 13, 10, 14, 3, 6, 7, 1, 9, 4,
        7, 9, 3, 1, 13, 12, 11, 14, 2, 6, 5, 10, 4, 0, 15, 8,
        9, 0, 5, 7, 2, 4, 10, 15, 14, 1, 11, 12, 6, 8, 3, 13,
        2, 12, 6, 10, 0, 11, 8, 3, 4, 13, 7, 5, 15, 14, 1, 9,
        12, 5, 1, 15, 14, 13, 4, 10, 0, 7, 6, 3, 9, 2, 8, 11,
        13, 11, 7, 14, 12, 1, 3, 9, 5, 0, 15, 4, 8, 6, 2, 10,
        6, 15, 14, 9, 11, 3, 0, 8, 12, 2, 13, 7, 1, 4, 10, 5,
        10, 2, 8, 4, 7, 6, 1, 5, 15, 11, 9, 14, 3, 12, 13, 0,
    ];
    proof {
        assert(t@ =~= blake2b_sigma());
    }
    t
}

/// G on the working vector.
fn blake2b_mix(v: &mut [u64; 16], a: usize, b: usize, c: usize, d: usize, x: u64, y: u64)
    requires
        a < 16 && b < 16 && c < 16 && d < 16,
        a != b && a != c && a != d && b != c && b != d && c != d,
    ensures
        final(v)@ == g_mix(old(v)@, a as int, b as int, c as int, d as int, x, y),
{
    v[a] = v[a].wrapping_add(v[b]).wrapping_add(x);
    v[d] = rotr(v[d] ^ v[a], 32);
    v[c] = v[c].wrapping_add(v[d]);
    v[b] = rotr(v[b] ^ v[c], 24);
    v[a] = v[a].wrapping_add(v[b]).wrapping_add(y);
    v[d] = rotr(v[d] ^ v[a], 16);
    v[c] = v[c].wrapping_add(v[d]);
    v[b] = rotr(v[b] ^ v[c], 63);
    proof {
        assert(v@ =~= g_mix(old(v)@, a as int, b as int, c as int, d as int, x, y));
    }
}

/// One round on the working vector.
fn blake2b_round_in_place(v: &mut [u64; 16], m: &[u64; 16], sigma: &[u8; 160], round: u32)
    requires
        sigma@ == blake2b_sigma(),
    ensures
        final(v)@ == blake2b_round(old(v)@, m@, round as int),
{
    let base: usize = 16 * ((round % 10) as usize);
    proof {
        assert(forall|i: int| 0 <= i < 160 ==> #[trigger] blake2b_sigma()[i] < 16) by {
            assert(blake2b_sigma() =~= sigma@);
        }
    }
    blake2b_mix(v, 0, 4, 8, 12, m[sigma[base] as usize], m[sigma[base + 1] as usize]);
    blake2b_mix(v, 1, 5, 9, 13, m[sigma[base + 2] as usize], m[sigma[base + 3] as usize]);
    blake2b_mix(v, 2, 6, 10, 14, m[sigma[base + 4] as usize], m[sigma[base + 5] as usize]);
    blake2b_mix(v, 3, 7, 11, 15, m[sigma[base + 6] as usize], m[sigma[base + 7] as usize]);
    blake2b_mix(v, 0, 5, 10, 15, m[sigma[base + 8] as usize], m[sigma[base + 9] as usize]);
    blake2b_mix(v, 1, 6, 11, 12, m[sigma[base + 10] as usize], m[sigma[base + 11] as usize]);
    blake2b_mix(v, 2, 7, 8, 13, m[sigma[base + 12] as usize], m[sigma[base + 13] as usize]);
    blake2b_mix(v, 3, 4, 9, 14, m[sigma[base + 14] as usize], m[sigma[base + 15] as usize]);
}

/// BLAKE2b's compression function F over `rounds` rounds.
pub fn blake2b_compress(
    rounds: u32,
    h: [u64; 8],
    m: [u64; 16],
    t0: u64,
    t1: u64,
    final_block: bool,
) -> (r: [u64; 8])
    ensures
        r@ == blake2b_compress_spec(rounds as nat, h@, m@, t0, t1, final_block),
{
    let iv: [u64; 8] = [
        0x6a09e667f3bcc908, 0xbb67ae8584caa73b, 0x3c6ef372fe94f82b, 0xa54ff53a5f1d36f1,
        0x510e527fade682d1, 0x9b05688c2b3e6c1f, 0x1f83d9abfb41bd6b, 0x5be0cd19137e2179,
    ];
    proof {
        assert(iv@ =~= blake2b_iv());
    }
    let mut v: [u64; 16] = [
        h[0], h[1], h[2], h[3], h[4], h[5], h[6], h[7], iv[0], iv[1], iv[2], iv[3], iv[4] ^ t0,
        iv[5] ^ t1, iv[6], iv[7],
    ];
    if final_block {
        v[14] = !v[14];
    }
    proof {
        assert(v@ =~= blake2b_init(h@, t0, t1, final_block));
    }
    let ghost v0 = v@;
    let sigma = sigma_table();
    let mut round: u32 = 0;
    while round < rounds
        invariant
            round <= rounds,
            sigma@ == blake2b_sigma(),
            v@ == blake2b_rounds(v0, m@, round as nat),
        decreases rounds - round,
    {
        blake2b_round_in_place(&mut v, &m, &sigma, round);
        round = round + 1;
    }
    let mut out = [0u64; 8];
    let mut i: usize = 0;
    while i < 8
        invariant
            i <= 8,
            forall|j: int| 0 <= j < i ==> out@[j] == h@[j] ^ v@[j] ^ v@[j + 8],
        decreases 8 - i,
    {
        out[i] = h[i] ^ v[i] ^ v[i + 8];
        i = i + 1;
    }
    proof {
        assert(out@ =~= blake2b_compress_spec(rounds as nat, h@, m@, t0, t1, final_block));
    }
    out
}

/// The eight little-endian words of `input` from `offset`.
pub open spec fn le_words(input: Seq<u8>, offset: int, n: nat) -> Seq<u64> {
    Seq::new(n, |i: int| le_lane(input.subrange(offset + 8 * i, offset + 8 * i + 8)))
}

/// A big-endian 32-bit word.
pub open spec fn be_u32(b: Seq<u8>) -> nat {
    b[0] as nat * 0x1000000 + b[1] as nat * 0x10000 + b[2] as nat * 0x100 + b[3] as nat
}

/// BLAKE2F's outcome: exactly 213 bytes (rounds, state, message, counters, flag),
/// one gas per round, a flag of 0 or 1; the new state, little-endian.
pub open spec fn blake2f_outcome(input: Seq<u8>, available: u64) -> Option<(Seq<u8>, nat)> {
    if input.len() != 213 {
        None
    } else {
        let rounds = be_u32(input.subrange(0, 4));
        if rounds * GAS_BLAKE2F_ROUND > available || input[212] > 1 {
            None
        } else {
            let h = blake2b_compress_spec(
                rounds,
                le_words(input, 4, 8),
                le_words(input, 68, 16),
                le_lane(input.subrange(196, 204)),
                le_lane(input.subrange(204, 212)),
                input[212] == 1,
            );
            Some((Seq::new(64, |i: int| (h[i / 8] >> ((8 * (i % 8)) as u64)) as u8), (rounds * GAS_BLAKE2F_ROUND) as nat))
        }
    }
}

/// BLAKE2F.
fn blake2f_precompile(input: &[u8], available_gas: u64) -> (r: Result<PrecompileResult, PrecompileError>)
    ensures
        outcome_is(r, blake2f_outcome(input@, available_gas)),
{
    if input.len() != 213 {
        return Err(PrecompileError::OutOfGas);
    }
    let rounds: u32 = ((input[0] as u32) << 24u32) | ((input[1] as u32) << 16u32) | ((input[2] as u32) << 8u32) | (input[3] as u32);
    proof {
        let (b0, b1, b2, b3) = (input@[0], input@[1], input@[2], input@[3]);
        assert(((b0 as u32) << 24u32) | ((b1 as u32) << 16u32) | ((b2 as u32) << 8u32) | (b3 as u32)
            == b0 as nat * 0x1000000 + b1 as nat * 0x10000 + b2 as nat * 0x100 + b3 as nat) by (bit_vector);
        assert(input@.subrange(0, 4)[0] == b0 && input@.subrange(0, 4)[1] == b1);
        assert(input@.subrange(0, 4)[2] == b2 && input@.subrange(0, 4)[3] == b3);
    }
    let gas_used = (rounds as u64) * GAS_BLAKE2F_ROUND;
    if gas_used > available_gas {
        return Err(PrecompileError::OutOfGas);
    }
    let final_block_flag = input[212];
    if final_block_flag > 1 {
        return Err(PrecompileError::OutOfGas);
    }
    let mut h = [0u64; 8];
    let mut i: usize = 0;
    while i < 8
        invariant
            i <= 8,
            input@.len() == 213,
            forall|j: int| 0 <= j < i ==> h@[j] == le_words(input@, 4, 8)[j],
        decreases 8 - i,
    {
        h[i] = read_lane(input, 4 + i * 8);
        i = i + 1;
    }
    let mut m = [0u64; 16];
    let mut k: usize = 0;
    while k < 16
        invariant
            k <= 16,
            input@.len() == 213,
            forall|j: int| 0 <= j < k ==> m@[j] == le_words(input@, 68, 16)[j],
        decreases 16 - k,
    {
        m[k] = read_lane(input, 68 + k * 8);
        k = k + 1;
    }
    proof {
        assert(h@ =~= le_words(input@, 4, 8));
        assert(m@ =~= le_words(input@, 68, 16));
    }
    let t0 = read_lane(input, 196);
    let t1 = read_lane(input, 204);
    let words = blake2b_compress(rounds, h, m, t0, t1, final_block_flag == 1);
    let mut output: Vec<u8> = Vec::new();
    let mut q: usize = 0;
    while q < 64
        invariant
            q <= 64,
            output@.len() == q,
            forall|j: int| 0 <= j < q ==> output@[j] == (words@[j / 8] >> ((8 * (j % 8)) as u64)) as u8,
        decreases 64 - q,
    {
        output.push((words[q / 8] >> ((8 * (q % 8)) as u64)) as u8);
        q = q + 1;
    }
    proof {
        assert(output@ =~= Seq::new(64, |j: int| (words@[j / 8] >> ((8 * (j % 8)) as u64)) as u8));
    }
    Ok(PrecompileResult { output, gas_used })
}

// =============================================================================
// alt_bn128 ECADD and ECMUL
// =============================================================================

/// The alt_bn128 field prime.
pub open spec fn bn254_p() -> nat {
    21888242871839275222246405745257275088696311157297823662689037894645226208583nat
}

/// The alt_bn128 field prime as a word.
fn bn254_field_modulus() -> (r: U256)
    ensures
        r@ == bn254_p(),
{
    U256 {
        l0: 0x3c208c16d87cfd47,
        l1: 0x97816a916871ca8d,
        l2: 0xb85045b68181585d,
        l3: 0x30644e72e131a029,
    }
}

/// A G1 point encoded as `x ‖ y` (two big-endian words): the point at infinity for
/// `(0, 0)`, a point of `y² = x³ + 3` with coordinates below `p`, or `None`.
pub open spec fn decode_g1(b: Seq<u8>) -> Option<Option<(nat, nat)>> {
    let x = be_val(b.subrange(0, 32));
    let y = be_val(b.subrange(32, 64));
    if x >= bn254_p() || y >= bn254_p() {
        None
    } else if x == 0 && y == 0 {
        Some(None)
    } else if !on_curve(bn254_p(), 3, x, y) {
        None
    } else {
        Some(Some((x, y)))
    }
}

/// The 64-byte encoding of a G1 point; zeros for infinity.
pub open spec fn encode_g1(pt: Option<(nat, nat)>) -> Seq<u8> {
    match pt {
        None => zeros(64),
        Some((x, y)) => be_bytes(x, 32) + be_bytes(y, 32),
    }
}

/// ECADD's outcome: 150 gas; two points read from the zero-padded input.
pub open spec fn ecadd_outcome(input: Seq<u8>, available: u64) -> Option<(Seq<u8>, nat)> {
    if available < GAS_BN256_ADD {
        None
    } else {
        match (decode_g1(read_bytes(input, 0, 64)), decode_g1(read_bytes(input, 64, 64))) {
            (Some(a), Some(b)) => Some((encode_g1(add_spec(bn254_p(), a, b)), GAS_BN256_ADD as nat)),
            _ => None,
        }
    }
}

/// ECMUL's outcome: 6000 gas; a point and a scalar read from the zero-padded input.
pub open spec fn ecmul_outcome(input: Seq<u8>, available: u64) -> Option<(Seq<u8>, nat)> {
    if available < GAS_BN256_MUL {
        None
    } else {
        match decode_g1(read_bytes(input, 0, 64)) {
            Some(a) => Some(
                (
                    encode_g1(ladder(bn254_p(), be_val(read_bytes(input, 64, 32)), None, a)),
                    GAS_BN256_MUL as nat,
                ),
            ),
            None => None,
        }
    }
}

/// Decodes a G1 point from 64 bytes.
fn decode_bn254_g1(bytes: &[u8]) -> (r: Result<AffinePoint, PrecompileError>)
    requires
        bytes@.len() == 64,
    ensures
        match decode_g1(bytes@) {
            Some(pt) => r matches Ok(a) && a@ == pt,
            None => r == Err::<AffinePoint, PrecompileError>(PrecompileError::OutOfGas),
        },
{
    let x = U256::from_be_slice(&bytes[0..32]);
    let y = U256::from_be_slice(&bytes[32..64]);
    let p = bn254_field_modulus();
    if x.ge(&p) || y.ge(&p) {
        return Err(PrecompileError::OutOfGas);
    }
    if x.is_zero() && y.is_zero() {
        return Ok(AffinePoint::Infinity);
    }
    if !on_curve_mod(x, y, U256::from_u64(3), p) {
        return Err(PrecompileError::OutOfGas);
    }
    Ok(AffinePoint::Point { x, y })
}

/// The 64-byte encoding of a point.
fn encode_bn254_g1(pt: AffinePoint) -> (r: Vec<u8>)
    ensures
        r@ == encode_g1(pt@),
{
    match pt {
        AffinePoint::Infinity => {
            let mut out: Vec<u8> = Vec::new();
            let mut i: usize = 0;
            while i < 64
                invariant
                    i <= 64,
                    out@ == zeros(i as nat),
                decreases 64 - i,
            {
                out.push(0);
                i = i + 1;
                proof {
                    assert(out@ =~= zeros(i as nat));
                }
            }
            out
        },
        AffinePoint::Point { x, y } => {
            let mut out: Vec<u8> = Vec::new();
            crate::types::extend_bytes(&mut out, &x.to_be_bytes());
            crate::types::extend_bytes(&mut out, &y.to_be_bytes());
            out
        },
    }
}

/// ECADD.
fn ecadd_precompile(input: &[u8], available_gas: u64) -> (r: Result<PrecompileResult, PrecompileError>)
    ensures
        outcome_is(r, ecadd_outcome(input@, available_gas)),
{
    if available_gas < GAS_BN256_ADD {
        return Err(PrecompileError::OutOfGas);
    }
    let first = slice_padded(input, 0, 64);
    let second = slice_padded(input, 64, 64);
    let point_0 = decode_bn254_g1(first.as_slice())?;
    let point_1 = decode_bn254_g1(second.as_slice())?;
    let p = bn254_field_modulus();
    proof {
        crate::crypto::secp256k1_point::lemma_reduced_ops(bn254_p(), point_0@, point_1@);
    }
    let result = point_add_mod(point_0, point_1, p);
    Ok(PrecompileResult { output: encode_bn254_g1(result), gas_used: GAS_BN256_ADD })
}

/// ECMUL.
fn ecmul_precompile(input: &[u8], available_gas: u64) -> (r: Result<PrecompileResult, PrecompileError>)
    ensures
        outcome_is(r, ecmul_outcome(input@, available_gas)),
{
    if available_gas < GAS_BN256_MUL {
        return Err(PrecompileError::OutOfGas);
    }
    let encoded = slice_padded(input, 0, 64);
    let point = decode_bn254_g1(encoded.as_slice())?;
    let scalar_bytes = slice_padded(input, 64, 32);
    let scalar = U256::from_be_slice(scalar_bytes.as_slice());
    let p = bn254_field_modulus();
    proof {
        crate::crypto::secp256k1_point::lemma_reduced_ladder(bn254_p(), scalar@, None, point@);
    }
    let result = ladder_mul(scalar, point, p);
    Ok(PrecompileResult { output: encode_bn254_g1(result), gas_used: GAS_BN256_MUL })
}

// =============================================================================
// Fixed-width big-endian arithmetic for MODEXP
// =============================================================================

/// `256^k`.
pub open spec fn p256(k: nat) -> nat {
    pow(256, k) as nat
}

/// Bit `k` of a byte string, most significant bit of the first byte first.
pub open spec fn bit_at(b: Seq<u8>, k: nat) -> nat {
    ((b[(k / 8) as int] >> ((7 - k % 8) as u8)) & 1u8) as nat
}

/// The number formed by the first `k` bits of a byte string.
pub open spec fn bits_val(b: Seq<u8>, k: nat) -> nat
    decreases k,
{
    if k == 0 {
        0
    } else {
        2 * bits_val(b, (k - 1) as nat) + bit_at(b, (k - 1) as nat)
    }
}

/// The value of `s[i..]` is its first byte's share plus the rest.
proof fn lemma_be_val_split(s: Seq<u8>, i: int)
    requires
        0 <= i < s.len(),
    ensures
        be_val(s.subrange(i, s.len() as int)) == s[i] * p256((s.len() - 1 - i) as nat) + be_val(
            s.subrange(i + 1, s.len() as int),
        ),
{
    let rest = s.subrange(i + 1, s.len() as int);
    let one = seq![s[i]];
    assert(one + rest =~= s.subrange(i, s.len() as int));
    lemma_be_val_append(one, rest);
    assert(one.drop_last() =~= Seq::<u8>::empty());
    assert(be_val(Seq::<u8>::empty()) == 0);
    assert(one.last() == s[i]);
    assert(be_val(one) == s[i]);
    lemma_pow_positive(256, rest.len());
}

/// The value of the first `i + 1` bytes.
proof fn lemma_be_val_take(s: Seq<u8>, i: int)
    requires
        0 <= i < s.len(),
    ensures
        be_val(s.subrange(0, i + 1)) == be_val(s.subrange(0, i)) * 256 + s[i],
{
    assert(s.subrange(0, i + 1).drop_last() =~= s.subrange(0, i));
}

/// Eight more bits append a byte.
proof fn lemma_bits_byte(b: Seq<u8>, i: nat)
    requires
        i < b.len(),
    ensures
        bits_val(b, 8 * i + 8) == 256 * bits_val(b, 8 * i) + b[i as int],
{
    let x = b[i as int];
    let v = bits_val(b, 8 * i);
    assert forall|j: nat| j <= 8 implies bits_val(b, 8 * i + j) == pow(2, j) * v + (x >> ((8 - j) as u8)) by {
        lemma_bits_prefix(b, i, j);
    }
    assert(pow(2, 8) == 256) by {
        reveal_with_fuel(pow, 9);
    }
    assert(x >> 0u8 == x) by (bit_vector);
}

/// The first `j ≤ 8` bits of byte `i`.
proof fn lemma_bits_prefix(b: Seq<u8>, i: nat, j: nat)
    requires
        i < b.len(),
        j <= 8,
    ensures
        bits_val(b, 8 * i + j) == pow(2, j) * bits_val(b, 8 * i) + (b[i as int] >> ((8 - j) as u8)),
    decreases j,
{
    let x = b[i as int];
    let v = bits_val(b, 8 * i);
    if j == 0 {
        reveal(pow);
        assert(x >> 8u8 == 0) by (bit_vector);
    } else {
        let jj = (j - 1) as nat;
        lemma_bits_prefix(b, i, jj);
        let k = 8 * i + jj;
        assert(k / 8 == i && k % 8 == jj) by (nonlinear_arith)
            requires
                k == 8 * i + jj,
                jj < 8,
        ;
        let sh = (8 - j) as u8;
        assert(2 * (x >> ((sh + 1) as u8)) + ((x >> sh) & 1u8) == x >> sh) by (bit_vector)
            requires
                sh < 8,
        ;
        reveal(pow);
        assert(pow(2, j) == 2 * pow(2, jj));
        assert(bits_val(b, 8 * i + j) == 2 * bits_val(b, k) + bit_at(b, k));
        assert(bits_val(b, 8 * i + j) == 2 * (pow(2, jj) * v + (x >> ((sh + 1) as u8))) + ((x >> sh) & 1u8));
        assert(2 * (pow(2, jj) * v) == pow(2, j) * v) by (nonlinear_arith)
            requires
                pow(2, j) == 2 * pow(2, jj),
        ;
    }
}

/// All the bits of a byte string make its big-endian value.
proof fn lemma_bits_val_full(b: Seq<u8>, n: nat)
    requires
        n <= b.len(),
    ensures
        bits_val(b, 8 * n) == be_val(b.subrange(0, n as int)),
    decreases n,
{
    if n == 0 {
        assert(b.subrange(0, 0) =~= Seq::<u8>::empty());
    } else {
        lemma_bits_val_full(b, (n - 1) as nat);
        lemma_bits_byte(b, (n - 1) as nat);
        lemma_be_val_take(b, n - 1);
        assert(8 * n == 8 * (n - 1) + 8);
    }
}

/// `n` zero bytes.
fn zero_bytes(n: usize) -> (r: Vec<u8>)
    ensures
        r@ == zeros(n as nat),
{
    let mut out: Vec<u8> = Vec::new();
    let mut i: usize = 0;
    while i < n
        invariant
            i <= n,
            out@ == zeros(i as nat),
        decreases n - i,
    {
        out.push(0);
        i = i + 1;
        proof {
            assert(out@ =~= zeros(i as nat));
        }
    }
    out
}

/// Sum of two equal-width numbers and the carry out of the top byte.
fn add_bytes(a: &Vec<u8>, b: &Vec<u8>) -> (r: (Vec<u8>, u16))
    requires
        a@.len() == b@.len(),
    ensures
        r.0@.len() == a@.len(),
        r.1 <= 1,
        be_val(r.0@) + r.1 * p256(a@.len()) == be_val(a@) + be_val(b@),
{
    let n = a.len();
    let mut out = zero_bytes(n);
    let mut carry: u16 = 0;
    let mut i = n;
    proof {
        assert(out@.subrange(n as int, n as int) =~= Seq::<u8>::empty());
        assert(a@.subrange(n as int, n as int) =~= Seq::<u8>::empty());
        assert(b@.subrange(n as int, n as int) =~= Seq::<u8>::empty());
        lemma_pow0(256);
    }
    while i > 0
        invariant
            i <= n,
            n == a@.len(),
            a@.len() == b@.len(),
            out@.len() == n,
            carry <= 1,
            be_val(out@.subrange(i as int, n as int)) + carry * p256((n - i) as nat) == be_val(
                a@.subrange(i as int, n as int),
            ) + be_val(b@.subrange(i as int, n as int)),
        decreases i,
    {
        let ghost old_out = out@;
        let ghost c0 = carry;
        i = i - 1;
        let sum: u16 = (a[i] as u16) + (b[i] as u16) + carry;
        out.set(i, (sum % 256) as u8);
        carry = sum / 256;
        proof {
            let k = (n - 1 - i) as nat;
            assert(out@.subrange(i + 1, n as int) =~= old_out.subrange(i + 1, n as int));
            lemma_be_val_split(out@, i as int);
            lemma_be_val_split(a@, i as int);
            lemma_be_val_split(b@, i as int);
            lemma_pow_positive(256, k);
            assert(p256((n - i) as nat) == 256 * p256(k)) by {
                reveal(pow);
                assert((n - i) as nat == k + 1);
            }
            let pk = p256(k);
            assert((sum % 256) as u8 as int * pk + carry * (256 * pk) == (a@[i as int] + b@[i as int] + c0) * pk)
                by (nonlinear_arith)
                requires
                    sum == a@[i as int] + b@[i as int] + c0,
                    carry == sum / 256,
                    sum < 512,
            ;
            assert((a@[i as int] + b@[i as int] + c0) * pk == a@[i as int] * pk + b@[i as int] * pk + c0 * pk)
                by (nonlinear_arith);
        }
    }
    proof {
        assert(out@.subrange(0, n as int) =~= out@);
        assert(a@.subrange(0, n as int) =~= a@);
        assert(b@.subrange(0, n as int) =~= b@);
    }
    (out, carry)
}

/// Difference of two equal-width numbers and the borrow out of the top byte.
fn sub_bytes(a: &Vec<u8>, b: &Vec<u8>) -> (r: (Vec<u8>, bool))
    requires
        a@.len() == b@.len(),
    ensures
        r.0@.len() == a@.len(),
        be_val(a@) + (if r.1 { p256(a@.len()) } else { 0 }) == be_val(b@) + be_val(r.0@),
        r.1 == (be_val(a@) < be_val(b@)),
{
    let n = a.len();
    let mut out = zero_bytes(n);
    let mut borrow: i16 = 0;
    let mut i = n;
    proof {
        assert(out@.subrange(n as int, n as int) =~= Seq::<u8>::empty());
        assert(a@.subrange(n as int, n as int) =~= Seq::<u8>::empty());
        assert(b@.subrange(n as int, n as int) =~= Seq::<u8>::empty());
        lemma_pow0(256);
    }
    while i > 0
        invariant
            i <= n,
            n == a@.len(),
            a@.len() == b@.len(),
            out@.len() == n,
            0 <= borrow <= 1,
            be_val(a@.subrange(i as int, n as int)) + borrow * p256((n - i) as nat) == be_val(
                b@.subrange(i as int, n as int),
            ) + be_val(out@.subrange(i as int, n as int)),
        decreases i,
    {
        let ghost old_out = out@;
        let ghost b0 = borrow;
        i = i - 1;
        let mut d: i16 = (a[i] as i16) - (b[i] as i16) - borrow;
        if d < 0 {
            d = d + 256;
            borrow = 1;
        } else {
            borrow = 0;
        }
        let du = d as u8;
        out.set(i, du);
        proof {
            let k = (n - 1 - i) as nat;
            assert(du as int == d);
            assert(out@.subrange(i + 1, n as int) =~= old_out.subrange(i + 1, n as int));
            lemma_be_val_split(out@, i as int);
            lemma_be_val_split(a@, i as int);
            lemma_be_val_split(b@, i as int);
            lemma_pow_positive(256, k);
            assert(p256((n - i) as nat) == 256 * p256(k)) by {
                reveal(pow);
                assert((n - i) as nat == k + 1);
            }
            let pk = p256(k);
            let (ai, bi, bw, bo, dd) = (a@[i as int] as int, b@[i as int] as int, borrow as int, b0 as int, du as int);
            assert(ai + 256 * bw == bi + dd + bo);
            assert(ai * pk + bw * (256 * pk) == bi * pk + dd * pk + bo * pk) by (nonlinear_arith)
                requires
                    ai + 256 * bw == bi + dd + bo,
            ;
        }
    }
    proof {
        assert(out@.subrange(0, n as int) =~= out@);
        assert(a@.subrange(0, n as int) =~= a@);
        assert(b@.subrange(0, n as int) =~= b@);
        lemma_be_val_bound(out@);
        lemma_be_val_bound(a@);
    }
    (out, borrow == 1)
}

/// `(a + b) mod m` for `a < m` and `b ≤ m`, all of one width in which `2m` fits.
fn add_mod(a: &Vec<u8>, b: &Vec<u8>, m: &Vec<u8>) -> (r: Vec<u8>)
    requires
        a@.len() == m@.len(),
        b@.len() == m@.len(),
        be_val(a@) < be_val(m@),
        be_val(b@) <= be_val(m@),
        2 * be_val(m@) <= p256(m@.len()),
    ensures
        r@.len() == m@.len(),
        be_val(r@) == (be_val(a@) + be_val(b@)) % be_val(m@),
{
    let (sum, carry) = add_bytes(a, b);
    proof {
        let (x, y, q) = (be_val(a@) as int, be_val(b@) as int, be_val(m@) as int);
        let pw = p256(m@.len());
        assert(x + y < pw);
        if carry == 1 {
            assert(be_val(sum@) + pw == x + y);
        }
        assert(carry == 0);
        assert(be_val(sum@) == x + y);
    }
    let (diff, borrow) = sub_bytes(&sum, m);
    proof {
        let (x, y, q) = (be_val(a@) as int, be_val(b@) as int, be_val(m@) as int);
        lemma_be_val_bound(sum@);
        if borrow {
            lemma_small_mod((x + y) as nat, q as nat);
        } else {
            lemma_fundamental_div_mod_converse(x + y, q, 1, x + y - q);
        }
    }
    if borrow {
        sum
    } else {
        diff
    }
}

/// `(a · b) mod m` for `a < m`, by double-and-add over the bits of `b`, most
/// significant first.
fn mul_mod(a: &Vec<u8>, b: &Vec<u8>, m: &Vec<u8>) -> (r: Vec<u8>)
    requires
        a@.len() == m@.len(),
        be_val(a@) < be_val(m@),
        2 * be_val(m@) <= p256(m@.len()),
    ensures
        r@.len() == m@.len(),
        be_val(r@) == (be_val(a@) * be_val(b@)) % be_val(m@),
{
    let w = m.len();
    let mut result = zero_bytes(w);
    let ghost (x, q) = (be_val(a@) as int, be_val(m@) as int);
    proof {
        lemma_be_val_zeros(w as nat);
        assert(zeros(w as nat) =~= Seq::new(w as nat, |i: int| 0u8));
        assert(bits_val(b@, 0) == 0);
        assert(x * 0 == 0);
        lemma_small_mod(0, q as nat);
    }
    let mut i: usize = 0;
    while i < b.len()
        invariant
            i <= b@.len(),
            w == m@.len(),
            a@.len() == w,
            x == be_val(a@),
            q == be_val(m@),
            x < q,
            2 * q <= p256(w as nat),
            result@.len() == w,
            be_val(result@) == (x * bits_val(b@, 8 * i as nat)) % q,
        decreases b@.len() - i,
    {
        let byte = b[i];
        let mut j: u8 = 0;
        while j < 8
            invariant
                i < b@.len(),
                j <= 8,
                byte == b@[i as int],
                w == m@.len(),
                a@.len() == w,
                x == be_val(a@),
                q == be_val(m@),
                x < q,
                2 * q <= p256(w as nat),
                result@.len() == w,
                be_val(result@) == (x * bits_val(b@, (8 * i + j) as nat)) % q,
            decreases 8 - j,
        {
            let ghost k = (8 * i + j) as nat;
            let ghost prev = be_val(result@);
            proof {
                lemma_mod_pos_bound(x * bits_val(b@, k) as int, q);
            }
            result = add_mod(&result, &result, m);
            let bit = (byte >> (7 - j)) & 1;
            proof {
                assert(bit == 0 || bit == 1) by (bit_vector)
                    requires
                        bit == (byte >> ((7 - j) as u8)) & 1u8,
                ;
                assert(k / 8 == i && k % 8 == j) by (nonlinear_arith)
                    requires
                        k == 8 * i + j,
                        j < 8,
                ;
                assert(bit as nat == bit_at(b@, k));
                lemma_mod_pos_bound(2 * prev as int, q);
            }
            let ghost doubled = be_val(result@);
            if bit == 1 {
                result = add_mod(&result, a, m);
            }
            proof {
                let e = bits_val(b@, k);
                assert(bits_val(b@, k + 1) == 2 * e + bit as nat);
                lemma_mul_mod_step(x, e as int, q, bit as int, prev as int, doubled as int, be_val(result@) as int);
            }
            j = j + 1;
        }
        i = i + 1;
    }
    proof {
        lemma_bits_val_full(b@, b@.len());
        assert(b@.subrange(0, b@.len() as int) =~= b@);
    }
    result
}

/// One step of double-and-add: with `prev = x·e mod q`, doubling and adding `x`
/// for a set bit gives `x·(2e + bit) mod q`.
proof fn lemma_mul_mod_step(x: int, e: int, q: int, bit: int, prev: int, doubled: int, next: int)
    requires
        q > 0,
        0 <= x < q,
        bit == 0 || bit == 1,
        prev == (x * e) % q,
        doubled == (prev + prev) % q,
        next == if bit == 1 { (doubled + x) % q } else { doubled },
    ensures
        next == (x * (2 * e + bit)) % q,
{
    lemma_add_mod_noop(x * e, x * e, q);
    assert(x * e + x * e == x * (2 * e)) by (nonlinear_arith);
    if bit == 1 {
        lemma_add_mod_noop(x * (2 * e), x, q);
        lemma_small_mod(x as nat, q as nat);
        lemma_mod_twice(x * (2 * e), q);
        assert(x * (2 * e) + x == x * (2 * e + 1)) by (nonlinear_arith);
    } else {
        assert(2 * e + bit == 2 * e);
    }
}

/// Adding one after reducing reduces the same way.
proof fn lemma_mod_add_one(x: int, q: int)
    requires
        q > 0,
        x >= 0,
    ensures
        ((x % q) + 1) % q == (x + 1) % q,
{
    lemma_fundamental_div_mod(x, q);
    lemma_mod_multiples_vanish(x / q, x % q + 1, q);
    assert(x + 1 == q * (x / q) + (x % q + 1));
}

/// `value mod m` of a byte string of any length, by doubling and adding its bits.
fn bytes_modulo(bytes: &[u8], m: &Vec<u8>) -> (r: Vec<u8>)
    requires
        be_val(m@) > 0,
        2 * be_val(m@) <= p256(m@.len()),
    ensures
        r@.len() == m@.len(),
        be_val(r@) == be_val(bytes@) % be_val(m@),
{
    let w = m.len();
    let mut result = zero_bytes(w);
    let mut one = zero_bytes(w);
    let ghost q = be_val(m@) as int;
    proof {
        assert(bits_val(bytes@, 0) == 0);
        lemma_small_mod(0, q as nat);
        lemma_be_val_zeros(w as nat);
        assert(zeros(w as nat) =~= Seq::new(w as nat, |i: int| 0u8));
        lemma_be_val_bound(m@);
    }
    if w > 0 {
        one.set(w - 1, 1);
        proof {
            assert(one@.drop_last() =~= zeros((w - 1) as nat));
            lemma_be_val_zeros((w - 1) as nat);
            assert(zeros((w - 1) as nat) =~= Seq::new((w - 1) as nat, |i: int| 0u8));
        }
    }
    proof {
        if w == 0 {
            reveal(pow);
        }
        assert(be_val(one@) == 1);
    }
    let mut i: usize = 0;
    while i < bytes.len()
        invariant
            i <= bytes@.len(),
            w == m@.len(),
            q == be_val(m@),
            q > 0,
            2 * q <= p256(w as nat),
            one@.len() == w,
            be_val(one@) == 1,
            result@.len() == w,
            be_val(result@) == (bits_val(bytes@, 8 * i as nat) as int) % q,
        decreases bytes@.len() - i,
    {
        let byte = bytes[i];
        let mut j: u8 = 0;
        while j < 8
            invariant
                i < bytes@.len(),
                j <= 8,
                byte == bytes@[i as int],
                w == m@.len(),
                q == be_val(m@),
                q > 0,
                2 * q <= p256(w as nat),
                one@.len() == w,
                be_val(one@) == 1,
                result@.len() == w,
                be_val(result@) == (bits_val(bytes@, (8 * i + j) as nat) as int) % q,
            decreases 8 - j,
        {
            let ghost k = (8 * i + j) as nat;
            let ghost prev = be_val(result@);
            proof {
                lemma_mod_pos_bound(bits_val(bytes@, k) as int, q);
            }
            result = add_mod(&result, &result, m);
            let bit = (byte >> (7 - j)) & 1;
            proof {
                assert(bit == 0 || bit == 1) by (bit_vector)
                    requires
                        bit == (byte >> ((7 - j) as u8)) & 1u8,
                ;
                assert(k / 8 == i && k % 8 == j) by (nonlinear_arith)
                    requires
                        k == 8 * i + j,
                        j < 8,
                ;
                assert(bit as nat == bit_at(bytes@, k));
                lemma_mod_pos_bound(2 * prev as int, q);
            }
            let ghost doubled = be_val(result@);
            if bit == 1 {
                result = add_mod(&result, &one, m);
            }
            proof {
                let e = bits_val(bytes@, k);
                assert(bits_val(bytes@, k + 1) == 2 * e + bit as nat);
                lemma_add_mod_noop(e as int, e as int, q);
                if bit == 1 {
                    lemma_mod_add_one(2 * e as int, q);
                }
            }
            j = j + 1;
        }
        i = i + 1;
    }
    proof {
        lemma_bits_val_full(bytes@, bytes@.len());
        assert(bytes@.subrange(0, bytes@.len() as int) =~= bytes@);
    }
    result
}

/// `base^e mod m` for `base < m`, by square-and-multiply over the bits of the
/// exponent, most significant first.
fn modular_exponentiation(base: &Vec<u8>, exponent: &[u8], m: &Vec<u8>) -> (r: Vec<u8>)
    requires
        base@.len() == m@.len(),
        be_val(base@) < be_val(m@),
        2 * be_val(m@) <= p256(m@.len()),
    ensures
        r@.len() == m@.len(),
        be_val(r@) == pow(be_val(base@) as int, be_val(exponent@)) % (be_val(m@) as int),
{
    let w = m.len();
    let ghost (x, q) = (be_val(base@) as int, be_val(m@) as int);
    let zero = zero_bytes(w);
    let mut one = zero_bytes(w);
    proof {
        lemma_be_val_zeros(w as nat);
        assert(zeros(w as nat) =~= Seq::new(w as nat, |i: int| 0u8));
        lemma_be_val_bound(m@);
    }
    one.set(w - 1, 1);
    proof {
        assert(one@.drop_last() =~= zeros((w - 1) as nat));
        lemma_be_val_zeros((w - 1) as nat);
        assert(zeros((w - 1) as nat) =~= Seq::new((w - 1) as nat, |i: int| 0u8));
        assert(be_val(one@) == 1);
    }
    let mut result = add_mod(&zero, &one, m);
    proof {
        reveal(pow);
        assert(pow(x, 0) == 1);
    }
    let mut i: usize = 0;
    while i < exponent.len()
        invariant
            i <= exponent@.len(),
            w == m@.len(),
            base@.len() == w,
            x == be_val(base@),
            q == be_val(m@),
            x < q,
            2 * q <= p256(w as nat),
            result@.len() == w,
            be_val(result@) == pow(x, bits_val(exponent@, 8 * i as nat)) % q,
        decreases exponent@.len() - i,
    {
        let byte = exponent[i];
        let mut j: u8 = 0;
        while j < 8
            invariant
                i < exponent@.len(),
                j <= 8,
                byte == exponent@[i as int],
                w == m@.len(),
                base@.len() == w,
                x == be_val(base@),
                q == be_val(m@),
                x < q,
                2 * q <= p256(w as nat),
                result@.len() == w,
                be_val(result@) == pow(x, bits_val(exponent@, (8 * i + j) as nat)) % q,
            decreases 8 - j,
        {
            let ghost k = (8 * i + j) as nat;
            let ghost e = bits_val(exponent@, k);
            let ghost prev = be_val(result@);
            proof {
                lemma_pow_nonneg(x, e);
                lemma_mod_pos_bound(pow(x, e), q);
            }
            result = mul_mod(&result, &result, m);
            let bit = (byte >> (7 - j)) & 1;
            proof {
                assert(bit == 0 || bit == 1) by (bit_vector)
                    requires
                        bit == (byte >> ((7 - j) as u8)) & 1u8,
                ;
                assert(k / 8 == i && k % 8 == j) by (nonlinear_arith)
                    requires
                        k == 8 * i + j,
                        j < 8,
                ;
                assert(bit as nat == bit_at(exponent@, k));
            }
            let ghost squared = be_val(result@);
            if bit == 1 {
                proof {
                    lemma_mod_pos_bound((prev * prev) as int, q);
                }
                result = mul_mod(&result, base, m);
            }
            proof {
                assert(bits_val(exponent@, k + 1) == 2 * e + bit as nat);
                lemma_square_multiply_step(x, e, q, bit as int, prev as int, squared as int, be_val(result@) as int);
            }
            j = j + 1;
        }
        i = i + 1;
    }
    proof {
        lemma_bits_val_full(exponent@, exponent@.len());
        assert(exponent@.subrange(0, exponent@.len() as int) =~= exponent@);
    }
    result
}

/// Powers of a nonnegative number are nonnegative.
proof fn lemma_pow_nonneg(x: int, e: nat)
    requires
        x >= 0,
    ensures
        pow(x, e) >= 0,
    decreases e,
{
    reveal(pow);
    if e > 0 {
        lemma_pow_nonneg(x, (e - 1) as nat);
        lemma_mul_nonnegative(x, pow(x, (e - 1) as nat));
    }
}

/// One step of square-and-multiply: with `prev = x^e mod q`, squaring and
/// multiplying by `x` for a set bit gives `x^(2e + bit) mod q`.
proof fn lemma_square_multiply_step(x: int, e: nat, q: int, bit: int, prev: int, squared: int, next: int)
    requires
        q > 0,
        0 <= x < q,
        bit == 0 || bit == 1,
        prev == pow(x, e) % q,
        squared == (prev * prev) % q,
        next == if bit == 1 { (squared * x) % q } else { squared },
    ensures
        next == pow(x, (2 * e + bit) as nat) % q,
{
    lemma_mul_mod_noop(pow(x, e), pow(x, e), q);
    lemma_pow_adds(x, e, e);
    assert(e + e == 2 * e);
    if bit == 1 {
        lemma_mul_mod_noop(pow(x, 2 * e), x, q);
        lemma_small_mod(x as nat, q as nat);
        lemma_pow_adds(x, 2 * e, 1);
        lemma_pow1(x);
        lemma_mod_twice(pow(x, 2 * e), q);
        lemma_mul_mod_noop_left(pow(x, 2 * e), x, q);
    }
}

// =============================================================================
// MODEXP (EIP-198, gas by EIP-2565)
// =============================================================================

/// `x`, or 2^256 - 1 when it does not fit a word.
pub open spec fn sat256(x: nat) -> nat {
    if x < pow256() {
        x
    } else {
        (pow256() - 1) as nat
    }
}

/// The number of bits of `v` (0 for 0).
pub open spec fn bit_length(v: nat) -> nat
    decreases v,
{
    if v == 0 {
        0
    } else {
        1 + bit_length(v / 2)
    }
}

/// The multiplication complexity: the square of the word count of the longer of
/// base and modulus.
pub open spec fn modexp_complexity_spec(base_len: nat, mod_len: nat) -> nat {
    let longest = if base_len > mod_len { base_len } else { mod_len };
    let words = sat256(longest + 7) / 8;
    sat256(words * words)
}

/// The iteration count: from the bit length of the exponent's first 32 bytes and
/// 8 per further byte; at least 1.
pub open spec fn modexp_iterations_spec(exp_len: nat, exp_head: nat) -> nat {
    let head_bits = if bit_length(exp_head) >= 1 { (bit_length(exp_head) - 1) as nat } else { 0 };
    let count = if exp_len <= 32 && exp_head == 0 {
        0
    } else if exp_len <= 32 {
        head_bits
    } else {
        sat256(sat256(((exp_len - 32) as nat) * 8) + head_bits)
    };
    if count == 0 {
        1
    } else {
        count
    }
}

/// The gas of a MODEXP call: complexity times iterations over 3, at least 200.
pub open spec fn modexp_gas_spec(base_len: nat, mod_len: nat, exp_len: nat, exp_head: nat) -> nat {
    let cost = sat256(modexp_complexity_spec(base_len, mod_len) * modexp_iterations_spec(exp_len, exp_head)) / 3;
    if cost < GAS_MODEXP_BASE {
        GAS_MODEXP_BASE as nat
    } else {
        cost
    }
}

/// The first (at most 32) bytes of the exponent, read where it starts.
pub open spec fn modexp_exp_head(input: Seq<u8>, base_len: nat, exp_len: nat) -> nat {
    let start = sat256(96 + base_len);
    let head_len: nat = if exp_len > 32 { 32 } else { exp_len };
    if start > usize::MAX {
        0
    } else {
        be_val(read_bytes(input, start, head_len))
    }
}

/// `a + b`, or `usize::MAX` when it does not fit.
pub open spec fn sat_usize(x: nat) -> nat {
    if x <= usize::MAX {
        x
    } else {
        usize::MAX as nat
    }
}

/// MODEXP's outcome: three 32-byte lengths, then base, exponent and modulus; the
/// result `base^exp mod m` as many bytes as the modulus has (zeros for a zero
/// modulus, nothing for an empty one), out of gas when the gas does not suffice or
/// a length does not fit in memory.
pub open spec fn modexp_outcome(input: Seq<u8>, available: u64) -> Option<(Seq<u8>, nat)> {
    let bl = be_val(input_word(input, 0));
    let el = be_val(input_word(input, 32));
    let ml = be_val(input_word(input, 64));
    let gas = modexp_gas_spec(bl, ml, el, modexp_exp_head(input, bl, el));
    if gas > available {
        None
    } else if bl == 0 && ml == 0 {
        Some((Seq::empty(), gas))
    } else if bl > usize::MAX || el > usize::MAX || ml > usize::MAX {
        None
    } else {
        let exp_start = sat_usize(96 + bl);
        let mod_start = sat_usize(exp_start + el);
        let m = be_val(read_bytes(input, mod_start, ml));
        if ml == 0 {
            Some((Seq::empty(), gas))
        } else if m == 0 {
            Some((zeros(ml), gas))
        } else {
            Some(
                (
                    be_bytes(
                        (pow(be_val(read_bytes(input, 96, bl)) as int, be_val(read_bytes(input, exp_start, el)))
                            % (m as int)) as nat,
                        ml,
                    ),
                    gas,
                ),
            )
        }
    }
}

/// The number of bits of a word.
fn word_bit_length(v: U256) -> (r: u64)
    ensures
        r == bit_length(v@),
        r <= 256,
{
    let mut x = v;
    let mut n: u64 = 0;
    proof {
        crate::types::lemma_u256_bound(v);
        crate::types::lemma_pow2_radix();
        lemma_bit_length_bound(v@, 256);
    }
    while !x.is_zero()
        invariant
            n + bit_length(x@) == bit_length(v@),
            bit_length(v@) <= 256,
        decreases x@,
    {
        let (half, _) = x.div_rem_small(2);
        x = half;
        n = n + 1;
    }
    n
}

/// A number below `2^k` has at most `k` bits.
proof fn lemma_bit_length_bound(v: nat, k: nat)
    requires
        v < vstd::arithmetic::power2::pow2(k),
    ensures
        bit_length(v) <= k,
    decreases v,
{
    if v > 0 {
        if k == 0 {
            vstd::arithmetic::power2::lemma2_to64();
        } else {
            vstd::arithmetic::power2::lemma_pow2_unfold(k);
            lemma_bit_length_bound(v / 2, (k - 1) as nat);
        }
    }
}

/// `x` when it is at most `usize::MAX`.
fn u256_to_usize(value: U256) -> (r: Option<usize>)
    ensures
        r matches Some(n) ==> n == value@,
        r is None <==> value@ > usize::MAX,
{
    if value.gt(&U256::from_u64(usize::MAX as u64)) {
        return None;
    }
    Some(value.as_u64() as usize)
}

/// The gas of a MODEXP call.
fn modexp_gas_cost(base_length: U256, modulus_length: U256, exponent_length: U256, exponent_head: U256) -> (r: U256)
    ensures
        r@ == modexp_gas_spec(base_length@, modulus_length@, exponent_length@, exponent_head@),
{
    let longest = if base_length.gt(&modulus_length) {
        base_length
    } else {
        modulus_length
    };
    let words = longest.saturating_add(U256::from_u64(7)).div_rem(U256::from_u64(8)).0;
    let complexity = words.saturating_mul(words);
    let head_bits = word_bit_length(exponent_head);
    let head_part: u64 = if head_bits >= 1 {
        head_bits - 1
    } else {
        0
    };
    let mut count = if exponent_length.le(&U256::from_u64(32)) && exponent_head.is_zero() {
        U256::zero()
    } else if exponent_length.le(&U256::from_u64(32)) {
        U256::from_u64(head_part)
    } else {
        exponent_length.saturating_sub(U256::from_u64(32)).saturating_mul(U256::from_u64(8)).saturating_add(
            U256::from_u64(head_part),
        )
    };
    if count.is_zero() {
        count = U256::one();
    }
    let mut cost = complexity.saturating_mul(count).div_rem(U256::from_u64(3)).0;
    if cost.lt(&U256::from_u64(GAS_MODEXP_BASE)) {
        cost = U256::from_u64(GAS_MODEXP_BASE);
    }
    cost
}

/// `a + b`, saturating at `usize::MAX`.
fn sat_add(a: usize, b: usize) -> (r: usize)
    ensures
        r == sat_usize((a + b) as nat),
{
    if a > usize::MAX - b {
        usize::MAX
    } else {
        a + b
    }
}

/// MODEXP.
fn modexp_precompile(input: &[u8], available_gas: u64) -> (r: Result<PrecompileResult, PrecompileError>)
    ensures
        outcome_is(r, modexp_outcome(input@, available_gas)),
{
    let base_length = U256::from_be_slice(slice_padded(input, 0, 32).as_slice());
    let exponent_length = U256::from_be_slice(slice_padded(input, 32, 32).as_slice());
    let modulus_length = U256::from_be_slice(slice_padded(input, 64, 32).as_slice());
    let exp_start_word = U256::from_u64(96).saturating_add(base_length);
    let exp_head_len: usize = if exponent_length.gt(&U256::from_u64(32)) {
        32
    } else {
        exponent_length.as_u64() as usize
    };
    let exponent_head = match u256_to_usize(exp_start_word) {
        Some(start) => U256::from_be_slice(slice_padded(input, start, exp_head_len).as_slice()),
        None => U256::zero(),
    };
    proof {
        lemma_be_val_zeros(exp_head_len as nat);
    }
    let gas_cost = modexp_gas_cost(base_length, modulus_length, exponent_length, exponent_head);
    if gas_cost.gt(&U256::from_u64(available_gas)) {
        return Err(PrecompileError::OutOfGas);
    }
    let gas_used = gas_cost.as_u64();
    if base_length.is_zero() && modulus_length.is_zero() {
        return Ok(PrecompileResult { output: Vec::new(), gas_used });
    }
    let base_len = match u256_to_usize(base_length) {
        Some(n) => n,
        None => {
            return Err(PrecompileError::OutOfGas);
        },
    };
    let exp_len = match u256_to_usize(exponent_length) {
        Some(n) => n,
        None => {
            return Err(PrecompileError::OutOfGas);
        },
    };
    let mod_len = match u256_to_usize(modulus_length) {
        Some(n) => n,
        None => {
            return Err(PrecompileError::OutOfGas);
        },
    };
    let exp_start = sat_add(96, base_len);
    let modulus_start = sat_add(exp_start, exp_len);
    let base_bytes = slice_padded(input, 96, base_len);
    let exponent_bytes = slice_padded(input, exp_start, exp_len);
    let modulus_bytes = slice_padded(input, modulus_start, mod_len);
    if mod_len == 0 {
        return Ok(PrecompileResult { output: Vec::new(), gas_used });
    }
    let mut modulus: Vec<u8> = Vec::new();
    modulus.push(0);
    crate::types::extend_bytes(&mut modulus, modulus_bytes.as_slice());
    let ghost mb = modulus_bytes@;
    let ghost q = be_val(mb);
    proof {
        let z = seq![0u8];
        assert(modulus@ =~= z + mb);
        lemma_be_val_append(z, mb);
        assert(z.drop_last() =~= Seq::<u8>::empty());
        assert(be_val(Seq::<u8>::empty()) == 0);
        assert(z.last() == 0);
        assert(be_val(z) == 0);
        assert(be_val(z) * pow(256, mb.len()) == 0) by (nonlinear_arith)
            requires
                be_val(z) == 0,
        ;
        assert(be_val(z + mb) == be_val(mb));
        lemma_be_val_bound(mb);
        crate::types::lemma_pow256_succ(mod_len as nat);
        assert(be_val(modulus@) == q);
        assert(modulus@.len() == mod_len + 1);
        assert(p256(modulus@.len()) == p256(mod_len as nat) * 256);
        assert(2 * q <= p256(modulus@.len()));
    }
    if is_all_zero(modulus_bytes.as_slice()) {
        proof {
            assert(mb =~= zeros(mod_len as nat));
        }
        return Ok(PrecompileResult { output: zero_bytes(mod_len), gas_used });
    }
    let base = bytes_modulo(base_bytes.as_slice(), &modulus);
    let result = modular_exponentiation(&base, exponent_bytes.as_slice(), &modulus);
    let mut output: Vec<u8> = Vec::new();
    let mut i: usize = 1;
    let result_len = result.len();
    while i <= mod_len
        invariant
            1 <= i <= mod_len + 1,
            result_len == mod_len + 1,
            result@.len() == mod_len + 1,
            output@ == result@.subrange(1, i as int),
        decreases mod_len + 1 - i,
    {
        output.push(result[i]);
        i = i + 1;
        proof {
            assert(output@ =~= result@.subrange(1, i as int));
        }
    }
    proof {
        let v = be_val(result@);
        let tail = result@.subrange(1, mod_len as int + 1);
        lemma_be_val_split(result@, 0);
        assert(result@.subrange(0, mod_len as int + 1) =~= result@);
        lemma_be_val_bound(tail);
        lemma_pow_mod_noop(be_val(base_bytes@) as int, be_val(exponent_bytes@), q as int);
        lemma_pow_nonneg(be_val(base_bytes@) as int, be_val(exponent_bytes@));
        lemma_mod_pos_bound(pow(be_val(base_bytes@) as int, be_val(exponent_bytes@)), q as int);
        if result@[0] != 0 {
            assert(result@[0] * p256(mod_len as nat) >= p256(mod_len as nat)) by (nonlinear_arith)
                requires
                    result@[0] >= 1,
            ;
        }
        assert(be_val(tail) == v);
        lemma_be_bytes_of_be_val(tail);
    }
    Ok(PrecompileResult { output, gas_used })
}

/// Whether every byte is zero.
fn is_all_zero(bytes: &[u8]) -> (r: bool)
    ensures
        r == (forall|i: int| 0 <= i < bytes@.len() ==> bytes@[i] == 0),
        r ==> be_val(bytes@) == 0,
        !r ==> be_val(bytes@) > 0,
{
    let mut i: usize = 0;
    while i < bytes.len()
        invariant
            i <= bytes@.len(),
            forall|j: int| 0 <= j < i ==> bytes@[j] == 0,
        decreases bytes@.len() - i,
    {
        if bytes[i] != 0 {
            proof {
                lemma_be_val_positive(bytes@, i as int);
            }
            return false;
        }
        i = i + 1;
    }
    proof {
        assert(bytes@ =~= Seq::new(bytes@.len(), |j: int| 0u8));
        lemma_be_val_zeros(bytes@.len());
    }
    true
}

/// A nonzero byte makes the value positive.
proof fn lemma_be_val_positive(s: Seq<u8>, i: int)
    requires
        0 <= i < s.len(),
        s[i] != 0,
    ensures
        be_val(s) > 0,
    decreases s.len(),
{
    if i == s.len() - 1 {
    } else {
        lemma_be_val_positive(s.drop_last(), i);
    }
}

} // verus!
