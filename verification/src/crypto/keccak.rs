//! Keccak-256 (the original Keccak padding, as Ethereum uses it): a sponge over the
//! Keccak-f[1600] permutation with a rate of 136 bytes.
//!
//! The state is 25 lanes of 64 bits, lane `x + 5y` at column `x`, row `y`. Each of
//! the 24 rounds applies θ, ρ and π, χ and ι.

use vstd::prelude::*;

verus! {

/// Bytes absorbed per permutation.
pub const KECCAK_RATE_BYTES: usize = 136;

/// Domain delimiter appended to the message before padding.
pub const KECCAK_DELIMITER: u8 = 0x01;

// =============================================================================
// Specification
// =============================================================================

/// Rotation of a lane left by `n < 64` bits.
pub open spec fn rotl(x: u64, n: u32) -> u64 {
    if n == 0 {
        x
    } else {
        (x << n) | (x >> ((64 - n) as u32))
    }
}

/// The ρ rotation offsets, by lane.
pub open spec fn rho_offsets() -> Seq<u32> {
    seq![0u32, 1, 62, 28, 27, 36, 44, 6, 55, 20, 3, 10, 43, 25, 39, 41, 45, 15, 21, 8, 18, 2, 61, 56, 14]
}

/// The ι round constants.
pub open spec fn round_constants() -> Seq<u64> {
    seq![
        0x0000_0000_0000_0001u64,
        0x0000_0000_0000_8082,
        0x8000_0000_0000_808a,
        0x8000_0000_8000_8000,
        0x0000_0000_0000_808b,
        0x0000_0000_8000_0001,
        0x8000_0000_8000_8081,
        0x8000_0000_0000_8009,
        0x0000_0000_0000_008a,
        0x0000_0000_0000_0088,
        0x0000_0000_8000_8009,
        0x0000_0000_8000_000a,
        0x0000_0000_8000_808b,
        0x8000_0000_0000_008b,
        0x8000_0000_0000_8089,
        0x8000_0000_0000_8003,
        0x8000_0000_0000_8002,
        0x8000_0000_0000_0080,
        0x0000_0000_0000_800a,
        0x8000_0000_8000_000a,
        0x8000_0000_8000_8081,
        0x8000_0000_0000_8080,
        0x0000_0000_8000_0001,
        0x8000_0000_8000_8008,
    ]
}

/// θ: the parity of column `x`.
pub open spec fn column_parity(a: Seq<u64>, x: int) -> u64 {
    a[x] ^ a[x + 5] ^ a[x + 10] ^ a[x + 15] ^ a[x + 20]
}

/// θ: the value mixed into every lane of column `x`.
pub open spec fn theta_mix(a: Seq<u64>, x: int) -> u64 {
    column_parity(a, (x + 4) % 5) ^ rotl(column_parity(a, (x + 1) % 5), 1)
}

/// θ step.
pub open spec fn theta(a: Seq<u64>) -> Seq<u64> {
    Seq::new(25, |i: int| a[i] ^ theta_mix(a, i % 5))
}

/// The lane that π moves to position `j`: lane (x, y) goes to (y, 2x + 3y mod 5).
pub open spec fn pi_source(j: int) -> int {
    (3 * (j / 5) + j % 5) % 5 + 5 * (j % 5)
}

/// ρ and π steps: each lane rotated by its offset, then moved.
pub open spec fn rho_pi(a: Seq<u64>) -> Seq<u64> {
    Seq::new(25, |j: int| rotl(a[pi_source(j)], rho_offsets()[pi_source(j)]))
}

/// χ step.
pub open spec fn chi(b: Seq<u64>) -> Seq<u64> {
    Seq::new(
        25,
        |i: int|
            {
                let x = i % 5;
                let row = i - x;
                b[i] ^ (!b[(x + 1) % 5 + row] & b[(x + 2) % 5 + row])
            },
    )
}

/// One round with round constant `rc` (ι xors it into lane 0).
pub open spec fn keccak_round(a: Seq<u64>, rc: u64) -> Seq<u64> {
    let b = chi(rho_pi(theta(a)));
    b.update(0, b[0] ^ rc)
}

/// The first `n` rounds of the permutation.
pub open spec fn keccak_rounds(a: Seq<u64>, n: nat) -> Seq<u64>
    decreases n,
{
    if n == 0 {
        a
    } else {
        keccak_round(keccak_rounds(a, (n - 1) as nat), round_constants()[n - 1])
    }
}

/// Keccak-f[1600].
pub open spec fn keccak_f(a: Seq<u64>) -> Seq<u64> {
    keccak_rounds(a, 24)
}

/// The little-endian lane held by 8 bytes.
pub open spec fn le_lane(b: Seq<u8>) -> u64 {
    (b[0] as u64) | ((b[1] as u64) << 8u64) | ((b[2] as u64) << 16u64) | ((b[3] as u64) << 24u64)
        | ((b[4] as u64) << 32u64) | ((b[5] as u64) << 40u64) | ((b[6] as u64) << 48u64) | ((
    b[7] as u64) << 56u64)
}

/// Absorbing a 136-byte block: its 17 lanes are xored into the first 17 lanes.
pub open spec fn absorb(a: Seq<u64>, block: Seq<u8>) -> Seq<u64> {
    Seq::new(
        25,
        |i: int|
            if i < 17 {
                a[i] ^ le_lane(block.subrange(8 * i, 8 * i + 8))
            } else {
                a[i]
            },
    )
}

/// The last block: the remaining bytes, the delimiter, zeros, and the top bit of
/// the final byte set.
pub open spec fn pad_block(tail: Seq<u8>) -> Seq<u8> {
    Seq::new(
        136,
        |i: int|
            {
                let b = if i < tail.len() {
                    tail[i]
                } else if i == tail.len() {
                    KECCAK_DELIMITER
                } else {
                    0u8
                };
                if i == 135 {
                    b | 0x80
                } else {
                    b
                }
            },
    )
}

/// The sponge: absorbs every full block, then the padded last block.
pub open spec fn sponge(a: Seq<u64>, input: Seq<u8>) -> Seq<u64>
    decreases input.len(),
{
    if input.len() >= 136 {
        sponge(keccak_f(absorb(a, input.subrange(0, 136))), input.subrange(136, input.len() as int))
    } else {
        keccak_f(absorb(a, pad_block(input)))
    }
}

/// The 32 output bytes: the first four lanes, little-endian.
pub open spec fn squeeze(a: Seq<u64>) -> Seq<u8> {
    Seq::new(32, |i: int| (a[i / 8] >> ((8 * (i % 8)) as u64)) as u8)
}

/// Keccak-256 of a byte string.
pub open spec fn keccak256_spec(input: Seq<u8>) -> Seq<u8> {
    squeeze(sponge(Seq::new(25, |i: int| 0u64), input))
}

// =============================================================================
// Implementation
// =============================================================================

/// Rotates a lane left by `n < 64` bits.
fn rotl64(x: u64, n: u32) -> (r: u64)
    requires
        n < 64,
    ensures
        r == rotl(x, n),
{
    if n == 0 {
        x
    } else {
        (x << n) | (x >> (64 - n))
    }
}

/// The ρ rotation offsets.
fn rho_table() -> (r: [u32; 25])
    ensures
        r@ == rho_offsets(),
        forall|i: int| 0 <= i < 25 ==> r@[i] < 64,
{
    let r = [0u32, 1, 62, 28, 27, 36, 44, 6, 55, 20, 3, 10, 43, 25, 39, 41, 45, 15, 21, 8, 18, 2, 61, 56, 14];
    proof {
        assert(r@ =~= rho_offsets());
    }
    r
}

/// The ι round constants.
fn round_constant_table() -> (r: [u64; 24])
    ensures
        r@ == round_constants(),
{
    let r = [
        0x0000_0000_0000_0001u64,
        0x0000_0000_0000_8082,
        0x8000_0000_0000_808a,
        0x8000_0000_8000_8000,
        0x0000_0000_0000_808b,
        0x0000_0000_8000_0001,
        0x8000_0000_8000_8081,
        0x8000_0000_0000_8009,
        0x0000_0000_0000_008a,
        0x0000_0000_0000_0088,
        0x0000_0000_8000_8009,
        0x0000_0000_8000_000a,
        0x0000_0000_8000_808b,
        0x8000_0000_0000_008b,
        0x8000_0000_0000_8089,
        0x8000_0000_0000_8003,
        0x8000_0000_0000_8002,
        0x8000_0000_0000_0080,
        0x0000_0000_0000_800a,
        0x8000_0000_8000_000a,
        0x8000_0000_8000_8081,
        0x8000_0000_0000_8080,
        0x0000_0000_8000_0001,
        0x8000_0000_8000_8008,
    ];
    proof {
        assert(r@ =~= round_constants());
    }
    r
}

/// θ in place.
fn theta_step(state: &mut [u64; 25])
    ensures
        final(state)@ == theta(old(state)@),
{
    let ghost a = state@;
    let mut c = [0u64; 5];
    let mut x: usize = 0;
    while x < 5
        invariant
            x <= 5,
            state@ == a,
            a.len() == 25,
            forall|k: int| 0 <= k < x ==> c@[k] == column_parity(a, k),
        decreases 5 - x,
    {
        c[x] = state[x] ^ state[x + 5] ^ state[x + 10] ^ state[x + 15] ^ state[x + 20];
        x = x + 1;
    }
    let mut d = [0u64; 5];
    let mut x: usize = 0;
    while x < 5
        invariant
            x <= 5,
            forall|k: int| 0 <= k < 5 ==> c@[k] == column_parity(a, k),
            forall|k: int| 0 <= k < x ==> d@[k] == theta_mix(a, k),
        decreases 5 - x,
    {
        d[x] = c[(x + 4) % 5] ^ rotl64(c[(x + 1) % 5], 1);
        x = x + 1;
    }
    let mut i: usize = 0;
    while i < 25
        invariant
            i <= 25,
            a.len() == 25,
            state@.len() == 25,
            forall|k: int| 0 <= k < 5 ==> d@[k] == theta_mix(a, k),
            forall|k: int| 0 <= k < i ==> state@[k] == a[k] ^ theta_mix(a, k % 5),
            forall|k: int| i <= k < 25 ==> state@[k] == a[k],
        decreases 25 - i,
    {
        state[i] = state[i] ^ d[i % 5];
        i = i + 1;
    }
    proof {
        assert(state@ =~= theta(a));
    }
}

/// ρ and π: the rotated lanes in their new positions.
fn rho_pi_step(a: &[u64; 25]) -> (b: [u64; 25])
    ensures
        b@ == rho_pi(a@),
{
    let rho = rho_table();
    let mut b = [0u64; 25];
    let mut j: usize = 0;
    while j < 25
        invariant
            j <= 25,
            rho@ == rho_offsets(),
            forall|k: int| 0 <= k < 25 ==> rho@[k] < 64,
            forall|k: int| 0 <= k < j ==> b@[k] == rotl(a@[pi_source(k)], rho_offsets()[pi_source(k)]),
        decreases 25 - j,
    {
        let src = (3 * (j / 5) + j % 5) % 5 + 5 * (j % 5);
        b[j] = rotl64(a[src], rho[src]);
        j = j + 1;
    }
    proof {
        assert(b@ =~= rho_pi(a@));
    }
    b
}

/// χ: each lane combined with the next two in its row.
fn chi_step(b: &[u64; 25]) -> (r: [u64; 25])
    ensures
        r@ == chi(b@),
{
    let mut out = [0u64; 25];
    let mut i: usize = 0;
    while i < 25
        invariant
            i <= 25,
            forall|k: int|
                0 <= k < i ==> out@[k] == b@[k] ^ (!b@[(k % 5 + 1) % 5 + (k - k % 5)] & b@[(k % 5
                    + 2) % 5 + (k - k % 5)]),
        decreases 25 - i,
    {
        let x = i % 5;
        let row = i - x;
        out[i] = b[i] ^ (!b[(x + 1) % 5 + row] & b[(x + 2) % 5 + row]);
        i = i + 1;
    }
    proof {
        assert(out@ =~= chi(b@));
    }
    out
}

/// The Keccak-f[1600] permutation, in place.
fn keccak_f1600(state: &mut [u64; 25])
    ensures
        final(state)@ == keccak_f(old(state)@),
{
    let rc = round_constant_table();
    let ghost a = state@;
    let mut round: usize = 0;
    while round < 24
        invariant
            round <= 24,
            rc@ == round_constants(),
            state@ == keccak_rounds(a, round as nat),
        decreases 24 - round,
    {
        theta_step(state);
        let b = rho_pi_step(state);
        let mut next = chi_step(&b);
        next[0] = next[0] ^ rc[round];
        *state = next;
        round = round + 1;
    }
}

/// The little-endian lane of 8 bytes at `offset`.
pub(crate) fn read_lane(block: &[u8], offset: usize) -> (r: u64)
    requires
        offset + 8 <= block@.len(),
    ensures
        r == le_lane(block@.subrange(offset as int, offset + 8)),
{
    (block[offset] as u64) | ((block[offset + 1] as u64) << 8u64) | ((block[offset + 2] as u64)
        << 16u64) | ((block[offset + 3] as u64) << 24u64) | ((block[offset + 4] as u64) << 32u64)
        | ((block[offset + 5] as u64) << 40u64) | ((block[offset + 6] as u64) << 48u64) | ((
    block[offset + 7] as u64) << 56u64)
}

/// Xors a 136-byte block into the first 17 lanes.
fn absorb_block(state: &mut [u64; 25], block: &[u8])
    requires
        block@.len() == 136,
    ensures
        final(state)@ == absorb(old(state)@, block@),
{
    let ghost a = state@;
    let mut i: usize = 0;
    while i < 17
        invariant
            i <= 17,
            block@.len() == 136,
            state@.len() == 25,
            forall|k: int|
                0 <= k < i ==> state@[k] == a[k] ^ le_lane(block@.subrange(8 * k, 8 * k + 8)),
            forall|k: int| i <= k < 25 ==> state@[k] == a[k],
        decreases 17 - i,
    {
        state[i] = state[i] ^ read_lane(block, 8 * i);
        i = i + 1;
    }
    proof {
        assert(state@ =~= absorb(a, block@));
    }
}

/// Keccak-256 of `input`.
pub fn keccak256(input: &[u8]) -> (r: crate::types::Hash)
    ensures
        r@ == keccak256_spec(input@),
{
    let mut state = [0u64; 25];
    let ghost init = state@;
    proof {
        assert(init =~= Seq::new(25, |i: int| 0u64));
    }
    let mut offset: usize = 0;
    proof {
        assert(input@.subrange(0, input@.len() as int) =~= input@);
    }
    while input.len() - offset >= KECCAK_RATE_BYTES
        invariant
            offset <= input@.len(),
            sponge(state@, input@.subrange(offset as int, input@.len() as int)) == sponge(
                init,
                input@,
            ),
        decreases input@.len() - offset,
    {
        let ghost rest = input@.subrange(offset as int, input@.len() as int);
        absorb_block(&mut state, &input[offset..offset + KECCAK_RATE_BYTES]);
        keccak_f1600(&mut state);
        proof {
            assert(input@.subrange(offset as int, offset + 136) =~= rest.subrange(0, 136));
            assert(input@.subrange(offset + 136, input@.len() as int) =~= rest.subrange(
                136,
                rest.len() as int,
            ));
        }
        offset = offset + KECCAK_RATE_BYTES;
    }
    let ghost tail = input@.subrange(offset as int, input@.len() as int);
    let mut block = [0u8; 136];
    let remaining = input.len() - offset;
    let mut i: usize = 0;
    while i < remaining
        invariant
            i <= remaining < 136,
            input@.len() == input.len(),
            remaining == tail.len(),
            offset + remaining == input@.len(),
            tail == input@.subrange(offset as int, input@.len() as int),
            block@.len() == 136,
            forall|k: int| 0 <= k < i ==> block@[k] == tail[k],
            forall|k: int| i <= k < 136 ==> block@[k] == 0,
        decreases remaining - i,
    {
        block[i] = input[offset + i];
        i = i + 1;
    }
    block[remaining] = KECCAK_DELIMITER;
    block[KECCAK_RATE_BYTES - 1] = block[KECCAK_RATE_BYTES - 1] | 0x80;
    proof {
        assert forall|k: int| 0 <= k < 136 implies block@[k] == pad_block(tail)[k] by {
            if k == 135 && k != remaining {
                assert(0u8 | 0x80u8 == 0x80u8) by (bit_vector);
            }
        }
        assert(block@ =~= pad_block(tail));
    }
    absorb_block(&mut state, &block);
    keccak_f1600(&mut state);
    let mut hash_bytes = [0u8; 32];
    let mut j: usize = 0;
    while j < 32
        invariant
            j <= 32,
            forall|k: int| 0 <= k < j ==> hash_bytes@[k] == (state@[k / 8] >> ((8 * (k % 8)) as u64)) as u8,
        decreases 32 - j,
    {
        hash_bytes[j] = (state[j / 8] >> ((8 * (j % 8)) as u64)) as u8;
        j = j + 1;
    }
    proof {
        assert(hash_bytes@ =~= squeeze(state@));
    }
    crate::types::Hash::new(hash_bytes)
}

} // verus!
