//! SHA-256 (FIPS 180-4): 64 rounds over 64-byte blocks with a 64-word message
//! schedule, and MD-style padding (a `0x80` byte, zeros, and the bit length in
//! big-endian).

use vstd::prelude::*;
use vstd::wrapping::u32_specs::wrapping_add;

verus! {

// =============================================================================
// Specification
// =============================================================================

/// The initial hash value.
pub open spec fn sha_h0() -> Seq<u32> {
    seq![
        0x6a09e667u32, 0xbb67ae85, 0x3c6ef372, 0xa54ff53a, 0x510e527f, 0x9b05688c, 0x1f83d9ab,
        0x5be0cd19,
    ]
}

/// The round constants.
pub open spec fn sha_k() -> Seq<u32> {
    seq![
        0x428a2f98u32, 0x71374491, 0xb5c0fbcf, 0xe9b5dba5, 0x3956c25b, 0x59f111f1, 0x923f82a4,
        0xab1c5ed5, 0xd807aa98, 0x12835b01, 0x243185be, 0x550c7dc3, 0x72be5d74, 0x80deb1fe,
        0x9bdc06a7, 0xc19bf174, 0xe49b69c1, 0xefbe4786, 0x0fc19dc6, 0x240ca1cc, 0x2de92c6f,
        0x4a7484aa, 0x5cb0a9dc, 0x76f988da, 0x983e5152, 0xa831c66d, 0xb00327c8, 0xbf597fc7,
        0xc6e00bf3, 0xd5a79147, 0x06ca6351, 0x14292967, 0x27b70a85, 0x2e1b2138, 0x4d2c6dfc,
        0x53380d13, 0x650a7354, 0x766a0abb, 0x81c2c92e, 0x92722c85, 0xa2bfe8a1, 0xa81a664b,
        0xc24b8b70, 0xc76c51a3, 0xd192e819, 0xd6990624, 0xf40e3585, 0x106aa070, 0x19a4c116,
        0x1e376c08, 0x2748774c, 0x34b0bcb5, 0x391c0cb3, 0x4ed8aa4a, 0x5b9cca4f, 0x682e6ff3,
        0x748f82ee, 0x78a5636f, 0x84c87814, 0x8cc70208, 0x90befffa, 0xa4506ceb, 0xbef9a3f7,
        0xc67178f2,
    ]
}

/// Rotation right by `0 < n < 32` bits.
pub open spec fn rotr(x: u32, n: u32) -> u32 {
    (x >> n) | (x << ((32 - n) as u32))
}

/// `Σ0`.
pub open spec fn big_sigma0(x: u32) -> u32 {
    rotr(x, 2) ^ rotr(x, 13) ^ rotr(x, 22)
}

/// `Σ1`.
pub open spec fn big_sigma1(x: u32) -> u32 {
    rotr(x, 6) ^ rotr(x, 11) ^ rotr(x, 25)
}

/// `σ0`.
pub open spec fn small_sigma0(x: u32) -> u32 {
    rotr(x, 7) ^ rotr(x, 18) ^ (x >> 3u32)
}

/// `σ1`.
pub open spec fn small_sigma1(x: u32) -> u32 {
    rotr(x, 17) ^ rotr(x, 19) ^ (x >> 10u32)
}

/// A big-endian 32-bit word.
pub open spec fn be_word(b: Seq<u8>) -> u32 {
    ((b[0] as u32) << 24u32) | ((b[1] as u32) << 16u32) | ((b[2] as u32) << 8u32) | (b[3] as u32)
}

/// The first `n` words of a block's message schedule.
pub open spec fn schedule(block: Seq<u8>, n: nat) -> Seq<u32>
    decreases n,
{
    if n == 0 {
        Seq::empty()
    } else {
        let s = schedule(block, (n - 1) as nat);
        let t = n - 1;
        if t < 16 {
            s.push(be_word(block.subrange(4 * t, 4 * t + 4)))
        } else {
            s.push(
                wrapping_add(
                    wrapping_add(wrapping_add(small_sigma1(s[t - 2]), s[t - 7]), small_sigma0(s[t - 15])),
                    s[t - 16],
                ),
            )
        }
    }
}

/// Round `t` on the working state `a..h`.
pub open spec fn sha_round(st: Seq<u32>, w: Seq<u32>, t: int) -> Seq<u32> {
    let ch = (st[4] & st[5]) ^ (!st[4] & st[6]);
    let maj = (st[0] & st[1]) ^ (st[0] & st[2]) ^ (st[1] & st[2]);
    let t1 = wrapping_add(
        wrapping_add(wrapping_add(wrapping_add(st[7], big_sigma1(st[4])), ch), sha_k()[t]),
        w[t],
    );
    let t2 = wrapping_add(big_sigma0(st[0]), maj);
    seq![wrapping_add(t1, t2), st[0], st[1], st[2], wrapping_add(st[3], t1), st[4], st[5], st[6]]
}

/// The first `n` rounds.
pub open spec fn sha_rounds(st: Seq<u32>, w: Seq<u32>, n: nat) -> Seq<u32>
    decreases n,
{
    if n == 0 {
        st
    } else {
        sha_round(sha_rounds(st, w, (n - 1) as nat), w, n - 1)
    }
}

/// The compression function.
pub open spec fn sha_compress(h: Seq<u32>, block: Seq<u8>) -> Seq<u32> {
    let f = sha_rounds(h, schedule(block, 64), 64);
    Seq::new(8, |i: int| wrapping_add(h[i], f[i]))
}

/// The padded last part of a message whose remaining bytes are `tail` (fewer than
/// 64): the bytes, `0x80`, zeros, and the bit length in big-endian in the last
/// eight bytes; one block when that fits, else two.
pub open spec fn sha_pad(tail: Seq<u8>, bit_len: u64) -> Seq<u8> {
    let n: int = if tail.len() + 9 <= 64 { 64 } else { 128 };
    Seq::new(
        n as nat,
        |i: int|
            if i < tail.len() {
                tail[i]
            } else if i == tail.len() {
                0x80u8
            } else if i >= n - 8 {
                (bit_len >> ((8 * (n - 1 - i)) as u64)) as u8
            } else {
                0u8
            },
    )
}

/// The hash value after every full block of `input`, then the padded rest.
pub open spec fn sha_blocks(h: Seq<u32>, input: Seq<u8>, bit_len: u64) -> Seq<u32>
    decreases input.len(),
{
    if input.len() >= 64 {
        sha_blocks(sha_compress(h, input.subrange(0, 64)), input.subrange(64, input.len() as int), bit_len)
    } else {
        let p = sha_pad(input, bit_len);
        let h1 = sha_compress(h, p.subrange(0, 64));
        if p.len() == 128 {
            sha_compress(h1, p.subrange(64, 128))
        } else {
            h1
        }
    }
}

/// SHA-256 of a byte string: the final hash value, each word big-endian.
pub open spec fn sha256_spec(input: Seq<u8>) -> Seq<u8> {
    let bit_len = ((input.len() * 8) % 0x1_0000_0000_0000_0000) as u64;
    let h = sha_blocks(sha_h0(), input, bit_len);
    Seq::new(32, |i: int| (h[i / 4] >> ((8 * (3 - i % 4)) as u32)) as u8)
}

// =============================================================================
// Implementation
// =============================================================================

/// Rotation right.
fn rotr32(x: u32, n: u32) -> (r: u32)
    requires
        0 < n < 32,
    ensures
        r == rotr(x, n),
{
    (x >> n) | (x << (32 - n))
}

/// The round constant table.
fn k_table() -> (r: [u32; 64])
    ensures
        r@ == sha_k(),
{
    let k: [u32; 64] = [
        0x428a2f98, 0x71374491, 0xb5c0fbcf, 0xe9b5dba5, 0x3956c25b, 0x59f111f1, 0x923f82a4,
        0xab1c5ed5, 0xd807aa98, 0x12835b01, 0x243185be, 0x550c7dc3, 0x72be5d74, 0x80deb1fe,
        0x9bdc06a7, 0xc19bf174, 0xe49b69c1, 0xefbe4786, 0x0fc19dc6, 0x240ca1cc, 0x2de92c6f,
        0x4a7484aa, 0x5cb0a9dc, 0x76f988da, 0x983e5152, 0xa831c66d, 0xb00327c8, 0xbf597fc7,
        0xc6e00bf3, 0xd5a79147, 0x06ca6351, 0x14292967, 0x27b70a85, 0x2e1b2138, 0x4d2c6dfc,
        0x53380d13, 0x650a7354, 0x766a0abb, 0x81c2c92e, 0x92722c85, 0xa2bfe8a1, 0xa81a664b,
        0xc24b8b70, 0xc76c51a3, 0xd192e819, 0xd6990624, 0xf40e3585, 0x106aa070, 0x19a4c116,
        0x1e376c08, 0x2748774c, 0x34b0bcb5, 0x391c0cb3, 0x4ed8aa4a, 0x5b9cca4f, 0x682e6ff3,
        0x748f82ee, 0x78a5636f, 0x84c87814, 0x8cc70208, 0x90befffa, 0xa4506ceb, 0xbef9a3f7,
        0xc67178f2,
    ];
    proof {
        assert(k@ =~= sha_k());
    }
    k
}

/// Reads a big-endian word.
fn read_word(block: &[u8], offset: usize) -> (r: u32)
    requires
        offset + 4 <= block@.len(),
    ensures
        r == be_word(block@.subrange(offset as int, offset + 4)),
{
    ((block[offset] as u32) << 24u32) | ((block[offset + 1] as u32) << 16u32) | ((block[offset
        + 2] as u32) << 8u32) | (block[offset + 3] as u32)
}

/// Compresses one 64-byte block into the hash value.
#[verifier::rlimit(60)]
fn compress_block(state: &mut [u32; 8], block: &[u8])
    requires
        block@.len() == 64,
    ensures
        final(state)@ == sha_compress(old(state)@, block@),
{
    let mut w = [0u32; 64];
    let mut t: usize = 0;
    while t < 64
        invariant
            t <= 64,
            block@.len() == 64,
            w@.len() == 64,
            forall|i: int| 0 <= i < t ==> w@[i] == schedule(block@, t as nat)[i],
            schedule(block@, t as nat).len() == t,
        decreases 64 - t,
    {
        let ghost prev = schedule(block@, t as nat);
        if t < 16 {
            w[t] = read_word(block, 4 * t);
        } else {
            let s1 = rotr32(w[t - 2], 17) ^ rotr32(w[t - 2], 19) ^ (w[t - 2] >> 10u32);
            let s0 = rotr32(w[t - 15], 7) ^ rotr32(w[t - 15], 18) ^ (w[t - 15] >> 3u32);
            w[t] = s1.wrapping_add(w[t - 7]).wrapping_add(s0).wrapping_add(w[t - 16]);
        }
        proof {
            assert(schedule(block@, (t + 1) as nat) == prev.push(w@[t as int]));
        }
        t = t + 1;
    }
    proof {
        assert(w@ =~= schedule(block@, 64));
    }
    let k = k_table();
    let ghost h = state@;
    let mut a = state[0];
    let mut b = state[1];
    let mut c = state[2];
    let mut d = state[3];
    let mut e = state[4];
    let mut f = state[5];
    let mut g = state[6];
    let mut hh = state[7];
    proof {
        assert(seq![a, b, c, d, e, f, g, hh] =~= h);
    }
    let mut j: usize = 0;
    while j < 64
        invariant
            j <= 64,
            k@ == sha_k(),
            w@ == schedule(block@, 64),
            seq![a, b, c, d, e, f, g, hh] == sha_rounds(h, w@, j as nat),
        decreases 64 - j,
    {
        let ghost st = seq![a, b, c, d, e, f, g, hh];
        let s1 = rotr32(e, 6) ^ rotr32(e, 11) ^ rotr32(e, 25);
        let ch = (e & f) ^ (!e & g);
        let t1 = hh.wrapping_add(s1).wrapping_add(ch).wrapping_add(k[j]).wrapping_add(w[j]);
        let s0 = rotr32(a, 2) ^ rotr32(a, 13) ^ rotr32(a, 22);
        let maj = (a & b) ^ (a & c) ^ (b & c);
        let t2 = s0.wrapping_add(maj);
        hh = g;
        g = f;
        f = e;
        e = d.wrapping_add(t1);
        d = c;
        c = b;
        b = a;
        a = t1.wrapping_add(t2);
        proof {
            assert(seq![a, b, c, d, e, f, g, hh] =~= sha_round(st, w@, j as int));
        }
        j = j + 1;
    }
    state[0] = state[0].wrapping_add(a);
    state[1] = state[1].wrapping_add(b);
    state[2] = state[2].wrapping_add(c);
    state[3] = state[3].wrapping_add(d);
    state[4] = state[4].wrapping_add(e);
    state[5] = state[5].wrapping_add(f);
    state[6] = state[6].wrapping_add(g);
    state[7] = state[7].wrapping_add(hh);
    proof {
        assert(state@ =~= sha_compress(h, block@));
    }
}

/// SHA-256 digest of `data`.
pub fn sha256(data: &[u8]) -> (r: [u8; 32])
    ensures
        r@ == sha256_spec(data@),
{
    let mut state: [u32; 8] = [
        0x6a09e667, 0xbb67ae85, 0x3c6ef372, 0xa54ff53a, 0x510e527f, 0x9b05688c, 0x1f83d9ab,
        0x5be0cd19,
    ];
    let bit_len = (data.len() as u64).wrapping_mul(8);
    let ghost bl = ((data@.len() * 8) % 0x1_0000_0000_0000_0000) as u64;
    proof {
        assert(state@ =~= sha_h0());
        assert(bit_len == bl);
        assert(data@.subrange(0, data@.len() as int) =~= data@);
    }
    let mut offset: usize = 0;
    while data.len() - offset >= 64
        invariant
            offset <= data@.len(),
            sha_blocks(state@, data@.subrange(offset as int, data@.len() as int), bl) == sha_blocks(
                sha_h0(),
                data@,
                bl,
            ),
        decreases data@.len() - offset,
    {
        let ghost rest = data@.subrange(offset as int, data@.len() as int);
        compress_block(&mut state, &data[offset..offset + 64]);
        proof {
            assert(data@.subrange(offset as int, offset + 64) =~= rest.subrange(0, 64));
            assert(data@.subrange(offset + 64, data@.len() as int) =~= rest.subrange(
                64,
                rest.len() as int,
            ));
        }
        offset = offset + 64;
    }
    let ghost tail = data@.subrange(offset as int, data@.len() as int);
    let remainder = data.len() - offset;
    let mut buf = [0u8; 128];
    let mut i: usize = 0;
    while i < remainder
        invariant
            i <= remainder < 64,
            data@.len() == data.len(),
            offset + remainder == data@.len(),
            tail == data@.subrange(offset as int, data@.len() as int),
            buf@.len() == 128,
            forall|k: int| 0 <= k < i ==> buf@[k] == tail[k],
            forall|k: int| i <= k < 128 ==> buf@[k] == 0,
        decreases remainder - i,
    {
        buf[i] = data[offset + i];
        i = i + 1;
    }
    buf[remainder] = 0x80;
    let padded_len: usize = if remainder + 1 + 8 <= 64 {
        64
    } else {
        128
    };
    let mut k: usize = 0;
    while k < 8
        invariant
            k <= 8,
            padded_len == 64 || padded_len == 128,
            remainder < padded_len - 8,
            buf@.len() == 128,
            buf@[remainder as int] == 0x80,
            forall|q: int| 0 <= q < remainder ==> buf@[q] == tail[q],
            forall|q: int| remainder < q < padded_len - 8 ==> buf@[q] == 0,
            forall|q: int| padded_len - k <= q < padded_len ==> buf@[q] == (bit_len >> ((8 * (padded_len - 1 - q)) as u64)) as u8,
        decreases 8 - k,
    {
        buf[padded_len - 1 - k] = (bit_len >> ((8 * k) as u64)) as u8;
        k = k + 1;
    }
    let ghost p = sha_pad(tail, bl);
    proof {
        assert(buf@.subrange(0, padded_len as int) =~= p);
    }
    compress_block(&mut state, &buf[0..64]);
    proof {
        assert(buf@.subrange(0, 64) =~= p.subrange(0, 64));
    }
    if padded_len == 128 {
        compress_block(&mut state, &buf[64..128]);
        proof {
            assert(buf@.subrange(64, 128) =~= p.subrange(64, 128));
        }
    }
    let mut out = [0u8; 32];
    let mut q: usize = 0;
    while q < 32
        invariant
            q <= 32,
            forall|m: int| 0 <= m < q ==> out@[m] == (state@[m / 4] >> ((8 * (3 - m % 4)) as u32)) as u8,
        decreases 32 - q,
    {
        out[q] = (state[q / 4] >> ((8 * (3 - q % 4)) as u32)) as u8;
        q = q + 1;
    }
    proof {
        assert(out@ =~= Seq::new(32, |m: int| (state@[m / 4] >> ((8 * (3 - m % 4)) as u32)) as u8));
    }
    out
}

} // verus!
