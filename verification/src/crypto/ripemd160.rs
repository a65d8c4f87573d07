//! RIPEMD-160: two parallel lines of 80 rounds over 64-byte blocks, with MD-style
//! padding (a `0x80` byte, zeros, and the bit length in little-endian).
//!
//! The chaining state is five 32-bit words; the working state of a block is ten
//! words, the left line `a b c d e` followed by the right line.

use vstd::prelude::*;
use vstd::wrapping::u32_specs::wrapping_add;

verus! {

// =============================================================================
// Specification
// =============================================================================

/// The initial chaining value.
pub open spec fn rmd_h0() -> Seq<u32> {
    seq![0x67452301u32, 0xefcdab89, 0x98badcfe, 0x10325476, 0xc3d2e1f0]
}

/// Message word order of the left line.
pub open spec fn rmd_r1() -> Seq<u8> {
    seq![
        0u8, 1, 2, 3, 4, 5, 6, 7, 8, 9, 10, 11, 12, 13, 14, 15, 7, 4, 13, 1, 10, 6, 15, 3, 12, 0, 9,
        5, 2, 14, 11, 8, 3, 10, 14, 4, 9, 15, 8, 1, 2, 7, 0, 6, 13, 11, 5, 12, 1, 9, 11, 10, 0, 8,
        12, 4, 13, 3, 7, 15, 14, 5, 6, 2, 4, 0, 5, 9, 7, 12, 2, 10, 14, 1, 3, 8, 11, 6, 15, 13,
    ]
}

/// Message word order of the right line.
pub open spec fn rmd_r2() -> Seq<u8> {
    seq![
        5u8, 14, 7, 0, 9, 2, 11, 4, 13, 6, 15, 8, 1, 10, 3, 12, 6, 11, 3, 7, 0, 13, 5, 10, 14, 15,
        8, 12, 4, 9, 1, 2, 15, 5, 1, 3, 7, 14, 6, 9, 11, 8, 12, 2, 10, 0, 4, 13, 8, 6, 4, 1, 3, 11,
        15, 0, 5, 12, 2, 13, 9, 7, 10, 14, 12, 15, 10, 4, 1, 5, 8, 7, 6, 2, 13, 14, 0, 3, 9, 11,
    ]
}

/// Rotation amounts of the left line.
pub open spec fn rmd_s1() -> Seq<u32> {
    seq![
        11u32, 14, 15, 12, 5, 8, 7, 9, 11, 13, 14, 15, 6, 7, 9, 8, 7, 6, 8, 13, 11, 9, 7, 15, 7, 12,
        15, 9, 11, 7, 13, 12, 11, 13, 6, 7, 14, 9, 13, 15, 14, 8, 13, 6, 5, 12, 7, 5, 11, 12, 14,
        15, 14, 15, 9, 8, 9, 14, 5, 6, 8, 6, 5, 12, 9, 15, 5, 11, 6, 8, 13, 12, 5, 12, 13, 14, 11,
        8, 5, 6,
    ]
}

/// Rotation amounts of the right line.
pub open spec fn rmd_s2() -> Seq<u32> {
    seq![
        8u32, 9, 9, 11, 13, 15, 15, 5, 7, 7, 8, 11, 14, 14, 12, 6, 9, 13, 15, 7, 12, 8, 9, 11, 7, 7,
        12, 7, 6, 15, 13, 11, 9, 7, 15, 11, 8, 6, 6, 14, 12, 13, 5, 14, 13, 13, 7, 5, 15, 5, 8, 11,
        14, 14, 6, 14, 6, 9, 12, 9, 12, 5, 15, 8, 8, 5, 12, 9, 12, 5, 14, 6, 8, 13, 6, 5, 15, 13,
        11, 11,
    ]
}

/// The boolean function of round `j` (the right line uses round `79 - j`).
pub open spec fn rmd_f(j: int, x: u32, y: u32, z: u32) -> u32 {
    if j <= 15 {
        x ^ y ^ z
    } else if j <= 31 {
        (x & y) | (!x & z)
    } else if j <= 47 {
        (x | !y) ^ z
    } else if j <= 63 {
        (x & z) | (y & !z)
    } else {
        x ^ (y | !z)
    }
}

/// The additive constant of round `j`, left line.
pub open spec fn rmd_k1(j: int) -> u32 {
    if j <= 15 {
        0x00000000
    } else if j <= 31 {
        0x5a827999
    } else if j <= 47 {
        0x6ed9eba1
    } else if j <= 63 {
        0x8f1bbcdc
    } else {
        0xa953fd4e
    }
}

/// The additive constant of round `j`, right line.
pub open spec fn rmd_k2(j: int) -> u32 {
    if j <= 15 {
        0x50a28be6
    } else if j <= 31 {
        0x5c4dd124
    } else if j <= 47 {
        0x6d703ef3
    } else if j <= 63 {
        0x7a6d76e9
    } else {
        0x00000000
    }
}

/// Rotation left by `0 < n < 32` bits.
pub open spec fn rotl32(x: u32, n: u32) -> u32 {
    (x << n) | (x >> ((32 - n) as u32))
}

/// A little-endian 32-bit word.
pub open spec fn le_word(b: Seq<u8>) -> u32 {
    (b[0] as u32) | ((b[1] as u32) << 8u32) | ((b[2] as u32) << 16u32) | ((b[3] as u32) << 24u32)
}

/// The sixteen message words of a block.
pub open spec fn block_words(block: Seq<u8>) -> Seq<u32> {
    Seq::new(16, |i: int| le_word(block.subrange(4 * i, 4 * i + 4)))
}

/// One round of a line: `t = rotl(a + f + w + k, s) + e`, then the words shift
/// along with `c` rotated by 10.
pub open spec fn line_round(a: u32, b: u32, c: u32, d: u32, e: u32, fv: u32, w: u32, k: u32, s: u32) -> (
    u32,
    u32,
    u32,
    u32,
    u32,
) {
    let t = wrapping_add(rotl32(wrapping_add(wrapping_add(wrapping_add(a, fv), w), k), s), e);
    (e, t, b, rotl32(c, 10), d)
}

/// Round `j` of both lines on the ten-word working state.
pub open spec fn rmd_round(st: Seq<u32>, w: Seq<u32>, j: int) -> Seq<u32> {
    let l = line_round(
        st[0],
        st[1],
        st[2],
        st[3],
        st[4],
        rmd_f(j, st[1], st[2], st[3]),
        w[rmd_r1()[j] as int],
        rmd_k1(j),
        rmd_s1()[j],
    );
    let r = line_round(
        st[5],
        st[6],
        st[7],
        st[8],
        st[9],
        rmd_f(79 - j, st[6], st[7], st[8]),
        w[rmd_r2()[j] as int],
        rmd_k2(j),
        rmd_s2()[j],
    );
    seq![l.0, l.1, l.2, l.3, l.4, r.0, r.1, r.2, r.3, r.4]
}

/// The first `n` rounds.
pub open spec fn rmd_rounds(st: Seq<u32>, w: Seq<u32>, n: nat) -> Seq<u32>
    decreases n,
{
    if n == 0 {
        st
    } else {
        rmd_round(rmd_rounds(st, w, (n - 1) as nat), w, n - 1)
    }
}

/// The compression function: 80 rounds of both lines from the chaining value,
/// then the lines and the chaining value combined.
pub open spec fn rmd_compress(h: Seq<u32>, block: Seq<u8>) -> Seq<u32> {
    let f = rmd_rounds(h + h, block_words(block), 80);
    seq![
        wrapping_add(wrapping_add(h[1], f[2]), f[8]),
        wrapping_add(wrapping_add(h[2], f[3]), f[9]),
        wrapping_add(wrapping_add(h[3], f[4]), f[5]),
        wrapping_add(wrapping_add(h[4], f[0]), f[6]),
        wrapping_add(wrapping_add(h[0], f[1]), f[7]),
    ]
}

/// The padded last part of a message whose remaining bytes are `tail` (fewer than
/// 64): the bytes, `0x80`, zeros, and the bit length in little-endian in the last
/// eight bytes; one block when that fits, else two.
pub open spec fn rmd_pad(tail: Seq<u8>, bit_len: u64) -> Seq<u8> {
    let n: int = if tail.len() + 9 <= 64 { 64 } else { 128 };
    Seq::new(
        n as nat,
        |i: int|
            if i < tail.len() {
                tail[i]
            } else if i == tail.len() {
                0x80u8
            } else if i >= n - 8 {
                (bit_len >> ((8 * (i - (n - 8))) as u64)) as u8
            } else {
                0u8
            },
    )
}

/// The chaining value after every full block of `input`, then the padded rest.
pub open spec fn rmd_blocks(h: Seq<u32>, input: Seq<u8>, bit_len: u64) -> Seq<u32>
    decreases input.len(),
{
    if input.len() >= 64 {
        rmd_blocks(rmd_compress(h, input.subrange(0, 64)), input.subrange(64, input.len() as int), bit_len)
    } else {
        let p = rmd_pad(input, bit_len);
        let h1 = rmd_compress(h, p.subrange(0, 64));
        if p.len() == 128 {
            rmd_compress(h1, p.subrange(64, 128))
        } else {
            h1
        }
    }
}

/// RIPEMD-160 of a byte string: the final chaining value, each word little-endian.
pub open spec fn ripemd160_spec(input: Seq<u8>) -> Seq<u8> {
    let bit_len = ((input.len() * 8) % 0x1_0000_0000_0000_0000) as u64;
    let h = rmd_blocks(rmd_h0(), input, bit_len);
    Seq::new(20, |i: int| (h[i / 4] >> ((8 * (i % 4)) as u32)) as u8)
}

// =============================================================================
// Implementation
// =============================================================================

/// Rotation left.
fn rotl(x: u32, n: u32) -> (r: u32)
    requires
        0 < n < 32,
    ensures
        r == rotl32(x, n),
{
    (x << n) | (x >> (32 - n))
}

/// The boolean function of round `j`.
fn f(j: usize, x: u32, y: u32, z: u32) -> (r: u32)
    ensures
        r == rmd_f(j as int, x, y, z),
{
    if j <= 15 {
        x ^ y ^ z
    } else if j <= 31 {
        (x & y) | (!x & z)
    } else if j <= 47 {
        (x | !y) ^ z
    } else if j <= 63 {
        (x & z) | (y & !z)
    } else {
        x ^ (y | !z)
    }
}

/// The left constant of round `j`.
fn k1(j: usize) -> (r: u32)
    ensures
        r == rmd_k1(j as int),
{
    if j <= 15 {
        0x00000000
    } else if j <= 31 {
        0x5a827999
    } else if j <= 47 {
        0x6ed9eba1
    } else if j <= 63 {
        0x8f1bbcdc
    } else {
        0xa953fd4e
    }
}

/// The right constant of round `j`.
fn k2(j: usize) -> (r: u32)
    ensures
        r == rmd_k2(j as int),
{
    if j <= 15 {
        0x50a28be6
    } else if j <= 31 {
        0x5c4dd124
    } else if j <= 47 {
        0x6d703ef3
    } else if j <= 63 {
        0x7a6d76e9
    } else {
        0x00000000
    }
}

/// The word-order and rotation tables.
fn round_tables() -> (r: ([u8; 80], [u8; 80], [u32; 80], [u32; 80]))
    ensures
        r.0@ == rmd_r1(),
        r.1@ == rmd_r2(),
        r.2@ == rmd_s1(),
        r.3@ == rmd_s2(),
{
    let r1: [u8; 80] = [
        0, 1, 2, 3, 4, 5, 6, 7, 8, 9, 10, 11, 12, 13, 14, 15, 7, 4, 13, 1, 10, 6, 15, 3, 12, 0, 9,
        5, 2, 14, 11, 8, 3, 10, 14, 4, 9, 15, 8, 1, 2, 7, 0, 6, 13, 11, 5, 12, 1, 9, 11, 10, 0, 8,
        12, 4, 13, 3, 7, 15, 14, 5, 6, 2, 4, 0, 5, 9, 7, 12, 2, 10, 14, 1, 3, 8, 11, 6, 15, 13,
    ];
    let r2: [u8; 80] = [
        5, 14, 7, 0, 9, 2, 11, 4, 13, 6, 15, 8, 1, 10, 3, 12, 6, 11, 3, 7, 0, 13, 5, 10, 14, 15, 8,
        12, 4, 9, 1, 2, 15, 5, 1, 3, 7, 14, 6, 9, 11, 8, 12, 2, 10, 0, 4, 13, 8, 6, 4, 1, 3, 11, 15,
        0, 5, 12, 2, 13, 9, 7, 10, 14, 12, 15, 10, 4, 1, 5, 8, 7, 6, 2, 13, 14, 0, 3, 9, 11,
    ];
    let s1: [u32; 80] = [
        11, 14, 15, 12, 5, 8, 7, 9, 11, 13, 14, 15, 6, 7, 9, 8, 7, 6, 8, 13, 11, 9, 7, 15, 7, 12,
        15, 9, 11, 7, 13, 12, 11, 13, 6, 7, 14, 9, 13, 15, 14, 8, 13, 6, 5, 12, 7, 5, 11, 12, 14,
        15, 14, 15, 9, 8, 9, 14, 5, 6, 8, 6, 5, 12, 9, 15, 5, 11, 6, 8, 13, 12, 5, 12, 13, 14, 11,
        8, 5, 6,
    ];
    let s2: [u32; 80] = [
        8, 9, 9, 11, 13, 15, 15, 5, 7, 7, 8, 11, 14, 14, 12, 6, 9, 13, 15, 7, 12, 8, 9, 11, 7, 7,
        12, 7, 6, 15, 13, 11, 9, 7, 15, 11, 8, 6, 6, 14, 12, 13, 5, 14, 13, 13, 7, 5, 15, 5, 8, 11,
        14, 14, 6, 14, 6, 9, 12, 9, 12, 5, 15, 8, 8, 5, 12, 9, 12, 5, 14, 6, 8, 13, 6, 5, 15, 13,
        11, 11,
    ];
    proof {
        assert(r1@ =~= rmd_r1());
        assert(r2@ =~= rmd_r2());
        assert(s1@ =~= rmd_s1());
        assert(s2@ =~= rmd_s2());
    }
    (r1, r2, s1, s2)
}

/// Reads a little-endian word.
fn read_word(block: &[u8], offset: usize) -> (r: u32)
    requires
        offset + 4 <= block@.len(),
    ensures
        r == le_word(block@.subrange(offset as int, offset + 4)),
{
    (block[offset] as u32) | ((block[offset + 1] as u32) << 8u32) | ((block[offset + 2] as u32)
        << 16u32) | ((block[offset + 3] as u32) << 24u32)
}

/// Compresses one 64-byte block into the chaining value.
#[verifier::rlimit(60)]
fn compress_block(state: &mut [u32; 5], block: &[u8])
    requires
        block@.len() == 64,
    ensures
        final(state)@ == rmd_compress(old(state)@, block@),
{
    let mut w = [0u32; 16];
    let mut i: usize = 0;
    while i < 16
        invariant
            i <= 16,
            block@.len() == 64,
            forall|k: int| 0 <= k < i ==> w@[k] == block_words(block@)[k],
        decreases 16 - i,
    {
        w[i] = read_word(block, 4 * i);
        i = i + 1;
    }
    proof {
        assert(w@ =~= block_words(block@));
    }
    let (r1, r2, s1, s2) = round_tables();
    let ghost h = state@;
    let mut al = state[0];
    let mut bl = state[1];
    let mut cl = state[2];
    let mut dl = state[3];
    let mut el = state[4];
    let mut ar = state[0];
    let mut br = state[1];
    let mut cr = state[2];
    let mut dr = state[3];
    let mut er = state[4];
    proof {
        assert(seq![al, bl, cl, dl, el, ar, br, cr, dr, er] =~= h + h);
    }
    let mut j: usize = 0;
    while j < 80
        invariant
            j <= 80,
            r1@ == rmd_r1(),
            r2@ == rmd_r2(),
            s1@ == rmd_s1(),
            s2@ == rmd_s2(),
            w@ == block_words(block@),
            seq![al, bl, cl, dl, el, ar, br, cr, dr, er] == rmd_rounds(h + h, w@, j as nat),
        decreases 80 - j,
    {
        let ghost st = seq![al, bl, cl, dl, el, ar, br, cr, dr, er];
        let wl = w[r1[j] as usize];
        let t = al.wrapping_add(f(j, bl, cl, dl)).wrapping_add(wl).wrapping_add(k1(j));
        let t = rotl(t, s1[j]).wrapping_add(el);
        al = el;
        el = dl;
        dl = rotl(cl, 10);
        cl = bl;
        bl = t;
        let wr = w[r2[j] as usize];
        let t = ar.wrapping_add(f(79 - j, br, cr, dr)).wrapping_add(wr).wrapping_add(k2(j));
        let t = rotl(t, s2[j]).wrapping_add(er);
        ar = er;
        er = dr;
        dr = rotl(cr, 10);
        cr = br;
        br = t;
        proof {
            assert(seq![al, bl, cl, dl, el, ar, br, cr, dr, er] =~= rmd_round(st, w@, j as int));
        }
        j = j + 1;
    }
    let ghost fin = seq![al, bl, cl, dl, el, ar, br, cr, dr, er];
    let t = state[1].wrapping_add(cl).wrapping_add(dr);
    state[1] = state[2].wrapping_add(dl).wrapping_add(er);
    state[2] = state[3].wrapping_add(el).wrapping_add(ar);
    state[3] = state[4].wrapping_add(al).wrapping_add(br);
    state[4] = state[0].wrapping_add(bl).wrapping_add(cr);
    state[0] = t;
    proof {
        assert(state@ =~= rmd_compress(h, block@));
    }
}

/// RIPEMD-160 digest of `data`.
pub fn ripemd160(data: &[u8]) -> (r: [u8; 20])
    ensures
        r@ == ripemd160_spec(data@),
{
    let mut state: [u32; 5] = [0x67452301, 0xefcdab89, 0x98badcfe, 0x10325476, 0xc3d2e1f0];
    let bit_len = (data.len() as u64).wrapping_mul(8);
    let ghost bl = ((data@.len() * 8) % 0x1_0000_0000_0000_0000) as u64;
    proof {
        assert(state@ =~= rmd_h0());
        assert(bit_len == bl);
        assert(data@.subrange(0, data@.len() as int) =~= data@);
    }
    let mut offset: usize = 0;
    while data.len() - offset >= 64
        invariant
            offset <= data@.len(),
            rmd_blocks(state@, data@.subrange(offset as int, data@.len() as int), bl) == rmd_blocks(
                rmd_h0(),
                data@,
                bl,
            ),
        decreases data@.len() - offset,
    {
        let ghost rest = data@.subrange(offset as int, data@.len() as int);
        compress_block(&mut state, &data[offset..offset + 64]);
        proof {
            assert(data@.subrange(offset as int, offset + 64) =~= rest.subrange(0, 64));
            assert(data@.subrange(offset + 64, data@.len() as int) =~= rest.subrange(
                64,
                rest.len() as int,
            ));
        }
        offset = offset + 64;
    }
    let ghost tail = data@.subrange(offset as int, data@.len() as int);
    let remainder = data.len() - offset;
    let mut buf = [0u8; 128];
    let mut i: usize = 0;
    while i < remainder
        invariant
            i <= remainder < 64,
            data@.len() == data.len(),
            offset + remainder == data@.len(),
            tail == data@.subrange(offset as int, data@.len() as int),
            buf@.len() == 128,
            forall|k: int| 0 <= k < i ==> buf@[k] == tail[k],
            forall|k: int| i <= k < 128 ==> buf@[k] == 0,
        decreases remainder - i,
    {
        buf[i] = data[offset + i];
        i = i + 1;
    }
    buf[remainder] = 0x80;
    let padded_len: usize = if remainder + 1 + 8 <= 64 {
        64
    } else {
        128
    };
    let len_pos = padded_len - 8;
    let mut k: usize = 0;
    while k < 8
        invariant
            k <= 8,
            len_pos == padded_len - 8,
            padded_len == 64 || padded_len == 128,
            remainder < len_pos,
            buf@.len() == 128,
            buf@[remainder as int] == 0x80,
            forall|q: int| 0 <= q < remainder ==> buf@[q] == tail[q],
            forall|q: int| remainder < q < len_pos ==> buf@[q] == 0,
            forall|q: int| len_pos <= q < len_pos + k ==> buf@[q] == (bit_len >> ((8 * (q - len_pos)) as u64)) as u8,
        decreases 8 - k,
    {
        buf[len_pos + k] = (bit_len >> ((8 * k) as u64)) as u8;
        k = k + 1;
    }
    let ghost p = rmd_pad(tail, bl);
    proof {
        assert(buf@.subrange(0, padded_len as int) =~= p);
    }
    compress_block(&mut state, &buf[0..64]);
    proof {
        assert(buf@.subrange(0, 64) =~= p.subrange(0, 64));
    }
    if padded_len == 128 {
        compress_block(&mut state, &buf[64..128]);
        proof {
            assert(buf@.subrange(64, 128) =~= p.subrange(64, 128));
        }
    }
    let mut out = [0u8; 20];
    let mut q: usize = 0;
    while q < 20
        invariant
            q <= 20,
            forall|m: int| 0 <= m < q ==> out@[m] == (state@[m / 4] >> ((8 * (m % 4)) as u32)) as u8,
        decreases 20 - q,
    {
        out[q] = (state[q / 4] >> ((8 * (q % 4)) as u32)) as u8;
        q = q + 1;
    }
    proof {
        assert(out@ =~= Seq::new(20, |m: int| (state@[m / 4] >> ((8 * (m % 4)) as u32)) as u8));
    }
    out
}

} // verus!
