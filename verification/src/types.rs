//! Core Ethereum value types: 256-bit words, 512-bit words, addresses and hashes.
//!
//! A `U256` is four little-endian 64-bit limbs; its view is the natural number
//! `l0 + l1·2^64 + l2·2^128 + l3·2^192`. Every arithmetic
//! operation is stated over that number.

use vstd::prelude::*;
use vstd::arithmetic::mul::*;
use vstd::arithmetic::div_mod::*;
use vstd::arithmetic::power::*;

verus! {

// =============================================================================
// Radix constants
// =============================================================================

/// 2^64, the radix of one limb.
pub open spec fn pow64() -> nat {
    18446744073709551616nat
}

/// 2^128.
pub open spec fn pow128() -> nat {
    340282366920938463463374607431768211456nat
}

/// 2^192.
pub open spec fn pow192() -> nat {
    6277101735386680763835789423207666416102355444464034512896nat
}

/// 2^256: the modulus of EVM word arithmetic.
pub open spec fn pow256() -> nat {
    115792089237316195423570985008687907853269984665640564039457584007913129639936nat
}

/// 2^255: the sign bit of a two's-complement word.
pub open spec fn pow255() -> nat {
    57896044618658097711785492504343953926634992332820282019728792003956564819968nat
}

/// The number denoted by four little-endian limbs.
pub open spec fn limbs_val(l0: u64, l1: u64, l2: u64, l3: u64) -> nat {
    (l0 + l1 * 18446744073709551616int + l2 * 340282366920938463463374607431768211456int
        + l3 * 6277101735386680763835789423207666416102355444464034512896int) as nat
}

/// Big-endian value of a byte sequence.
pub open spec fn be_val(s: Seq<u8>) -> nat
    decreases s.len(),
{
    if s.len() == 0 {
        0
    } else {
        (be_val(s.drop_last()) * 256 + s.last()) as nat
    }
}

/// The `i`-th byte (0 = most significant) of the `n`-byte big-endian encoding of `v`.
pub open spec fn be_byte(v: nat, n: nat, i: int) -> u8 {
    ((v / pow(256, (n - 1 - i) as nat) as nat) % 256) as u8
}

/// The `n`-byte big-endian encoding of `v` (truncated to its low `n` bytes).
pub open spec fn be_bytes(v: nat, n: nat) -> Seq<u8> {
    Seq::new(n, |i: int| be_byte(v, n, i))
}

// =============================================================================
// U256
// =============================================================================

/// An unsigned 256-bit integer (EVM word), stored as little-endian 64-bit limbs.
#[derive(Clone, Copy, Debug, PartialEq, Eq, Structural)]
pub struct U256 {
    pub l0: u64,
    pub l1: u64,
    pub l2: u64,
    pub l3: u64,
}

impl View for U256 {
    type V = nat;

    open spec fn view(&self) -> nat {
        limbs_val(self.l0, self.l1, self.l2, self.l3)
    }
}

/// Signed reading of a word in two's complement.
pub open spec fn to_signed(v: nat) -> int {
    if v < pow255() {
        v as int
    } else {
        v - pow256()
    }
}

/// Whether a word is negative in two's complement.
pub open spec fn is_neg(v: nat) -> bool {
    v >= pow255()
}

/// Two's-complement negation of a word.
pub open spec fn neg_word(v: nat) -> nat {
    ((pow256() - v) % (pow256() as int)) as nat
}

/// Magnitude of a word read in two's complement (2^255 for the minimum).
pub open spec fn abs_word(v: nat) -> nat {
    if is_neg(v) {
        (pow256() - v) as nat
    } else {
        v
    }
}

/// Every word is below 2^256.
pub proof fn lemma_u256_bound(x: U256)
    ensures
        x@ < pow256(),
{
}

/// Two words are equal exactly when their values are.
pub proof fn lemma_u256_eq(x: U256, y: U256)
    ensures
        (x == y) <==> (x@ == y@),
{
    if x@ == y@ {
        assert(x.l3 == y.l3);
        assert(x.l2 == y.l2);
        assert(x.l1 == y.l1);
        assert(x.l0 == y.l0);
    }
}

/// Multiply-accumulate on one limb: `x·m + c = hi·2^64 + lo`.
fn mac(x: u64, m: u64, c: u64) -> (r: (u64, u64))
    ensures
        x * m + c == r.1 * pow64() + r.0,
{
    proof {
        lemma_mul_upper_bound(x as int, 0xffff_ffff_ffff_ffff, m as int, 0xffff_ffff_ffff_ffff);
    }
    let t: u128 = (x as u128) * (m as u128) + (c as u128);
    let lo = (t % 0x1_0000_0000_0000_0000u128) as u64;
    let hi = (t / 0x1_0000_0000_0000_0000u128) as u64;
    (lo, hi)
}

/// Add with carry on one limb.
fn adc(x: u64, y: u64, c: u64) -> (r: (u64, u64))
    requires
        c <= 1,
    ensures
        x + y + c == r.1 * pow64() + r.0,
        r.1 <= 1,
{
    let t: u128 = x as u128 + y as u128 + c as u128;
    if t >= 0x1_0000_0000_0000_0000u128 {
        ((t - 0x1_0000_0000_0000_0000u128) as u64, 1)
    } else {
        (t as u64, 0)
    }
}

/// Subtract with borrow on one limb.
fn sbb(x: u64, y: u64, b: u64) -> (r: (u64, u64))
    requires
        b <= 1,
    ensures
        x - y - b == r.0 - r.1 * pow64(),
        r.1 <= 1,
{
    let s: u128 = y as u128 + b as u128;
    if (x as u128) >= s {
        (((x as u128) - s) as u64, 0)
    } else {
        (((x as u128) + 0x1_0000_0000_0000_0000u128 - s) as u64, 1)
    }
}

/// Divide-with-remainder on one limb: `rem·2^64 + x = q·d + r`.
fn div_limb(rem: u64, x: u64, d: u64) -> (r: (u64, u64))
    requires
        d > 0,
        rem < d,
    ensures
        rem * pow64() + x == r.0 * d + r.1,
        r.1 < d,
{
    let t: u128 = (rem as u128) * 0x1_0000_0000_0000_0000u128 + (x as u128);
    let dd = d as u128;
    let q = t / dd;
    let r = t % dd;
    proof {
        lemma_fundamental_div_mod(t as int, dd as int);
        lemma_mod_pos_bound(t as int, dd as int);
        // t < d·2^64, so the quotient fits in one limb.
        assert(t < dd * pow64()) by (nonlinear_arith)
            requires
                t == rem * pow64() + x,
                rem + 1 <= dd,
                x < pow64(),
        ;
        assert(q < pow64()) by (nonlinear_arith)
            requires
                t == dd * q + r,
                r >= 0,
                t < dd * pow64(),
                dd > 0,
        ;
        lemma_mul_is_commutative(dd as int, q as int);
    }
    ((q as u64), (r as u64))
}

impl Default for U256 {
    /// Zero.
    fn default() -> (r: U256)
        ensures
            r@ == 0,
    {
        U256 { l0: 0, l1: 0, l2: 0, l3: 0 }
    }
}

impl From<u64> for U256 {
    /// The word holding a 64-bit value.
    fn from(v: u64) -> (r: U256) {
        U256::from_u64(v)
    }
}

impl vstd::std_specs::convert::FromSpecImpl<u64> for U256 {
    open spec fn obeys_from_spec() -> bool {
        true
    }

    open spec fn from_spec(v: u64) -> U256 {
        U256 { l0: v, l1: 0, l2: 0, l3: 0 }
    }
}

impl U256 {
    /// The word 0.
    pub fn zero() -> (r: U256)
        ensures
            r@ == 0,
    {
        U256 { l0: 0, l1: 0, l2: 0, l3: 0 }
    }

    /// The word 1.
    pub fn one() -> (r: U256)
        ensures
            r@ == 1,
    {
        U256 { l0: 1, l1: 0, l2: 0, l3: 0 }
    }

    /// The largest word, 2^256 - 1.
    pub fn max_value() -> (r: U256)
        ensures
            r@ == pow256() - 1,
    {
        U256 {
            l0: 0xffff_ffff_ffff_ffff,
            l1: 0xffff_ffff_ffff_ffff,
            l2: 0xffff_ffff_ffff_ffff,
            l3: 0xffff_ffff_ffff_ffff,
        }
    }

    /// The word holding a 64-bit value.
    pub fn from_u64(v: u64) -> (r: U256)
        ensures
            r@ == v,
    {
        U256 { l0: v, l1: 0, l2: 0, l3: 0 }
    }

    /// The word holding a 128-bit value.
    pub fn from_u128(v: u128) -> (r: U256)
        ensures
            r@ == v,
    {
        let lo = (v % 0x1_0000_0000_0000_0000u128) as u64;
        let hi = (v / 0x1_0000_0000_0000_0000u128) as u64;
        U256 { l0: lo, l1: hi, l2: 0, l3: 0 }
    }

    /// Whether the word is 0.
    pub fn is_zero(&self) -> (r: bool)
        ensures
            r == (self@ == 0),
    {
        self.l0 == 0 && self.l1 == 0 && self.l2 == 0 && self.l3 == 0
    }

    /// Whether the word is 1.
    pub fn is_one(&self) -> (r: bool)
        ensures
            r == (self@ == 1),
    {
        self.l0 == 1 && self.l1 == 0 && self.l2 == 0 && self.l3 == 0
    }

    /// Equality of values.
    pub fn eq_word(&self, other: &U256) -> (r: bool)
        ensures
            r == (self@ == other@),
            r == (*self == *other),
    {
        proof {
            lemma_u256_eq(*self, *other);
        }
        self.l0 == other.l0 && self.l1 == other.l1 && self.l2
            == other.l2 && self.l3 == other.l3
    }

    /// Unsigned `<`.
    pub fn lt(&self, other: &U256) -> (r: bool)
        ensures
            r == (self@ < other@),
    {
        let a = [self.l0, self.l1, self.l2, self.l3];
        let b = [other.l0, other.l1, other.l2, other.l3];
        if a[3] != b[3] {
            a[3] < b[3]
        } else if a[2] != b[2] {
            a[2] < b[2]
        } else if a[1] != b[1] {
            a[1] < b[1]
        } else {
            a[0] < b[0]
        }
    }

    /// Unsigned `>`.
    pub fn gt(&self, other: &U256) -> (r: bool)
        ensures
            r == (self@ > other@),
    {
        other.lt(self)
    }

    /// Unsigned `<=`.
    pub fn le(&self, other: &U256) -> (r: bool)
        ensures
            r == (self@ <= other@),
    {
        !other.lt(self)
    }

    /// Unsigned `>=`.
    pub fn ge(&self, other: &U256) -> (r: bool)
        ensures
            r == (self@ >= other@),
    {
        !self.lt(other)
    }

    /// Addition with overflow flag: the flag is set exactly when the sum reaches 2^256.
    pub fn overflowing_add(self, other: U256) -> (r: (U256, bool))
        ensures
            self@ + other@ == r.0@ + (if r.1 { pow256() } else { 0 }),
            r.0@ == (self@ + other@) % pow256(),
            r.1 == (self@ + other@ >= pow256()),
    {
        let (l0, c1) = adc(self.l0, other.l0, 0);
        let (l1, c2) = adc(self.l1, other.l1, c1);
        let (l2, c3) = adc(self.l2, other.l2, c2);
        let (l3, c4) = adc(self.l3, other.l3, c3);
        let r = U256 { l0, l1, l2, l3 };
        proof {
            let s = self@ + other@;
            assert(s == r@ + c4 * pow256());
            lemma_fundamental_div_mod_converse(s as int, pow256() as int, c4 as int, r@ as int);
        }
        (r, c4 == 1)
    }

    /// Subtraction with borrow flag: the flag is set exactly when `self < other`.
    pub fn overflowing_sub(self, other: U256) -> (r: (U256, bool))
        ensures
            self@ - other@ == r.0@ - (if r.1 { pow256() } else { 0 }),
            r.0@ == (self@ - other@) % (pow256() as int),
            r.1 == (self@ < other@),
    {
        let (l0, b1) = sbb(self.l0, other.l0, 0);
        let (l1, b2) = sbb(self.l1, other.l1, b1);
        let (l2, b3) = sbb(self.l2, other.l2, b2);
        let (l3, b4) = sbb(self.l3, other.l3, b3);
        let r = U256 { l0, l1, l2, l3 };
        proof {
            let s = self@ - other@;
            assert(s == r@ - b4 * pow256());
            lemma_fundamental_div_mod_converse(s, pow256() as int, -(b4 as int), r@ as int);
        }
        (r, b4 == 1)
    }

    /// Wrapping addition modulo 2^256.
    pub fn wrapping_add(self, other: U256) -> (r: U256)
        ensures
            r@ == (self@ + other@) % pow256(),
    {
        self.overflowing_add(other).0
    }

    /// Wrapping subtraction modulo 2^256.
    pub fn wrapping_sub(self, other: U256) -> (r: U256)
        ensures
            r@ == (self@ - other@) % (pow256() as int),
    {
        self.overflowing_sub(other).0
    }

    /// Saturating addition: the sum, or 2^256 - 1 when it does not fit.
    pub fn saturating_add(self, other: U256) -> (r: U256)
        ensures
            r@ == if self@ + other@ < pow256() { self@ + other@ } else { (pow256() - 1) as nat },
    {
        let (s, o) = self.overflowing_add(other);
        if o {
            U256::max_value()
        } else {
            s
        }
    }

    /// Saturating subtraction: the difference, or 0 when `other > self`.
    pub fn saturating_sub(self, other: U256) -> (r: U256)
        ensures
            r@ == if self@ >= other@ { (self@ - other@) as nat } else { 0 },
    {
        let (s, o) = self.overflowing_sub(other);
        if o {
            U256::zero()
        } else {
            s
        }
    }

    /// Checked addition: `None` exactly when the sum does not fit in 256 bits.
    pub fn checked_add(self, other: U256) -> (r: Option<U256>)
        ensures
            r is Some <==> self@ + other@ < pow256(),
            r matches Some(v) ==> v@ == self@ + other@,
    {
        let (s, o) = self.overflowing_add(other);
        if o {
            None
        } else {
            Some(s)
        }
    }

    /// Checked subtraction: `None` exactly when `other > self`.
    pub fn checked_sub(self, other: U256) -> (r: Option<U256>)
        ensures
            r is Some <==> self@ >= other@,
            r matches Some(v) ==> v@ == self@ - other@,
    {
        let (s, o) = self.overflowing_sub(other);
        if o {
            None
        } else {
            Some(s)
        }
    }

    /// `self · m + c`, split into a 256-bit result and a 64-bit carry.
    pub fn mul_add_small(self, m: u64, c: u64) -> (r: (U256, u64))
        ensures
            self@ * m + c == r.1 * pow256() + r.0@,
    {
        let a = [self.l0, self.l1, self.l2, self.l3];
        let (l0, c1) = mac(a[0], m, c);
        let (l1, c2) = mac(a[1], m, c1);
        let (l2, c3) = mac(a[2], m, c2);
        let (l3, c4) = mac(a[3], m, c3);
        let r = U256 { l0, l1, l2, l3 };
        proof {
            let a0 = a[0] as int;
            let a1 = a[1] as int;
            let a2 = a[2] as int;
            let a3 = a[3] as int;
            let mm = m as int;
            assert(self@ * mm == a0 * mm + (a1 * mm) * pow64() + (a2 * mm) * pow128() + (a3 * mm)
                * pow192()) by (nonlinear_arith)
                requires
                    self@ == a0 + a1 * pow64() + a2 * pow128() + a3 * pow192(),
            ;
        }
        (r, c4)
    }

    /// Division by a nonzero 64-bit value: `self = q·d + rem` with `rem < d`.
    pub fn div_rem_small(self, d: u64) -> (r: (U256, u64))
        requires
            d > 0,
        ensures
            self@ == r.0@ * d + r.1,
            r.1 < d,
            r.0@ == self@ / (d as nat),
            r.1 == self@ % (d as nat),
    {
        let a = [self.l0, self.l1, self.l2, self.l3];
        let (q3, r3) = div_limb(0, a[3], d);
        let (q2, r2) = div_limb(r3, a[2], d);
        let (q1, r1) = div_limb(r2, a[1], d);
        let (q0, r0) = div_limb(r1, a[0], d);
        let q = U256 { l0: q0, l1: q1, l2: q2, l3: q3 };
        proof {
            let dd = d as int;
            assert(q@ * dd == (q0 * dd) + (q1 * dd) * pow64() + (q2 * dd) * pow128() + (q3 * dd)
                * pow192()) by (nonlinear_arith)
                requires
                    q@ == q0 + q1 * pow64() + q2 * pow128() + q3 * pow192(),
            ;
            assert(self@ == q@ * dd + r0);
            lemma_fundamental_div_mod_converse(self@ as int, dd, q@ as int, r0 as int);
        }
        (q, r0)
    }
}


// =============================================================================
// Multiplication, shifts, bitwise operations, division
// =============================================================================

/// One Horner step of word multiplication modulo 2^256.
proof fn lemma_horner_step(r: nat, a: nat, q: nat, bj: nat)
    requires
        r == (a * q) % pow256(),
    ensures
        ((r * pow64()) % pow256() + (a * bj) % pow256()) % pow256() == (a * (q * pow64() + bj))
            % pow256(),
{
    let m = pow256() as int;
    lemma_mul_mod_noop_left((a * q) as int, pow64() as int, m);
    lemma_add_mod_noop(((a * q) * pow64()) as int, (a * bj) as int, m);
    assert(a * (q * pow64() + bj) == (a * q) * pow64() + a * bj) by (nonlinear_arith);
}

/// 2^64 and 2^256 as powers of two.
pub proof fn lemma_pow2_radix()
    ensures
        vstd::arithmetic::power2::pow2(64) == pow64(),
        vstd::arithmetic::power2::pow2(128) == pow128(),
        vstd::arithmetic::power2::pow2(192) == pow192(),
        vstd::arithmetic::power2::pow2(256) == pow256(),
{
    vstd::arithmetic::power2::lemma2_to64_rest();
    vstd::arithmetic::power2::lemma_pow2_adds(64, 64);
    vstd::arithmetic::power2::lemma_pow2_adds(128, 64);
    vstd::arithmetic::power2::lemma_pow2_adds(192, 64);
}

/// 256^32 = 2^256, and 256^n = 2^(8n).
pub proof fn lemma_pow256_bytes()
    ensures
        pow(256, 32) == pow256(),
        pow(256, 8) == pow64(),
{
    reveal_with_fuel(pow, 33);
}

/// Multiplying by 2^(a+b) modulo 2^256 can be done in two steps.
proof fn lemma_mul_pow2_mod_step(x: nat, e1: nat, e2: nat)
    ensures
        (((x * vstd::arithmetic::power2::pow2(e1)) % pow256()) * vstd::arithmetic::power2::pow2(e2))
            % pow256() == (x * vstd::arithmetic::power2::pow2(e1 + e2)) % pow256(),
{
    let p1 = vstd::arithmetic::power2::pow2(e1);
    let p2 = vstd::arithmetic::power2::pow2(e2);
    lemma_mul_mod_noop_left((x * p1) as int, p2 as int, pow256() as int);
    vstd::arithmetic::power2::lemma_pow2_adds(e1, e2);
    lemma_mul_is_associative(x as int, p1 as int, p2 as int);
}

/// Dividing by 2^(a+b) can be done in two steps.
proof fn lemma_div_pow2_step(x: nat, e1: nat, e2: nat)
    ensures
        (x / vstd::arithmetic::power2::pow2(e1)) / vstd::arithmetic::power2::pow2(e2) == x
            / vstd::arithmetic::power2::pow2(e1 + e2),
{
    let p1 = vstd::arithmetic::power2::pow2(e1);
    let p2 = vstd::arithmetic::power2::pow2(e2);
    vstd::arithmetic::power2::lemma_pow2_pos(e1);
    vstd::arithmetic::power2::lemma_pow2_pos(e2);
    lemma_div_denominator(x as int, p1 as int, p2 as int);
    vstd::arithmetic::power2::lemma_pow2_adds(e1, e2);
}

/// One step of shift-and-subtract division: shifting `x · 2^k = p · 2^256 + a`
/// left by one bit moves the top bit of `a` into `p`, which stays at most `x`.
proof fn lemma_div_shift_step(x: nat, k: nat, p: nat, a: nat, a2: nat, bit: nat)
    requires
        k < 256,
        x * vstd::arithmetic::power2::pow2(k) == p * pow256() + a,
        a * 2 + 0 == bit * pow256() + a2,
    ensures
        x * vstd::arithmetic::power2::pow2(k + 1) == (2 * p + bit) * pow256() + a2,
        2 * p + bit <= x,
{
    let pk = vstd::arithmetic::power2::pow2(k);
    let p2 = 2 * p + bit;
    vstd::arithmetic::power2::lemma_pow2_unfold(k + 1);
    assert(x * (2 * pk) == 2 * (x * pk)) by (nonlinear_arith);
    assert(x * vstd::arithmetic::power2::pow2(k + 1) == p2 * pow256() + a2);
    lemma_pow2_radix();
    if k + 1 < 256 {
        vstd::arithmetic::power2::lemma_pow2_strictly_increases(k + 1, 256);
    }
    assert(vstd::arithmetic::power2::pow2(k + 1) <= pow256());
    lemma_mul_inequality(
        vstd::arithmetic::power2::pow2(k + 1) as int,
        pow256() as int,
        x as int,
    );
    lemma_mul_is_commutative(x as int, pow256() as int);
    lemma_mul_is_commutative(x as int, vstd::arithmetic::power2::pow2(k + 1) as int);
    assert(p2 * pow256() <= x * pow256());
    assert(p2 <= x);
}

impl U256 {
    /// The word shifted up by one limb, modulo 2^256.
    fn shl_limb(self) -> (r: U256)
        ensures
            r@ == (self@ * pow64()) % pow256(),
    {
        let r = U256 { l0: 0, l1: self.l0, l2: self.l1, l3: self.l2 };
        proof {
            assert(self@ * pow64() == self.l3 * pow256() + r@);
            lemma_fundamental_div_mod_converse(
                (self@ * pow64()) as int,
                pow256() as int,
                self.l3 as int,
                r@ as int,
            );
        }
        r
    }

    /// The word shifted down by one limb.
    fn shr_limb(self) -> (r: U256)
        ensures
            r@ == self@ / pow64(),
    {
        let r = U256 { l0: self.l1, l1: self.l2, l2: self.l3, l3: 0 };
        proof {
            assert(self@ == r@ * pow64() + self.l0);
            lemma_fundamental_div_mod_converse(self@ as int, pow64() as int, r@ as int, self.l0 as int);
        }
        r
    }

    /// Multiplication modulo 2^256.
    pub fn wrapping_mul(self, other: U256) -> (r: U256)
        ensures
            r@ == (self@ * other@) % pow256(),
    {
        let ghost a = self@;
        let p3 = self.mul_add_small(other.l3, 0);
        let r3 = p3.0;
        proof {
            lemma_fundamental_div_mod_converse(
                (a * other.l3) as int,
                pow256() as int,
                p3.1 as int,
                r3@ as int,
            );
        }
        let ghost q3: nat = other.l3 as nat;
        let p2 = self.mul_add_small(other.l2, 0);
        let r2 = r3.shl_limb().wrapping_add(p2.0);
        proof {
            lemma_fundamental_div_mod_converse(
                (a * other.l2) as int,
                pow256() as int,
                p2.1 as int,
                p2.0@ as int,
            );
            lemma_horner_step(r3@, a, q3, other.l2 as nat);
        }
        let ghost q2: nat = (q3 * pow64() + other.l2) as nat;
        let p1 = self.mul_add_small(other.l1, 0);
        let r1 = r2.shl_limb().wrapping_add(p1.0);
        proof {
            lemma_fundamental_div_mod_converse(
                (a * other.l1) as int,
                pow256() as int,
                p1.1 as int,
                p1.0@ as int,
            );
            lemma_horner_step(r2@, a, q2, other.l1 as nat);
        }
        let ghost q1: nat = (q2 * pow64() + other.l1) as nat;
        let p0 = self.mul_add_small(other.l0, 0);
        let r0 = r1.shl_limb().wrapping_add(p0.0);
        proof {
            lemma_fundamental_div_mod_converse(
                (a * other.l0) as int,
                pow256() as int,
                p0.1 as int,
                p0.0@ as int,
            );
            lemma_horner_step(r1@, a, q1, other.l0 as nat);
            assert(q1 * pow64() + other.l0 == other@);
        }
        r0
    }

    /// Multiplication with overflow flag: the flag is set exactly when the product reaches 2^256.
    pub fn overflowing_mul(self, other: U256) -> (r: (U256, bool))
        ensures
            r.0@ == (self@ * other@) % pow256(),
            r.1 == (self@ * other@ >= pow256()),
    {
        let prod = self.wrapping_mul(other);
        let overflow = if self.is_zero() {
            false
        } else {
            let max = U256::max_value();
            let (lim, _) = max.div_rem(self);
            other.gt(&lim)
        };
        proof {
            if self@ != 0 {
                let m = (pow256() - 1) as nat;
                let q = m / self@;
                lemma_fundamental_div_mod(m as int, self@ as int);
                lemma_mod_pos_bound(m as int, self@ as int);
                if other@ > q {
                    assert(self@ * other@ >= self@ * (q + 1)) by (nonlinear_arith)
                        requires
                            other@ >= q + 1,
                    ;
                    assert(self@ * (q + 1) == self@ * q + self@) by (nonlinear_arith);
                } else {
                    assert(self@ * other@ <= self@ * q) by (nonlinear_arith)
                        requires
                            other@ <= q,
                    ;
                }
            } else {
                assert(self@ * other@ == 0) by (nonlinear_arith)
                    requires
                        self@ == 0,
                ;
            }
        }
        (prod, overflow)
    }

    /// Saturating multiplication: the product, or 2^256 - 1 when it does not fit.
    pub fn saturating_mul(self, other: U256) -> (r: U256)
        ensures
            r@ == if self@ * other@ < pow256() { self@ * other@ } else { (pow256() - 1) as nat },
    {
        let (p, o) = self.overflowing_mul(other);
        if o {
            U256::max_value()
        } else {
            proof {
                lemma_small_mod((self@ * other@) as nat, pow256());
            }
            p
        }
    }

    /// Shift left by `n < 256` bits, modulo 2^256.
    pub fn shl_bits(self, n: u32) -> (r: U256)
        requires
            n < 256,
        ensures
            r@ == (self@ * vstd::arithmetic::power2::pow2(n as nat)) % pow256(),
    {
        let limbs = n / 64;
        let bits = n % 64;
        let mut v = self;
        let mut k: u32 = 0;
        proof {
            vstd::arithmetic::power2::lemma2_to64();
            lemma_small_mod(self@, pow256());
            assert(vstd::arithmetic::power2::pow2((64 * 0u32) as nat) == 1);
        }
        while k < limbs
            invariant
                k <= limbs,
                limbs <= 3,
                v@ == (self@ * vstd::arithmetic::power2::pow2((64 * k) as nat)) % pow256(),
            decreases limbs - k,
        {
            let ghost old_v = v@;
            v = v.shl_limb();
            proof {
                lemma_pow2_radix();
                lemma_mul_pow2_mod_step(self@, (64 * k) as nat, 64);
                assert((64 * k) as nat + 64 == (64 * (k + 1)) as nat);
            }
            k = k + 1;
        }
        proof {
            vstd::bits::lemma_u64_pow2_no_overflow(bits as nat);
            vstd::bits::lemma_u64_shl_is_mul(1u64, bits as u64);
        }
        let m: u64 = 1u64 << (bits as u64);
        let (r, c) = v.mul_add_small(m, 0);
        proof {
            lemma_fundamental_div_mod_converse(
                (v@ * m) as int,
                pow256() as int,
                c as int,
                r@ as int,
            );
            lemma_mul_pow2_mod_step(self@, (64 * limbs) as nat, bits as nat);
            assert((64 * limbs) as nat + bits as nat == n as nat);
        }
        r
    }

    /// Logical shift right by `n < 256` bits.
    pub fn shr_bits(self, n: u32) -> (r: U256)
        requires
            n < 256,
        ensures
            r@ == self@ / vstd::arithmetic::power2::pow2(n as nat),
    {
        let limbs = n / 64;
        let bits = n % 64;
        let mut v = self;
        let mut k: u32 = 0;
        proof {
            vstd::arithmetic::power2::lemma2_to64();
            assert(vstd::arithmetic::power2::pow2((64 * 0u32) as nat) == 1);
        }
        while k < limbs
            invariant
                k <= limbs,
                limbs <= 3,
                v@ == self@ / vstd::arithmetic::power2::pow2((64 * k) as nat),
            decreases limbs - k,
        {
            v = v.shr_limb();
            proof {
                lemma_pow2_radix();
                lemma_div_pow2_step(self@, (64 * k) as nat, 64);
                assert((64 * k) as nat + 64 == (64 * (k + 1)) as nat);
            }
            k = k + 1;
        }
        proof {
            vstd::bits::lemma_u64_pow2_no_overflow(bits as nat);
            vstd::bits::lemma_u64_shl_is_mul(1u64, bits as u64);
        }
        let m: u64 = 1u64 << (bits as u64);
        let (r, _) = v.div_rem_small(m);
        proof {
            lemma_div_pow2_step(self@, (64 * limbs) as nat, bits as nat);
            assert((64 * limbs) as nat + bits as nat == n as nat);
        }
        r
    }

    /// Bitwise AND, limb by limb.
    pub fn bitand(self, other: U256) -> (r: U256)
        ensures
            r.l0 == self.l0 & other.l0,
            r.l1 == self.l1 & other.l1,
            r.l2 == self.l2 & other.l2,
            r.l3 == self.l3 & other.l3,
    {
        U256 {
            l0: self.l0 & other.l0,
            l1: self.l1 & other.l1,
            l2: self.l2 & other.l2,
            l3: self.l3 & other.l3,
        }
    }

    /// Bitwise OR, limb by limb.
    pub fn bitor(self, other: U256) -> (r: U256)
        ensures
            r.l0 == self.l0 | other.l0,
            r.l1 == self.l1 | other.l1,
            r.l2 == self.l2 | other.l2,
            r.l3 == self.l3 | other.l3,
    {
        U256 {
            l0: self.l0 | other.l0,
            l1: self.l1 | other.l1,
            l2: self.l2 | other.l2,
            l3: self.l3 | other.l3,
        }
    }

    /// Bitwise XOR, limb by limb.
    pub fn bitxor(self, other: U256) -> (r: U256)
        ensures
            r.l0 == self.l0 ^ other.l0,
            r.l1 == self.l1 ^ other.l1,
            r.l2 == self.l2 ^ other.l2,
            r.l3 == self.l3 ^ other.l3,
    {
        U256 {
            l0: self.l0 ^ other.l0,
            l1: self.l1 ^ other.l1,
            l2: self.l2 ^ other.l2,
            l3: self.l3 ^ other.l3,
        }
    }

    /// Bitwise NOT: `2^256 - 1 - self`.
    pub fn not(self) -> (r: U256)
        ensures
            r@ == pow256() - 1 - self@,
            r.l0 == !self.l0,
            r.l1 == !self.l1,
            r.l2 == !self.l2,
            r.l3 == !self.l3,
    {
        let r = U256 { l0: !self.l0, l1: !self.l1, l2: !self.l2, l3: !self.l3 };
        proof {
            let (a0, a1, a2, a3) = (self.l0, self.l1, self.l2, self.l3);
            assert(!a0 == 0xffff_ffff_ffff_ffffu64 - a0) by (bit_vector);
            assert(!a1 == 0xffff_ffff_ffff_ffffu64 - a1) by (bit_vector);
            assert(!a2 == 0xffff_ffff_ffff_ffffu64 - a2) by (bit_vector);
            assert(!a3 == 0xffff_ffff_ffff_ffffu64 - a3) by (bit_vector);
        }
        r
    }

    /// Quotient and remainder of division by a nonzero word.
    #[verifier::spinoff_prover]
    #[verifier::rlimit(90)]
    pub fn div_rem(self, d: U256) -> (r: (U256, U256))
        requires
            d@ > 0,
        ensures
            r.0@ == self@ / d@,
            r.1@ == self@ % d@,
    {
        if d.l1 == 0 && d.l2 == 0 && d.l3 == 0 {
            let (q, rm) = self.div_rem_small(d.l0);
            return (q, U256::from_u64(rm));
        }
        let mut a = self;
        let mut q = U256::zero();
        let mut rem = U256::zero();
        let ghost mut p: nat = 0;
        let mut k: u32 = 0;
        proof {
            vstd::arithmetic::power2::lemma2_to64();
        }
        while k < 256
            invariant
                k <= 256,
                d@ > 0,
                self@ * vstd::arithmetic::power2::pow2(k as nat) == p * pow256() + a@,
                q@ * d@ + rem@ == p,
                rem@ < d@,
            decreases 256 - k,
        {
            let ghost pk = vstd::arithmetic::power2::pow2(k as nat);
            let (a2, bit) = a.mul_add_small(2, 0);
            let (r2, rc) = rem.mul_add_small(2, bit);
            let ghost p2: nat = (2 * p + bit) as nat;
            proof {
                lemma_div_shift_step(self@, k as nat, p, a@, a2@, bit as nat);
            }
            if rc != 0 || r2.ge(&d) {
                let nr = r2.wrapping_sub(d);
                proof {
                    let v = rc * pow256() + r2@ - d@;
                    assert(0 <= v < d@);
                    lemma_fundamental_div_mod_converse(r2@ - d@, pow256() as int, -(rc as int), v);
                    assert(q@ * 2 + 1 <= p2) by (nonlinear_arith)
                        requires
                            q@ * d@ + rem@ == p,
                            p2 == 2 * p + bit,
                            2 * rem@ + bit >= d@,
                            d@ >= 1,
                    ;
                }
                let (q2, qc) = q.mul_add_small(2, 1);
                proof {
                    assert(q2@ * d@ + nr@ == p2) by (nonlinear_arith)
                        requires
                            q2@ == q@ * 2 + 1,
                            nr@ == 2 * rem@ + bit - d@,
                            q@ * d@ + rem@ == p,
                            p2 == 2 * p + bit,
                    ;
                }
                q = q2;
                rem = nr;
            } else {
                proof {
                    assert(q@ * 2 <= p2) by (nonlinear_arith)
                        requires
                            q@ * d@ + rem@ == p,
                            p2 == 2 * p + bit,
                            d@ >= 1,
                    ;
                }
                let (q2, qc) = q.mul_add_small(2, 0);
                proof {
                    assert(q2@ * d@ + r2@ == p2) by (nonlinear_arith)
                        requires
                            q2@ == q@ * 2,
                            r2@ == 2 * rem@ + bit,
                            q@ * d@ + rem@ == p,
                            p2 == 2 * p + bit,
                    ;
                }
                q = q2;
                rem = r2;
            }
            a = a2;
            proof {
                p = p2;
            }
            k = k + 1;
        }
        proof {
            lemma_pow2_radix();
            assert(self@ * vstd::arithmetic::power2::pow2(256) == self@ * pow256());
            assert(p == self@);
            lemma_fundamental_div_mod_converse(self@ as int, d@ as int, q@ as int, rem@ as int);
        }
        (q, rem)
    }
}

// =============================================================================
// Big-endian byte encodings
// =============================================================================

/// `256^(n+1) = 256^n · 256`.
pub proof fn lemma_pow256_succ(n: nat)
    ensures
        pow(256, n + 1) == pow(256, n) * 256,
        pow(256, n) > 0,
{
    reveal(pow);
    lemma_pow_positive(256, n);
    assert(pow(256, n + 1) == 256 * pow(256, n));
}

/// The number of bytes needed to write `v` in base 256 (0 for zero).
pub open spec fn significant_bytes(v: nat) -> nat
    decreases v,
{
    if v == 0 {
        0
    } else {
        1 + significant_bytes(v / 256)
    }
}

/// `v` needs `r` bytes exactly when it lies in `[256^(r-1), 256^r)` (or is zero for
/// `r = 0`).
pub proof fn lemma_significant_bytes(v: nat, r: nat)
    requires
        v < pow(256, r),
        r == 0 || v >= pow(256, (r - 1) as nat),
    ensures
        significant_bytes(v) == r,
    decreases r,
{
    reveal(pow);
    if r > 0 {
        let q = pow(256, (r - 1) as nat);
        lemma_pow256_succ((r - 1) as nat);
        assert(pow(256, r) == 256 * q);
        lemma_pow_positive(256, (r - 1) as nat);
        lemma_multiply_divide_lt(v as int, 256, q);
        if r > 1 {
            let q2 = pow(256, (r - 2) as nat);
            lemma_pow256_succ((r - 2) as nat);
            assert(q == 256 * q2);
            lemma_div_is_ordered(256 * q2, v as int, 256);
            lemma_div_multiples_vanish(q2, 256);
        } else {
            assert(v >= 1);
        }
        lemma_significant_bytes(v / 256, (r - 1) as nat);
    }
}

/// The big-endian value of a concatenation.
pub proof fn lemma_be_val_append(s1: Seq<u8>, s2: Seq<u8>)
    ensures
        be_val(s1 + s2) == be_val(s1) * pow(256, s2.len()) + be_val(s2),
    decreases s2.len(),
{
    if s2.len() == 0 {
        assert(s1 + s2 =~= s1);
        reveal(pow);
    } else {
        let s2p = s2.drop_last();
        assert((s1 + s2).drop_last() =~= s1 + s2p);
        lemma_be_val_append(s1, s2p);
        lemma_pow256_succ(s2p.len());
        let x = be_val(s1) as int;
        let pp = pow(256, s2p.len()) as int;
        let y = be_val(s2p) as int;
        assert((x * pp + y) * 256 + s2.last() == x * (pp * 256) + (y * 256 + s2.last()))
            by (nonlinear_arith);
    }
}

/// Zero bytes hold the value zero.
pub proof fn lemma_be_val_zeros(n: nat)
    ensures
        be_val(Seq::new(n, |i: int| 0u8)) == 0,
    decreases n,
{
    if n > 0 {
        assert(Seq::new(n, |i: int| 0u8).drop_last() =~= Seq::new((n - 1) as nat, |i: int| 0u8));
        lemma_be_val_zeros((n - 1) as nat);
    }
}

/// A big-endian value is below `256^len`.
pub proof fn lemma_be_val_bound(s: Seq<u8>)
    ensures
        be_val(s) < pow(256, s.len()),
    decreases s.len(),
{
    reveal(pow);
    if s.len() > 0 {
        lemma_be_val_bound(s.drop_last());
        lemma_pow256_succ(s.drop_last().len());
    }
}

/// The byte encoding of `v` reads back as `v` modulo `256^n`.
pub proof fn lemma_be_val_of_be_bytes(v: nat, n: nat)
    ensures
        be_val(be_bytes(v, n)) == v % (pow(256, n) as nat),
    decreases n,
{
    lemma_pow256_succ(0);
    reveal(pow);
    if n == 0 {
        assert(be_bytes(v, 0).len() == 0);
        assert(pow(256, 0) == 1);
    } else {
        let m = (n - 1) as nat;
        let w = v / 256;
        lemma_be_val_of_be_bytes(w, m);
        assert forall|i: int| 0 <= i < m implies be_bytes(v, n).drop_last()[i] == be_bytes(
            w,
            m,
        )[i] by {
            lemma_pow256_succ((m - 1 - i) as nat);
            lemma_div_denominator(v as int, 256, pow(256, (m - 1 - i) as nat));
            lemma_mul_is_commutative(256, pow(256, (m - 1 - i) as nat));
            assert((n - 1 - i) as nat == (m - 1 - i) as nat + 1);
        }
        assert(be_bytes(v, n).drop_last() =~= be_bytes(w, m));
        assert(be_bytes(v, n).last() == (v % 256) as u8) by {
            assert(pow(256, 0) == 1);
            lemma_div_basics(v as int);
        }
        lemma_pow256_succ(m);
        lemma_breakdown(v as int, 256, pow(256, m));
        lemma_mul_is_commutative(256, pow(256, m));
    }
}

/// The digits of a big-endian value are the bytes it was read from.
pub proof fn lemma_be_bytes_of_be_val(s: Seq<u8>)
    ensures
        be_bytes(be_val(s), s.len()) =~= s,
    decreases s.len(),
{
    reveal(pow);
    if s.len() > 0 {
        let sp = s.drop_last();
        let n = s.len();
        lemma_be_bytes_of_be_val(sp);
        lemma_be_val_bound(sp);
        let v = be_val(s);
        assert(v == be_val(sp) * 256 + s.last());
        assert forall|i: int| 0 <= i < n implies be_bytes(v, n)[i] == s[i] by {
            if i == n - 1 {
                assert(pow(256, 0) == 1);
                lemma_div_basics(v as int);
                lemma_fundamental_div_mod_converse(v as int, 256, be_val(sp) as int, s.last() as int);
            } else {
                let e = (n - 1 - i) as nat;
                lemma_pow256_succ((e - 1) as nat);
                assert(pow(256, e) == pow(256, (e - 1) as nat) * 256);
                lemma_fundamental_div_mod_converse(v as int, 256, be_val(sp) as int, s.last() as int);
                lemma_div_denominator(v as int, 256, pow(256, (e - 1) as nat));
                lemma_mul_is_commutative(256, pow(256, (e - 1) as nat));
                assert(be_bytes(be_val(sp), sp.len())[i] == sp[i]);
                assert((sp.len() - 1 - i) as nat == (e - 1) as nat);
            }
        }
    }
}

impl U256 {
    /// The 32-byte big-endian encoding.
    pub fn to_be_bytes(&self) -> (r: [u8; 32])
        ensures
            r@ == be_bytes(self@, 32),
    {
        let mut out = [0u8; 32];
        let mut cur = *self;
        let mut k: usize = 0;
        proof {
            reveal(pow);
            lemma_div_basics(self@ as int);
        }
        while k < 32
            invariant
                k <= 32,
                out@.len() == 32,
                cur@ == self@ / (pow(256, k as nat) as nat),
                forall|j: int| 32 - k <= j < 32 ==> out@[j] == be_byte(self@, 32, j),
            decreases 32 - k,
        {
            let (q, b) = cur.div_rem_small(256);
            proof {
                lemma_pow256_succ(k as nat);
                lemma_div_denominator(self@ as int, pow(256, k as nat), 256);
                assert((32 - 1 - (31 - k)) as nat == k as nat);
            }
            out[31 - k] = b as u8;
            cur = q;
            k = k + 1;
        }
        proof {
            assert(out@ =~= be_bytes(self@, 32));
        }
        out
    }

    /// The word whose 32-byte big-endian encoding is `bytes`.
    pub fn from_be_bytes(bytes: [u8; 32]) -> (r: U256)
        ensures
            r@ == be_val(bytes@),
    {
        let mut v = U256::zero();
        let mut i: usize = 0;
        proof {
            reveal(pow);
            assert(bytes@.take(0) =~= Seq::<u8>::empty());
        }
        while i < 32
            invariant
                i <= 32,
                v@ == be_val(bytes@.take(i as int)),
            decreases 32 - i,
        {
            let (nv, c) = v.mul_add_small(256, bytes[i] as u64);
            proof {
                assert(bytes@.take(i + 1).drop_last() =~= bytes@.take(i as int));
                lemma_be_val_bound(bytes@.take(i + 1));
                lemma_pow256_bytes();
                if i + 1 < 32 {
                    lemma_pow_strictly_increases(256, (i + 1) as nat, 32);
                }
            }
            v = nv;
            i = i + 1;
        }
        proof {
            assert(bytes@.take(32) =~= bytes@);
        }
        v
    }

    /// The word whose big-endian encoding is the given slice of at most 32 bytes.
    pub fn from_be_slice(bytes: &[u8]) -> (r: U256)
        requires
            bytes@.len() <= 32,
        ensures
            r@ == be_val(bytes@),
    {
        let mut v = U256::zero();
        let mut i: usize = 0;
        proof {
            reveal(pow);
            assert(bytes@.take(0) =~= Seq::<u8>::empty());
        }
        while i < bytes.len()
            invariant
                i <= bytes@.len() <= 32,
                v@ == be_val(bytes@.take(i as int)),
            decreases bytes@.len() - i,
        {
            let (nv, c) = v.mul_add_small(256, bytes[i] as u64);
            proof {
                assert(bytes@.take(i + 1).drop_last() =~= bytes@.take(i as int));
                lemma_be_val_bound(bytes@.take(i + 1));
                lemma_pow256_bytes();
                if i + 1 < 32 {
                    lemma_pow_strictly_increases(256, (i + 1) as nat, 32);
                }
            }
            v = nv;
            i = i + 1;
        }
        proof {
            assert(bytes@.take(bytes@.len() as int) =~= bytes@);
        }
        v
    }

    /// The low 64 bits.
    pub fn low_u64(&self) -> (r: u64)
        ensures
            r == self@ % pow64(),
    {
        proof {
            lemma_fundamental_div_mod_converse(
                self@ as int,
                pow64() as int,
                (self.l1 + self.l2 * pow64() + self.l3 * pow128()) as int,
                self.l0 as int,
            );
        }
        self.l0
    }

    /// The low byte.
    pub fn low_u8(&self) -> (r: u8)
        ensures
            r == self@ % 256,
    {
        let (_, b) = self.div_rem_small(256);
        b as u8
    }

    /// Whether the word fits in 64 bits.
    pub fn fits_u64(&self) -> (r: bool)
        ensures
            r == (self@ < pow64()),
    {
        self.l1 == 0 && self.l2 == 0 && self.l3 == 0
    }

    /// The value as a `usize`, saturating at `usize::MAX`.
    pub fn as_usize(&self) -> (r: usize)
        ensures
            r == if self@ <= usize::MAX { self@ } else { usize::MAX as nat },
    {
        if self.l1 == 0 && self.l2 == 0 && self.l3 == 0 && self.l0 <= usize::MAX as u64 {
            self.l0 as usize
        } else {
            usize::MAX
        }
    }

    /// The value as a `u64`, saturating at `u64::MAX`.
    pub fn as_u64(&self) -> (r: u64)
        ensures
            r == if self@ <= u64::MAX { self@ } else { u64::MAX as nat },
    {
        if self.l1 == 0 && self.l2 == 0 && self.l3 == 0 {
            self.l0
        } else {
            u64::MAX
        }
    }

    /// The number of bytes needed to write the value (0 for zero).
    pub fn byte_len(&self) -> (r: usize)
        ensures
            r <= 32,
            self@ < pow(256, r as nat),
            r == 0 || self@ >= pow(256, (r - 1) as nat),
            r == significant_bytes(self@),
    {
        let mut cur = *self;
        let mut n: usize = 0;
        proof {
            reveal(pow);
            lemma_small_mod(self@, pow256());
            lemma_div_basics(self@ as int);
        }
        while !cur.is_zero()
            invariant
                n <= 32,
                cur@ == self@ / (pow(256, n as nat) as nat),
                n == 0 || self@ >= pow(256, (n - 1) as nat),
            decreases cur@,
        {
            proof {
                lemma_pow256_bytes();
                if n == 32 {
                    lemma_div_basics(self@ as int);
                    assert(self@ < pow(256, 32));
                    lemma_basic_div(self@ as int, pow(256, 32));
                }
                lemma_pow256_succ(n as nat);
                lemma_div_denominator(self@ as int, pow(256, n as nat), 256);
                lemma_fundamental_div_mod(self@ as int, pow(256, n as nat));
                lemma_mod_pos_bound(self@ as int, pow(256, n as nat));
                assert(cur@ >= 1);
                lemma_mul_inequality(1, cur@ as int, pow(256, n as nat));
            }
            let (q, _) = cur.div_rem_small(256);
            cur = q;
            n = n + 1;
        }
        proof {
            lemma_pow256_succ(n as nat);
            lemma_fundamental_div_mod(self@ as int, pow(256, n as nat));
            lemma_mod_pos_bound(self@ as int, pow(256, n as nat));
            lemma_mul_is_commutative(pow(256, n as nat), (self@ / (pow(256, n as nat) as nat)) as int);
        }
        proof {
            lemma_significant_bytes(self@, n as nat);
        }
        n
    }
}

/// Reading back the encoding of a word gives the word.
pub proof fn lemma_u256_bytes_roundtrip(x: U256)
    ensures
        be_val(be_bytes(x@, 32)) == x@,
{
    lemma_be_val_of_be_bytes(x@, 32);
    lemma_pow256_bytes();
    lemma_small_mod(x@, pow256());
}

// =============================================================================
// U512
// =============================================================================

/// An unsigned 512-bit integer: `hi · 2^256 + lo`.
#[derive(Clone, Copy, Debug, PartialEq, Eq)]
pub struct U512 {
    pub hi: U256,
    pub lo: U256,
}

impl View for U512 {
    type V = nat;

    open spec fn view(&self) -> nat {
        self.hi@ * pow256() + self.lo@
    }
}

impl U512 {
    /// The value 0.
    pub fn zero() -> (r: U512)
        ensures
            r@ == 0,
    {
        let r = U512 { hi: U256::zero(), lo: U256::zero() };
        proof {
            lemma_mul_basics(pow256() as int);
        }
        r
    }

    /// A 256-bit word widened to 512 bits.
    pub fn from_u256(v: U256) -> (r: U512)
        ensures
            r@ == v@,
    {
        let r = U512 { hi: U256::zero(), lo: v };
        proof {
            lemma_mul_basics(pow256() as int);
        }
        r
    }

    /// Whether the value is 0.
    pub fn is_zero(&self) -> (r: bool)
        ensures
            r == (self@ == 0),
    {
        self.hi.is_zero() && self.lo.is_zero()
    }

    /// The 64-byte big-endian encoding.
    pub fn to_be_bytes(&self) -> (r: [u8; 64])
        ensures
            be_val(r@) == self@,
            r@.subrange(0, 32) == be_bytes(self.hi@, 32),
            r@.subrange(32, 64) == be_bytes(self.lo@, 32),
    {
        let h = self.hi.to_be_bytes();
        let l = self.lo.to_be_bytes();
        let mut out = [0u8; 64];
        let mut i: usize = 0;
        while i < 32
            invariant
                i <= 32,
                out@.len() == 64,
                forall|j: int| 0 <= j < i ==> out@[j] == h@[j] && out@[j + 32] == l@[j],
            decreases 32 - i,
        {
            out[i] = h[i];
            out[i + 32] = l[i];
            i = i + 1;
        }
        proof {
            assert(out@ =~= h@ + l@);
            assert(out@.subrange(0, 32) =~= h@);
            assert(out@.subrange(32, 64) =~= l@);
            lemma_be_val_append(h@, l@);
            lemma_u256_bytes_roundtrip(self.hi);
            lemma_u256_bytes_roundtrip(self.lo);
            lemma_pow256_bytes();
        }
        out
    }

    /// The value whose 64-byte big-endian encoding is `bytes`.
    pub fn from_be_bytes(bytes: [u8; 64]) -> (r: U512)
        ensures
            r@ == be_val(bytes@),
    {
        let mut h = [0u8; 32];
        let mut l = [0u8; 32];
        let mut i: usize = 0;
        while i < 32
            invariant
                i <= 32,
                h@.len() == 32,
                l@.len() == 32,
                forall|j: int| 0 <= j < i ==> h@[j] == bytes@[j] && l@[j] == bytes@[j + 32],
            decreases 32 - i,
        {
            h[i] = bytes[i];
            l[i] = bytes[i + 32];
            i = i + 1;
        }
        proof {
            assert(bytes@ =~= h@ + l@);
            lemma_be_val_append(h@, l@);
            lemma_pow256_bytes();
        }
        U512 { hi: U256::from_be_bytes(h), lo: U256::from_be_bytes(l) }
    }
}

// =============================================================================
// Address and Hash
// =============================================================================

/// A 20-byte Ethereum account address.
#[derive(Clone, Copy, Debug, PartialEq, Eq, Hash, PartialOrd, Ord)]
pub struct Address {
    pub bytes: [u8; 20],
}

impl View for Address {
    type V = Seq<u8>;

    open spec fn view(&self) -> Seq<u8> {
        self.bytes@
    }
}

impl From<[u8; 20]> for Address {
    /// The address with these bytes.
    fn from(bytes: [u8; 20]) -> (r: Address) {
        Address { bytes }
    }
}

impl vstd::std_specs::convert::FromSpecImpl<[u8; 20]> for Address {
    open spec fn obeys_from_spec() -> bool {
        true
    }

    open spec fn from_spec(bytes: [u8; 20]) -> Address {
        Address { bytes }
    }
}

impl Address {
    /// The all-zero address.
    pub fn zero() -> (r: Address)
        ensures
            r@ == Seq::new(20, |i: int| 0u8),
    {
        let r = Address { bytes: [0u8; 20] };
        proof {
            assert(r@ =~= Seq::new(20, |i: int| 0u8));
        }
        r
    }

    /// The address with the given bytes.
    pub fn new(bytes: [u8; 20]) -> (r: Address)
        ensures
            r@ == bytes@,
    {
        Address { bytes }
    }

    /// The address held by a 20-byte slice; `None` for any other length.
    pub fn from_slice(s: &[u8]) -> (r: Option<Address>)
        ensures
            r is Some <==> s@.len() == 20,
            r matches Some(a) ==> a@ == s@,
    {
        if s.len() != 20 {
            return None;
        }
        let mut bytes = [0u8; 20];
        let mut i: usize = 0;
        while i < 20
            invariant
                i <= 20,
                s@.len() == 20,
                bytes@.len() == 20,
                forall|j: int| 0 <= j < i ==> bytes@[j] == s@[j],
            decreases 20 - i,
        {
            bytes[i] = s[i];
            i = i + 1;
        }
        proof {
            assert(bytes@ =~= s@);
        }
        Some(Address { bytes })
    }

    /// The bytes of the address.
    pub fn as_bytes(&self) -> (r: &[u8; 20])
        ensures
            r@ == self@,
    {
        &self.bytes
    }

    /// The bytes of the address, by value.
    pub fn to_bytes(&self) -> (r: [u8; 20])
        ensures
            r@ == self@,
    {
        self.bytes
    }

    /// Equality of addresses.
    pub fn eq_addr(&self, other: &Address) -> (r: bool)
        ensures
            r == (self@ == other@),
            r == (*self == *other),
    {
        proof {
            if self@ == other@ {
                assert(self.bytes =~= other.bytes);
            }
        }
        let mut i: usize = 0;
        while i < 20
            invariant
                i <= 20,
                forall|j: int| 0 <= j < i ==> self@[j] == other@[j],
            decreases 20 - i,
        {
            if self.bytes[i] != other.bytes[i] {
                return false;
            }
            i = i + 1;
        }
        proof {
            assert(self@ =~= other@);
        }
        true
    }
}

/// A 32-byte hash.
#[derive(Clone, Copy, Debug, PartialEq, Eq, Hash, PartialOrd, Ord)]
pub struct Hash {
    pub bytes: [u8; 32],
}

impl View for Hash {
    type V = Seq<u8>;

    open spec fn view(&self) -> Seq<u8> {
        self.bytes@
    }
}

impl From<[u8; 32]> for Hash {
    /// The hash with these bytes.
    fn from(bytes: [u8; 32]) -> (r: Hash) {
        Hash { bytes }
    }
}

impl vstd::std_specs::convert::FromSpecImpl<[u8; 32]> for Hash {
    open spec fn obeys_from_spec() -> bool {
        true
    }

    open spec fn from_spec(bytes: [u8; 32]) -> Hash {
        Hash { bytes }
    }
}

impl Hash {
    /// The all-zero hash.
    pub fn zero() -> (r: Hash)
        ensures
            r@ == Seq::new(32, |i: int| 0u8),
    {
        let r = Hash { bytes: [0u8; 32] };
        proof {
            assert(r@ =~= Seq::new(32, |i: int| 0u8));
        }
        r
    }

    /// The hash with the given bytes.
    pub fn new(bytes: [u8; 32]) -> (r: Hash)
        ensures
            r@ == bytes@,
    {
        Hash { bytes }
    }

    /// The bytes of the hash.
    pub fn as_bytes(&self) -> (r: &[u8; 32])
        ensures
            r@ == self@,
    {
        &self.bytes
    }

    /// Equality of hashes.
    pub fn eq_hash(&self, other: &Hash) -> (r: bool)
        ensures
            r == (self@ == other@),
    {
        let mut i: usize = 0;
        while i < 32
            invariant
                i <= 32,
                forall|j: int| 0 <= j < i ==> self@[j] == other@[j],
            decreases 32 - i,
        {
            if self.bytes[i] != other.bytes[i] {
                return false;
            }
            i = i + 1;
        }
        proof {
            assert(self@ =~= other@);
        }
        true
    }
}

// =============================================================================
// Byte-vector helpers
// =============================================================================

/// Appends the bytes of `s` to `v`.
pub fn extend_bytes(v: &mut Vec<u8>, s: &[u8])
    ensures
        final(v)@ == old(v)@ + s@,
{
    let mut i: usize = 0;
    let ghost v0 = v@;
    while i < s.len()
        invariant
            i <= s@.len(),
            v@ == v0 + s@.take(i as int),
        decreases s@.len() - i,
    {
        v.push(s[i]);
        i = i + 1;
        proof {
            assert(s@.take(i as int) =~= s@.take(i - 1) .push(s@[i - 1]));
        }
    }
    proof {
        assert(s@.take(s@.len() as int) =~= s@);
    }
}

/// A fresh vector holding the bytes of `s`.
pub fn bytes_to_vec(s: &[u8]) -> (r: Vec<u8>)
    ensures
        r@ == s@,
{
    let mut v: Vec<u8> = Vec::new();
    extend_bytes(&mut v, s);
    proof {
        assert(Seq::<u8>::empty() + s@ =~= s@);
    }
    v
}
} // verus!
