//! Modular arithmetic for secp256k1: the field prime `p`, the group order `n`,
//! and addition, subtraction, multiplication, exponentiation and inversion
//! modulo a 256-bit number.

use vstd::prelude::*;
use vstd::arithmetic::div_mod::*;
use vstd::arithmetic::mul::*;
use vstd::arithmetic::power::*;
use crate::evm::opcodes::arithmetic::{addmod_reduced, mulmod_word, lemma_exp_step};
use crate::types::U256;

verus! {

/// The field prime `p = 2^256 - 2^32 - 977`.
pub open spec fn secp256k1_p_spec() -> nat {
    115792089237316195423570985008687907853269984665640564039457584007908834671663nat
}

/// The group order `n`.
pub open spec fn secp256k1_n_spec() -> nat {
    115792089237316195423570985008687907852837564279074904382605163141518161494337nat
}

/// The field prime `p`.
pub fn secp256k1_p() -> (r: U256)
    ensures
        r@ == secp256k1_p_spec(),
{
    U256 {
        l0: 0xfffffffefffffc2f,
        l1: 0xffffffffffffffff,
        l2: 0xffffffffffffffff,
        l3: 0xffffffffffffffff,
    }
}

/// The group order `n`.
pub fn secp256k1_n() -> (r: U256)
    ensures
        r@ == secp256k1_n_spec(),
{
    U256 {
        l0: 0xbfd25e8cd0364141,
        l1: 0xbaaedce6af48a03b,
        l2: 0xfffffffffffffffe,
        l3: 0xffffffffffffffff,
    }
}

/// The curve parameter `b` of `y² = x³ + 7`.
pub fn secp256k1_b() -> (r: U256)
    ensures
        r@ == 7,
{
    U256::from_u64(7)
}

/// `(a + b) mod m`.
pub fn mod_add(a: U256, b: U256, modulus: U256) -> (r: U256)
    requires
        modulus@ > 0,
    ensures
        r@ == (a@ + b@) % modulus@,
{
    let am = a.div_rem(modulus).1;
    let bm = b.div_rem(modulus).1;
    proof {
        lemma_add_mod_noop(a@ as int, b@ as int, modulus@ as int);
    }
    addmod_reduced(am, bm, modulus)
}

/// `(a + m - b) mod m`: `a - b` modulo `m`, for `b ≤ a + m`.
pub fn mod_sub(a: U256, b: U256, modulus: U256) -> (r: U256)
    requires
        modulus@ > 0,
        b@ <= a@ + modulus@,
    ensures
        r@ == ((a@ + modulus@ - b@) as nat) % modulus@,
{
    let am = a.div_rem(modulus).1;
    let bm = b.div_rem(modulus).1;
    proof {
        lemma_mod_pos_bound(a@ as int, modulus@ as int);
        lemma_mod_pos_bound(b@ as int, modulus@ as int);
    }
    let neg_b = if bm.is_zero() {
        bm
    } else {
        match modulus.checked_sub(bm) {
            Some(v) => v,
            None => bm,
        }
    };
    proof {
        let m = modulus@ as int;
        lemma_fundamental_div_mod(b@ as int, m);
        lemma_fundamental_div_mod(a@ as int, m);
        let qa = a@ as int / m;
        let qb = b@ as int / m;
        let k = if bm@ == 0 { qa - qb + 1 } else { qa - qb };
        if bm@ == 0 {
            assert(m * k == m * qa - m * qb + m) by (nonlinear_arith)
                requires
                    k == qa - qb + 1,
            ;
        } else {
            assert(m * k == m * qa - m * qb) by (nonlinear_arith)
                requires
                    k == qa - qb,
            ;
        }
        assert((a@ + modulus@ - b@) == m * k + (am@ + neg_b@));
        lemma_mod_multiples_vanish(k, (am@ + neg_b@) as int, m);
        lemma_small_mod(am@, modulus@);
        lemma_small_mod(neg_b@, modulus@);
    }
    addmod_reduced(am, neg_b, modulus)
}

/// `(a · b) mod m`.
pub fn mod_mul(a: U256, b: U256, modulus: U256) -> (r: U256)
    requires
        modulus@ > 0,
    ensures
        r@ == (a@ * b@) % modulus@,
{
    mulmod_word(a, b, modulus)
}

/// `base^exp mod m` by square-and-multiply; 0 when `m = 0`, and 1 when `exp = 0`.
pub fn mod_pow(base: U256, exp: U256, modulus: U256) -> (r: U256)
    ensures
        r@ == mod_pow_spec(base@, exp@, modulus@),
{
    if modulus.is_zero() {
        return U256::zero();
    }
    if exp.is_zero() {
        return U256::one();
    }
    let mut result = U256::one();
    let mut b = base.div_rem(modulus).1;
    let mut e = exp;
    let ghost m = modulus@ as int;
    proof {
        lemma_pow_mod_noop(base@ as int, exp@, m);
        lemma_mul_basics(pow(b@ as int, exp@));
        lemma_mod_pos_bound(base@ as int, m);
    }
    let ghost mut reduced = false;
    while !e.is_zero()
        invariant
            modulus@ > 0,
            m == modulus@,
            b@ < modulus@,
            reduced ==> result@ < modulus@,
            !reduced ==> result@ == 1 && e@ > 0,
            (result@ * pow(b@ as int, e@)) % m == pow(base@ as int, exp@) % m,
        decreases e@,
    {
        let (half, bit) = e.div_rem_small(2);
        let ghost r0 = result@;
        let ghost b0 = b@;
        if bit == 1 {
            result = mulmod_word(result, b, modulus);
            proof {
                lemma_mod_pos_bound((r0 * b0) as int, m);
            }
        }
        let b2 = mulmod_word(b, b, modulus);
        proof {
            lemma_mod_pos_bound((b0 * b0) as int, m);
            lemma_exp_step(r0 as int, b0 as int, e@, m, result@ as int, b2@ as int);
        }
        b = b2;
        e = half;
        proof {
            reduced = reduced || bit == 1;
        }
    }
    proof {
        lemma_pow0(b@ as int);
        lemma_mul_basics(result@ as int);
        lemma_small_mod(result@, modulus@);
    }
    result
}

/// The inverse of `value` modulo a prime `m`, by Fermat's little theorem:
/// `value^(m-2) mod m`; `None` when `value` or `m` is zero.
pub fn mod_inv(value: U256, modulus: U256) -> (r: Option<U256>)
    requires
        value@ == 0 || modulus@ == 0 || modulus@ >= 2,
    ensures
        value@ == 0 || modulus@ == 0 ==> r is None,
        value@ != 0 && modulus@ != 0 ==> (r matches Some(v) && v@ == mod_pow_spec(
            value@,
            (modulus@ - 2) as nat,
            modulus@,
        )),
{
    if value.is_zero() || modulus.is_zero() {
        return None;
    }
    let exponent = match modulus.checked_sub(U256::from_u64(2)) {
        Some(v) => v,
        None => U256::zero(),
    };
    Some(mod_pow(value, exponent, modulus))
}

/// What `mod_pow` computes.
pub open spec fn mod_pow_spec(base: nat, exp: nat, modulus: nat) -> nat {
    if modulus == 0 {
        0
    } else if exp == 0 {
        1
    } else {
        (pow(base as int, exp) % (modulus as int)) as nat
    }
}


/// Subtracting what was added gives back a reduced number: for `a, b < m`,
/// `mod_sub(mod_add(a, b), b) == a`.
pub proof fn lemma_sub_undoes_add(a: nat, b: nat, m: nat)
    requires
        a < m,
        b < m,
    ensures
        ((((a + b) % m) + m - b) as nat) % m == a,
{
    if a + b < m {
        lemma_small_mod(a + b, m);
        lemma_mod_add_multiples_vanish(a as int, m as int);
        lemma_small_mod(a, m);
    } else {
        lemma_mod_add_multiples_vanish((a + b - m) as int, m as int);
        lemma_small_mod((a + b - m) as nat, m);
        lemma_small_mod(a, m);
    }
}

/// Multiplication modulo `m` does not depend on the order of its operands.
pub proof fn lemma_mul_commutes(a: nat, b: nat, m: nat)
    ensures
        (a * b) % m == (b * a) % m,
{
    lemma_mul_is_commutative(a as int, b as int);
}

} // verus!
