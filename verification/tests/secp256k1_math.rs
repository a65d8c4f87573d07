//! Modular arithmetic modulo the secp256k1 prime.

use claudeth::crypto::secp256k1_math::{mod_add, mod_inv, mod_mul, mod_pow, mod_sub, secp256k1_p};
use claudeth::types::U256;

#[test]
fn test_mod_add_wraps() {
    let modulus = secp256k1_p();
    let result = mod_add(modulus.wrapping_sub(U256::one()), U256::from_u64(2), modulus);
    assert_eq!(result, U256::one());
}

#[test]
fn test_mod_sub_wraps() {
    let modulus = secp256k1_p();
    let result = mod_sub(U256::one(), U256::from_u64(2), modulus);
    assert_eq!(result, modulus.wrapping_sub(U256::one()));
}

#[test]
fn test_mod_mul_wraps() {
    let modulus = secp256k1_p();
    let result = mod_mul(
        modulus.wrapping_sub(U256::one()),
        modulus.wrapping_sub(U256::one()),
        modulus,
    );
    assert_eq!(result, U256::one());
}

#[test]
fn test_mod_pow_small() {
    let modulus = U256::from_u64(17);
    let base = U256::from_u64(5);
    let exp = U256::from_u64(3);
    let result = mod_pow(base, exp, modulus);
    assert_eq!(result, U256::from_u64(6));
}

#[test]
fn test_mod_inv_two() {
    let modulus = secp256k1_p();
    let inv_two = mod_inv(U256::from_u64(2), modulus).expect("inverse exists");
    let expected = modulus.wrapping_add(U256::one()).div_rem(U256::from_u64(2)).0;
    assert_eq!(inv_two, expected);
    let check = mod_mul(U256::from_u64(2), inv_two, modulus);
    assert_eq!(check, U256::one());
}

#[test]
fn mod_pow_zero_modulus_is_zero() {
    assert_eq!(mod_pow(U256::from_u64(3), U256::from_u64(4), U256::zero()), U256::zero());
}

#[test]
fn mod_pow_zero_exponent_is_one() {
    assert_eq!(mod_pow(U256::from_u64(3), U256::zero(), U256::from_u64(7)), U256::one());
}

#[test]
fn mod_inv_of_zero_is_none() {
    assert_eq!(mod_inv(U256::zero(), secp256k1_p()), None);
    assert_eq!(mod_inv(U256::from_u64(3), U256::zero()), None);
}

#[test]
fn mod_inv_small_prime() {
    // 3 · 5 = 15 ≡ 1 (mod 7)
    assert_eq!(mod_inv(U256::from_u64(3), U256::from_u64(7)), Some(U256::from_u64(5)));
}
