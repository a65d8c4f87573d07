//! secp256k1 points in affine coordinates: the generator, the curve equation,
//! negation, doubling, addition and double-and-add scalar multiplication, over the
//! field modulo `p`.
//!
//! A point's view is `None` for the point at infinity and `Some((x, y))`
//! otherwise. The field operations below are those of `secp256k1_math`; an
//! operation that would subtract more than it may (coordinates far above `p`) has
//! no result, and the functions require that it does not happen.

use vstd::prelude::*;
use crate::crypto::secp256k1_math::{
    mod_add, mod_inv, mod_mul, mod_pow_spec, mod_sub, secp256k1_b, secp256k1_p, secp256k1_p_spec,
};
use crate::types::U256;
use vstd::arithmetic::power::{pow, lemma_pow_mod_noop};
use vstd::arithmetic::div_mod::{
    lemma_add_mod_noop_right, lemma_mod_add_multiples_vanish, lemma_mod_bound, lemma_mod_multiples_vanish,
    lemma_mod_self_0, lemma_mod_sub_multiples_vanish, lemma_mul_mod_noop_general, lemma_small_mod,
    lemma_sub_mod_noop,
};

verus! {

/// A point of secp256k1 in affine coordinates, or the point at infinity.
#[derive(Clone, Copy, Debug, PartialEq, Eq, Structural)]
pub enum AffinePoint {
    /// The identity.
    Infinity,
    /// A finite point.
    Point { x: U256, y: U256 },
}

impl View for AffinePoint {
    type V = Option<(nat, nat)>;

    open spec fn view(&self) -> Option<(nat, nat)> {
        match *self {
            AffinePoint::Infinity => None,
            AffinePoint::Point { x, y } => Some((x@, y@)),
        }
    }
}

// =============================================================================
// Field operations modulo p
// =============================================================================

/// `(a + b) mod p`.
pub open spec fn fe_add(p: nat, a: nat, b: nat) -> nat {
    (a + b) % p
}

/// `(a + p - b) mod p`.
pub open spec fn fe_sub(p: nat, a: nat, b: nat) -> nat {
    ((a + p - b) as nat) % p
}

/// Whether `fe_sub(p, a, b)` subtracts no more than it may.
pub open spec fn fe_sub_ok(p: nat, a: nat, b: nat) -> bool {
    b <= a + p
}

/// `(a · b) mod p`.
pub open spec fn fe_mul(p: nat, a: nat, b: nat) -> nat {
    (a * b) % p
}

/// The inverse of a nonzero `v` modulo a prime `p` by Fermat: `v^(p-2) mod p`.
pub open spec fn fe_inv(p: nat, v: nat) -> nat {
    mod_pow_spec(v, (p - 2) as nat, p)
}

// =============================================================================
// Point operations
// =============================================================================

/// Whether `(x, y)` satisfies `y² = x³ + 7` modulo `p`.
pub open spec fn on_curve(p: nat, b: nat, x: nat, y: nat) -> bool {
    fe_mul(p, y, y) == fe_add(p, fe_mul(p, fe_mul(p, x, x), x), b)
}

/// The slope of the tangent at `(x, y)`: `3x² / 2y`.
pub open spec fn tangent_slope(p: nat, x: nat, y: nat) -> nat {
    fe_mul(p, fe_mul(p, 3, fe_mul(p, x, x)), fe_inv(p, fe_mul(p, 2, y)))
}

/// The third point on the line of slope `lambda` through `(x1, y1)` and a point of
/// abscissa `x2`, reflected: `x3 = λ² - x1 - x2`, `y3 = λ(x1 - x3) - y1`.
pub open spec fn chord_point(p: nat, lambda: nat, x1: nat, y1: nat, x2: nat) -> (nat, nat) {
    let x3 = fe_sub(p, fe_sub(p, fe_mul(p, lambda, lambda), x1), x2);
    (x3, fe_sub(p, fe_mul(p, lambda, fe_sub(p, x1, x3)), y1))
}

/// Whether the chord computation subtracts no more than it may.
pub open spec fn chord_ok(p: nat, lambda: nat, x1: nat, y1: nat, x2: nat) -> bool {
    let t = fe_sub(p, fe_mul(p, lambda, lambda), x1);
    let x3 = fe_sub(p, t, x2);
    &&& fe_sub_ok(p, fe_mul(p, lambda, lambda), x1)
    &&& fe_sub_ok(p, t, x2)
    &&& fe_sub_ok(p, x1, x3)
    &&& fe_sub_ok(p, fe_mul(p, lambda, fe_sub(p, x1, x3)), y1)
}

/// Doubling: infinity stays at infinity, so does a point with `y = 0` or with
/// `2y ≡ 0`; otherwise the tangent construction.
pub open spec fn double_spec(p: nat, pt: Option<(nat, nat)>) -> Option<(nat, nat)> {
    match pt {
        None => None,
        Some((x, y)) => if y == 0 || fe_mul(p, 2, y) == 0 {
            None
        } else {
            Some(chord_point(p, tangent_slope(p, x, y), x, y, x))
        },
    }
}

/// Whether doubling subtracts no more than it may.
pub open spec fn double_ok(p: nat, pt: Option<(nat, nat)>) -> bool {
    match pt {
        None => true,
        Some((x, y)) => y == 0 || fe_mul(p, 2, y) == 0 || chord_ok(p, tangent_slope(p, x, y), x, y, x),
    }
}

/// Addition: the identity on either side; a point plus its mirror (same `x`,
/// `y1 + y2 ≡ 0`) is infinity; equal abscissas otherwise double the left point;
/// distinct ones take the chord of slope `(y2 - y1) / (x2 - x1)`, or infinity
/// when `x2 - x1 ≡ 0`.
pub open spec fn add_spec(p: nat, left: Option<(nat, nat)>, right: Option<(nat, nat)>) -> Option<(nat, nat)> {
    match (left, right) {
        (None, _) => right,
        (_, None) => left,
        (Some((x1, y1)), Some((x2, y2))) => if x1 == x2 {
            if fe_add(p, y1, y2) == 0 {
                None
            } else {
                double_spec(p, left)
            }
        } else if fe_sub(p, x2, x1) == 0 {
            None
        } else {
            Some(chord_point(p, fe_mul(p, fe_sub(p, y2, y1), fe_inv(p, fe_sub(p, x2, x1))), x1, y1, x2))
        },
    }
}

/// Whether addition subtracts no more than it may.
pub open spec fn add_ok(p: nat, left: Option<(nat, nat)>, right: Option<(nat, nat)>) -> bool {
    match (left, right) {
        (None, _) => true,
        (_, None) => true,
        (Some((x1, y1)), Some((x2, y2))) => if x1 == x2 {
            fe_add(p, y1, y2) == 0 || double_ok(p, left)
        } else {
            &&& fe_sub_ok(p, y2, y1)
            &&& fe_sub_ok(p, x2, x1)
            &&& (fe_sub(p, x2, x1) == 0 || chord_ok(p, 
                fe_mul(p, fe_sub(p, y2, y1), fe_inv(p, fe_sub(p, x2, x1))),
                x1,
                y1,
                x2,
            ))
        },
    }
}

/// Double-and-add from the low bit of `k`: the accumulator takes `base` when the
/// bit is set, then `base` doubles and `k` halves.
pub open spec fn ladder(p: nat, k: nat, acc: Option<(nat, nat)>, base: Option<(nat, nat)>) -> Option<(nat, nat)>
    decreases k,
{
    if k == 0 {
        acc
    } else {
        ladder(p, k / 2, if k % 2 == 1 { add_spec(p, acc, base) } else { acc }, double_spec(p, base))
    }
}

/// Whether the ladder subtracts no more than it may at every step.
pub open spec fn ladder_ok(p: nat, k: nat, acc: Option<(nat, nat)>, base: Option<(nat, nat)>) -> bool
    decreases k,
{
    if k == 0 {
        true
    } else {
        &&& (k % 2 == 1 ==> add_ok(p, acc, base))
        &&& double_ok(p, base)
        &&& ladder_ok(p, k / 2, if k % 2 == 1 { add_spec(p, acc, base) } else { acc }, double_spec(p, base))
    }
}

/// `k · P`: infinity for `k = 0` or `P` at infinity, else the ladder from infinity.
pub open spec fn scalar_mul_spec(p: nat, k: nat, pt: Option<(nat, nat)>) -> Option<(nat, nat)> {
    if k == 0 || pt is None {
        None
    } else {
        ladder(p, k, None, pt)
    }
}

/// A point whose coordinates are reduced modulo `p`.
pub open spec fn reduced(p: nat, pt: Option<(nat, nat)>) -> bool {
    match pt {
        None => true,
        Some((x, y)) => x < p && y < p,
    }
}

/// Doubling and addition of reduced points subtract no more than they may, and
/// give reduced points.
pub proof fn lemma_reduced_ops(p: nat, a: Option<(nat, nat)>, b: Option<(nat, nat)>)
    requires
        p > 0,
        reduced(p, a),
        reduced(p, b),
    ensures
        double_ok(p, a),
        reduced(p, double_spec(p, a)),
        add_ok(p, a, b),
        reduced(p, add_spec(p, a, b)),
{
}

/// The ladder on reduced points subtracts no more than it may.
pub proof fn lemma_reduced_ladder(p: nat, k: nat, acc: Option<(nat, nat)>, base: Option<(nat, nat)>)
    requires
        p > 0,
        reduced(p, acc),
        reduced(p, base),
    ensures
        ladder_ok(p, k, acc, base),
        reduced(p, ladder(p, k, acc, base)),
    decreases k,
{
    lemma_reduced_ops(p, acc, base);
    if k > 0 {
        lemma_reduced_ladder(
            p,
            k / 2,
            if k % 2 == 1 { add_spec(p, acc, base) } else { acc },
            double_spec(p, base),
        );
    }
}

/// The modulus of secp256k1's field.
pub open spec fn sp() -> nat {
    secp256k1_p_spec()
}

// =============================================================================
// Executable operations
// =============================================================================

impl AffinePoint {
    /// The generator `G`.
    pub fn generator() -> (r: AffinePoint)
        ensures
            r@ == Some(
                (
                    55066263022277343669578718895168534326250603453777594175500187360389116729240nat,
                    32670510020758816978083085130507043184471273380659243275938904335757337482424nat,
                ),
            ),
    {
        AffinePoint::Point {
            x: U256 {
                l0: 0x59f2815b16f81798,
                l1: 0x029bfcdb2dce28d9,
                l2: 0x55a06295ce870b07,
                l3: 0x79be667ef9dcbbac,
            },
            y: U256 {
                l0: 0x9c47d08ffb10d4b8,
                l1: 0xfd17b448a6855419,
                l2: 0x5da4fbfc0e1108a8,
                l3: 0x483ada7726a3c465,
            },
        }
    }

    /// Whether this is the point at infinity.
    pub fn is_infinity(&self) -> (r: bool)
        ensures
            r == (self@ is None),
    {
        match self {
            AffinePoint::Infinity => true,
            AffinePoint::Point { .. } => false,
        }
    }

    /// Whether the point lies on secp256k1 (infinity does).
    pub fn is_on_curve(&self) -> (r: bool)
        ensures
            r == match self@ {
                None => true,
                Some((x, y)) => on_curve(sp(), 7, x, y),
            },
    {
        match *self {
            AffinePoint::Infinity => true,
            AffinePoint::Point { x, y } => on_curve_mod(x, y, secp256k1_b(), secp256k1_p()),
        }
    }

    /// The mirror point `(x, -y)`.
    pub fn negate(self) -> (r: AffinePoint)
        requires
            self@ matches Some((x, y)) ==> fe_sub_ok(sp(), 0, y),
        ensures
            r@ == match self@ {
                None => None,
                Some((x, y)) => Some((x, fe_sub(sp(), 0, y))),
            },
    {
        match self {
            AffinePoint::Infinity => AffinePoint::Infinity,
            AffinePoint::Point { x, y } => {
                let p = secp256k1_p();
                let neg_y = mod_sub(U256::zero(), y, p);
                AffinePoint::Point { x, y: neg_y }
            },
        }
    }
}

/// Whether `(x, y)` satisfies `y² = x³ + b` modulo `p`.
pub fn on_curve_mod(x: U256, y: U256, b: U256, p: U256) -> (r: bool)
    requires
        p@ > 0,
    ensures
        r == on_curve(p@, b@, x@, y@),
{
    let y_sq = mod_mul(y, y, p);
    let x_sq = mod_mul(x, x, p);
    let x_cubed = mod_mul(x_sq, x, p);
    let rhs = mod_add(x_cubed, b, p);
    y_sq.eq_word(&rhs)
}

/// `a - b` modulo `p`.
fn fe_sub_word(a: U256, b: U256, p: U256) -> (r: U256)
    requires
        p@ > 0,
        fe_sub_ok(p@, a@, b@),
    ensures
        r@ == fe_sub(p@, a@, b@),
{
    mod_sub(a, b, p)
}

/// The chord construction for slope `lambda`.
fn chord(lambda: U256, x1: U256, y1: U256, x2: U256, p: U256) -> (r: AffinePoint)
    requires
        p@ > 0,
        chord_ok(p@, lambda@, x1@, y1@, x2@),
    ensures
        r@ == Some(chord_point(p@, lambda@, x1@, y1@, x2@)),
{
    let lambda_sq = mod_mul(lambda, lambda, p);
    let x3 = fe_sub_word(fe_sub_word(lambda_sq, x1, p), x2, p);
    let y3 = fe_sub_word(mod_mul(lambda, fe_sub_word(x1, x3, p), p), y1, p);
    AffinePoint::Point { x: x3, y: y3 }
}

/// `2P` on a short Weierstrass curve modulo `p`.
pub fn point_double_mod(point: AffinePoint, p: U256) -> (r: AffinePoint)
    requires
        p@ >= 2,
        double_ok(p@, point@),
    ensures
        r@ == double_spec(p@, point@),
{
    match point {
        AffinePoint::Infinity => AffinePoint::Infinity,
        AffinePoint::Point { x, y } => {
            if y.is_zero() {
                return AffinePoint::Infinity;
            }
            let x_sq = mod_mul(x, x, p);
            let numerator = mod_mul(U256::from_u64(3), x_sq, p);
            let denominator = mod_mul(U256::from_u64(2), y, p);
            let inv = match mod_inv(denominator, p) {
                Some(value) => value,
                None => {
                    return AffinePoint::Infinity;
                },
            };
            let lambda = mod_mul(numerator, inv, p);
            chord(lambda, x, y, x, p)
        },
    }
}

/// `P + Q` on a short Weierstrass curve modulo `p`.
pub fn point_add_mod(left: AffinePoint, right: AffinePoint, p: U256) -> (r: AffinePoint)
    requires
        p@ >= 2,
        add_ok(p@, left@, right@),
    ensures
        r@ == add_spec(p@, left@, right@),
{
    match (left, right) {
        (AffinePoint::Infinity, point) => point,
        (point, AffinePoint::Infinity) => point,
        (AffinePoint::Point { x: x1, y: y1 }, AffinePoint::Point { x: x2, y: y2 }) => {
            if x1.eq_word(&x2) {
                if mod_add(y1, y2, p).is_zero() {
                    return AffinePoint::Infinity;
                }
                return point_double_mod(AffinePoint::Point { x: x1, y: y1 }, p);
            }
            let numerator = fe_sub_word(y2, y1, p);
            let denominator = fe_sub_word(x2, x1, p);
            let inv = match mod_inv(denominator, p) {
                Some(value) => value,
                None => {
                    return AffinePoint::Infinity;
                },
            };
            let lambda = mod_mul(numerator, inv, p);
            chord(lambda, x1, y1, x2, p)
        },
    }
}

/// Double-and-add over the bits of `k`, low bit first, from infinity.
pub fn ladder_mul(scalar: U256, point: AffinePoint, p: U256) -> (r: AffinePoint)
    requires
        p@ >= 2,
        ladder_ok(p@, scalar@, None, point@),
    ensures
        r@ == ladder(p@, scalar@, None, point@),
{
    let mut acc = AffinePoint::Infinity;
    let mut base = point;
    let mut k = scalar;
    while !k.is_zero()
        invariant
            p@ >= 2,
            ladder_ok(p@, k@, acc@, base@),
            ladder(p@, k@, acc@, base@) == ladder(p@, scalar@, None, point@),
        decreases k@,
    {
        let (half, bit) = k.div_rem_small(2);
        if bit == 1 {
            acc = point_add_mod(acc, base, p);
        }
        base = point_double_mod(base, p);
        k = half;
    }
    acc
}

/// `2P` on secp256k1.
pub fn point_double(point: AffinePoint) -> (r: AffinePoint)
    requires
        double_ok(sp(), point@),
    ensures
        r@ == double_spec(sp(), point@),
{
    point_double_mod(point, secp256k1_p())
}

/// `P + Q` on secp256k1.
pub fn point_add(left: AffinePoint, right: AffinePoint) -> (r: AffinePoint)
    requires
        add_ok(sp(), left@, right@),
    ensures
        r@ == add_spec(sp(), left@, right@),
{
    point_add_mod(left, right, secp256k1_p())
}

/// `k · P` on secp256k1 by double-and-add over the bits of `k`, low bit first.
pub fn scalar_mul(scalar: U256, point: AffinePoint) -> (r: AffinePoint)
    requires
        scalar@ == 0 || point@ is None || ladder_ok(sp(), scalar@, None, point@),
    ensures
        r@ == scalar_mul_spec(sp(), scalar@, point@),
{
    if scalar.is_zero() || point.is_infinity() {
        return AffinePoint::Infinity;
    }
    ladder_mul(scalar, point, secp256k1_p())
}


/// The point at infinity is the identity of addition, on either side.
pub proof fn lemma_add_identity(p: nat, pt: Option<(nat, nat)>)
    ensures
        add_spec(p, pt, None) == pt,
        add_spec(p, None, pt) == pt,
{
}

/// A finite point plus its negation `(x, -y)` is the point at infinity.
pub proof fn lemma_add_negation(p: nat, x: nat, y: nat)
    requires
        y < p,
    ensures
        add_spec(p, Some((x, y)), Some((x, fe_sub(p, 0, y)))) == None::<(nat, nat)>,
{
    if y == 0 {
        vstd::arithmetic::div_mod::lemma_mod_self_0(p as int);
        vstd::arithmetic::div_mod::lemma_small_mod(0, p);
    } else {
        vstd::arithmetic::div_mod::lemma_small_mod((p - y) as nat, p);
        vstd::arithmetic::div_mod::lemma_mod_self_0(p as int);
    }
}

/// An odd power of `-b` is minus that power of `b`.
proof fn lemma_pow_neg_odd(b: int, e: nat)
    requires
        e % 2 == 1,
    ensures
        pow(-b, e) == -pow(b, e),
    decreases e,
{
    reveal(pow);
    assert(pow(-b, e) == (-b) * pow(-b, (e - 1) as nat));
    assert(pow(b, e) == b * pow(b, (e - 1) as nat));
    if e == 1 {
        assert(pow(-b, 0) == 1 && pow(b, 0) == 1);
    } else {
        lemma_pow_neg_odd(b, (e - 2) as nat);
        let q = pow(b, (e - 2) as nat);
        assert(pow(-b, (e - 1) as nat) == (-b) * pow(-b, (e - 2) as nat));
        assert(pow(b, (e - 1) as nat) == b * q);
        assert((-b) * ((-b) * (-q)) == -(b * (b * q))) by (nonlinear_arith);
    }
}

/// Modulo an odd `p > 2`, the inverse of `p - b` is `p` minus the inverse of `b`,
/// for `0 < b < p`.
proof fn lemma_fe_inv_neg(p: nat, b: nat)
    requires
        p > 2,
        p % 2 == 1,
        0 < b < p,
    ensures
        fe_inv(p, (p - b) as nat) == fe_sub(p, 0, fe_inv(p, b)),
{
    let e = (p - 2) as nat;
    let pi = p as int;
    let q = pow(b as int, e);
    lemma_pow_mod_noop((p - b) as int, e, pi);
    lemma_mod_add_multiples_vanish(-(b as int), pi);
    lemma_pow_mod_noop(-(b as int), e, pi);
    lemma_pow_neg_odd(b as int, e);
    lemma_sub_mod_noop(0, q, pi);
    lemma_small_mod(0, p);
    lemma_mod_add_multiples_vanish(-(q % pi), pi);
    assert(fe_inv(p, b) == q % pi);
    assert(fe_inv(p, (p - b) as nat) == pow((p - b) as int, e) % pi);
}

/// For `a, b < p`, subtracting `b` from `a` and `a` from `b` give the two
/// residues that sum to `0` modulo `p`: `fe_sub(p, b, a) == (p - fe_sub(p, a, b)) % p`.
proof fn lemma_fe_sub_swap(p: nat, a: nat, b: nat)
    requires
        p > 0,
        a < p,
        b < p,
    ensures
        fe_sub(p, b, a) == ((p - fe_sub(p, a, b)) as nat) % p,
        a != b ==> 0 < fe_sub(p, a, b) < p && fe_sub(p, b, a) == p - fe_sub(p, a, b),
{
    lemma_mod_self_0(p as int);
    if a == b {
        lemma_mod_self_0(p as int);
        lemma_small_mod(0, p);
    } else if a > b {
        lemma_mod_sub_multiples_vanish((a + p - b) as int, p as int);
        lemma_small_mod((a - b) as nat, p);
        lemma_small_mod((b + p - a) as nat, p);
    } else {
        lemma_small_mod((a + p - b) as nat, p);
        lemma_mod_sub_multiples_vanish((b + p - a) as int, p as int);
        lemma_small_mod((b - a) as nat, p);
    }
}

/// For two points whose abscissas differ (coordinates below an odd modulus
/// `p > 2`), adding them in either order gives a finite point, and the two sums
/// have the same abscissa.
pub proof fn lemma_add_abscissa_commutes(p: nat, x1: nat, y1: nat, x2: nat, y2: nat)
    requires
        p > 2,
        p % 2 == 1,
        x1 < p,
        y1 < p,
        x2 < p,
        y2 < p,
        x1 != x2,
    ensures
        add_spec(p, Some((x1, y1)), Some((x2, y2))) matches Some((xa, _)) && add_spec(
            p,
            Some((x2, y2)),
            Some((x1, y1)),
        ) matches Some((xb, _)) && xa == xb,
{
    let pi = p as int;
    let bb = fe_sub(p, x2, x1);
    let aa = fe_sub(p, y2, y1);
    lemma_fe_sub_swap(p, x2, x1);
    lemma_fe_sub_swap(p, y2, y1);
    assert(fe_sub(p, x1, x2) == p - bb);
    let i1 = fe_inv(p, bb);
    lemma_fe_inv_neg(p, bb);
    let i2 = fe_inv(p, (p - bb) as nat);
    assert(i1 < p) by {
        lemma_mod_bound(pow(bb as int, (p - 2) as nat), pi);
    }
    assert(i2 == ((p - i1) as nat) % p);
    let aa2 = fe_sub(p, y1, y2);
    assert(aa2 == ((p - aa) as nat) % p);
    let l1 = fe_mul(p, aa, i1);
    let l2 = fe_mul(p, aa2, i2);
    assert(l1 == l2) by {
        let a = aa as int;
        let i = i1 as int;
        lemma_mul_mod_noop_general(pi - a, pi - i, pi);
        assert((pi - a) * (pi - i) == pi * (pi - a - i) + a * i) by (nonlinear_arith);
        lemma_mod_multiples_vanish(pi - a - i, a * i, pi);
    }
    let sq = fe_mul(p, l1, l1);
    assert(fe_sub(p, fe_sub(p, sq, x1), x2) == fe_sub(p, fe_sub(p, sq, x2), x1)) by {
        lemma_add_mod_noop_right((p - x2) as int, (sq + p - x1) as int, pi);
        lemma_add_mod_noop_right((p - x1) as int, (sq + p - x2) as int, pi);
    }
}

/// `0·P` is infinity, `1·P` is `P` and `2·P` is `P` doubled.
pub proof fn lemma_scalar_mul_small(p: nat, pt: Option<(nat, nat)>)
    ensures
        scalar_mul_spec(p, 0, pt) == None::<(nat, nat)>,
        scalar_mul_spec(p, 1, pt) == pt,
        scalar_mul_spec(p, 2, pt) == double_spec(p, pt),
{
    reveal_with_fuel(ladder, 3);
    if pt is Some {
        assert(ladder(p, 1, None, pt) == ladder(p, 0, add_spec(p, None, pt), double_spec(p, pt)));
        assert(ladder(p, 2, None, pt) == ladder(p, 1, None, double_spec(p, pt)));
        assert(ladder(p, 1, None, double_spec(p, pt)) == ladder(
            p,
            0,
            add_spec(p, None, double_spec(p, pt)),
            double_spec(p, double_spec(p, pt)),
        ));
    } else {
        assert(double_spec(p, pt) == None::<(nat, nat)>);
    }
}

} // verus!
