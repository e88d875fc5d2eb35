//! IEEE 754 binary32 numbers, held as their 32-bit patterns.
//!
//! A pattern is a sign bit, eight exponent bits and twenty-three fraction
//! bits.  This module says which number a pattern stands for and what it
//! means for a pattern to be the correctly rounded value of an exact ratio
//! (to nearest, ties to even).  Its quotients and products are proved to be
//! correctly rounded; how they are computed stands in `rounding`.
mod rounding;

use vstd::prelude::*;
use vstd::arithmetic::power2::{lemma2_to64, lemma_pow2_adds, lemma_pow2_pos, pow2};
use rounding::{div_magnitudes, lemma_scaled_compose, mul_magnitudes};

verus! {

/// The pattern of positive infinity; as a magnitude, the first that is not finite.
pub const INFINITY: u32 = 0x7f80_0000;

/// The pattern of the number one.
pub const ONE: u32 = 0x3f80_0000;

/// The pattern that every operation of this module returns for "not a number".
pub const QUIET_NAN: u32 = 0x7fc0_0000;

/// The pattern without its sign bit.
pub open spec fn magnitude(bits: u32) -> nat {
    (bits % 0x8000_0000) as nat
}

/// Whether the sign bit is set.
pub open spec fn is_negative(bits: u32) -> bool {
    bits >= 0x8000_0000
}

/// The pattern with the given sign and magnitude.
pub open spec fn signed(negative: bool, m: nat) -> u32 {
    if negative {
        (0x8000_0000 + m) as u32
    } else {
        m as u32
    }
}

/// A pattern put together from a sign and a magnitude has both.
pub proof fn lemma_signed(negative: bool, m: nat)
    requires
        m < 0x8000_0000,
    ensures
        magnitude(signed(negative, m)) == m,
        is_negative(signed(negative, m)) == negative,
{
}

/// Whether the pattern stands for no number.
pub open spec fn is_nan(bits: u32) -> bool {
    magnitude(bits) > INFINITY
}

/// Whether the pattern is positive or negative infinity.
pub open spec fn is_infinite(bits: u32) -> bool {
    magnitude(bits) == INFINITY
}

/// Whether the pattern is positive or negative zero.
pub open spec fn is_zero(bits: u32) -> bool {
    magnitude(bits) == 0
}

/// The exponent field of a magnitude.
pub open spec fn exponent(m: nat) -> nat {
    m / 0x80_0000
}

/// The fraction field of a magnitude.
pub open spec fn fraction(m: nat) -> nat {
    m % 0x80_0000
}

/// The number that a magnitude stands for, counted in units of 2^-149 (the
/// smallest positive binary32 number), so that every finite magnitude has a
/// natural number for its value.  A subnormal magnitude is worth its
/// fraction; a normal one is worth `(2^23 + fraction) * 2^(exponent - 1)`.
/// On the magnitude of infinity this gives 2^277, the first power of two too
/// large to be represented.
pub open spec fn scaled(m: nat) -> nat {
    if exponent(m) == 0 {
        fraction(m)
    } else {
        (0x80_0000 + fraction(m)) * pow2((exponent(m) - 1) as nat)
    }
}

/// Whether the magnitude `r` is the exact ratio `n / d` (counted in units of
/// 2^-149) rounded to the nearest representable magnitude, ties going to the
/// magnitude whose last bit is zero, and everything from halfway between the
/// largest finite magnitude and 2^277 upwards going to infinity.
pub open spec fn rounds_to(n: nat, d: nat, r: nat) -> bool {
    &&& r <= INFINITY
    &&& r > 0 ==> {
        let below = scaled((r - 1) as nat) + scaled(r);
        2 * n > below * d || (2 * n == below * d && r % 2 == 0)
    }
    &&& r < INFINITY ==> {
        let above = scaled(r) + scaled(r + 1);
        2 * n < above * d || (2 * n == above * d && r % 2 == 0)
    }
}

/// Whether dividing `a` by `b` has no number for its result: an operand is
/// not a number, or both are infinite, or both are zero.
pub open spec fn quotient_is_nan(a: u32, b: u32) -> bool {
    is_nan(a) || is_nan(b) || (is_infinite(a) && is_infinite(b)) || (is_zero(a) && is_zero(b))
}

/// Whether `q` is the binary32 quotient of `a` by `b`.
///
/// The sign is the product of the signs.  An infinite dividend or a zero
/// divisor gives infinity, an infinite divisor or a zero dividend gives zero,
/// and every other pair gives the exact quotient of the two values, rounded.
pub open spec fn is_quotient(a: u32, b: u32, q: u32) -> bool {
    if quotient_is_nan(a, b) {
        q == QUIET_NAN
    } else {
        &&& is_negative(q) == (is_negative(a) != is_negative(b))
        &&& if is_infinite(a) || is_zero(b) {
            magnitude(q) == INFINITY
        } else if is_infinite(b) || is_zero(a) {
            magnitude(q) == 0
        } else {
            rounds_to(scaled(magnitude(a)) * pow2(149), scaled(magnitude(b)), magnitude(q))
        }
    }
}

/// Whether multiplying `a` by `b` has no number for its result: an operand
/// is not a number, or one is zero and the other infinite.
pub open spec fn product_is_nan(a: u32, b: u32) -> bool {
    is_nan(a) || is_nan(b) || (is_infinite(a) && is_zero(b)) || (is_zero(a) && is_infinite(b))
}

/// Whether `p` is the binary32 product of `a` and `b`.
///
/// The sign is the product of the signs.  An infinite factor gives infinity,
/// a zero factor gives zero, and every other pair gives the exact product of
/// the two values, rounded.
pub open spec fn is_product(a: u32, b: u32, p: u32) -> bool {
    if product_is_nan(a, b) {
        p == QUIET_NAN
    } else {
        &&& is_negative(p) == (is_negative(a) != is_negative(b))
        &&& if is_infinite(a) || is_infinite(b) {
            magnitude(p) == INFINITY
        } else if is_zero(a) || is_zero(b) {
            magnitude(p) == 0
        } else {
            rounds_to(scaled(magnitude(a)) * scaled(magnitude(b)), pow2(149), magnitude(p))
        }
    }
}

/// The binary32 quotient of `a` by `b`.
pub open spec fn quotient(a: u32, b: u32) -> u32 {
    choose|q: u32| is_quotient(a, b, q)
}

/// The binary32 product of `a` and `b`.
pub open spec fn product(a: u32, b: u32) -> u32 {
    choose|p: u32| is_product(a, b, p)
}

/// The pattern with the given sign and magnitude.
fn with_sign(negative: bool, m: u32) -> (bits: u32)
    requires
        m < 0x8000_0000,
    ensures
        bits == signed(negative, m as nat),
        magnitude(bits) == m,
        is_negative(bits) == negative,
{
    if negative {
        0x8000_0000 + m
    } else {
        m
    }
}

/// The quotient of two binary32 numbers, correctly rounded.
pub fn div(a: u32, b: u32) -> (q: u32)
    ensures
        q == quotient(a, b),
        is_quotient(a, b, q),
{
    let ma: u32 = a % 0x8000_0000;
    let mb: u32 = b % 0x8000_0000;
    let negative: bool = (a >= 0x8000_0000) != (b >= 0x8000_0000);
    let q: u32 = if ma > INFINITY || mb > INFINITY || (ma == INFINITY && mb == INFINITY) || (ma == 0
        && mb == 0) {
        QUIET_NAN
    } else if ma == INFINITY || mb == 0 {
        with_sign(negative, INFINITY)
    } else if mb == INFINITY || ma == 0 {
        with_sign(negative, 0)
    } else {
        with_sign(negative, div_magnitudes(ma, mb))
    };
    proof {
        lemma_quotient_is(a, b, q);
    }
    q
}

/// The product of two binary32 numbers, correctly rounded.
pub fn mul(a: u32, b: u32) -> (p: u32)
    ensures
        p == product(a, b),
        is_product(a, b, p),
{
    let ma: u32 = a % 0x8000_0000;
    let mb: u32 = b % 0x8000_0000;
    let negative: bool = (a >= 0x8000_0000) != (b >= 0x8000_0000);
    let p: u32 = if ma > INFINITY || mb > INFINITY || (ma == INFINITY && mb == 0) || (ma == 0 && mb
        == INFINITY) {
        QUIET_NAN
    } else if ma == INFINITY || mb == INFINITY {
        with_sign(negative, INFINITY)
    } else if ma == 0 || mb == 0 {
        with_sign(negative, 0)
    } else {
        with_sign(negative, mul_magnitudes(ma, mb))
    };
    proof {
        lemma_product_is(a, b, p);
    }
    p
}

/// Two equal ratios lie on the same side of every half-way point.
proof fn lemma_same_side(n1: int, d1: int, n2: int, d2: int, s: int)
    requires
        d1 > 0,
        d2 > 0,
        n1 * d2 == n2 * d1,
    ensures
        (2 * n1 < s * d1) <==> (2 * n2 < s * d2),
        (2 * n1 == s * d1) <==> (2 * n2 == s * d2),
{
    let a = 2 * n1 - s * d1;
    let b = 2 * n2 - s * d2;
    assert(a * d2 == b * d1) by (nonlinear_arith)
        requires
            a == 2 * n1 - s * d1,
            b == 2 * n2 - s * d2,
            n1 * d2 == n2 * d1,
    ;
    assert((a < 0 <==> b < 0) && (a == 0 <==> b == 0)) by (nonlinear_arith)
        requires
            a * d2 == b * d1,
            d1 > 0,
            d2 > 0,
    ;
}

/// Rounding depends on the ratio alone, not on how it is written.
pub proof fn lemma_rounds_to_proportional(n1: nat, d1: nat, n2: nat, d2: nat, r: nat)
    requires
        d1 > 0,
        d2 > 0,
        n1 * d2 == n2 * d1,
    ensures
        rounds_to(n1, d1, r) == rounds_to(n2, d2, r),
{
    if r <= INFINITY {
        if r > 0 {
            let below = scaled((r - 1) as nat) + scaled(r);
            lemma_same_side(n1 as int, d1 as int, n2 as int, d2 as int, below as int);
        }
        if r < INFINITY {
            let above = scaled(r) + scaled(r + 1);
            lemma_same_side(n1 as int, d1 as int, n2 as int, d2 as int, above as int);
        }
    }
}

/// Each magnitude up to infinity is worth more than the one before it.
pub proof fn lemma_scaled_increases(r: nat)
    requires
        r < INFINITY,
    ensures
        scaled(r) < scaled(r + 1),
{
    lemma2_to64();
    if r < 0x100_0000 {
        lemma_scaled_compose(0, r);
        lemma_scaled_compose(0, r + 1);
    } else {
        let k = (exponent(r) - 1) as nat;
        let m = 0x80_0000 + fraction(r);
        assert(r == k * 0x80_0000 + m);
        assert(r + 1 == k * 0x80_0000 + (m + 1));
        lemma_scaled_compose(k, m);
        lemma_scaled_compose(k, m + 1);
        lemma_pow2_pos(k);
        assert(m * pow2(k) < (m + 1) * pow2(k)) by (nonlinear_arith)
            requires
                pow2(k) > 0,
        ;
    }
}

/// Magnitudes are worth more the larger they are.
pub proof fn lemma_scaled_monotonic(a: nat, b: nat)
    requires
        a <= b <= INFINITY,
    ensures
        scaled(a) <= scaled(b),
    decreases b - a,
{
    if a < b {
        lemma_scaled_monotonic(a, (b - 1) as nat);
        lemma_scaled_increases((b - 1) as nat);
    }
}

/// Of two magnitudes that a ratio rounds to, the second is not the larger.
proof fn lemma_rounds_to_at_most(n: nat, d: nat, r1: nat, r2: nat)
    requires
        d > 0,
        rounds_to(n, d, r1),
        rounds_to(n, d, r2),
    ensures
        r2 <= r1,
{
    if r1 < r2 {
        let above = scaled(r1) + scaled(r1 + 1);
        let below = scaled((r2 - 1) as nat) + scaled(r2);
        lemma_scaled_monotonic(r1, (r2 - 1) as nat);
        lemma_scaled_monotonic(r1 + 1, r2);
        assert(below * d <= 2 * n <= above * d);
        assert(below <= above) by (nonlinear_arith)
            requires
                below * d <= above * d,
                d > 0,
        ;
        assert(above == below);
        if r1 + 1 < r2 {
            lemma_scaled_increases(r1 + 1);
            lemma_scaled_monotonic(r1 + 2, r2);
        }
    }
}

/// A ratio rounds to one magnitude only.
pub proof fn lemma_rounds_to_unique(n: nat, d: nat, r1: nat, r2: nat)
    requires
        d > 0,
        rounds_to(n, d, r1),
        rounds_to(n, d, r2),
    ensures
        r1 == r2,
{
    lemma_rounds_to_at_most(n, d, r1, r2);
    lemma_rounds_to_at_most(n, d, r2, r1);
}

/// Whether the ratio `n / d` lies above the point halfway between the
/// magnitude `r` and the one before it, or on that point with `r` even.
spec fn reaches(n: nat, d: nat, r: nat) -> bool {
    let below = scaled((r - 1) as nat) + scaled(r);
    2 * n > below * d || (2 * n == below * d && r % 2 == 0)
}

/// The largest magnitude up to `r` that the ratio `n / d` reaches, or zero.
spec fn nearest_up_to(n: nat, d: nat, r: nat) -> nat
    decreases r,
{
    if r == 0 || reaches(n, d, r) {
        r
    } else {
        nearest_up_to(n, d, (r - 1) as nat)
    }
}

/// The largest magnitude that a ratio reaches is what the ratio rounds to.
proof fn lemma_nearest_rounds(n: nat, d: nat, r: nat)
    requires
        r <= INFINITY,
        r < INFINITY ==> !reaches(n, d, r + 1),
    ensures
        rounds_to(n, d, nearest_up_to(n, d, r)),
    decreases r,
{
    if r != 0 && !reaches(n, d, r) {
        lemma_nearest_rounds(n, d, (r - 1) as nat);
    }
}

/// Every ratio rounds to some magnitude.
pub proof fn lemma_rounds_to_exists(n: nat, d: nat)
    ensures
        exists|r: nat| rounds_to(n, d, r),
{
    lemma_nearest_rounds(n, d, INFINITY as nat);
    assert(rounds_to(n, d, nearest_up_to(n, d, INFINITY as nat)));
}

/// Every two patterns have a quotient.
pub proof fn lemma_quotient_exists(a: u32, b: u32)
    ensures
        is_quotient(a, b, quotient(a, b)),
{
    let negative = is_negative(a) != is_negative(b);
    if quotient_is_nan(a, b) {
        assert(is_quotient(a, b, QUIET_NAN));
    } else if is_infinite(a) || is_zero(b) {
        lemma_signed(negative, INFINITY as nat);
        assert(is_quotient(a, b, signed(negative, INFINITY as nat)));
    } else if is_infinite(b) || is_zero(a) {
        lemma_signed(negative, 0);
        assert(is_quotient(a, b, signed(negative, 0)));
    } else {
        let n = scaled(magnitude(a)) * pow2(149);
        let d = scaled(magnitude(b));
        lemma_rounds_to_exists(n, d);
        let r = choose|r: nat| rounds_to(n, d, r);
        lemma_signed(negative, r);
        assert(is_quotient(a, b, signed(negative, r)));
    }
}

/// Every two patterns have a product.
pub proof fn lemma_product_exists(a: u32, b: u32)
    ensures
        is_product(a, b, product(a, b)),
{
    let negative = is_negative(a) != is_negative(b);
    if product_is_nan(a, b) {
        assert(is_product(a, b, QUIET_NAN));
    } else if is_infinite(a) || is_infinite(b) {
        lemma_signed(negative, INFINITY as nat);
        assert(is_product(a, b, signed(negative, INFINITY as nat)));
    } else if is_zero(a) || is_zero(b) {
        lemma_signed(negative, 0);
        assert(is_product(a, b, signed(negative, 0)));
    } else {
        let n = scaled(magnitude(a)) * scaled(magnitude(b));
        let d = pow2(149);
        lemma_rounds_to_exists(n, d);
        let r = choose|r: nat| rounds_to(n, d, r);
        lemma_signed(negative, r);
        assert(is_product(a, b, signed(negative, r)));
    }
}

/// Two numbers have one quotient.
pub proof fn lemma_quotient_unique(a: u32, b: u32, q1: u32, q2: u32)
    requires
        is_quotient(a, b, q1),
        is_quotient(a, b, q2),
    ensures
        q1 == q2,
{
    if !quotient_is_nan(a, b) {
        if !(is_infinite(a) || is_zero(b) || is_infinite(b) || is_zero(a)) {
            let vb = scaled(magnitude(b));
            lemma_scaled_increases((magnitude(b) - 1) as nat);
            lemma_rounds_to_unique(
                scaled(magnitude(a)) * pow2(149),
                vb,
                magnitude(q1),
                magnitude(q2),
            );
        }
        assert(q1 == magnitude(q1) + if is_negative(q1) { 0x8000_0000int } else { 0 });
        assert(q2 == magnitude(q2) + if is_negative(q2) { 0x8000_0000int } else { 0 });
    }
}

/// Two numbers have one product.
pub proof fn lemma_product_unique(a: u32, b: u32, first: u32, second: u32)
    requires
        is_product(a, b, first),
        is_product(a, b, second),
    ensures
        first == second,
{
    if !product_is_nan(a, b) {
        if !(is_infinite(a) || is_zero(b) || is_infinite(b) || is_zero(a)) {
            lemma_pow2_pos(149);
            lemma_rounds_to_unique(
                scaled(magnitude(a)) * scaled(magnitude(b)),
                pow2(149),
                magnitude(first),
                magnitude(second),
            );
        }
        assert(first == magnitude(first) + if is_negative(first) { 0x8000_0000int } else { 0 });
        assert(second == magnitude(second) + if is_negative(second) { 0x8000_0000int } else { 0 });
    }
}

/// A pattern that is a quotient of two numbers is their quotient.
pub proof fn lemma_quotient_is(a: u32, b: u32, q: u32)
    requires
        is_quotient(a, b, q),
    ensures
        q == quotient(a, b),
{
    lemma_quotient_unique(a, b, q, quotient(a, b));
}

/// A pattern that is a product of two numbers is their product.
pub proof fn lemma_product_is(a: u32, b: u32, p: u32)
    requires
        is_product(a, b, p),
    ensures
        p == product(a, b),
{
    lemma_product_unique(a, b, p, product(a, b));
}

/// A ratio that is the value of a magnitude rounds to that magnitude.
pub proof fn lemma_rounds_to_exact(n: nat, d: nat, r: nat)
    requires
        d > 0,
        r <= INFINITY,
        n == scaled(r) * d,
    ensures
        rounds_to(n, d, r),
{
    let v = scaled(r);
    if r > 0 {
        lemma_scaled_increases((r - 1) as nat);
        let below = scaled((r - 1) as nat) + v;
        assert(below * d < 2 * (v * d)) by (nonlinear_arith)
            requires
                below < 2 * v,
                d > 0,
        ;
    }
    if r < INFINITY {
        lemma_scaled_increases(r);
        let above = v + scaled(r + 1);
        assert(2 * (v * d) < above * d) by (nonlinear_arith)
            requires
                2 * v < above,
                d > 0,
        ;
    }
}

/// The number one is worth 2^149 units.
pub proof fn lemma_scaled_one()
    ensures
        scaled(magnitude(ONE)) == pow2(149),
{
    assert(magnitude(ONE) == 126 * 0x80_0000 + 0x80_0000);
    lemma_scaled_compose(126, 0x80_0000);
    lemma_pow2_adds(23, 126);
    lemma2_to64();
}

/// Where the exact quotient of two finite numbers, of which the divisor is
/// not zero, is the value of a magnitude, the quotient has that magnitude.
pub proof fn lemma_quotient_exact(a: u32, b: u32, r: nat)
    requires
        magnitude(a) < INFINITY,
        0 < magnitude(b) < INFINITY,
        r <= INFINITY,
        scaled(magnitude(a)) * pow2(149) == scaled(r) * scaled(magnitude(b)),
    ensures
        magnitude(quotient(a, b)) == r,
        is_negative(quotient(a, b)) == (is_negative(a) != is_negative(b)),
{
    let vb = scaled(magnitude(b));
    lemma_scaled_increases((magnitude(b) - 1) as nat);
    lemma_rounds_to_exact(scaled(magnitude(a)) * pow2(149), vb, r);
    if magnitude(a) == 0 {
        assert(scaled(0) == 0);
        assert(scaled(r) == 0) by (nonlinear_arith)
            requires
                0 * pow2(149) == scaled(r) * vb,
                vb > 0,
        ;
        if r > 0 {
            lemma_scaled_monotonic(1, r);
            assert(scaled(1) == 1);
        }
    }
    let q = signed(is_negative(a) != is_negative(b), r);
    lemma_signed(is_negative(a) != is_negative(b), r);
    assert(is_quotient(a, b, q));
    lemma_quotient_is(a, b, q);
}

/// Where the exact product of two finite numbers, neither of them zero, is
/// the value of a magnitude, the product has that magnitude.
pub proof fn lemma_product_exact(a: u32, b: u32, r: nat)
    requires
        0 < magnitude(a) < INFINITY,
        0 < magnitude(b) < INFINITY,
        r <= INFINITY,
        scaled(magnitude(a)) * scaled(magnitude(b)) == scaled(r) * pow2(149),
    ensures
        magnitude(product(a, b)) == r,
        is_negative(product(a, b)) == (is_negative(a) != is_negative(b)),
{
    lemma_pow2_pos(149);
    lemma_rounds_to_exact(scaled(magnitude(a)) * scaled(magnitude(b)), pow2(149), r);
    let p = signed(is_negative(a) != is_negative(b), r);
    lemma_signed(is_negative(a) != is_negative(b), r);
    assert(is_product(a, b, p));
    lemma_product_is(a, b, p);
}

/// Dividing a number by one gives the number itself.
pub proof fn lemma_quotient_by_one(a: u32)
    requires
        !is_nan(a),
    ensures
        quotient(a, ONE) == a,
{
    lemma_scaled_one();
    if magnitude(a) < INFINITY {
        lemma_quotient_exact(a, ONE, magnitude(a));
    } else {
        assert(is_quotient(a, ONE, a));
        lemma_quotient_is(a, ONE, a);
    }
}

/// Multiplying one by a number gives the number itself.
pub proof fn lemma_product_by_one(a: u32)
    requires
        !is_nan(a),
    ensures
        product(ONE, a) == a,
{
    lemma_scaled_one();
    if 0 < magnitude(a) < INFINITY {
        assert(pow2(149) * scaled(magnitude(a)) == scaled(magnitude(a)) * pow2(149))
            by (nonlinear_arith);
        lemma_product_exact(ONE, a, magnitude(a));
    } else {
        assert(is_product(ONE, a, a));
        lemma_product_is(ONE, a, a);
    }
}

/// Dividing a finite number other than zero by itself gives one.
pub proof fn lemma_quotient_by_itself(a: u32)
    requires
        0 < magnitude(a) < INFINITY,
    ensures
        quotient(a, a) == ONE,
{
    lemma_scaled_one();
    assert(scaled(magnitude(a)) * pow2(149) == pow2(149) * scaled(magnitude(a)))
        by (nonlinear_arith);
    lemma_quotient_exact(a, a, magnitude(ONE));
}

} // verus!
