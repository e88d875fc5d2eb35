//! Rounding an exact ratio to the nearest binary32 magnitude.
//!
//! A finite, nonzero magnitude is taken apart into a significand of
//! twenty-four bits and a power of two.  A quotient or product of two
//! significands is an integer with a few bits more than a magnitude can hold;
//! `round` drops them, decides the last bit by what was dropped, and puts the
//! magnitude together again.
use vstd::prelude::*;
use vstd::arithmetic::div_mod::lemma_fundamental_div_mod;
use vstd::arithmetic::power2::{
    lemma2_to64, lemma2_to64_rest, lemma_pow2_adds, lemma_pow2_pos, lemma_pow2_strictly_increases,
    lemma_pow2_unfold, pow2,
};
use vstd::bits::lemma_u64_shl_is_mul;
use crate::binary32::{exponent, fraction, lemma_rounds_to_proportional, rounds_to, scaled, INFINITY};

verus! {

/// A magnitude written as a level `k` and a significand `m` is worth `m * 2^k`.
pub(crate) proof fn lemma_scaled_compose(k: nat, m: nat)
    requires
        m <= 0x100_0000,
        k >= 1 ==> m >= 0x80_0000,
    ensures
        scaled(k * 0x80_0000 + m) == m * pow2(k),
{
    let b = k * 0x80_0000 + m;
    lemma2_to64();
    if m < 0x80_0000 {
        assert(k == 0);
        assert(exponent(b) == 0);
        assert(fraction(b) == m);
    } else if m < 0x100_0000 {
        assert(b == (k + 1) * 0x80_0000 + (m - 0x80_0000));
        assert(exponent(b) == k + 1);
        assert(fraction(b) == m - 0x80_0000);
    } else {
        assert(b == (k + 2) * 0x80_0000);
        assert(exponent(b) == k + 2);
        assert(fraction(b) == 0);
        lemma_pow2_unfold(k + 1);
        assert(0x80_0000 * (2 * pow2(k)) == 0x100_0000 * pow2(k)) by (nonlinear_arith);
    }
}

/// Multiplying both sides by a positive number keeps a comparison.
proof fn lemma_compare_scaled(x: int, y: int, c: int)
    by (nonlinear_arith)
    requires
        c > 0,
    ensures
        (x < y) <==> (x * c < y * c),
        (x == y) <==> (x * c == y * c),
{
}

/// Rounding at one level.  If `m` is `n / u` rounded to the nearest integer,
/// ties to even, and `n / u` lies in the range of significands that belong to
/// level `k`, then the magnitude made of `k` and `m` is `n * 2^k / u` rounded.
proof fn lemma_round_at_level(n: nat, u: nat, k: nat, m: nat)
    requires
        u > 0,
        k <= 253,
        m <= 0x100_0000,
        k >= 1 ==> m >= 0x80_0000,
        2 * n <= (2 * m + 1) * u,
        2 * n == (2 * m + 1) * u ==> m % 2 == 0,
        m > 0 ==> (2 * m - 1) * u <= 2 * n,
        m > 0 && 2 * n == (2 * m - 1) * u ==> m % 2 == 0,
        k >= 1 ==> n >= 0x80_0000 * u,
        n < 0x100_0000 * u,
    ensures
        k * 0x80_0000 + m <= INFINITY,
        rounds_to(n * pow2(k), u, k * 0x80_0000 + m),
{
    let r = k * 0x80_0000 + m;
    let p = pow2(k);
    let big = n * p;
    lemma_pow2_pos(k);
    lemma_scaled_compose(k, m);
    assert(k * 0x80_0000 == 2 * (k * 0x40_0000));
    assert(r % 2 == m % 2);
    assert(2 * big == (2 * n) * p) by (nonlinear_arith)
        requires
            big == n * p,
    ;
    if r < INFINITY {
        let above = scaled(r) + scaled(r + 1);
        if m < 0x100_0000 {
            lemma_scaled_compose(k, m + 1);
            assert(r + 1 == k * 0x80_0000 + (m + 1));
            assert(above * u == ((2 * m + 1) * u) * p) by (nonlinear_arith)
                requires
                    above == m * p + (m + 1) * p,
            ;
            lemma_compare_scaled((2 * n) as int, ((2 * m + 1) * u) as int, p as int);
        } else {
            lemma_scaled_compose(k + 1, 0x80_0001);
            lemma_pow2_unfold(k + 1);
            assert(r + 1 == (k + 1) * 0x80_0000 + 0x80_0001);
            assert(2 * big < above * u) by (nonlinear_arith)
                requires
                    above == 0x100_0000 * p + 0x80_0001 * (2 * p),
                    2 * big == (2 * n) * p,
                    n < 0x100_0000 * u,
                    p > 0,
                    u > 0,
            ;
        }
    }
    if r > 0 {
        let below = scaled((r - 1) as nat) + scaled(r);
        if k >= 1 && m == 0x80_0000 {
            let lower = (k - 1) as nat;
            lemma_scaled_compose(lower, 0xff_ffff);
            lemma_pow2_unfold(k);
            lemma_pow2_pos(lower);
            assert(r - 1 == lower * 0x80_0000 + 0xff_ffff);
            let q = pow2(lower);
            assert(2 * big > below * u) by (nonlinear_arith)
                requires
                    below == 0xff_ffff * q + 0x80_0000 * p,
                    p == 2 * q,
                    2 * big == (2 * n) * p,
                    n >= 0x80_0000 * u,
                    q > 0,
                    u > 0,
            ;
        } else {
            lemma_scaled_compose(k, (m - 1) as nat);
            assert(r - 1 == k * 0x80_0000 + (m - 1));
            assert(below * u == ((2 * m - 1) * u) * p) by (nonlinear_arith)
                requires
                    below == (m - 1) * p + m * p,
            ;
            lemma_compare_scaled((2 * m - 1) * u, (2 * n) as int, p as int);
        }
    }
}

/// Powers of two grow with their exponent.
proof fn lemma_pow2_le(a: nat, b: nat)
    requires
        a <= b,
    ensures
        pow2(a) <= pow2(b),
{
    if a < b {
        lemma_pow2_strictly_increases(a, b);
    }
}

/// Dropping the low bits of an integer quotient, with the remainder of the
/// division and the dropped bits deciding the direction, rounds the exact
/// ratio to the nearest multiple of `p`, ties to even.
proof fn lemma_nearest(n: int, d: int, q: int, rn: int, p: int, half: int, m0: int, low: int, m: int)
    requires
        d > 0,
        0 <= rn < d,
        n == q * d + rn,
        half >= 1,
        p == 2 * half,
        0 <= low < p,
        q == m0 * p + low,
        m0 >= 0,
        m == m0 + if low > half || (low == half && (rn > 0 || m0 % 2 == 1)) {
            1int
        } else {
            0int
        },
    ensures
        2 * n <= (2 * m + 1) * (d * p),
        2 * n == (2 * m + 1) * (d * p) ==> m % 2 == 0,
        (2 * m - 1) * (d * p) <= 2 * n,
        2 * n == (2 * m - 1) * (d * p) ==> m % 2 == 0,
{
    let u = d * p;
    let hd = half * d;
    let ld = low * d;
    let mu = m0 * u;
    assert(u == 2 * hd) by (nonlinear_arith)
        requires
            u == d * p,
            p == 2 * half,
            hd == half * d,
    ;
    assert(n == mu + ld + rn) by (nonlinear_arith)
        requires
            n == q * d + rn,
            q == m0 * p + low,
            u == d * p,
            mu == m0 * u,
            ld == low * d,
    ;
    assert((low < half ==> ld + d <= hd) && (low == half ==> ld == hd) && (low > half ==> ld >= hd
        + d) && ld + d <= 2 * hd) by (nonlinear_arith)
        requires
            ld == low * d,
            hd == half * d,
            d > 0,
            0 <= low < 2 * half,
    ;
    assert((2 * m0 + 1) * u == 2 * mu + u && (2 * m0 - 1) * u == 2 * mu - u && (2 * m0 + 3) * u == 2
        * mu + 3 * u) by (nonlinear_arith)
        requires
            mu == m0 * u,
    ;
}

/// The numerator of the ratio `n / d` scaled by `2^x`.
spec fn shifted_numerator(n: nat, x: int) -> nat {
    n * pow2(if x >= 0 { x as nat } else { 0 })
}

/// The denominator of the ratio `n / d` scaled by `2^x`.
spec fn shifted_denominator(d: nat, x: int) -> nat {
    d * pow2(if x < 0 { (-x) as nat } else { 0 })
}

/// A scaled ratio of 2^277 or more rounds to infinity.
proof fn lemma_round_overflow(n: nat, d: nat, q: nat, len: nat, x: int)
    requires
        d > 0,
        n >= q * d,
        len >= 1,
        q >= pow2((len - 1) as nat),
        len + x >= 278,
        x >= 0,
    ensures
        rounds_to(shifted_numerator(n, x), shifted_denominator(d, x), INFINITY as nat),
{
    let big = n * pow2(x as nat);
    lemma_scaled_compose(253, 0x100_0000);
    lemma_scaled_compose(253, 0xff_ffff);
    lemma_pow2_adds((len - 1) as nat, x as nat);
    lemma_pow2_le(277, (len - 1 + x) as nat);
    lemma_pow2_adds(24, 253);
    lemma2_to64();
    lemma_pow2_pos(253);
    let below = scaled((INFINITY - 1) as nat) + scaled(INFINITY as nat);
    assert(INFINITY - 1 == 253 * 0x80_0000 + 0xff_ffff);
    assert(INFINITY == 253 * 0x80_0000 + 0x100_0000);
    assert(2 * big > below * d) by (nonlinear_arith)
        requires
            big == n * pow2(x as nat),
            n >= q * d,
            q >= pow2((len - 1) as nat),
            pow2((len - 1) as nat) * pow2(x as nat) >= 0x100_0000 * pow2(253),
            below == 0xff_ffff * pow2(253) + 0x100_0000 * pow2(253),
            pow2(253) > 0,
            d > 0,
    ;
    assert(shifted_denominator(d, x) == d) by (nonlinear_arith)
        requires
            shifted_denominator(d, x) == d * pow2(0),
            pow2(0) == 1,
    ;
}

/// A scaled ratio of at most a half rounds to zero.
proof fn lemma_round_underflow(n: nat, d: nat, q: nat, len: nat, x: int)
    requires
        d > 0,
        n < (q + 1) * d,
        q < pow2(len),
        x < 0,
        -x > len,
    ensures
        rounds_to(shifted_numerator(n, x), shifted_denominator(d, x), 0),
{
    let down = (-x) as nat;
    lemma_scaled_compose(0, 0);
    lemma_scaled_compose(0, 1);
    lemma2_to64();
    lemma_pow2_unfold(len + 1);
    lemma_pow2_le(len + 1, down);
    let den = d * pow2(down);
    assert(2 * n < den) by (nonlinear_arith)
        requires
            n < (q + 1) * d,
            q < pow2(len),
            2 * pow2(len) <= pow2(down),
            den == d * pow2(down),
            d > 0,
    ;
    assert(shifted_numerator(n, x) == n) by (nonlinear_arith)
        requires
            shifted_numerator(n, x) == n * pow2(0),
            pow2(0) == 1,
    ;
    assert(scaled(0) + scaled(1) == 1);
    assert(1 * den == den);
}

/// Rounding by dropping the last `sh` bits of the integer part of a ratio.
proof fn lemma_round_general(
    n: nat,
    d: nat,
    q: nat,
    len: nat,
    x: int,
    k: nat,
    sh: nat,
    p: nat,
    sticky: bool,
    m: nat,
)
    requires
        d > 0,
        q == n / d,
        sticky == (n % d != 0),
        pow2((len - 1) as nat) <= q < pow2(len),
        25 <= len,
        k == if len + x > 24 { len + x - 24 } else { 0 },
        k <= 253,
        sh == k - x,
        1 <= sh,
        p == pow2(sh),
        m == q / p + if q % p > p / 2 || (q % p == p / 2 && (sticky || (q / p) % 2 == 1)) {
            1nat
        } else {
            0nat
        },
    ensures
        m <= 0x100_0000,
        k * 0x80_0000 + m <= INFINITY,
        rounds_to(shifted_numerator(n, x), shifted_denominator(d, x), k * 0x80_0000 + m),
{
    let up_by: nat = if x >= 0 { x as nat } else { 0 };
    let down_by: nat = if x < 0 { (-x) as nat } else { 0 };
    let rn: nat = n % d;
    let m0 = q / p;
    let low = q % p;
    let half = p / 2;
    let u = d * p;
    lemma_fundamental_div_mod(n as int, d as int);
    lemma_pow2_pos(up_by);
    lemma_pow2_pos(down_by);
    lemma_pow2_pos(sh);
    assert(n == q * d + rn) by (nonlinear_arith)
        requires
            n == d * (n / d) + n % d,
            q == n / d,
            rn == n % d,
    ;
    lemma_pow2_unfold(sh);
    lemma_pow2_pos((sh - 1) as nat);
    lemma_fundamental_div_mod(q as int, p as int);
    lemma_pow2_adds(24, sh);
    lemma_pow2_le(len, 24 + sh);
    lemma2_to64();
    assert(q == m0 * p + low) by (nonlinear_arith)
        requires
            q == p * (q / p) + q % p,
            m0 == q / p,
            low == q % p,
    ;
    assert(m0 < 0x100_0000) by (nonlinear_arith)
        requires
            q == m0 * p + low,
            q < 0x100_0000 * p,
            p > 0,
    ;
    lemma_nearest(
        n as int,
        d as int,
        q as int,
        rn as int,
        p as int,
        half as int,
        m0 as int,
        low as int,
        m as int,
    );
    assert(u > 0) by (nonlinear_arith)
        requires
            u == d * p,
            d > 0,
            p > 0,
    ;
    assert(n < 0x100_0000 * u) by (nonlinear_arith)
        requires
            n == q * d + rn,
            rn < d,
            q < 0x100_0000 * p,
            u == d * p,
    ;
    if k >= 1 {
        lemma_pow2_adds(23, sh);
        assert(m0 >= 0x80_0000) by (nonlinear_arith)
            requires
                q == m0 * p + low,
                low < p,
                q >= 0x80_0000 * p,
        ;
        assert(n >= 0x80_0000 * u) by (nonlinear_arith)
            requires
                n == q * d + rn,
                q >= 0x80_0000 * p,
                u == d * p,
                d > 0,
        ;
    }
    lemma_round_at_level(n, u, k, m);
    lemma_pow2_adds(k, down_by);
    lemma_pow2_adds(up_by, sh);
    let den = d * pow2(down_by);
    assert(den > 0) by (nonlinear_arith)
        requires
            den == d * pow2(down_by),
            d > 0,
            pow2(down_by) > 0,
    ;
    assert((n * pow2(k)) * den == (n * pow2(up_by)) * u) by (nonlinear_arith)
        requires
            pow2(k) * pow2(down_by) == pow2(up_by) * p,
            u == d * p,
            den == d * pow2(down_by),
    ;
    lemma_rounds_to_proportional(n * pow2(k), u, n * pow2(up_by), den, k * 0x80_0000 + m);
}

/// Rounds the ratio `n / d`, scaled by `2^x`, to the nearest magnitude.
///
/// The ratio arrives as its integer part `q`, whose bit length is `len`, and
/// a flag that tells whether the division left a remainder.
fn round(q: u64, len: u32, sticky: bool, x: i32, Ghost(n): Ghost<nat>, Ghost(d): Ghost<nat>) -> (r:
    u32)
    requires
        d > 0,
        q == n / d,
        sticky == (n % d != 0),
        26 <= len <= 48,
        pow2((len - 1) as nat) <= q < pow2(len as nat),
        -400 <= x <= 400,
    ensures
        r <= INFINITY,
        rounds_to(shifted_numerator(n, x as int), shifted_denominator(d, x as int), r as nat),
{
    proof {
        lemma_fundamental_div_mod(n as int, d as int);
        assert(q * d <= n < (q + 1) * d) by (nonlinear_arith)
            requires
                n == d * (n / d) + n % d,
                q == n / d,
                0 <= n % d < d,
        ;
    }
    let top: i32 = len as i32 + x;
    let k: i32 = if top > 24 { top - 24 } else { 0 };
    if k >= 254 {
        proof {
            lemma_round_overflow(n, d, q as nat, len as nat, x as int);
        }
        return INFINITY;
    }
    let sh: i32 = k - x;
    if sh > len as i32 {
        proof {
            lemma_round_underflow(n, d, q as nat, len as nat, x as int);
        }
        return 0;
    }
    proof {
        lemma2_to64();
        lemma2_to64_rest();
        lemma_pow2_le(sh as nat, 48);
        lemma_u64_shl_is_mul(1, sh as u64);
    }
    let p: u64 = 1u64 << (sh as u64);
    let m0: u64 = q / p;
    let low: u64 = q % p;
    let half: u64 = p / 2;
    let up: bool = low > half || (low == half && (sticky || m0 % 2 == 1));
    let m: u64 = if up { m0 + 1 } else { m0 };
    proof {
        lemma_round_general(
            n,
            d,
            q as nat,
            len as nat,
            x as int,
            k as nat,
            sh as nat,
            p as nat,
            sticky,
            m as nat,
        );
    }
    (k as u32) * 0x80_0000 + (m as u32)
}

/// Writes a finite, nonzero magnitude as a significand of exactly
/// twenty-four bits and a power of two.
fn unpack(m: u32) -> (parts: (u64, u32))
    requires
        0 < m < INFINITY,
    ensures
        0x80_0000 <= parts.0 < 0x100_0000,
        parts.1 <= 276,
        scaled(m as nat) * 0x80_0000 == parts.0 * pow2(parts.1 as nat),
{
    let e: u32 = m / 0x80_0000;
    let f: u32 = m % 0x80_0000;
    if e > 0 {
        proof {
            lemma_pow2_adds((e - 1) as nat, 23);
            lemma2_to64();
            assert(((0x80_0000 + f) * pow2((e - 1) as nat)) * 0x80_0000 == (0x80_0000 + f) * (pow2(
                (e - 1) as nat,
            ) * 0x80_0000)) by (nonlinear_arith);
        }
        (0x80_0000 + f as u64, e + 22)
    } else {
        let mut sig: u64 = f as u64;
        let mut w: u32 = 23;
        proof {
            lemma2_to64();
        }
        while sig < 0x80_0000
            invariant
                0 < sig < 0x100_0000,
                w <= 23,
                sig * pow2(w as nat) == f * 0x80_0000,
                f > 0,
            decreases 0x100_0000 - sig,
        {
            proof {
                lemma2_to64();
                if w == 0 {
                    assert(sig * pow2(0) == sig) by (nonlinear_arith)
                        requires
                            pow2(0) == 1,
                    ;
                } else {
                    lemma_pow2_unfold(w as nat);
                    assert((sig * 2) * pow2((w - 1) as nat) == sig * (2 * pow2((w - 1) as nat)))
                        by (nonlinear_arith);
                }
            }
            sig = sig * 2;
            w = w - 1;
        }
        (sig, w)
    }
}

/// The two products that a quotient's rounding is stated and computed on are
/// in proportion.
proof fn lemma_quotient_proportion(
    va: nat,
    vb: nat,
    sa: nat,
    sb: nat,
    wa: nat,
    wb: nat,
    x: int,
)
    requires
        va * 0x80_0000 == sa * pow2(wa),
        vb * 0x80_0000 == sb * pow2(wb),
        sb > 0,
        vb > 0,
        x == wa - wb + 109,
    ensures
        shifted_denominator(sb, x) > 0,
        shifted_numerator(sa * 0x100_0000_0000, x) * vb == (va * pow2(149)) * shifted_denominator(
            sb,
            x,
        ),
{
    let up_by: nat = if x >= 0 { x as nat } else { 0 };
    let down_by: nat = if x < 0 { (-x) as nat } else { 0 };
    let xu = pow2(up_by);
    let xd = pow2(down_by);
    let ea = pow2(wa);
    let eb = pow2(wb);
    let t = pow2(149);
    lemma_pow2_pos(up_by);
    lemma_pow2_pos(down_by);
    lemma2_to64_rest();
    lemma_pow2_adds(40, up_by);
    lemma_pow2_adds(40 + up_by, wb);
    lemma_pow2_adds(wa, 149);
    lemma_pow2_adds(wa + 149, down_by);
    assert(40 + up_by + wb == wa + 149 + down_by);
    assert(pow2(40) == 0x100_0000_0000);
    assert((0x100_0000_0000 * xu) * eb == (ea * t) * xd);
    let lhs = shifted_numerator(sa * 0x100_0000_0000, x) * vb;
    let rhs = (va * t) * shifted_denominator(sb, x);
    assert(lhs * 0x80_0000 == (sa * sb) * ((0x100_0000_0000 * xu) * eb)) by (nonlinear_arith)
        requires
            lhs == ((sa * 0x100_0000_0000) * xu) * vb,
            vb * 0x80_0000 == sb * eb,
    ;
    assert(rhs * 0x80_0000 == (sa * sb) * ((ea * t) * xd)) by (nonlinear_arith)
        requires
            rhs == (va * t) * (sb * xd),
            va * 0x80_0000 == sa * ea,
    ;
    assert(shifted_denominator(sb, x) > 0) by (nonlinear_arith)
        requires
            shifted_denominator(sb, x) == sb * xd,
            sb > 0,
            xd > 0,
    ;
}

/// The two products that a product's rounding is stated and computed on are
/// in proportion.
proof fn lemma_product_proportion(va: nat, vb: nat, sa: nat, sb: nat, wa: nat, wb: nat, x: int)
    requires
        va * 0x80_0000 == sa * pow2(wa),
        vb * 0x80_0000 == sb * pow2(wb),
        x == wa + wb - 195,
    ensures
        shifted_denominator(1, x) > 0,
        pow2(149) > 0,
        shifted_numerator(sa * sb, x) * pow2(149) == (va * vb) * shifted_denominator(1, x),
{
    let up_by: nat = if x >= 0 { x as nat } else { 0 };
    let down_by: nat = if x < 0 { (-x) as nat } else { 0 };
    let xu = pow2(up_by);
    let xd = pow2(down_by);
    let ea = pow2(wa);
    let eb = pow2(wb);
    let t = pow2(149);
    lemma_pow2_pos(up_by);
    lemma_pow2_pos(down_by);
    lemma_pow2_pos(149);
    lemma2_to64();
    lemma2_to64_rest();
    lemma_pow2_adds(up_by, 149);
    lemma_pow2_adds(up_by + 149, 46);
    lemma_pow2_adds(wa, wb);
    lemma_pow2_adds(wa + wb, down_by);
    lemma_pow2_adds(23, 23);
    assert((xu * t) * 0x4000_0000_0000 == (ea * eb) * xd);
    let lhs = shifted_numerator(sa * sb, x) * t;
    let rhs = (va * vb) * shifted_denominator(1, x);
    assert(lhs * 0x4000_0000_0000 == (sa * sb) * ((xu * t) * 0x4000_0000_0000))
        by (nonlinear_arith)
        requires
            lhs == ((sa * sb) * xu) * t,
    ;
    assert(rhs * 0x4000_0000_0000 == (sa * sb) * ((ea * eb) * xd)) by (nonlinear_arith)
        requires
            rhs == (va * vb) * (1 * xd),
            va * 0x80_0000 == sa * ea,
            vb * 0x80_0000 == sb * eb,
            0x4000_0000_0000 == 0x80_0000 * 0x80_0000,
    ;
    assert(shifted_denominator(1, x) == xd);
}

/// The quotient of two finite, nonzero magnitudes, correctly rounded.
pub(crate) fn div_magnitudes(ma: u32, mb: u32) -> (r: u32)
    requires
        0 < ma < INFINITY,
        0 < mb < INFINITY,
    ensures
        r <= INFINITY,
        rounds_to(scaled(ma as nat) * pow2(149), scaled(mb as nat), r as nat),
{
    let (sa, wa) = unpack(ma);
    let (sb, wb) = unpack(mb);
    let numerator: u64 = sa * 0x100_0000_0000;
    let quotient: u64 = numerator / sb;
    let remainder: u64 = numerator % sb;
    proof {
        lemma2_to64();
        lemma2_to64_rest();
        lemma_fundamental_div_mod(numerator as int, sb as int);
        assert(0x80_0000_0000 <= quotient < 0x200_0000_0000) by (nonlinear_arith)
            requires
                numerator == sb * quotient + remainder,
                0 <= remainder < sb,
                0x80_0000 <= sb < 0x100_0000,
                0x80_0000 * 0x100_0000_0000 <= numerator < 0x100_0000 * 0x100_0000_0000,
        ;
    }
    let len: u32 = if quotient >= 0x100_0000_0000 { 41 } else { 40 };
    let x: i32 = wa as i32 - wb as i32 + 109;
    let r: u32 = round(quotient, len, remainder != 0, x, Ghost(numerator as nat), Ghost(sb as nat));
    proof {
        let va = scaled(ma as nat);
        let vb = scaled(mb as nat);
        lemma_pow2_pos(wb as nat);
        assert(vb > 0) by (nonlinear_arith)
            requires
                vb * 0x80_0000 == sb * pow2(wb as nat),
                sb > 0,
                pow2(wb as nat) > 0,
        ;
        lemma_quotient_proportion(va, vb, sa as nat, sb as nat, wa as nat, wb as nat, x as int);
        lemma_rounds_to_proportional(
            shifted_numerator(numerator as nat, x as int),
            shifted_denominator(sb as nat, x as int),
            va * pow2(149),
            vb,
            r as nat,
        );
    }
    r
}

/// The product of two finite, nonzero magnitudes, correctly rounded.
pub(crate) fn mul_magnitudes(ma: u32, mb: u32) -> (r: u32)
    requires
        0 < ma < INFINITY,
        0 < mb < INFINITY,
    ensures
        r <= INFINITY,
        rounds_to(scaled(ma as nat) * scaled(mb as nat), pow2(149), r as nat),
{
    let (sa, wa) = unpack(ma);
    let (sb, wb) = unpack(mb);
    proof {
        assert(0x80_0000 * 0x80_0000 <= sa * sb < 0x100_0000 * 0x100_0000) by (nonlinear_arith)
            requires
                0x80_0000 <= sa < 0x100_0000,
                0x80_0000 <= sb < 0x100_0000,
        ;
        lemma2_to64();
        lemma2_to64_rest();
    }
    let significand: u64 = sa * sb;
    let len: u32 = if significand >= 0x8000_0000_0000 { 48 } else { 47 };
    let x: i32 = wa as i32 + wb as i32 - 195;
    let r: u32 = round(significand, len, false, x, Ghost(significand as nat), Ghost(1));
    proof {
        let va = scaled(ma as nat);
        let vb = scaled(mb as nat);
        lemma_product_proportion(va, vb, sa as nat, sb as nat, wa as nat, wb as nat, x as int);
        lemma_rounds_to_proportional(
            shifted_numerator(significand as nat, x as int),
            shifted_denominator(1, x as int),
            va * vb,
            pow2(149),
            r as nat,
        );
    }
    r
}

} // verus!
