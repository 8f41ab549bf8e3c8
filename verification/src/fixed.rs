//! Q32.32 fixed-point logarithm and exponential, used by the geometric
//! time-weighted average price.

use vstd::prelude::*;

verus! {

/// Two to the power `k`.
pub open spec fn p2(k: nat) -> nat
    decreases k,
{
    if k == 0 {
        1
    } else {
        2 * p2((k - 1) as nat)
    }
}

/// One in Q32.32.
pub open spec fn one_q32() -> int {
    4294967296
}

/// `ln(2)` in Q32.32.
pub open spec fn ln2_q32() -> int {
    2977044471
}

pub proof fn lemma_p2_pos(k: nat)
    ensures
        p2(k) >= 1,
    decreases k,
{
    if k > 0 {
        lemma_p2_pos((k - 1) as nat);
    }
}

pub proof fn lemma_p2_adds(a: nat, b: nat)
    ensures
        p2(a + b) == p2(a) * p2(b),
    decreases a,
{
    if a > 0 {
        lemma_p2_adds((a - 1) as nat, b);
        let c = p2((a - 1) as nat);
        assert(((a + b) - 1) as nat == ((a - 1) as nat + b) as nat);
        assert(p2(a + b) == 2 * (c * p2(b)));
        assert(p2(a) * p2(b) == 2 * (c * p2(b))) by (nonlinear_arith)
            requires p2(a) == 2 * c;
        assert(p2(a + b) == p2(a) * p2(b));
    } else {
        assert(p2(0) == 1);
        assert(a + b == b);
        assert(p2(a) * p2(b) == p2(b));
    }
}

pub proof fn lemma_p2_mono(a: nat, b: nat)
    requires
        a <= b,
    ensures
        p2(a) <= p2(b),
    decreases b,
{
    if a < b {
        lemma_p2_mono(a, (b - 1) as nat);
        lemma_p2_pos((b - 1) as nat);
    }
}

proof fn lemma_p2_values()
    ensures
        p2(32) == 4294967296,
        p2(33) == 8589934592,
        p2(64) == 0x1_0000_0000_0000_0000,
        p2(127) == 0x8000_0000_0000_0000_0000_0000_0000_0000,
{
    reveal_with_fuel(p2, 33);
    assert(p2(32) == 4294967296);
    lemma_p2_adds(32, 32);
    lemma_p2_adds(64, 32);
    lemma_p2_adds(96, 31);
    assert(p2(31) == 2147483648);
}

/// Two to the power `k` as a `u128`.
pub fn pow2_u128(k: u32) -> (r: u128)
    requires
        k <= 127,
    ensures
        r == p2(k as nat),
{
    let mut r: u128 = 1;
    let mut i: u32 = 0;
    proof {
        lemma_p2_values();
    }
    while i < k
        invariant
            i <= k <= 127,
            r == p2(i as nat),
            p2(127) == 0x8000_0000_0000_0000_0000_0000_0000_0000,
        decreases k - i,
    {
        proof {
            lemma_p2_mono((i + 1) as nat, 127);
        }
        r = r * 2;
        i = i + 1;
    }
    r
}

/// Index of the highest set bit of `x`.
pub open spec fn floor_log2(x: nat) -> nat
    decreases x,
{
    if x <= 1 {
        0
    } else {
        1 + floor_log2(x / 2)
    }
}

pub proof fn lemma_floor_log2_bounds(x: nat)
    requires
        x >= 1,
    ensures
        p2(floor_log2(x)) <= x < p2(floor_log2(x) + 1),
    decreases x,
{
    if x > 1 {
        lemma_floor_log2_bounds(x / 2);
    }
}

/// `x` scaled by a power of two into `[2^32, 2^33)`.
pub open spec fn log2_mantissa(x: nat) -> nat {
    let b = floor_log2(x);
    if b >= 32 {
        x / p2((b - 32) as nat)
    } else {
        x * p2((32 - b) as nat)
    }
}

/// Fraction bits `i..=32` of the binary logarithm of a mantissa `y` in
/// `[2^32, 2^33)`, by repeated squaring.
pub open spec fn log2_frac_bits(y: nat, i: nat) -> nat
    decreases 33 - i,
{
    if i > 32 || i == 0 {
        0
    } else {
        let y2 = y * y / 4294967296;
        if y2 >= 8589934592 {
            p2((32 - i) as nat) + log2_frac_bits(y2 / 2, i + 1)
        } else {
            log2_frac_bits(y2, i + 1)
        }
    }
}

/// Binary logarithm of a positive integer in Q32.32.
pub open spec fn log2_fixed_spec(x: nat) -> int {
    (floor_log2(x) as int - 32) * 4294967296 + log2_frac_bits(log2_mantissa(x), 1)
}

/// Binary logarithm of `value` in Q32.32 fixed point.
pub fn log2_fixed(value: i128) -> (r: i128)
    requires
        value > 0,
    ensures
        r == log2_fixed_spec(value as nat),
{
    let x = value as u128;
    proof {
        lemma_p2_values();
        lemma_floor_log2_bounds(x as nat);
    }
    let mut b: u32 = 0;
    let mut t: u128 = x;
    assert(p2(0) == 1);
    while t > 1
        invariant
            t >= 1,
            b + floor_log2(t as nat) == floor_log2(x as nat),
            b <= 127,
            t * p2(b as nat) <= x,
            x <= i128::MAX,
            p2(127) == 0x8000_0000_0000_0000_0000_0000_0000_0000,
        decreases t,
    {
        proof {
            lemma_floor_log2_bounds(t as nat);
            lemma_p2_pos(b as nat);
            assert(p2((b + 1) as nat) == 2 * p2(b as nat));
            assert((t / 2) * p2((b + 1) as nat) <= t * p2(b as nat)) by (nonlinear_arith)
                requires p2((b + 1) as nat) == 2 * p2(b as nat), t >= 2, p2(b as nat) >= 1;
            if b + 1 > 126 {
                lemma_p2_mono(127, (b + 1) as nat);
                assert((t / 2) * p2((b + 1) as nat) >= p2((b + 1) as nat)) by (nonlinear_arith)
                    requires t >= 2, p2((b + 1) as nat) >= 1;
            }
        }
        t = t / 2;
        b = b + 1;
    }
    let ghost bl = floor_log2(x as nat);
    assert(b == bl);
    let y: u128;
    if b >= 32 {
        let d = pow2_u128(b - 32);
        proof {
            lemma_p2_pos((b - 32) as nat);
        }
        y = x / d;
    } else {
        proof {
            lemma_p2_adds((32 - b) as nat, (b + 1) as nat);
            assert(p2(33) == p2((32 - b) as nat) * p2((b + 1) as nat));
            lemma_p2_pos((32 - b) as nat);
            assert(x * p2((32 - b) as nat) < 8589934592) by (nonlinear_arith)
                requires x < p2((b + 1) as nat), p2((32 - b) as nat) >= 1,
                    p2((32 - b) as nat) * p2((b + 1) as nat) == 8589934592;
            lemma_p2_mono((32 - b) as nat, 32);
        }
        let m = pow2_u128(32 - b);
        y = x * m;
    }
    assert(y == log2_mantissa(x as nat));
    proof {
        lemma_mantissa_range(x as nat);
    }
    proof {
        lemma_frac_bits_bound(y as nat, 1);
    }
    let mut yy: u128 = y;
    let mut frac: u128 = 0;
    let mut i: u32 = 1;
    while i <= 32
        invariant
            1 <= i <= 33,
            4294967296 <= yy < 8589934592,
            frac + log2_frac_bits(yy as nat, i as nat) == log2_frac_bits(y as nat, 1),
            log2_frac_bits(y as nat, 1) < 4294967296,
        decreases 33 - i,
    {
        assert(yy * yy < 0x4_0000_0000_0000_0000) by (nonlinear_arith)
            requires yy < 8589934592;
        assert(yy * yy >= 4294967296 * 4294967296) by (nonlinear_arith)
            requires yy >= 4294967296;
        let y2 = yy * yy / 4294967296;
        if y2 >= 8589934592 {
            let bit = pow2_u128(32 - i);
            proof {
                lemma_p2_mono((32 - i) as nat, 32);
            }
            frac = frac + bit;
            yy = y2 / 2;
        } else {
            yy = y2;
        }
        i = i + 1;
    }
    let exp: i128 = b as i128 - 32;
    exp * 4294967296 + frac as i128
}

proof fn lemma_mantissa_range(x: nat)
    requires
        x >= 1,
    ensures
        4294967296 <= log2_mantissa(x) < 8589934592,
{
    lemma_p2_values();
    lemma_floor_log2_bounds(x);
    let b = floor_log2(x);
    if b >= 32 {
        let d = p2((b - 32) as nat);
        lemma_p2_adds(32, (b - 32) as nat);
        lemma_p2_adds(33, (b - 32) as nat);
        lemma_p2_pos((b - 32) as nat);
        assert(p2(b) == 4294967296 * d);
        assert(p2(b + 1) == 8589934592 * d);
        assert(x / d >= 4294967296) by (nonlinear_arith)
            requires x >= 4294967296 * d, d >= 1;
        assert(x / d < 8589934592) by (nonlinear_arith)
            requires x < 8589934592 * d, d >= 1;
    } else {
        let m = p2((32 - b) as nat);
        lemma_p2_pos((32 - b) as nat);
        lemma_p2_adds((32 - b) as nat, b);
        lemma_p2_adds((32 - b) as nat, b + 1);
        assert(x * m >= p2(b) * m) by (nonlinear_arith)
            requires x >= p2(b), m >= 0;
        assert(x * m < p2(b + 1) * m) by (nonlinear_arith)
            requires x < p2(b + 1), m >= 1;
        lemma_p2_pos((32 - b) as nat);
    }
}

/// The Q32.32 logarithm of a positive `i128` lies in `[-32, 96)` (in units
/// of `2^32`).
pub proof fn lemma_log2_fixed_range(x: nat)
    requires
        1 <= x <= i128::MAX,
    ensures
        -32 * 4294967296 <= log2_fixed_spec(x) < 96 * 4294967296,
{
    lemma_p2_values();
    lemma_mantissa_range(x);
    lemma_frac_bits_bound(log2_mantissa(x), 1);
    lemma_floor_log2_bounds(x);
    let b = floor_log2(x);
    if b >= 127 {
        lemma_p2_adds(32, 32);
        lemma_p2_adds(64, 32);
        lemma_p2_adds(96, 31);
        lemma_p2_adds(31, 1);
        assert(p2(0) == 1);
        assert(p2(1) == 2 * p2(0));
        lemma_p2_mono(127, b);
        assert(p2(127) == 0x8000_0000_0000_0000_0000_0000_0000_0000);
        assert(false);
    }
}

proof fn lemma_frac_bits_bound(y: nat, i: nat)
    requires
        1 <= i <= 33,
        4294967296 <= y < 8589934592,
    ensures
        log2_frac_bits(y, i) < p2((33 - i) as nat),
    decreases 33 - i,
{
    if i <= 32 {
        let y2 = y * y / 4294967296;
        assert(y * y < 0x4_0000_0000_0000_0000) by (nonlinear_arith)
            requires y < 8589934592;
        assert(y * y >= 4294967296 * 4294967296) by (nonlinear_arith)
            requires y >= 4294967296;
        assert(p2((33 - i) as nat) == 2 * p2((32 - i) as nat));
        if y2 >= 8589934592 {
            lemma_frac_bits_bound(y2 / 2, i + 1);
        } else {
            lemma_frac_bits_bound(y2, i + 1);
        }
    }
}


/// `x` clamped to the range of `u128`.
pub open spec fn sat_u128(x: int) -> int {
    if x > u128::MAX {
        u128::MAX as int
    } else {
        x
    }
}

/// Q32.32 product with a saturating multiplication.
pub open spec fn q32_mul(a: int, b: int) -> int {
    sat_u128(a * b) / 4294967296
}

/// `2^(frac / 2^32)` in Q32.32 for a fraction `frac < 2^32`, by the
/// degree-six Taylor polynomial of `e^(frac * ln 2)`, every step saturating.
pub open spec fn exp2_frac_spec(frac: int) -> int {
    let x = q32_mul(frac, ln2_q32());
    let x2 = q32_mul(x, x);
    let x3 = q32_mul(x2, x);
    let x4 = q32_mul(x3, x);
    let x5 = q32_mul(x4, x);
    let x6 = q32_mul(x5, x);
    sat_u128(sat_u128(sat_u128(sat_u128(sat_u128(sat_u128(one_q32() + x) + x2 / 2) + x3 / 6) + x4 / 24) + x5 / 120) + x6 / 720)
}

/// Saturating `u128` multiplication.
pub fn sat_mul_u128(a: u128, b: u128) -> (r: u128)
    ensures
        r == sat_u128(a * b),
{
    match a.checked_mul(b) {
        Some(x) => x,
        None => u128::MAX,
    }
}

/// `2^(frac / 2^32)` in Q32.32 (see `exp2_frac_spec`).
pub fn exp2_frac(frac: u128) -> (r: u128)
    ensures
        r == exp2_frac_spec(frac as int),
{
    let ln2: u128 = 2977044471;
    let one: u128 = 4294967296;
    let x = sat_mul_u128(frac, ln2) / one;
    let x2 = sat_mul_u128(x, x) / one;
    let x3 = sat_mul_u128(x2, x) / one;
    let x4 = sat_mul_u128(x3, x) / one;
    let x5 = sat_mul_u128(x4, x) / one;
    let x6 = sat_mul_u128(x5, x) / one;
    one.saturating_add(x).saturating_add(x2 / 2).saturating_add(x3 / 6).saturating_add(x4 / 24).saturating_add(
        x5 / 120,
    ).saturating_add(x6 / 720)
}

/// `2^(log2 / 2^32)` for a Q32.32 exponent: the fractional part through
/// `exp2_frac`, then shifted by the integer part. A shift left wraps as a
/// `u128` and the result is read as an `i128`; an integer part of 96 or
/// more gives `i128::MAX`.
pub open spec fn exp2_fixed_spec(log2: int) -> int {
    let ip = log2 / 4294967296;
    let fr = log2 % 4294967296;
    let base = exp2_frac_spec(fr);
    if ip >= 0 {
        if ip >= 96 {
            i128::MAX as int
        } else {
            (((base * (p2(ip as nat) as int)) % (u128::MAX as int + 1)) as u128) as i128 as int
        }
    } else {
        ((base / (p2((-ip) as nat) as int)) as u128) as i128 as int
    }
}

/// `2` raised to a Q32.32 exponent (see `exp2_fixed_spec`). The integer part
/// of the exponent must exceed -128, since a shift by 128 or more bits
/// is out of range.
pub fn exp2_fixed(log2: i128) -> (r: i128)
    requires
        log2 >= -128 * 4294967296 + 4294967296,
    ensures
        r == exp2_fixed_spec(log2 as int),
{
    let one: i128 = 4294967296;
    let int_part: i128;
    if log2 >= 0 {
        int_part = log2 / one;
    } else {
        int_part = -((-log2 - 1) / one) - 1;
    }
    let frac_i: i128 = log2 - int_part * one;
    assert(int_part == log2 / 4294967296 && frac_i == log2 % 4294967296);
    let frac = frac_i as u128;
    let base = exp2_frac(frac);
    if int_part >= 0 {
        if int_part >= 96 {
            return i128::MAX;
        }
        let m = pow2_u128(int_part as u32);
        let shifted = base.wrapping_mul(m);
        shifted as i128
    } else {
        let d = pow2_u128((-int_part) as u32);
        proof {
            lemma_p2_pos((-int_part) as nat);
        }
        (base / d) as i128
    }
}

/// The logarithm's integer part is that of `x`'s highest set bit: the
/// Q32.32 value lies in `[(b - 32) * 2^32, (b - 31) * 2^32)` for
/// `b = floor_log2(x)`, its fraction bits below `2^32`.
pub proof fn lemma_log2_fixed_integer_part(x: nat)
    requires
        x >= 1,
    ensures
        (floor_log2(x) as int - 32) * 4294967296 <= log2_fixed_spec(x) < (floor_log2(x) as int - 31) * 4294967296,
        0 <= log2_fixed_spec(x) - (floor_log2(x) as int - 32) * 4294967296 < 4294967296,
{
    lemma_p2_values();
    lemma_mantissa_range(x);
    lemma_frac_bits_bound(log2_mantissa(x), 1);
}

/// The highest set bit of `2^k` is bit `k`.
pub proof fn lemma_floor_log2_p2(k: nat)
    ensures
        floor_log2(p2(k)) == k,
    decreases k,
{
    if k > 0 {
        lemma_p2_pos((k - 1) as nat);
        assert(p2(k) / 2 == p2((k - 1) as nat));
        lemma_floor_log2_p2((k - 1) as nat);
    }
}

/// Squaring `1.0` never reaches `2.0`: no fraction bit of `log2(1)` is set.
proof fn lemma_frac_bits_one(i: nat)
    requires
        i >= 1,
    ensures
        log2_frac_bits(4294967296, i) == 0,
    decreases 33 - i,
{
    if i <= 32 {
        assert(4294967296nat * 4294967296 / 4294967296 == 4294967296) by (nonlinear_arith);
        lemma_frac_bits_one(i + 1);
    }
}

/// The Q32.32 logarithm of `2^k` is exactly `k - 32`.
pub proof fn lemma_log2_fixed_p2(k: nat)
    requires
        k <= 126,
    ensures
        log2_fixed_spec(p2(k)) == (k as int - 32) * 4294967296,
{
    lemma_p2_values();
    lemma_floor_log2_p2(k);
    if k >= 32 {
        lemma_p2_adds(32, (k - 32) as nat);
        lemma_p2_pos((k - 32) as nat);
        let d = p2((k - 32) as nat);
        assert(p2(k) / d == 4294967296) by (nonlinear_arith)
            requires p2(k) == 4294967296 * d, d >= 1;
    } else {
        lemma_p2_adds(k, (32 - k) as nat);
    }
    assert(log2_mantissa(p2(k)) == 4294967296);
    lemma_frac_bits_one(1);
}

/// `2^0` is `1.0` in Q32.32.
pub proof fn lemma_exp2_frac_zero()
    ensures
        exp2_frac_spec(0) == 4294967296,
{
    assert(q32_mul(0, ln2_q32()) == 0);
    assert(q32_mul(0, 0) == 0);
    assert(sat_u128(one_q32()) == 4294967296);
}

/// The exponential of an integral exponent `k - 32` is exactly `2^k`.
pub proof fn lemma_exp2_fixed_integral(k: nat)
    requires
        k <= 126,
    ensures
        exp2_fixed_spec((k as int - 32) * 4294967296) == p2(k),
{
    lemma_p2_values();
    let e = (k as int - 32) * 4294967296;
    assert(e / 4294967296 == k as int - 32);
    assert(e % 4294967296 == 0);
    lemma_exp2_frac_zero();
    if k >= 32 {
        lemma_p2_adds(32, (k - 32) as nat);
        lemma_p2_mono(k, 126);
        lemma_p2_adds(126, 1);
        assert(p2(126) < 0x8000_0000_0000_0000_0000_0000_0000_0000);
        assert(4294967296 * p2((k - 32) as nat) == p2(k));
        assert((p2(k) as int) % (u128::MAX as int + 1) == p2(k) as int);
    } else {
        lemma_p2_adds(k, (32 - k) as nat);
        lemma_p2_pos((32 - k) as nat);
        lemma_p2_pos(k);
        let d = p2((32 - k) as nat);
        assert(4294967296nat / d == p2(k)) by (nonlinear_arith)
            requires 4294967296nat == p2(k) * d, d >= 1;
        lemma_p2_mono(k, 32);
    }
}

/// Saturating Q32.32 products of non-negative factors grow with them.
proof fn lemma_q32_mul_mono(a1: int, a2: int, b1: int, b2: int)
    requires
        0 <= a1 <= a2,
        0 <= b1 <= b2,
    ensures
        0 <= q32_mul(a1, b1) <= q32_mul(a2, b2),
{
    assert(0 <= a1 * b1 <= a2 * b2) by (nonlinear_arith)
        requires 0 <= a1 <= a2, 0 <= b1 <= b2;
    assert(sat_u128(a1 * b1) <= sat_u128(a2 * b2));
    assert(sat_u128(a1 * b1) / 4294967296 <= sat_u128(a2 * b2) / 4294967296) by (nonlinear_arith)
        requires 0 <= sat_u128(a1 * b1) <= sat_u128(a2 * b2);
    assert(sat_u128(a1 * b1) / 4294967296 >= 0) by (nonlinear_arith)
        requires 0 <= sat_u128(a1 * b1);
}

/// The fractional exponential grows with the fraction, and is at least 1.0.
pub proof fn lemma_exp2_frac_mono(f1: int, f2: int)
    requires
        0 <= f1 <= f2,
    ensures
        4294967296 <= exp2_frac_spec(f1) <= exp2_frac_spec(f2),
{
    let l = ln2_q32();
    lemma_q32_mul_mono(f1, f2, l, l);
    let (x, y) = (q32_mul(f1, l), q32_mul(f2, l));
    lemma_q32_mul_mono(x, y, x, y);
    let (x2, y2) = (q32_mul(x, x), q32_mul(y, y));
    lemma_q32_mul_mono(x2, y2, x, y);
    let (x3, y3) = (q32_mul(x2, x), q32_mul(y2, y));
    lemma_q32_mul_mono(x3, y3, x, y);
    let (x4, y4) = (q32_mul(x3, x), q32_mul(y3, y));
    lemma_q32_mul_mono(x4, y4, x, y);
    let (x5, y5) = (q32_mul(x4, x), q32_mul(y4, y));
    lemma_q32_mul_mono(x5, y5, x, y);
    let (x6, y6) = (q32_mul(x5, x), q32_mul(y5, y));
    assert(x2 / 2 <= y2 / 2 && x3 / 6 <= y3 / 6 && x4 / 24 <= y4 / 24 && x5 / 120 <= y5 / 120 && x6 / 720 <= y6 / 720) by (nonlinear_arith)
        requires 0 <= x2 <= y2, 0 <= x3 <= y3, 0 <= x4 <= y4, 0 <= x5 <= y5, 0 <= x6 <= y6;
    assert(x2 / 2 >= 0 && x3 / 6 >= 0 && x4 / 24 >= 0 && x5 / 120 >= 0 && x6 / 720 >= 0) by (nonlinear_arith)
        requires 0 <= x2, 0 <= x3, 0 <= x4, 0 <= x5, 0 <= x6;
}

/// The steps of the fractional exponential at the largest fraction.
proof fn lemma_q32_steps_at_top()
    ensures
        q32_mul(4294967295, 2977044471) == 2977044470,
        q32_mul(2977044470, 2977044470) == 2063529979,
        q32_mul(2063529979, 2977044470) == 1430329986,
        q32_mul(1430329986, 2977044470) == 991429196,
        q32_mul(991429196, 2977044470) == 687206351,
        q32_mul(687206351, 2977044470) == 476335144,
{
    assert(4294967295int * 2977044471int == 12786308638705575945int) by (nonlinear_arith);
    assert(sat_u128(12786308638705575945int) == 12786308638705575945int);
    assert(12786308638705575945int / 4294967296 == 2977044470);
    assert(2977044470int * 2977044470int == 8862793776357580900int) by (nonlinear_arith);
    assert(sat_u128(8862793776357580900int) == 8862793776357580900int);
    assert(8862793776357580900int / 4294967296 == 2063529979);
    assert(2063529979int * 2977044470int == 6143220512661166130int) by (nonlinear_arith);
    assert(sat_u128(6143220512661166130int) == 6143220512661166130int);
    assert(6143220512661166130int / 4294967296 == 1430329986);
    assert(1430329986int * 2977044470int == 4258155975096477420int) by (nonlinear_arith);
    assert(sat_u128(4258155975096477420int) == 4258155975096477420int);
    assert(4258155975096477420int / 4294967296 == 991429196);
    assert(991429196int * 2977044470int == 2951528805348346120int) by (nonlinear_arith);
    assert(sat_u128(2951528805348346120int) == 2951528805348346120int);
    assert(2951528805348346120int / 4294967296 == 687206351);
    assert(687206351int * 2977044470int == 2045843866993428970int) by (nonlinear_arith);
    assert(sat_u128(2045843866993428970int) == 2045843866993428970int);
    assert(2045843866993428970int / 4294967296 == 476335144);
}

/// For a fraction in `[0, 1)`, the fractional exponential lies in
/// `[1.0, 2.0)` in Q32.32.
pub proof fn lemma_exp2_frac_range(frac: int)
    requires
        0 <= frac < 4294967296,
    ensures
        4294967296 <= exp2_frac_spec(frac) < 8589934592,
{
    lemma_exp2_frac_mono(frac, 4294967295);
    lemma_q32_steps_at_top();
    assert(exp2_frac_spec(4294967295) == 8589862930);
}

/// For an exponent with integer part `i` in `0..=94`, `2^(log2 / 2^32)`
/// in Q32.32 lies in `[2^(32 + i), 2^(33 + i))`; a negative integer part
/// shifts the fractional exponential right, and 96 or more saturates.
pub proof fn lemma_exp2_fixed_range(log2: int)
    ensures
        0 <= log2 / 4294967296 <= 94 ==> {
            let i = (log2 / 4294967296) as nat;
            &&& p2(32 + i) <= exp2_fixed_spec(log2) < p2(33 + i)
        },
        log2 / 4294967296 < 0 ==> exp2_fixed_spec(log2)
            == exp2_frac_spec(log2 % 4294967296) / (p2((-(log2 / 4294967296)) as nat) as int),
        log2 / 4294967296 >= 96 ==> exp2_fixed_spec(log2) == i128::MAX,
{
    let ip = log2 / 4294967296;
    let fr = log2 % 4294967296;
    lemma_exp2_frac_range(fr);
    let base = exp2_frac_spec(fr);
    lemma_p2_values();
    if 0 <= ip <= 94 {
        let i = ip as nat;
        let m = p2(i);
        lemma_p2_pos(i);
        lemma_p2_adds(32, i);
        lemma_p2_adds(33, i);
        assert(4294967296 * m <= base * m < 8589934592 * m) by (nonlinear_arith)
            requires 4294967296 <= base < 8589934592, m >= 1;
        lemma_p2_mono(33 + i, 127);
        assert(p2(127) == 0x8000_0000_0000_0000_0000_0000_0000_0000);
        assert((base * m) % (u128::MAX as int + 1) == base * m);
    }
    if ip < 0 {
        lemma_p2_pos((-ip) as nat);
        assert(0 <= base / (p2((-ip) as nat) as int) <= base) by (nonlinear_arith)
            requires base >= 0, p2((-ip) as nat) >= 1;
    }
}

/// The fraction bits grow with the mantissa.
proof fn lemma_frac_bits_mono(y: nat, z: nat, i: nat)
    requires
        1 <= i <= 33,
        4294967296 <= y <= z < 8589934592,
    ensures
        log2_frac_bits(y, i) <= log2_frac_bits(z, i),
    decreases 33 - i,
{
    if i <= 32 {
        let y2 = y * y / 4294967296;
        let z2 = z * z / 4294967296;
        assert(y * y <= z * z) by (nonlinear_arith)
            requires y <= z;
        vstd::arithmetic::div_mod::lemma_div_is_ordered((y * y) as int, (z * z) as int, 4294967296);
        assert(y * y < 0x4_0000_0000_0000_0000) by (nonlinear_arith)
            requires y < 8589934592;
        assert(y * y >= 4294967296 * 4294967296) by (nonlinear_arith)
            requires y >= 4294967296;
        assert(z * z < 0x4_0000_0000_0000_0000) by (nonlinear_arith)
            requires z < 8589934592;
        if z2 >= 8589934592 {
            if y2 >= 8589934592 {
                lemma_frac_bits_mono(y2 / 2, z2 / 2, i + 1);
            } else {
                lemma_frac_bits_bound(y2, i + 1);
            }
        } else {
            lemma_frac_bits_mono(y2, z2, i + 1);
        }
    }
}

/// The Q32.32 logarithm never decreases: `0 < a <= b` gives
/// `log2_fixed(a) <= log2_fixed(b)`.
pub proof fn lemma_log2_fixed_mono(a: nat, b: nat)
    requires
        1 <= a <= b,
    ensures
        log2_fixed_spec(a) <= log2_fixed_spec(b),
{
    lemma_log2_fixed_integer_part(a);
    lemma_log2_fixed_integer_part(b);
    lemma_floor_log2_bounds(a);
    lemma_floor_log2_bounds(b);
    let (ea, eb) = (floor_log2(a), floor_log2(b));
    if ea > eb {
        lemma_p2_mono(eb + 1, ea);
        assert(false);
    }
    if ea == eb {
        lemma_mantissa_range(a);
        lemma_mantissa_range(b);
        if ea >= 32 {
            let d = p2((ea - 32) as nat);
            lemma_p2_pos((ea - 32) as nat);
            assert(a / d <= b / d) by (nonlinear_arith)
                requires a <= b, d >= 1;
        } else {
            let m = p2((32 - ea) as nat);
            assert(a * m <= b * m) by (nonlinear_arith)
                requires a <= b, m >= 0;
        }
        lemma_frac_bits_mono(log2_mantissa(a), log2_mantissa(b), 1);
    }
}

/// `p2` is `pow` at base two.
proof fn lemma_p2_is_pow(k: nat)
    ensures
        p2(k) == vstd::arithmetic::power::pow(2, k),
    decreases k,
{
    reveal(vstd::arithmetic::power::pow);
    if k > 0 {
        lemma_p2_is_pow((k - 1) as nat);
    }
}

/// Raising to a power keeps the order of non-negative bases.
proof fn lemma_pow_base_le(a: int, b: int, n: nat)
    requires
        0 <= a <= b,
    ensures
        0 <= vstd::arithmetic::power::pow(a, n) <= vstd::arithmetic::power::pow(b, n),
    decreases n,
{
    reveal(vstd::arithmetic::power::pow);
    if n > 0 {
        lemma_pow_base_le(a, b, (n - 1) as nat);
        let pa = vstd::arithmetic::power::pow(a, (n - 1) as nat);
        let pb = vstd::arithmetic::power::pow(b, (n - 1) as nat);
        assert(a * pa <= b * pb && 0 <= a * pa) by (nonlinear_arith)
            requires 0 <= a <= b, 0 <= pa <= pb;
    }
}

/// Raising to a positive power keeps the strict order of non-negative bases.
proof fn lemma_pow_base_lt(a: int, b: int, n: nat)
    requires
        0 <= a < b,
        n >= 1,
    ensures
        vstd::arithmetic::power::pow(a, n) < vstd::arithmetic::power::pow(b, n),
    decreases n,
{
    reveal(vstd::arithmetic::power::pow);
    let pa = vstd::arithmetic::power::pow(a, (n - 1) as nat);
    let pb = vstd::arithmetic::power::pow(b, (n - 1) as nat);
    lemma_pow_base_le(a, b, (n - 1) as nat);
    vstd::arithmetic::power::lemma_pow_positive(b, (n - 1) as nat);
    assert(a * pa < b * pb) by (nonlinear_arith)
        requires 0 <= a < b, 0 <= pa <= pb, pb > 0;
}

/// The fraction bits from step `i` on never overstate the logarithm of the
/// mantissa: with `n = 2^(33 - i)`, `2^bits * (2^32)^n <= y^n`.
proof fn lemma_frac_bits_below(y: nat, i: nat)
    requires
        1 <= i <= 33,
        4294967296 <= y < 8589934592,
    ensures
        vstd::arithmetic::power::pow(2, log2_frac_bits(y, i)) * vstd::arithmetic::power::pow(4294967296, p2((33 - i) as nat))
            <= vstd::arithmetic::power::pow(y as int, p2((33 - i) as nat)),
    decreases 33 - i,
{
    let qq: int = 4294967296;
    if i > 32 {
        assert(p2(0) == 1);
        assert(log2_frac_bits(y, i) == 0);
        vstd::arithmetic::power::lemma_pow0(2);
        vstd::arithmetic::power::lemma_pow1(qq);
        vstd::arithmetic::power::lemma_pow1(y as int);
    } else {
        let m = p2((32 - i) as nat);
        let n = p2((33 - i) as nat);
        assert(((33 - i) as nat - 1) as nat == (32 - i) as nat);
        assert(n == 2 * m);
        lemma_p2_pos((32 - i) as nat);
        let y2 = y * y / 4294967296;
        assert(y * y < 0x4_0000_0000_0000_0000) by (nonlinear_arith)
            requires y < 8589934592;
        assert(y * y >= 4294967296 * 4294967296) by (nonlinear_arith)
            requires y >= 4294967296;
        assert(qq * y2 <= y * y) by (nonlinear_arith)
            requires y2 == y * y / 4294967296, qq == 4294967296;
        let yy: int = (y * y) as int;
        vstd::arithmetic::power::lemma_square_is_pow2(y as int);
        vstd::arithmetic::power::lemma_pow_multiplies(y as int, 2, m);
        assert(vstd::arithmetic::power::pow(yy, m) == vstd::arithmetic::power::pow(y as int, n));
        vstd::arithmetic::power::lemma_pow_adds(qq, m, m);
        let pq = vstd::arithmetic::power::pow(qq, m);
        vstd::arithmetic::power::lemma_pow_positive(qq, m);
        assert(vstd::arithmetic::power::pow(qq, n) == pq * pq);
        if y2 >= 8589934592 {
            let z = y2 / 2;
            lemma_frac_bits_below(z, i + 1);
            let b1 = log2_frac_bits(z, i + 1);
            assert(log2_frac_bits(y, i) == m + b1);
            vstd::arithmetic::power::lemma_pow_adds(2, m, b1);
            let p2m = vstd::arithmetic::power::pow(2, m);
            let pb = vstd::arithmetic::power::pow(2, b1);
            let pz = vstd::arithmetic::power::pow(z as int, m);
            vstd::arithmetic::power::lemma_pow_positive(2, m);
            vstd::arithmetic::power::lemma_pow_positive(2, b1);
            assert(pb * pq <= pz);
            assert(p2m * pb * (pq * pq) <= p2m * pq * pz) by (nonlinear_arith)
                requires pb * pq <= pz, p2m > 0, pq > 0, pb > 0;
            vstd::arithmetic::power::lemma_pow_distributes(2, qq, m);
            vstd::arithmetic::power::lemma_pow_distributes(2 * qq, z as int, m);
            assert(p2m * pq * pz == vstd::arithmetic::power::pow(2 * qq * z, m));
            assert(2 * qq * z <= yy) by (nonlinear_arith)
                requires z == y2 / 2, qq * y2 <= yy, y2 >= 0, qq > 0;
            lemma_pow_base_le(2 * qq * z, yy, m);
        } else {
            lemma_frac_bits_below(y2, i + 1);
            let b1 = log2_frac_bits(y2, i + 1);
            assert(log2_frac_bits(y, i) == b1);
            let pb = vstd::arithmetic::power::pow(2, b1);
            let pz = vstd::arithmetic::power::pow(y2 as int, m);
            vstd::arithmetic::power::lemma_pow_positive(2, b1);
            assert(pb * pq <= pz);
            assert(pb * (pq * pq) <= pz * pq) by (nonlinear_arith)
                requires pb * pq <= pz, pq > 0, pb > 0;
            vstd::arithmetic::power::lemma_pow_distributes(y2 as int, qq, m);
            assert(pz * pq == vstd::arithmetic::power::pow(y2 * qq, m));
            assert(y2 * qq <= yy) by (nonlinear_arith)
                requires qq * y2 <= yy;
            lemma_pow_base_le(y2 * qq, yy, m);
        }
    }
}

/// The Q32.32 logarithm `r` of `x >= 1` is the binary logarithm of
/// `x / 2^32` rounded down to within less than one: `2^(r / 2^32) <= x / 2^32
/// < 2^(r / 2^32 + 1)`, raised to the power `2^32` to stay in integers.
pub proof fn lemma_log2_fixed_brackets(x: nat)
    requires
        x >= 1,
    ensures
        log2_fixed_spec(x) + 32 * 4294967296 >= 0,
        vstd::arithmetic::power::pow(2, (log2_fixed_spec(x) + 32 * 4294967296) as nat) <= vstd::arithmetic::power::pow(x as int, 4294967296),
        vstd::arithmetic::power::pow(x as int, 4294967296) < vstd::arithmetic::power::pow(2, (log2_fixed_spec(x) + 33 * 4294967296) as nat),
{
    let qq: int = 4294967296;
    let qn: nat = 4294967296;
    lemma_p2_values();
    lemma_floor_log2_bounds(x);
    lemma_mantissa_range(x);
    lemma_frac_bits_bound(log2_mantissa(x), 1);
    let k = floor_log2(x);
    let y = log2_mantissa(x);
    let f = log2_frac_bits(y, 1);
    assert(log2_fixed_spec(x) == (k - 32) * qq + f);
    lemma_frac_bits_below(y, 1);
    assert(p2((33 - 1) as nat) == qn);
    let pf = vstd::arithmetic::power::pow(2, f);
    let pqq = vstd::arithmetic::power::pow(qq, qn);
    let py = vstd::arithmetic::power::pow(y as int, qn);
    let px = vstd::arithmetic::power::pow(x as int, qn);
    assert(pf * pqq <= py);
    assert(k * qq >= 0) by (nonlinear_arith) requires k >= 0, qq > 0;
    let lo: nat = (k * qq + f) as nat;
    assert(log2_fixed_spec(x) + 32 * qq == lo);
    // pow(2, 32 * 2^32) == (2^32)^(2^32)
    lemma_p2_is_pow(32);
    vstd::arithmetic::power::lemma_pow_multiplies(2, 32, qn);
    assert(vstd::arithmetic::power::pow(2, 32 * qn) == pqq);
    vstd::arithmetic::power::lemma_pow_positive(2, f);
    vstd::arithmetic::power::lemma_pow_positive(qq, qn);
    if k >= 32 {
        let d = p2((k - 32) as nat);
        lemma_p2_pos((k - 32) as nat);
        lemma_p2_is_pow((k - 32) as nat);
        assert(y * d <= x) by (nonlinear_arith)
            requires y == x / d, d >= 1;
        vstd::arithmetic::power::lemma_pow_multiplies(2, (k - 32) as nat, qn);
        let pd = vstd::arithmetic::power::pow(d as int, qn);
        assert(vstd::arithmetic::power::pow(2, ((k - 32) * qn) as nat) == pd);
        assert(((k - 32) * qn) + 32 * qn == k * qn) by (nonlinear_arith);
        assert(lo == f + (32 * qn + (k - 32) * qn)) by (nonlinear_arith)
            requires lo == k * qq + f, qq == qn;
        assert((k - 32) * qn >= 0) by (nonlinear_arith) requires k >= 32;
        vstd::arithmetic::power::lemma_pow_adds(2, f, (32 * qn + (k - 32) * qn) as nat);
        vstd::arithmetic::power::lemma_pow_adds(2, 32 * qn, ((k - 32) * qn) as nat);
        assert(vstd::arithmetic::power::pow(2, lo) == pf * (pqq * pd));
        vstd::arithmetic::power::lemma_pow_distributes(y as int, d as int, qn);
        lemma_pow_base_le((y * d) as int, x as int, qn);
        lemma_pow_base_le(0, d as int, qn);
        assert(pf * (pqq * pd) <= py * pd) by (nonlinear_arith)
            requires pf * pqq <= py, pd >= 0;
    } else {
        let m = p2((32 - k) as nat);
        lemma_p2_pos((32 - k) as nat);
        lemma_p2_is_pow((32 - k) as nat);
        assert(y == x * m);
        vstd::arithmetic::power::lemma_pow_multiplies(2, (32 - k) as nat, qn);
        let pm = vstd::arithmetic::power::pow(m as int, qn);
        vstd::arithmetic::power::lemma_pow_positive(m as int, qn);
        assert(vstd::arithmetic::power::pow(2, ((32 - k) * qn) as nat) == pm);
        assert((32 - k) * qn >= 0) by (nonlinear_arith) requires k < 32;
        assert(k * qn + (32 - k) * qn == 32 * qn) by (nonlinear_arith);
        vstd::arithmetic::power::lemma_pow_adds(2, (k * qn) as nat, ((32 - k) * qn) as nat);
        vstd::arithmetic::power::lemma_pow_adds(2, f, (k * qn) as nat);
        assert(lo == f + k * qn);
        let pk = vstd::arithmetic::power::pow(2, (k * qn) as nat);
        assert(pk * pm == pqq);
        assert(vstd::arithmetic::power::pow(2, lo) == pf * pk);
        vstd::arithmetic::power::lemma_pow_distributes(x as int, m as int, qn);
        assert(py == px * pm);
        assert(pf * pk <= px) by (nonlinear_arith)
            requires pf * (pk * pm) <= px * pm, pm > 0;
    }
    // Upper bracket: x < 2^(k + 1), so x^(2^32) < 2^((k + 1) * 2^32).
    lemma_p2_is_pow(k + 1);
    lemma_pow_base_lt(x as int, p2(k + 1) as int, qn);
    vstd::arithmetic::power::lemma_pow_multiplies(2, k + 1, qn);
    let hi: nat = (log2_fixed_spec(x) + 33 * qq) as nat;
    assert((k + 1) * qn + f == hi) by (nonlinear_arith)
        requires hi == (k - 32) * qq + f + 33 * qq, qq == qn;
    vstd::arithmetic::power::lemma_pow_adds(2, ((k + 1) * qn) as nat, f);
    vstd::arithmetic::power::lemma_pow_positive(2, ((k + 1) * qn) as nat);
    assert(vstd::arithmetic::power::pow(2, ((k + 1) * qn) as nat) <= vstd::arithmetic::power::pow(2, hi)) by (nonlinear_arith)
        requires vstd::arithmetic::power::pow(2, hi) == vstd::arithmetic::power::pow(2, ((k + 1) * qn) as nat) * pf, pf >= 1,
            vstd::arithmetic::power::pow(2, ((k + 1) * qn) as nat) > 0;
}

/// `720 * 2^352` times the degree-six Taylor polynomial of `e^t` at
/// `t = z / 2^64`, times `2^32`: the exact value, scaled to an integer, of
/// what `exp2_frac_spec` evaluates for `z = frac * ln2_q32()`.
pub open spec fn exp2_taylor_scaled(z: int) -> int {
    let q2: int = 4294967296int * 4294967296int;
    let q4 = q2 * q2;
    let q6 = q4 * q2;
    let q8 = q4 * q4;
    let q10 = q8 * q2;
    let q12 = q6 * q6;
    720 * q12 + 720 * (q10 * z) + 360 * (q8 * (z * z)) + 120 * (q6 * (z * z * z)) + 30 * (q4 * (z * z * z * z))
        + 6 * (q2 * (z * z * z * z * z)) + z * z * z * z * z * z
}

/// A Q32.32 product of factors below `2^64` is its exact product divided by
/// `2^32` and rounded down.
proof fn lemma_q32_mul_exact(a: int, b: int)
    requires
        0 <= a < 0x1_0000_0000_0000_0000,
        0 <= b < 0x1_0000_0000_0000_0000,
    ensures
        q32_mul(a, b) == a * b / 4294967296,
        0 <= q32_mul(a, b),
        q32_mul(a, b) * 4294967296 <= a * b,
{
    assert(0 <= a * b < 0x1_0000_0000_0000_0000 * 0x1_0000_0000_0000_0000) by (nonlinear_arith)
        requires 0 <= a < 0x1_0000_0000_0000_0000, 0 <= b < 0x1_0000_0000_0000_0000;
    assert(sat_u128(a * b) == a * b);
    let p = a * b;
    assert(p / 4294967296 * 4294967296 <= p && p / 4294967296 >= 0) by (nonlinear_arith)
        requires p >= 0;
}

/// One more power: from `qa * xk <= zk` and the next rounded-down product
/// `q * xn <= xk * x` with `q * x <= z`, `qa * q * q * xn <= zk * z`.
proof fn lemma_power_chain(q: int, qa: int, xk: int, x: int, xn: int, z: int, zk: int)
    requires
        q > 0,
        qa >= 0,
        xk >= 0,
        x >= 0,
        xn >= 0,
        qa * xk <= zk,
        q * x <= z,
        q * xn <= xk * x,
    ensures
        qa * q * q * xn <= zk * z,
{
    assert(qa * q * (q * xn) <= qa * q * (xk * x)) by (nonlinear_arith)
        requires q * xn <= xk * x, qa >= 0, q > 0;
    assert(qa * q * (xk * x) == (qa * xk) * (q * x)) by (nonlinear_arith);
    assert((qa * xk) * (q * x) <= zk * z) by (nonlinear_arith)
        requires 0 <= qa * xk <= zk, 0 <= q * x <= z;
    assert(qa * q * q * xn == qa * q * (q * xn)) by (nonlinear_arith);
}

/// The fixed-point steps of `exp2_frac_spec` only ever round down: for a
/// fraction in `[0, 1)` its result never exceeds the exact value of the
/// Taylor polynomial it evaluates (`exp2_taylor_scaled`, over `720 * 2^352`).
pub proof fn lemma_exp2_frac_below_taylor(frac: int)
    requires
        0 <= frac < 4294967296,
    ensures
        720 * (4294967296 * 4294967296 * 4294967296 * 4294967296 * 4294967296 * 4294967296 * 4294967296 * 4294967296
            * 4294967296 * 4294967296 * 4294967296) * exp2_frac_spec(frac) <= exp2_taylor_scaled(frac * ln2_q32()),
{
    let q: int = 4294967296;
    let l = ln2_q32();
    let z: int = frac * l;
    assert(0 <= z) by (nonlinear_arith) requires frac >= 0, z == frac * 2977044471;
    lemma_q32_mul_exact(frac, l);
    let x = q32_mul(frac, l);
    assert(x < 4294967296) by (nonlinear_arith)
        requires x * 4294967296 <= frac * 2977044471, frac < 4294967296, x >= 0;
    lemma_q32_mul_exact(x, x);
    let x2 = q32_mul(x, x);
    assert(x2 < 4294967296) by (nonlinear_arith) requires x2 * 4294967296 <= x * x, 0 <= x < 4294967296, x2 >= 0;
    lemma_q32_mul_exact(x2, x);
    let x3 = q32_mul(x2, x);
    assert(x3 < 4294967296) by (nonlinear_arith) requires x3 * 4294967296 <= x2 * x, 0 <= x < 4294967296, 0 <= x2 < 4294967296, x3 >= 0;
    lemma_q32_mul_exact(x3, x);
    let x4 = q32_mul(x3, x);
    assert(x4 < 4294967296) by (nonlinear_arith) requires x4 * 4294967296 <= x3 * x, 0 <= x < 4294967296, 0 <= x3 < 4294967296, x4 >= 0;
    lemma_q32_mul_exact(x4, x);
    let x5 = q32_mul(x4, x);
    assert(x5 < 4294967296) by (nonlinear_arith) requires x5 * 4294967296 <= x4 * x, 0 <= x < 4294967296, 0 <= x4 < 4294967296, x5 >= 0;
    lemma_q32_mul_exact(x5, x);
    let x6 = q32_mul(x5, x);
    // No sum saturates: every term is below 2^32.
    let e = q + x + x2 / 2 + x3 / 6 + x4 / 24 + x5 / 120 + x6 / 720;
    assert(exp2_frac_spec(frac) == e);
    // Scaled powers of the rounded terms stay below the powers of z.
    let q2 = q * q;
    let q3 = q2 * q;
    let q5 = q3 * q2;
    let q7 = q5 * q2;
    let q9 = q7 * q2;
    let q11 = q9 * q2;
    assert(q * x <= z);
    lemma_power_chain(q, q, x, x, x2, z, z);
    assert(q3 * x2 <= z * z) by (nonlinear_arith) requires q * q * q * x2 <= z * z, q3 == q * q * q;
    lemma_power_chain(q, q3, x2, x, x3, z, z * z);
    assert(q5 * x3 <= z * z * z) by (nonlinear_arith) requires q3 * q * q * x3 <= z * z * z, q5 == q3 * q * q;
    lemma_power_chain(q, q5, x3, x, x4, z, z * z * z);
    assert(q7 * x4 <= z * z * z * z) by (nonlinear_arith) requires q5 * q * q * x4 <= z * z * z * z, q7 == q5 * q * q;
    lemma_power_chain(q, q7, x4, x, x5, z, z * z * z * z);
    assert(q9 * x5 <= z * z * z * z * z) by (nonlinear_arith) requires q7 * q * q * x5 <= z * z * z * z * z, q9 == q7 * q * q;
    lemma_power_chain(q, q9, x5, x, x6, z, z * z * z * z * z);
    assert(q11 * x6 <= z * z * z * z * z * z) by (nonlinear_arith) requires q9 * q * q * x6 <= z * z * z * z * z * z, q11 == q9 * q * q;
    // Dropping the roundings of the divisions.
    assert(720 * e <= 720 * q + 720 * x + 360 * x2 + 120 * x3 + 30 * x4 + 6 * x5 + x6) by (nonlinear_arith)
        requires e == q + x + x2 / 2 + x3 / 6 + x4 / 24 + x5 / 120 + x6 / 720, x2 >= 0, x3 >= 0, x4 >= 0, x5 >= 0, x6 >= 0;
    let q4 = q3 * q;
    let q6 = q5 * q;
    let q8 = q7 * q;
    let q10 = q9 * q;
    let q12 = q11 * q;
    assert(720 * q11 * e <= 720 * q12 + 720 * (q11 * x) + 360 * (q11 * x2) + 120 * (q11 * x3) + 30 * (q11 * x4)
        + 6 * (q11 * x5) + q11 * x6) by (nonlinear_arith)
        requires 720 * e <= 720 * q + 720 * x + 360 * x2 + 120 * x3 + 30 * x4 + 6 * x5 + x6, q11 > 0, q12 == q11 * q;
    assert(q11 == q10 * q && q11 == q8 * q3 && q11 == q6 * q5 && q11 == q4 * q7 && q11 == q2 * q9) by (nonlinear_arith)
        requires q2 == q * q, q3 == q2 * q, q4 == q3 * q, q5 == q3 * q2, q6 == q5 * q, q7 == q5 * q2, q8 == q7 * q,
            q9 == q7 * q2, q10 == q9 * q, q11 == q9 * q2;
    assert(q11 * x <= q10 * z) by (nonlinear_arith) requires q11 == q10 * q, q * x <= z, q10 >= 0;
    assert(q11 * x2 <= q8 * (z * z)) by (nonlinear_arith) requires q11 == q8 * q3, q3 * x2 <= z * z, q8 >= 0;
    assert(q11 * x3 <= q6 * (z * z * z)) by (nonlinear_arith) requires q11 == q6 * q5, q5 * x3 <= z * z * z, q6 >= 0;
    assert(q11 * x4 <= q4 * (z * z * z * z)) by (nonlinear_arith) requires q11 == q4 * q7, q7 * x4 <= z * z * z * z, q4 >= 0;
    assert(q11 * x5 <= q2 * (z * z * z * z * z)) by (nonlinear_arith) requires q11 == q2 * q9, q9 * x5 <= z * z * z * z * z, q2 >= 0;
    assert(q2 == 4294967296 * 4294967296);
    assert(q4 == q2 * q2) by (nonlinear_arith) requires q2 == q * q, q3 == q2 * q, q4 == q3 * q;
    assert(q6 == q4 * q2) by (nonlinear_arith) requires q2 == q * q, q3 == q2 * q, q4 == q3 * q, q5 == q3 * q2, q6 == q5 * q;
    assert(q8 == q4 * q4) by (nonlinear_arith) requires q2 == q * q, q3 == q2 * q, q4 == q3 * q, q5 == q3 * q2, q7 == q5 * q2, q8 == q7 * q;
    assert(q10 == q8 * q2) by (nonlinear_arith) requires q2 == q * q, q3 == q2 * q, q4 == q3 * q, q5 == q3 * q2, q7 == q5 * q2, q8 == q7 * q,
        q9 == q7 * q2, q10 == q9 * q;
    assert(q12 == q6 * q6) by (nonlinear_arith) requires q2 == q * q, q3 == q2 * q, q5 == q3 * q2, q6 == q5 * q, q7 == q5 * q2,
        q9 == q7 * q2, q11 == q9 * q2, q12 == q11 * q;
    assert(q11 == 4294967296 * 4294967296 * 4294967296 * 4294967296 * 4294967296 * 4294967296 * 4294967296 * 4294967296
        * 4294967296 * 4294967296 * 4294967296);
    assert(exp2_taylor_scaled(z) == 720 * q12 + 720 * (q10 * z) + 360 * (q8 * (z * z)) + 120 * (q6 * (z * z * z))
        + 30 * (q4 * (z * z * z * z)) + 6 * (q2 * (z * z * z * z * z)) + z * z * z * z * z * z);
    assert(720 * q11 * e <= exp2_taylor_scaled(z));
}

} // verus!
