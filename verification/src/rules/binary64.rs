//! Binary64 (IEEE 754 double precision) numbers held by their bit
//! patterns, compared by exact value with integers, with fractions over a
//! power of two and with each other; and the rounding of integers and
//! decimal numerals to a significand of 24 (binary32) or 53 (binary64) bits.
//!
//! A pattern is a NaN (all exponent bits set and a fraction), an infinity
//! (all exponent bits set, no fraction), or the finite number
//! ± significand · 2^scale.
use vstd::prelude::*;
use vstd::arithmetic::power2::{lemma_pow2_adds, lemma_pow2_pos, lemma_pow2_strictly_increases, lemma_pow2_unfold, pow2};
use crate::rules::comparison::{int_order, Order};
use crate::rules::numeric::{lemma_pow10_mono, numeral_limit, pow10, scale_up};

verus! {

/// The biased exponent field of an IEEE 754 binary64 bit pattern.
pub open spec fn float_exponent_field(bits: u64) -> u64 {
    (bits >> 52u64) & 0x7ffu64
}

/// The fraction field of an IEEE 754 binary64 bit pattern.
pub open spec fn float_fraction_field(bits: u64) -> u64 {
    bits & 0xf_ffff_ffff_ffffu64
}

/// The sign bit of an IEEE 754 binary64 bit pattern.
pub open spec fn float_negative(bits: u64) -> bool {
    (bits >> 63u64) == 1u64
}

/// The significand of a finite binary64 number: its value is
/// ± significand · 2^scale.
pub open spec fn float_significand(bits: u64) -> int {
    if float_exponent_field(bits) == 0 {
        float_fraction_field(bits) as int
    } else {
        float_fraction_field(bits) + 0x10_0000_0000_0000
    }
}

/// The power of two that scales the significand of a finite binary64 number.
pub open spec fn float_scale(bits: u64) -> int {
    if float_exponent_field(bits) == 0 {
        -1074
    } else {
        float_exponent_field(bits) - 1075
    }
}

/// `m` with the sign given by `negative`.
pub open spec fn with_sign(negative: bool, m: int) -> int {
    if negative {
        -m
    } else {
        m
    }
}

/// How the binary64 number with bit pattern `bits` compares with the
/// integer `n`, by exact value: infinities lie beyond every integer, and a
/// NaN compares with nothing.
pub open spec fn float_int_order(bits: u64, n: int) -> Option<Order> {
    if float_exponent_field(bits) == 0x7ff {
        if float_fraction_field(bits) != 0 {
            None
        } else if float_negative(bits) {
            Some(Order::Less)
        } else {
            Some(Order::Greater)
        }
    } else {
        let v = with_sign(float_negative(bits), float_significand(bits));
        let e = float_scale(bits);
        if e >= 0 {
            Some(int_order(v * pow2(e as nat), n))
        } else {
            Some(int_order(v, n * pow2((-e) as nat)))
        }
    }
}

/// Order of `m · 2^e` and `x`.
fn scaled_up_order(m: u64, e: u64, x: u128) -> (r: Order)
    requires
        m > 0,
    ensures
        r == int_order(m * pow2(e as nat), x as int),
{
    let mut q: u128 = x;
    let mut i: u64 = 0;
    let mut exact: bool = true;
    let ghost mut rem: int = 0;
    proof {
        lemma_pow2_pos(0);
        assert(pow2(0) == 1) by {
            vstd::arithmetic::power2::lemma2_to64();
        }
    }
    while i < e && q > 0
        invariant
            i <= e,
            x == q * pow2(i as nat) + rem,
            0 <= rem < pow2(i as nat),
            exact == (rem == 0),
        decreases e - i,
    {
        let b: u128 = q % 2;
        let h: u128 = q / 2;
        proof {
            lemma_pow2_unfold((i + 1) as nat);
            let p = pow2(i as nat);
            assert(x == h * pow2((i + 1) as nat) + (b * p + rem)) by (nonlinear_arith)
                requires
                    x == q * p + rem,
                    q == 2 * h + b,
                    pow2((i + 1) as nat) == 2 * p;
            assert(0 <= b * p + rem < pow2((i + 1) as nat)) by (nonlinear_arith)
                requires
                    0 <= b <= 1,
                    0 <= rem < p,
                    pow2((i + 1) as nat) == 2 * p;
            assert((b * p + rem == 0) == (b == 0 && rem == 0)) by (nonlinear_arith)
                requires
                    0 <= b <= 1,
                    0 <= rem,
                    p > 0;
            rem = b * p + rem;
        }
        if b != 0 {
            exact = false;
        }
        q = h;
        i = i + 1;
    }
    let ghost p = pow2(e as nat);
    proof {
        if i < e {
            lemma_pow2_strictly_increases(i as nat, e as nat);
        }
        assert(x == q * p + rem && 0 <= rem < p) by (nonlinear_arith)
            requires
                x == q * pow2(i as nat) + rem,
                0 <= rem < pow2(i as nat),
                i == e || (q == 0 && pow2(i as nat) < p),
                i == e ==> pow2(i as nat) == p;
    }
    if (m as u128) > q {
        assert(m * p > x) by (nonlinear_arith)
            requires
                m >= q + 1,
                x == q * p + rem,
                rem < p;
        Order::Greater
    } else if (m as u128) < q {
        assert(m * p < x) by (nonlinear_arith)
            requires
                m + 1 <= q,
                x == q * p + rem,
                rem >= 0,
                p > 0;
        Order::Less
    } else if exact {
        Order::Equal
    } else {
        Order::Less
    }
}

/// Order of `m` and `x · 2^k`.
fn scaled_down_order(m: u64, k: u64, x: u128) -> (r: Order)
    requires
        m < 0x20_0000_0000_0000,
        x > 0,
    ensures
        r == int_order(m as int, x * pow2(k as nat)),
{
    let mut acc: u128 = x;
    let mut i: u64 = 0;
    proof {
        assert(pow2(0) == 1) by {
            vstd::arithmetic::power2::lemma2_to64();
        }
    }
    while i < k && acc <= m as u128
        invariant
            i <= k,
            acc == x * pow2(i as nat),
            acc > 0,
        decreases k - i,
    {
        proof {
            lemma_pow2_unfold((i + 1) as nat);
            assert(x * pow2((i + 1) as nat) == 2 * (x * pow2(i as nat))) by (nonlinear_arith)
                requires
                    pow2((i + 1) as nat) == 2 * pow2(i as nat);
        }
        acc = acc * 2;
        i = i + 1;
    }
    if i < k {
        proof {
            lemma_pow2_adds(i as nat, (k - i) as nat);
            lemma_pow2_pos((k - i) as nat);
            assert(x * pow2(k as nat) >= acc) by (nonlinear_arith)
                requires
                    acc == x * pow2(i as nat),
                    pow2(k as nat) == pow2(i as nat) * pow2((k - i) as nat),
                    pow2((k - i) as nat) >= 1,
                    acc > 0;
        }
        Order::Less
    } else if (m as u128) < acc {
        Order::Less
    } else if (m as u128) == acc {
        Order::Equal
    } else {
        Order::Greater
    }
}

/// How the binary64 number with bit pattern `bits` compares with `n`, by
/// exact value (`None` for NaN).
pub fn compare_float_int(bits: u64, n: i128) -> (r: Option<Order>)
    ensures
        r == float_int_order(bits, n as int),
{
    let exp: u64 = (bits >> 52u64) & 0x7ffu64;
    let frac: u64 = bits & 0xf_ffff_ffff_ffffu64;
    let negative: bool = (bits >> 63u64) == 1u64;
    proof {
        assert(exp <= 0x7ff) by (bit_vector)
            requires
                exp == (bits >> 52u64) & 0x7ffu64;
        assert(frac < 0x10_0000_0000_0000) by (bit_vector)
            requires
                frac == bits & 0xf_ffff_ffff_ffffu64;
    }
    if exp == 0x7ff {
        if frac != 0 {
            return None;
        } else if negative {
            return Some(Order::Less);
        } else {
            return Some(Order::Greater);
        }
    }
    let m: u64 = if exp == 0 { frac } else { frac + 0x10_0000_0000_0000 };
    let ghost v = with_sign(negative, m as int);
    let ghost e = float_scale(bits);
    assert(m as int == float_significand(bits));
    if m == 0 {
        proof {
            if e < 0 {
                lemma_pow2_pos((-e) as nat);
                assert(int_order(0, n * pow2((-e) as nat)) == int_order(0, n as int)) by (nonlinear_arith)
                    requires
                        pow2((-e) as nat) > 0;
            }
        }
        return Some(if 0 < n { Order::Less } else if n == 0 { Order::Equal } else { Order::Greater });
    }
    proof {
        if e >= 0 {
            lemma_pow2_pos(e as nat);
        } else {
            lemma_pow2_pos((-e) as nat);
        }
    }
    if !negative && n <= 0 {
        proof {
            if e >= 0 {
                assert(v * pow2(e as nat) > 0) by (nonlinear_arith)
                    requires
                        v > 0,
                        pow2(e as nat) > 0;
            } else {
                assert(n * pow2((-e) as nat) <= 0) by (nonlinear_arith)
                    requires
                        n <= 0,
                        pow2((-e) as nat) > 0;
            }
        }
        return Some(Order::Greater);
    }
    if negative && n >= 0 {
        proof {
            if e >= 0 {
                assert(v * pow2(e as nat) < 0) by (nonlinear_arith)
                    requires
                        v < 0,
                        pow2(e as nat) > 0;
            } else {
                assert(n * pow2((-e) as nat) >= 0) by (nonlinear_arith)
                    requires
                        n >= 0,
                        pow2((-e) as nat) > 0;
            }
        }
        return Some(Order::Less);
    }
    let x: u128 = if n < 0 { (0i128 - (n + 1)) as u128 + 1 } else { n as u128 };
    assert(x as int == if negative { -n } else { n as int });
    let o = if exp == 0 {
        scaled_down_order(m, 1074, x)
    } else if exp >= 1075 {
        scaled_up_order(m, exp - 1075, x)
    } else {
        scaled_down_order(m, 1075 - exp, x)
    };
    proof {
        if negative {
            if e >= 0 {
                assert(v * pow2(e as nat) == -(m * pow2(e as nat))) by (nonlinear_arith)
                    requires
                        v == -m;
            } else {
                assert(n * pow2((-e) as nat) == -(x * pow2((-e) as nat))) by (nonlinear_arith)
                    requires
                        n == -x;
            }
        }
    }
    if negative {
        Some(
            match o {
                Order::Less => Order::Greater,
                Order::Equal => Order::Equal,
                Order::Greater => Order::Less,
            },
        )
    } else {
        Some(o)
    }
}

/// The pattern is a NaN.
pub open spec fn float_is_nan(bits: u64) -> bool {
    float_exponent_field(bits) == 0x7ff && float_fraction_field(bits) != 0
}

/// Where the number lies among the infinities: -1 for negative infinity,
/// 1 for positive infinity, 0 for a finite number.
pub open spec fn float_rank(bits: u64) -> int {
    if float_exponent_field(bits) == 0x7ff && float_fraction_field(bits) == 0 {
        if float_negative(bits) {
            -1
        } else {
            1
        }
    } else {
        0
    }
}

/// A finite number times 2^1074, which is an integer.
pub open spec fn float_scaled(bits: u64) -> int {
    with_sign(float_negative(bits), float_significand(bits) * pow2((float_scale(bits) + 1074) as nat))
}

/// How two binary64 numbers compare by value: the two zeros are equal, the
/// infinities lie beyond every finite number, and a NaN compares with
/// nothing.
pub open spec fn float_order(a: u64, b: u64) -> Option<Order> {
    if float_is_nan(a) || float_is_nan(b) {
        None
    } else if float_rank(a) != 0 || float_rank(b) != 0 {
        Some(int_order(float_rank(a), float_rank(b)))
    } else {
        Some(int_order(float_scaled(a), float_scaled(b)))
    }
}

/// The pattern with negative zero read as zero.
pub open spec fn canonical_zero(bits: u64) -> u64 {
    if bits == 0x8000_0000_0000_0000u64 {
        0
    } else {
        bits
    }
}

/// The magnitude bits of a pattern: exponent and fraction fields.
pub open spec fn magnitude_bits(bits: u64) -> u64 {
    bits & 0x7fff_ffff_ffff_ffffu64
}

/// The magnitude of a finite number times 2^1074.
pub open spec fn scaled_magnitude(bits: u64) -> int {
    float_significand(bits) * pow2((float_scale(bits) + 1074) as nat)
}

/// The fields of a pattern make up its magnitude bits.
proof fn lemma_fields(bits: u64)
    ensures
        magnitude_bits(bits) == float_exponent_field(bits) * 0x10_0000_0000_0000 + float_fraction_field(bits),
        float_exponent_field(bits) <= 0x7ff,
        float_fraction_field(bits) < 0x10_0000_0000_0000,
        float_negative(bits) || (bits >> 63u64) == 0u64,
        bits == 0x8000_0000_0000_0000u64 <==> (float_negative(bits) && magnitude_bits(bits) == 0),
{
    assert((bits & 0x7fff_ffff_ffff_ffffu64) == ((bits >> 52u64) & 0x7ffu64) * 0x10_0000_0000_0000u64
        + (bits & 0xf_ffff_ffff_ffffu64)) by (bit_vector);
    assert((bits >> 52u64) & 0x7ffu64 <= 0x7ff) by (bit_vector);
    assert(bits & 0xf_ffff_ffff_ffffu64 < 0x10_0000_0000_0000u64) by (bit_vector);
    assert((bits >> 63u64) == 1u64 || (bits >> 63u64) == 0u64) by (bit_vector);
    assert(bits == 0x8000_0000_0000_0000u64 <==> ((bits >> 63u64) == 1u64 && (bits & 0x7fff_ffff_ffff_ffffu64) == 0u64))
        by (bit_vector);
}

/// Among finite numbers, larger magnitude bits mean a larger magnitude.
proof fn lemma_magnitude_monotone(a: u64, b: u64)
    requires
        float_exponent_field(a) < 0x7ff,
        float_exponent_field(b) < 0x7ff,
        magnitude_bits(a) < magnitude_bits(b),
    ensures
        scaled_magnitude(a) < scaled_magnitude(b),
{
    lemma_fields(a);
    lemma_fields(b);
    let ea = float_exponent_field(a) as int;
    let eb = float_exponent_field(b) as int;
    let fa = float_fraction_field(a) as int;
    let fb = float_fraction_field(b) as int;
    let t: int = 0x10_0000_0000_0000;
    if ea == eb {
        assert(fa < fb) by (nonlinear_arith)
            requires
                ea * t + fa < eb * t + fb,
                ea == eb;
        let p = pow2((float_scale(a) + 1074) as nat);
        lemma_pow2_pos((float_scale(a) + 1074) as nat);
        assert(float_significand(a) < float_significand(b));
        assert(float_significand(a) * p < float_significand(b) * p) by (nonlinear_arith)
            requires
                float_significand(a) < float_significand(b),
                p > 0;
    } else {
        assert(ea < eb) by (nonlinear_arith)
            requires
                ea * t + fa < eb * t + fb,
                ea != eb,
                t > 0,
                0 <= fa < t,
                0 <= fb < t;
        // b has a nonzero exponent field: its magnitude is at least 2^52 · 2^(eb - 1)
        let pb = pow2((eb - 1) as nat);
        lemma_pow2_pos((eb - 1) as nat);
        assert(scaled_magnitude(b) >= t * pb) by (nonlinear_arith)
            requires
                scaled_magnitude(b) == (fb + t) * pb,
                fb >= 0,
                pb > 0;
        if ea == 0 {
            assert(pow2(0) == 1) by {
                vstd::arithmetic::power2::lemma2_to64();
            }
            assert(t * pb >= t) by (nonlinear_arith)
                requires
                    pb >= 1,
                    t > 0;
            assert(float_scale(a) + 1074 == 0);
            assert(float_significand(a) == fa);
            assert(fa * pow2(0) == fa) by (nonlinear_arith)
                requires
                    pow2(0) == 1;
            assert(scaled_magnitude(a) == fa);
        } else {
            let pa = pow2((ea - 1) as nat);
            lemma_pow2_pos((ea - 1) as nat);
            lemma_pow2_unfold(ea as nat);
            if ea < eb - 1 {
                lemma_pow2_strictly_increases(ea as nat, (eb - 1) as nat);
            }
            assert(scaled_magnitude(a) < t * pb) by (nonlinear_arith)
                requires
                    scaled_magnitude(a) == (fa + t) * pa,
                    fa < t,
                    pow2(ea as nat) == 2 * pa,
                    pow2(ea as nat) <= pb,
                    pa > 0;
        }
    }
}

/// The integer that orders patterns as their numbers are ordered.
pub open spec fn order_key(bits: u64) -> int {
    if float_negative(bits) {
        -(magnitude_bits(bits) as int)
    } else {
        magnitude_bits(bits) as int
    }
}

/// Ordering two non-NaN patterns by their keys orders them by value.
proof fn lemma_order_key(a: u64, b: u64)
    requires
        !float_is_nan(a),
        !float_is_nan(b),
    ensures
        Some(int_order(order_key(a), order_key(b))) == float_order(a, b),
{
    lemma_fields(a);
    lemma_fields(b);
    if float_rank(a) == 0 && float_rank(b) == 0 {
        let ma = magnitude_bits(a) as int;
        let mb = magnitude_bits(b) as int;
        let sa = scaled_magnitude(a);
        let sb = scaled_magnitude(b);
        assert(sa >= 0 && sb >= 0) by {
            lemma_pow2_pos((float_scale(a) + 1074) as nat);
            lemma_pow2_pos((float_scale(b) + 1074) as nat);
            assert(sa >= 0) by (nonlinear_arith)
                requires
                    sa == float_significand(a) * pow2((float_scale(a) + 1074) as nat),
                    float_significand(a) >= 0,
                    pow2((float_scale(a) + 1074) as nat) > 0;
            assert(sb >= 0) by (nonlinear_arith)
                requires
                    sb == float_significand(b) * pow2((float_scale(b) + 1074) as nat),
                    float_significand(b) >= 0,
                    pow2((float_scale(b) + 1074) as nat) > 0;
        }
        if ma < mb {
            lemma_magnitude_monotone(a, b);
        } else if mb < ma {
            lemma_magnitude_monotone(b, a);
        }
        // zero magnitude bits mean a zero magnitude
        if ma == 0 {
            assert(float_significand(a) == 0);
        }
        if mb == 0 {
            assert(float_significand(b) == 0);
        }
        if ma > 0 {
            let z: u64 = 0;
            lemma_fields(z);
            assert(magnitude_bits(z) == 0) by (bit_vector)
                requires
                    z == 0u64;
            assert(float_exponent_field(z) == 0) by (bit_vector)
                requires
                    z == 0u64;
            assert(float_fraction_field(z) == 0) by (bit_vector)
                requires
                    z == 0u64;
            lemma_magnitude_monotone(z, a);
            assert(scaled_magnitude(z) == 0);
        }
        if mb > 0 {
            let z: u64 = 0;
            lemma_fields(z);
            assert(magnitude_bits(z) == 0) by (bit_vector)
                requires
                    z == 0u64;
            assert(float_exponent_field(z) == 0) by (bit_vector)
                requires
                    z == 0u64;
            assert(float_fraction_field(z) == 0) by (bit_vector)
                requires
                    z == 0u64;
            lemma_magnitude_monotone(z, b);
            assert(scaled_magnitude(z) == 0);
        }
        assert(float_scaled(a) == with_sign(float_negative(a), sa));
        assert(float_scaled(b) == with_sign(float_negative(b), sb));
    } else {
        // an infinity has the largest magnitude bits of all non-NaN patterns
        let inf: int = 0x7ff0_0000_0000_0000;
        assert(float_rank(a) != 0 ==> magnitude_bits(a) == inf);
        assert(float_rank(b) != 0 ==> magnitude_bits(b) == inf);
        assert(float_rank(a) == 0 ==> magnitude_bits(a) < inf);
        assert(float_rank(b) == 0 ==> magnitude_bits(b) < inf);
    }
}

/// Order of two patterns by their keys.
fn key_of(bits: u64) -> (k: i128)
    ensures
        k == order_key(bits),
{
    let m: u64 = bits & 0x7fff_ffff_ffff_ffffu64;
    if (bits >> 63u64) == 1u64 {
        0i128 - (m as i128)
    } else {
        m as i128
    }
}

/// Whether the pattern is a NaN.
pub fn is_nan_bits(bits: u64) -> (r: bool)
    ensures
        r == float_is_nan(bits),
{
    ((bits >> 52u64) & 0x7ffu64) == 0x7ffu64 && (bits & 0xf_ffff_ffff_ffffu64) != 0u64
}

/// How two binary64 numbers compare by value (`None` when either is NaN).
pub fn compare_floats(a: u64, b: u64) -> (r: Option<Order>)
    ensures
        r == float_order(a, b),
{
    if is_nan_bits(a) || is_nan_bits(b) {
        return None;
    }
    proof {
        lemma_order_key(a, b);
    }
    let x = key_of(a);
    let y = key_of(b);
    Some(if x < y { Order::Less } else if x == y { Order::Equal } else { Order::Greater })
}

/// The pattern with negative zero read as zero.
pub fn canonical_zero_bits(bits: u64) -> (r: u64)
    ensures
        r == canonical_zero(bits),
{
    if bits == 0x8000_0000_0000_0000u64 {
        0
    } else {
        bits
    }
}

/// Two numbers, neither a NaN nor negative zero, compare equal exactly when
/// their bit patterns are the same.
pub proof fn lemma_float_equal_iff_same_bits(a: u64, b: u64)
    requires
        !float_is_nan(a),
        !float_is_nan(b),
        a != 0x8000_0000_0000_0000u64,
        b != 0x8000_0000_0000_0000u64,
    ensures
        (float_order(a, b) == Some(Order::Equal)) == (a == b),
{
    lemma_order_key(a, b);
    lemma_fields(a);
    lemma_fields(b);
    assert(((a >> 63u64) == (b >> 63u64) && (a & 0x7fff_ffff_ffff_ffffu64) == (b & 0x7fff_ffff_ffff_ffffu64)) ==> a
        == b) by (bit_vector);
}

/// How many times `m` must be halved to fit in 53 bits.
pub open spec fn rounding_excess(m: nat) -> nat
    decreases m,
{
    if m < 0x20_0000_0000_0000 {
        0
    } else {
        1 + rounding_excess(m / 2)
    }
}

/// `m` rounded to the nearest number with at most 53 significant bits, a
/// tie going to the even significand: the binary64 value nearest `m`.
pub open spec fn round_to_binary64(m: nat) -> nat {
    let p = pow2(rounding_excess(m));
    let q = m / p;
    let r = m % p;
    (if 2 * r > p || (2 * r == p && q % 2 == 1) {
        q + 1
    } else {
        q
    }) * p
}

/// The binary64 value an integer converts to, rounded to nearest with ties
/// to even (as `as f64` converts it).
pub open spec fn int_as_binary64(n: int) -> int {
    if n < 0 {
        -(round_to_binary64((-n) as nat) as int)
    } else {
        round_to_binary64(n as nat) as int
    }
}

/// `m` rounded to the nearest binary64 value.
fn round_magnitude(m: u128) -> (r: u128)
    requires
        m <= 0x1_0000_0000_0000_0000,
    ensures
        r == round_to_binary64(m as nat),
        r <= 0x1_0000_0000_0000_0000,
{
    let mut q: u128 = m;
    let mut p: u128 = 1;
    let ghost mut e: nat = 0;
    let ghost mut d: int = 0x1_0000_0000_0000_0000;
    proof {
        vstd::arithmetic::power2::lemma2_to64();
    }
    while q >= 0x20_0000_0000_0000
        invariant
            m <= 0x1_0000_0000_0000_0000,
            p == pow2(e),
            p >= 1,
            e <= 64,
            d == pow2((64 - e) as nat),
            p * d == 0x1_0000_0000_0000_0000,
            q == (m as int) / (p as int),
            q * p <= m,
            rounding_excess(m as nat) == e + rounding_excess(q as nat),
        decreases q,
    {
        proof {
            lemma_pow2_unfold(e + 1);
            vstd::arithmetic::div_mod::lemma_div_denominator(m as int, p as int, 2);
            assert(p * 2 <= 0x1_0000_0000_0000_0000) by (nonlinear_arith)
                requires
                    q * p <= m,
                    q >= 0x20_0000_0000_0000,
                    m <= 0x1_0000_0000_0000_0000;
            vstd::arithmetic::div_mod::lemma_fundamental_div_mod(m as int, (p * 2) as int);
            vstd::arithmetic::div_mod::lemma_mod_pos_bound(m as int, (p * 2) as int);
            assert((q / 2) * (p * 2) <= m) by (nonlinear_arith)
                requires
                    (q / 2) == (m as int) / ((p * 2) as int),
                    m == (p * 2) * ((m as int) / ((p * 2) as int)) + (m as int) % ((p * 2) as int),
                    (m as int) % ((p * 2) as int) >= 0;
        }
        proof {
            if e == 64 {
                assert(d == 1) by {
                    vstd::arithmetic::power2::lemma2_to64();
                }
            }
            assert(e < 64);
            lemma_pow2_unfold((64 - e) as nat);
            let h = pow2((64 - e - 1) as nat);
            assert((p * 2) * (d / 2) == p * d) by (nonlinear_arith)
                requires
                    d == 2 * h;
        }
        q = q / 2;
        p = p * 2;
        proof {
            e = e + 1;
            d = d / 2;
        }
    }
    proof {
        vstd::arithmetic::div_mod::lemma_fundamental_div_mod(m as int, p as int);
        vstd::arithmetic::div_mod::lemma_mod_pos_bound(m as int, p as int);
    }
    let r = m - q * p;
    assert(r == (m as int) % (p as int)) by (nonlinear_arith)
        requires
            m == p * q + (m as int) % (p as int),
            r == m - q * p;
    let up = 2 * r > p || (2 * r == p && q % 2 == 1);
    let k = if up { q + 1 } else { q };
    assert(k * p <= 0x1_0000_0000_0000_0000) by (nonlinear_arith)
        requires
            k == q || (k == q + 1 && r >= 1),
            q * p <= m,
            m <= 0x1_0000_0000_0000_0000,
            r == m - q * p,
            p * d == 0x1_0000_0000_0000_0000,
            p >= 1;
    k * p
}

/// How many times `m` must be halved to fit in `p` bits.
pub open spec fn excess_bits(m: nat, p: nat) -> nat
    decreases m,
{
    if m <= 1 || m < pow2(p) {
        0
    } else {
        1 + excess_bits(m / 2, p)
    }
}

/// `m` rounded to the nearest number with at most `p` significant bits, a
/// tie going to the even significand.
pub open spec fn round_to_bits(m: nat, p: nat) -> nat {
    let u = pow2(excess_bits(m, p));
    let q = m / u;
    let r = m % u;
    (if 2 * r > u || (2 * r == u && q % 2 == 1) {
        q + 1
    } else {
        q
    }) * u
}

/// The significand width of a binary32 (`p == 24`) or binary64 (`p == 53`)
/// number, as the threshold 2^p.
fn precision_limit(p: u32) -> (r: u128)
    requires
        p == 24 || p == 53,
    ensures
        r == pow2(p as nat),
        r >= 0x100_0000,
        r <= 0x20_0000_0000_0000,
{
    proof {
        vstd::arithmetic::power2::lemma2_to64();
        vstd::arithmetic::power2::lemma2_to64_rest();
    }
    if p == 24 {
        0x100_0000
    } else {
        0x20_0000_0000_0000
    }
}

/// `m` rounded to `p` significant bits, as `round_to_bits` says.
pub(crate) fn round_bits(m: u128, p: u32) -> (r: u128)
    requires
        p == 24 || p == 53,
        m <= 0x10_0000_0000_0000_0000_0000_0000,
    ensures
        r == round_to_bits(m as nat, p as nat),
        r <= 2 * m + 1,
{
    let limit = precision_limit(p);
    let mut q: u128 = m;
    let mut u: u128 = 1;
    let ghost mut e: nat = 0;
    proof {
        vstd::arithmetic::power2::lemma2_to64();
    }
    while q >= limit
        invariant
            limit == pow2(p as nat),
            limit >= 2,
            m <= 0x10_0000_0000_0000_0000_0000_0000,
            u == pow2(e),
            u >= 1,
            u == 1 || u <= m,
            q == (m as int) / (u as int),
            q * u <= m,
            excess_bits(m as nat, p as nat) == e + excess_bits(q as nat, p as nat),
        decreases q,
    {
        proof {
            lemma_pow2_unfold(e + 1);
            vstd::arithmetic::div_mod::lemma_div_denominator(m as int, u as int, 2);
            assert(u * 2 <= m) by (nonlinear_arith)
                requires
                    q * u <= m,
                    q >= 2;
            vstd::arithmetic::div_mod::lemma_fundamental_div_mod(m as int, (u * 2) as int);
            vstd::arithmetic::div_mod::lemma_mod_pos_bound(m as int, (u * 2) as int);
            assert((q / 2) * (u * 2) <= m) by (nonlinear_arith)
                requires
                    (q / 2) == (m as int) / ((u * 2) as int),
                    m == (u * 2) * ((m as int) / ((u * 2) as int)) + (m as int) % ((u * 2) as int),
                    (m as int) % ((u * 2) as int) >= 0;
            assert(excess_bits(q as nat, p as nat) == 1 + excess_bits((q / 2) as nat, p as nat));
        }
        q = q / 2;
        u = u * 2;
        proof {
            e = e + 1;
        }
    }
    proof {
        vstd::arithmetic::div_mod::lemma_fundamental_div_mod(m as int, u as int);
        vstd::arithmetic::div_mod::lemma_mod_pos_bound(m as int, u as int);
        assert(excess_bits(q as nat, p as nat) == 0);
    }
    let r = m - q * u;
    assert(r == (m as int) % (u as int)) by (nonlinear_arith)
        requires
            m == u * q + (m as int) % (u as int),
            r == m - q * u;
    let up = 2 * r > u || (2 * r == u && q % 2 == 1);
    let k = if up { q + 1 } else { q };
    assert(k * u <= 2 * m + 1) by (nonlinear_arith)
        requires
            k == q || (k == q + 1 && r >= 1),
            q * u <= m,
            r == m - q * u,
            u >= 1,
            u == 1 || u <= m;
    k * u
}

/// How `v · 2^k` compares with the integer `n`, where `v` is the binary64
/// number with bit pattern `bits`, by exact value: infinities lie beyond
/// every integer, and a NaN compares with nothing. (This is how `v`
/// compares with `n / 2^k`.)
pub open spec fn float_scaled_order(bits: u64, n: int, k: nat) -> Option<Order> {
    if float_exponent_field(bits) == 0x7ff {
        if float_fraction_field(bits) != 0 {
            None
        } else if float_negative(bits) {
            Some(Order::Less)
        } else {
            Some(Order::Greater)
        }
    } else {
        let v = with_sign(float_negative(bits), float_significand(bits));
        let e = float_scale(bits) + k;
        if e >= 0 {
            Some(int_order(v * pow2(e as nat), n))
        } else {
            Some(int_order(v, n * pow2((-e) as nat)))
        }
    }
}

/// How `v · 2^k` compares with `n` (`None` for NaN), as
/// `float_scaled_order` says.
pub fn compare_float_scaled(bits: u64, n: i128, k: u32) -> (r: Option<Order>)
    ensures
        r == float_scaled_order(bits, n as int, k as nat),
{
    let exp: u64 = (bits >> 52u64) & 0x7ffu64;
    let frac: u64 = bits & 0xf_ffff_ffff_ffffu64;
    let negative: bool = (bits >> 63u64) == 1u64;
    proof {
        assert(exp <= 0x7ff) by (bit_vector)
            requires
                exp == (bits >> 52u64) & 0x7ffu64;
        assert(frac < 0x10_0000_0000_0000) by (bit_vector)
            requires
                frac == bits & 0xf_ffff_ffff_ffffu64;
    }
    if exp == 0x7ff {
        if frac != 0 {
            return None;
        } else if negative {
            return Some(Order::Less);
        } else {
            return Some(Order::Greater);
        }
    }
    let m: u64 = if exp == 0 { frac } else { frac + 0x10_0000_0000_0000 };
    let ghost v = with_sign(negative, m as int);
    let base: i64 = if exp == 0 { -1074 } else { exp as i64 - 1075 };
    let ee: i64 = base + k as i64;
    let ghost e = float_scale(bits) + k;
    assert(m as int == float_significand(bits));
    assert(ee == e);
    if m == 0 {
        proof {
            if e < 0 {
                lemma_pow2_pos((-e) as nat);
                assert(int_order(0, n * pow2((-e) as nat)) == int_order(0, n as int)) by (nonlinear_arith)
                    requires
                        pow2((-e) as nat) > 0;
            }
        }
        return Some(if 0 < n { Order::Less } else if n == 0 { Order::Equal } else { Order::Greater });
    }
    proof {
        if e >= 0 {
            lemma_pow2_pos(e as nat);
        } else {
            lemma_pow2_pos((-e) as nat);
        }
    }
    if !negative && n <= 0 {
        proof {
            if e >= 0 {
                assert(v * pow2(e as nat) > 0) by (nonlinear_arith)
                    requires
                        v > 0,
                        pow2(e as nat) > 0;
            } else {
                assert(n * pow2((-e) as nat) <= 0) by (nonlinear_arith)
                    requires
                        n <= 0,
                        pow2((-e) as nat) > 0;
            }
        }
        return Some(Order::Greater);
    }
    if negative && n >= 0 {
        proof {
            if e >= 0 {
                assert(v * pow2(e as nat) < 0) by (nonlinear_arith)
                    requires
                        v < 0,
                        pow2(e as nat) > 0;
            } else {
                assert(n * pow2((-e) as nat) >= 0) by (nonlinear_arith)
                    requires
                        n >= 0,
                        pow2((-e) as nat) > 0;
            }
        }
        return Some(Order::Less);
    }
    let x: u128 = if n < 0 { (0i128 - (n + 1)) as u128 + 1 } else { n as u128 };
    assert(x as int == if negative { -n } else { n as int });
    let o = if ee >= 0 {
        scaled_up_order(m, ee as u64, x)
    } else {
        scaled_down_order(m, (0 - ee) as u64, x)
    };
    proof {
        if negative {
            if e >= 0 {
                assert(v * pow2(e as nat) == -(m * pow2(e as nat))) by (nonlinear_arith)
                    requires
                        v == -m;
            } else {
                assert(n * pow2((-e) as nat) == -(x * pow2((-e) as nat))) by (nonlinear_arith)
                    requires
                        n == -x;
            }
        }
    }
    if negative {
        Some(
            match o {
                Order::Less => Order::Greater,
                Order::Equal => Order::Equal,
                Order::Greater => Order::Less,
            },
        )
    } else {
        Some(o)
    }
}

/// How `x · 2^k` compares with `n`.
pub(crate) fn compare_int_scaled(x: i128, n: i128, k: u32) -> (r: Order)
    requires
        -0x1_0000_0000_0000_0000 < x < 0x1_0000_0000_0000_0000,
    ensures
        r == int_order(x * pow2(k as nat), n as int),
{
    proof {
        lemma_pow2_pos(k as nat);
    }
    if x == 0 {
        assert(x * pow2(k as nat) == 0);
        return if 0 < n { Order::Less } else if n == 0 { Order::Equal } else { Order::Greater };
    }
    if x > 0 && n <= 0 {
        assert(x * pow2(k as nat) > 0) by (nonlinear_arith)
            requires
                x > 0,
                pow2(k as nat) > 0;
        return Order::Greater;
    }
    if x < 0 && n >= 0 {
        assert(x * pow2(k as nat) < 0) by (nonlinear_arith)
            requires
                x < 0,
                pow2(k as nat) > 0;
        return Order::Less;
    }
    let mx: u64 = if x < 0 { (0 - x) as u64 } else { x as u64 };
    let nx: u128 = if n < 0 { (0i128 - (n + 1)) as u128 + 1 } else { n as u128 };
    let o = scaled_up_order(mx, k as u64, nx);
    if x < 0 {
        assert(x * pow2(k as nat) == -(mx * pow2(k as nat))) by (nonlinear_arith)
            requires
                x == -mx;
        match o {
            Order::Less => Order::Greater,
            Order::Equal => Order::Equal,
            Order::Greater => Order::Less,
        }
    } else {
        o
    }
}

/// The number of doublings, from `t` on, that lift `a / d` to at least 2^p
/// (stopping at 256).
pub open spec fn lift_steps(a: nat, d: nat, p: nat, t: nat) -> nat
    decreases 256 - t,
{
    if t >= 256 || a * pow2(t) >= pow2(p) * d {
        t
    } else {
        lift_steps(a, d, p, t + 1)
    }
}

/// The number nearest `a / 10^s` among those with at most `p` significant
/// bits, a tie going to the even significand, as a numerator over a power of
/// two: `(n, k)` stands for `n / 2^k`.
///
/// `a / 10^s` is doubled `t` times until it is at least 2^p; twice its
/// integer part, plus one when a fraction was cut off, then lies on the same
/// side of every rounding boundary as twice the exact value, so rounding it
/// to `p` bits gives the rounded value times 2^(t + 1).
pub open spec fn decimal_rounded(a: nat, s: nat, p: nat) -> (nat, nat) {
    let d = pow10(s);
    let t = lift_steps(a, d, p, 0);
    let y = a * pow2(t);
    let sticky: nat = if y % d != 0 {
        1
    } else {
        0
    };
    (round_to_bits(2 * (y / d) + sticky, p), t + 1)
}

/// `a / 10^s` rounded to `p` significant bits, as `decimal_rounded` says.
pub(crate) fn round_decimal(a: u128, s: usize, p: u32) -> (r: (u128, u32))
    requires
        1 <= a <= numeral_limit(),
        s <= 18,
        p == 24 || p == 53,
    ensures
        r.0 == decimal_rounded(a as nat, s as nat, p as nat).0,
        r.1 == decimal_rounded(a as nat, s as nat, p as nat).1,
        r.0 <= 0x40_0000_0000_0000_0000,
        r.1 <= 257,
{
    let d = scale_up(1, s);
    proof {
        lemma_pow10_mono(s as nat, 18);
        assert(pow10(18) == 1_000_000_000_000_000_000) by {
            reveal_with_fuel(pow10, 19);
        }
        assert(pow2(0) == 1) by {
            vstd::arithmetic::power2::lemma2_to64();
        }
        vstd::arithmetic::div_mod::lemma_fundamental_div_mod(a as int, d as int);
        vstd::arithmetic::div_mod::lemma_mod_pos_bound(a as int, d as int);
        vstd::arithmetic::div_mod::lemma_div_is_ordered_by_denominator(a as int, 1, d as int);
    }
    let limit = precision_limit(p);
    let mut q: u128 = a / d;
    let mut r: u128 = a % d;
    let mut t: u32 = 0;
    assert(a * pow2(0) == q * d + r) by (nonlinear_arith)
        requires
            pow2(0) == 1,
            a == d * q + r;
    while t < 256 && q < limit
        invariant
            d == pow10(s as nat),
            1 <= d <= 1_000_000_000_000_000_000,
            limit == pow2(p as nat),
            limit <= 0x20_0000_0000_0000,
            t <= 256,
            a * pow2(t as nat) == q * d + r,
            r < d,
            q <= numeral_limit(),
            lift_steps(a as nat, d as nat, p as nat, 0) == lift_steps(a as nat, d as nat, p as nat, t as nat),
        decreases 256 - t,
    {
        proof {
            assert(a * pow2(t as nat) < pow2(p as nat) * d) by (nonlinear_arith)
                requires
                    a * pow2(t as nat) == q * d + r,
                    r < d,
                    q + 1 <= limit,
                    limit == pow2(p as nat),
                    d >= 1;
            lemma_pow2_unfold((t + 1) as nat);
        }
        let ghost q0 = q;
        let ghost r0 = r;
        let ghost t0 = t;
        let r2 = 2 * r;
        if r2 >= d {
            q = 2 * q + 1;
            r = r2 - d;
        } else {
            q = 2 * q;
            r = r2;
        }
        t = t + 1;
        assert(a * pow2(t as nat) == q * d + r) by (nonlinear_arith)
            requires
                a * pow2(t0 as nat) == q0 * d + r0,
                pow2(t as nat) == 2 * pow2(t0 as nat),
                (q == 2 * q0 + 1 && r == 2 * r0 - d) || (q == 2 * q0 && r == 2 * r0);
    }
    proof {
        if t < 256 {
            assert(a * pow2(t as nat) >= pow2(p as nat) * d) by (nonlinear_arith)
                requires
                    a * pow2(t as nat) == q * d + r,
                    r >= 0,
                    q >= limit,
                    limit == pow2(p as nat),
                    d >= 1;
        }
        vstd::arithmetic::div_mod::lemma_fundamental_div_mod_converse(
            a * pow2(t as nat),
            d as int,
            q as int,
            r as int,
        );
    }
    let sticky: u128 = if r != 0 { 1 } else { 0 };
    let m = 2 * q + sticky;
    let rounded = round_bits(m, p);
    (rounded, t + 1)
}

/// The binary64 value an integer converts to.
pub fn binary64_of_int(n: i128) -> (r: i128)
    requires
        -0x1_0000_0000_0000_0000 <= n <= 0x1_0000_0000_0000_0000,
    ensures
        r == int_as_binary64(n as int),
{
    if n < 0 {
        let m = round_magnitude((0 - n) as u128);
        0 - (m as i128)
    } else {
        round_magnitude(n as u128) as i128
    }
}

} // verus!
