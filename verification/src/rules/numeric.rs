//! Numeric rules: value bounds, digit counts, decimal places.
use vstd::prelude::*;
use crate::rules::string::{all_digits, digits_value, parse_digits, unsigned_part};
use crate::text::{find_char, first_index_of, is_ascii_digit};
use crate::rules::binary64::{decimal_rounded, round_decimal};
use vstd::arithmetic::power2::{lemma_pow2_adds, lemma_pow2_pos, lemma_pow2_strictly_increases, lemma_pow2_unfold, pow2};

verus! {

/// The value is at least `min`.
pub fn check_min(value: i64, min: i64) -> (r: bool)
    ensures
        r == (value >= min),
{
    value >= min
}

/// The value is at most `max`.
pub fn check_max(value: i64, max: i64) -> (r: bool)
    ensures
        r == (value <= max),
{
    value <= max
}

/// The value lies between `min` and `max` (inclusive).
pub fn check_between(value: i64, min: i64, max: i64) -> (r: bool)
    ensures
        r == (min <= value && value <= max),
{
    value >= min && value <= max
}

/// Number of ASCII digits in `s`.
pub open spec fn digit_count(s: Seq<char>) -> nat
    decreases s.len(),
{
    if s.len() == 0 {
        0
    } else {
        digit_count(s.drop_last()) + if is_ascii_digit(s.last()) { 1nat } else { 0nat }
    }
}

proof fn lemma_digit_count_bound(s: Seq<char>)
    ensures
        digit_count(s) <= s.len(),
    decreases s.len(),
{
    if s.len() > 0 {
        lemma_digit_count_bound(s.drop_last());
    }
}

/// Counts the ASCII digits of `value`.
fn count_digits(value: &str) -> (r: usize)
    ensures
        r == digit_count(value@),
{
    let n = value.unicode_len();
    let mut count: usize = 0;
    let mut i: usize = 0;
    while i < n
        invariant
            n == value@.len(),
            i <= n,
            count == digit_count(value@.take(i as int)),
        decreases n - i,
    {
        let c = value.get_char(i);
        proof {
            assert(value@.take(i + 1).drop_last() =~= value@.take(i as int));
            lemma_digit_count_bound(value@.take(i as int));
        }
        if '0' <= c && c <= '9' {
            count = count + 1;
        }
        i = i + 1;
    }
    assert(value@.take(n as int) =~= value@);
    count
}

/// The string holds exactly `count` ASCII digits.
pub fn check_digits(value: &str, count: usize) -> (r: bool)
    ensures
        r == (digit_count(value@) == count),
{
    count_digits(value) == count
}

/// The string holds between `min` and `max` ASCII digits (inclusive).
pub fn check_digits_between(value: &str, min: usize, max: usize) -> (r: bool)
    ensures
        r == (min <= digit_count(value@) && digit_count(value@) <= max),
{
    let count = count_digits(value);
    count >= min && count <= max
}

/// Number of characters after the first `.` of `s`, if it has one.
pub open spec fn decimal_places(s: Seq<char>) -> Option<usize> {
    match first_index_of(s, '.') {
        Some(k) => Some((s.len() - (k + 1)) as usize),
        None => None,
    }
}

/// The number of decimal places (characters after the first `.`, none without a
/// `.`) is `min_places`, or lies between `min_places` and `max_places` when
/// a maximum is given.
pub open spec fn spec_check_decimal(s: Seq<char>, min_places: usize, max_places: Option<usize>) -> bool {
    match decimal_places(s) {
        Some(places) => match max_places {
            Some(max) => min_places <= places && places <= max,
            None => places == min_places,
        },
        None => min_places == 0,
    }
}

/// The string has exactly `min_places` decimal places, or between
/// `min_places` and `max_places` when a maximum is given.
pub fn check_decimal(value: &str, min_places: usize, max_places: Option<usize>) -> (r: bool)
    ensures
        r == spec_check_decimal(value@, min_places, max_places),
{
    match find_char(value, '.') {
        Some(dot) => {
            let n = value.unicode_len();
            let decimal_part = value.substring_char(dot + 1, n);
            assert(decimal_part@ =~= value@.skip(dot + 1));
            let places = decimal_part.unicode_len();
            match max_places {
                Some(max) => places >= min_places && places <= max,
                None => places == min_places,
            }
        },
        None => min_places == 0,
    }
}

/// 10 to the power `k`.
pub open spec fn pow10(k: nat) -> nat
    decreases k,
{
    if k == 0 {
        1
    } else {
        10 * pow10((k - 1) as nat)
    }
}

pub(crate) proof fn lemma_pow10_mono(i: nat, j: nat)
    requires
        i <= j,
    ensures
        pow10(i) <= pow10(j),
        pow10(i) >= 1,
    decreases j,
{
    if j > i {
        lemma_pow10_mono(i, (j - 1) as nat);
    } else if i > 0 {
        lemma_pow10_mono((i - 1) as nat, (i - 1) as nat);
    }
}

/// The largest value a decimal numeral may have for `multiple_of`.
pub open spec fn numeral_limit() -> nat {
    99_999_999_999_999_999_999
}

/// The first index of an exponent mark (`e` or `E`) in `s`.
pub open spec fn exponent_index(s: Seq<char>) -> Option<int> {
    match (first_index_of(s, 'e'), first_index_of(s, 'E')) {
        (Some(a), Some(b)) => Some(
            if a <= b {
                a
            } else {
                b
            },
        ),
        (Some(a), None) => Some(a),
        (None, b) => b,
    }
}

/// The digits of a mantissa (those before and after its `.`), and how many
/// come after the `.`.
pub open spec fn mantissa_digits(m: Seq<char>) -> (Seq<char>, nat) {
    match first_index_of(m, '.') {
        Some(k) => (m.take(k) + m.skip(k + 1), (m.len() - (k + 1)) as nat),
        None => (m, 0),
    }
}

/// An exponent: an optional sign, then digits, of magnitude at most 99.
pub open spec fn exponent_value(x: Seq<char>) -> Option<int> {
    let t = unsigned_part(x);
    if all_digits(t) && digits_value(t) <= 99 {
        Some(
            if x.len() > 0 && x[0] == '-' {
                -digits_value(t)
            } else {
                digits_value(t)
            },
        )
    } else {
        None
    }
}

/// A decimal numeral read exactly, without its sign, as `(a, s)` standing
/// for `a / 10^s`. The text is an optional sign, a mantissa of digits with an
/// optional `.` (at least one digit in all, at most 18 after the `.`, a digit
/// value below 10^20), and an optional exponent (`e` or `E`, an optional
/// sign, digits, at most 99). The value must come out as `a / 10^s` with `s`
/// at most 18, or as an integer below 10^20 (every 64-bit integer written
/// out fits).
pub open spec fn decimal_magnitude(s: Seq<char>) -> Option<(nat, nat)> {
    let body = unsigned_part(s);
    let mant = match exponent_index(body) {
        Some(k) => body.take(k),
        None => body,
    };
    let ex = match exponent_index(body) {
        Some(k) => exponent_value(body.skip(k + 1)),
        None => Some(0int),
    };
    let ds = mantissa_digits(mant).0;
    let f = mantissa_digits(mant).1;
    match ex {
        Some(e) => if f <= 18 && all_digits(ds) && digits_value(ds) <= numeral_limit() {
            scaled_numeral(digits_value(ds), f as int, e)
        } else {
            None
        },
        None => None,
    }
}

/// The digit value `d` with `f` digits after the `.` and exponent `e`, as
/// `(a, s)` standing for `a / 10^s` with `s` at most 18, or as an integer at
/// most `numeral_limit()`.
pub open spec fn scaled_numeral(d: int, f: int, e: int) -> Option<(nat, nat)> {
    if 0 <= f - e <= 18 {
        Some((d as nat, (f - e) as nat))
    } else if f - e < 0 && d * pow10((e - f) as nat) <= numeral_limit() {
        Some(((d * pow10((e - f) as nat)) as nat, 0))
    } else {
        None
    }
}

/// The magnitude of the binary64 number nearest a numeral that
/// `decimal_magnitude` reads: `(m, k)` stands for `m / 2^k`.
pub open spec fn numeral_as_binary64(s: Seq<char>) -> Option<(nat, nat)> {
    match decimal_magnitude(s) {
        Some((a, sa)) => if a == 0 {
            Some((0, 0))
        } else {
            Some(decimal_rounded(a, sa, 53))
        },
        None => None,
    }
}

/// The larger of `a` and `b`.
pub open spec fn larger(a: nat, b: nat) -> nat {
    if a >= b {
        a
    } else {
        b
    }
}

/// The remainder of `x / 2^kx` by `y / 2^ky`, times 2^larger(kx, ky): the two
/// brought over a common power of two.
pub open spec fn scaled_remainder(x: nat, kx: nat, y: nat, ky: nat) -> nat {
    let k = larger(kx, ky);
    (x * pow2((k - kx) as nat)) % (y * pow2((k - ky) as nat))
}

/// The numeral `v` is a multiple of the numeral `n` as binary64 numbers:
/// each is read as the binary64 number nearest it, `n` is not zero, and the
/// remainder of `v` by `n` (which is exact in binary64, and has the
/// magnitude of the remainder of `|v|` by `|n|`) is below the binary64
/// machine epsilon, 2^-52. So `15` is a multiple of `5`, and `0.3` is not
/// a multiple of `0.1`.
///
/// A numeral is read when `decimal_magnitude` reads it; one that it does not
/// read (`inf`, `NaN`, more than 18 digits after the `.`, a digit value of
/// 10^20 or more, an exponent beyond 99) is never a multiple.
#[verifier::opaque]
pub open spec fn spec_is_multiple_of(v: Seq<char>, n: Seq<char>) -> bool {
    match (numeral_as_binary64(v), numeral_as_binary64(n)) {
        (Some((a, ka)), Some((b, kb))) => b != 0 && scaled_remainder(a, ka, b, kb) * pow2(52) < pow2(larger(ka, kb)),
        _ => false,
    }
}

/// The first index of an exponent mark, as `exponent_index` says.
fn exponent_index_of(s: &str) -> (r: Option<usize>)
    ensures
        r matches Some(k) ==> k < s@.len() && exponent_index(s@) == Some(k as int),
        r is None ==> exponent_index(s@) is None,
{
    let a = find_char(s, 'e');
    let b = find_char(s, 'E');
    proof {
        if a is None {
            assert(first_index_of(s@, 'e') is None);
        }
        if b is None {
            assert(first_index_of(s@, 'E') is None);
        }
    }
    match (a, b) {
        (Some(x), Some(y)) => Some(if x <= y { x } else { y }),
        (Some(x), None) => Some(x),
        (None, y) => y,
    }
}

/// Reads an exponent, as `exponent_value` says.
fn read_exponent(x: &str) -> (r: Option<i32>)
    ensures
        match exponent_value(x@) {
            Some(e) => r == Some(e as i32) && -99 <= e <= 99,
            None => r is None,
        },
{
    let n = x.unicode_len();
    let neg = n > 0 && x.get_char(0) == '-';
    let start: usize = if n > 0 && (x.get_char(0) == '+' || x.get_char(0) == '-') { 1 } else { 0 };
    assert(x@.skip(start as int) =~= unsigned_part(x@));
    match parse_digits(x, start, 99) {
        Some(v) => Some(if neg { 0 - (v as i32) } else { v as i32 }),
        None => None,
    }
}

/// `x · 10^k` when it is at most `numeral_limit()`.
fn scale_within_limit(x: u128, k: usize) -> (r: Option<u128>)
    requires
        x <= numeral_limit(),
    ensures
        match r {
            Some(v) => v == x * pow10(k as nat) && v <= numeral_limit(),
            None => x * pow10(k as nat) > numeral_limit(),
        },
{
    let mut acc: u128 = x;
    let mut i: usize = 0;
    assert(pow10(0) == 1);
    while i < k
        invariant
            i <= k,
            acc == x * pow10(i as nat),
            acc <= numeral_limit(),
        decreases k - i,
    {
        let next = acc * 10;
        assert(next == x * pow10((i + 1) as nat)) by (nonlinear_arith)
            requires
                next == acc * 10,
                acc == x * pow10(i as nat),
                pow10((i + 1) as nat) == 10 * pow10(i as nat);
        if next > 99_999_999_999_999_999_999 {
            proof {
                lemma_pow10_mono((i + 1) as nat, k as nat);
                assert(x * pow10(k as nat) >= x * pow10((i + 1) as nat)) by (nonlinear_arith)
                    requires
                        pow10((i + 1) as nat) <= pow10(k as nat);
            }
            return None;
        }
        acc = next;
        i = i + 1;
    }
    Some(acc)
}

/// Reads a mantissa: the value of its digits and how many come after the
/// `.`, when there are at most 18 of those and the value is at most
/// `numeral_limit()`.
fn read_mantissa(mant: &str) -> (r: Option<(u128, usize)>)
    ensures
        match r {
            Some((d, f)) => {
                &&& mantissa_digits(mant@).1 <= 18
                &&& all_digits(mantissa_digits(mant@).0)
                &&& d == digits_value(mantissa_digits(mant@).0)
                &&& d <= numeral_limit()
                &&& f == mantissa_digits(mant@).1
            },
            None => !(mantissa_digits(mant@).1 <= 18 && all_digits(mantissa_digits(mant@).0) && digits_value(
                mantissa_digits(mant@).0,
            ) <= numeral_limit()),
        },
{
    let ml = mant.unicode_len();
    let (ip, fp) = match find_char(mant, '.') {
        Some(k) => (mant.substring_char(0, k), mant.substring_char(k + 1, ml)),
        None => (mant, ""),
    };
    proof {
        reveal_strlit("");
        match first_index_of(mant@, '.') {
            Some(k) => {
                assert(ip@ =~= mant@.take(k));
                assert(fp@ =~= mant@.skip(k + 1));
            },
            None => {
                assert(fp@ =~= Seq::<char>::empty());
                assert(ip@ + fp@ =~= ip@);
            },
        }
    }
    let f = fp.unicode_len();
    if f > 18 {
        return None;
    }
    let mut digits = ip.to_string();
    digits.append(fp);
    assert(digits@.skip(0) =~= digits@);
    match parse_digits(digits.as_str(), 0, 99_999_999_999_999_999_999) {
        Some(v) => Some((v, f)),
        None => None,
    }
}

/// Splits a numeral without its sign into its mantissa and its exponent
/// (zero when there is none); `None` when the exponent does not read.
fn split_exponent(body: &str) -> (r: Option<(&str, i32)>)
    ensures
        match r {
            Some((m, e)) => {
                &&& m@ == match exponent_index(body@) {
                    Some(k) => body@.take(k),
                    None => body@,
                }
                &&& match exponent_index(body@) {
                    Some(k) => exponent_value(body@.skip(k + 1)) == Some(e as int),
                    None => e == 0,
                }
                &&& -99 <= e <= 99
            },
            None => exponent_index(body@) matches Some(k) && exponent_value(body@.skip(k + 1)) is None,
        },
{
    let bl = body.unicode_len();
    match exponent_index_of(body) {
        Some(k) => {
            let x = body.substring_char(k + 1, bl);
            assert(x@ =~= body@.skip(k + 1));
            let e = match read_exponent(x) {
                Some(e) => e,
                None => {
                    return None;
                },
            };
            let m = body.substring_char(0, k);
            assert(m@ =~= body@.take(k as int));
            Some((m, e))
        },
        None => Some((body, 0)),
    }
}

/// Reads a decimal numeral as `decimal_magnitude` says.
fn read_decimal(s: &str) -> (r: Option<(u128, usize)>)
    ensures
        r matches Some((x, y)) ==> x <= numeral_limit() && y <= 18,
        match decimal_magnitude(s@) {
            Some((a, k)) => r matches Some((x, y)) && x == a && y == k,
            None => r is None,
        },
{
    let n = s.unicode_len();
    let start: usize = if n > 0 && (s.get_char(0) == '+' || s.get_char(0) == '-') { 1 } else { 0 };
    let body = s.substring_char(start, n);
    assert(body@ =~= unsigned_part(s@));
    let (mant, e) = match split_exponent(body) {
        Some(p) => p,
        None => {
            return None;
        },
    };
    let (d, f) = match read_mantissa(mant) {
        Some(p) => p,
        None => {
            return None;
        },
    };
    apply_exponent(d, f, e)
}

/// The numeral with digit value `d`, `f` digits after the `.` and exponent
/// `e`, as `scaled_numeral` says.
fn apply_exponent(d: u128, f: usize, e: i32) -> (r: Option<(u128, usize)>)
    requires
        d <= numeral_limit(),
        f <= 18,
        -99 <= e <= 99,
    ensures
        r matches Some((x, y)) ==> x <= numeral_limit() && y <= 18,
        match scaled_numeral(d as int, f as int, e as int) {
            Some((a, k)) => r matches Some((x, y)) && x == a && y == k,
            None => r is None,
        },
{
    let sc: i32 = f as i32 - e;
    if sc >= 0 {
        if sc <= 18 {
            Some((d, sc as usize))
        } else {
            None
        }
    } else {
        match scale_within_limit(d, (0 - sc) as usize) {
            Some(v) => Some((v, 0)),
            None => None,
        }
    }
}

/// `x` times 10 to the power `k`.
pub(crate) fn scale_up(x: u128, k: usize) -> (r: u128)
    requires
        x <= numeral_limit(),
        k <= 18,
    ensures
        r == x * pow10(k as nat),
{
    let mut acc: u128 = x;
    let mut i: usize = 0;
    assert(pow10(0) == 1);
    proof {
        lemma_pow10_mono(k as nat, 18);
        assert(pow10(18) == 1_000_000_000_000_000_000) by {
            reveal_with_fuel(pow10, 19);
        }
    }
    while i < k
        invariant
            i <= k <= 18,
            x <= numeral_limit(),
            acc == x * pow10(i as nat),
            pow10(18) == 1_000_000_000_000_000_000,
        decreases k - i,
    {
        proof {
            lemma_pow10_mono((i + 1) as nat, 18);
            assert(pow10((i + 1) as nat) == 10 * pow10(i as nat));
            assert(x * pow10((i + 1) as nat) <= numeral_limit() * pow10(18)) by (nonlinear_arith)
                requires x <= numeral_limit(), pow10((i + 1) as nat) <= pow10(18);
            assert(acc * 10 == x * pow10((i + 1) as nat)) by (nonlinear_arith)
                requires acc == x * pow10(i as nat), pow10((i + 1) as nat) == 10 * pow10(i as nat);
        }
        acc = acc * 10;
        i = i + 1;
    }
    acc
}

/// The magnitude of the binary64 number nearest a numeral, as
/// `numeral_as_binary64` says.
fn numeral_magnitude(s: &str) -> (r: Option<(u128, u32)>)
    ensures
        match numeral_as_binary64(s@) {
            Some((m, k)) => r matches Some((m2, k2)) && m2 == m && k2 == k,
            None => r is None,
        },
        r matches Some((m2, k2)) ==> m2 <= 0x40_0000_0000_0000_0000 && k2 <= 257,
{
    match read_decimal(s) {
        Some((a, sa)) => {
            if a == 0 {
                Some((0, 0))
            } else {
                let (m, k) = round_decimal(a, sa, 53);
                Some((m, k))
            }
        },
        None => None,
    }
}

/// The remainder of `x / 2^kx` by `y / 2^ky` over a common power of two, as
/// `scaled_remainder` says.
fn remainder_scaled(x: u128, kx: u32, y: u128, ky: u32) -> (r: u128)
    requires
        0 < y <= 0x40_0000_0000_0000_0000,
        x <= 0x40_0000_0000_0000_0000,
    ensures
        r == scaled_remainder(x as nat, kx as nat, y as nat, ky as nat),
        r <= 0x40_0000_0000_0000_0000,
{
    proof {
        vstd::arithmetic::power2::lemma2_to64();
    }
    if kx >= ky {
        let d = kx - ky;
        let mut t: u128 = y;
        let mut i: u32 = 0;
        while i < d && t <= x
            invariant
                i <= d,
                t == y * pow2(i as nat),
                0 < t <= 2 * 0x40_0000_0000_0000_0000,
                x <= 0x40_0000_0000_0000_0000,
            decreases d - i,
        {
            proof {
                lemma_pow2_unfold((i + 1) as nat);
                assert(y * pow2((i + 1) as nat) == 2 * (y * pow2(i as nat))) by (nonlinear_arith)
                    requires
                        pow2((i + 1) as nat) == 2 * pow2(i as nat);
            }
            t = 2 * t;
            i = i + 1;
        }
        assert(x * pow2(0) == x);
        if i < d {
            proof {
                lemma_pow2_adds(i as nat, (d - i) as nat);
                lemma_pow2_pos((d - i) as nat);
                assert(y * pow2(d as nat) >= t) by (nonlinear_arith)
                    requires
                        t == y * pow2(i as nat),
                        pow2(d as nat) == pow2(i as nat) * pow2((d - i) as nat),
                        pow2((d - i) as nat) >= 1,
                        t > 0;
                vstd::arithmetic::div_mod::lemma_small_mod(x as nat, (y * pow2(d as nat)) as nat);
            }
            x
        } else {
            proof {
                vstd::arithmetic::div_mod::lemma_fundamental_div_mod(x as int, t as int);
                vstd::arithmetic::div_mod::lemma_mod_pos_bound(x as int, t as int);
                vstd::arithmetic::div_mod::lemma_div_pos_is_pos(x as int, t as int);
                assert((x as int) % (t as int) <= x) by (nonlinear_arith)
                    requires
                        x == t * ((x as int) / (t as int)) + (x as int) % (t as int),
                        (x as int) / (t as int) >= 0,
                        t > 0;
            }
            x % t
        }
    } else {
        let d = ky - kx;
        let mut r: u128 = x % y;
        let mut i: u32 = 0;
        proof {
            assert(x * pow2(0) == x);
        }
        while i < d
            invariant
                i <= d,
                0 < y <= 0x40_0000_0000_0000_0000,
                r == (x * pow2(i as nat)) % (y as int),
                r < y,
            decreases d - i,
        {
            proof {
                lemma_pow2_unfold((i + 1) as nat);
                vstd::arithmetic::div_mod::lemma_mul_mod_noop_right(2, x * pow2(i as nat), y as int);
                assert(x * pow2((i + 1) as nat) == 2 * (x * pow2(i as nat))) by (nonlinear_arith)
                    requires
                        pow2((i + 1) as nat) == 2 * pow2(i as nat);
            }
            r = (2 * r) % y;
            i = i + 1;
        }
        assert(y * pow2(0) == y);
        r
    }
}

/// `rem · 2^52 < 2^k`.
fn below_epsilon(rem: u128, k: u32) -> (r: bool)
    requires
        rem <= 0x40_0000_0000_0000_0000,
    ensures
        r == (rem * pow2(52) < pow2(k as nat)),
{
    proof {
        vstd::arithmetic::power2::lemma2_to64();
        lemma_pow2_pos(k as nat);
    }
    if k < 52 {
        proof {
            lemma_pow2_strictly_increases(k as nat, 52);
            if rem >= 1 {
                assert(rem * pow2(52) >= pow2(52)) by (nonlinear_arith)
                    requires
                        rem >= 1,
                        pow2(52) > 0;
            }
        }
        return rem == 0;
    }
    let e = k - 52;
    proof {
        lemma_pow2_adds(52, e as nat);
        lemma_pow2_pos(e as nat);
        assert((rem * pow2(52) < pow2(k as nat)) == (rem < pow2(e as nat))) by (nonlinear_arith)
            requires
                pow2(k as nat) == pow2(52) * pow2(e as nat),
                pow2(52) > 0;
    }
    if e >= 80 {
        proof {
            lemma_pow2_strictly_increases(70, e as nat);
            lemma_pow2_adds(64, 6);
            assert(pow2(70) == 0x40_0000_0000_0000_0000) by {
                vstd::arithmetic::power2::lemma2_to64();
            }
        }
        return true;
    }
    let mut p: u128 = 1;
    let mut i: u32 = 0;
    while i < e
        invariant
            i <= e,
            e < 80,
            p == pow2(i as nat),
        decreases e - i,
    {
        proof {
            vstd::arithmetic::power2::lemma2_to64();
            lemma_pow2_unfold((i + 1) as nat);
            if i + 1 < 80 {
                lemma_pow2_strictly_increases((i + 1) as nat, 80);
            }
            lemma_pow2_adds(64, 16);
            assert(pow2(80) == 0x1_0000_0000_0000_0000_0000);
        }
        p = 2 * p;
        i = i + 1;
    }
    rem < p
}

/// The value is a multiple of `n` as binary64 numbers, as
/// `spec_is_multiple_of` says.
pub fn is_multiple_of(value: &str, n: &str) -> (r: bool)
    ensures
        r == spec_is_multiple_of(value@, n@),
{
    reveal(spec_is_multiple_of);
    let (a, ka) = match numeral_magnitude(value) {
        Some(p) => p,
        None => {
            return false;
        },
    };
    let (b, kb) = match numeral_magnitude(n) {
        Some(p) => p,
        None => {
            return false;
        },
    };
    if b == 0 {
        return false;
    }
    let rem = remainder_scaled(a, ka, b, kb);
    let k = if ka >= kb { ka } else { kb };
    below_epsilon(rem, k)
}

} // verus!
