//! String rules: lengths, character classes, affixes, case.
use vstd::prelude::*;
use crate::text::{
    char_is_alphabetic, char_is_alphanumeric, contains_str, ends_with_str, has_infix, has_prefix,
    has_suffix, is_ascii_digit, starts_with_str, str_eq, str_to_lowercase, str_to_uppercase,
    unicode_alphabetic, unicode_alphanumeric, unicode_lower, unicode_upper,
};

verus! {

/// The string is at least `min` characters long.
pub fn check_min_length(value: &str, min: usize) -> (r: bool)
    ensures
        r == (value@.len() >= min),
{
    value.unicode_len() >= min
}

/// The string is at most `max` characters long.
pub fn check_max_length(value: &str, max: usize) -> (r: bool)
    ensures
        r == (value@.len() <= max),
{
    value.unicode_len() <= max
}

/// The string is between `min` and `max` characters long (inclusive).
pub fn check_between_length(value: &str, min: usize, max: usize) -> (r: bool)
    ensures
        r == (min <= value@.len() && value@.len() <= max),
{
    let len = value.unicode_len();
    len >= min && len <= max
}

/// The string is exactly `size` characters long.
pub fn check_size(value: &str, size: usize) -> (r: bool)
    ensures
        r == (value@.len() == size),
{
    value.unicode_len() == size
}

/// Non-empty, and every character is alphabetic.
pub open spec fn spec_is_alpha(s: Seq<char>) -> bool {
    s.len() > 0 && forall|i: int| 0 <= i < s.len() ==> #[trigger] unicode_alphabetic(s[i])
}

/// Non-empty, and every character is alphanumeric.
pub open spec fn spec_is_alpha_num(s: Seq<char>) -> bool {
    s.len() > 0 && forall|i: int| 0 <= i < s.len() ==> #[trigger] unicode_alphanumeric(s[i])
}

/// Alphanumeric, `-` or `_`.
pub open spec fn is_dash_char(c: char) -> bool {
    unicode_alphanumeric(c) || c == '-' || c == '_'
}

/// Non-empty, and every character is alphanumeric, `-` or `_`.
pub open spec fn spec_is_alpha_dash(s: Seq<char>) -> bool {
    s.len() > 0 && forall|i: int| 0 <= i < s.len() ==> #[trigger] is_dash_char(s[i])
}

/// Only alphabetic characters, and at least one.
pub fn is_alpha(value: &str) -> (r: bool)
    ensures
        r == spec_is_alpha(value@),
{
    let n = value.unicode_len();
    if n == 0 {
        return false;
    }
    let mut i: usize = 0;
    while i < n
        invariant
            n == value@.len(),
            i <= n,
            forall|j: int| 0 <= j < i ==> #[trigger] unicode_alphabetic(value@[j]),
        decreases n - i,
    {
        if !char_is_alphabetic(value.get_char(i)) {
            return false;
        }
        i = i + 1;
    }
    true
}

/// Only alphanumeric characters, and at least one. Every string that passes
/// `alpha` passes this rule too.
pub fn is_alpha_num(value: &str) -> (r: bool)
    ensures
        r == spec_is_alpha_num(value@),
        spec_is_alpha(value@) ==> r,
{
    let n = value.unicode_len();
    if n == 0 {
        return false;
    }
    let mut i: usize = 0;
    while i < n
        invariant
            n == value@.len(),
            i <= n,
            forall|j: int| 0 <= j < i ==> #[trigger] unicode_alphanumeric(value@[j]),
        decreases n - i,
    {
        let c = value.get_char(i);
        if !char_is_alphanumeric(c) {
            assert(!unicode_alphabetic(value@[i as int]));
            return false;
        }
        i = i + 1;
    }
    true
}

/// Only alphanumeric characters, dashes and underscores, and at least one.
pub fn is_alpha_dash(value: &str) -> (r: bool)
    ensures
        r == spec_is_alpha_dash(value@),
{
    let n = value.unicode_len();
    if n == 0 {
        return false;
    }
    let mut i: usize = 0;
    while i < n
        invariant
            n == value@.len(),
            i <= n,
            forall|j: int| 0 <= j < i ==> #[trigger] is_dash_char(value@[j]),
        decreases n - i,
    {
        let c = value.get_char(i);
        if !(char_is_alphanumeric(c) || c == '-' || c == '_') {
            assert(!is_dash_char(value@[i as int]));
            return false;
        }
        i = i + 1;
    }
    true
}

/// Every alphanumeric string passes `alpha_dash`.
pub proof fn lemma_alpha_num_is_alpha_dash(s: Seq<char>)
    ensures
        spec_is_alpha_num(s) ==> spec_is_alpha_dash(s),
{
}

/// `s` is one or more ASCII digits.
pub open spec fn all_digits(s: Seq<char>) -> bool {
    s.len() > 0 && forall|i: int| 0 <= i < s.len() ==> #[trigger] is_ascii_digit(s[i])
}

/// `s` with at most one leading `+` or `-` removed.
pub open spec fn unsigned_part(s: Seq<char>) -> Seq<char> {
    if s.len() > 0 && (s[0] == '+' || s[0] == '-') {
        s.drop_first()
    } else {
        s
    }
}

/// `s` begins with `-`.
pub open spec fn is_negative_text(s: Seq<char>) -> bool {
    s.len() > 0 && s[0] == '-'
}

/// The value of a string of ASCII digits.
pub open spec fn digits_value(s: Seq<char>) -> int
    decreases s.len(),
{
    if s.len() == 0 {
        0
    } else {
        digits_value(s.drop_last()) * 10 + (s.last() as int - '0' as int)
    }
}

/// `s` is the text of an `i64`: an optional sign, then digits whose value
/// lies in the range of `i64`.
pub open spec fn spec_is_integer(s: Seq<char>) -> bool {
    let t = unsigned_part(s);
    all_digits(t) && if is_negative_text(s) {
        digits_value(t) <= 0x8000_0000_0000_0000
    } else {
        digits_value(t) <= 0x7fff_ffff_ffff_ffff
    }
}

proof fn lemma_digits_value_mono(s: Seq<char>, i: int)
    requires
        0 <= i <= s.len(),
        forall|j: int| 0 <= j < s.len() ==> #[trigger] is_ascii_digit(s[j]),
    ensures
        digits_value(s.take(i)) <= digits_value(s),
        0 <= digits_value(s.take(i)),
    decreases s.len() - i,
{
    let p = s.take(i);
    assert forall|j: int| 0 <= j < p.len() implies #[trigger] is_ascii_digit(p[j]) by {
        assert(p[j] == s[j]);
    }
    if i < s.len() {
        lemma_digits_value_mono(s, i + 1);
        assert(s.take(i + 1).drop_last() =~= s.take(i));
        lemma_digits_value_nonneg(s.take(i));
        assert(is_ascii_digit(s[i]));
        assert(s.take(i + 1).last() == s[i]);
    } else {
        assert(s.take(i) =~= s);
        lemma_digits_value_nonneg(s);
    }
}

pub(crate) proof fn lemma_digits_value_nonneg(s: Seq<char>)
    requires
        forall|j: int| 0 <= j < s.len() ==> #[trigger] is_ascii_digit(s[j]),
    ensures
        0 <= digits_value(s),
    decreases s.len(),
{
    if s.len() > 0 {
        let t = s.drop_last();
        assert forall|j: int| 0 <= j < t.len() implies #[trigger] is_ascii_digit(t[j]) by {
            assert(t[j] == s[j]);
        }
        lemma_digits_value_nonneg(t);
        assert(is_ascii_digit(s[s.len() - 1]));
    }
}

/// The value of the characters of `value` from position `from` on, when
/// there is at least one, all are ASCII digits, and the value is at most
/// `limit`.
pub(crate) fn parse_digits(value: &str, from: usize, limit: u128) -> (r: Option<u128>)
    requires
        from <= value@.len(),
    ensures
        match r {
            Some(v) => all_digits(value@.skip(from as int)) && v == digits_value(value@.skip(from as int)) && v <= limit,
            None => !(all_digits(value@.skip(from as int)) && digits_value(value@.skip(from as int)) <= limit),
        },
{
    let n = value.unicode_len();
    let ghost t = value@.skip(from as int);
    if from >= n {
        return None;
    }
    let mut acc: u128 = 0;
    let mut i: usize = from;
    while i < n
        invariant
            n == value@.len(),
            from <= i <= n,
            from < n,
            t == value@.skip(from as int),
            forall|j: int| 0 <= j < i - from ==> #[trigger] is_ascii_digit(t[j]),
            acc as int == digits_value(t.take(i - from)),
            acc <= limit,
        decreases n - i,
    {
        let c = value.get_char(i);
        assert(c == t[i - from]);
        if !('0' <= c && c <= '9') {
            assert(!is_ascii_digit(t[i - from]));
            return None;
        }
        let d = (c as u128) - ('0' as u128);
        assert(t.take(i - from + 1).drop_last() =~= t.take(i - from));
        if d > limit || acc > (limit - d) / 10 {
            proof {
                let k = i - from + 1;
                assert(digits_value(t.take(k)) == acc * 10 + d);
                if d <= limit {
                    assert(acc * 10 + d > limit) by (nonlinear_arith)
                        requires acc > (limit - d) / 10, d <= 9, d <= limit;
                } else {
                    assert(acc * 10 + d > limit) by (nonlinear_arith)
                        requires d > limit, acc >= 0;
                }
                if all_digits(t) {
                    lemma_digits_value_mono(t, k);
                }
            }
            return None;
        }
        assert(acc * 10 + d <= limit) by (nonlinear_arith)
            requires acc <= (limit - d) / 10, d <= 9, d <= limit;
        acc = acc * 10 + d;
        i = i + 1;
    }
    assert(t.take(n - from) =~= t);
    Some(acc)
}

/// Parses as an `i64`: an optional sign, then digits, in range.
pub fn is_integer(value: &str) -> (r: bool)
    ensures
        r == spec_is_integer(value@),
{
    let n = value.unicode_len();
    let mut start: usize = 0;
    if n > 0 && (value.get_char(0) == '+' || value.get_char(0) == '-') {
        start = 1;
    }
    let negative = n > 0 && value.get_char(0) == '-';
    let ghost t = unsigned_part(value@);
    assert(t =~= value@.subrange(start as int, n as int));
    if start >= n {
        return false;
    }
    let limit: u64 = if negative { 0x8000_0000_0000_0000 } else { 0x7fff_ffff_ffff_ffff };
    let mut acc: u64 = 0;
    let mut i: usize = start;
    while i < n
        invariant
            n == value@.len(),
            start <= i <= n,
            t == value@.subrange(start as int, n as int),
            t == unsigned_part(value@),
            limit == (if is_negative_text(value@) { 0x8000_0000_0000_0000u64 } else { 0x7fff_ffff_ffff_ffffu64 }),
            forall|j: int| 0 <= j < i - start ==> #[trigger] is_ascii_digit(t[j]),
            acc as int == digits_value(t.take(i - start)),
            acc <= limit,
            limit <= 0x8000_0000_0000_0000,
            limit >= 0x7fff_ffff_ffff_ffff,
            negative == is_negative_text(value@),
        decreases n - i,
    {
        let c = value.get_char(i);
        assert(c == t[i - start]);
        if !('0' <= c && c <= '9') {
            assert(!is_ascii_digit(t[i - start]));
            return false;
        }
        let d = (c as u64) - ('0' as u64);
        assert(t.take(i - start + 1).drop_last() =~= t.take(i - start));
        if acc > (limit - d) / 10 {
            proof {
                assert(acc * 10 + d > limit) by (nonlinear_arith)
                    requires acc > (limit - d) / 10, d <= 9, d <= limit;
                let k = i - start + 1;
                assert(digits_value(t.take(k)) == acc * 10 + d);
                if all_digits(t) {
                    lemma_digits_value_mono(t, k);
                }
            }
            return false;
        }
        assert(acc * 10 + d <= limit) by (nonlinear_arith)
            requires acc <= (limit - d) / 10, d <= 9, d <= limit;
        acc = acc * 10 + d;
        i = i + 1;
    }
    assert(t.take(n - start) =~= t);
    true
}


/// `e` or `E`.
pub open spec fn is_exp_char(c: char) -> bool {
    c == 'e' || c == 'E'
}

/// Digits and at most one `.`, with at least one digit.
pub open spec fn mantissa_ok(m: Seq<char>) -> bool {
    &&& forall|i: int| 0 <= i < m.len() ==> is_ascii_digit(#[trigger] m[i]) || m[i] == '.'
    &&& forall|i: int, j: int| 0 <= i < m.len() && 0 <= j < m.len() && #[trigger] m[i] == '.' && #[trigger] m[j] == '.' ==> i == j
    &&& exists|i: int| 0 <= i < m.len() && is_ascii_digit(#[trigger] m[i])
}

/// A decimal number: a mantissa, then optionally `e` or `E`, an optional
/// sign and one or more digits.
pub open spec fn spec_is_number(t: Seq<char>) -> bool {
    exists|k: int|
        0 <= k <= t.len() && mantissa_ok(#[trigger] t.take(k)) && (k == t.len() || (is_exp_char(t[k])
            && all_digits(unsigned_part(t.skip(k + 1)))))
}

/// The code of `c` with ASCII capitals folded to small letters.
pub open spec fn ascii_fold(c: char) -> u32 {
    if 'A' <= c && c <= 'Z' {
        (c as u32 + 32) as u32
    } else {
        c as u32
    }
}

/// `t` equals the lower-case ASCII word `w` up to ASCII case.
pub open spec fn ascii_ci_eq(t: Seq<char>, w: Seq<char>) -> bool {
    t.len() == w.len() && forall|i: int| 0 <= i < t.len() ==> #[trigger] ascii_fold(t[i]) == w[i] as u32
}

/// The text of an `f64`: an optional sign, then `inf`, `infinity`, `nan`
/// (in any ASCII case) or a decimal number.
pub open spec fn spec_is_numeric(s: Seq<char>) -> bool {
    let t = unsigned_part(s);
    ascii_ci_eq(t, seq!['i', 'n', 'f']) || ascii_ci_eq(t, seq!['i', 'n', 'f', 'i', 'n', 'i', 't', 'y'])
        || ascii_ci_eq(t, seq!['n', 'a', 'n']) || spec_is_number(t)
}

/// Does `v[from..to]` equal the lower-case ASCII word `w` up to ASCII case?
fn ci_matches(v: &str, from: usize, to: usize, w: &str) -> (r: bool)
    requires
        from <= to <= v@.len(),
    ensures
        r == ascii_ci_eq(v@.subrange(from as int, to as int), w@),
{
    let m = w.unicode_len();
    if to - from != m {
        return false;
    }
    let mut i: usize = 0;
    while i < m
        invariant
            from <= to <= v@.len(),
            to - from == m,
            m == w@.len(),
            i <= m,
            forall|j: int| 0 <= j < i ==> #[trigger] ascii_fold(v@.subrange(from as int, to as int)[j]) == w@[j] as u32,
        decreases m - i,
    {
        let c = v.get_char(from + i);
        let f: u32 = if 'A' <= c && c <= 'Z' { (c as u32) + 32 } else { c as u32 };
        assert(v@.subrange(from as int, to as int)[i as int] == c);
        assert(f == ascii_fold(c));
        if f != (w.get_char(i) as u32) {
            return false;
        }
        i = i + 1;
    }
    true
}

/// Is `v[from..to]` a mantissa?
fn scan_mantissa(v: &str, from: usize, to: usize) -> (r: bool)
    requires
        from <= to <= v@.len(),
    ensures
        r == mantissa_ok(v@.subrange(from as int, to as int)),
{
    let ghost m = v@.subrange(from as int, to as int);
    let mut dot: Option<usize> = None;
    let mut digit = false;
    let mut i: usize = from;
    while i < to
        invariant
            from <= i <= to <= v@.len(),
            m == v@.subrange(from as int, to as int),
            forall|j: int| 0 <= j < i - from ==> is_ascii_digit(#[trigger] m[j]) || m[j] == '.',
            match dot {
                Some(d) => from <= d < i && m[d - from] == '.' && forall|j: int| 0 <= j < i - from && #[trigger] m[j] == '.' ==> j == d - from,
                None => forall|j: int| 0 <= j < i - from ==> #[trigger] m[j] != '.',
            },
            digit == exists|j: int| 0 <= j < i - from && is_ascii_digit(#[trigger] m[j]),
        decreases to - i,
    {
        let c = v.get_char(i);
        assert(m[i - from] == c);
        if c == '.' {
            if dot.is_some() {
                proof {
                    let d = dot.unwrap();
                    assert(m[d - from] == '.' && m[i - from] == '.');
                }
                return false;
            }
            dot = Some(i);
        } else if '0' <= c && c <= '9' {
            digit = true;
        } else {
            assert(!(is_ascii_digit(m[i - from]) || m[i - from] == '.'));
            return false;
        }
        i = i + 1;
    }
    proof {
        if digit {
            let j = choose|j: int| 0 <= j < i - from && is_ascii_digit(#[trigger] m[j]);
            assert(0 <= j < m.len());
        }
        if mantissa_ok(m) {
            let j = choose|j: int| 0 <= j < m.len() && is_ascii_digit(#[trigger] m[j]);
            assert(0 <= j < i - from);
        }
    }
    digit
}

/// Is `v[from..to]` one or more digits?
fn scan_digits(v: &str, from: usize, to: usize) -> (r: bool)
    requires
        from <= to <= v@.len(),
    ensures
        r == all_digits(v@.subrange(from as int, to as int)),
{
    if from == to {
        return false;
    }
    let ghost m = v@.subrange(from as int, to as int);
    let mut i: usize = from;
    while i < to
        invariant
            from <= i <= to <= v@.len(),
            m == v@.subrange(from as int, to as int),
            forall|j: int| 0 <= j < i - from ==> #[trigger] is_ascii_digit(m[j]),
        decreases to - i,
    {
        let c = v.get_char(i);
        assert(m[i - from] == c);
        if !('0' <= c && c <= '9') {
            assert(!is_ascii_digit(m[i - from]));
            return false;
        }
        i = i + 1;
    }
    true
}

/// Parses as an `f64`: an optional sign, then `inf`, `infinity`, `nan` (any
/// ASCII case) or a decimal number with an optional exponent.
pub fn is_numeric(value: &str) -> (r: bool)
    ensures
        r == spec_is_numeric(value@),
{
    let n = value.unicode_len();
    let mut start: usize = 0;
    if n > 0 && (value.get_char(0) == '+' || value.get_char(0) == '-') {
        start = 1;
    }
    let ghost t = unsigned_part(value@);
    assert(t =~= value@.subrange(start as int, n as int));
    proof {
        reveal_strlit("inf");
        reveal_strlit("infinity");
        reveal_strlit("nan");
        assert("inf"@ =~= seq!['i', 'n', 'f']);
        assert("infinity"@ =~= seq!['i', 'n', 'f', 'i', 'n', 'i', 't', 'y']);
        assert("nan"@ =~= seq!['n', 'a', 'n']);
    }
    if ci_matches(value, start, n, "inf") || ci_matches(value, start, n, "infinity")
        || ci_matches(value, start, n, "nan") {
        return true;
    }
    let mut k: usize = start;
    while k < n && !(value.get_char(k) == 'e' || value.get_char(k) == 'E')
        invariant
            start <= k <= n,
            n == value@.len(),
            forall|j: int| start <= j < k ==> !is_exp_char(#[trigger] value@[j]),
        decreases n - k,
    {
        k = k + 1;
    }
    let rel = k - start;
    proof {
        assert forall|j: int| 0 <= j < rel implies !is_exp_char(#[trigger] t[j]) by {
            assert(t[j] == value@[start + j]);
        }
        if k < n {
            assert(t[rel as int] == value@[k as int]);
        }
        lemma_number_split(t, rel as int);
    }
    assert(t.take(rel as int) =~= value@.subrange(start as int, k as int));
    let mant = scan_mantissa(value, start, k);
    if k == n {
        mant
    } else {
        let mut e: usize = k + 1;
        if e < n && (value.get_char(e) == '+' || value.get_char(e) == '-') {
            e = e + 1;
        }
        assert(unsigned_part(t.skip(rel + 1)) =~= value@.subrange(e as int, n as int));
        mant && scan_digits(value, e, n)
    }
}

/// The mantissa of a number ends at its first `e` or `E`.
proof fn lemma_number_split(t: Seq<char>, rel: int)
    requires
        0 <= rel <= t.len(),
        forall|j: int| 0 <= j < rel ==> !is_exp_char(#[trigger] t[j]),
        rel == t.len() || is_exp_char(t[rel]),
    ensures
        spec_is_number(t) == (mantissa_ok(t.take(rel)) && (rel == t.len() || all_digits(unsigned_part(t.skip(rel + 1))))),
{
    if mantissa_ok(t.take(rel)) && (rel == t.len() || all_digits(unsigned_part(t.skip(rel + 1)))) {
        assert(0 <= rel <= t.len() && mantissa_ok(t.take(rel)));
    }
    if spec_is_number(t) {
        let k2 = choose|k2: int| 0 <= k2 <= t.len() && mantissa_ok(#[trigger] t.take(k2)) && (k2 == t.len() || (
            is_exp_char(t[k2]) && all_digits(unsigned_part(t.skip(k2 + 1)))));
        if k2 < rel {
            assert(!is_exp_char(t[k2]));
        } else if k2 > rel {
            let m2 = t.take(k2);
            assert(m2[rel] == t[rel]);
            assert(is_ascii_digit(m2[rel]) || m2[rel] == '.');
        }
    }
}

/// The string starts with `prefix`.
pub fn starts_with(value: &str, prefix: &str) -> (r: bool)
    ensures
        r == has_prefix(value@, prefix@),
{
    starts_with_str(value, prefix)
}

/// The string ends with `suffix`.
pub fn ends_with(value: &str, suffix: &str) -> (r: bool)
    ensures
        r == has_suffix(value@, suffix@),
{
    ends_with_str(value, suffix)
}

/// The string does not start with `prefix`.
pub fn doesnt_start_with(value: &str, prefix: &str) -> (r: bool)
    ensures
        r == !has_prefix(value@, prefix@),
{
    !starts_with_str(value, prefix)
}

/// The string does not end with `suffix`.
pub fn doesnt_end_with(value: &str, suffix: &str) -> (r: bool)
    ensures
        r == !has_suffix(value@, suffix@),
{
    !ends_with_str(value, suffix)
}

/// The string contains `needle`.
pub fn contains(value: &str, needle: &str) -> (r: bool)
    ensures
        r == has_infix(value@, needle@),
{
    contains_str(value, needle)
}

/// The string does not contain `needle`.
pub fn doesnt_contain(value: &str, needle: &str) -> (r: bool)
    ensures
        r == !has_infix(value@, needle@),
{
    !contains_str(value, needle)
}

/// Non-empty and unchanged by upper-casing.
pub fn is_uppercase(value: &str) -> (r: bool)
    ensures
        r == (value@.len() > 0 && value@ == unicode_upper(value@)),
{
    if value.unicode_len() == 0 {
        return false;
    }
    let u = str_to_uppercase(value);
    str_eq(value, u.as_str())
}

/// Non-empty and unchanged by lower-casing.
pub fn is_lowercase(value: &str) -> (r: bool)
    ensures
        r == (value@.len() > 0 && value@ == unicode_lower(value@)),
{
    if value.unicode_len() == 0 {
        return false;
    }
    let l = str_to_lowercase(value);
    str_eq(value, l.as_str())
}

} // verus!
