//! IP address syntax, as the standard library's address parsers accept it.
//!
//! - IPv4: four dot-separated decimal octets of one to three digits, at most
//!   255, with no leading zero (`0` itself is fine).
//! - IPv6: eight colon-separated groups of one to four hex digits, where the
//!   last two groups may be written as an IPv4 address, and one run of zero
//!   groups may be shortened to `::`.
use vstd::prelude::*;
use crate::text::{find_char, first_index_of, is_ascii_digit, is_ascii_hexdigit};

verus! {

/// The pieces of `s` between occurrences of `sep` (one piece when there is
/// no `sep`; empty pieces are kept).
#[verifier::opaque]
pub open spec fn parts(s: Seq<char>, sep: char) -> Seq<Seq<char>>
    decreases s.len(),
{
    match first_index_of(s, sep) {
        Some(k) => if 0 <= k < s.len() {
            seq![s.take(k)] + parts(s.skip(k + 1), sep)
        } else {
            seq![s]
        },
        None => seq![s],
    }
}

/// Decimal value of a sequence of ASCII digits.
pub open spec fn decimal_value(s: Seq<char>) -> int
    decreases s.len(),
{
    if s.len() == 0 {
        0
    } else {
        decimal_value(s.drop_last()) * 10 + (s.last() as int - '0' as int)
    }
}

/// One to three decimal digits, no leading zero, at most 255.
pub open spec fn is_octet(g: Seq<char>) -> bool {
    &&& 1 <= g.len() <= 3
    &&& forall|i: int| 0 <= i < g.len() ==> is_ascii_digit(#[trigger] g[i])
    &&& g.len() == 1 || g[0] != '0'
    &&& decimal_value(g) <= 255
}

/// One to four hex digits.
pub open spec fn is_h16(g: Seq<char>) -> bool {
    &&& 1 <= g.len() <= 4
    &&& forall|i: int| 0 <= i < g.len() ==> is_ascii_hexdigit(#[trigger] g[i])
}

/// Four dot-separated octets.
pub open spec fn spec_is_ipv4(s: Seq<char>) -> bool {
    let p = parts(s, '.');
    p.len() == 4 && forall|i: int| 0 <= i < 4 ==> is_octet(#[trigger] p[i])
}

/// Every piece is a group of hex digits.
pub open spec fn all_h16(p: Seq<Seq<char>>) -> bool {
    forall|i: int| 0 <= i < p.len() ==> is_h16(#[trigger] p[i])
}

/// How many 16-bit groups the pieces stand for: one each, except that the
/// last piece may be an IPv4 address standing for two; `None` when a piece
/// is neither.
#[verifier::opaque]
pub open spec fn group_count(p: Seq<Seq<char>>) -> Option<int> {
    if all_h16(p) {
        Some(p.len() as int)
    } else if p.len() > 0 && all_h16(p.drop_last()) && spec_is_ipv4(p.last()) {
        Some(p.len() + 1int)
    } else {
        None
    }
}

/// `::` starts at position `i` of `s`.
pub open spec fn double_colon_at(s: Seq<char>, i: int) -> bool {
    0 <= i && i + 1 < s.len() && s[i] == ':' && s[i + 1] == ':'
}

/// Position of the first `::` in `s`.
#[verifier::opaque]
pub open spec fn first_double_colon(s: Seq<char>) -> Option<int> {
    if exists|i: int| #[trigger] double_colon_at(s, i) {
        Some(choose|i: int| #[trigger] double_colon_at(s, i) && forall|j: int| 0 <= j < i ==> !double_colon_at(s, j))
    } else {
        None
    }
}

/// Groups of the part before `::` (none when it is empty).
#[verifier::opaque]
pub open spec fn head_count(l: Seq<char>) -> Option<int> {
    if l.len() == 0 {
        Some(0)
    } else if all_h16(parts(l, ':')) {
        Some(parts(l, ':').len() as int)
    } else {
        None
    }
}

/// Groups of the part after `::` (none when it is empty).
#[verifier::opaque]
pub open spec fn tail_count(r: Seq<char>) -> Option<int> {
    if r.len() == 0 {
        Some(0)
    } else {
        group_count(parts(r, ':'))
    }
}

/// An IPv6 address: eight groups, or fewer around one `::` that stands for
/// at least one zero group.
pub open spec fn spec_is_ipv6(s: Seq<char>) -> bool {
    match first_double_colon(s) {
        None => group_count(parts(s, ':')) == Some(8int),
        Some(k) => match (head_count(s.take(k)), tail_count(s.skip(k + 2))) {
            (Some(h), Some(t)) => h <= 7 && t <= 7 - h,
            _ => false,
        },
    }
}

/// An IPv4 or IPv6 address.
pub open spec fn spec_is_ip(s: Seq<char>) -> bool {
    spec_is_ipv4(s) || spec_is_ipv6(s)
}

/// The pieces of `s` between occurrences of `sep`.
fn split_parts<'a>(s: &'a str, sep: char) -> (r: Vec<&'a str>)
    ensures
        r@.map_values(|p: &str| p@) == parts(s@, sep),
{
    reveal(parts);
    let mut out: Vec<&'a str> = Vec::new();
    let mut rest: &'a str = s;
    loop
        invariant
            parts(s@, sep) == out@.map_values(|p: &str| p@) + parts(rest@, sep),
        decreases rest@.len(),
    {
        match find_char(rest, sep) {
            Some(k) => {
                let n = rest.unicode_len();
                let piece = rest.substring_char(0, k);
                let next = rest.substring_char(k + 1, n);
                proof {
                    reveal(parts);
                    assert(piece@ =~= rest@.take(k as int));
                    assert(next@ =~= rest@.skip(k + 1));
                    assert(parts(rest@, sep) == seq![piece@] + parts(next@, sep));
                }
                let ghost before = out@.map_values(|p: &str| p@);
                out.push(piece);
                proof {
                    assert(out@.map_values(|p: &str| p@) =~= before.push(piece@));
                    assert(before + (seq![piece@] + parts(next@, sep)) =~= before.push(piece@) + parts(next@, sep));
                }
                rest = next;
            },
            None => {
                let ghost before = out@.map_values(|p: &str| p@);
                out.push(rest);
                proof {
                    reveal(parts);
                    assert(parts(rest@, sep) == seq![rest@]);
                    assert(out@.map_values(|p: &str| p@) =~= before + seq![rest@]);
                }
                return out;
            },
        }
    }
}

/// Decimal value of the digits `g[0..i]`.
pub proof fn lemma_decimal_value_take(g: Seq<char>, i: int)
    requires
        0 <= i < g.len(),
    ensures
        decimal_value(g.take(i + 1)) == decimal_value(g.take(i)) * 10 + (g[i] as int - '0' as int),
{
    assert(g.take(i + 1).drop_last() =~= g.take(i));
}

/// Is `g` an octet?
fn octet(g: &str) -> (r: bool)
    ensures
        r == is_octet(g@),
{
    let n = g.unicode_len();
    if n < 1 || n > 3 {
        return false;
    }
    let mut value: u32 = 0;
    let mut i: usize = 0;
    while i < n
        invariant
            n == g@.len(),
            1 <= n <= 3,
            i <= n,
            forall|j: int| 0 <= j < i ==> is_ascii_digit(#[trigger] g@[j]),
            value == decimal_value(g@.take(i as int)),
            i == 0 ==> value == 0,
            i == 1 ==> value < 10,
            i == 2 ==> value < 100,
            i == 3 ==> value < 1000,
        decreases n - i,
    {
        let c = g.get_char(i);
        if !('0' <= c && c <= '9') {
            return false;
        }
        proof {
            lemma_decimal_value_take(g@, i as int);
        }
        value = value * 10 + (c as u32 - '0' as u32);
        i = i + 1;
    }
    assert(g@.take(n as int) =~= g@);
    if n > 1 && g.get_char(0) == '0' {
        return false;
    }
    value <= 255
}

/// Is `g` a group of one to four hex digits?
fn h16(g: &str) -> (r: bool)
    ensures
        r == is_h16(g@),
{
    let n = g.unicode_len();
    if n < 1 || n > 4 {
        return false;
    }
    let mut i: usize = 0;
    while i < n
        invariant
            n == g@.len(),
            i <= n,
            forall|j: int| 0 <= j < i ==> is_ascii_hexdigit(#[trigger] g@[j]),
        decreases n - i,
    {
        let c = g.get_char(i);
        if !(('0' <= c && c <= '9') || ('a' <= c && c <= 'f') || ('A' <= c && c <= 'F')) {
            return false;
        }
        i = i + 1;
    }
    true
}

/// An IPv4 address (dotted decimal).
pub fn is_ipv4(value: &str) -> (r: bool)
    ensures
        r == spec_is_ipv4(value@),
{
    let p = split_parts(value, '.');
    let ghost pm = p@.map_values(|q: &str| q@);
    if p.len() != 4 {
        return false;
    }
    let mut i: usize = 0;
    while i < 4
        invariant
            p@.len() == 4,
            pm == p@.map_values(|q: &str| q@),
            pm == parts(value@, '.'),
            i <= 4,
            forall|j: int| 0 <= j < i ==> is_octet(#[trigger] pm[j]),
        decreases 4 - i,
    {
        assert(pm[i as int] == p@[i as int]@);
        if !octet(p[i]) {
            return false;
        }
        i = i + 1;
    }
    true
}

/// Do all the pieces `p[from..to]` read as groups of hex digits?
fn all_groups(p: &Vec<&str>, from: usize, to: usize) -> (r: bool)
    requires
        from <= to <= p@.len(),
    ensures
        r == (forall|j: int| from <= j < to ==> is_h16(#[trigger] p@[j]@)),
{
    let mut i: usize = from;
    while i < to
        invariant
            from <= i <= to,
            to <= p@.len(),
            forall|j: int| from <= j < i ==> is_h16(#[trigger] p@[j]@),
        decreases to - i,
    {
        if !h16(p[i]) {
            return false;
        }
        i = i + 1;
    }
    true
}

/// The number of groups the pieces stand for, as `group_count` says.
fn count_groups(p: &Vec<&str>) -> (r: Option<u128>)
    ensures
        match group_count(p@.map_values(|q: &str| q@)) {
            Some(c) => r is Some && r->0 == c,
            None => r is None,
        },
{
    reveal(group_count);
    let ghost pm = p@.map_values(|q: &str| q@);
    let n = p.len();
    assert(pm.len() == n);
    assert(forall|j: int| 0 <= j < n ==> #[trigger] pm[j] == p@[j]@);
    let all = all_groups(p, 0, n);
    assert(all == all_h16(pm)) by {
        if all {
            assert forall|j: int| 0 <= j < pm.len() implies is_h16(#[trigger] pm[j]) by {
                assert(pm[j] == p@[j]@);
            }
        } else {
            let j = choose|j: int| 0 <= j < n && !is_h16(#[trigger] p@[j]@);
            assert(pm[j] == p@[j]@);
        }
    }
    if all {
        return Some(n as u128);
    }
    if n == 0 {
        return None;
    }
    let init = all_groups(p, 0, n - 1);
    assert(init == all_h16(pm.drop_last())) by {
        if init {
            assert forall|j: int| 0 <= j < pm.drop_last().len() implies is_h16(#[trigger] pm.drop_last()[j]) by {
                assert(pm.drop_last()[j] == p@[j]@);
            }
        } else {
            let j = choose|j: int| 0 <= j < n - 1 && !is_h16(#[trigger] p@[j]@);
            assert(pm.drop_last()[j] == p@[j]@);
        }
    }
    assert(pm.last() == p@[n - 1]@);
    if init && is_ipv4(p[n - 1]) {
        return Some(n as u128 + 1);
    }
    None
}

/// Position of the first `::` in `s`.
fn find_double_colon(s: &str) -> (r: Option<usize>)
    ensures
        r matches Some(k) ==> double_colon_at(s@, k as int),
        match first_double_colon(s@) {
            Some(k) => r is Some && r->0 == k,
            None => r is None,
        },
{
    reveal(first_double_colon);
    let n = s.unicode_len();
    if n < 2 {
        assert forall|j: int| !#[trigger] double_colon_at(s@, j) by {}
        return None;
    }
    let mut i: usize = 0;
    while i < n - 1
        invariant
            n == s@.len(),
            n >= 2,
            i <= n - 1,
            forall|j: int| 0 <= j < i ==> !#[trigger] double_colon_at(s@, j),
        decreases n - i,
    {
        if s.get_char(i) == ':' && s.get_char(i + 1) == ':' {
            proof {
                reveal(first_double_colon);
                assert(double_colon_at(s@, i as int));
                let w = choose|w: int| #[trigger] double_colon_at(s@, w) && forall|j: int| 0 <= j < w ==> !double_colon_at(s@, j);
                assert(double_colon_at(s@, i as int) && forall|j: int| 0 <= j < i ==> !double_colon_at(s@, j));
                if w < i {
                } else if w > i {
                    assert(!double_colon_at(s@, i as int));
                }
            }
            return Some(i);
        }
        i = i + 1;
    }
    proof {
        reveal(first_double_colon);
        assert forall|j: int| !#[trigger] double_colon_at(s@, j) by {
            if 0 <= j < i {
            }
        }
    }
    None
}

/// The groups before `::`, as `head_count` says.
fn head_groups(left: &str) -> (r: Option<u128>)
    ensures
        match head_count(left@) {
            Some(c) => r is Some && r->0 == c,
            None => r is None,
        },
{
    reveal(head_count);
    if left.unicode_len() == 0 {
        return Some(0);
    }
    let lp = split_parts(left, ':');
    let ghost lm = lp@.map_values(|q: &str| q@);
    if all_groups(&lp, 0, lp.len()) {
        assert(all_h16(lm)) by {
            assert forall|j: int| 0 <= j < lm.len() implies is_h16(#[trigger] lm[j]) by {
                assert(lm[j] == lp@[j]@);
            }
        }
        Some(lp.len() as u128)
    } else {
        assert(!all_h16(lm)) by {
            let j = choose|j: int| 0 <= j < lp@.len() && !is_h16(#[trigger] lp@[j]@);
            assert(lm[j] == lp@[j]@);
        }
        None
    }
}

/// The groups after `::`, as `tail_count` says.
fn tail_groups(right: &str) -> (r: Option<u128>)
    ensures
        match tail_count(right@) {
            Some(c) => r is Some && r->0 == c,
            None => r is None,
        },
{
    reveal(tail_count);
    if right.unicode_len() == 0 {
        return Some(0);
    }
    let rp = split_parts(right, ':');
    count_groups(&rp)
}

/// Groups around the `::` at `k` fit in an address.
fn ipv6_compressed(value: &str, k: usize) -> (r: bool)
    requires
        double_colon_at(value@, k as int),
    ensures
        r == (match (head_count(value@.take(k as int)), tail_count(value@.skip(k + 2))) {
            (Some(h), Some(t)) => h <= 7 && t <= 7 - h,
            _ => false,
        }),
{
    let n = value.unicode_len();
    let left = value.substring_char(0, k);
    let right = value.substring_char(k + 2, n);
    assert(left@ =~= value@.take(k as int));
    assert(right@ =~= value@.skip(k + 2));
    let h = match head_groups(left) {
        Some(h) => h,
        None => {
            return false;
        },
    };
    let t = match tail_groups(right) {
        Some(t) => t,
        None => {
            return false;
        },
    };
    h <= 7 && t <= 7 - h
}

/// An IPv6 address.
pub fn is_ipv6(value: &str) -> (r: bool)
    ensures
        r == spec_is_ipv6(value@),
{
    match find_double_colon(value) {
        None => {
            let p = split_parts(value, ':');
            match count_groups(&p) {
                Some(c) => c == 8,
                None => false,
            }
        },
        Some(k) => ipv6_compressed(value, k),
    }
}

/// An IPv4 or IPv6 address.
pub fn is_ip(value: &str) -> (r: bool)
    ensures
        r == spec_is_ip(value@),
{
    is_ipv4(value) || is_ipv6(value)
}

} // verus!
