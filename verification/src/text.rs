//! String helpers over the `Seq<char>` view of `str`.
use vstd::prelude::*;

verus! {

/// `a` and `b` hold the same characters.
pub fn str_eq(a: &str, b: &str) -> (r: bool)
    ensures
        r == (a@ == b@),
{
    let n = a.unicode_len();
    if n != b.unicode_len() {
        return false;
    }
    let mut i: usize = 0;
    while i < n
        invariant
            n == a@.len(),
            n == b@.len(),
            i <= n,
            forall|j: int| 0 <= j < i ==> a@[j] == b@[j],
        decreases n - i,
    {
        if a.get_char(i) != b.get_char(i) {
            return false;
        }
        i = i + 1;
    }
    assert(a@ =~= b@);
    true
}

/// `p` is a prefix of `s`.
pub open spec fn has_prefix(s: Seq<char>, p: Seq<char>) -> bool {
    p.len() <= s.len() && s.subrange(0, p.len() as int) == p
}

/// `p` is a suffix of `s`.
pub open spec fn has_suffix(s: Seq<char>, p: Seq<char>) -> bool {
    p.len() <= s.len() && s.subrange(s.len() - p.len(), s.len() as int) == p
}

/// `p` occurs in `s` at position `i`.
pub open spec fn occurs_at(s: Seq<char>, p: Seq<char>, i: int) -> bool {
    0 <= i && i + p.len() <= s.len() && s.subrange(i, i + p.len()) == p
}

/// `p` occurs somewhere in `s` (the empty sequence occurs in every `s`).
pub open spec fn has_infix(s: Seq<char>, p: Seq<char>) -> bool {
    exists|i: int| occurs_at(s, p, i)
}

/// Does `p` occur in `s` at character position `start`?
fn matches_at(s: &str, p: &str, start: usize) -> (r: bool)
    requires
        start <= s@.len(),
    ensures
        r == occurs_at(s@, p@, start as int),
{
    let n = s.unicode_len();
    let m = p.unicode_len();
    if m > n - start {
        return false;
    }
    let mut j: usize = 0;
    while j < m
        invariant
            n == s@.len(),
            m == p@.len(),
            start + m <= n,
            j <= m,
            forall|k: int| 0 <= k < j ==> s@[start + k] == p@[k],
        decreases m - j,
    {
        if s.get_char(start + j) != p.get_char(j) {
            assert(s@.subrange(start as int, start + m)[j as int] != p@[j as int]);
            return false;
        }
        j = j + 1;
    }
    assert(s@.subrange(start as int, start + m) =~= p@);
    true
}

/// `value` starts with `prefix`.
pub fn starts_with_str(value: &str, prefix: &str) -> (r: bool)
    ensures
        r == has_prefix(value@, prefix@),
{
    matches_at(value, prefix, 0)
}

/// `value` ends with `suffix`.
pub fn ends_with_str(value: &str, suffix: &str) -> (r: bool)
    ensures
        r == has_suffix(value@, suffix@),
{
    let n = value.unicode_len();
    let m = suffix.unicode_len();
    if m > n {
        return false;
    }
    matches_at(value, suffix, n - m)
}

/// `needle` occurs in `value`.
pub fn contains_str(value: &str, needle: &str) -> (r: bool)
    ensures
        r == has_infix(value@, needle@),
{
    let n = value.unicode_len();
    let mut i: usize = 0;
    while i < n
        invariant
            n == value@.len(),
            i <= n,
            forall|k: int| 0 <= k < i ==> !occurs_at(value@, needle@, k),
        decreases n - i,
    {
        if matches_at(value, needle, i) {
            return true;
        }
        i = i + 1;
    }
    if matches_at(value, needle, n) {
        return true;
    }
    assert forall|k: int| !occurs_at(value@, needle@, k) by {
        if 0 <= k < n {
            assert(k < i);
        }
    }
    false
}

/// Position of the first occurrence of `c` in `s`, if any.
pub open spec fn first_index_of(s: Seq<char>, c: char) -> Option<int> {
    if exists|i: int| 0 <= i < s.len() && s[i] == c {
        Some(choose|i: int| 0 <= i < s.len() && s[i] == c && forall|j: int| 0 <= j < i ==> s[j] != c)
    } else {
        None
    }
}

/// Character position of the first `c` in `s`.
pub fn find_char(s: &str, c: char) -> (r: Option<usize>)
    ensures
        match r {
            Some(i) => i < s@.len() && s@[i as int] == c && forall|j: int| 0 <= j < i ==> s@[j] != c,
            None => forall|j: int| 0 <= j < s@.len() ==> s@[j] != c,
        },
        r matches Some(i) ==> first_index_of(s@, c) == Some(i as int),
        r is None ==> first_index_of(s@, c) is None,
{
    let n = s.unicode_len();
    let mut i: usize = 0;
    while i < n
        invariant
            n == s@.len(),
            i <= n,
            forall|j: int| 0 <= j < i ==> s@[j] != c,
        decreases n - i,
    {
        if s.get_char(i) == c {
            proof {
                let w = choose|k: int| 0 <= k < s@.len() && s@[k] == c && forall|j: int| 0 <= j < k ==> s@[j] != c;
                assert(0 <= i < s@.len() && s@[i as int] == c && forall|j: int| 0 <= j < i ==> s@[j] != c);
                if w < i {
                } else if w > i {
                    assert(s@[i as int] != c);
                }
            }
            return Some(i);
        }
        i = i + 1;
    }
    None
}

/// `c` is an ASCII decimal digit.
pub open spec fn is_ascii_digit(c: char) -> bool {
    '0' <= c && c <= '9'
}

/// `c` is an ASCII hexadecimal digit.
pub open spec fn is_ascii_hexdigit(c: char) -> bool {
    ('0' <= c && c <= '9') || ('a' <= c && c <= 'f') || ('A' <= c && c <= 'F')
}

/// What `char::is_alphabetic` answers for `c` (the Unicode Alphabetic property).
pub uninterp spec fn unicode_alphabetic(c: char) -> bool;

/// What `char::is_alphanumeric` answers for `c`.
pub uninterp spec fn unicode_alphanumeric(c: char) -> bool;

/// What `char::is_whitespace` answers for `c` (the Unicode White_Space property).
pub uninterp spec fn unicode_white_space(c: char) -> bool;

/// What `str::to_uppercase` returns for `s`.
pub uninterp spec fn unicode_upper(s: Seq<char>) -> Seq<char>;

/// What `str::to_lowercase` returns for `s`.
pub uninterp spec fn unicode_lower(s: Seq<char>) -> Seq<char>;

/// `char::is_alphabetic`: the result is `unicode_alphabetic(c)`.
#[verifier::external_body]
pub(crate) fn char_is_alphabetic(c: char) -> (r: bool)
    ensures
        r == unicode_alphabetic(c),
{
    c.is_alphabetic()
}

/// `char::is_alphanumeric`: the result is `unicode_alphanumeric(c)`; its
/// documentation defines it as `is_alphabetic() || is_numeric()`, so every
/// alphabetic character is alphanumeric.
#[verifier::external_body]
pub(crate) fn char_is_alphanumeric(c: char) -> (r: bool)
    ensures
        r == unicode_alphanumeric(c),
        unicode_alphabetic(c) ==> r,
{
    c.is_alphanumeric()
}

/// `char::is_whitespace`: the result is `unicode_white_space(c)`.
#[verifier::external_body]
pub(crate) fn char_is_whitespace(c: char) -> (r: bool)
    ensures
        r == unicode_white_space(c),
{
    c.is_whitespace()
}

/// `str::to_uppercase`: the result's characters are `unicode_upper(s@)`.
#[verifier::external_body]
pub(crate) fn str_to_uppercase(s: &str) -> (r: String)
    ensures
        r@ == unicode_upper(s@),
{
    s.to_uppercase()
}

/// `str::to_lowercase`: the result's characters are `unicode_lower(s@)`.
#[verifier::external_body]
pub(crate) fn str_to_lowercase(s: &str) -> (r: String)
    ensures
        r@ == unicode_lower(s@),
{
    s.to_lowercase()
}

} // verus!
