//! Presence rules: `required`, `filled`, `accepted`, `declined`.
use vstd::prelude::*;
use crate::text::{char_is_whitespace, str_eq, str_to_lowercase, unicode_lower, unicode_white_space};

verus! {

/// `s` holds a character that is not white space (so trimming leaves
/// something).
pub open spec fn has_content(s: Seq<char>) -> bool {
    exists|i: int| 0 <= i < s.len() && !#[trigger] unicode_white_space(s[i])
}

/// A value that can be "present" (non-empty).
pub trait Presentable {
    /// Whether the value counts as present.
    spec fn spec_present(&self) -> bool;

    /// Is the value present?
    fn is_present(&self) -> (r: bool)
        ensures
            r == self.spec_present();
}

/// Does `s` hold a character other than white space?
fn non_blank(s: &str) -> (r: bool)
    ensures
        r == has_content(s@),
{
    let n = s.unicode_len();
    let mut i: usize = 0;
    while i < n
        invariant
            n == s@.len(),
            i <= n,
            forall|j: int| 0 <= j < i ==> #[trigger] unicode_white_space(s@[j]),
        decreases n - i,
    {
        if !char_is_whitespace(s.get_char(i)) {
            return true;
        }
        i = i + 1;
    }
    false
}

impl Presentable for String {
    /// A string is present when trimming white space leaves something.
    open spec fn spec_present(&self) -> bool {
        has_content(self@)
    }

    fn is_present(&self) -> (r: bool) {
        non_blank(self.as_str())
    }
}

impl Presentable for bool {
    open spec fn spec_present(&self) -> bool {
        true
    }

    fn is_present(&self) -> (r: bool) {
        true
    }
}

impl<T> Presentable for Vec<T> {
    /// A list is present when it is not empty.
    open spec fn spec_present(&self) -> bool {
        self@.len() > 0
    }

    fn is_present(&self) -> (r: bool) {
        self.len() > 0
    }
}

impl Presentable for i8 {
    open spec fn spec_present(&self) -> bool {
        true
    }

    fn is_present(&self) -> (r: bool) {
        true
    }
}

impl Presentable for i16 {
    open spec fn spec_present(&self) -> bool {
        true
    }

    fn is_present(&self) -> (r: bool) {
        true
    }
}

impl Presentable for i32 {
    open spec fn spec_present(&self) -> bool {
        true
    }

    fn is_present(&self) -> (r: bool) {
        true
    }
}

impl Presentable for i64 {
    open spec fn spec_present(&self) -> bool {
        true
    }

    fn is_present(&self) -> (r: bool) {
        true
    }
}

impl Presentable for u8 {
    open spec fn spec_present(&self) -> bool {
        true
    }

    fn is_present(&self) -> (r: bool) {
        true
    }
}

impl Presentable for u16 {
    open spec fn spec_present(&self) -> bool {
        true
    }

    fn is_present(&self) -> (r: bool) {
        true
    }
}

impl Presentable for u32 {
    open spec fn spec_present(&self) -> bool {
        true
    }

    fn is_present(&self) -> (r: bool) {
        true
    }
}

impl Presentable for u64 {
    open spec fn spec_present(&self) -> bool {
        true
    }

    fn is_present(&self) -> (r: bool) {
        true
    }
}

/// An optional value is present when it is `Some` and its content is present.
pub fn is_present_option<T: Presentable>(value: &Option<T>) -> (r: bool)
    ensures
        r == (value matches Some(v) && v.spec_present()),
{
    match value {
        None => false,
        Some(v) => v.is_present(),
    }
}

/// The lower-cased text is `yes`, `on`, `1` or `true`.
pub open spec fn spec_is_accepted(s: Seq<char>) -> bool {
    let l = unicode_lower(s);
    l == seq!['y', 'e', 's'] || l == seq!['o', 'n'] || l == seq!['1'] || l == seq!['t', 'r', 'u', 'e']
}

/// The lower-cased text is `no`, `off`, `0` or `false`.
pub open spec fn spec_is_declined(s: Seq<char>) -> bool {
    let l = unicode_lower(s);
    l == seq!['n', 'o'] || l == seq!['o', 'f', 'f'] || l == seq!['0'] || l == seq!['f', 'a', 'l', 's', 'e']
}

/// Accepted: `yes`, `on`, `1` or `true`, in any case.
pub fn is_accepted(value: &str) -> (r: bool)
    ensures
        r == spec_is_accepted(value@),
{
    let l = str_to_lowercase(value);
    let l = l.as_str();
    proof {
        reveal_strlit("yes");
        reveal_strlit("on");
        reveal_strlit("1");
        reveal_strlit("true");
        assert("yes"@ =~= seq!['y', 'e', 's']);
        assert("on"@ =~= seq!['o', 'n']);
        assert("1"@ =~= seq!['1']);
        assert("true"@ =~= seq!['t', 'r', 'u', 'e']);
    }
    str_eq(l, "yes") || str_eq(l, "on") || str_eq(l, "1") || str_eq(l, "true")
}

/// A boolean is accepted when it is `true`.
pub fn is_accepted_bool(value: bool) -> (r: bool)
    ensures
        r == value,
{
    value
}

/// Declined: `no`, `off`, `0` or `false`, in any case.
pub fn is_declined(value: &str) -> (r: bool)
    ensures
        r == spec_is_declined(value@),
{
    let l = str_to_lowercase(value);
    let l = l.as_str();
    proof {
        reveal_strlit("no");
        reveal_strlit("off");
        reveal_strlit("0");
        reveal_strlit("false");
        assert("no"@ =~= seq!['n', 'o']);
        assert("off"@ =~= seq!['o', 'f', 'f']);
        assert("0"@ =~= seq!['0']);
        assert("false"@ =~= seq!['f', 'a', 'l', 's', 'e']);
    }
    str_eq(l, "no") || str_eq(l, "off") || str_eq(l, "0") || str_eq(l, "false")
}

/// A boolean is declined when it is `false`.
pub fn is_declined_bool(value: bool) -> (r: bool)
    ensures
        r == !value,
{
    !value
}

/// Filled: something other than white space.
pub fn is_filled(value: &str) -> (r: bool)
    ensures
        r == has_content(value@),
{
    non_blank(value)
}

/// `declined` holds of a text whose lower-case form is one of the words
/// `no`, `off`, `0` and `false`, and of no other text; `accepted` holds of a
/// text whose lower-case form is `yes`, `on`, `1` or `true`, and of no other.
pub proof fn lemma_accepted_declined_words(s: Seq<char>)
    ensures
        unicode_lower(s) == seq!['n', 'o'] ==> spec_is_declined(s),
        unicode_lower(s) == seq!['o', 'f', 'f'] ==> spec_is_declined(s),
        unicode_lower(s) == seq!['0'] ==> spec_is_declined(s),
        unicode_lower(s) == seq!['f', 'a', 'l', 's', 'e'] ==> spec_is_declined(s),
        spec_is_declined(s) ==> unicode_lower(s).len() <= 5 && (unicode_lower(s)[0] == 'n' || unicode_lower(s)[0]
            == 'o' || unicode_lower(s)[0] == '0' || unicode_lower(s)[0] == 'f'),
        unicode_lower(s) == seq!['y', 'e', 's'] ==> spec_is_accepted(s),
        unicode_lower(s) == seq!['o', 'n'] ==> spec_is_accepted(s),
        unicode_lower(s) == seq!['1'] ==> spec_is_accepted(s),
        unicode_lower(s) == seq!['t', 'r', 'u', 'e'] ==> spec_is_accepted(s),
        spec_is_accepted(s) ==> unicode_lower(s).len() <= 4 && (unicode_lower(s)[0] == 'y' || unicode_lower(s)[0]
            == 'o' || unicode_lower(s)[0] == '1' || unicode_lower(s)[0] == 't'),
{
}

/// No text is both accepted and declined.
pub proof fn lemma_accepted_declined_exclusive(s: Seq<char>)
    ensures
        !(spec_is_accepted(s) && spec_is_declined(s)),
{
    let l = unicode_lower(s);
    if spec_is_accepted(s) && spec_is_declined(s) {
        // the first characters rule out every pair but `on` and `off`,
        // which differ in length
        assert(l[0] == 'o' ==> l.len() == 2 && l.len() == 3);
    }
}

} // verus!
