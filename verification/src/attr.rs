//! Reading `#[validate(...)]` attributes from their source text.
//!
//! The text inside the parentheses is split into tokens (identifiers, string
//! literals, number literals, punctuation) and read as a list of rules:
//!
//! - `name` — a rule without parameters (`required`, `email`, `bail`);
//! - `name = value` — a rule with one value (`min = 3`, `regex = "^a"`);
//! - `name(key = value, ..., message = "...")` — named parameters, and an
//!   optional custom message;
//! - `in_list("a", "b", message = "...")` — a list of strings, for
//!   `in_list`, `not_in`, `required_with_all` and `required_without_all`.
//!
//! Rules are separated by commas. A value is a string literal, a number
//! (underscores and type suffix dropped), a `-` followed by a number, or a
//! bare word. Struct-level attributes give display names with
//! `attributes(field = "name", ...)`.
use vstd::prelude::*;
use crate::schema::{FieldInfo, FieldRule, FieldRuleM, ParamsM, RuleParams, StructAttrs};
use crate::text::is_ascii_digit;

verus! {

/// A token of attribute text.
#[derive(Clone, Debug)]
pub enum Token {
    Ident(String),
    /// A string literal, by its value.
    Str(String),
    /// A number literal, by its decimal digits (and `.`), without
    /// underscores or type suffix.
    Number(String),
    Punct(char),
}

/// The model of a [`Token`].
pub enum TokenM {
    Ident(Seq<char>),
    Str(Seq<char>),
    Number(Seq<char>),
    Punct(char),
}

impl View for Token {
    type V = TokenM;

    open spec fn view(&self) -> TokenM {
        match self {
            Token::Ident(s) => TokenM::Ident(s@),
            Token::Str(s) => TokenM::Str(s@),
            Token::Number(s) => TokenM::Number(s@),
            Token::Punct(c) => TokenM::Punct(*c),
        }
    }
}

/// The models of a list of tokens.
pub open spec fn tokens_model(v: Seq<Token>) -> Seq<TokenM> {
    v.map_values(|t: Token| t@)
}

/// White space between tokens.
pub open spec fn is_space(c: char) -> bool {
    c == ' ' || c == '\t' || c == '\n' || c == '\r'
}

/// A character that starts an identifier.
pub open spec fn is_ident_start(c: char) -> bool {
    ('a' <= c && c <= 'z') || ('A' <= c && c <= 'Z') || c == '_'
}

/// A character that continues an identifier.
pub open spec fn is_ident_char(c: char) -> bool {
    is_ident_start(c) || is_ascii_digit(c)
}

/// End of the identifier characters from `i`.
pub open spec fn ident_end(s: Seq<char>, i: int) -> int
    decreases s.len() - i,
{
    if 0 <= i < s.len() && is_ident_char(s[i]) {
        ident_end(s, i + 1)
    } else {
        i
    }
}

/// End of the digits and underscores from `i`.
pub open spec fn digits_end(s: Seq<char>, i: int) -> int
    decreases s.len() - i,
{
    if 0 <= i < s.len() && (is_ascii_digit(s[i]) || s[i] == '_') {
        digits_end(s, i + 1)
    } else {
        i
    }
}

/// `t` without its underscores.
pub open spec fn without_underscores(t: Seq<char>) -> Seq<char>
    decreases t.len(),
{
    if t.len() == 0 {
        t
    } else if t.last() == '_' {
        without_underscores(t.drop_last())
    } else {
        without_underscores(t.drop_last()).push(t.last())
    }
}

/// A type suffix a number literal may carry (`fraction`: the literal has a
/// fractional part, and only a float suffix fits).
pub open spec fn is_number_suffix(x: Seq<char>, fraction: bool) -> bool {
    x.len() == 0 || x == "f32"@ || x == "f64"@ || (!fraction && (x == "i8"@ || x == "i16"@ || x == "i32"@
        || x == "i64"@ || x == "i128"@ || x == "isize"@ || x == "u8"@ || x == "u16"@ || x == "u32"@
        || x == "u64"@ || x == "u128"@ || x == "usize"@))
}

/// The number literal starting at digit `i`: its digits and where it ends.
pub open spec fn number_at(s: Seq<char>, i: int) -> Option<(Seq<char>, int)> {
    let a = digits_end(s, i);
    let fraction = a + 1 < s.len() && s[a] == '.' && is_ascii_digit(s[a + 1]);
    let b = if fraction {
        digits_end(s, a + 1)
    } else {
        a
    };
    let c = ident_end(s, b);
    if is_number_suffix(s.subrange(b, c), fraction) {
        Some((without_underscores(s.subrange(i, b)), c))
    } else {
        None
    }
}

/// The character an escape `\c` stands for.
pub open spec fn escaped(c: char) -> Option<char> {
    if c == 'n' {
        Some('\n')
    } else if c == 'r' {
        Some('\r')
    } else if c == 't' {
        Some('\t')
    } else if c == '0' {
        Some('\0')
    } else if c == '\\' || c == '"' || c == '\'' {
        Some(c)
    } else {
        None
    }
}

/// The rest of a string literal from `j`: its value and the position after
/// the closing quote.
pub open spec fn string_rest(s: Seq<char>, j: int) -> Option<(Seq<char>, int)>
    decreases s.len() - j,
{
    if j < 0 || j >= s.len() {
        None
    } else if s[j] == '"' {
        Some((Seq::empty(), j + 1))
    } else if s[j] == '\\' {
        if j + 1 < s.len() && escaped(s[j + 1]) is Some {
            match string_rest(s, j + 2) {
                Some((v, k)) => Some((seq![escaped(s[j + 1])->0] + v, k)),
                None => None,
            }
        } else {
            None
        }
    } else {
        match string_rest(s, j + 1) {
            Some((v, k)) => Some((seq![s[j]] + v, k)),
            None => None,
        }
    }
}

/// End of the `#` characters from `i`.
pub open spec fn hashes_end(s: Seq<char>, i: int) -> int
    decreases s.len() - i,
{
    if 0 <= i < s.len() && s[i] == '#' {
        hashes_end(s, i + 1)
    } else {
        i
    }
}

/// A `"` at `k` followed by `h` hashes closes a raw string.
pub open spec fn closes_raw(s: Seq<char>, k: int, h: int) -> bool {
    &&& 0 <= k
    &&& k + h < s.len()
    &&& s[k] == '"'
    &&& forall|m: int| k < m <= k + h ==> s[m] == '#'
}

/// The first place from `k` that closes a raw string with `h` hashes.
pub open spec fn raw_close(s: Seq<char>, k: int, h: int) -> Option<int>
    decreases s.len() - k,
{
    if k < 0 || k >= s.len() {
        None
    } else if closes_raw(s, k, h) {
        Some(k)
    } else {
        raw_close(s, k + 1, h)
    }
}

/// The raw string literal `r#"..."#` starting at `i`.
pub open spec fn raw_string_at(s: Seq<char>, i: int) -> Option<(Seq<char>, int)> {
    let q = hashes_end(s, i + 1);
    let h = q - (i + 1);
    if q < s.len() && s[q] == '"' {
        match raw_close(s, q + 1, h) {
            Some(k) => Some((s.subrange(q + 1, k), k + 1 + h)),
            None => None,
        }
    } else {
        None
    }
}

/// The token at `i` (none for white space) and where the next one starts;
/// `None` when the text cannot be read there.
pub open spec fn next_token(s: Seq<char>, i: int) -> Option<(Option<TokenM>, int)> {
    let c = s[i];
    if is_space(c) {
        Some((None, i + 1))
    } else if c == 'r' && i + 1 < s.len() && (s[i + 1] == '"' || s[i + 1] == '#') {
        match raw_string_at(s, i) {
            Some((v, k)) => Some((Some(TokenM::Str(v)), k)),
            None => None,
        }
    } else if is_ident_start(c) {
        let j = ident_end(s, i);
        Some((Some(TokenM::Ident(s.subrange(i, j))), j))
    } else if is_ascii_digit(c) {
        match number_at(s, i) {
            Some((d, k)) => Some((Some(TokenM::Number(d)), k)),
            None => None,
        }
    } else if c == '"' {
        match string_rest(s, i + 1) {
            Some((v, k)) => Some((Some(TokenM::Str(v)), k)),
            None => None,
        }
    } else {
        Some((Some(TokenM::Punct(c)), i + 1))
    }
}

/// The tokens of `s` from `i` on, if it can be read.
pub open spec fn lex_from(s: Seq<char>, i: int) -> Option<Seq<TokenM>>
    decreases s.len() - i,
{
    if i < 0 || i >= s.len() {
        Some(Seq::empty())
    } else {
        match next_token(s, i) {
            None => None,
            Some((t, j)) => if j <= i || j > s.len() {
                None
            } else {
                match lex_from(s, j) {
                    None => None,
                    Some(rest) => Some(
                        match t {
                            Some(x) => seq![x] + rest,
                            None => rest,
                        },
                    ),
                }
            },
        }
    }
}

/// The tokens of `s`, if it can be read.
pub open spec fn lex(s: Seq<char>) -> Option<Seq<TokenM>> {
    lex_from(s, 0)
}

fn space_char(c: char) -> (r: bool)
    ensures
        r == is_space(c),
{
    c == ' ' || c == '\t' || c == '\n' || c == '\r'
}

fn ident_start_char(c: char) -> (r: bool)
    ensures
        r == is_ident_start(c),
{
    ('a' <= c && c <= 'z') || ('A' <= c && c <= 'Z') || c == '_'
}

fn digit_char(c: char) -> (r: bool)
    ensures
        r == is_ascii_digit(c),
{
    '0' <= c && c <= '9'
}

fn ident_char(c: char) -> (r: bool)
    ensures
        r == is_ident_char(c),
{
    ident_start_char(c) || digit_char(c)
}

/// End of the identifier characters of `s` from `i`.
fn scan_ident(s: &str, n: usize, i: usize) -> (j: usize)
    requires
        n == s@.len(),
        i <= n,
    ensures
        j == ident_end(s@, i as int),
        i <= j <= n,
{
    let mut j = i;
    while j < n && ident_char(s.get_char(j))
        invariant
            n == s@.len(),
            i <= j <= n,
            ident_end(s@, i as int) == ident_end(s@, j as int),
        decreases n - j,
    {
        j = j + 1;
    }
    j
}

/// End of the digits and underscores of `s` from `i`.
fn scan_digits(s: &str, n: usize, i: usize) -> (j: usize)
    requires
        n == s@.len(),
        i <= n,
    ensures
        j == digits_end(s@, i as int),
        i <= j <= n,
{
    let mut j = i;
    while j < n && (digit_char(s.get_char(j)) || s.get_char(j) == '_')
        invariant
            n == s@.len(),
            i <= j <= n,
            digits_end(s@, i as int) == digits_end(s@, j as int),
        decreases n - j,
    {
        j = j + 1;
    }
    j
}

/// End of the `#` characters of `s` from `i`.
fn scan_hashes(s: &str, n: usize, i: usize) -> (j: usize)
    requires
        n == s@.len(),
        i <= n,
    ensures
        j == hashes_end(s@, i as int),
        i <= j <= n,
{
    let mut j = i;
    while j < n && s.get_char(j) == '#'
        invariant
            n == s@.len(),
            i <= j <= n,
            hashes_end(s@, i as int) == hashes_end(s@, j as int),
        decreases n - j,
    {
        j = j + 1;
    }
    j
}

/// `t` without its underscores.
fn strip_underscores(t: &str) -> (r: String)
    ensures
        r@ == without_underscores(t@),
{
    let n = t.unicode_len();
    let mut out = String::new();
    let mut k: usize = 0;
    assert(t@.take(0) =~= Seq::<char>::empty());
    while k < n
        invariant
            n == t@.len(),
            k <= n,
            out@ == without_underscores(t@.take(k as int)),
        decreases n - k,
    {
        let c = t.get_char(k);
        assert(t@.take(k + 1).drop_last() =~= t@.take(k as int));
        if c != '_' {
            let one = t.substring_char(k, k + 1);
            assert(one@ =~= seq![c]);
            out.append(one);
        }
        k = k + 1;
        assert(out@ =~= without_underscores(t@.take(k as int)));
    }
    assert(t@.take(n as int) =~= t@);
    out
}

/// Is `x` a type suffix a number literal may carry?
fn number_suffix(x: &str, fraction: bool) -> (r: bool)
    ensures
        r == is_number_suffix(x@, fraction),
{
    proof {
        reveal_strlit("");
    }
    x.unicode_len() == 0 || crate::text::str_eq(x, "f32") || crate::text::str_eq(x, "f64") || (!fraction && (
    crate::text::str_eq(x, "i8") || crate::text::str_eq(x, "i16") || crate::text::str_eq(x, "i32")
        || crate::text::str_eq(x, "i64") || crate::text::str_eq(x, "i128") || crate::text::str_eq(x, "isize")
        || crate::text::str_eq(x, "u8") || crate::text::str_eq(x, "u16") || crate::text::str_eq(x, "u32")
        || crate::text::str_eq(x, "u64") || crate::text::str_eq(x, "u128") || crate::text::str_eq(x, "usize")))
}

/// The number literal of `s` starting at digit `i`.
fn lex_number(s: &str, n: usize, i: usize) -> (r: Option<(String, usize)>)
    requires
        n == s@.len(),
        i < n,
    ensures
        match r {
            Some((d, k)) => number_at(s@, i as int) == Some((d@, k as int)) && k <= n,
            None => number_at(s@, i as int) is None,
        },
{
    let a = scan_digits(s, n, i);
    let fraction = a < n && a + 1 < n && s.get_char(a) == '.' && digit_char(s.get_char(a + 1));
    let b = if fraction { scan_digits(s, n, a + 1) } else { a };
    let c = scan_ident(s, n, b);
    let suffix = s.substring_char(b, c);
    if number_suffix(suffix, fraction) {
        let digits = strip_underscores(s.substring_char(i, b));
        Some((digits, c))
    } else {
        None
    }
}

/// The rest of a string literal of `s` from `j0`.
fn lex_string(s: &str, n: usize, j0: usize) -> (r: Option<(String, usize)>)
    requires
        n == s@.len(),
        j0 <= n,
    ensures
        match r {
            Some((v, k)) => string_rest(s@, j0 as int) == Some((v@, k as int)) && k <= n,
            None => string_rest(s@, j0 as int) is None,
        },
{
    let mut out = String::new();
    let mut j = j0;
    while j < n
        invariant
            n == s@.len(),
            j0 <= j <= n,
            string_rest(s@, j0 as int) == match string_rest(s@, j as int) {
                Some((v, k)) => Some((out@ + v, k)),
                None => None,
            },
        decreases n - j,
    {
        let c = s.get_char(j);
        if c == '"' {
            assert(out@ + Seq::<char>::empty() =~= out@);
            return Some((out, j + 1));
        } else if c == '\\' {
            if j + 1 >= n {
                return None;
            }
            let e = s.get_char(j + 1);
            let piece: &str = if e == 'n' {
                "\n"
            } else if e == 'r' {
                "\r"
            } else if e == 't' {
                "\t"
            } else if e == '0' {
                "\0"
            } else if e == '\\' {
                "\\"
            } else if e == '"' {
                "\""
            } else if e == '\'' {
                "'"
            } else {
                return None;
            };
            proof {
                reveal_strlit("\n");
                reveal_strlit("\r");
                reveal_strlit("\t");
                reveal_strlit("\0");
                reveal_strlit("\\");
                reveal_strlit("\"");
                reveal_strlit("'");
                assert(piece@ =~= seq![escaped(e)->0]);
                let rest = string_rest(s@, j + 2);
                if let Some((v, k)) = rest {
                    assert(out@ + (seq![escaped(e)->0] + v) =~= (out@ + piece@) + v);
                }
            }
            out.append(piece);
            j = j + 2;
            if j > n {
                return None;
            }
        } else {
            let one = s.substring_char(j, j + 1);
            proof {
                assert(one@ =~= seq![c]);
                let rest = string_rest(s@, j + 1);
                if let Some((v, k)) = rest {
                    assert(out@ + (seq![c] + v) =~= (out@ + one@) + v);
                }
            }
            out.append(one);
            j = j + 1;
        }
    }
    None
}

/// Does a `"` at `k` followed by `h` hashes close a raw string?
fn raw_closes_at(s: &str, n: usize, k: usize, h: usize) -> (r: bool)
    requires
        n == s@.len(),
        k < n,
    ensures
        r == closes_raw(s@, k as int, h as int),
{
    if s.get_char(k) != '"' || h >= n - k {
        return false;
    }
    let mut m: usize = 1;
    while m <= h
        invariant
            n == s@.len(),
            k + h < n,
            1 <= m <= h + 1,
            forall|x: int| k < x < k + m ==> s@[x] == '#',
        decreases h + 1 - m,
    {
        if s.get_char(k + m) != '#' {
            return false;
        }
        m = m + 1;
    }
    true
}

/// The raw string literal of `s` starting at `i`.
fn lex_raw(s: &str, n: usize, i: usize) -> (r: Option<(String, usize)>)
    requires
        n == s@.len(),
        i + 1 < n,
    ensures
        match r {
            Some((v, k)) => raw_string_at(s@, i as int) == Some((v@, k as int)) && k <= n,
            None => raw_string_at(s@, i as int) is None,
        },
{
    let q = scan_hashes(s, n, i + 1);
    let h = q - (i + 1);
    if !(q < n && s.get_char(q) == '"') {
        return None;
    }
    let mut k = q + 1;
    while k < n
        invariant
            n == s@.len(),
            q < n,
            q as int == hashes_end(s@, i + 1),
            s@[q as int] == '"',
            h == q - (i + 1),
            q + 1 <= k <= n,
            raw_close(s@, (q + 1) as int, h as int) == raw_close(s@, k as int, h as int),
        decreases n - k,
    {
        if raw_closes_at(s, n, k, h) {
            let v = s.substring_char(q + 1, k);
            assert(raw_close(s@, k as int, h as int) == Some(k as int));
            assert(v@ =~= s@.subrange(q + 1, k as int));
            return Some((v.to_string(), k + 1 + h));
        }
        k = k + 1;
    }
    None
}

/// The tokens of `text`, or `None` when it cannot be read.
pub fn tokenize(text: &str) -> (r: Option<Vec<Token>>)
    ensures
        match r {
            Some(v) => lex(text@) == Some(tokens_model(v@)),
            None => lex(text@) is None,
        },
{
    let n = text.unicode_len();
    let mut out: Vec<Token> = Vec::new();
    let mut i: usize = 0;
    while i < n
        invariant
            n == text@.len(),
            i <= n,
            lex(text@) == match lex_from(text@, i as int) {
                Some(rest) => Some(tokens_model(out@) + rest),
                None => None,
            },
        decreases n - i,
    {
        let c = text.get_char(i);
        let ghost before = out@;
        let step: Option<(Option<Token>, usize)> = if space_char(c) {
            Some((None, i + 1))
        } else if c == 'r' && i + 1 < n && (text.get_char(i + 1) == '"' || text.get_char(i + 1) == '#') {
            match lex_raw(text, n, i) {
                Some((v, k)) => Some((Some(Token::Str(v)), k)),
                None => None,
            }
        } else if ident_start_char(c) {
            let j = scan_ident(text, n, i);
            Some((Some(Token::Ident(text.substring_char(i, j).to_string())), j))
        } else if digit_char(c) {
            match lex_number(text, n, i) {
                Some((d, k)) => Some((Some(Token::Number(d)), k)),
                None => None,
            }
        } else if c == '"' {
            match lex_string(text, n, i + 1) {
                Some((v, k)) => Some((Some(Token::Str(v)), k)),
                None => None,
            }
        } else {
            Some((Some(Token::Punct(c)), i + 1))
        };
        match step {
            None => {
                return None;
            },
            Some((t, j)) => {
                proof {
                    assert(next_token(text@, i as int) == Some((
                        match t {
                            Some(x) => Some(x@),
                            None => None::<TokenM>,
                        },
                        j as int,
                    )));
                }
                if j <= i || j > n {
                    return None;
                }
                match t {
                    Some(x) => {
                        out.push(x);
                        proof {
                            if let Some(rest) = lex_from(text@, j as int) {
                                assert(tokens_model(out@) =~= tokens_model(before).push(x@));
                                assert(tokens_model(before) + (seq![x@] + rest) =~= tokens_model(out@) + rest);
                            }
                        }
                    },
                    None => {},
                }
                i = j;
            },
        }
    }
    assert(tokens_model(out@) + Seq::<TokenM>::empty() =~= tokens_model(out@));
    Some(out)
}

/// Token `i` (before `end`) is the punctuation `c`.
pub open spec fn is_punct(t: Seq<TokenM>, i: int, end: int, c: char) -> bool {
    0 <= i < end && i < t.len() && t[i] == TokenM::Punct(c)
}

/// Past an optional comma at `i`.
pub open spec fn skip_comma(t: Seq<TokenM>, i: int, end: int) -> int {
    if is_punct(t, i, end, ',') {
        i + 1
    } else {
        i
    }
}

/// The value at `i`: a string, a number, a word, or `-` and a number; and
/// where it ends.
pub open spec fn value_at(t: Seq<TokenM>, i: int, end: int) -> Result<(Seq<char>, int), Seq<char>> {
    if !(0 <= i < end && end <= t.len()) {
        Err("expected a value"@)
    } else {
        match t[i] {
            TokenM::Str(v) => Ok((v, i + 1)),
            TokenM::Number(d) => Ok((d, i + 1)),
            TokenM::Ident(x) => Ok((x, i + 1)),
            TokenM::Punct(c) => if c != '-' {
                Err("expected a value"@)
            } else if i + 1 < end && t[i + 1] is Number {
                Ok((seq!['-'] + t[i + 1]->Number_0, i + 2))
            } else {
                Err("expected number after -"@)
            },
        }
    }
}

/// The position of the `)` that closes a group opened before `i`, with
/// `depth` groups opened inside it so far.
pub open spec fn group_end(t: Seq<TokenM>, i: int, end: int, depth: nat) -> Option<int>
    decreases end - i,
{
    if i < 0 || i >= end || i >= t.len() {
        None
    } else if t[i] == TokenM::Punct(')') {
        if depth == 0 {
            Some(i)
        } else {
            group_end(t, i + 1, end, (depth - 1) as nat)
        }
    } else if t[i] == TokenM::Punct('(') {
        group_end(t, i + 1, end, depth + 1)
    } else {
        group_end(t, i + 1, end, depth)
    }
}

/// The strings of a list rule from `i` to `end`, and its custom message
/// (the last one given).
pub open spec fn list_items(t: Seq<TokenM>, i: int, end: int) -> Result<(Seq<Seq<char>>, Option<Seq<char>>), Seq<char>>
    decreases end - i,
{
    if i < 0 || i >= end || end > t.len() {
        Ok((Seq::empty(), None))
    } else {
        match t[i] {
            TokenM::Ident(x) => if x != "message"@ {
                Err("expected string literal or `message`"@)
            } else if !is_punct(t, i + 1, end, '=') {
                Err("expected `=`"@)
            } else if !(i + 2 < end && t[i + 2] is Str) {
                Err("expected string literal"@)
            } else {
                match list_items(t, skip_comma(t, i + 3, end), end) {
                    Err(e) => Err(e),
                    Ok((items, msg)) => Ok((items, if msg is Some { msg } else { Some(t[i + 2]->Str_0) })),
                }
            },
            TokenM::Str(v) => match list_items(t, skip_comma(t, i + 1, end), end) {
                Err(e) => Err(e),
                Ok((items, msg)) => Ok((seq![v] + items, msg)),
            },
            _ => Err("expected string literal"@),
        }
    }
}

/// The named parameters from `i` to `end`, and the custom message (the last
/// one given).
pub open spec fn named_items(t: Seq<TokenM>, i: int, end: int) -> Result<(Seq<(Seq<char>, Seq<char>)>, Option<Seq<char>>), Seq<char>>
    decreases end - i,
{
    if i < 0 || i >= end || end > t.len() {
        Ok((Seq::empty(), None))
    } else if !(t[i] is Ident) {
        Err("expected identifier"@)
    } else if !is_punct(t, i + 1, end, '=') {
        Err("expected `=`"@)
    } else if t[i]->Ident_0 == "message"@ {
        if !(i + 2 < end && t[i + 2] is Str) {
            Err("expected string literal"@)
        } else {
            match named_items(t, skip_comma(t, i + 3, end), end) {
                Err(e) => Err(e),
                Ok((ps, msg)) => Ok((ps, if msg is Some { msg } else { Some(t[i + 2]->Str_0) })),
            }
        }
    } else {
        match value_at(t, i + 2, end) {
            Err(e) => Err(e),
            Ok((v, j)) => if j <= i || j > end {
                Err("expected a value"@)
            } else {
                match named_items(t, skip_comma(t, j, end), end) {
                    Err(e) => Err(e),
                    Ok((ps, msg)) => Ok((seq![(t[i]->Ident_0, v)] + ps, msg)),
                }
            },
        }
    }
}

/// The rules whose parameters are a list of strings.
pub open spec fn is_list_rule(name: Seq<char>) -> bool {
    name == "in_list"@ || name == "not_in"@ || name == "required_with_all"@ || name == "required_without_all"@
}

/// The rule at `i` and where it ends.
pub open spec fn rule_at(t: Seq<TokenM>, i: int, end: int) -> Result<(FieldRuleM, int), Seq<char>> {
    if !(0 <= i < end && end <= t.len() && t[i] is Ident) {
        Err("expected identifier"@)
    } else {
        let name = t[i]->Ident_0;
        if is_punct(t, i + 1, end, '=') {
            match value_at(t, i + 2, end) {
                Err(e) => Err(e),
                Ok((v, j)) => Ok((FieldRuleM { name, params: ParamsM::Value(v), message: None }, j)),
            }
        } else if is_punct(t, i + 1, end, '(') {
            match group_end(t, i + 2, end, 0) {
                None => Err("unclosed parenthesis"@),
                Some(e) => if is_list_rule(name) {
                    match list_items(t, i + 2, e) {
                        Err(x) => Err(x),
                        Ok((items, msg)) => Ok((FieldRuleM { name, params: ParamsM::List(items), message: msg }, e + 1)),
                    }
                } else {
                    match named_items(t, i + 2, e) {
                        Err(x) => Err(x),
                        Ok((ps, msg)) => Ok((
                            FieldRuleM {
                                name,
                                params: if ps.len() == 0 { ParamsM::Empty } else { ParamsM::Named(ps) },
                                message: msg,
                            },
                            e + 1,
                        )),
                    }
                },
            }
        } else {
            Ok((FieldRuleM { name, params: ParamsM::Empty, message: None }, i + 1))
        }
    }
}

/// The rules from token `i` on, separated by commas.
pub open spec fn rules_from(t: Seq<TokenM>, i: int) -> Result<Seq<FieldRuleM>, Seq<char>>
    decreases t.len() - i,
{
    if i < 0 || i >= t.len() {
        Ok(Seq::empty())
    } else {
        match rule_at(t, i, t.len() as int) {
            Err(e) => Err(e),
            Ok((r, j)) => if j <= i || j > t.len() {
                Err("expected identifier"@)
            } else {
                match rules_from(t, skip_comma(t, j, t.len() as int)) {
                    Err(e) => Err(e),
                    Ok(rs) => Ok(seq![r] + rs),
                }
            },
        }
    }
}

/// A rule written `name(...)` takes the strings in the brackets as a list
/// when `name` is `in_list`, `not_in`, `required_with_all` or
/// `required_without_all`, and named parameters (`key = value`) for any
/// other name.
pub proof fn lemma_list_rule_params(t: Seq<TokenM>, i: int, end: int)
    requires
        0 <= i,
        i + 1 < end <= t.len(),
        t[i] is Ident,
        t[i + 1] == TokenM::Punct('('),
        group_end(t, i + 2, end, 0) is Some,
    ensures
        ({
            let name = t[i]->Ident_0;
            let e = group_end(t, i + 2, end, 0)->Some_0;
            let listed = name == "in_list"@ || name == "not_in"@ || name == "required_with_all"@ || name
                == "required_without_all"@;
            &&& listed ==> rule_at(t, i, end) == match list_items(t, i + 2, e) {
                Err(x) => Err(x),
                Ok((items, msg)) => Ok((FieldRuleM { name, params: ParamsM::List(items), message: msg }, e + 1)),
            }
            &&& !listed ==> rule_at(t, i, end) == match named_items(t, i + 2, e) {
                Err(x) => Err(x),
                Ok((ps, msg)) => Ok((
                    FieldRuleM {
                        name,
                        params: if ps.len() == 0 { ParamsM::Empty } else { ParamsM::Named(ps) },
                        message: msg,
                    },
                    e + 1,
                )),
            }
        }),
{
}

/// `name("a", "b")` reads as one rule whose parameters are the list of the
/// two strings, for each of the list rules and any strings `a` and `b`.
pub proof fn lemma_two_item_list_rule(name: Seq<char>, a: Seq<char>, b: Seq<char>)
    requires
        name == "in_list"@ || name == "not_in"@ || name == "required_with_all"@ || name == "required_without_all"@,
    ensures
        rules_from(
            seq![
                TokenM::Ident(name),
                TokenM::Punct('('),
                TokenM::Str(a),
                TokenM::Punct(','),
                TokenM::Str(b),
                TokenM::Punct(')'),
            ],
            0,
        ) == Ok::<Seq<FieldRuleM>, Seq<char>>(seq![FieldRuleM { name, params: ParamsM::List(seq![a, b]), message: None }]),
{
    let t = seq![
        TokenM::Ident(name),
        TokenM::Punct('('),
        TokenM::Str(a),
        TokenM::Punct(','),
        TokenM::Str(b),
        TokenM::Punct(')'),
    ];
    reveal_with_fuel(group_end, 5);
    assert(group_end(t, 2, 6, 0) == Some(5int));
    reveal_with_fuel(list_items, 3);
    assert(list_items(t, 4, 5) == Ok::<(Seq<Seq<char>>, Option<Seq<char>>), Seq<char>>((seq![b], None)));
    assert(skip_comma(t, 3, 5) == 4);
    assert(seq![a] + seq![b] =~= seq![a, b]);
    assert(list_items(t, 2, 5) == Ok::<(Seq<Seq<char>>, Option<Seq<char>>), Seq<char>>((seq![a, b], None)));
    assert(rule_at(t, 0, 6) == Ok::<(FieldRuleM, int), Seq<char>>((
        FieldRuleM { name, params: ParamsM::List(seq![a, b]), message: None },
        6,
    )));
    reveal_with_fuel(rules_from, 2);
    assert(rules_from(t, 6) == Ok::<Seq<FieldRuleM>, Seq<char>>(Seq::empty()));
}

/// The error for text that does not split into tokens.
pub open spec fn unreadable() -> Seq<char> {
    "unexpected character in attribute"@
}

/// The rules written in the text of one `validate(...)` attribute.
pub open spec fn spec_parse_rules(s: Seq<char>) -> Result<Seq<FieldRuleM>, Seq<char>> {
    match lex(s) {
        None => Err(unreadable()),
        Some(t) => rules_from(t, 0),
    }
}

/// Is token `i` (before `end`) the punctuation `c`?
fn punct_at(t: &Vec<Token>, i: usize, end: usize, c: char) -> (r: bool)
    ensures
        r == is_punct(tokens_model(t@), i as int, end as int, c),
{
    if i < end && i < t.len() {
        match &t[i] {
            Token::Punct(d) => *d == c,
            _ => false,
        }
    } else {
        false
    }
}

/// Past an optional comma at `i`.
fn skip_comma_at(t: &Vec<Token>, i: usize, end: usize) -> (r: usize)
    requires
        end <= t@.len(),
    ensures
        r == skip_comma(tokens_model(t@), i as int, end as int),
{
    if punct_at(t, i, end, ',') {
        i + 1
    } else {
        i
    }
}

/// The value at `i` and where it ends.
fn read_value(t: &Vec<Token>, i: usize, end: usize) -> (r: Result<(String, usize), String>)
    requires
        end <= t@.len(),
    ensures
        match r {
            Ok((v, j)) => value_at(tokens_model(t@), i as int, end as int) == Ok::<(Seq<char>, int), Seq<char>>((v@, j as int)),
            Err(e) => value_at(tokens_model(t@), i as int, end as int) == Err::<(Seq<char>, int), Seq<char>>(e@),
        },
{
    let ghost tm = tokens_model(t@);
    if !(i < end) {
        return Err("expected a value".to_string());
    }
    assert(tm[i as int] == t@[i as int]@);
    match &t[i] {
        Token::Str(v) => Ok((v.clone(), i + 1)),
        Token::Number(d) => Ok((d.clone(), i + 1)),
        Token::Ident(x) => Ok((x.clone(), i + 1)),
        Token::Punct(c) => {
            if *c != '-' {
                return Err("expected a value".to_string());
            }
            if i + 1 < end {
                assert(tm[i + 1] == t@[i + 1]@);
                if let Token::Number(d) = &t[i + 1] {
                    let mut v = "-".to_string();
                    v.append(d.as_str());
                    proof {
                        reveal_strlit("-");
                    }
                    assert(v@ =~= seq!['-'] + d@);
                    return Ok((v, i + 2));
                }
            }
            Err("expected number after -".to_string())
        },
    }
}

/// The position of the `)` closing the group opened before `i`.
fn find_group_end(t: &Vec<Token>, i: usize, end: usize) -> (r: Option<usize>)
    requires
        end <= t@.len(),
    ensures
        match r {
            Some(e) => group_end(tokens_model(t@), i as int, end as int, 0) == Some(e as int) && i <= e < end,
            None => group_end(tokens_model(t@), i as int, end as int, 0) is None,
        },
{
    let ghost tm = tokens_model(t@);
    let mut j = i;
    let mut depth: usize = 0;
    while j < end
        invariant
            end <= t@.len(),
            tm == tokens_model(t@),
            i <= j,
            depth <= j - i,
            group_end(tm, i as int, end as int, 0) == group_end(tm, j as int, end as int, depth as nat),
        decreases end - j,
    {
        assert(tm[j as int] == t@[j as int]@);
        let (close, open) = match &t[j] {
            Token::Punct(c) => (*c == ')', *c == '('),
            _ => (false, false),
        };
        if close {
            if depth == 0 {
                return Some(j);
            }
            depth = depth - 1;
        } else if open {
            depth = depth + 1;
        }
        j = j + 1;
    }
    None
}

/// The strings of a list rule from `i` to `end`, and its message.
fn read_list_items(t: &Vec<Token>, i: usize, end: usize) -> (r: Result<(Vec<String>, Option<String>), String>)
    requires
        end <= t@.len(),
    ensures
        match r {
            Ok((items, msg)) => list_items(tokens_model(t@), i as int, end as int) == Ok::<(Seq<Seq<char>>, Option<Seq<char>>), Seq<char>>((
                crate::plan::strings_model(items@),
                match msg {
                    Some(m) => Some(m@),
                    None => None,
                },
            )),
            Err(e) => list_items(tokens_model(t@), i as int, end as int) == Err::<(Seq<Seq<char>>, Option<Seq<char>>), Seq<char>>(e@),
        },
    decreases end - i,
{
    let ghost tm = tokens_model(t@);
    if !(i < end) {
        let v: Vec<String> = Vec::new();
        assert(crate::plan::strings_model(v@) =~= Seq::<Seq<char>>::empty());
        return Ok((v, None));
    }
    assert(tm[i as int] == t@[i as int]@);
    match &t[i] {
        Token::Ident(x) => {
            proof {
                reveal_strlit("message");
            }
            if !crate::text::str_eq(x.as_str(), "message") {
                return Err("expected string literal or `message`".to_string());
            }
            if !punct_at(t, i + 1, end, '=') {
                return Err("expected `=`".to_string());
            }
            if !(i + 2 < end) {
                return Err("expected string literal".to_string());
            }
            assert(tm[i + 2] == t@[i + 2]@);
            let m = match &t[i + 2] {
                Token::Str(m) => m.clone(),
                _ => {
                    return Err("expected string literal".to_string());
                },
            };
            let next = skip_comma_at(t, i + 3, end);
            match read_list_items(t, next, end) {
                Err(e) => Err(e),
                Ok((items, msg)) => {
                    let msg2 = match msg {
                        Some(x) => Some(x),
                        None => Some(m),
                    };
                    Ok((items, msg2))
                },
            }
        },
        Token::Str(v) => {
            let next = skip_comma_at(t, i + 1, end);
            match read_list_items(t, next, end) {
                Err(e) => Err(e),
                Ok((items, msg)) => {
                    let mut items = items;
                    let ghost before = items@;
                    items.insert(0, v.clone());
                    assert(crate::plan::strings_model(items@) =~= seq![v@] + crate::plan::strings_model(before));
                    Ok((items, msg))
                },
            }
        },
        _ => Err("expected string literal".to_string()),
    }
}

/// The named parameters from `i` to `end`, and the message.
fn read_named_items(t: &Vec<Token>, i: usize, end: usize) -> (r: Result<(Vec<(String, String)>, Option<String>), String>)
    requires
        end <= t@.len(),
    ensures
        match r {
            Ok((ps, msg)) => named_items(tokens_model(t@), i as int, end as int) == Ok::<(Seq<(Seq<char>, Seq<char>)>, Option<Seq<char>>), Seq<char>>((
                crate::schema::pairs_model(ps@),
                match msg {
                    Some(m) => Some(m@),
                    None => None,
                },
            )),
            Err(e) => named_items(tokens_model(t@), i as int, end as int) == Err::<(Seq<(Seq<char>, Seq<char>)>, Option<Seq<char>>), Seq<char>>(e@),
        },
    decreases end - i,
{
    let ghost tm = tokens_model(t@);
    if !(i < end) {
        let v: Vec<(String, String)> = Vec::new();
        assert(crate::schema::pairs_model(v@) =~= Seq::<(Seq<char>, Seq<char>)>::empty());
        return Ok((v, None));
    }
    assert(tm[i as int] == t@[i as int]@);
    let key = match &t[i] {
        Token::Ident(x) => x.clone(),
        _ => {
            return Err("expected identifier".to_string());
        },
    };
    if !punct_at(t, i + 1, end, '=') {
        return Err("expected `=`".to_string());
    }
    proof {
        reveal_strlit("message");
    }
    if crate::text::str_eq(key.as_str(), "message") {
        if !(i + 2 < end) {
            return Err("expected string literal".to_string());
        }
        assert(tm[i + 2] == t@[i + 2]@);
        let m = match &t[i + 2] {
            Token::Str(m) => m.clone(),
            _ => {
                return Err("expected string literal".to_string());
            },
        };
        let next = skip_comma_at(t, i + 3, end);
        match read_named_items(t, next, end) {
            Err(e) => Err(e),
            Ok((ps, msg)) => {
                let msg2 = match msg {
                    Some(x) => Some(x),
                    None => Some(m),
                };
                Ok((ps, msg2))
            },
        }
    } else {
        match read_value(t, i + 2, end) {
            Err(e) => Err(e),
            Ok((v, j)) => {
                if j <= i || j > end {
                    return Err("expected a value".to_string());
                }
                let next = skip_comma_at(t, j, end);
                match read_named_items(t, next, end) {
                    Err(e) => Err(e),
                    Ok((ps, msg)) => {
                        let mut ps = ps;
                        let ghost before = ps@;
                        ps.insert(0, (key, v));
                        assert(crate::schema::pairs_model(ps@) =~= seq![(key@, v@)] + crate::schema::pairs_model(before));
                        Ok((ps, msg))
                    },
                }
            },
        }
    }
}

/// Is `name` a rule whose parameters are a list of strings?
fn list_rule_name(name: &str) -> (r: bool)
    ensures
        r == is_list_rule(name@),
{
    crate::text::str_eq(name, "in_list") || crate::text::str_eq(name, "not_in")
        || crate::text::str_eq(name, "required_with_all") || crate::text::str_eq(name, "required_without_all")
}

/// The model of a rule result with its end position.
pub open spec fn rule_at_result(r: Result<(FieldRule, usize), String>) -> Result<(FieldRuleM, int), Seq<char>> {
    match r {
        Ok((f, j)) => Ok((f@, j as int)),
        Err(e) => Err(e@),
    }
}

/// The rule at `i` and where it ends.
fn read_rule(t: &Vec<Token>, i: usize, end: usize) -> (r: Result<(FieldRule, usize), String>)
    requires
        end <= t@.len(),
    ensures
        rule_at_result(r) == rule_at(tokens_model(t@), i as int, end as int),
{
    let ghost tm = tokens_model(t@);
    if !(i < end) {
        return Err("expected identifier".to_string());
    }
    assert(tm[i as int] == t@[i as int]@);
    let name = match &t[i] {
        Token::Ident(x) => x.clone(),
        _ => {
            return Err("expected identifier".to_string());
        },
    };
    if punct_at(t, i + 1, end, '=') {
        match read_value(t, i + 2, end) {
            Err(e) => Err(e),
            Ok((v, j)) => Ok((FieldRule { name, params: RuleParams::Value(v), message: None }, j)),
        }
    } else if punct_at(t, i + 1, end, '(') {
        match find_group_end(t, i + 2, end) {
            None => Err("unclosed parenthesis".to_string()),
            Some(e) => {
                if list_rule_name(name.as_str()) {
                    match read_list_items(t, i + 2, e) {
                        Err(x) => Err(x),
                        Ok((items, msg)) => Ok((FieldRule { name, params: RuleParams::List(items), message: msg }, e + 1)),
                    }
                } else {
                    match read_named_items(t, i + 2, e) {
                        Err(x) => Err(x),
                        Ok((ps, msg)) => {
                            let params = if ps.len() == 0 {
                                RuleParams::Empty
                            } else {
                                RuleParams::Named(ps)
                            };
                            Ok((FieldRule { name, params, message: msg }, e + 1))
                        },
                    }
                }
            },
        }
    } else {
        Ok((FieldRule { name, params: RuleParams::Empty, message: None }, i + 1))
    }
}

/// The model of a rules result.
pub open spec fn rules_model_result(r: Result<Vec<FieldRule>, String>) -> Result<Seq<FieldRuleM>, Seq<char>> {
    match r {
        Ok(v) => Ok(v@.map_values(|f: FieldRule| f@)),
        Err(e) => Err(e@),
    }
}

/// The rules from token `i` on.
fn read_rules(t: &Vec<Token>, i: usize) -> (r: Result<Vec<FieldRule>, String>)
    ensures
        rules_model_result(r) == rules_from(tokens_model(t@), i as int),
    decreases t@.len() - i,
{
    let n = t.len();
    if i >= n {
        let v: Vec<FieldRule> = Vec::new();
        assert(v@.map_values(|f: FieldRule| f@) =~= Seq::<FieldRuleM>::empty());
        return Ok(v);
    }
    match read_rule(t, i, n) {
        Err(e) => Err(e),
        Ok((r, j)) => {
            if j <= i || j > n {
                return Err("expected identifier".to_string());
            }
            let next = skip_comma_at(t, j, n);
            match read_rules(t, next) {
                Err(e) => Err(e),
                Ok(rs) => {
                    let mut rs = rs;
                    let ghost before = rs@;
                    let ghost rm = r@;
                    rs.insert(0, r);
                    assert(rs@.map_values(|f: FieldRule| f@) =~= seq![rm] + before.map_values(|f: FieldRule| f@));
                    Ok(rs)
                },
            }
        },
    }
}

/// The rules written in the text of one `validate(...)` attribute (the
/// text between its parentheses).
pub fn parse_rules(text: &str) -> (r: Result<Vec<FieldRule>, String>)
    ensures
        rules_model_result(r) == spec_parse_rules(text@),
{
    match tokenize(text) {
        None => Err("unexpected character in attribute".to_string()),
        Some(t) => {
            proof {
                reveal_strlit("unexpected character in attribute");
            }
            read_rules(&t, 0)
        },
    }
}

/// An attribute as written on a type or field: its path, and the text
/// between its parentheses (`None` for `#[path]` and `#[path = value]`).
#[derive(Clone, Debug)]
pub struct Attribute {
    pub path: String,
    pub args: Option<String>,
}

/// The model of an [`Attribute`].
pub struct AttributeM {
    pub path: Seq<char>,
    pub args: Option<Seq<char>>,
}

impl View for Attribute {
    type V = AttributeM;

    open spec fn view(&self) -> AttributeM {
        AttributeM {
            path: self.path@,
            args: match &self.args {
                Some(a) => Some(a@),
                None => None,
            },
        }
    }
}

/// The models of a list of attributes.
pub open spec fn attributes_model(v: Seq<Attribute>) -> Seq<AttributeM> {
    v.map_values(|a: Attribute| a@)
}

/// The rules of a field's `validate(...)` attributes, in order; other
/// attributes, and `validate` without parentheses, are passed over.
pub open spec fn spec_field_rules(attrs: Seq<AttributeM>) -> Result<Seq<FieldRuleM>, Seq<char>>
    decreases attrs.len(),
{
    if attrs.len() == 0 {
        Ok(Seq::empty())
    } else {
        match spec_field_rules(attrs.drop_last()) {
            Err(e) => Err(e),
            Ok(done) => {
                let a = attrs.last();
                if a.path == "validate"@ && a.args is Some {
                    match spec_parse_rules(a.args->0) {
                        Err(e) => Err(e),
                        Ok(rs) => Ok(done + rs),
                    }
                } else {
                    Ok(done)
                }
            },
        }
    }
}

/// Once an attribute fails to read, so does every longer list that starts
/// with the same attributes, with the same error.
proof fn lemma_field_rules_err(attrs: Seq<AttributeM>, k: int, j: int)
    requires
        0 <= k <= j <= attrs.len(),
        spec_field_rules(attrs.take(k)) is Err,
    ensures
        spec_field_rules(attrs.take(j)) == spec_field_rules(attrs.take(k)),
    decreases j - k,
{
    if j > k {
        lemma_field_rules_err(attrs, k, j - 1);
        assert(attrs.take(j).drop_last() =~= attrs.take(j - 1));
    }
}

/// Reads the rules of a field's `validate(...)` attributes.
pub fn parse_field_rules(attrs: &Vec<Attribute>) -> (r: Result<Vec<FieldRule>, String>)
    ensures
        rules_model_result(r) == spec_field_rules(attributes_model(attrs@)),
{
    let mut out: Vec<FieldRule> = Vec::new();
    let mut k: usize = 0;
    assert(attributes_model(attrs@).take(0) =~= Seq::<AttributeM>::empty());
    assert(out@.map_values(|f: FieldRule| f@) =~= Seq::<FieldRuleM>::empty());
    while k < attrs.len()
        invariant
            k <= attrs@.len(),
            spec_field_rules(attributes_model(attrs@).take(k as int)) == Ok::<Seq<FieldRuleM>, Seq<char>>(
                out@.map_values(|f: FieldRule| f@),
            ),
        decreases attrs@.len() - k,
    {
        let ghost am = attributes_model(attrs@);
        assert(am.take(k + 1).drop_last() =~= am.take(k as int));
        assert(am.take(k + 1).last() == attrs@[k as int]@);
        let a = &attrs[k];
        proof {
            reveal_strlit("validate");
        }
        if crate::text::str_eq(a.path.as_str(), "validate") {
            if let Some(text) = &a.args {
                match parse_rules(text.as_str()) {
                    Err(e) => {
                        proof {
                            lemma_field_rules_err(attributes_model(attrs@), k + 1, attrs@.len() as int);
                            assert(attributes_model(attrs@).take(attrs@.len() as int) =~= attributes_model(attrs@));
                        }
                        return Err(e);
                    },
                    Ok(rs) => {
                        let ghost before = out@;
                        let ghost added = rs@;
                        let mut rs = rs;
                        out.append(&mut rs);
                        assert(out@.map_values(|f: FieldRule| f@) =~= before.map_values(|f: FieldRule| f@)
                            + added.map_values(|f: FieldRule| f@));
                    },
                }
            }
        }
        k = k + 1;
    }
    assert(attributes_model(attrs@).take(k as int) =~= attributes_model(attrs@));
    Ok(out)
}

/// The `field = "display name"` pairs from `i` to `end`, separated by
/// commas, with an optional trailing comma.
pub open spec fn attr_pairs(t: Seq<TokenM>, i: int, end: int) -> Result<Seq<(Seq<char>, Seq<char>)>, Seq<char>>
    decreases end - i,
{
    if i < 0 || i >= end || end > t.len() {
        Ok(Seq::empty())
    } else if !(t[i] is Ident) {
        Err("expected identifier"@)
    } else if !is_punct(t, i + 1, end, '=') {
        Err("expected `=`"@)
    } else if !(i + 2 < end && t[i + 2] is Str) {
        Err("expected string literal"@)
    } else {
        let p = (t[i]->Ident_0, t[i + 2]->Str_0);
        if i + 3 >= end {
            Ok(seq![p])
        } else if is_punct(t, i + 3, end, ',') {
            match attr_pairs(t, i + 4, end) {
                Err(e) => Err(e),
                Ok(ps) => Ok(seq![p] + ps),
            }
        } else {
            Err("expected `,`"@)
        }
    }
}

/// The end of the path `a::b::c` starting at `i`.
pub open spec fn meta_path_end(t: Seq<TokenM>, i: int) -> Option<int>
    decreases t.len() - i,
{
    if !(0 <= i < t.len() && t[i] is Ident) {
        None
    } else if is_punct(t, i + 1, t.len() as int, ':') && is_punct(t, i + 2, t.len() as int, ':') {
        meta_path_end(t, i + 3)
    } else {
        Some(i + 1)
    }
}

/// The display names given by the struct-level items from `i` on:
/// `attributes(...)` is read, any other bare item passed over.
pub open spec fn struct_metas(t: Seq<TokenM>, i: int) -> Result<Seq<(Seq<char>, Seq<char>)>, Seq<char>>
    decreases t.len() - i,
{
    let lead = is_punct(t, i, t.len() as int, ':') && is_punct(t, i + 1, t.len() as int, ':');
    match meta_path_end(t, if lead { i + 2 } else { i }) {
        None => Err("expected identifier"@),
        Some(p) => {
            let n = t.len() as int;
            let read: Result<(Seq<(Seq<char>, Seq<char>)>, int), Seq<char>> = if !lead && p == i + 1 && t[i] == TokenM::Ident(
                "attributes"@,
            ) {
                if is_punct(t, p, n, '(') {
                    match group_end(t, p + 1, n, 0) {
                        None => Err("unclosed parenthesis"@),
                        Some(e) => match attr_pairs(t, p + 1, e) {
                            Err(x) => Err(x),
                            Ok(ps) => Ok((ps, e + 1)),
                        },
                    }
                } else {
                    Err("expected parentheses"@)
                }
            } else {
                Ok((Seq::empty(), p))
            };
            match read {
                Err(e) => Err(e),
                Ok((found, after)) => if after <= i || after >= n {
                    Ok(found)
                } else if !is_punct(t, after, n, ',') {
                    Err("expected `,`"@)
                } else if after + 1 >= n {
                    Ok(found)
                } else {
                    match struct_metas(t, after + 1) {
                        Err(e) => Err(e),
                        Ok(rest) => Ok(found + rest),
                    }
                },
            }
        },
    }
}

/// The display names in the text of one struct-level `validate(...)`.
pub open spec fn spec_struct_attr_text(s: Seq<char>) -> Result<Seq<(Seq<char>, Seq<char>)>, Seq<char>> {
    match lex(s) {
        None => Err(unreadable()),
        Some(t) => if t.len() == 0 {
            Ok(Seq::empty())
        } else {
            struct_metas(t, 0)
        },
    }
}

/// The error for a struct-level `validate` without parentheses.
pub open spec fn missing_arguments() -> Seq<char> {
    "expected attribute arguments in parentheses: #[validate(...)]"@
}

/// The display names of a type's `validate(...)` attributes, in order.
pub open spec fn spec_struct_attrs(attrs: Seq<AttributeM>) -> Result<Seq<(Seq<char>, Seq<char>)>, Seq<char>>
    decreases attrs.len(),
{
    if attrs.len() == 0 {
        Ok(Seq::empty())
    } else {
        match spec_struct_attrs(attrs.drop_last()) {
            Err(e) => Err(e),
            Ok(done) => {
                let a = attrs.last();
                if a.path != "validate"@ {
                    Ok(done)
                } else {
                    match a.args {
                        None => Err(missing_arguments()),
                        Some(text) => match spec_struct_attr_text(text) {
                            Err(e) => Err(e),
                            Ok(ps) => Ok(done + ps),
                        },
                    }
                }
            },
        }
    }
}

/// The model of a list-of-pairs result.
pub open spec fn pairs_result(r: Result<Vec<(String, String)>, String>) -> Result<Seq<(Seq<char>, Seq<char>)>, Seq<char>> {
    match r {
        Ok(v) => Ok(crate::schema::pairs_model(v@)),
        Err(e) => Err(e@),
    }
}

/// Reads `field = "name", ...` pairs from `i` to `end`.
fn read_attr_pairs(t: &Vec<Token>, i: usize, end: usize) -> (r: Result<Vec<(String, String)>, String>)
    requires
        end <= t@.len(),
    ensures
        pairs_result(r) == attr_pairs(tokens_model(t@), i as int, end as int),
    decreases end - i,
{
    let ghost tm = tokens_model(t@);
    if !(i < end) {
        let v: Vec<(String, String)> = Vec::new();
        assert(crate::schema::pairs_model(v@) =~= Seq::<(Seq<char>, Seq<char>)>::empty());
        return Ok(v);
    }
    assert(tm[i as int] == t@[i as int]@);
    let key = match &t[i] {
        Token::Ident(x) => x.clone(),
        _ => {
            return Err("expected identifier".to_string());
        },
    };
    if !punct_at(t, i + 1, end, '=') {
        return Err("expected `=`".to_string());
    }
    if !(i + 2 < end) {
        return Err("expected string literal".to_string());
    }
    assert(tm[i + 2] == t@[i + 2]@);
    let value = match &t[i + 2] {
        Token::Str(v) => v.clone(),
        _ => {
            return Err("expected string literal".to_string());
        },
    };
    if i + 3 >= end {
        let v = vec![(key, value)];
        assert(crate::schema::pairs_model(v@) =~= seq![(key@, value@)]);
        return Ok(v);
    }
    if !punct_at(t, i + 3, end, ',') {
        return Err("expected `,`".to_string());
    }
    match read_attr_pairs(t, i + 4, end) {
        Err(e) => Err(e),
        Ok(ps) => {
            let mut ps = ps;
            let ghost before = ps@;
            ps.insert(0, (key, value));
            assert(crate::schema::pairs_model(ps@) =~= seq![(key@, value@)] + crate::schema::pairs_model(before));
            Ok(ps)
        },
    }
}

/// The end of the path starting at `i`.
fn find_meta_path_end(t: &Vec<Token>, i: usize) -> (r: Option<usize>)
    ensures
        match r {
            Some(p) => meta_path_end(tokens_model(t@), i as int) == Some(p as int) && i < p <= t@.len(),
            None => meta_path_end(tokens_model(t@), i as int) is None,
        },
    decreases t@.len() - i,
{
    let ghost tm = tokens_model(t@);
    let n = t.len();
    if !(i < n) {
        return None;
    }
    assert(tm[i as int] == t@[i as int]@);
    match &t[i] {
        Token::Ident(_) => {},
        _ => {
            return None;
        },
    }
    if punct_at(t, i + 1, n, ':') && punct_at(t, i + 2, n, ':') {
        match find_meta_path_end(t, i + 3) {
            Some(p) => Some(p),
            None => None,
        }
    } else {
        Some(i + 1)
    }
}

/// Reads the struct-level items from `i` on.
fn read_struct_metas(t: &Vec<Token>, i: usize) -> (r: Result<Vec<(String, String)>, String>)
    ensures
        pairs_result(r) == struct_metas(tokens_model(t@), i as int),
    decreases t@.len() - i,
{
    let ghost tm = tokens_model(t@);
    let n = t.len();
    let lead = punct_at(t, i, n, ':') && punct_at(t, i + 1, n, ':');
    let start = if lead { i + 2 } else { i };
    let p = match find_meta_path_end(t, start) {
        None => {
            return Err("expected identifier".to_string());
        },
        Some(p) => p,
    };
    let is_attributes = !lead && p == i + 1 && match &t[i] {
        Token::Ident(x) => crate::text::str_eq(x.as_str(), "attributes"),
        _ => false,
    };
    proof {
        reveal_strlit("attributes");
        assert(tm[i as int] == t@[i as int]@);
    }
    let mut found: Vec<(String, String)>;
    let after: usize;
    if is_attributes {
        if !punct_at(t, p, n, '(') {
            return Err("expected parentheses".to_string());
        }
        match find_group_end(t, p + 1, n) {
            None => {
                return Err("unclosed parenthesis".to_string());
            },
            Some(e) => match read_attr_pairs(t, p + 1, e) {
                Err(x) => {
                    return Err(x);
                },
                Ok(ps) => {
                    found = ps;
                    after = e + 1;
                },
            },
        }
    } else {
        found = Vec::new();
        after = p;
        assert(crate::schema::pairs_model(found@) =~= Seq::<(Seq<char>, Seq<char>)>::empty());
    }
    if after <= i || after >= n {
        return Ok(found);
    }
    if !punct_at(t, after, n, ',') {
        return Err("expected `,`".to_string());
    }
    if after + 1 >= n {
        return Ok(found);
    }
    match read_struct_metas(t, after + 1) {
        Err(e) => Err(e),
        Ok(rest) => {
            let ghost a = found@;
            let ghost b = rest@;
            let mut rest = rest;
            found.append(&mut rest);
            assert(crate::schema::pairs_model(found@) =~= crate::schema::pairs_model(a) + crate::schema::pairs_model(b));
            Ok(found)
        },
    }
}

/// The display names in the text of one struct-level `validate(...)`.
fn read_struct_attr_text(text: &str) -> (r: Result<Vec<(String, String)>, String>)
    ensures
        pairs_result(r) == spec_struct_attr_text(text@),
{
    match tokenize(text) {
        None => {
            proof {
                reveal_strlit("unexpected character in attribute");
            }
            Err("unexpected character in attribute".to_string())
        },
        Some(t) => {
            if t.len() == 0 {
                let v: Vec<(String, String)> = Vec::new();
                assert(crate::schema::pairs_model(v@) =~= Seq::<(Seq<char>, Seq<char>)>::empty());
                Ok(v)
            } else {
                read_struct_metas(&t, 0)
            }
        },
    }
}

/// Once an attribute fails to read, so does every longer list that starts
/// with the same attributes.
proof fn lemma_struct_attrs_err(attrs: Seq<AttributeM>, k: int, j: int)
    requires
        0 <= k <= j <= attrs.len(),
        spec_struct_attrs(attrs.take(k)) is Err,
    ensures
        spec_struct_attrs(attrs.take(j)) == spec_struct_attrs(attrs.take(k)),
    decreases j - k,
{
    if j > k {
        lemma_struct_attrs_err(attrs, k, j - 1);
        assert(attrs.take(j).drop_last() =~= attrs.take(j - 1));
    }
}

/// Reads the display names of a type's `validate(...)` attributes
/// (`attributes(field = "name", ...)`).
pub fn parse_struct_attrs(attrs: &Vec<Attribute>) -> (r: Result<StructAttrs, String>)
    ensures
        match r {
            Ok(a) => spec_struct_attrs(attributes_model(attrs@)) == Ok::<Seq<(Seq<char>, Seq<char>)>, Seq<char>>(
                crate::schema::pairs_model(a.attributes@),
            ),
            Err(e) => spec_struct_attrs(attributes_model(attrs@)) == Err::<Seq<(Seq<char>, Seq<char>)>, Seq<char>>(e@),
        },
{
    let mut out: Vec<(String, String)> = Vec::new();
    let mut k: usize = 0;
    assert(attributes_model(attrs@).take(0) =~= Seq::<AttributeM>::empty());
    assert(crate::schema::pairs_model(out@) =~= Seq::<(Seq<char>, Seq<char>)>::empty());
    while k < attrs.len()
        invariant
            k <= attrs@.len(),
            spec_struct_attrs(attributes_model(attrs@).take(k as int)) == Ok::<Seq<(Seq<char>, Seq<char>)>, Seq<char>>(
                crate::schema::pairs_model(out@),
            ),
        decreases attrs@.len() - k,
    {
        let ghost am = attributes_model(attrs@);
        assert(am.take(k + 1).drop_last() =~= am.take(k as int));
        assert(am.take(k + 1).last() == attrs@[k as int]@);
        let a = &attrs[k];
        proof {
            reveal_strlit("validate");
            reveal_strlit("expected attribute arguments in parentheses: #[validate(...)]");
        }
        if crate::text::str_eq(a.path.as_str(), "validate") {
            let read = match &a.args {
                None => Err("expected attribute arguments in parentheses: #[validate(...)]".to_string()),
                Some(text) => read_struct_attr_text(text.as_str()),
            };
            match read {
                Err(e) => {
                    proof {
                        lemma_struct_attrs_err(am, k + 1, attrs@.len() as int);
                        assert(am.take(attrs@.len() as int) =~= am);
                    }
                    return Err(e);
                },
                Ok(ps) => {
                    let ghost before = out@;
                    let ghost added = ps@;
                    let mut ps = ps;
                    out.append(&mut ps);
                    assert(crate::schema::pairs_model(out@) =~= crate::schema::pairs_model(before)
                        + crate::schema::pairs_model(added));
                },
            }
        }
        k = k + 1;
    }
    assert(attributes_model(attrs@).take(k as int) =~= attributes_model(attrs@));
    Ok(StructAttrs { attributes: out })
}

/// The position of the `>` closing the angle brackets opened before `i`,
/// with `depth` brackets opened inside so far.
pub open spec fn angle_end(t: Seq<TokenM>, i: int, end: int, depth: nat) -> Option<int>
    decreases end - i,
{
    if i < 0 || i >= end || i >= t.len() {
        None
    } else if t[i] == TokenM::Punct('>') {
        if depth == 0 {
            Some(i)
        } else {
            angle_end(t, i + 1, end, (depth - 1) as nat)
        }
    } else if t[i] == TokenM::Punct('<') {
        angle_end(t, i + 1, end, depth + 1)
    } else {
        angle_end(t, i + 1, end, depth)
    }
}

/// An opening bracket of a generic argument.
pub open spec fn opens(x: TokenM) -> bool {
    x == TokenM::Punct('<') || x == TokenM::Punct('(') || x == TokenM::Punct('[')
}

/// A closing bracket of a generic argument.
pub open spec fn closes(x: TokenM) -> bool {
    x == TokenM::Punct('>') || x == TokenM::Punct(')') || x == TokenM::Punct(']')
}

/// The end of the first generic argument from `i`: the first comma outside
/// brackets, or `end`.
pub open spec fn first_arg_end(t: Seq<TokenM>, i: int, end: int, depth: nat) -> int
    decreases end - i,
{
    if i < 0 || i >= end || i >= t.len() {
        end
    } else if t[i] == TokenM::Punct(',') && depth == 0 {
        i
    } else if opens(t[i]) {
        first_arg_end(t, i + 1, end, depth + 1)
    } else if closes(t[i]) && depth > 0 {
        first_arg_end(t, i + 1, end, (depth - 1) as nat)
    } else {
        first_arg_end(t, i + 1, end, depth)
    }
}

/// A path type `a::b<..>::c<..>` spanning `i..end`: the name of its last
/// segment, and the range of that segment's generic arguments.
pub open spec fn path_type(t: Seq<TokenM>, i: int, end: int) -> Option<(Seq<char>, Option<(int, int)>)>
    decreases end - i,
{
    if !(0 <= i < end && end <= t.len() && t[i] is Ident) {
        None
    } else {
        let name = t[i]->Ident_0;
        let seg: Option<(Option<(int, int)>, int)> = if is_punct(t, i + 1, end, '<') {
            match angle_end(t, i + 2, end, 0) {
                None => None,
                Some(g) => Some((Some((i + 2, g)), g + 1)),
            }
        } else {
            Some((None, i + 1))
        };
        match seg {
            None => None,
            Some((args, k)) => if k == end {
                Some((name, args))
            } else if k > i && is_punct(t, k, end, ':') && is_punct(t, k + 1, end, ':') {
                path_type(t, k + 2, end)
            } else {
                None
            },
        }
    }
}

/// The first generic argument of a path type `…::wrapper<A, ..>` spanning
/// `i..end`, when it is a type (not a lifetime).
pub open spec fn generic_arg(t: Seq<TokenM>, i: int, end: int, wrapper: Seq<char>) -> Option<(int, int)> {
    match path_type(t, i, end) {
        Some((n, Some((a, b)))) => {
            let c = first_arg_end(t, a, b, 0);
            if n == wrapper && a < c && t[a] != TokenM::Punct('\'') {
                Some((a, c))
            } else {
                None
            }
        },
        _ => None,
    }
}

/// The name that classifies the type spanning `i..end`: the last segment of
/// a path type, else empty.
pub open spec fn classifying_name(t: Seq<TokenM>, i: int, end: int) -> Seq<char> {
    match path_type(t, i, end) {
        Some((n, _)) => n,
        None => Seq::empty(),
    }
}

/// What a field's type says: whether it is an `Option`, whether it (or its
/// `Option`'s content) is a `Vec`, and the name of the type inside (or of
/// the type itself).
pub open spec fn spec_type_info(s: Seq<char>) -> Option<(bool, bool, Seq<char>)> {
    match lex(s) {
        None => None,
        Some(t) => {
            let n = t.len() as int;
            match generic_arg(t, 0, n, "Option"@) {
                Some((a, b)) => match generic_arg(t, a, b, "Vec"@) {
                    Some((c, d)) => Some((true, true, classifying_name(t, c, d))),
                    None => Some((true, false, classifying_name(t, a, b))),
                },
                None => match generic_arg(t, 0, n, "Vec"@) {
                    Some((a, b)) => Some((false, true, classifying_name(t, a, b))),
                    None => Some((false, false, classifying_name(t, 0, n))),
                },
            }
        },
    }
}

/// The position of the `>` closing the angle brackets opened before `i`.
fn find_angle_end(t: &Vec<Token>, i: usize, end: usize) -> (r: Option<usize>)
    requires
        end <= t@.len(),
    ensures
        match r {
            Some(e) => angle_end(tokens_model(t@), i as int, end as int, 0) == Some(e as int) && i <= e < end,
            None => angle_end(tokens_model(t@), i as int, end as int, 0) is None,
        },
{
    let ghost tm = tokens_model(t@);
    let mut j = i;
    let mut depth: usize = 0;
    while j < end
        invariant
            end <= t@.len(),
            tm == tokens_model(t@),
            i <= j,
            depth <= j - i,
            angle_end(tm, i as int, end as int, 0) == angle_end(tm, j as int, end as int, depth as nat),
        decreases end - j,
    {
        assert(tm[j as int] == t@[j as int]@);
        let (close, open) = match &t[j] {
            Token::Punct(c) => (*c == '>', *c == '<'),
            _ => (false, false),
        };
        if close {
            if depth == 0 {
                return Some(j);
            }
            depth = depth - 1;
        } else if open {
            depth = depth + 1;
        }
        j = j + 1;
    }
    None
}

/// The end of the first generic argument from `i`.
fn find_first_arg_end(t: &Vec<Token>, i: usize, end: usize) -> (r: usize)
    requires
        end <= t@.len(),
        i <= end,
    ensures
        r == first_arg_end(tokens_model(t@), i as int, end as int, 0),
        i <= r <= end,
{
    let ghost tm = tokens_model(t@);
    let mut j = i;
    let mut depth: usize = 0;
    while j < end
        invariant
            end <= t@.len(),
            tm == tokens_model(t@),
            i <= j <= end,
            depth <= j - i,
            first_arg_end(tm, i as int, end as int, 0) == first_arg_end(tm, j as int, end as int, depth as nat),
        decreases end - j,
    {
        assert(tm[j as int] == t@[j as int]@);
        let (comma, open, close) = match &t[j] {
            Token::Punct(c) => (*c == ',', *c == '<' || *c == '(' || *c == '[', *c == '>' || *c == ')' || *c == ']'),
            _ => (false, false, false),
        };
        if comma && depth == 0 {
            return j;
        }
        if open {
            depth = depth + 1;
        } else if close && depth > 0 {
            depth = depth - 1;
        }
        j = j + 1;
    }
    end
}

/// The model of a path-type result.
pub open spec fn path_result(r: Option<(String, Option<(usize, usize)>)>) -> Option<(Seq<char>, Option<(int, int)>)> {
    match r {
        Some((n, Some((a, b)))) => Some((n@, Some((a as int, b as int)))),
        Some((n, None)) => Some((n@, None)),
        None => None,
    }
}

/// The path type spanning `i..end`.
fn read_path_type(t: &Vec<Token>, i: usize, end: usize) -> (r: Option<(String, Option<(usize, usize)>)>)
    requires
        end <= t@.len(),
    ensures
        path_result(r) == path_type(tokens_model(t@), i as int, end as int),
        r matches Some((_, Some((a, b)))) ==> i <= a <= b < end,
    decreases end - i,
{
    let ghost tm = tokens_model(t@);
    if !(i < end) {
        return None;
    }
    assert(tm[i as int] == t@[i as int]@);
    let name = match &t[i] {
        Token::Ident(x) => x.clone(),
        _ => {
            return None;
        },
    };
    let args: Option<(usize, usize)>;
    let k: usize;
    if punct_at(t, i + 1, end, '<') {
        match find_angle_end(t, i + 2, end) {
            None => {
                return None;
            },
            Some(g) => {
                args = Some((i + 2, g));
                k = g + 1;
            },
        }
    } else {
        args = None;
        k = i + 1;
    }
    if k == end {
        Some((name, args))
    } else if k > i && punct_at(t, k, end, ':') && punct_at(t, k + 1, end, ':') {
        read_path_type(t, k + 2, end)
    } else {
        None
    }
}

/// The first generic argument of `…::wrapper<A, ..>` spanning `i..end`.
fn read_generic_arg(t: &Vec<Token>, i: usize, end: usize, wrapper: &str) -> (r: Option<(usize, usize)>)
    requires
        end <= t@.len(),
    ensures
        match r {
            Some((a, c)) => generic_arg(tokens_model(t@), i as int, end as int, wrapper@) == Some((a as int, c as int))
                && i <= a < c <= end,
            None => generic_arg(tokens_model(t@), i as int, end as int, wrapper@) is None,
        },
{
    let ghost tm = tokens_model(t@);
    match read_path_type(t, i, end) {
        Some((n, Some((a, b)))) => {
            let c = find_first_arg_end(t, a, b);
            if !(crate::text::str_eq(n.as_str(), wrapper) && a < c) {
                return None;
            }
            assert(tm[a as int] == t@[a as int]@);
            let lifetime = match &t[a] {
                Token::Punct(p) => *p == '\'',
                _ => false,
            };
            if lifetime {
                None
            } else {
                Some((a, c))
            }
        },
        _ => None,
    }
}

/// The name that classifies the type spanning `i..end`.
fn read_classifying_name(t: &Vec<Token>, i: usize, end: usize) -> (r: String)
    requires
        end <= t@.len(),
    ensures
        r@ == classifying_name(tokens_model(t@), i as int, end as int),
{
    match read_path_type(t, i, end) {
        Some((n, _)) => n,
        None => String::new(),
    }
}

/// Reads a field's type: whether it is an `Option`, whether it (or the
/// `Option`'s content) is a `Vec`, and the name of the type inside (the
/// last segment of its path; empty for a type that is not a path).
/// `None` when the text cannot be read.
pub fn extract_type_info(ty: &str) -> (r: Option<(bool, bool, String)>)
    ensures
        match r {
            Some((o, v, n)) => spec_type_info(ty@) == Some((o, v, n@)),
            None => spec_type_info(ty@) is None,
        },
{
    proof {
        reveal_strlit("Option");
        reveal_strlit("Vec");
    }
    let t = match tokenize(ty) {
        None => {
            return None;
        },
        Some(t) => t,
    };
    let n = t.len();
    match read_generic_arg(&t, 0, n, "Option") {
        Some((a, b)) => match read_generic_arg(&t, a, b, "Vec") {
            Some((c, d)) => Some((true, true, read_classifying_name(&t, c, d))),
            None => Some((true, false, read_classifying_name(&t, a, b))),
        },
        None => match read_generic_arg(&t, 0, n, "Vec") {
            Some((a, b)) => Some((false, true, read_classifying_name(&t, a, b))),
            None => Some((false, false, read_classifying_name(&t, 0, n))),
        },
    }
}

/// The field `name` of type `ty` with the rules of its attributes, as a
/// named struct declares it.
pub fn field_info(name: &str, ty: &str, attrs: &Vec<Attribute>) -> (r: Result<FieldInfo, String>)
    ensures
        match r {
            Ok(f) => spec_field_rules(attributes_model(attrs@)) == Ok::<Seq<FieldRuleM>, Seq<char>>(f@.rules)
                && spec_type_info(ty@) == Some((f.is_option, f.is_vec, f.inner_type@))
                && f.name@ == name@,
            Err(e) => spec_field_rules(attributes_model(attrs@)) == Err::<Seq<FieldRuleM>, Seq<char>>(e@)
                || (spec_field_rules(attributes_model(attrs@)) is Ok && spec_type_info(ty@) is None
                    && e@ == unreadable_type()),
        },
{
    let rules = match parse_field_rules(attrs) {
        Err(e) => {
            return Err(e);
        },
        Ok(rules) => rules,
    };
    match extract_type_info(ty) {
        None => {
            proof {
                reveal_strlit("unexpected character in type");
            }
            Err("unexpected character in type".to_string())
        },
        Some((is_option, is_vec, inner_type)) => {
            let f = FieldInfo { name: name.to_string(), rules, is_option, is_vec, inner_type };
            assert(f@.rules =~= f.rules@.map_values(|r: FieldRule| r@));
            Ok(f)
        },
    }
}

/// The error for a type that does not split into tokens.
pub open spec fn unreadable_type() -> Seq<char> {
    "unexpected character in type"@
}

} // verus!
