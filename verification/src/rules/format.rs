//! Format rules: email, URL, UUID, ULID, dates, JSON, timezone, regex,
//! MAC address, ASCII, hex color.
//!
//! The standards-heavy formats are decided by dedicated crates
//! (`email_address`, `url`, `uuid`, `ulid`, `chrono`, `chrono-tz`, `regex`,
//! `serde_json`); what each of them answers is named below by a spec function,
//! and the rules built on those answers are verified against the names.
use vstd::prelude::*;
use crate::rules::comparison::{int_order, Order};
use crate::text::{find_char, first_index_of, is_ascii_hexdigit, str_eq};

verus! {

/// Whether `regex::Regex::new` accepts `pattern`.
pub uninterp spec fn regex_compiles(pattern: Seq<char>) -> bool;

/// Whether the regex compiled from `pattern` finds a match in `haystack`.
pub uninterp spec fn regex_finds(pattern: Seq<char>, haystack: Seq<char>) -> bool;

/// Whether `email_address::EmailAddress::is_valid` accepts `s`.
pub uninterp spec fn email_ok(s: Seq<char>) -> bool;

/// The scheme of the URL that `url::Url::parse` makes of `s`, or `None`
/// when it rejects `s`.
pub uninterp spec fn url_scheme(s: Seq<char>) -> Option<Seq<char>>;

/// Whether `uuid::Uuid::parse_str` accepts `s`.
pub uninterp spec fn uuid_ok(s: Seq<char>) -> bool;

/// A character of Crockford's base32 alphabet, in either case: a digit, or
/// a letter other than `I`, `L`, `O` and `U`.
pub open spec fn is_crockford_char(c: char) -> bool {
    ('0' <= c && c <= '9') || (('A' <= c && c <= 'Z') || ('a' <= c && c <= 'z')) && !(c == 'I' || c == 'i' || c
        == 'L' || c == 'l' || c == 'O' || c == 'o' || c == 'U' || c == 'u')
}

/// A ULID: 26 characters of Crockford's base32 alphabet.
pub open spec fn spec_is_ulid(s: Seq<char>) -> bool {
    s.len() == 26 && forall|i: int| 0 <= i < s.len() ==> #[trigger] is_crockford_char(s[i])
}

/// The (year, month, day) of the date that `chrono::NaiveDate::parse_from_str`
/// reads from `s` with format `fmt`, or `None` when it rejects `s`.
pub uninterp spec fn parsed_date(s: Seq<char>, fmt: Seq<char>) -> Option<(i32, u32, u32)>;

/// Whether `chrono::DateTime::parse_from_rfc3339` accepts `s`.
pub uninterp spec fn rfc3339_ok(s: Seq<char>) -> bool;

/// Whether `chrono::NaiveDateTime::parse_from_str` accepts `s` with format `fmt`.
pub uninterp spec fn naive_datetime_ok(s: Seq<char>, fmt: Seq<char>) -> bool;

/// Whether `serde_json::from_str::<serde_json::Value>` accepts `s`.
pub uninterp spec fn json_ok(s: Seq<char>) -> bool;

/// Whether `s` names a timezone of the IANA database of `chrono_tz::Tz`.
pub uninterp spec fn timezone_ok(s: Seq<char>) -> bool;

/// A regular expression compiled by the `regex` crate, with its source text.
pub struct CompiledPattern {
    source: String,
    re: regex::Regex,
}

#[verifier::external_type_specification]
#[verifier::external_body]
pub struct ExRegex(regex::Regex);

impl CompiledPattern {
    /// The pattern text this regex was compiled from.
    pub closed spec fn source(&self) -> Seq<char> {
        self.source@
    }
}

/// `regex::Regex::new`: `Some` exactly when the crate accepts `pattern`; the
/// result remembers the pattern text.
#[verifier::external_body]
fn regex_new(pattern: &str) -> (r: Option<CompiledPattern>)
    ensures
        r is Some == regex_compiles(pattern@),
        r matches Some(c) ==> c.source() == pattern@,
{
    match regex::Regex::new(pattern) {
        Ok(re) => Some(CompiledPattern { source: pattern.to_string(), re }),
        Err(_) => None,
    }
}

/// `regex::Regex::is_match`: whether the compiled pattern finds a match in
/// `haystack`.
#[verifier::external_body]
fn regex_is_match(c: &CompiledPattern, haystack: &str) -> (r: bool)
    ensures
        r == regex_finds(c.source(), haystack@),
{
    c.re.is_match(haystack)
}

/// `email_address::EmailAddress::is_valid`.
#[verifier::external_body]
fn email_is_valid(s: &str) -> (r: bool)
    ensures
        r == email_ok(s@),
{
    email_address::EmailAddress::is_valid(s)
}

/// `url::Url::parse`, read by the scheme of the parsed URL.
#[verifier::external_body]
fn url_parse_scheme(s: &str) -> (r: Option<String>)
    ensures
        r matches Some(sc) ==> url_scheme(s@) == Some(sc@),
        r is None ==> url_scheme(s@) is None,
{
    match url::Url::parse(s) {
        Ok(u) => Some(u.scheme().to_string()),
        Err(_) => None,
    }
}

/// `uuid::Uuid::parse_str`, read by whether it succeeds.
#[verifier::external_body]
fn uuid_parses(s: &str) -> (r: bool)
    ensures
        r == uuid_ok(s@),
{
    uuid::Uuid::parse_str(s).is_ok()
}

/// `ulid::Ulid::from_str`, read by whether it succeeds: its decoder accepts
/// exactly 26 bytes that each have a value in the base32 lookup table, which
/// holds the Crockford alphabet in both cases (so no byte of a non-ASCII
/// character).
#[verifier::external_body]
fn ulid_parses(s: &str) -> (r: bool)
    ensures
        r == spec_is_ulid(s@),
{
    <ulid::Ulid as std::str::FromStr>::from_str(s).is_ok()
}

/// `chrono::NaiveDate::parse_from_str`, read as (year, month, day).
#[verifier::external_body]
fn naive_date_parse(s: &str, fmt: &str) -> (r: Option<(i32, u32, u32)>)
    ensures
        r == parsed_date(s@, fmt@),
{
    match chrono::NaiveDate::parse_from_str(s, fmt) {
        Ok(d) => Some((chrono::Datelike::year(&d), chrono::Datelike::month(&d), chrono::Datelike::day(&d))),
        Err(_) => None,
    }
}

/// `chrono::DateTime::parse_from_rfc3339`, read by whether it succeeds.
#[verifier::external_body]
fn rfc3339_parses(s: &str) -> (r: bool)
    ensures
        r == rfc3339_ok(s@),
{
    chrono::DateTime::parse_from_rfc3339(s).is_ok()
}

/// `chrono::NaiveDateTime::parse_from_str`, read by whether it succeeds.
#[verifier::external_body]
fn naive_datetime_parses(s: &str, fmt: &str) -> (r: bool)
    ensures
        r == naive_datetime_ok(s@, fmt@),
{
    chrono::NaiveDateTime::parse_from_str(s, fmt).is_ok()
}

/// `serde_json::from_str::<serde_json::Value>`, read by whether it succeeds.
#[verifier::external_body]
fn json_parses(s: &str) -> (r: bool)
    ensures
        r == json_ok(s@),
{
    serde_json::from_str::<serde_json::Value>(s).is_ok()
}

/// `chrono_tz::Tz::from_str`, read by whether it succeeds.
#[verifier::external_body]
fn timezone_parses(s: &str) -> (r: bool)
    ensures
        r == timezone_ok(s@),
{
    <chrono_tz::Tz as std::str::FromStr>::from_str(s).is_ok()
}

/// The value matches the regular expression `pattern`; an invalid pattern
/// matches nothing.
pub fn matches_regex(value: &str, pattern: &str) -> (r: bool)
    ensures
        r == (regex_compiles(pattern@) && regex_finds(pattern@, value@)),
{
    match regex_new(pattern) {
        Some(c) => regex_is_match(&c, value),
        None => false,
    }
}

/// The value does not match the regular expression `pattern` (an invalid
/// pattern matches nothing, so every value passes it).
pub fn not_matches_regex(value: &str, pattern: &str) -> (r: bool)
    ensures
        r == !(regex_compiles(pattern@) && regex_finds(pattern@, value@)),
{
    !matches_regex(value, pattern)
}

/// A valid email address (RFC 5321, as the `email_address` crate reads it).
pub fn is_email(value: &str) -> (r: bool)
    ensures
        r == email_ok(value@),
{
    email_is_valid(value)
}

/// `http` or `https`.
pub open spec fn spec_is_web_scheme(scheme: Seq<char>) -> bool {
    scheme == seq!['h', 't', 't', 'p'] || scheme == seq!['h', 't', 't', 'p', 's']
}

/// The scheme is `http` or `https`.
pub fn is_web_scheme(scheme: &str) -> (r: bool)
    ensures
        r == spec_is_web_scheme(scheme@),
{
    proof {
        reveal_strlit("http");
        reveal_strlit("https");
        assert("http"@ =~= seq!['h', 't', 't', 'p']);
        assert("https"@ =~= seq!['h', 't', 't', 'p', 's']);
    }
    str_eq(scheme, "http") || str_eq(scheme, "https")
}

/// A URL (WHATWG URL standard, as the `url` crate reads it) with scheme
/// `http` or `https`.
pub fn is_url(value: &str) -> (r: bool)
    ensures
        r == (url_scheme(value@) matches Some(sc) && spec_is_web_scheme(sc)),
{
    match url_parse_scheme(value) {
        Some(sc) => is_web_scheme(sc.as_str()),
        None => false,
    }
}

/// A UUID of any version (as the `uuid` crate reads it).
pub fn is_uuid(value: &str) -> (r: bool)
    ensures
        r == uuid_ok(value@),
{
    uuid_parses(value)
}

/// A ULID (as the `ulid` crate reads it).
pub fn is_ulid(value: &str) -> (r: bool)
    ensures
        r == spec_is_ulid(value@),
{
    ulid_parses(value)
}

/// The format of an ISO 8601 calendar date.
pub open spec fn date_format() -> Seq<char> {
    seq!['%', 'Y', '-', '%', 'm', '-', '%', 'd']
}

/// The format of an ISO 8601 date and time without offset.
pub open spec fn datetime_format() -> Seq<char> {
    seq!['%', 'Y', '-', '%', 'm', '-', '%', 'd', 'T', '%', 'H', ':', '%', 'M', ':', '%', 'S']
}

/// The format of an ISO 8601 date and time with fractional seconds.
pub open spec fn datetime_fraction_format() -> Seq<char> {
    datetime_format() + seq!['%', '.', 'f']
}

/// An ISO 8601 date `YYYY-MM-DD` that exists in the calendar.
pub fn is_iso_date(value: &str) -> (r: bool)
    ensures
        r == (parsed_date(value@, date_format()) is Some),
{
    proof {
        reveal_strlit("%Y-%m-%d");
        assert("%Y-%m-%d"@ =~= date_format());
    }
    naive_date_parse(value, "%Y-%m-%d").is_some()
}

/// An ISO 8601 date and time: RFC 3339 with an offset, or
/// `YYYY-MM-DDTHH:MM:SS` with optional fractional seconds.
pub fn is_iso_datetime(value: &str) -> (r: bool)
    ensures
        r == (rfc3339_ok(value@) || naive_datetime_ok(value@, datetime_format())
            || naive_datetime_ok(value@, datetime_fraction_format())),
{
    if rfc3339_parses(value) {
        return true;
    }
    proof {
        reveal_strlit("%Y-%m-%dT%H:%M:%S");
        reveal_strlit("%Y-%m-%dT%H:%M:%S%.f");
        assert("%Y-%m-%dT%H:%M:%S"@ =~= datetime_format());
        assert("%Y-%m-%dT%H:%M:%S%.f"@ =~= datetime_fraction_format());
    }
    naive_datetime_parses(value, "%Y-%m-%dT%H:%M:%S")
        || naive_datetime_parses(value, "%Y-%m-%dT%H:%M:%S%.f")
}

/// The text before the first `T` (all of it when there is none).
pub open spec fn date_part(s: Seq<char>) -> Seq<char> {
    match first_index_of(s, 'T') {
        Some(k) => s.take(k),
        None => s,
    }
}

/// Chronological order of two (year, month, day) dates.
pub open spec fn date_order(a: (i32, u32, u32), b: (i32, u32, u32)) -> Order {
    if a.0 != b.0 {
        int_order(a.0 as int, b.0 as int)
    } else if a.1 != b.1 {
        int_order(a.1 as int, b.1 as int)
    } else {
        int_order(a.2 as int, b.2 as int)
    }
}

/// How the dates of `a` and `b` compare: each is read from its text before
/// `T` as `YYYY-MM-DD`; `None` when either does not read.
pub open spec fn spec_compare_dates(a: Seq<char>, b: Seq<char>) -> Option<Order> {
    match (parsed_date(date_part(a), date_format()), parsed_date(date_part(b), date_format())) {
        (Some(x), Some(y)) => Some(date_order(x, y)),
        _ => None,
    }
}

/// The text of `s` before its first `T`.
fn date_text(s: &str) -> (r: &str)
    ensures
        r@ == date_part(s@),
{
    match find_char(s, 'T') {
        Some(k) => {
            let r = s.substring_char(0, k);
            assert(r@ =~= s@.take(k as int));
            r
        },
        None => s,
    }
}

/// Chronological order of two (year, month, day) dates.
pub fn compare_date_fields(a: (i32, u32, u32), b: (i32, u32, u32)) -> (r: Order)
    ensures
        r == date_order(a, b),
{
    let (ay, am, ad) = a;
    let (by, bm, bd) = b;
    if ay != by {
        if ay < by { Order::Less } else { Order::Greater }
    } else if am != bm {
        if am < bm { Order::Less } else { Order::Greater }
    } else if ad < bd {
        Order::Less
    } else if ad == bd {
        Order::Equal
    } else {
        Order::Greater
    }
}

/// How the dates of `a` and `b` compare, if both read as dates.
fn compare_dates(a: &str, b: &str) -> (r: Option<Order>)
    ensures
        r == spec_compare_dates(a@, b@),
{
    proof {
        reveal_strlit("%Y-%m-%d");
        assert("%Y-%m-%d"@ =~= date_format());
    }
    let da = match naive_date_parse(date_text(a), "%Y-%m-%d") {
        Some(d) => d,
        None => {
            return None;
        },
    };
    let db = match naive_date_parse(date_text(b), "%Y-%m-%d") {
        Some(d) => d,
        None => {
            return None;
        },
    };
    Some(compare_date_fields(da, db))
}

/// The date is before the other date.
pub fn is_before(value: &str, other: &str) -> (r: bool)
    ensures
        r == (spec_compare_dates(value@, other@) == Some(Order::Less)),
{
    match compare_dates(value, other) {
        Some(Order::Less) => true,
        _ => false,
    }
}

/// The date is after the other date.
pub fn is_after(value: &str, other: &str) -> (r: bool)
    ensures
        r == (spec_compare_dates(value@, other@) == Some(Order::Greater)),
{
    match compare_dates(value, other) {
        Some(Order::Greater) => true,
        _ => false,
    }
}

/// The date is before or equal to the other date.
pub fn is_before_or_equal(value: &str, other: &str) -> (r: bool)
    ensures
        r == (spec_compare_dates(value@, other@) matches Some(o) && o != Order::Greater),
{
    match compare_dates(value, other) {
        Some(Order::Greater) => false,
        Some(_) => true,
        None => false,
    }
}

/// The date is after or equal to the other date.
pub fn is_after_or_equal(value: &str, other: &str) -> (r: bool)
    ensures
        r == (spec_compare_dates(value@, other@) matches Some(o) && o != Order::Less),
{
    match compare_dates(value, other) {
        Some(Order::Less) => false,
        Some(_) => true,
        None => false,
    }
}

/// The date equals the other date.
pub fn is_date_equals(value: &str, other: &str) -> (r: bool)
    ensures
        r == (spec_compare_dates(value@, other@) == Some(Order::Equal)),
{
    match compare_dates(value, other) {
        Some(Order::Equal) => true,
        _ => false,
    }
}

/// Swapping the two dates reverses their order: `a` is before `b` exactly
/// when `b` is after `a`, and they are equal in either order.
pub proof fn lemma_date_order_converse(a: Seq<char>, b: Seq<char>)
    ensures
        (spec_compare_dates(a, b) == Some(Order::Less)) == (spec_compare_dates(b, a) == Some(Order::Greater)),
        (spec_compare_dates(a, b) == Some(Order::Equal)) == (spec_compare_dates(b, a) == Some(Order::Equal)),
        (spec_compare_dates(a, b) matches Some(o) && o != Order::Greater)
            == (spec_compare_dates(b, a) matches Some(o) && o != Order::Less),
{
}

/// Two dates that both read compare in exactly one way.
pub proof fn lemma_date_trichotomy(a: Seq<char>, b: Seq<char>)
    requires
        spec_compare_dates(a, b) is Some,
    ensures
        (spec_compare_dates(a, b) == Some(Order::Less)) as int
            + (spec_compare_dates(a, b) == Some(Order::Equal)) as int
            + (spec_compare_dates(a, b) == Some(Order::Greater)) as int == 1,
{
}

/// Six pairs of hex digits separated by `:` (or by `-` when there is no `:`).
pub open spec fn spec_is_mac_address(s: Seq<char>) -> bool {
    let sep = if s.contains(':') { ':' } else { '-' };
    &&& s.contains(':') || s.contains('-')
    &&& s.len() == 17
    &&& forall|i: int| 0 <= i < 17 ==> if i % 3 == 2 { s[i] == sep } else { is_ascii_hexdigit(#[trigger] s[i]) }
}

/// The character is an ASCII hex digit.
fn hex_digit(c: char) -> (r: bool)
    ensures
        r == is_ascii_hexdigit(c),
{
    ('0' <= c && c <= '9') || ('a' <= c && c <= 'f') || ('A' <= c && c <= 'F')
}

/// A MAC address: `XX:XX:XX:XX:XX:XX` or `XX-XX-XX-XX-XX-XX`.
pub fn is_mac_address(value: &str) -> (r: bool)
    ensures
        r == spec_is_mac_address(value@),
{
    let sep = if find_char(value, ':').is_some() {
        ':'
    } else if find_char(value, '-').is_some() {
        '-'
    } else {
        return false;
    };
    proof {
        assert(value@.contains(':') == (first_index_of(value@, ':') is Some));
        assert(value@.contains('-') == (first_index_of(value@, '-') is Some));
    }
    let n = value.unicode_len();
    if n != 17 {
        return false;
    }
    let mut i: usize = 0;
    while i < 17
        invariant
            n == value@.len(),
            n == 17,
            i <= 17,
            sep == (if value@.contains(':') { ':' } else { '-' }),
            forall|j: int| 0 <= j < i ==> if j % 3 == 2 { value@[j] == sep } else { is_ascii_hexdigit(#[trigger] value@[j]) },
        decreases 17 - i,
    {
        let c = value.get_char(i);
        if i % 3 == 2 {
            if c != sep {
                return false;
            }
        } else if !hex_digit(c) {
            return false;
        }
        i = i + 1;
    }
    true
}

/// Only ASCII characters.
pub fn is_ascii(value: &str) -> (r: bool)
    ensures
        r == vstd::string::is_ascii(value),
{
    value.is_ascii()
}

/// `#` followed by exactly 3, 6 or 8 hex digits.
pub open spec fn spec_is_hex_color(s: Seq<char>) -> bool {
    &&& s.len() == 4 || s.len() == 7 || s.len() == 9
    &&& s[0] == '#'
    &&& forall|i: int| 1 <= i < s.len() ==> is_ascii_hexdigit(#[trigger] s[i])
}

/// A hex color: `#RGB`, `#RRGGBB` or `#RRGGBBAA`.
pub fn is_hex_color(value: &str) -> (r: bool)
    ensures
        r == spec_is_hex_color(value@),
{
    let n = value.unicode_len();
    if n == 0 || value.get_char(0) != '#' {
        return false;
    }
    if !(n == 4 || n == 7 || n == 9) {
        return false;
    }
    let mut i: usize = 1;
    while i < n
        invariant
            n == value@.len(),
            1 <= i <= n,
            forall|j: int| 1 <= j < i ==> is_ascii_hexdigit(#[trigger] value@[j]),
        decreases n - i,
    {
        if !hex_digit(value.get_char(i)) {
            return false;
        }
        i = i + 1;
    }
    true
}

/// Valid JSON (as `serde_json` reads it).
pub fn is_json(value: &str) -> (r: bool)
    ensures
        r == json_ok(value@),
{
    json_parses(value)
}

/// A timezone name of the IANA database (as `chrono-tz` knows it).
pub fn is_timezone(value: &str) -> (r: bool)
    ensures
        r == timezone_ok(value@),
{
    timezone_parses(value)
}

} // verus!
