//! Built-in validation rule predicates.
//!
//! - [`presence`]: `required`, `filled`, `accepted`, `declined`
//! - [`string`]: `alpha`, `uppercase`, `contains`, `starts_with`, length checks
//! - [`numeric`]: `min`/`max` value, `digits`, `decimal`
//! - [`binary64`]: floating-point values by their bit patterns
//! - [`mod@format`]: `email`, `url`, `uuid`, dates, `hex_color`, `regex`
//! - [`comparison`]: `same`, `different`, `gt`/`gte`/`lt`/`lte`, `in_list`, `distinct`
pub mod binary64;
pub mod comparison;
pub mod format;
pub mod ip;
pub mod numeric;
pub mod presence;
pub mod string;
