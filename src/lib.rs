//! Matching of fixed-width unsigned words against hexadecimal patterns in
//! which alphanumeric characters other than hex digits act as wildcards.
//!
//! - `digits` splits a word into its hexadecimal digits.
//! - `pattern` parses pattern text into literal and wildcard symbols.
//! - `resolve` decides a match under one of three wildcard policies.
//! - `word` holds a value with its digits and offers the matching calls.
//! - `laws` states what holds of every word and pattern.

pub mod chars;
pub mod digits;
pub mod laws;
pub mod pattern;
pub mod resolve;
pub mod word;

pub use digits::Morskable;
pub use pattern::{MatchError, Pattern, PatternSymbol};
pub use resolve::Policy;
pub use word::{mvh, Word};
