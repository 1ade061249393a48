use vstd::prelude::*;

use crate::digits::{nibbles, Morskable};
use crate::pattern::{front_end_spec, parse_spec, validate_hex, MatchError, Pattern};
use crate::resolve::{policy_of_operator, resolve, resolve_spec, Policy};

verus! {

/// A word together with its hexadecimal digits, most significant first,
/// computed once when the word is made.
pub struct Word<T: Morskable> {
    word: T,
    hex_digits: Vec<u8>,
}

/// The digits of the word `v`.
pub open spec fn digits_of<T: Morskable>(v: T) -> Seq<u8> {
    nibbles(v.spec_value(), T::spec_digit_count())
}

/// The outcome of matching the digits `d` against the pattern text `t`.
pub open spec fn morsk_spec(d: Seq<u8>, t: Seq<char>, policy: Policy) -> Result<bool, MatchError> {
    match parse_spec(t, d.len()) {
        Err(e) => Err(e),
        Ok(p) => resolve_spec(d, p, policy),
    }
}

/// The outcome of the infix form `word op text`: the text must be a valid
/// literal with a `0x` prefix, and the operator must select a policy.
pub open spec fn mvh_spec(d: Seq<u8>, op: char, t: Seq<char>) -> Result<bool, MatchError> {
    match front_end_spec(t) {
        Err(e) => Err(e),
        Ok(_) => match policy_of_operator(op) {
            None => Err(MatchError::UnsupportedOperator),
            Some(policy) => morsk_spec(d, t, policy),
        },
    }
}

/// Matches `word` against the literal `hex` under the policy that the infix
/// operator `op` selects: `|` inclusive, `^` exclusive, `&` single.
pub fn mvh<T: Morskable>(word: &Word<T>, op: char, hex: &str) -> (r: Result<bool, MatchError>)
    ensures
        r == mvh_spec(digits_of(word@), op, hex@),
{
    if let Err(e) = validate_hex(hex) {
        return Err(e);
    }
    match Policy::from_operator(op) {
        None => Err(MatchError::UnsupportedOperator),
        Some(policy) => word.morsk(hex, policy),
    }
}

impl<T: Morskable> View for Word<T> {
    type V = T;

    closed spec fn view(&self) -> T {
        self.word
    }
}

impl<T: Morskable> Word<T> {
    #[verifier::type_invariant]
    spec fn digits_match(&self) -> bool {
        self.hex_digits@ == digits_of(self.word)
    }

    /// Makes the word of `value`.
    pub fn new(value: T) -> (r: Word<T>)
        ensures
            r@ == value,
    {
        Word { word: value, hex_digits: value.hex_digits() }
    }

    /// The value of the word.
    pub fn value(&self) -> (r: T)
        ensures
            r == self@,
    {
        self.word
    }

    /// The hexadecimal digits of the word, most significant first.
    pub fn hex_digits(&self) -> (r: &Vec<u8>)
        ensures
            r@ == digits_of(self@),
    {
        proof {
            use_type_invariant(self);
        }
        &self.hex_digits
    }

    /// Matches the word against the pattern text `pattern`, with or without a
    /// leading `0x`, under `policy`.
    pub fn morsk(&self, pattern: &str, policy: Policy) -> (r: Result<bool, MatchError>)
        ensures
            r == morsk_spec(digits_of(self@), pattern@, policy),
    {
        proof {
            use_type_invariant(self);
        }
        let parsed = Pattern::parse(pattern, self.hex_digits.len());
        match parsed {
            Err(e) => Err(e),
            Ok(p) => resolve(&self.hex_digits, &p, policy),
        }
    }
}

impl<T: Morskable> From<T> for Word<T> {
    fn from(value: T) -> (r: Word<T>)
        ensures
            r@ == value,
    {
        Word::new(value)
    }
}

impl<T: Morskable> vstd::std_specs::convert::FromSpecImpl<T> for Word<T> {
    open spec fn obeys_from_spec() -> bool {
        false
    }

    open spec fn from_spec(v: T) -> Word<T> {
        arbitrary()
    }
}

impl<T: Morskable> core::ops::Deref for Word<T> {
    type Target = T;

    fn deref(&self) -> (r: &T)
        ensures
            *r == self@,
    {
        &self.word
    }
}

} // verus!
