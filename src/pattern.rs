use vstd::prelude::*;
use vstd::string::StrSliceExecFns;

use crate::chars::{alphanumeric, is_alnum};

verus! {

const ASCII_ZERO: u8 = 48;
const ASCII_UPPER_A: u8 = 65;
const ASCII_LOWER_A: u8 = 97;

/// One position of a pattern.
#[derive(Clone, Copy, Debug, PartialEq, Eq, Structural)]
pub enum PatternSymbol {
    /// The digit at this position must be exactly this nibble.
    Literal(u8),
    /// The digit at this position belongs to the wildcard class of this
    /// character: characters with the same lower-case mapping share one.
    Wildcard(char),
}

/// Why a pattern could not be used.
#[derive(Clone, Copy, Debug, PartialEq, Eq, Structural)]
pub enum MatchError {
    /// The pattern has another number of digits than the word.
    LengthMismatch,
    /// The pattern holds a character that is neither a letter nor a digit.
    InvalidCharacter,
    /// The pattern text does not start with `0x`.
    MissingPrefix,
    /// The single-wildcard policy met more than one wildcard key.
    MultipleWildcardKeys,
    /// The infix operator selects no policy.
    UnsupportedOperator,
}

/// A parsed pattern: one symbol per digit of the word it is matched against.
#[derive(Debug)]
pub struct Pattern {
    symbols: Vec<PatternSymbol>,
}

impl View for Pattern {
    type V = Seq<PatternSymbol>;

    closed spec fn view(&self) -> Seq<PatternSymbol> {
        self.symbols@
    }
}

/// What one pattern character stands for: a hex digit is a literal, any
/// other alphanumeric character a wildcard, anything else `None`.
pub open spec fn symbol_of(c: char) -> Option<PatternSymbol> {
    if '0' <= c <= '9' {
        Some(PatternSymbol::Literal((c as u32 - '0' as u32) as u8))
    } else if 'a' <= c <= 'f' {
        Some(PatternSymbol::Literal((c as u32 - 'a' as u32 + 10) as u8))
    } else if 'A' <= c <= 'F' {
        Some(PatternSymbol::Literal((c as u32 - 'A' as u32 + 10) as u8))
    } else if is_alnum(c) {
        Some(PatternSymbol::Wildcard(c))
    } else {
        None
    }
}

/// The text with a leading `0x` removed, if it has one.
pub open spec fn strip_prefix(t: Seq<char>) -> Seq<char> {
    if t.len() >= 2 && t[0] == '0' && t[1] == 'x' {
        t.skip(2)
    } else {
        t
    }
}

/// Whether every character of `s` is alphanumeric.
pub open spec fn all_symbols(s: Seq<char>) -> bool {
    forall|i: int| 0 <= i < s.len() ==> (#[trigger] symbol_of(s[i])) is Some
}

/// The pattern that the text `t` denotes for a word of `n` digits.
pub open spec fn parse_spec(t: Seq<char>, n: nat) -> Result<Seq<PatternSymbol>, MatchError> {
    let s = strip_prefix(t);
    if !all_symbols(s) {
        Err(MatchError::InvalidCharacter)
    } else if s.len() != n {
        Err(MatchError::LengthMismatch)
    } else {
        Ok(s.map_values(|c: char| symbol_of(c)->0))
    }
}

/// `r` is what parsing the text `t` for `n` digits gives.
pub open spec fn parsed_from(r: Result<Pattern, MatchError>, t: Seq<char>, n: nat) -> bool {
    match r {
        Ok(p) => parse_spec(t, n) == Ok::<Seq<PatternSymbol>, MatchError>(p@),
        Err(e) => parse_spec(t, n) == Err::<Seq<PatternSymbol>, MatchError>(e),
    }
}

/// The verdict of the textual front-end on a pattern literal: it must start
/// with `0x`, hold at least one character after it, and consist of
/// alphanumeric characters only.
pub open spec fn front_end_spec(t: Seq<char>) -> Result<(), MatchError> {
    if !(t.len() >= 2 && t[0] == '0' && t[1] == 'x') {
        Err(MatchError::MissingPrefix)
    } else if t.len() < 3 {
        Err(MatchError::LengthMismatch)
    } else if !all_symbols(t) {
        Err(MatchError::InvalidCharacter)
    } else {
        Ok(())
    }
}

/// What the character `c` stands for in a pattern.
fn symbol_of_char(c: char) -> (r: Option<PatternSymbol>)
    ensures
        r == symbol_of(c),
{
    if '0' <= c && c <= '9' {
        Some(PatternSymbol::Literal((c as u8) - ASCII_ZERO))
    } else if 'a' <= c && c <= 'f' {
        Some(PatternSymbol::Literal((c as u8) - ASCII_LOWER_A + 10))
    } else if 'A' <= c && c <= 'F' {
        Some(PatternSymbol::Literal((c as u8) - ASCII_UPPER_A + 10))
    } else if alphanumeric(c) {
        Some(PatternSymbol::Wildcard(c))
    } else {
        None
    }
}

/// Whether every character of `text` from position `start` on is
/// alphanumeric.
fn all_symbols_from(text: &str, start: usize) -> (r: bool)
    requires
        start <= text@.len(),
    ensures
        r == forall|i: int| start <= i < text@.len() ==> (#[trigger] symbol_of(text@[i])) is Some,
{
    let len = text.unicode_len();
    let mut i = start;
    while i < len
        invariant
            len == text@.len(),
            start <= i <= len,
            forall|k: int| start <= k < i ==> (#[trigger] symbol_of(text@[k])) is Some,
        decreases len - i,
    {
        if symbol_of_char(text.get_char(i)).is_none() {
            return false;
        }
        i += 1;
    }
    true
}

/// Whether `text` starts with `0x`.
fn has_prefix(text: &str) -> (r: bool)
    ensures
        r == (text@.len() >= 2 && text@[0] == '0' && text@[1] == 'x'),
{
    text.unicode_len() >= 2 && text.get_char(0) == '0' && text.get_char(1) == 'x'
}

/// Checks a pattern literal as the textual front-end takes it.
pub fn validate_hex(text: &str) -> (r: Result<(), MatchError>)
    ensures
        r == front_end_spec(text@),
{
    if !has_prefix(text) {
        return Err(MatchError::MissingPrefix);
    }
    if text.unicode_len() < 3 {
        return Err(MatchError::LengthMismatch);
    }
    if !all_symbols_from(text, 0) {
        return Err(MatchError::InvalidCharacter);
    }
    Ok(())
}

impl Pattern {
    /// Parses `text`, with or without a leading `0x`, as a pattern for a word
    /// of `digit_count` hexadecimal digits.
    pub fn parse(text: &str, digit_count: usize) -> (r: Result<Pattern, MatchError>)
        ensures
            parsed_from(r, text@, digit_count as nat),
    {
        let ghost t = text@;
        let len = text.unicode_len();
        let start: usize = if has_prefix(text) { 2 } else { 0 };
        let ghost s = strip_prefix(t);
        assert(s =~= t.skip(start as int));
        if !all_symbols_from(text, start) {
            assert(!all_symbols(s)) by {
                let i = choose|i: int| start <= i < t.len() && !(#[trigger] symbol_of(t[i]) is Some);
                assert(s[i - start] == t[i]);
            }
            return Err(MatchError::InvalidCharacter);
        }
        assert(all_symbols(s)) by {
            assert forall|i: int| 0 <= i < s.len() implies (#[trigger] symbol_of(s[i])) is Some by {
                assert(s[i] == t[i + start]);
            }
        }
        if len - start != digit_count {
            return Err(MatchError::LengthMismatch);
        }
        let mut symbols: Vec<PatternSymbol> = Vec::new();
        let mut i = start;
        while i < len
            invariant
                len == t.len(),
                t == text@,
                start <= i <= len,
                s == t.skip(start as int),
                all_symbols(s),
                symbols@ =~= s.take(i - start).map_values(|c: char| symbol_of(c)->0),
            decreases len - i,
        {
            let c = text.get_char(i);
            assert(s[i - start] == c);
            assert(symbol_of(s[i - start]) is Some);
            let sym = symbol_of_char(c);
            symbols.push(sym.unwrap());
            i += 1;
            assert(s.take(i - start) =~= s.take(i - 1 - start).push(c));
        }
        assert(s.take(len - start) =~= s);
        Ok(Pattern { symbols })
    }

    /// The number of positions of the pattern.
    pub fn len(&self) -> (r: usize)
        ensures
            r == self@.len(),
    {
        self.symbols.len()
    }

    /// The symbol at position `i`.
    pub fn symbol(&self, i: usize) -> (r: PatternSymbol)
        requires
            i < self@.len(),
        ensures
            r == self@[i as int],
    {
        self.symbols[i]
    }
}

impl PartialEq for Pattern {
    fn eq(&self, other: &Pattern) -> (r: bool) {
        let n = self.symbols.len();
        if n != other.symbols.len() {
            return false;
        }
        let mut i: usize = 0;
        while i < n
            invariant
                n == self@.len() == other@.len(),
                i <= n,
                forall|k: int| 0 <= k < i ==> self@[k] == other@[k],
            decreases n - i,
        {
            if self.symbols[i] != other.symbols[i] {
                return false;
            }
            i += 1;
        }
        assert(self@ =~= other@);
        true
    }
}

impl vstd::std_specs::cmp::PartialEqSpecImpl for Pattern {
    open spec fn obeys_eq_spec() -> bool {
        true
    }

    open spec fn eq_spec(&self, other: &Pattern) -> bool {
        self@ == other@
    }
}

} // verus!
