use vstd::prelude::*;

use crate::chars::lower_of;
use crate::digits::{lemma_nibbles_shape, Morskable};
use crate::pattern::{parse_spec, parsed_from, symbol_of, strip_prefix, MatchError, Pattern, PatternSymbol};
use crate::resolve::{is_wild, key_at, keys_consistent, keys_exclusive, literals_hold, multiple_keys, Policy};
use crate::word::{digits_of, morsk_spec};

verus! {

/// The upper-case hexadecimal character of the nibble `v`.
pub open spec fn hex_char(v: u8) -> char {
    if v < 10 {
        ('0' as u32 + v as u32) as char
    } else {
        ('A' as u32 + v as u32 - 10) as char
    }
}

/// The hexadecimal text of the digits `d`, without prefix.
pub open spec fn render(d: Seq<u8>) -> Seq<char> {
    d.map_values(|v: u8| hex_char(v))
}

/// The text `0x` followed by `n` copies of the character `c`.
pub open spec fn repeated(c: char, n: nat) -> Seq<char> {
    seq!['0', 'x'] + Seq::new(n, |i: int| c)
}

/// A pattern that is the exact hexadecimal text of a word, with or without
/// `0x`, matches that word under every policy.
pub proof fn lemma_exact_rendering_matches<T: Morskable>(w: T, policy: Policy)
    ensures
        morsk_spec(digits_of(w), seq!['0', 'x'] + render(digits_of(w)), policy) == Ok::<bool, MatchError>(true),
        morsk_spec(digits_of(w), render(digits_of(w)), policy) == Ok::<bool, MatchError>(true),
{
    let d = digits_of(w);
    lemma_nibbles_shape(w.spec_value(), T::spec_digit_count());
    let r = render(d);
    let lits = d.map_values(|v: u8| PatternSymbol::Literal(v));
    assert forall|i: int| 0 <= i < r.len() implies #[trigger] symbol_of(r[i]) == Some(
        PatternSymbol::Literal(d[i]),
    ) by {
        assert(d[i] < 16);
    }
    assert(!(r.len() >= 2 && r[0] == '0' && r[1] == 'x')) by {
        if r.len() >= 2 {
            assert(d[1] < 16);
        }
    }
    let t = seq!['0', 'x'] + r;
    assert(strip_prefix(t) =~= r);
    assert(strip_prefix(r) =~= r);
    assert(r.map_values(|c: char| symbol_of(c)->0) =~= lits);
    assert(parse_spec(t, d.len()) == Ok::<Seq<PatternSymbol>, MatchError>(lits));
    assert(parse_spec(r, d.len()) == Ok::<Seq<PatternSymbol>, MatchError>(lits));
    assert(!multiple_keys(lits));
}

/// A pattern with a literal that differs from the word's digit at its
/// position never matches: under the single policy it may instead be
/// refused for holding several wildcard keys.
pub proof fn lemma_literal_mismatch_fails<T: Morskable>(w: T, t: Seq<char>, policy: Policy, i: int)
    requires
        parse_spec(t, digits_of(w).len()) is Ok,
        0 <= i < digits_of(w).len(),
        parse_spec(t, digits_of(w).len())->Ok_0[i] is Literal,
        parse_spec(t, digits_of(w).len())->Ok_0[i]->Literal_0 != digits_of(w)[i],
    ensures
        morsk_spec(digits_of(w), t, policy) != Ok::<bool, MatchError>(true),
        policy != Policy::Single ==> morsk_spec(digits_of(w), t, policy) == Ok::<bool, MatchError>(false),
{
    let p = parse_spec(t, digits_of(w).len())->Ok_0;
    assert(p[i] is Literal);
}

/// Parsing is a function of the text and the digit count: two parses of the
/// same text give equal patterns, or the same error.
pub proof fn lemma_parse_idempotent(t: Seq<char>, n: nat, a: Result<Pattern, MatchError>, b: Result<Pattern, MatchError>)
    requires
        parsed_from(a, t, n),
        parsed_from(b, t, n),
    ensures
        a is Ok <==> b is Ok,
        a is Ok ==> a->Ok_0@ == b->Ok_0@,
        a is Err ==> a->Err_0 == b->Err_0,
{
}

/// Matching is a function of the word, the text and the policy.
pub proof fn lemma_match_deterministic<T: Morskable>(
    w: T,
    t: Seq<char>,
    policy: Policy,
    a: Result<bool, MatchError>,
    b: Result<bool, MatchError>,
)
    requires
        a == morsk_spec(digits_of(w), t, policy),
        b == morsk_spec(digits_of(w), t, policy),
    ensures
        a == b,
{
}

/// A pattern made of one wildcard character only matches every word under the
/// single policy; under the other two it matches exactly the words whose
/// digits are all equal, since its one key must bind to one digit.
pub proof fn lemma_single_key_pattern<T: Morskable>(w: T, c: char, policy: Policy)
    requires
        symbol_of(c) is Some,
        symbol_of(c)->0 is Wildcard,
    ensures
        policy == Policy::Single ==> morsk_spec(digits_of(w), repeated(c, digits_of(w).len()), policy) == Ok::<bool, MatchError>(true),
        policy != Policy::Single ==> morsk_spec(digits_of(w), repeated(c, digits_of(w).len()), policy) == Ok::<bool, MatchError>(
            forall|i: int, j: int| 0 <= i < digits_of(w).len() && 0 <= j < digits_of(w).len() ==> digits_of(w)[i] == digits_of(w)[j],
        ),
{
    let d = digits_of(w);
    let n = d.len();
    let t = repeated(c, n);
    let s = Seq::new(n, |i: int| c);
    assert(strip_prefix(t) =~= s);
    let sym = symbol_of(c)->0;
    let p = Seq::new(n, |i: int| sym);
    assert(s.map_values(|x: char| symbol_of(x)->0) =~= p);
    assert(parse_spec(t, n) == Ok::<Seq<PatternSymbol>, MatchError>(p));
    assert(!multiple_keys(p));
    assert forall|i: int| 0 <= i < n implies #[trigger] is_wild(p, i) && key_at(p, i) == lower_of(sym->Wildcard_0) by {}
    assert(literals_hold(d, p));
    assert(keys_exclusive(d, p));
    if keys_consistent(d, p) {
        assert forall|i: int, j: int| 0 <= i < n && 0 <= j < n implies d[i] == d[j] by {
            assert(is_wild(p, i) && is_wild(p, j));
        }
    }
}

} // verus!
