use vstd::prelude::*;

use crate::chars::{lower_of, same_lower};
use crate::pattern::{MatchError, Pattern, PatternSymbol};

verus! {

/// How the wildcards of a pattern bind to the digits they cover.
#[derive(Clone, Copy, Debug, PartialEq, Eq, Structural)]
pub enum Policy {
    /// Each wildcard key stands for one digit; distinct keys may stand
    /// for the same digit.
    Inclusive,
    /// Each wildcard key stands for one digit, and distinct keys for
    /// distinct digits.
    Exclusive,
    /// Only one wildcard key may occur, and each of its occurrences stands
    /// for any digit.
    Single,
}

/// The policy that the infix operator `op` selects, if any.
pub open spec fn policy_of_operator(op: char) -> Option<Policy> {
    if op == '|' {
        Some(Policy::Inclusive)
    } else if op == '^' {
        Some(Policy::Exclusive)
    } else if op == '&' {
        Some(Policy::Single)
    } else {
        None
    }
}

impl Policy {
    /// The policy that an infix operator selects: `|` inclusive, `^`
    /// exclusive, `&` single.
    pub fn from_operator(op: char) -> (r: Option<Policy>)
        ensures
            r == policy_of_operator(op),
    {
        if op == '|' {
            Some(Policy::Inclusive)
        } else if op == '^' {
            Some(Policy::Exclusive)
        } else if op == '&' {
            Some(Policy::Single)
        } else {
            None
        }
    }
}

/// Whether position `i` of `p` is a wildcard.
pub open spec fn is_wild(p: Seq<PatternSymbol>, i: int) -> bool {
    0 <= i < p.len() && p[i] is Wildcard
}

/// The key of the wildcard at position `i` of `p`: the lower-case mapping of
/// its character.
pub open spec fn key_at(p: Seq<PatternSymbol>, i: int) -> Seq<char> {
    lower_of(p[i]->Wildcard_0)
}

/// Every literal of `p` equals the digit of `d` at its position.
pub open spec fn literals_hold(d: Seq<u8>, p: Seq<PatternSymbol>) -> bool {
    forall|i: int|
        0 <= i < p.len() && (#[trigger] p[i]) is Literal ==> d[i] == p[i]->Literal_0
}

/// Every wildcard key of `p` covers one digit value of `d` only.
pub open spec fn keys_consistent(d: Seq<u8>, p: Seq<PatternSymbol>) -> bool {
    forall|i: int, j: int|
        #![trigger is_wild(p, i), is_wild(p, j)]
        is_wild(p, i) && is_wild(p, j) && key_at(p, i) == key_at(p, j) ==> d[i] == d[j]
}

/// Distinct wildcard keys of `p` cover distinct digit values of `d`.
pub open spec fn keys_exclusive(d: Seq<u8>, p: Seq<PatternSymbol>) -> bool {
    forall|i: int, j: int|
        #![trigger is_wild(p, i), is_wild(p, j)]
        is_wild(p, i) && is_wild(p, j) && key_at(p, i) != key_at(p, j) ==> d[i] != d[j]
}

/// `p` holds two distinct wildcard keys.
pub open spec fn multiple_keys(p: Seq<PatternSymbol>) -> bool {
    exists|i: int, j: int|
        #![trigger is_wild(p, i), is_wild(p, j)]
        is_wild(p, i) && is_wild(p, j) && key_at(p, i) != key_at(p, j)
}

/// Whether the digits `d` match the pattern `p` under `policy`.
pub open spec fn matches_spec(d: Seq<u8>, p: Seq<PatternSymbol>, policy: Policy) -> bool {
    literals_hold(d, p) && match policy {
        Policy::Inclusive => keys_consistent(d, p),
        Policy::Exclusive => keys_consistent(d, p) && keys_exclusive(d, p),
        Policy::Single => true,
    }
}

/// The outcome of matching the digits `d` against the parsed pattern `p`.
pub open spec fn resolve_spec(d: Seq<u8>, p: Seq<PatternSymbol>, policy: Policy) -> Result<
    bool,
    MatchError,
> {
    if policy == Policy::Single && multiple_keys(p) {
        Err(MatchError::MultipleWildcardKeys)
    } else {
        Ok(matches_spec(d, p, policy))
    }
}

/// Whether the pattern holds two distinct wildcard keys.
pub fn has_multiple_keys(pattern: &Pattern) -> (r: bool)
    ensures
        r == multiple_keys(pattern@),
{
    let ghost p = pattern@;
    let n = pattern.len();
    let mut first: Option<char> = None;
    let ghost mut first_at: int = 0;
    let mut i: usize = 0;
    while i < n
        invariant
            n == p.len(),
            p == pattern@,
            i <= n,
            first is None ==> forall|k: int| 0 <= k < i ==> !(#[trigger] is_wild(p, k)),
            first is Some ==> is_wild(p, first_at) && key_at(p, first_at) == lower_of(first->0),
            first is Some ==> forall|k: int|
                0 <= k < i && #[trigger] is_wild(p, k) ==> key_at(p, k) == lower_of(first->0),
        decreases n - i,
    {
        if let PatternSymbol::Wildcard(c) = pattern.symbol(i) {
            match first {
                None => {
                    first = Some(c);
                    proof {
                        first_at = i as int;
                    }
                },
                Some(f) => {
                    if !same_lower(f, c) {
                        assert(is_wild(p, first_at) && is_wild(p, i as int));
                        return true;
                    }
                },
            }
        }
        i += 1;
    }
    proof {
        if first is Some {
            assert forall|a: int, b: int| is_wild(p, a) && is_wild(p, b) implies key_at(p, a)
                == key_at(p, b) by {}
        }
    }
    false
}

/// Whether every literal of the pattern equals the digit at its position.
fn literals_match(digits: &Vec<u8>, pattern: &Pattern) -> (r: bool)
    requires
        digits@.len() == pattern@.len(),
    ensures
        r == literals_hold(digits@, pattern@),
{
    let n = pattern.len();
    let mut i: usize = 0;
    while i < n
        invariant
            n == pattern@.len() == digits@.len(),
            i <= n,
            forall|k: int|
                0 <= k < i && (#[trigger] pattern@[k]) is Literal ==> digits@[k]
                    == pattern@[k]->Literal_0,
        decreases n - i,
    {
        if let PatternSymbol::Literal(v) = pattern.symbol(i) {
            if digits[i] != v {
                assert(pattern@[i as int] is Literal);
                return false;
            }
        }
        i += 1;
    }
    true
}

/// `keys_consistent`, over the positions below `n` only.
spec fn consistent_upto(d: Seq<u8>, p: Seq<PatternSymbol>, n: int) -> bool {
    forall|a: int, b: int|
        #![trigger is_wild(p, a), is_wild(p, b)]
        a < n && b < n && is_wild(p, a) && is_wild(p, b) && key_at(p, a) == key_at(p, b) ==> d[a]
            == d[b]
}

/// `keys_exclusive`, over the positions below `n` only.
spec fn exclusive_upto(d: Seq<u8>, p: Seq<PatternSymbol>, n: int) -> bool {
    forall|a: int, b: int|
        #![trigger is_wild(p, a), is_wild(p, b)]
        a < n && b < n && is_wild(p, a) && is_wild(p, b) && key_at(p, a) != key_at(p, b) ==> d[a]
            != d[b]
}

/// Each binding of `t` was observed at a wildcard position below `n`.
spec fn table_sound(d: Seq<u8>, p: Seq<PatternSymbol>, t: Seq<(char, u8)>, n: int) -> bool {
    forall|k: int|
        0 <= k < t.len() ==> exists|j: int|
            #![trigger is_wild(p, j)]
            j < n && is_wild(p, j) && key_at(p, j) == lower_of((#[trigger] t[k]).0) && d[j] == t[k].1
}

/// Each wildcard observation below `n` is recorded in `t`.
spec fn table_complete(d: Seq<u8>, p: Seq<PatternSymbol>, t: Seq<(char, u8)>, n: int) -> bool {
    forall|j: int|
        j < n && #[trigger] is_wild(p, j) ==> exists|k: int|
            0 <= k < t.len() && lower_of((#[trigger] t[k]).0) == key_at(p, j) && t[k].1 == d[j]
}

/// No two bindings of `t` share a key.
spec fn keys_unique(t: Seq<(char, u8)>) -> bool {
    forall|a: int, b: int| 0 <= a < t.len() && 0 <= b < t.len() && a != b ==> lower_of((#[trigger] t[a]).0) != lower_of((#[trigger] t[b]).0)
}

/// No two bindings of `t` share a value.
spec fn values_unique(t: Seq<(char, u8)>) -> bool {
    forall|a: int, b: int| 0 <= a < t.len() && 0 <= b < t.len() && a != b ==> (#[trigger] t[a]).1 != (#[trigger] t[b]).1
}

/// The index of the binding whose key is that of `key` in `table`.
fn find_key(table: &Vec<(char, u8)>, key: char) -> (r: Option<usize>)
    ensures
        r is Some ==> r->0 < table@.len() && lower_of(table@[r->0 as int].0) == lower_of(key),
        r is None ==> forall|k: int| 0 <= k < table@.len() ==> lower_of((#[trigger] table@[k]).0) != lower_of(key),
{
    let mut i: usize = 0;
    while i < table.len()
        invariant
            i <= table@.len(),
            forall|k: int| 0 <= k < i ==> lower_of((#[trigger] table@[k]).0) != lower_of(key),
        decreases table@.len() - i,
    {
        if same_lower(table[i].0, key) {
            return Some(i);
        }
        i += 1;
    }
    None
}

/// The index of the binding whose value is `value` in `table`.
fn find_value(table: &Vec<(char, u8)>, value: u8) -> (r: Option<usize>)
    ensures
        r is Some ==> r->0 < table@.len() && table@[r->0 as int].1 == value,
        r is None ==> forall|k: int| 0 <= k < table@.len() ==> (#[trigger] table@[k]).1 != value,
{
    let mut i: usize = 0;
    while i < table.len()
        invariant
            i <= table@.len(),
            forall|k: int| 0 <= k < i ==> (#[trigger] table@[k]).1 != value,
        decreases table@.len() - i,
    {
        if table[i].1 == value {
            return Some(i);
        }
        i += 1;
    }
    None
}

/// Walks the wildcard positions, binding each key to the first digit it
/// covers, and reports whether every later occurrence agrees and, when
/// `exclusive`, whether no digit is bound to two keys.
fn bindings_hold(digits: &Vec<u8>, pattern: &Pattern, exclusive: bool) -> (r: bool)
    requires
        digits@.len() == pattern@.len(),
    ensures
        r == (keys_consistent(digits@, pattern@) && (exclusive ==> keys_exclusive(
            digits@,
            pattern@,
        ))),
{
    let ghost d = digits@;
    let ghost p = pattern@;
    let n = pattern.len();
    let mut table: Vec<(char, u8)> = Vec::new();
    let mut i: usize = 0;
    while i < n
        invariant
            n == p.len() == d.len(),
            d == digits@,
            p == pattern@,
            i <= n,
            table_sound(d, p, table@, i as int),
            table_complete(d, p, table@, i as int),
            keys_unique(table@),
            exclusive ==> values_unique(table@),
            consistent_upto(d, p, i as int),
            exclusive ==> exclusive_upto(d, p, i as int),
        decreases n - i,
    {
        let ghost ii = i as int;
        if let PatternSymbol::Wildcard(c) = pattern.symbol(i) {
            let v = digits[i];
            assert(is_wild(p, ii) && key_at(p, ii) == lower_of(c) && d[ii] == v);
            match find_key(&table, c) {
                Some(k) => {
                    let w = table[k].1;
                    if w != v {
                        proof {
                            let j = choose|j: int|
                                #![trigger is_wild(p, j)]
                                j < ii && is_wild(p, j) && key_at(p, j) == lower_of(table@[k as int].0)
                                    && d[j] == table@[k as int].1;
                            assert(is_wild(p, j) && is_wild(p, ii));
                        }
                        return false;
                    }
                    proof {
                        assert forall|b: int| b < ii && #[trigger] is_wild(p, b) && key_at(p, b) == lower_of(c) implies d[b] == v by {
                            let k2 = choose|k2: int| 0 <= k2 < table@.len() && lower_of((#[trigger] table@[k2]).0) == key_at(p, b) && table@[k2].1 == d[b];
                            assert(lower_of(table@[k2].0) == lower_of(table@[k as int].0));
                        }
                        if exclusive {
                            assert forall|b: int| b < ii && #[trigger] is_wild(p, b) && key_at(p, b) != lower_of(c) implies d[b] != v by {
                                let k2 = choose|k2: int| 0 <= k2 < table@.len() && lower_of((#[trigger] table@[k2]).0) == key_at(p, b) && table@[k2].1 == d[b];
                                assert(k2 != k);
                                assert(table@[k2].1 != table@[k as int].1);
                            }
                        }
                        assert(table_complete(d, p, table@, ii + 1)) by {
                            assert(lower_of(table@[k as int].0) == key_at(p, ii) && table@[k as int].1 == d[ii]);
                        }
                        assert(table_sound(d, p, table@, ii + 1)) by {
                            assert forall|k2: int| 0 <= k2 < table@.len() implies exists|j: int|
                                #![trigger is_wild(p, j)]
                                j < ii + 1 && is_wild(p, j) && key_at(p, j) == lower_of((#[trigger] table@[k2]).0) && d[j] == table@[k2].1 by {
                                let j = choose|j: int|
                                    #![trigger is_wild(p, j)]
                                    j < ii && is_wild(p, j) && key_at(p, j) == lower_of(table@[k2].0) && d[j] == table@[k2].1;
                                assert(is_wild(p, j));
                            }
                        }
                    }
                },
                None => {
                    if exclusive {
                        if let Some(k) = find_value(&table, v) {
                            proof {
                                let j = choose|j: int|
                                    #![trigger is_wild(p, j)]
                                    j < ii && is_wild(p, j) && key_at(p, j) == lower_of(table@[k as int].0)
                                        && d[j] == table@[k as int].1;
                                assert(is_wild(p, j) && is_wild(p, ii));
                            }
                            return false;
                        }
                    }
                    let ghost old_table = table@;
                    proof {
                        assert forall|b: int| b < ii && #[trigger] is_wild(p, b) implies key_at(p, b) != lower_of(c) by {
                            let k2 = choose|k2: int| 0 <= k2 < old_table.len() && lower_of((#[trigger] old_table[k2]).0) == key_at(p, b) && old_table[k2].1 == d[b];
                        }
                        if exclusive {
                            assert forall|b: int| b < ii && #[trigger] is_wild(p, b) implies d[b] != v by {
                                let k2 = choose|k2: int| 0 <= k2 < old_table.len() && lower_of((#[trigger] old_table[k2]).0) == key_at(p, b) && old_table[k2].1 == d[b];
                            }
                        }
                    }
                    table.push((c, v));
                    proof {
                        let t = table@;
                        assert(t[old_table.len() as int] == (c, v));
                        assert forall|k2: int| 0 <= k2 < old_table.len() implies #[trigger] t[k2] == old_table[k2] by {}
                        assert(table_sound(d, p, t, ii + 1)) by {
                            assert forall|k2: int| 0 <= k2 < t.len() implies exists|j: int|
                                #![trigger is_wild(p, j)]
                                j < ii + 1 && is_wild(p, j) && key_at(p, j) == lower_of((#[trigger] t[k2]).0) && d[j] == t[k2].1 by {
                                if k2 < old_table.len() {
                                    assert(old_table[k2] == t[k2]);
                                    let j = choose|j: int|
                                        #![trigger is_wild(p, j)]
                                        j < ii && is_wild(p, j) && key_at(p, j) == lower_of(old_table[k2].0) && d[j] == old_table[k2].1;
                                    assert(is_wild(p, j));
                                } else {
                                    assert(is_wild(p, ii));
                                }
                            }
                        }
                        assert(table_complete(d, p, t, ii + 1)) by {
                            assert forall|j: int| j < ii + 1 && #[trigger] is_wild(p, j) implies exists|k2: int|
                                0 <= k2 < t.len() && lower_of((#[trigger] t[k2]).0) == key_at(p, j) && t[k2].1 == d[j] by {
                                if j < ii {
                                    let k2 = choose|k2: int| 0 <= k2 < old_table.len() && lower_of((#[trigger] old_table[k2]).0) == key_at(p, j) && old_table[k2].1 == d[j];
                                    assert(t[k2] == old_table[k2]);
                                } else {
                                    assert(lower_of(t[old_table.len() as int].0) == key_at(p, j) && t[old_table.len() as int].1 == d[j]);
                                }
                            }
                        }
                    }
                },
            }
        } else {
            proof {
                assert(!is_wild(p, ii));
                assert(table_complete(d, p, table@, ii + 1)) by {
                    assert forall|j: int| j < ii + 1 && #[trigger] is_wild(p, j) implies exists|k2: int|
                        0 <= k2 < table@.len() && lower_of((#[trigger] table@[k2]).0) == key_at(p, j) && table@[k2].1 == d[j] by {
                        assert(j < ii);
                    }
                }
                assert(table_sound(d, p, table@, ii + 1)) by {
                    assert forall|k2: int| 0 <= k2 < table@.len() implies exists|j: int|
                        #![trigger is_wild(p, j)]
                        j < ii + 1 && is_wild(p, j) && key_at(p, j) == lower_of((#[trigger] table@[k2]).0) && d[j] == table@[k2].1 by {
                        let j = choose|j: int|
                            #![trigger is_wild(p, j)]
                            j < ii && is_wild(p, j) && key_at(p, j) == lower_of(table@[k2].0) && d[j] == table@[k2].1;
                        assert(is_wild(p, j));
                    }
                }
            }
        }
        i += 1;
    }
    true
}

/// Matches the digits of a word against a parsed pattern: first every literal
/// is compared with its digit, then the wildcards are bound as `policy` says.
pub fn resolve(digits: &Vec<u8>, pattern: &Pattern, policy: Policy) -> (r: Result<bool, MatchError>)
    requires
        digits@.len() == pattern@.len(),
    ensures
        r == resolve_spec(digits@, pattern@, policy),
{
    if policy == Policy::Single && has_multiple_keys(pattern) {
        return Err(MatchError::MultipleWildcardKeys);
    }
    if !literals_match(digits, pattern) {
        return Ok(false);
    }
    match policy {
        Policy::Inclusive => Ok(bindings_hold(digits, pattern, false)),
        Policy::Exclusive => Ok(bindings_hold(digits, pattern, true)),
        Policy::Single => Ok(true),
    }
}

} // verus!
