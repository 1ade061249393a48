use morsk::chars::same_lower;
use morsk::pattern::validate_hex;
use morsk::resolve::{has_multiple_keys, resolve};
use morsk::{mvh, MatchError, Pattern, PatternSymbol, Policy, Word};

#[test]
fn morsk_u8() {
    let w = Word::from(0xAB_u8);

    // Instruction - Clear register X
    // 0xAA3X -> X ranges from 0-F

    if w.morsk("0xAA3X", Policy::Inclusive) == Ok(true) {}
    assert_eq!(w.morsk("0xAA3X", Policy::Inclusive), Err(MatchError::LengthMismatch));
}

#[test]
fn inclusive_morsk() {
    let w = Word::from(0xABCD_u16);
    assert!(w.morsk("0xAXYD", Policy::Inclusive) == Ok(true));
}

#[test]
fn exclusive_morsk() {
    let w = Word::from(0xABBD_u16);
    assert!(w.morsk("0xAXXD", Policy::Exclusive) == Ok(true));
}

#[test]
fn exact_rendering_matches_under_every_policy() {
    let w = Word::from(0x12AB_u16);
    for policy in [Policy::Inclusive, Policy::Exclusive, Policy::Single] {
        assert_eq!(w.morsk("0x12AB", policy), Ok(true));
        assert_eq!(w.morsk("12ab", policy), Ok(true));
    }
}

#[test]
fn literal_mismatch_fails_under_every_policy() {
    let w = Word::from(0x12AB_u16);
    for policy in [Policy::Inclusive, Policy::Exclusive, Policy::Single] {
        assert_eq!(w.morsk("0x12AC", policy), Ok(false));
        assert_eq!(w.morsk("0x02AX", policy), Ok(false));
    }
}

#[test]
fn inclusive_distinct_letters_bind_independently() {
    assert_eq!(Word::from(0xABCD_u16).morsk("0xAXYD", Policy::Inclusive), Ok(true));
    assert_eq!(Word::from(0xABBD_u16).morsk("0xAXYD", Policy::Inclusive), Ok(true));
}

#[test]
fn inclusive_letter_must_agree_with_itself() {
    assert_eq!(Word::from(0xABCD_u16).morsk("0xAXXD", Policy::Inclusive), Ok(false));
}

#[test]
fn exclusive_distinct_letters_need_distinct_digits() {
    assert_eq!(Word::from(0xABBD_u16).morsk("0xAXXD", Policy::Exclusive), Ok(true));
    assert_eq!(Word::from(0xABBD_u16).morsk("0xAXYD", Policy::Exclusive), Ok(false));
    assert_eq!(Word::from(0xABCD_u16).morsk("0xAXYD", Policy::Exclusive), Ok(true));
}

#[test]
fn exclusive_inconsistent_letter_fails() {
    assert_eq!(Word::from(0xABCD_u16).morsk("0xAXXD", Policy::Exclusive), Ok(false));
}

#[test]
fn single_letter_is_a_free_mask() {
    assert_eq!(Word::from(0xABCD_u16).morsk("0xAXXD", Policy::Single), Ok(true));
    assert_eq!(Word::from(0xABCD_u16).morsk("0xAXXE", Policy::Single), Ok(false));
}

#[test]
fn single_refuses_two_letters() {
    assert_eq!(
        Word::from(0xABCD_u16).morsk("0xAXYD", Policy::Single),
        Err(MatchError::MultipleWildcardKeys)
    );
}

#[test]
fn letters_are_case_insensitive() {
    assert_eq!(Word::from(0xABBD_u16).morsk("0xaXxD", Policy::Exclusive), Ok(true));
    assert_eq!(Word::from(0xABCD_u16).morsk("0xAxXD", Policy::Single), Ok(true));
    assert_eq!(Word::from(0xABCD_u16).morsk("0xAxXD", Policy::Inclusive), Ok(false));
}

#[test]
fn parse_twice_gives_equal_patterns() {
    let a = Pattern::parse("0xAXYD", 4);
    let b = Pattern::parse("0xAXYD", 4);
    assert!(a.is_ok());
    assert!(a == b);
    let w = Word::from(0xABCD_u16);
    assert_eq!(w.morsk("0xAXYD", Policy::Exclusive), w.morsk("0xAXYD", Policy::Exclusive));
}

#[test]
fn parse_symbols() {
    let p = Pattern::parse("0x9fGz", 4).unwrap();
    assert_eq!(p.len(), 4);
    assert_eq!(p.symbol(0), PatternSymbol::Literal(9));
    assert_eq!(p.symbol(1), PatternSymbol::Literal(15));
    assert_eq!(p.symbol(2), PatternSymbol::Wildcard('G'));
    assert_eq!(p.symbol(3), PatternSymbol::Wildcard('z'));
}

#[test]
fn parse_errors() {
    assert!(matches!(Pattern::parse("0xABC", 4), Err(MatchError::LengthMismatch)));
    assert!(matches!(Pattern::parse("0xAB-D", 4), Err(MatchError::InvalidCharacter)));
    assert!(matches!(Pattern::parse("0xAB\u{20ac}D", 4), Err(MatchError::InvalidCharacter)));
    assert_eq!(Word::from(0xABCD_u16).morsk("0xA_CD", Policy::Inclusive), Err(MatchError::InvalidCharacter));
}

#[test]
fn smallest_width_matches() {
    let w = Word::from(0x5A_u8);
    assert_eq!(w.morsk("0x5A", Policy::Inclusive), Ok(true));
    assert_eq!(w.morsk("0xX5", Policy::Inclusive), Ok(false));
    assert_eq!(w.morsk("0xGH", Policy::Exclusive), Ok(true));
    assert_eq!(w.morsk("0xGG", Policy::Exclusive), Ok(false));
    assert_eq!(w.morsk("0xGG", Policy::Single), Ok(true));
}

#[test]
fn largest_width_matches() {
    let w = Word::from(0x0123_4567_89AB_CDEF_FEDC_BA98_7654_3210_u128);
    assert_eq!(w.morsk("0x0123456789ABCDEFFEDCBA9876543210", Policy::Exclusive), Ok(true));
    assert_eq!(w.morsk("0x0123456789ABCDEFFEDCBA987654321X", Policy::Exclusive), Ok(true));
    assert_eq!(w.morsk("0x0123456789ABCDEFFEDCBA987654321Y", Policy::Single), Ok(true));
    assert_eq!(w.morsk("0x0123456789ABCDEFFEDCBA9876543211", Policy::Inclusive), Ok(false));
    assert_eq!(w.morsk("0x0123456789ABCDEFFEDCBA98765432", Policy::Inclusive), Err(MatchError::LengthMismatch));
}

#[test]
fn one_letter_pattern() {
    let same = Word::from(0x7777_u16);
    let mixed = Word::from(0x1234_u16);
    assert_eq!(same.morsk("0xZZZZ", Policy::Inclusive), Ok(true));
    assert_eq!(same.morsk("0xZZZZ", Policy::Exclusive), Ok(true));
    assert_eq!(mixed.morsk("0xZZZZ", Policy::Inclusive), Ok(false));
    assert_eq!(mixed.morsk("0xZZZZ", Policy::Exclusive), Ok(false));
    assert_eq!(mixed.morsk("0xZZZZ", Policy::Single), Ok(true));
}

#[test]
fn resolve_on_parsed_pattern() {
    let p = Pattern::parse("0xAXYD", 4).unwrap();
    assert!(has_multiple_keys(&p));
    assert_eq!(resolve(&vec![0xA, 0xB, 0xB, 0xD], &p, Policy::Inclusive), Ok(true));
    assert_eq!(resolve(&vec![0xA, 0xB, 0xB, 0xD], &p, Policy::Exclusive), Ok(false));
    assert_eq!(resolve(&vec![0xA, 0xB, 0xB, 0xE], &p, Policy::Inclusive), Ok(false));
    let q = Pattern::parse("0xAXXD", 4).unwrap();
    assert!(!has_multiple_keys(&q));
}

#[test]
fn front_end_validation() {
    assert_eq!(validate_hex("0xAXYD"), Ok(()));
    assert_eq!(validate_hex("AXYD"), Err(MatchError::MissingPrefix));
    assert_eq!(validate_hex("0"), Err(MatchError::MissingPrefix));
    assert_eq!(validate_hex("0x"), Err(MatchError::LengthMismatch));
    assert_eq!(validate_hex("0xAB+D"), Err(MatchError::InvalidCharacter));
}

#[test]
fn operators_select_policies() {
    assert_eq!(Policy::from_operator('|'), Some(Policy::Inclusive));
    assert_eq!(Policy::from_operator('^'), Some(Policy::Exclusive));
    assert_eq!(Policy::from_operator('&'), Some(Policy::Single));
    assert_eq!(Policy::from_operator('+'), None);
}

#[test]
fn infix_form_dispatches_on_operator() {
    let w16 = Word::from(0xABCD_u16);
    assert_eq!(mvh(&w16, '|', "0xABXY"), Ok(true));
    assert_eq!(mvh(&w16, '|', "0xAXYD"), Ok(true));
    assert_eq!(mvh(&Word::from(0xABBD_u16), '^', "0xAXYD"), Ok(false));
    assert_eq!(mvh(&w16, '&', "0xAXXD"), Ok(true));
    assert_eq!(mvh(&w16, '&', "0xAXYD"), Err(MatchError::MultipleWildcardKeys));
    assert_eq!(mvh(&w16, '+', "0xAXYD"), Err(MatchError::UnsupportedOperator));
    assert_eq!(mvh(&w16, '|', "AXYD"), Err(MatchError::MissingPrefix));
    assert_eq!(mvh(&w16, '+', "0x"), Err(MatchError::LengthMismatch));
    assert_eq!(mvh(&w16, '|', "0xAX_D"), Err(MatchError::InvalidCharacter));
    assert_eq!(mvh(&w16, '|', "0xAXYDE"), Err(MatchError::LengthMismatch));
}

#[test]
fn unicode_alphanumerics_are_wildcards() {
    assert_eq!(validate_hex("0x\u{e9}"), Ok(()));
    assert_eq!(validate_hex("0x\u{3b1}\u{663}"), Ok(()));
    let w = Word::from(0xABCD_u16);
    assert_eq!(w.morsk("0x1\u{e9}CD", Policy::Inclusive), Ok(false));
    assert_eq!(w.morsk("0xA\u{e9}CD", Policy::Inclusive), Ok(true));
    assert_eq!(Word::from(0x5A_u8).morsk("0x\u{e9}\u{e9}", Policy::Single), Ok(true));
    assert_eq!(Word::from(0x55_u8).morsk("0x\u{e9}\u{e9}", Policy::Exclusive), Ok(true));
    assert_eq!(Word::from(0x5A_u8).morsk("0x\u{e9}\u{e9}", Policy::Inclusive), Ok(false));
    let p = Pattern::parse("0x\u{e9}Z", 2).unwrap();
    assert_eq!(p.symbol(0), PatternSymbol::Wildcard('\u{e9}'));
}

#[test]
fn unicode_keys_fold_case() {
    let w = Word::from(0xABBD_u16);
    assert_eq!(w.morsk("0xA\u{c9}\u{e9}D", Policy::Exclusive), Ok(true));
    assert_eq!(w.morsk("0xA\u{c9}\u{e9}D", Policy::Single), Ok(true));
    assert_eq!(Word::from(0xABCD_u16).morsk("0xA\u{c9}\u{e9}D", Policy::Inclusive), Ok(false));
    assert_eq!(w.morsk("0xA\u{e9}\u{e8}D", Policy::Single), Err(MatchError::MultipleWildcardKeys));
}

#[test]
fn non_alphanumerics_are_refused() {
    assert_eq!(validate_hex("0xA\u{20ac}"), Err(MatchError::InvalidCharacter));
    assert_eq!(validate_hex("0xA D"), Err(MatchError::InvalidCharacter));
    assert_eq!(Word::from(0xAB_u8).morsk("0x\u{2014}B", Policy::Single), Err(MatchError::InvalidCharacter));
}

#[test]
fn lower_case_mapping_compares_keys() {
    assert!(same_lower('X', 'x'));
    assert!(same_lower('\u{c9}', '\u{e9}'));
    assert!(same_lower('\u{3a3}', '\u{3c3}'));
    assert!(!same_lower('x', 'y'));
    assert!(!same_lower('\u{e9}', '\u{e8}'));
}
