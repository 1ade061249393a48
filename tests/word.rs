use morsk::Word;

#[test]
fn word_struct_from_u16() {
    let w = Word::from(0xABCD_u16);
    assert_eq!(w.value(), 0xABCD);
    assert_eq!(w.hex_digits(), &[0xA, 0xB, 0xC, 0xD]);
}

#[test]
fn deref_word() {
    let w = Word::from(0xABCD_u16);
    let new_w = *w + 1;
    assert_eq!(new_w, 0xABCE);
}

#[test]
fn lib_word_struct_from_u16() {
    let w = Word::from(0xABCD_u16);
    assert_eq!(w.value(), 0xABCD);
    assert_eq!(w.hex_digits(), &[0xA, 0xB, 0xC, 0xD]);
}

#[test]
fn lib_deref_word() {
    let w = Word::from(0xABCD_u16);
    let new_w = *w + 1;
    assert_eq!(new_w, 0xABCE);
}

#[test]
fn word_from_u8() {
    let word = Word::from(0xAB_u8);
    assert_eq!(word.value(), 0xAB);
    assert_eq!(word.hex_digits(), &[0xA, 0xB]);
}

#[test]
fn word_from_u16() {
    let word = Word::from(0xABCD_u16);
    assert_eq!(word.value(), 0xABCD);
    assert_eq!(word.hex_digits(), &[0xA, 0xB, 0xC, 0xD]);
}

#[test]
fn word_from_u32() {
    let word = Word::from(0x12345678_u32);
    assert_eq!(word.value(), 0x12345678);
    assert_eq!(word.hex_digits(), &[0x1, 0x2, 0x3, 0x4, 0x5, 0x6, 0x7, 0x8]);
}

#[test]
fn word_from_u64() {
    let word = Word::from(0x123456789ABCDEF0_u64);
    assert_eq!(word.value(), 0x123456789ABCDEF0);
    assert_eq!(
        word.hex_digits(),
        &[0x1, 0x2, 0x3, 0x4, 0x5, 0x6, 0x7, 0x8, 0x9, 0xA, 0xB, 0xC, 0xD, 0xE, 0xF, 0]
    );
}

#[test]
fn word_from_u128() {
    let word = Word::from(0xFFFFFFFFFFFFFFFFFFFFFFFFFFFFFFFF_u128);
    assert_eq!(word.value(), u128::MAX);
    assert_eq!(word.hex_digits(), &[0xF; 32]);
}

#[test]
fn word_new_keeps_leading_zeros() {
    let word = Word::new(0x0A_u8);
    assert_eq!(word.value(), 0x0A);
    assert_eq!(word.hex_digits(), &[0x0, 0xA]);
}
