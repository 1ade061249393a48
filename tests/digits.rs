use morsk::digits::decompose;
use morsk::Morskable;

#[test]
fn morskable_u8() {
    let word: u8 = 0xAB;
    assert_eq!(word.hex_digits(), [0xA, 0xB]);
}

#[test]
fn morskable_u16() {
    let word: u16 = 0xABCD;
    assert_eq!(word.hex_digits(), [0xA, 0xB, 0xC, 0xD]);
}

#[test]
fn morskable_u32() {
    let word: u32 = 0x12345678;
    assert_eq!(word.hex_digits(), [0x1, 0x2, 0x3, 0x4, 0x5, 0x6, 0x7, 0x8]);
}

#[test]
fn morskable_u64() {
    let word: u64 = 0x123456789ABCDEF0;
    assert_eq!(
        word.hex_digits(),
        [0x1, 0x2, 0x3, 0x4, 0x5, 0x6, 0x7, 0x8, 0x9, 0xA, 0xB, 0xC, 0xD, 0xE, 0xF, 0]
    );
}

#[test]
fn morskable_u128() {
    let word: u128 = 0xFFFFFFFFFFFFFFFFFFFFFFFFFFFFFFFF;
    assert_eq!(word.hex_digits(), [0xF; 32]);
}

#[test]
fn decompose_keeps_last_digits() {
    assert_eq!(decompose(0x12345, 3), vec![0x3, 0x4, 0x5]);
    assert_eq!(decompose(0x7, 4), vec![0x0, 0x0, 0x0, 0x7]);
    assert_eq!(decompose(0xFF, 0), Vec::<u8>::new());
}

#[test]
fn decompose_matches_shift_formula() {
    let value: u128 = 0x0123_4567_89AB_CDEF_FEDC_BA98_7654_3210;
    let digits = decompose(value, 32);
    for i in 0..32 {
        let shift = 4 * (31 - i);
        assert_eq!(digits[i] as u128, (value >> shift) & 0xF);
    }
}
