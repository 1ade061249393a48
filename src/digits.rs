use vstd::prelude::*;

verus! {

/// The last `n` hexadecimal digits of `v`, most significant first.
pub open spec fn nibbles(v: nat, n: nat) -> Seq<u8>
    decreases n,
{
    if n == 0 {
        Seq::empty()
    } else {
        nibbles(v / 16, (n - 1) as nat).push((v % 16) as u8)
    }
}

/// The digits of `v` are `n` nibbles, each below sixteen.
pub proof fn lemma_nibbles_shape(v: nat, n: nat)
    ensures
        nibbles(v, n).len() == n,
        forall|i: int| 0 <= i < n ==> #[trigger] nibbles(v, n)[i] < 16,
    decreases n,
{
    if n > 0 {
        lemma_nibbles_shape(v / 16, (n - 1) as nat);
    }
}

/// Digit `i` of the last `n` digits of `v` is `(v >> 4 * (n - 1 - i)) & 0xF`.
pub proof fn lemma_nibble_is_shifted(v: u128, n: nat, i: int)
    requires
        n <= 32,
        0 <= i < n,
    ensures
        nibbles(v as nat, n)[i] == ((v >> ((4 * (n - 1 - i)) as u128)) & 0xF) as u8,
    decreases n,
{
    lemma_nibbles_shape(v as nat, n);
    if i == n - 1 {
        assert(v >> 0u128 == v) by (bit_vector);
        assert(v & 0xF == v % 16) by (bit_vector);
    } else {
        let w = v / 16;
        lemma_nibble_is_shifted(w, (n - 1) as nat, i);
        let s = (4 * (n - 2 - i)) as u128;
        assert(w >> s == v >> ((s + 4) as u128)) by (bit_vector)
            requires
                w == v / 16,
                s < 124,
        ;
    }
}

/// Splits `value` into its last `digit_count` hexadecimal digits, most
/// significant first.
pub fn decompose(value: u128, digit_count: usize) -> (r: Vec<u8>)
    ensures
        r@ == nibbles(value as nat, digit_count as nat),
        digit_count <= 32 ==> forall|i: int|
            0 <= i < digit_count ==> #[trigger] r@[i] == ((value >> ((4 * (digit_count - 1 - i))
                as u128)) & 0xF) as u8,
    decreases digit_count,
{
    proof {
        if digit_count <= 32 {
            assert forall|i: int| 0 <= i < digit_count implies #[trigger] nibbles(
                value as nat,
                digit_count as nat,
            )[i] == ((value >> ((4 * (digit_count - 1 - i)) as u128)) & 0xF) as u8 by {
                lemma_nibble_is_shifted(value, digit_count as nat, i);
            }
        }
    }
    if digit_count == 0 {
        Vec::new()
    } else {
        let mut r = decompose(value / 16, digit_count - 1);
        r.push((value % 16) as u8);
        r
    }
}

/// An unsigned integer type whose values split into a fixed number of
/// hexadecimal digits.
pub trait Morskable: Sized + Copy {
    /// The value as a mathematical integer.
    spec fn spec_value(&self) -> nat;

    /// How many hexadecimal digits a value of this type has.
    spec fn spec_digit_count() -> nat;

    /// The hexadecimal digits of the value, most significant first.
    fn hex_digits(&self) -> (r: Vec<u8>)
        ensures
            r@ == nibbles(self.spec_value(), Self::spec_digit_count()),
    ;
}

impl Morskable for u8 {
    open spec fn spec_value(&self) -> nat {
        *self as nat
    }

    open spec fn spec_digit_count() -> nat {
        2
    }

    fn hex_digits(&self) -> (r: Vec<u8>) {
        decompose(*self as u128, 2)
    }
}

impl Morskable for u16 {
    open spec fn spec_value(&self) -> nat {
        *self as nat
    }

    open spec fn spec_digit_count() -> nat {
        4
    }

    fn hex_digits(&self) -> (r: Vec<u8>) {
        decompose(*self as u128, 4)
    }
}

impl Morskable for u32 {
    open spec fn spec_value(&self) -> nat {
        *self as nat
    }

    open spec fn spec_digit_count() -> nat {
        8
    }

    fn hex_digits(&self) -> (r: Vec<u8>) {
        decompose(*self as u128, 8)
    }
}

impl Morskable for u64 {
    open spec fn spec_value(&self) -> nat {
        *self as nat
    }

    open spec fn spec_digit_count() -> nat {
        16
    }

    fn hex_digits(&self) -> (r: Vec<u8>) {
        decompose(*self as u128, 16)
    }
}

impl Morskable for u128 {
    open spec fn spec_value(&self) -> nat {
        *self as nat
    }

    open spec fn spec_digit_count() -> nat {
        32
    }

    fn hex_digits(&self) -> (r: Vec<u8>) {
        decompose(*self, 32)
    }
}

} // verus!
