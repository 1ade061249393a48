use vstd::prelude::*;

verus! {

/// Whether `c` is alphabetic or numeric in Unicode's sense.
pub uninterp spec fn is_alnum(c: char) -> bool;

/// The lower-case mapping of `c`, which may be more than one character.
pub uninterp spec fn lower_of(c: char) -> Seq<char>;

/// Whether `c` is an ASCII letter or digit.
pub open spec fn is_ascii_alnum(c: char) -> bool {
    ('0' <= c <= '9') || ('a' <= c <= 'z') || ('A' <= c <= 'Z')
}

/// The ASCII lower-case form of the ASCII character `c`.
pub open spec fn ascii_lower(c: char) -> char {
    if 'A' <= c <= 'Z' {
        ((c as u32) + 32) as char
    } else {
        c
    }
}

/// Relies on `char::is_alphanumeric`: its result depends on the character
/// alone, and on ASCII it holds exactly of letters and digits.
#[verifier::external_body]
pub(crate) fn alphanumeric(c: char) -> (r: bool)
    ensures
        r == is_alnum(c),
        c <= '\u{7f}' ==> (r <==> is_ascii_alnum(c)),
{
    c.is_alphanumeric()
}

/// Relies on `char::to_lowercase`: its characters depend on `c` alone, and
/// an ASCII character maps to its ASCII lower-case form.
#[verifier::external_body]
pub(crate) fn lowercase(c: char) -> (r: String)
    ensures
        r@ == lower_of(c),
        c <= '\u{7f}' ==> r@ == seq![ascii_lower(c)],
{
    c.to_lowercase().collect()
}

/// Whether `a` and `b` have the same lower-case mapping.
pub fn same_lower(a: char, b: char) -> (r: bool)
    ensures
        r == (lower_of(a) == lower_of(b)),
{
    let la = lowercase(a);
    let lb = lowercase(b);
    la == lb
}

} // verus!
