//! Identifiers: random version-4 UUIDs from the `uuid` crate, held as
//! 128-bit integers, and their usual text form.

use vstd::prelude::*;

verus! {

/// The lowercase hexadecimal digit for `d` (0 to 15).
pub open spec fn hex_digit(d: int) -> char {
    if d < 10 {
        crate::text::digit_char(d as nat)
    } else if d == 10 {
        'a'
    } else if d == 11 {
        'b'
    } else if d == 12 {
        'c'
    } else if d == 13 {
        'd'
    } else if d == 14 {
        'e'
    } else {
        'f'
    }
}

/// The `k`-th hexadecimal digit of `u`, counted from the most significant
/// of its 32 digits.
pub open spec fn nibble(u: u128, k: int) -> int {
    (u as int / vstd::arithmetic::power::pow(16, (31 - k) as nat)) % 16
}

/// Number of hyphens before position `i` of the hyphenated form.
pub open spec fn hyphens_before(i: int) -> int {
    if i < 8 {
        0
    } else if i < 13 {
        1
    } else if i < 18 {
        2
    } else if i < 23 {
        3
    } else {
        4
    }
}

/// The hyphenated lowercase form of a UUID: 32 hexadecimal digits in
/// groups of 8, 4, 4, 4 and 12, joined by hyphens.
pub open spec fn uuid_hyphenated(u: u128) -> Seq<char> {
    Seq::new(
        36,
        |i: int|
            if i == 8 || i == 13 || i == 18 || i == 23 {
                '-'
            } else {
                hex_digit(nibble(u, i - hyphens_before(i)))
            },
    )
}

/// A fresh random (version 4) UUID, from `uuid::Uuid::new_v4`.
#[verifier::external_body]
pub fn new_uuid() -> (r: u128) {
    uuid::Uuid::new_v4().as_u128()
}

/// The text form of a UUID, from `uuid::Uuid`'s `Display`.
#[verifier::external_body]
pub fn uuid_text(u: u128) -> (r: String)
    ensures
        r@ == uuid_hyphenated(u),
{
    uuid::Uuid::from_u128(u).to_string()
}

} // verus!
