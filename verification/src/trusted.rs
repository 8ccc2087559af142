//! What the proofs of this crate take on trust: the items of other crates
//! and of the standard library that the library calls, each with the contract
//! that is believed of it. Nothing else in the crate is believed without
//! proof.

use candid::Principal;
use vstd::prelude::*;

verus! {

/// `candid::Principal`, the identity of a caller. The library never looks
/// inside one: it stores principals, hands them back, and compares them.
#[verifier::external_type_specification]
#[verifier::external_body]
pub struct ExPrincipal(candid::Principal);

/// The `==` of `candid::Principal`, which `derive` wrote for it: it compares
/// the length and the bytes, so two principals are equal exactly when they
/// are the same value.
#[verifier::external_body]
pub(crate) fn same_principal(a: &Principal, b: &Principal) -> (same: bool)
    ensures
        same == (*a == *b),
{
    a == b
}

/// The lower-case hexadecimal digit for a value below sixteen.
pub open spec fn hex_digit(nibble: int) -> char {
    if nibble == 0 {
        '0'
    } else if nibble == 1 {
        '1'
    } else if nibble == 2 {
        '2'
    } else if nibble == 3 {
        '3'
    } else if nibble == 4 {
        '4'
    } else if nibble == 5 {
        '5'
    } else if nibble == 6 {
        '6'
    } else if nibble == 7 {
        '7'
    } else if nibble == 8 {
        '8'
    } else if nibble == 9 {
        '9'
    } else if nibble == 10 {
        'a'
    } else if nibble == 11 {
        'b'
    } else if nibble == 12 {
        'c'
    } else if nibble == 13 {
        'd'
    } else if nibble == 14 {
        'e'
    } else {
        'f'
    }
}

/// The hexadecimal text of a byte string: two digits for each byte, the high
/// half first.
pub open spec fn hex_text(bytes: Seq<u8>) -> Seq<char> {
    Seq::new(
        2 * bytes.len(),
        |i: int|
            if i % 2 == 0 {
                hex_digit(bytes[i / 2] as int / 16)
            } else {
                hex_digit(bytes[i / 2] as int % 16)
            },
    )
}

/// `hex::encode`: writes each byte as two lower-case hexadecimal digits, the
/// high half first, in the order of the bytes.
#[verifier::external_body]
pub(crate) fn hex_encode(bytes: &[u8]) -> (s: String)
    ensures
        s@ == hex_text(bytes@),
{
    hex::encode(bytes)
}

/// Whether `char::is_whitespace` holds of a character.
pub uninterp spec fn is_space(c: char) -> bool;

/// `char::is_whitespace`: whether the character has the Unicode property
/// White_Space. The answer depends on the character alone.
#[verifier::external_body]
pub(crate) fn is_whitespace(c: char) -> (b: bool)
    ensures
        b == is_space(c),
{
    c.is_whitespace()
}

} // verus!
