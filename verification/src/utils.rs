//! Identifiers and the validation of text.

use crate::trusted::{hex_digit, hex_encode, hex_text, is_space, is_whitespace};
use vstd::prelude::*;

verus! {

/// Makes an identifier out of bytes drawn at random: their hexadecimal text.
pub fn generate_id(random_bytes: &[u8]) -> (id: String)
    ensures
        id@ == hex_text(random_bytes@),
        id@.len() == 2 * random_bytes@.len(),
{
    hex_encode(random_bytes)
}

/// Two byte strings with the same hexadecimal text are the same, so
/// identifiers made from different bytes differ.
pub proof fn hex_text_is_injective(a: Seq<u8>, b: Seq<u8>)
    requires
        hex_text(a) == hex_text(b),
    ensures
        a == b,
{
    assert(hex_text(a).len() == 2 * a.len());
    assert(hex_text(b).len() == 2 * b.len());
    assert forall|i: int| 0 <= i < a.len() implies a[i] == b[i] by {
        let hi_a = hex_text(a)[2 * i];
        let lo_a = hex_text(a)[2 * i + 1];
        let hi_b = hex_text(b)[2 * i];
        let lo_b = hex_text(b)[2 * i + 1];
        assert(hi_a == hex_digit(a[i] as int / 16));
        assert(lo_a == hex_digit(a[i] as int % 16));
        assert(hi_b == hex_digit(b[i] as int / 16));
        assert(lo_b == hex_digit(b[i] as int % 16));
        digits_differ(a[i] as int / 16, b[i] as int / 16);
        digits_differ(a[i] as int % 16, b[i] as int % 16);
    }
    assert(a =~= b);
}

/// Different values below sixteen have different digits.
proof fn digits_differ(x: int, y: int)
    requires
        0 <= x < 16,
        0 <= y < 16,
        hex_digit(x) == hex_digit(y),
    ensures
        x == y,
{
}

/// Text is blank when it is empty or holds white space only.
pub open spec fn blank(s: Seq<char>) -> bool {
    forall|i: int| 0 <= i < s.len() ==> is_space(#[trigger] s[i])
}

/// Decides whether text is blank.
pub fn is_blank(s: &str) -> (b: bool)
    ensures
        b == blank(s@),
{
    let mut all_space = true;
    for c in it: s.chars()
        invariant
            it.seq() == s@,
            all_space == forall|j: int| 0 <= j < it.index() ==> is_space(#[trigger] s@[j]),
    {
        if !is_whitespace(c) {
            all_space = false;
        }
    }
    all_space
}

} // verus!
