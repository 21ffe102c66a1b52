//! What hexadecimal text promises of the bytes that it is written from.

use vstd::prelude::*;
use crate::digest::{hex, hex_digit, sha256, sha256_hex};

verus! {

/// The value of a hexadecimal digit.
pub open spec fn digit_value(c: char) -> int {
    if '0' <= c <= '9' {
        c as int - '0' as int
    } else {
        c as int - 'a' as int + 10
    }
}

proof fn digits_have_their_value(d: int)
    requires
        0 <= d < 16,
    ensures
        digit_value(hex_digit(d)) == d,
{
}

/// Two digits stand for each byte, the higher one first.
pub proof fn bytes_are_two_digits(raw: Seq<u8>, i: int)
    requires
        0 <= i < raw.len(),
    ensures
        hex(raw).len() == 2 * raw.len(),
        digit_value(hex(raw)[2 * i]) == raw[i] as int / 16,
        digit_value(hex(raw)[2 * i + 1]) == raw[i] as int % 16,
{
    let b = raw[i] as int;
    digits_have_their_value(b / 16);
    digits_have_their_value(b % 16);
    assert((2 * i) % 2 == 0 && (2 * i) / 2 == i);
    assert((2 * i + 1) % 2 == 1 && (2 * i + 1) / 2 == i);
    assert(hex(raw)[2 * i] == hex_digit(b / 16));
    assert(hex(raw)[2 * i + 1] == hex_digit(b % 16));
}

/// Different bytes are written as different texts, and a digest is the text of the bytes of the
/// hash.
pub proof fn bytes_are_told_apart(raw: Seq<u8>, other: Seq<u8>)
    ensures
        hex(raw) == hex(other) ==> raw == other,
        sha256_hex(raw) == hex(sha256(raw)),
{
    if hex(raw) == hex(other) {
        assert(hex(raw).len() == 2 * raw.len());
        assert(hex(other).len() == 2 * other.len());
        assert forall|i: int| 0 <= i < raw.len() implies raw[i] == other[i] by {
            bytes_are_two_digits(raw, i);
            bytes_are_two_digits(other, i);
        }
        assert(raw =~= other);
    }
}

} // verus!
