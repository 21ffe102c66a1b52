//! Content digests and their text.

pub mod laws;

use vstd::prelude::*;

verus! {

/// The SHA-256 digest of a sequence of bytes.
pub uninterp spec fn sha256(raw: Seq<u8>) -> Seq<u8>;

/// `sha2::Sha256::digest`: the SHA-256 digest of its argument, which is a
/// function of the bytes named `sha256`, and has 32 bytes.
#[verifier::external_body]
pub(crate) fn sha256_bytes(raw: &[u8]) -> (r: Vec<u8>)
    ensures
        r@ == sha256(raw@),
        r@.len() == 32,
{
    <sha2::Sha256 as sha2::Digest>::digest(raw).to_vec()
}

/// The character of a hexadecimal digit.
pub open spec fn hex_digit(d: int) -> char {
    if d < 10 {
        (('0' as u32 + d) as u32) as char
    } else {
        (('a' as u32 + (d - 10)) as u32) as char
    }
}

/// Two hexadecimal digits for every byte.
pub open spec fn hex(raw: Seq<u8>) -> Seq<char> {
    Seq::new(
        2 * raw.len(),
        |i: int|
            hex_digit(
                if i % 2 == 0 {
                    raw[i / 2] as int / 16
                } else {
                    raw[i / 2] as int % 16
                },
            ),
    )
}

/// The SHA-256 digest in hexadecimal.
pub open spec fn sha256_hex(raw: Seq<u8>) -> Seq<char> {
    hex(sha256(raw))
}

fn digit(d: u8) -> (r: char)
    requires
        d < 16,
    ensures
        r == hex_digit(d as int),
{
    if d < 10 {
        (48 + d) as char
    } else {
        (97 + (d - 10)) as char
    }
}

/// Two hexadecimal digits for every byte.
pub fn to_hex(raw: &[u8]) -> (r: String)
    ensures
        r@ == hex(raw@),
{
    let mut out = String::new();
    let mut i: usize = 0;
    while i < raw.len()
        invariant
            i <= raw@.len(),
            out@ == hex(raw@).take(2 * i as int),
        decreases raw@.len() - i,
    {
        let byte: u8 = raw[i];
        out.push(digit(byte / 16));
        out.push(digit(byte % 16));
        assert(hex(raw@)[2 * i] == hex_digit(byte as int / 16));
        assert(hex(raw@)[2 * i + 1] == hex_digit(byte as int % 16));
        i += 1;
        assert(out@ =~= hex(raw@).take(2 * i as int));
    }
    assert(out@ =~= hex(raw@));
    out
}

/// The SHA-256 digest in hexadecimal.
pub fn sha256_text(raw: &[u8]) -> (r: String)
    ensures
        r@ == sha256_hex(raw@),
        r@.len() == 64,
{
    let bytes = sha256_bytes(raw);
    to_hex(bytes.as_slice())
}

/// Hexadecimal text holds hexadecimal digits, and no capital letters.
pub proof fn hex_holds_digits(raw: Seq<u8>)
    ensures
        hex(raw).len() == 2 * raw.len(),
        forall|i: int|
            0 <= i < hex(raw).len() ==> ('0' <= #[trigger] hex(raw)[i] && hex(raw)[i] <= '9') || (
            'a' <= hex(raw)[i] && hex(raw)[i] <= 'f'),
{
    assert forall|i: int| 0 <= i < hex(raw).len() implies ('0' <= #[trigger] hex(raw)[i] && hex(
        raw,
    )[i] <= '9') || ('a' <= hex(raw)[i] && hex(raw)[i] <= 'f') by {
        let d = if i % 2 == 0 {
            raw[i / 2] as int / 16
        } else {
            raw[i / 2] as int % 16
        };
        assert(0 <= d < 16);
        assert(hex(raw)[i] == hex_digit(d));
    }
}

} // verus!
