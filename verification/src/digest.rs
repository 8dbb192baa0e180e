//! Content digests.

use vstd::prelude::*;

verus! {

/// The BLAKE3 hash of some bytes.
pub uninterp spec fn blake3_of(bytes: Seq<u8>) -> Seq<u8>;

/// `blake3::hash`: 32 bytes that depend on the input alone.
#[verifier::external_body]
pub(crate) fn blake3_bytes(bytes: &[u8]) -> (r: Vec<u8>)
    ensures
        r@ == blake3_of(bytes@),
        r@.len() == 32,
{
    blake3::hash(bytes).as_bytes().to_vec()
}

/// The hexadecimal digit for `d`.
pub open spec fn hex_digit(d: int) -> char {
    if d < 10 {
        (48 + d) as u8 as char
    } else {
        (87 + d) as u8 as char
    }
}

/// Bytes in lower-case hexadecimal, two digits each.
pub open spec fn hex_text(bytes: Seq<u8>) -> Seq<char> {
    Seq::new(
        2 * bytes.len(),
        |i: int|
            if i % 2 == 0 {
                hex_digit(bytes[i / 2] as int / 16)
            } else {
                hex_digit(bytes[i / 2] as int % 16)
            },
    )
}

/// Bytes are told by their hexadecimal digits.
pub proof fn hex_tells_all(a: Seq<u8>, b: Seq<u8>)
    requires
        hex_text(a) == hex_text(b),
    ensures
        a == b,
{
    assert(hex_text(a).len() == 2 * a.len());
    assert(hex_text(b).len() == 2 * b.len());
    assert forall|i: int| 0 <= i < a.len() implies a[i] == b[i] by {
        assert((2 * i) % 2 == 0 && (2 * i) / 2 == i);
        assert((2 * i + 1) % 2 == 1 && (2 * i + 1) / 2 == i);
        assert(hex_text(a)[2 * i] == hex_digit(a[i] as int / 16));
        assert(hex_text(b)[2 * i] == hex_digit(b[i] as int / 16));
        assert(hex_text(a)[2 * i + 1] == hex_digit(a[i] as int % 16));
        assert(hex_text(b)[2 * i + 1] == hex_digit(b[i] as int % 16));
        digits_differ(a[i] as int / 16, b[i] as int / 16);
        digits_differ(a[i] as int % 16, b[i] as int % 16);
    }
    assert(a =~= b);
}

/// Different numbers have different digits.
proof fn digits_differ(a: int, b: int)
    requires
        0 <= a < 16,
        0 <= b < 16,
        hex_digit(a) == hex_digit(b),
    ensures
        a == b,
{
}

fn hex_char(d: u8) -> (r: char)
    requires
        d < 16,
    ensures
        r == hex_digit(d as int),
{
    if d < 10 {
        (48 + d) as char
    } else {
        (87 + d) as char
    }
}

/// Bytes in lower-case hexadecimal.
pub fn to_hex(bytes: &[u8]) -> (r: String)
    ensures
        r@ == hex_text(bytes@),
{
    let mut out = String::new();
    let ghost all = hex_text(bytes@);
    let mut i: usize = 0;
    assert(out@ =~= all.take(0));
    while i < bytes.len()
        invariant
            all == hex_text(bytes@),
            i <= bytes@.len(),
            out@ == all.take(2 * i as int),
        decreases bytes@.len() - i,
    {
        let b: u8 = bytes[i];
        out.push(hex_char(b / 16));
        out.push(hex_char(b % 16));
        assert((2 * i + 1) / 2 == i as int);
        assert(all.take(2 * (i + 1)) =~= all.take(2 * i as int).push(all[2 * i as int]).push(
            all[2 * i + 1],
        ));
        i += 1;
    }
    assert(all.take(2 * i as int) =~= all);
    out
}

/// The BLAKE3 hash of some bytes in hexadecimal.
pub fn blake3_hex(bytes: &[u8]) -> (r: String)
    ensures
        r@ == hex_text(blake3_of(bytes@)),
        r@.len() == 64,
{
    to_hex(blake3_bytes(bytes).as_slice())
}

/// A number in sixteen hexadecimal digits.
pub open spec fn hex16(n: u64) -> Seq<char> {
    Seq::new(16, |i: int| hex_digit((n >> ((60 - 4 * i) as u64)) as int % 16))
}

/// A number in sixteen hexadecimal digits.
pub fn to_hex16(n: u64) -> (r: String)
    ensures
        r@ == hex16(n),
{
    let mut out = String::new();
    let mut i: u64 = 0;
    while i < 16
        invariant
            i <= 16,
            out@ =~= hex16(n).take(i as int),
        decreases 16 - i,
    {
        let d: u64 = (n >> (60 - 4 * i)) % 16;
        out.push(hex_char(d as u8));
        i += 1;
    }
    assert(out@ =~= hex16(n));
    out
}

} // verus!
