//! Numbers and runs of bytes in files.

use vstd::prelude::*;

verus! {

/// The low 32 bits of `n` in four bytes, the lowest first.
pub open spec fn le32(n: int) -> Seq<u8> {
    seq![
        (n % 0x100) as u8,
        (n / 0x100 % 0x100) as u8,
        (n / 0x1_0000 % 0x100) as u8,
        (n / 0x100_0000 % 0x100) as u8,
    ]
}

/// The number in four bytes, the lowest first.
pub open spec fn from_le32(b: Seq<u8>) -> int {
    b[0] + b[1] * 0x100 + b[2] * 0x1_0000 + b[3] * 0x100_0000
}

/// A number of 32 bits is read back from its bytes.
pub proof fn le32_read_back(n: int)
    requires
        0 <= n < 0x1_0000_0000,
    ensures
        from_le32(le32(n)) == n,
{
    let a = n / 0x100;
    let b = n / 0x1_0000;
    let c = n / 0x100_0000;
    assert(b == a / 0x100 && c == b / 0x100) by (nonlinear_arith)
        requires
            n >= 0,
            a == n / 0x100,
            b == n / 0x1_0000,
            c == n / 0x100_0000,
    ;
    assert(c % 0x100 == c);
}

/// Appends the low 32 bits of `n`, the lowest byte first.
pub fn push_le32(out: &mut Vec<u8>, n: usize)
    ensures
        final(out)@ == old(out)@ + le32(n as int),
{
    out.push((n % 0x100) as u8);
    out.push((n / 0x100 % 0x100) as u8);
    out.push((n / 0x1_0000 % 0x100) as u8);
    out.push((n / 0x100_0000 % 0x100) as u8);
    assert(out@ =~= old(out)@ + le32(n as int));
}

/// The number in the four bytes at `at`, the lowest byte first.
pub fn read_le32(bytes: &[u8], at: usize) -> (r: u32)
    requires
        at + 4 <= bytes@.len(),
    ensures
        r == from_le32(bytes@.skip(at as int)),
        r == from_le32(bytes@.subrange(at as int, at + 4)),
{
    bytes[at] as u32 + bytes[at + 1] as u32 * 0x100 + bytes[at + 2] as u32 * 0x1_0000 + bytes[at
        + 3] as u32 * 0x100_0000
}

/// Appends bytes.
pub fn push_bytes(out: &mut Vec<u8>, more: &[u8])
    ensures
        final(out)@ == old(out)@ + more@,
{
    let ghost was = out@;
    let mut i: usize = 0;
    assert(was + more@.take(0) =~= was);
    while i < more.len()
        invariant
            i <= more@.len(),
            out@ == was + more@.take(i as int),
        decreases more@.len() - i,
    {
        out.push(more[i]);
        assert(more@.take(i + 1) =~= more@.take(i as int).push(more@[i as int]));
        assert(out@ =~= was + more@.take(i + 1));
        i += 1;
    }
    assert(more@.take(i as int) =~= more@);
}

/// Whether `p` stands in `bytes` at `at`.
pub fn stands_at(bytes: &[u8], at: usize, p: &[u8]) -> (r: bool)
    requires
        at <= bytes@.len(),
    ensures
        r == (at + p@.len() <= bytes@.len() && bytes@.subrange(at as int, at + p@.len()) == p@),
{
    if p.len() > bytes.len() - at {
        return false;
    }
    let mut i: usize = 0;
    while i < p.len()
        invariant
            i <= p@.len(),
            p@.len() <= bytes.len() - at,
            at <= bytes.len(),
            forall|k: int| 0 <= k < i ==> bytes@[at + k] == #[trigger] p@[k],
        decreases p@.len() - i,
    {
        if bytes[at + i] != p[i] {
            assert(bytes@.subrange(at as int, at + p@.len())[i as int] != p@[i as int]);
            return false;
        }
        i += 1;
    }
    assert(bytes@.subrange(at as int, at + p@.len()) =~= p@);
    true
}

/// The bytes from `from` to `to`.
pub fn bytes_between(bytes: &[u8], from: usize, to: usize) -> (r: Vec<u8>)
    requires
        from <= to <= bytes@.len(),
    ensures
        r@ == bytes@.subrange(from as int, to as int),
{
    let mut out: Vec<u8> = Vec::new();
    push_bytes(&mut out, vstd::slice::slice_subrange(bytes, from, to));
    assert(out@ =~= bytes@.subrange(from as int, to as int));
    out
}

} // verus!
