//! Thirty-two bit integers as four bytes, most significant byte first.

use vstd::prelude::*;

verus! {

/// The four bytes of `x`, most significant first.
#[verifier::opaque]
pub open spec fn be32(x: u32) -> Seq<u8> {
    seq![
        (x / 0x100_0000) as u8,
        ((x / 0x1_0000) % 0x100) as u8,
        ((x / 0x100) % 0x100) as u8,
        (x % 0x100) as u8,
    ]
}

/// The integer that the first four bytes of `s` spell, most significant
/// first.
pub open spec fn from_be32(s: Seq<u8>) -> int
    recommends
        s.len() >= 4,
{
    s[0] * 0x100_0000 + s[1] * 0x1_0000 + s[2] * 0x100 + s[3]
}

/// Reading back the bytes of an integer gives the integer.
pub proof fn lemma_from_be32_of_be32(x: u32)
    ensures
        be32(x).len() == 4,
        from_be32(be32(x)) == x,
{
    reveal(be32);
}

/// Four bytes spell an integer that fits in thirty-two bits, and writing
/// that integer gives the four bytes back.
pub proof fn lemma_be32_of_from_be32(s: Seq<u8>)
    requires
        s.len() == 4,
    ensures
        0 <= from_be32(s) <= u32::MAX,
        be32(from_be32(s) as u32) == s,
{
    reveal(be32);
    lemma_digits(s[0], s[1], s[2], s[3]);
    assert(be32(from_be32(s) as u32) =~= s);
}

/// Four digits in base 256 can be read back from the number they spell.
proof fn lemma_digits(a: u8, b: u8, c: u8, d: u8)
    ensures
        ({
            let x = a * 0x100_0000 + b * 0x1_0000 + c * 0x100 + d;
            &&& 0 <= x <= u32::MAX
            &&& x / 0x100_0000 == a
            &&& (x / 0x1_0000) % 0x100 == b
            &&& (x / 0x100) % 0x100 == c
            &&& x % 0x100 == d
        }),
{
    let x = a * 0x100_0000 + b * 0x1_0000 + c * 0x100 + d;
    assert(x / 0x100_0000 == a);
    assert(x / 0x1_0000 == a * 0x100 + b);
    assert(x / 0x100 == a * 0x1_0000 + b * 0x100 + c);
}

/// Writes `x` as four bytes, most significant first.
pub fn u32_to_be_bytes(x: u32) -> (r: [u8; 4])
    ensures
        r@ == be32(x),
{
    let r: [u8; 4] = [
        (x / 0x100_0000) as u8,
        ((x / 0x1_0000) % 0x100) as u8,
        ((x / 0x100) % 0x100) as u8,
        (x % 0x100) as u8,
    ];
    proof {
        reveal(be32);
    }
    assert(r@ =~= be32(x));
    r
}

/// Reads four bytes, most significant first, as an integer.
pub fn u32_from_be_bytes(b: &[u8]) -> (r: u32)
    requires
        b@.len() == 4,
    ensures
        r == from_be32(b@),
        be32(r) == b@,
{
    proof {
        lemma_be32_of_from_be32(b@);
    }
    (b[0] as u32) * 0x100_0000 + (b[1] as u32) * 0x1_0000 + (b[2] as u32) * 0x100 + (b[3] as u32)
}

} // verus!
