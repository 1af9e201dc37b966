//! Little-endian integers on the wire.

use vstd::prelude::*;

verus! {

/// The two bytes of `n % 65536`, least significant first.
pub open spec fn le16(n: nat) -> Seq<u8> {
    seq![(n % 256) as u8, (n / 256 % 256) as u8]
}

/// The number that two bytes spell, least significant first.
pub open spec fn from_le16(b0: u8, b1: u8) -> nat {
    (b0 as nat) + 256 * (b1 as nat)
}

/// The four bytes of `n`, least significant first.
pub open spec fn le32(n: u32) -> Seq<u8> {
    seq![
        (n % 256) as u8,
        (n / 256 % 256) as u8,
        (n / 65536 % 256) as u8,
        (n / 16777216 % 256) as u8,
    ]
}

/// The number that four bytes spell, least significant first.
pub open spec fn from_le32(b0: u8, b1: u8, b2: u8, b3: u8) -> nat {
    (b0 as nat) + 256 * (b1 as nat) + 65536 * (b2 as nat) + 16777216 * (b3 as nat)
}

/// Reading back a 16-bit number gives the number that was written.
pub proof fn lemma_le16_roundtrip(n: nat)
    ensures
        from_le16(le16(n)[0], le16(n)[1]) == n % 65536,
{
    assert(n % 65536 == n % 256 + 256 * (n / 256 % 256));
}

/// Two bytes are the 16-bit spelling of the number they are read as.
pub proof fn lemma_le16_inverse(b0: u8, b1: u8)
    ensures
        le16(from_le16(b0, b1)) == seq![b0, b1],
{
    let n = from_le16(b0, b1);
    assert(n % 256 == b0 && n / 256 == b1);
    assert(le16(n) =~= seq![b0, b1]);
}

/// Reading back a 32-bit number gives the number that was written.
pub proof fn lemma_le32_roundtrip(n: u32)
    ensures
        from_le32(le32(n)[0], le32(n)[1], le32(n)[2], le32(n)[3]) == n,
{
    assert(n == n % 256 + 256 * (n / 256 % 256) + 65536 * (n / 65536 % 256) + 16777216 * (n
        / 16777216 % 256)) by {
        assert(n / 65536 == n / 256 / 256);
        assert(n / 16777216 == n / 256 / 256 / 256);
        assert(n / 16777216 < 256);
    }
}

/// Four bytes are the 32-bit spelling of the number they are read as.
pub proof fn lemma_le32_inverse(b0: u8, b1: u8, b2: u8, b3: u8)
    ensures
        from_le32(b0, b1, b2, b3) <= u32::MAX,
        le32(from_le32(b0, b1, b2, b3) as u32) == seq![b0, b1, b2, b3],
{
    let n = from_le32(b0, b1, b2, b3);
    assert(n / 256 == b1 as nat + 256 * (b2 as nat) + 65536 * (b3 as nat));
    assert(n / 65536 == b2 as nat + 256 * (b3 as nat));
    assert(n / 16777216 == b3);
    assert(le32(n as u32) =~= seq![b0, b1, b2, b3]);
}

/// Appends the low 16 bits of `n`, least significant byte first.
pub fn push_le16(out: &mut Vec<u8>, n: usize)
    ensures
        final(out)@ == old(out)@ + le16(n as nat),
{
    out.push((n % 256) as u8);
    out.push((n / 256 % 256) as u8);
    assert(out@ =~= old(out)@ + le16(n as nat));
}

/// Appends `n`, least significant byte first.
pub fn push_le32(out: &mut Vec<u8>, n: u32)
    ensures
        final(out)@ == old(out)@ + le32(n),
{
    out.push((n % 256) as u8);
    out.push((n / 256 % 256) as u8);
    out.push((n / 65536 % 256) as u8);
    out.push((n / 16777216 % 256) as u8);
    assert(out@ =~= old(out)@ + le32(n));
}

/// Reads a 32-bit number, least significant byte first.
pub fn read_le32(b0: u8, b1: u8, b2: u8, b3: u8) -> (n: u32)
    ensures
        n == from_le32(b0, b1, b2, b3),
{
    b0 as u32 + 256 * (b1 as u32) + 65536 * (b2 as u32) + 16777216 * (b3 as u32)
}

} // verus!
