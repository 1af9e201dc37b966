//! Variable-length integers of the Klipper message format.
//!
//! An integer is written in base 128, most significant digit first; every
//! byte but the last has its top bit set.  The first digit is signed: from 96
//! on it stands for a negative number.

use vstd::prelude::*;

verus! {

/// Why an integer could not be read.
#[derive(Debug, Clone, Copy, PartialEq, Eq, Structural)]
pub enum VlqError {
    /// The message ended inside the integer.
    Truncated,
}

/// The signed number that shares its 32 bits with `v`.
pub open spec fn signed(v: u32) -> int {
    if v < 0x8000_0000 {
        v as int
    } else {
        v - 0x1_0000_0000
    }
}

/// How many bytes a signed number takes.
pub open spec fn vlq_size(x: int) -> nat {
    if -32 <= x < 96 {
        1
    } else if -4096 <= x < 12288 {
        2
    } else if -524288 <= x < 1572864 {
        3
    } else if -67108864 <= x < 201326592 {
        4
    } else {
        5
    }
}

/// The lowest base-128 digit of a number.
pub open spec fn low_digit(x: int) -> int {
    x % 128
}

/// The bytes of `x` spread over `n` digits, all but the last marked as
/// continued.
pub open spec fn vlq_digits(x: int, n: nat) -> Seq<u8> {
    if n <= 1 {
        seq![low_digit(x) as u8]
    } else {
        vlq_continued(x / 128, (n - 1) as nat).push(low_digit(x) as u8)
    }
}

/// The bytes of the leading `n` digits of a longer number.
pub open spec fn vlq_continued(x: int, n: nat) -> Seq<u8>
    decreases n,
{
    if n <= 1 {
        seq![(128 + low_digit(x)) as u8]
    } else {
        vlq_continued(x / 128, (n - 1) as nat).push((128 + low_digit(x)) as u8)
    }
}

/// The bytes of an integer.
#[verifier::opaque]
pub open spec fn vlq(v: u32) -> Seq<u8> {
    vlq_digits(signed(v), vlq_size(signed(v)))
}

/// The signed value of a first digit.
pub open spec fn first_digit(b: u8) -> int {
    if b % 128 >= 96 {
        b % 128 - 128
    } else {
        (b % 128) as int
    }
}

/// What is read from `s` with `acc` in front: the number, in 32 bits, and the
/// bytes behind it.
pub open spec fn vlq_continue(acc: int, more: bool, s: Seq<u8>) -> Option<(u32, Seq<u8>)>
    decreases s.len(),
{
    if !more {
        Some(((acc % 0x1_0000_0000) as u32, s))
    } else if s.len() == 0 {
        None
    } else {
        vlq_continue(acc * 128 + s[0] % 128, s[0] >= 128, s.skip(1))
    }
}

/// What is read from `s`: the number and the bytes behind it, or nothing
/// where `s` ends too soon.
#[verifier::opaque]
pub open spec fn vlq_read(s: Seq<u8>) -> Option<(u32, Seq<u8>)> {
    if s.len() == 0 {
        None
    } else {
        vlq_continue(first_digit(s[0]), s[0] >= 128, s.skip(1))
    }
}

/// Adding a multiple of 128 keeps the lowest digit.
proof fn lemma_shifted_digit(q: int, k: int)
    ensures
        (q + 128 * k) % 128 == q % 128,
        (q + 128 * k) / 128 == q / 128 + k,
{
}

/// The bytes of an integer, written out for each size.
proof fn lemma_vlq_bytes(v: u32)
    ensures
        ({
            let x = signed(v);
            let b0 = (x % 128) as u8;
            let b1 = (128 + x / 128 % 128) as u8;
            let b2 = (128 + x / 128 / 128 % 128) as u8;
            let b3 = (128 + x / 128 / 128 / 128 % 128) as u8;
            let b4 = (128 + x / 128 / 128 / 128 / 128 % 128) as u8;
            vlq(v) == (if vlq_size(x) == 1 {
                seq![b0]
            } else if vlq_size(x) == 2 {
                seq![b1, b0]
            } else if vlq_size(x) == 3 {
                seq![b2, b1, b0]
            } else if vlq_size(x) == 4 {
                seq![b3, b2, b1, b0]
            } else {
                seq![b4, b3, b2, b1, b0]
            })
        }),
{
    reveal(vlq);
    reveal_with_fuel(vlq_continued, 5);
    let x = signed(v);
    let b0 = (x % 128) as u8;
    let b1 = (128 + x / 128 % 128) as u8;
    let b2 = (128 + x / 128 / 128 % 128) as u8;
    let b3 = (128 + x / 128 / 128 / 128 % 128) as u8;
    let b4 = (128 + x / 128 / 128 / 128 / 128 % 128) as u8;
    if vlq_size(x) == 2 {
        assert(vlq(v) =~= seq![b1, b0]);
    } else if vlq_size(x) == 3 {
        assert(vlq(v) =~= seq![b2, b1, b0]);
    } else if vlq_size(x) == 4 {
        assert(vlq(v) =~= seq![b3, b2, b1, b0]);
    } else if vlq_size(x) == 5 {
        assert(vlq(v) =~= seq![b4, b3, b2, b1, b0]);
    }
}

/// Appends an integer.
pub fn encode_vlq_int(output: &mut Vec<u8>, v: u32)
    ensures
        final(output)@ == old(output)@ + vlq(v),
{
    let sv: i64 = if v < 0x8000_0000 {
        v as i64
    } else {
        v as i64 - 0x1_0000_0000
    };
    // The same digits, without the sign.
    let w: u64 = (sv + 0x8_0000_0000) as u64;
    let w1: u64 = w / 128;
    let w2: u64 = w1 / 128;
    let w3: u64 = w2 / 128;
    let w4: u64 = w3 / 128;
    proof {
        let x = sv as int;
        lemma_shifted_digit(x, 0x1000_0000);
        lemma_shifted_digit(x / 128, 0x20_0000);
        lemma_shifted_digit(x / 128 / 128, 0x4000);
        lemma_shifted_digit(x / 128 / 128 / 128, 0x80);
        lemma_shifted_digit(x / 128 / 128 / 128 / 128, 1);
        lemma_vlq_bytes(v);
    }
    if !(-67108864 <= sv && sv < 201326592) {
        output.push((128 + w4 % 128) as u8);
    }
    if !(-524288 <= sv && sv < 1572864) {
        output.push((128 + w3 % 128) as u8);
    }
    if !(-4096 <= sv && sv < 12288) {
        output.push((128 + w2 % 128) as u8);
    }
    if !(-32 <= sv && sv < 96) {
        output.push((128 + w1 % 128) as u8);
    }
    output.push((w % 128) as u8);
    assert(output@ =~= old(output)@ + vlq(v));
}

/// Reads an integer from the front of `data` and moves `data` behind it.
/// Where `data` ends too soon, all of it is consumed.
pub fn parse_vlq_int(data: &mut &[u8]) -> (res: Result<u32, VlqError>)
    ensures
        match vlq_read((*old(data))@) {
            Some((v, rest)) => res == Ok::<u32, VlqError>(v) && (*final(data))@ == rest,
            None => res == Err::<u32, VlqError>(VlqError::Truncated) && (*final(data))@.len() == 0,
        },
{
    proof {
        reveal(vlq_read);
    }
    let d: &[u8] = *data;
    if d.len() == 0 {
        return Err(VlqError::Truncated);
    }
    let first: u8 = d[0];
    let mut v: u32 = if first % 128 >= 96 {
        0xFFFF_FF80 + (first % 128) as u32
    } else {
        (first % 128) as u32
    };
    let mut more: bool = first >= 128;
    let mut pos: usize = 1;
    let ghost mut acc: int = first_digit(first);
    while more
        invariant
            d@ == (*old(data))@,
            1 <= pos <= d@.len(),
            v == acc % 0x1_0000_0000,
            vlq_continue(acc, more, d@.skip(pos as int)) == vlq_read(d@),
        decreases d@.len() - pos + (if more { 1int } else { 0int }),
    {
        if pos == d.len() {
            *data = &d[d.len()..d.len()];
            return Err(VlqError::Truncated);
        }
        let c: u8 = d[pos];
        let low: u32 = v % 0x200_0000;
        proof {
            let q = acc / 0x1_0000_0000;
            assert(acc == q * 0x1_0000_0000 + v);
            let k = v / 0x200_0000;
            assert((acc * 128 + c % 128) % 0x1_0000_0000 == low * 128 + c % 128) by {
                assert(acc * 128 == (q * 128 + k) * 0x1_0000_0000 + low * 128);
            }
            acc = acc * 128 + c % 128;
            assert(d@.skip(pos as int).skip(1) =~= d@.skip(pos + 1));
        }
        v = low * 128 + (c % 128) as u32;
        more = c >= 128;
        pos += 1;
    }
    *data = &d[pos..d.len()];
    Ok(v)
}

proof fn lemma_continue(x: int, n: nat, rest: Seq<u8>)
    requires
        n >= 1,
        n == 1 ==> -32 <= x < 96,
        n == 2 ==> -4096 <= x < 12288,
        n == 3 ==> -524288 <= x < 1572864,
        n == 4 ==> -67108864 <= x < 201326592,
        n <= 4,
    ensures
        vlq_read(vlq_continued(x, n) + rest) == vlq_continue(x, true, rest),
    decreases n,
{
    reveal(vlq_read);
    let s = vlq_continued(x, n) + rest;
    if n == 1 {
        assert(s[0] == 128 + x % 128);
        assert(s.skip(1) =~= rest);
    } else {
        let b = (128 + low_digit(x)) as u8;
        let tail = seq![b] + rest;
        assert(s =~= vlq_continued(x / 128, (n - 1) as nat) + tail);
        lemma_continue(x / 128, (n - 1) as nat, tail);
        assert(tail.skip(1) =~= rest);
    }
}

/// An integer that was written is read back as it was, whatever follows it.
pub proof fn law_vlq_roundtrip(v: u32, rest: Seq<u8>)
    ensures
        vlq_read(vlq(v) + rest) == Some((v, rest)),
{
    reveal(vlq);
    reveal(vlq_read);
    let x = signed(v);
    let n = vlq_size(x);
    let s = vlq(v) + rest;
    if n == 1 {
        assert(s[0] == x % 128);
        assert(s.skip(1) =~= rest);
        assert(first_digit(s[0]) == x);
        assert((x % 0x1_0000_0000) as u32 == v);
    } else {
        let b = low_digit(x) as u8;
        let tail = seq![b] + rest;
        assert(s =~= vlq_continued(x / 128, (n - 1) as nat) + tail);
        lemma_continue(x / 128, (n - 1) as nat, tail);
        assert(tail.skip(1) =~= rest);
        assert(x / 128 * 128 + b % 128 == x);
        reveal_with_fuel(vlq_continue, 2);
        assert((x % 0x1_0000_0000) as u32 == v);
    }
}

proof fn lemma_continue_shrinks(acc: int, more: bool, s: Seq<u8>)
    ensures
        vlq_continue(acc, more, s) matches Some((v, rest)) ==> rest.len() <= s.len(),
    decreases s.len(),
{
    if more && s.len() > 0 {
        lemma_continue_shrinks(acc * 128 + s[0] % 128, s[0] >= 128, s.skip(1));
    }
}

/// Reading an integer consumes at least one byte.
pub proof fn lemma_vlq_read_shrinks(s: Seq<u8>)
    ensures
        vlq_read(s) matches Some((v, rest)) ==> rest.len() < s.len(),
{
    reveal(vlq_read);
    if s.len() > 0 {
        lemma_continue_shrinks(first_digit(s[0]), s[0] >= 128, s.skip(1));
    }
}

/// An integer whose last byte is missing is not read.
pub proof fn law_unfinished_integer_is_not_read(s: Seq<u8>)
    requires
        forall|i: int| 0 <= i < s.len() ==> #[trigger] s[i] >= 128,
    ensures
        vlq_read(s) is None,
{
    reveal(vlq_read);
    if s.len() > 0 {
        assert(s[0] >= 128);
        assert forall|i: int| 0 <= i < s.skip(1).len() implies #[trigger] s.skip(1)[i] >= 128 by {
            assert(s[i + 1] >= 128);
        }
        lemma_continue_needs_an_end(first_digit(s[0]), s.skip(1));
    }
}

proof fn lemma_continue_needs_an_end(acc: int, s: Seq<u8>)
    requires
        forall|i: int| 0 <= i < s.len() ==> #[trigger] s[i] >= 128,
    ensures
        vlq_continue(acc, true, s) is None,
    decreases s.len(),
{
    if s.len() > 0 {
        assert(s[0] >= 128);
        assert forall|i: int| 0 <= i < s.skip(1).len() implies #[trigger] s.skip(1)[i] >= 128 by {
            assert(s[i + 1] >= 128);
        }
        lemma_continue_needs_an_end(acc * 128 + s[0] % 128, s.skip(1));
    }
}

/// An integer is written in base 128, most significant digit first, with the
/// top bit set in all bytes but the last: one byte up to 95, two up to 12287.
pub proof fn law_vlq_digits(v: u32)
    ensures
        v < 96 ==> vlq(v) == seq![v as u8],
        96 <= v < 12288 ==> vlq(v) == seq![(128 + v / 128) as u8, (v % 128) as u8],
        1 <= vlq(v).len() <= 5,
        forall|i: int| 0 <= i < vlq(v).len() - 1 ==> #[trigger] vlq(v)[i] >= 128,
        vlq(v).last() < 128,
{
    lemma_vlq_bytes(v);
}

} // verus!
