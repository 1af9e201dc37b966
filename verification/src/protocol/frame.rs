//! Frames and how they are spelled on the wire.

use super::endian::{self, push_le16, push_le32, read_le32};
use super::{MAGIC_0, MAGIC_1};
#[allow(unused_imports)]
use super::{CRC_SIZE, HDR_SIZE, MAX_FRAME, MAX_PAYLOAD};
use vstd::prelude::*;

verus! {

/// A frame as it is handed to a channel.
#[derive(Debug, Clone)]
pub struct Frame {
    pub ftype: u8,
    pub channel: u8,
    pub payload: Vec<u8>,
}

/// The value of a [`Frame`].
#[verifier::ext_equal]
pub struct FrameModel {
    pub ftype: u8,
    pub channel: u8,
    pub payload: Seq<u8>,
}

impl View for Frame {
    type V = FrameModel;

    open spec fn view(&self) -> FrameModel {
        FrameModel { ftype: self.ftype, channel: self.channel, payload: self.payload@ }
    }
}

/// The values of a list of frames.
pub open spec fn frame_models(frames: Seq<Frame>) -> Seq<FrameModel> {
    Seq::new(frames.len(), |i: int| frames[i]@)
}

/// The polynomial of the checksum, its bits in reverse order.
pub const CRC_POLYNOMIAL: u32 = 0xEDB8_8320;

/// The checksum register after `n` of its bits were shifted out: where a bit
/// that leaves is set, the polynomial is taken off the rest.
pub open spec fn crc_shifted(register: u32, n: nat) -> u32
    decreases n,
{
    if n == 0 {
        register
    } else {
        let r = crc_shifted(register, (n - 1) as nat);
        if r & 1 == 1 {
            (r >> 1) ^ CRC_POLYNOMIAL
        } else {
            r >> 1
        }
    }
}

/// The checksum register after a byte string: all ones at first, then each
/// byte is added at its low end and shifted out.
pub open spec fn crc_register(data: Seq<u8>) -> u32
    decreases data.len(),
{
    if data.len() == 0 {
        0xFFFF_FFFF
    } else {
        crc_shifted(crc_register(data.drop_last()) ^ (data.last() as u32), 8)
    }
}

/// The CRC-32 of a byte string (IEEE 802.3, as in zlib): the complement of the
/// register.
pub open spec fn crc32(data: Seq<u8>) -> u32 {
    !crc_register(data)
}

/// The checksum that a frame carries: zero for an empty payload.
pub open spec fn checksum(payload: Seq<u8>) -> u32 {
    if payload.len() == 0 {
        0
    } else {
        crc32(payload)
    }
}

/// Calls `crc32fast::hash`, whose result is the CRC-32 (IEEE) of `data`.
#[verifier::external_body]
fn crc32_hash(data: &[u8]) -> (crc: u32)
    ensures
        crc == crc32(data@),
{
    crc32fast::hash(data)
}

/// Computes the checksum of a payload.
pub fn payload_checksum(payload: &[u8]) -> (crc: u32)
    ensures
        crc == checksum(payload@),
{
    assert(!0xFFFF_FFFFu32 == 0) by (bit_vector);
    crc32_hash(payload)
}

/// The bytes of one frame with a given checksum.  The length field holds the
/// low 16 bits of the payload's length.
pub open spec fn frame_with_checksum(ftype: u8, channel: u8, payload: Seq<u8>, crc: u32) -> Seq<
    u8,
> {
    seq![MAGIC_0, MAGIC_1, ftype, channel] + endian::le16(payload.len()) + payload + endian::le32(
        crc,
    )
}

/// The bytes of one frame.
pub open spec fn frame_bytes(ftype: u8, channel: u8, payload: Seq<u8>) -> Seq<u8> {
    frame_with_checksum(ftype, channel, payload, checksum(payload))
}

/// The bytes of a frame given as a value.
pub open spec fn encoded(f: FrameModel) -> Seq<u8> {
    frame_bytes(f.ftype, f.channel, f.payload)
}

/// Put a frame together whose payload has the checksum `crc`.
pub fn assemble_frame(ftype: u8, channel: u8, payload: &[u8], crc: u32) -> (out: Vec<u8>)
    ensures
        out@ == frame_with_checksum(ftype, channel, payload@, crc),
{
    let mut out: Vec<u8> = Vec::new();
    out.push(MAGIC_0);
    out.push(MAGIC_1);
    out.push(ftype);
    out.push(channel);
    push_le16(&mut out, payload.len());
    out.extend_from_slice(payload);
    push_le32(&mut out, crc);
    assert(out@ =~= frame_with_checksum(ftype, channel, payload@, crc));
    out
}

/// Build a complete framed packet ready to push into the TX queue.
///
/// Layout: `[0xAA 0x55][ftype][channel][len_lo][len_hi][payload...][crc0..crc3]`
pub fn build_frame(ftype: u8, channel: u8, payload: &[u8]) -> (out: Vec<u8>)
    ensures
        out@ == frame_bytes(ftype, channel, payload@),
{
    let crc: u32 = payload_checksum(payload);
    assemble_frame(ftype, channel, payload, crc)
}

/// Whether the four bytes of a trailer spell the checksum `crc`.
pub fn trailer_fits(b0: u8, b1: u8, b2: u8, b3: u8, crc: u32) -> (fits: bool)
    ensures
        fits == (seq![b0, b1, b2, b3] == endian::le32(crc)),
{
    proof {
        endian::lemma_le32_inverse(b0, b1, b2, b3);
        endian::lemma_le32_roundtrip(crc);
    }
    let n: u32 = read_le32(b0, b1, b2, b3);
    n == crc
}

/// A frame is its payload plus ten bytes, and a payload within the limit
/// gives a frame within the limit.
pub proof fn lemma_frame_size(ftype: u8, channel: u8, payload: Seq<u8>)
    ensures
        frame_bytes(ftype, channel, payload).len() == HDR_SIZE + payload.len() + CRC_SIZE,
        payload.len() <= MAX_PAYLOAD ==> frame_bytes(ftype, channel, payload).len() <= MAX_FRAME,
{
}

/// Where each field of a frame stands.
pub proof fn lemma_frame_fields(ftype: u8, channel: u8, payload: Seq<u8>, rest: Seq<u8>)
    requires
        payload.len() <= MAX_PAYLOAD,
    ensures
        ({
            let s = frame_bytes(ftype, channel, payload) + rest;
            let n = payload.len() as int;
            &&& s.len() == HDR_SIZE + n + CRC_SIZE + rest.len()
            &&& s[0] == MAGIC_0
            &&& s[1] == MAGIC_1
            &&& s[2] == ftype
            &&& s[3] == channel
            &&& endian::from_le16(s[4], s[5]) == n
            &&& s.subrange(HDR_SIZE as int, HDR_SIZE + n) == payload
            &&& s.subrange(HDR_SIZE + n, HDR_SIZE + n + CRC_SIZE) == endian::le32(checksum(payload))
            &&& s.skip(HDR_SIZE + n + CRC_SIZE) == rest
        }),
{
    let s = frame_bytes(ftype, channel, payload) + rest;
    let n = payload.len() as int;
    endian::lemma_le16_roundtrip(payload.len());
    assert(s[4] == endian::le16(payload.len())[0]);
    assert(s[5] == endian::le16(payload.len())[1]);
    assert(s.subrange(HDR_SIZE as int, HDR_SIZE + n) =~= payload);
    assert(s.subrange(HDR_SIZE + n, HDR_SIZE + n + CRC_SIZE) =~= endian::le32(checksum(payload)));
    assert(s.skip(HDR_SIZE + n + CRC_SIZE) =~= rest);
}

/// What stands where in a frame: the two magic bytes, the type, the channel,
/// the payload's length with the low byte first, the payload, and the CRC-32 of
/// the payload with the low byte first, which is zero for an empty one.
pub proof fn law_frame_layout(ftype: u8, channel: u8, payload: Seq<u8>)
    requires
        payload.len() <= 16_384,
    ensures
        ({
            let s = frame_bytes(ftype, channel, payload);
            let n = payload.len() as int;
            let crc = if n == 0 {
                0
            } else {
                crc32(payload)
            };
            &&& s.len() == n + 10
            &&& s[0] == 0xAA && s[1] == 0x55
            &&& s[2] == ftype && s[3] == channel
            &&& s[4] + 256 * s[5] == n
            &&& s.subrange(6, 6 + n) == payload
            &&& s[n + 6] + 256 * s[n + 7] + 65_536 * s[n + 8] + 16_777_216 * s[n + 9] == crc
        }),
{
    let s = frame_bytes(ftype, channel, payload);
    let n = payload.len() as int;
    endian::lemma_le16_roundtrip(payload.len());
    endian::lemma_le32_roundtrip(checksum(payload));
    assert(s.subrange(6, 6 + n) =~= payload);
}

/// Frames that differ in anything differ on the wire.
pub proof fn law_frames_are_told_apart(a: FrameModel, b: FrameModel)
    requires
        a.payload.len() <= MAX_PAYLOAD,
        b.payload.len() <= MAX_PAYLOAD,
        encoded(a) == encoded(b),
    ensures
        a == b,
{
    law_frame_layout(a.ftype, a.channel, a.payload);
    law_frame_layout(b.ftype, b.channel, b.payload);
}

} // verus!
