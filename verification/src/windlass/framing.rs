//! Tunnel-link framing codecs.
//!
//! Three codecs are provided:
//!
//! * [`TunnelCodec`]: encodes / decodes the **CDC tunnel** format,
//!   `[ch_id:u8][raw Klipper frame]`.  Used on both exporter and host sides
//!   when reading from / writing to the USB CDC ACM link.
//!
//! * [`PayloadTunnelCodec`]: encodes / decodes the **smart-proxy tunnel**
//!   format, `[ch_id:u8][payload_len:u8][payload:payload_len bytes]`.  Used
//!   in smart-proxy mode where the Klipper wire protocol is terminated at each
//!   end and only the decoded payload bytes cross the CDC link.
//!
//! * [`KlipperFramer`]: decodes a **raw Klipper serial stream** into
//!   individual complete Klipper frames (5 to 64 bytes, sync-byte terminated).
//!   Used by the exporter when reading from a UART and by the host when
//!   reading commands back from Klipper via the Unix socket.

use super::buffer::{
    self, buffer_advance, buffer_clear, buffer_extend, buffer_freeze, buffer_put_u8,
    buffer_reserve, buffer_slice, buffer_split_to, frozen_clone, frozen_slice,
};
use crate::text::render_number;
#[allow(unused_imports)]
use crate::text;
use bytes::{Bytes, BytesMut};
use vstd::prelude::*;

verus! {

/// Minimum Klipper frame size: 2 header bytes + 3 trailer bytes.
pub const MESSAGE_LENGTH_MIN: usize = 5;

/// Maximum Klipper frame size (Klipper protocol hard limit).
pub const MESSAGE_LENGTH_MAX: usize = 64;

/// Klipper sync / end-of-frame byte.
pub const MESSAGE_VALUE_SYNC: u8 = 0x7E;

/// Channel ID reserved for the smart-proxy control channel.
pub const CTRL_CH: u8 = 0xFF;

/// Control payload type: dictionary fragment bytes.
pub const CTRL_DICT_FRAG: u8 = 0x01;

/// Control payload type: dictionary transfer complete (no additional bytes).
pub const CTRL_DICT_DONE: u8 = 0x02;

/// Maximum dictionary bytes per [`CTRL_DICT_FRAG`] payload.
///
/// A `DICT_FRAG` control payload is `[ type:1 ][ ch_id:1 ][ dict_bytes:n ]`.
/// The outer [`PayloadTunnelCodec`] limits the total payload to 255 bytes, so
/// `n <= 255 - 2 = 253`.
pub const DICT_FRAG_MAX: usize = 253;

/// Maximum payload bytes in one smart-proxy tunnel packet.
pub const PAYLOAD_MAX: usize = 255;

/// What a codec can refuse.
#[derive(Debug, Clone, Copy, PartialEq, Eq, Structural)]
pub enum FramingError {
    /// A smart-proxy payload of this many bytes exceeds the 255-byte limit.
    PayloadTooLong(usize),
}

impl FramingError {
    /// The text of the error.
    pub open spec fn text(self) -> Seq<char> {
        match self {
            FramingError::PayloadTooLong(n) => "smart-proxy payload "@ + text::decimal(n as nat)
                + " bytes exceeds 255-byte limit"@,
        }
    }

    /// Describe the error.
    pub fn message(&self) -> (m: String)
        ensures
            m@ == self.text(),
    {
        match self {
            FramingError::PayloadTooLong(n) => {
                let mut m: String = "smart-proxy payload ".to_owned();
                m.append(render_number(*n as u64).as_str());
                m.append(" bytes exceeds 255-byte limit");
                m
            },
        }
    }
}

/// A length byte that a Klipper frame can start with.
pub open spec fn is_frame_length(b: u8) -> bool {
    MESSAGE_LENGTH_MIN <= b <= MESSAGE_LENGTH_MAX
}

/// A complete Klipper frame: its first byte is its length, its last the sync
/// byte.
pub open spec fn is_klipper_frame(f: Seq<u8>) -> bool {
    &&& f.len() > 0
    &&& is_frame_length(f[0])
    &&& f.len() == f[0]
    &&& f.last() == MESSAGE_VALUE_SYNC
}

/// A single tunnel packet: one complete Klipper frame tagged with a channel ID.
#[derive(Debug)]
pub struct TunnelFrame {
    /// Channel index (0 to 255).
    pub ch_id: u8,
    /// Complete raw Klipper frame (length byte at `[0]`, sync byte at `[end]`).
    pub frame: bytes::Bytes,
}

/// The value of a [`TunnelFrame`].
#[verifier::ext_equal]
pub struct TunnelModel {
    pub ch_id: u8,
    pub frame: Seq<u8>,
}

impl View for TunnelFrame {
    type V = TunnelModel;

    open spec fn view(&self) -> TunnelModel {
        TunnelModel { ch_id: self.ch_id, frame: buffer::frozen_bytes(self.frame) }
    }
}

impl Clone for TunnelFrame {
    fn clone(&self) -> (c: Self)
        ensures
            c@ == self@,
    {
        TunnelFrame { ch_id: self.ch_id, frame: frozen_clone(&self.frame) }
    }
}

/// Codec for the CDC tunnel link.
///
/// ## Wire layout
///
/// ```text
/// [ ch_id : u8 ][ klipper_frame : frame_len bytes ]
/// ```
///
/// `klipper_frame[0]` is the Klipper frame length (5 to 64).  The codec reads
/// that byte first to know how many bytes constitute the complete frame, so
/// it never needs a separate length prefix on the tunnel wire.
///
/// ## Resync
///
/// If `klipper_frame[0]` is outside the valid range (5 to 64), or the frame
/// does not end in the sync byte, the codec discards the `ch_id` byte and
/// re-tries from the next byte.
pub struct TunnelCodec;

impl Default for TunnelCodec {
    fn default() -> Self {
        TunnelCodec
    }
}

/// What the tunnel decoder takes from a byte string: the first packet, if a
/// complete one is there, and the bytes left over.
pub open spec fn tunnel_decoded(s: Seq<u8>) -> (Option<TunnelModel>, Seq<u8>)
    decreases s.len(),
{
    if s.len() < 2 {
        (None, s)
    } else if !is_frame_length(s[1]) {
        tunnel_decoded(s.skip(1))
    } else if s.len() < 1 + s[1] {
        (None, s)
    } else if s[s[1] as int] != MESSAGE_VALUE_SYNC {
        tunnel_decoded(s.skip(1))
    } else {
        (
            Some(TunnelModel { ch_id: s[0], frame: s.subrange(1, 1 + s[1]) }),
            s.skip(1 + s[1]),
        )
    }
}

/// The bytes of a tunnel packet.
pub open spec fn tunnel_encoded(f: TunnelModel) -> Seq<u8> {
    seq![f.ch_id] + f.frame
}

impl TunnelCodec {
    /// Takes the next packet from `src`, or `None` where it is not complete.
    pub fn decode(&mut self, src: &mut BytesMut) -> (res: Result<
        Option<TunnelFrame>,
        FramingError,
    >)
        ensures
            res matches Ok(item) && (match item {
                Some(f) => tunnel_decoded(buffer::buffer_bytes(*old(src))).0 == Some(f@),
                None => tunnel_decoded(buffer::buffer_bytes(*old(src))).0 is None,
            }),
            buffer::buffer_bytes(*final(src)) == tunnel_decoded(
                buffer::buffer_bytes(*old(src)),
            ).1,
    {
        loop
            invariant
                tunnel_decoded(buffer::buffer_bytes(*src)) == tunnel_decoded(
                    buffer::buffer_bytes(*old(src)),
                ),
            decreases buffer::buffer_bytes(*src).len(),
        {
            let ghost s = buffer::buffer_bytes(*src);
            let len: usize = buffer_slice(src).len();
            if len < 2 {
                return Ok(None);
            }
            let ch_id: u8 = buffer_slice(src)[0];
            let frame_len: usize = buffer_slice(src)[1] as usize;
            if frame_len < MESSAGE_LENGTH_MIN || frame_len > MESSAGE_LENGTH_MAX {
                // Bad length: skip the ch_id byte and re-try.
                buffer_advance(src, 1);
                continue ;
            }
            // Need ch_id (1) + full Klipper frame.
            let total: usize = 1 + frame_len;
            if len < total {
                buffer_reserve(src, total - len);
                return Ok(None);
            }
            if buffer_slice(src)[total - 1] != MESSAGE_VALUE_SYNC {
                // Bad trailing sync byte: skip one byte and re-try.
                buffer_advance(src, 1);
                continue ;
            }
            buffer_advance(src, 1);
            let frame: Bytes = buffer_freeze(buffer_split_to(src, frame_len));
            proof {
                assert(s.skip(1).take(frame_len as int) =~= s.subrange(1, 1 + frame_len));
                assert(s.skip(1).skip(frame_len as int) =~= s.skip(1 + frame_len));
            }
            return Ok(Some(TunnelFrame { ch_id, frame }));
        }
    }

    /// Appends a packet to `dst`.
    pub fn encode(&mut self, item: TunnelFrame, dst: &mut BytesMut) -> (res: Result<
        (),
        FramingError,
    >)
        requires
            buffer::buffer_bytes(*old(dst)).len() + tunnel_encoded(item@).len() <= isize::MAX,
        ensures
            res == Ok::<(), FramingError>(()),
            buffer::buffer_bytes(*final(dst)) == buffer::buffer_bytes(*old(dst)) + tunnel_encoded(
                item@,
            ),
    {
        let frame: &[u8] = frozen_slice(&item.frame);
        buffer_reserve(dst, 1 + frame.len());
        buffer_put_u8(dst, item.ch_id);
        buffer_extend(dst, frame);
        assert(buffer::buffer_bytes(*dst) =~= buffer::buffer_bytes(*old(dst)) + tunnel_encoded(
            item@,
        ));
        Ok(())
    }
}

/// A tunnel packet that was encoded is decoded to what it was, whatever
/// follows it, and exactly its bytes are consumed.
pub proof fn law_tunnel_roundtrip(f: TunnelModel, rest: Seq<u8>)
    requires
        is_klipper_frame(f.frame),
    ensures
        tunnel_decoded(tunnel_encoded(f) + rest) == (Some(f), rest),
{
    let s = tunnel_encoded(f) + rest;
    assert(s[1] == f.frame[0]);
    assert(s.subrange(1, 1 + s[1]) =~= f.frame);
    assert(s.skip(1 + s[1]) =~= rest);
}

/// The tunnel adds one byte to a frame.
pub proof fn law_tunnel_overhead_is_one_byte(f: TunnelModel)
    ensures
        tunnel_encoded(f).len() == f.frame.len() + 1,
{
}

/// Decoding does not depend on how the stream was cut: bytes that arrive
/// later neither change a packet that was complete nor lose anything that was
/// held back.
pub proof fn law_tunnel_decoding_ignores_chunk_boundaries(a: Seq<u8>, b: Seq<u8>)
    ensures
        tunnel_decoded(a).0 is Some ==> tunnel_decoded(a + b) == (
            tunnel_decoded(a).0,
            tunnel_decoded(a).1 + b,
        ),
        tunnel_decoded(a).0 is None ==> tunnel_decoded(a + b) == tunnel_decoded(
            tunnel_decoded(a).1 + b,
        ),
    decreases a.len(),
{
    let s = a + b;
    if a.len() < 2 {
    } else if !is_frame_length(a[1]) {
        assert(s.skip(1) =~= a.skip(1) + b);
        law_tunnel_decoding_ignores_chunk_boundaries(a.skip(1), b);
    } else if a.len() < 1 + a[1] {
    } else if a[a[1] as int] != MESSAGE_VALUE_SYNC {
        assert(s.skip(1) =~= a.skip(1) + b);
        law_tunnel_decoding_ignores_chunk_boundaries(a.skip(1), b);
    } else {
        assert(s.subrange(1, 1 + s[1]) =~= a.subrange(1, 1 + a[1]));
        assert(s.skip(1 + s[1]) =~= a.skip(1 + a[1]) + b);
    }
}

/// Every packet that the tunnel decoder gives out holds a complete Klipper
/// frame, and its bytes stand in the stream right before what is left.
pub proof fn law_tunnel_packets_are_whole(s: Seq<u8>)
    ensures
        tunnel_decoded(s).0 matches Some(f) ==> is_klipper_frame(f.frame) && ({
            let n = s.len() - tunnel_decoded(s).1.len();
            &&& n >= tunnel_encoded(f).len()
            &&& s.subrange(n - tunnel_encoded(f).len(), n) == tunnel_encoded(f)
            &&& s.skip(n) == tunnel_decoded(s).1
        }),
    decreases s.len(),
{
    if s.len() < 2 {
    } else if !is_frame_length(s[1]) {
        lemma_tunnel_skip(s);
    } else if s.len() < 1 + s[1] {
    } else if s[s[1] as int] != MESSAGE_VALUE_SYNC {
        lemma_tunnel_skip(s);
    } else {
        let f = tunnel_decoded(s).0->Some_0;
        assert(s.subrange(0, 1 + s[1]) =~= tunnel_encoded(f));
    }
}

proof fn lemma_tunnel_skip(s: Seq<u8>)
    requires
        s.len() >= 2,
        tunnel_decoded(s) == tunnel_decoded(s.skip(1)),
    ensures
        tunnel_decoded(s).0 matches Some(f) ==> is_klipper_frame(f.frame) && ({
            let n = s.len() - tunnel_decoded(s).1.len();
            &&& n >= tunnel_encoded(f).len()
            &&& s.subrange(n - tunnel_encoded(f).len(), n) == tunnel_encoded(f)
            &&& s.skip(n) == tunnel_decoded(s).1
        }),
    decreases s.len(), 0int,
{
    let t = s.skip(1);
    law_tunnel_packets_are_whole(t);
    if tunnel_decoded(s).0 is Some {
        let f = tunnel_decoded(s).0->Some_0;
        let n = s.len() - tunnel_decoded(s).1.len();
        let k = tunnel_encoded(f).len();
        assert(s.subrange(n - k, n) =~= t.subrange(n - 1 - k, n - 1));
        assert(s.skip(n) =~= t.skip(n - 1));
    }
}

/// A smart-proxy tunnel packet: decoded Klipper payload bytes tagged with a
/// channel ID.
///
/// Wire format: `[ch_id:u8][payload_len:u8][payload:payload_len bytes]`
///
/// `payload` is the inner Klipper message: the variable-length content that
/// sits between the two-byte frame header and the three-byte trailer in the
/// on-wire Klipper format.  The CDC link carries *only* these bytes; no CRC,
/// sequence number, or sync byte is present.
///
/// `ch_id = 0xFF` ([`CTRL_CH`]) is reserved for the control channel (dictionary
/// forwarding and other future control messages).
#[derive(Debug)]
pub struct PayloadTunnelFrame {
    /// Channel index (0 to 254 for MCU data; 255 = control).
    pub ch_id: u8,
    /// Decoded Klipper payload (0 to 255 bytes).
    pub payload: bytes::Bytes,
}

/// The value of a [`PayloadTunnelFrame`].
#[verifier::ext_equal]
pub struct PayloadModel {
    pub ch_id: u8,
    pub payload: Seq<u8>,
}

impl View for PayloadTunnelFrame {
    type V = PayloadModel;

    open spec fn view(&self) -> PayloadModel {
        PayloadModel { ch_id: self.ch_id, payload: buffer::frozen_bytes(self.payload) }
    }
}

impl Clone for PayloadTunnelFrame {
    fn clone(&self) -> (c: Self)
        ensures
            c@ == self@,
    {
        PayloadTunnelFrame { ch_id: self.ch_id, payload: frozen_clone(&self.payload) }
    }
}

/// Codec for the smart-proxy CDC tunnel link.
///
/// ## Wire layout
///
/// ```text
/// [ ch_id : u8 ][ payload_len : u8 ][ payload : payload_len bytes ]
/// ```
///
/// `payload` is the decoded Klipper message bytes: no Klipper wire framing
/// (no length byte, no seq byte, no CRC, no sync byte).  Klipper's transport
/// sessions are terminated at each end of the CDC link, so the link only
/// carries clean application payloads.
///
/// A zero-length payload is valid.
pub struct PayloadTunnelCodec;

impl Default for PayloadTunnelCodec {
    fn default() -> Self {
        PayloadTunnelCodec
    }
}

/// What the smart-proxy decoder takes from a byte string: the first packet,
/// if it is complete, and the bytes left over.
pub open spec fn payload_decoded(s: Seq<u8>) -> (Option<PayloadModel>, Seq<u8>) {
    if s.len() < 2 || s.len() < 2 + s[1] {
        (None, s)
    } else {
        (
            Some(PayloadModel { ch_id: s[0], payload: s.subrange(2, 2 + s[1]) }),
            s.skip(2 + s[1]),
        )
    }
}

/// The bytes of a smart-proxy packet.
pub open spec fn payload_encoded(f: PayloadModel) -> Seq<u8> {
    seq![f.ch_id, f.payload.len() as u8] + f.payload
}

impl PayloadTunnelCodec {
    /// Takes the next packet from `src`, or `None` where it is not complete.
    pub fn decode(&mut self, src: &mut BytesMut) -> (res: Result<
        Option<PayloadTunnelFrame>,
        FramingError,
    >)
        ensures
            res matches Ok(item) && (match item {
                Some(f) => payload_decoded(buffer::buffer_bytes(*old(src))).0 == Some(f@),
                None => payload_decoded(buffer::buffer_bytes(*old(src))).0 is None,
            }),
            buffer::buffer_bytes(*final(src)) == payload_decoded(
                buffer::buffer_bytes(*old(src)),
            ).1,
    {
        let ghost s = buffer::buffer_bytes(*src);
        let len: usize = buffer_slice(src).len();
        if len < 2 {
            return Ok(None);
        }
        let ch_id: u8 = buffer_slice(src)[0];
        let payload_len: usize = buffer_slice(src)[1] as usize;
        let total: usize = 2 + payload_len;
        if len < total {
            buffer_reserve(src, total - len);
            return Ok(None);
        }
        buffer_advance(src, 2);
        let payload: Bytes = buffer_freeze(buffer_split_to(src, payload_len));
        proof {
            assert(s.skip(2).take(payload_len as int) =~= s.subrange(2, 2 + payload_len));
            assert(s.skip(2).skip(payload_len as int) =~= s.skip(2 + payload_len));
        }
        Ok(Some(PayloadTunnelFrame { ch_id, payload }))
    }

    /// Appends a packet to `dst`; a payload over the limit is refused, and
    /// `dst` then stays as it was.
    pub fn encode(&mut self, item: PayloadTunnelFrame, dst: &mut BytesMut) -> (res: Result<
        (),
        FramingError,
    >)
        requires
            buffer::buffer_bytes(*old(dst)).len() + 2 + PAYLOAD_MAX <= isize::MAX,
        ensures
            ({
                let n = item@.payload.len();
                let d0 = buffer::buffer_bytes(*old(dst));
                let d1 = buffer::buffer_bytes(*final(dst));
                if n > PAYLOAD_MAX {
                    res == Err::<(), FramingError>(FramingError::PayloadTooLong(n as usize)) && d1
                        == d0
                } else {
                    res == Ok::<(), FramingError>(()) && d1 == d0 + payload_encoded(item@)
                }
            }),
    {
        let payload: &[u8] = frozen_slice(&item.payload);
        let len: usize = payload.len();
        if len > PAYLOAD_MAX {
            return Err(FramingError::PayloadTooLong(len));
        }
        buffer_reserve(dst, 2 + len);
        buffer_put_u8(dst, item.ch_id);
        buffer_put_u8(dst, len as u8);
        buffer_extend(dst, payload);
        assert(buffer::buffer_bytes(*dst) =~= buffer::buffer_bytes(*old(dst)) + payload_encoded(
            item@,
        ));
        Ok(())
    }
}

/// A smart-proxy packet that was encoded is decoded to what it was, whatever
/// follows it, and exactly its bytes are consumed.
pub proof fn law_payload_roundtrip(f: PayloadModel, rest: Seq<u8>)
    requires
        f.payload.len() <= PAYLOAD_MAX,
    ensures
        payload_decoded(payload_encoded(f) + rest) == (Some(f), rest),
{
    let s = payload_encoded(f) + rest;
    assert(s.subrange(2, 2 + s[1]) =~= f.payload);
    assert(s.skip(2 + s[1]) =~= rest);
}

/// Decoding does not depend on how the stream was cut.
pub proof fn law_payload_decoding_ignores_chunk_boundaries(a: Seq<u8>, b: Seq<u8>)
    ensures
        payload_decoded(a).0 is Some ==> payload_decoded(a + b) == (
            payload_decoded(a).0,
            payload_decoded(a).1 + b,
        ),
        payload_decoded(a).0 is None ==> payload_decoded(a).1 == a,
{
    if payload_decoded(a).0 is Some {
        let s = a + b;
        assert(s.subrange(2, 2 + s[1]) =~= a.subrange(2, 2 + a[1]));
        assert(s.skip(2 + s[1]) =~= a.skip(2 + a[1]) + b);
    }
}

/// Codec that splits a raw Klipper serial byte stream into individual
/// complete Klipper frames.
///
/// ## Frame structure
///
/// ```text
/// [ len : u8 ][ seq : u8 ][ payload... ][ crc_hi : u8 ][ crc_lo : u8 ][ 0x7E ]
/// ```
///
/// The `len` byte is the total frame length including header and trailer.
/// Minimum is 5, maximum is 64.
///
/// ## Sync and resync
///
/// The codec uses a simple two-phase strategy:
///
/// 1. **Unsynced**: scan for the `0x7E` sync byte; once found, transition to
///    synced state.
/// 2. **Synced**: read the first non-sync byte as the frame length; collect
///    that many bytes; validate that the last byte is `0x7E`.  On any
///    inconsistency, fall back to unsynced state.
pub struct KlipperFramer {
    synced: bool,
}

/// What a framer makes of a byte string: the first frame, if a complete one
/// is there, whether the framer is in sync then, and the bytes left over.
pub open spec fn framed(synced: bool, s: Seq<u8>) -> (Option<Seq<u8>>, bool, Seq<u8>)
    decreases s.len(),
{
    if s.len() == 0 {
        (None, synced, s)
    } else if !synced {
        framed(s[0] == MESSAGE_VALUE_SYNC, s.skip(1))
    } else if s[0] == MESSAGE_VALUE_SYNC {
        framed(true, s.skip(1))
    } else if !is_frame_length(s[0]) {
        framed(false, s.skip(1))
    } else if s.len() < s[0] {
        (None, true, s)
    } else if s[s[0] - 1] != MESSAGE_VALUE_SYNC {
        framed(false, s.skip(1))
    } else {
        (Some(s.take(s[0] as int)), true, s.skip(s[0] as int))
    }
}

impl Default for KlipperFramer {
    fn default() -> (f: Self)
        ensures
            !f.is_synced(),
    {
        KlipperFramer { synced: false }
    }
}

impl KlipperFramer {
    /// A sync byte was seen and nothing inconsistent since.
    pub closed spec fn is_synced(&self) -> bool {
        self.synced
    }

    /// A framer that has seen nothing yet.
    pub fn new() -> (f: Self)
        ensures
            !f.is_synced(),
    {
        Self::default()
    }

    /// Takes the next complete frame from `src`, or `None` where there is
    /// none yet.
    pub fn decode(&mut self, src: &mut BytesMut) -> (res: Result<Option<Bytes>, FramingError>)
        ensures
            ({
                let r = framed(old(self).is_synced(), buffer::buffer_bytes(*old(src)));
                &&& res matches Ok(item) && (match item {
                    Some(f) => r.0 == Some(buffer::frozen_bytes(f)),
                    None => r.0 is None,
                })
                &&& final(self).is_synced() == r.1
                &&& buffer::buffer_bytes(*final(src)) == r.2
            }),
    {
        loop
            invariant
                framed(self.synced, buffer::buffer_bytes(*src)) == framed(
                    old(self).synced,
                    buffer::buffer_bytes(*old(src)),
                ),
            decreases buffer::buffer_bytes(*src).len(), !self.synced as int,
        {
            let ghost s = buffer::buffer_bytes(*src);
            let len: usize = buffer_slice(src).len();
            if len == 0 {
                return Ok(None);
            }
            if !self.synced {
                // Scan for the sync byte.
                let pos: usize = sync_position(buffer_slice(src));
                proof {
                    lemma_unsynced_skip(s, pos as int);
                }
                if pos == len {
                    buffer_clear(src);
                    assert(s.skip(len as int) =~= Seq::<u8>::empty());
                    return Ok(None);
                }
                buffer_advance(src, pos + 1);
                self.synced = true;
                assert(s.skip(pos as int).skip(1) =~= s.skip(pos + 1));
                continue ;
            }
            if buffer_slice(src)[0] == MESSAGE_VALUE_SYNC {
                // Skip idle sync bytes.
                buffer_advance(src, 1);
                continue ;
            }
            let frame_len: usize = buffer_slice(src)[0] as usize;
            if frame_len < MESSAGE_LENGTH_MIN || frame_len > MESSAGE_LENGTH_MAX {
                // Invalid length byte: re-sync.
                self.synced = false;
                buffer_advance(src, 1);
                continue ;
            }
            if len < frame_len {
                buffer_reserve(src, frame_len - len);
                return Ok(None);
            }
            if buffer_slice(src)[frame_len - 1] != MESSAGE_VALUE_SYNC {
                // Malformed frame: re-sync.
                self.synced = false;
                buffer_advance(src, 1);
                continue ;
            }
            let frame: Bytes = buffer_freeze(buffer_split_to(src, frame_len));
            return Ok(Some(frame));
        }
    }
}

/// The position of the first sync byte, or the length where there is none.
fn sync_position(s: &[u8]) -> (pos: usize)
    ensures
        pos <= s@.len(),
        forall|i: int| 0 <= i < pos ==> s@[i] != MESSAGE_VALUE_SYNC,
        pos < s@.len() ==> s@[pos as int] == MESSAGE_VALUE_SYNC,
{
    let mut pos: usize = 0;
    while pos < s.len() && s[pos] != MESSAGE_VALUE_SYNC
        invariant
            pos <= s@.len(),
            forall|i: int| 0 <= i < pos ==> s@[i] != MESSAGE_VALUE_SYNC,
        decreases s@.len() - pos,
    {
        pos += 1;
    }
    pos
}

proof fn lemma_unsynced_skip(s: Seq<u8>, n: int)
    requires
        0 <= n <= s.len(),
        forall|i: int| 0 <= i < n ==> s[i] != MESSAGE_VALUE_SYNC,
    ensures
        framed(false, s) == framed(false, s.skip(n)),
    decreases n,
{
    if n == 0 {
        assert(s.skip(0) =~= s);
    } else {
        lemma_unsynced_skip(s.skip(1), n - 1);
        assert(s.skip(1).skip(n - 1) =~= s.skip(n));
    }
}

/// A framer in sync gives out each complete frame as it came, whatever
/// follows it.
pub proof fn law_framer_delivers_frames(f: Seq<u8>, rest: Seq<u8>)
    requires
        is_klipper_frame(f),
    ensures
        framed(true, f + rest) == (Some(f), true, rest),
{
    let s = f + rest;
    assert(s.take(s[0] as int) =~= f);
    assert(s.skip(s[0] as int) =~= rest);
}

/// A framer that lost sync finds it again at the next sync byte: whatever
/// stands before that byte, the frame behind it is given out.
pub proof fn law_framer_resyncs(noise: Seq<u8>, f: Seq<u8>, rest: Seq<u8>)
    requires
        is_klipper_frame(f),
        forall|i: int| 0 <= i < noise.len() ==> noise[i] != MESSAGE_VALUE_SYNC,
    ensures
        framed(false, noise + seq![MESSAGE_VALUE_SYNC] + f + rest) == (Some(f), true, rest),
{
    let s = noise + seq![MESSAGE_VALUE_SYNC] + f + rest;
    lemma_unsynced_skip(s, noise.len() as int);
    assert(s.skip(noise.len() as int).skip(1) =~= f + rest);
    law_framer_delivers_frames(f, rest);
}

/// Framing does not depend on how the stream was cut: bytes that arrive later
/// neither change a frame that was complete nor lose anything that was held
/// back.
pub proof fn law_framing_ignores_chunk_boundaries(synced: bool, a: Seq<u8>, b: Seq<u8>)
    ensures
        ({
            let r = framed(synced, a);
            if r.0 is Some {
                framed(synced, a + b) == (r.0, r.1, r.2 + b)
            } else {
                framed(synced, a + b) == framed(r.1, r.2 + b)
            }
        }),
    decreases a.len(),
{
    let s = a + b;
    if a.len() == 0 {
    } else if !synced {
        assert(s.skip(1) =~= a.skip(1) + b);
        law_framing_ignores_chunk_boundaries(a[0] == MESSAGE_VALUE_SYNC, a.skip(1), b);
    } else if a[0] == MESSAGE_VALUE_SYNC {
        assert(s.skip(1) =~= a.skip(1) + b);
        law_framing_ignores_chunk_boundaries(true, a.skip(1), b);
    } else if !is_frame_length(a[0]) {
        assert(s.skip(1) =~= a.skip(1) + b);
        law_framing_ignores_chunk_boundaries(false, a.skip(1), b);
    } else if a.len() < a[0] {
    } else if a[a[0] - 1] != MESSAGE_VALUE_SYNC {
        assert(s.skip(1) =~= a.skip(1) + b);
        law_framing_ignores_chunk_boundaries(false, a.skip(1), b);
    } else {
        assert(s.take(s[0] as int) =~= a.take(a[0] as int));
        assert(s.skip(s[0] as int) =~= a.skip(a[0] as int) + b);
    }
}

/// Every frame that a framer gives out is a complete Klipper frame.
pub proof fn law_framer_frames_are_whole(synced: bool, s: Seq<u8>)
    ensures
        framed(synced, s).0 matches Some(f) ==> is_klipper_frame(f),
    decreases s.len(),
{
    if s.len() == 0 {
    } else if !synced {
        law_framer_frames_are_whole(s[0] == MESSAGE_VALUE_SYNC, s.skip(1));
    } else if s[0] == MESSAGE_VALUE_SYNC {
        law_framer_frames_are_whole(true, s.skip(1));
    } else if !is_frame_length(s[0]) || s.len() < s[0] || s[s[0] - 1] != MESSAGE_VALUE_SYNC {
        law_framer_frames_are_whole(false, s.skip(1));
    }
}

/// Taking a packet leaves less.
pub proof fn lemma_tunnel_decoded_shrinks(s: Seq<u8>)
    ensures
        tunnel_decoded(s).1.len() <= s.len(),
        tunnel_decoded(s).0 is Some ==> tunnel_decoded(s).1.len() < s.len(),
    decreases s.len(),
{
    if s.len() < 2 {
    } else if !is_frame_length(s[1]) {
        lemma_tunnel_decoded_shrinks(s.skip(1));
    } else if s.len() < 1 + s[1] {
    } else if s[s[1] as int] != MESSAGE_VALUE_SYNC {
        lemma_tunnel_decoded_shrinks(s.skip(1));
    }
}

/// All complete packets of a byte string, and the bytes left over.
pub open spec fn tunnel_decoded_all(s: Seq<u8>) -> (Seq<TunnelModel>, Seq<u8>)
    decreases s.len(),
{
    let r = tunnel_decoded(s);
    match r.0 {
        None => (Seq::empty(), r.1),
        Some(f) => {
            proof {
                lemma_tunnel_decoded_shrinks(s);
            }
            let t = tunnel_decoded_all(r.1);
            (seq![f] + t.0, t.1)
        },
    }
}

/// The bytes of a list of packets, one behind the other.
pub open spec fn tunnel_encoded_all(frames: Seq<TunnelModel>) -> Seq<u8>
    decreases frames.len(),
{
    if frames.len() == 0 {
        Seq::empty()
    } else {
        tunnel_encoded(frames[0]) + tunnel_encoded_all(frames.skip(1))
    }
}

/// The values of a list of packets.
pub open spec fn tunnel_models(frames: Seq<TunnelFrame>) -> Seq<TunnelModel> {
    Seq::new(frames.len(), |i: int| frames[i]@)
}

impl TunnelCodec {
    /// Takes all complete packets from `src`.
    pub fn decode_all(&mut self, src: &mut BytesMut) -> (frames: Vec<TunnelFrame>)
        ensures
            tunnel_models(frames@) == tunnel_decoded_all(buffer::buffer_bytes(*old(src))).0,
            buffer::buffer_bytes(*final(src)) == tunnel_decoded_all(
                buffer::buffer_bytes(*old(src)),
            ).1,
    {
        let ghost all = tunnel_decoded_all(buffer::buffer_bytes(*old(src)));
        let mut frames: Vec<TunnelFrame> = Vec::new();
        assert(tunnel_models(frames@) + all.0 =~= all.0);
        loop
            invariant
                all == tunnel_decoded_all(buffer::buffer_bytes(*old(src))),
                ({
                    let rest = tunnel_decoded_all(buffer::buffer_bytes(*src));
                    tunnel_models(frames@) + rest.0 == all.0 && rest.1 == all.1
                }),
            decreases buffer::buffer_bytes(*src).len(),
        {
            let ghost s = buffer::buffer_bytes(*src);
            let ghost before = tunnel_models(frames@);
            proof {
                lemma_tunnel_decoded_shrinks(s);
            }
            match self.decode(src) {
                Ok(Some(f)) => {
                    let ghost m = f@;
                    frames.push(f);
                    proof {
                        let rest = tunnel_decoded_all(buffer::buffer_bytes(*src));
                        assert(tunnel_models(frames@) =~= before.push(m));
                        assert(before.push(m) + rest.0 =~= before + (seq![m] + rest.0));
                    }
                },
                _ => {
                    assert(before + Seq::<TunnelModel>::empty() =~= before);
                    return frames;
                },
            }
        }
    }
}

/// A stream of encoded packets is decoded into exactly those packets, in
/// order, with nothing left over.
pub proof fn law_tunnel_stream_roundtrip(frames: Seq<TunnelModel>)
    requires
        forall|i: int| 0 <= i < frames.len() ==> is_klipper_frame((#[trigger] frames[i]).frame),
    ensures
        tunnel_decoded_all(tunnel_encoded_all(frames)) == (frames, Seq::<u8>::empty()),
    decreases frames.len(),
{
    if frames.len() == 0 {
        assert(frames =~= Seq::empty());
    } else {
        let tail = frames.skip(1);
        assert forall|i: int| 0 <= i < tail.len() implies is_klipper_frame(
            (#[trigger] tail[i]).frame,
        ) by {
            assert(tail[i] == frames[i + 1]);
        }
        law_tunnel_stream_roundtrip(tail);
        law_tunnel_roundtrip(frames[0], tunnel_encoded_all(tail));
        assert(seq![frames[0]] + tail =~= frames);
    }
}

/// A stream yields the same packets however it is cut.
pub proof fn law_tunnel_stream_ignores_chunk_boundaries(a: Seq<u8>, b: Seq<u8>)
    ensures
        ({
            let x = tunnel_decoded_all(a);
            let y = tunnel_decoded_all(x.1 + b);
            tunnel_decoded_all(a + b) == (x.0 + y.0, y.1)
        }),
    decreases a.len(),
{
    lemma_tunnel_decoded_shrinks(a);
    law_tunnel_decoding_ignores_chunk_boundaries(a, b);
    let r = tunnel_decoded(a);
    let x = tunnel_decoded_all(a);
    let y = tunnel_decoded_all(x.1 + b);
    if let Some(f) = r.0 {
        law_tunnel_stream_ignores_chunk_boundaries(r.1, b);
        let t = tunnel_decoded_all(r.1);
        assert(seq![f] + (t.0 + y.0) =~= x.0 + y.0);
    } else {
        assert(x.0 + y.0 =~= y.0);
    }
}

/// All complete smart-proxy packets of a byte string, and the bytes left over.
pub open spec fn payload_decoded_all(s: Seq<u8>) -> (Seq<PayloadModel>, Seq<u8>)
    decreases s.len(),
{
    let r = payload_decoded(s);
    match r.0 {
        None => (Seq::empty(), r.1),
        Some(f) => {
            let t = payload_decoded_all(r.1);
            (seq![f] + t.0, t.1)
        },
    }
}

/// The values of a list of smart-proxy packets.
pub open spec fn payload_models(frames: Seq<PayloadTunnelFrame>) -> Seq<PayloadModel> {
    Seq::new(frames.len(), |i: int| frames[i]@)
}

/// The bytes of a list of smart-proxy packets, one behind the other.
pub open spec fn payload_encoded_all(frames: Seq<PayloadModel>) -> Seq<u8>
    decreases frames.len(),
{
    if frames.len() == 0 {
        Seq::empty()
    } else {
        payload_encoded(frames[0]) + payload_encoded_all(frames.skip(1))
    }
}

impl PayloadTunnelCodec {
    /// Takes all complete packets from `src`.
    pub fn decode_all(&mut self, src: &mut BytesMut) -> (frames: Vec<PayloadTunnelFrame>)
        ensures
            payload_models(frames@) == payload_decoded_all(buffer::buffer_bytes(*old(src))).0,
            buffer::buffer_bytes(*final(src)) == payload_decoded_all(
                buffer::buffer_bytes(*old(src)),
            ).1,
    {
        let ghost all = payload_decoded_all(buffer::buffer_bytes(*old(src)));
        let mut frames: Vec<PayloadTunnelFrame> = Vec::new();
        assert(payload_models(frames@) + all.0 =~= all.0);
        loop
            invariant
                all == payload_decoded_all(buffer::buffer_bytes(*old(src))),
                ({
                    let rest = payload_decoded_all(buffer::buffer_bytes(*src));
                    payload_models(frames@) + rest.0 == all.0 && rest.1 == all.1
                }),
            decreases buffer::buffer_bytes(*src).len(),
        {
            let ghost before = payload_models(frames@);
            match self.decode(src) {
                Ok(Some(f)) => {
                    let ghost m = f@;
                    frames.push(f);
                    proof {
                        let rest = payload_decoded_all(buffer::buffer_bytes(*src));
                        assert(payload_models(frames@) =~= before.push(m));
                        assert(before.push(m) + rest.0 =~= before + (seq![m] + rest.0));
                    }
                },
                _ => {
                    assert(before + Seq::<PayloadModel>::empty() =~= before);
                    return frames;
                },
            }
        }
    }
}

/// A stream of encoded smart-proxy packets is decoded into exactly those
/// packets, in order, with nothing left over.
pub proof fn law_payload_stream_roundtrip(frames: Seq<PayloadModel>)
    requires
        forall|i: int| 0 <= i < frames.len() ==> (#[trigger] frames[i]).payload.len()
            <= PAYLOAD_MAX,
    ensures
        payload_decoded_all(payload_encoded_all(frames)) == (frames, Seq::<u8>::empty()),
    decreases frames.len(),
{
    if frames.len() == 0 {
        assert(frames =~= Seq::empty());
    } else {
        let tail = frames.skip(1);
        assert forall|i: int| 0 <= i < tail.len() implies (#[trigger] tail[i]).payload.len()
            <= PAYLOAD_MAX by {
            assert(tail[i] == frames[i + 1]);
        }
        law_payload_stream_roundtrip(tail);
        law_payload_roundtrip(frames[0], payload_encoded_all(tail));
        assert(seq![frames[0]] + tail =~= frames);
    }
}

/// A stream yields the same smart-proxy packets however it is cut.
pub proof fn law_payload_stream_ignores_chunk_boundaries(a: Seq<u8>, b: Seq<u8>)
    ensures
        ({
            let x = payload_decoded_all(a);
            let y = payload_decoded_all(x.1 + b);
            payload_decoded_all(a + b) == (x.0 + y.0, y.1)
        }),
    decreases a.len(),
{
    law_payload_decoding_ignores_chunk_boundaries(a, b);
    let r = payload_decoded(a);
    let x = payload_decoded_all(a);
    let y = payload_decoded_all(x.1 + b);
    if let Some(f) = r.0 {
        law_payload_stream_ignores_chunk_boundaries(r.1, b);
        let t = payload_decoded_all(r.1);
        assert(seq![f] + (t.0 + y.0) =~= x.0 + y.0);
    } else {
        assert(x.0 + y.0 =~= y.0);
    }
}

/// Taking a frame leaves less; what is left where there is none is less than
/// one maximal frame.
pub proof fn lemma_framed_shrinks(synced: bool, s: Seq<u8>)
    ensures
        framed(synced, s).2.len() <= s.len(),
        framed(synced, s).2.len() < MESSAGE_LENGTH_MAX || framed(synced, s).0 is Some,
        framed(synced, s).0 matches Some(f) ==> framed(synced, s).2.len() + f.len() <= s.len()
            && framed(synced, s).2.len() < s.len(),
    decreases s.len(),
{
    if s.len() == 0 {
    } else if !synced {
        lemma_framed_shrinks(s[0] == MESSAGE_VALUE_SYNC, s.skip(1));
    } else if s[0] == MESSAGE_VALUE_SYNC {
        lemma_framed_shrinks(true, s.skip(1));
    } else if !is_frame_length(s[0]) {
        lemma_framed_shrinks(false, s.skip(1));
    } else if s.len() < s[0] {
    } else if s[s[0] - 1] != MESSAGE_VALUE_SYNC {
        lemma_framed_shrinks(false, s.skip(1));
    }
}

/// All complete frames of a byte string, whether the framer is in sync then,
/// and the bytes left over.
pub open spec fn framed_all(synced: bool, s: Seq<u8>) -> (Seq<Seq<u8>>, bool, Seq<u8>)
    decreases s.len(),
{
    let r = framed(synced, s);
    match r.0 {
        None => (Seq::empty(), r.1, r.2),
        Some(f) => {
            proof {
                lemma_framed_shrinks(synced, s);
            }
            let t = framed_all(r.1, r.2);
            (seq![f] + t.0, t.1, t.2)
        },
    }
}

/// The bytes of a list of frames.
pub open spec fn frozen_all(frames: Seq<Bytes>) -> Seq<Seq<u8>> {
    Seq::new(frames.len(), |i: int| buffer::frozen_bytes(frames[i]))
}

/// The number of bytes in a list of frames.
pub open spec fn total_len(frames: Seq<Seq<u8>>) -> nat
    decreases frames.len(),
{
    if frames.len() == 0 {
        0
    } else {
        frames[0].len() + total_len(frames.skip(1))
    }
}

/// A framer makes no bytes up: all frames of a byte string and what is left of
/// it are together no longer than the string; what is left is less than one
/// maximal frame; and every frame is complete.
pub proof fn law_framed_all_is_sound(synced: bool, s: Seq<u8>)
    ensures
        total_len(framed_all(synced, s).0) + framed_all(synced, s).2.len() <= s.len(),
        framed_all(synced, s).2.len() < MESSAGE_LENGTH_MAX,
        forall|i: int|
            0 <= i < framed_all(synced, s).0.len() ==> is_klipper_frame(
                #[trigger] framed_all(synced, s).0[i],
            ),
    decreases s.len(),
{
    lemma_framed_shrinks(synced, s);
    law_framer_frames_are_whole(synced, s);
    let r = framed(synced, s);
    if let Some(f) = r.0 {
        law_framed_all_is_sound(r.1, r.2);
        let t = framed_all(r.1, r.2);
        let all = framed_all(synced, s).0;
        assert(all.skip(1) =~= t.0);
        assert forall|i: int| 0 <= i < all.len() implies is_klipper_frame(#[trigger] all[i]) by {
            if i > 0 {
                assert(all[i] == t.0[i - 1]);
            }
        }
    }
}

/// A stream yields the same frames however it is cut.
pub proof fn law_framed_all_ignores_chunk_boundaries(synced: bool, a: Seq<u8>, b: Seq<u8>)
    ensures
        ({
            let x = framed_all(synced, a);
            let y = framed_all(x.1, x.2 + b);
            framed_all(synced, a + b) == (x.0 + y.0, y.1, y.2)
        }),
    decreases a.len(),
{
    lemma_framed_shrinks(synced, a);
    law_framing_ignores_chunk_boundaries(synced, a, b);
    let r = framed(synced, a);
    let x = framed_all(synced, a);
    let y = framed_all(x.1, x.2 + b);
    if let Some(f) = r.0 {
        law_framed_all_ignores_chunk_boundaries(r.1, r.2, b);
        let t = framed_all(r.1, r.2);
        assert(seq![f] + (t.0 + y.0) =~= x.0 + y.0);
    } else {
        assert(x.0 + y.0 =~= y.0);
    }
}

impl KlipperFramer {
    /// Takes all complete frames from `src`.
    pub fn decode_all(&mut self, src: &mut BytesMut) -> (frames: Vec<Bytes>)
        ensures
            ({
                let r = framed_all(old(self).is_synced(), buffer::buffer_bytes(*old(src)));
                &&& frozen_all(frames@) == r.0
                &&& final(self).is_synced() == r.1
                &&& buffer::buffer_bytes(*final(src)) == r.2
            }),
    {
        let ghost all = framed_all(old(self).is_synced(), buffer::buffer_bytes(*old(src)));
        let mut frames: Vec<Bytes> = Vec::new();
        assert(frozen_all(frames@) + all.0 =~= all.0);
        loop
            invariant
                all == framed_all(old(self).is_synced(), buffer::buffer_bytes(*old(src))),
                ({
                    let rest = framed_all(self.is_synced(), buffer::buffer_bytes(*src));
                    frozen_all(frames@) + rest.0 == all.0 && rest.1 == all.1 && rest.2 == all.2
                }),
            decreases buffer::buffer_bytes(*src).len(),
        {
            let ghost before = frozen_all(frames@);
            proof {
                lemma_framed_shrinks(self.is_synced(), buffer::buffer_bytes(*src));
            }
            match self.decode(src) {
                Ok(Some(f)) => {
                    let ghost m = buffer::frozen_bytes(f);
                    frames.push(f);
                    proof {
                        let rest = framed_all(self.is_synced(), buffer::buffer_bytes(*src));
                        assert(frozen_all(frames@) =~= before.push(m));
                        assert(before.push(m) + rest.0 =~= before + (seq![m] + rest.0));
                    }
                },
                _ => {
                    assert(before + Seq::<Seq<u8>>::empty() =~= before);
                    return frames;
                },
            }
        }
    }
}

/// Byte strings, one behind the other.
pub open spec fn joined(list: Seq<Seq<u8>>) -> Seq<u8>
    decreases list.len(),
{
    if list.len() == 0 {
        Seq::empty()
    } else {
        list[0] + joined(list.skip(1))
    }
}

/// A framer in sync takes a stream of frames apart into just those frames, with
/// nothing left over, and stays in sync.
pub proof fn law_stream_of_frames_is_framed(frames: Seq<Seq<u8>>)
    requires
        forall|i: int| 0 <= i < frames.len() ==> is_klipper_frame(#[trigger] frames[i]),
    ensures
        framed_all(true, joined(frames)) == (frames, true, Seq::<u8>::empty()),
    decreases frames.len(),
{
    if frames.len() == 0 {
        assert(frames =~= Seq::empty());
    } else {
        let tail = frames.skip(1);
        assert forall|i: int| 0 <= i < tail.len() implies is_klipper_frame(#[trigger] tail[i]) by {
            assert(tail[i] == frames[i + 1]);
        }
        law_stream_of_frames_is_framed(tail);
        law_framer_delivers_frames(frames[0], joined(tail));
        lemma_framed_shrinks(true, joined(frames));
        assert(seq![frames[0]] + tail =~= frames);
    }
}

/// What makes a Klipper frame: five to sixty-four bytes, the first of which
/// tells how many, and the last of which is `0x7E`.
pub proof fn law_klipper_frames(f: Seq<u8>)
    ensures
        is_klipper_frame(f) <==> 5 <= f.len() <= 64 && f[0] == f.len() && f[f.len() - 1] == 0x7E,
{
}

/// Idle sync bytes between frames are skipped.
pub proof fn law_idle_sync_bytes_are_skipped(n: nat, s: Seq<u8>)
    ensures
        framed(true, Seq::new(n, |i: int| 0x7E) + s) == framed(true, s),
    decreases n,
{
    let idle = Seq::new(n, |i: int| 0x7Eu8);
    if n == 0 {
        assert(idle + s =~= s);
    } else {
        let fewer = Seq::new((n - 1) as nat, |i: int| 0x7Eu8);
        assert((idle + s).skip(1) =~= fewer + s);
        law_idle_sync_bytes_are_skipped((n - 1) as nat, s);
    }
}

/// A framer in sync that meets an impossible length, or a frame that does not
/// end in a sync byte, goes on behind the next sync byte: bytes from there on
/// are framed as if they came first.
pub proof fn law_framer_goes_on_behind_the_next_sync_byte(bad: Seq<u8>, s: Seq<u8>)
    requires
        bad.len() > 0,
        forall|i: int| 0 <= i < bad.len() ==> bad[i] != 0x7E,
        !(5 <= bad[0] <= 64) || bad[0] <= bad.len(),
    ensures
        framed(true, bad + seq![0x7Eu8] + s) == framed(true, s),
{
    let all = bad + seq![0x7Eu8] + s;
    let rest = all.skip(1);
    assert(framed(true, all) == framed(false, rest));
    lemma_unsynced_skip(rest, bad.len() - 1);
    assert(rest.skip(bad.len() - 1).skip(1) =~= s);
}

/// A packet is found behind a byte that starts none: the tunnel decoder gives
/// up one byte and tries again from the next.
pub proof fn law_tunnel_decoder_resyncs(b: u8, f: TunnelModel, rest: Seq<u8>)
    requires
        is_klipper_frame(f.frame),
        !(5 <= f.ch_id <= 64),
    ensures
        tunnel_decoded(seq![b] + tunnel_encoded(f) + rest) == (Some(f), rest),
{
    let s = seq![b] + tunnel_encoded(f) + rest;
    assert(s[1] == f.ch_id);
    assert(s.skip(1) =~= tunnel_encoded(f) + rest);
    law_tunnel_roundtrip(f, rest);
}

/// A part of a packet is held back, and none is given out: neither of a tunnel
/// packet nor of a smart-proxy packet, nor a part of a Klipper frame.
pub proof fn law_parts_are_held_back(t: TunnelModel, p: PayloadModel, f: Seq<u8>, n: int)
    requires
        is_klipper_frame(t.frame),
        p.payload.len() <= PAYLOAD_MAX,
        is_klipper_frame(f),
    ensures
        0 <= n < tunnel_encoded(t).len() ==> tunnel_decoded(tunnel_encoded(t).take(n)) == (
            None::<TunnelModel>,
            tunnel_encoded(t).take(n),
        ),
        0 <= n < payload_encoded(p).len() ==> payload_decoded(payload_encoded(p).take(n)) == (
            None::<PayloadModel>,
            payload_encoded(p).take(n),
        ),
        0 <= n < f.len() ==> framed(true, f.take(n)) == (None::<Seq<u8>>, true, f.take(n)),
{
}

/// A smart-proxy packet is its channel, the length of its payload, and the
/// payload.
pub proof fn law_payload_overhead_is_two_bytes(f: PayloadModel)
    requires
        f.payload.len() <= 255,
    ensures
        payload_encoded(f).len() == f.payload.len() + 2,
        payload_encoded(f)[0] == f.ch_id,
        payload_encoded(f)[1] == f.payload.len(),
        payload_encoded(f).skip(2) == f.payload,
{
    assert(payload_encoded(f).skip(2) =~= f.payload);
}

/// A tunnel packet is its channel and its frame.
pub proof fn law_tunnel_packet_bytes(f: TunnelModel)
    requires
        f.frame.len() > 0,
    ensures
        tunnel_encoded(f)[0] == f.ch_id,
        tunnel_encoded(f).skip(1) == f.frame,
{
    assert(tunnel_encoded(f).skip(1) =~= f.frame);
}

} // verus!
