//! Streaming frame parser.

#[allow(unused_imports)]
use super::endian;
use super::frame::{self, payload_checksum, trailer_fits, Frame, FrameModel};
use super::{CRC_SIZE, HDR_SIZE, MAGIC_0, MAGIC_1, MAX_PAYLOAD, PARSER_BUF_CAP};
#[allow(unused_imports)]
use super::MAX_FRAME;
use vstd::prelude::*;

verus! {

/// The magic pair stands at position `i`.
pub open spec fn magic_at(s: Seq<u8>, i: int) -> bool {
    0 <= i && i + 1 < s.len() && s[i] == MAGIC_0 && s[i + 1] == MAGIC_1
}

/// The payload length that a header claims.
pub open spec fn claimed_len(s: Seq<u8>) -> nat {
    endian::from_le16(s[4], s[5])
}

/// The size of the frame that a header claims.
pub open spec fn claimed_size(s: Seq<u8>) -> nat {
    HDR_SIZE as nat + claimed_len(s) + CRC_SIZE as nat
}

/// The payload that a complete frame at the front holds.
pub open spec fn claimed_payload(s: Seq<u8>) -> Seq<u8> {
    s.subrange(HDR_SIZE as int, HDR_SIZE + claimed_len(s))
}

/// The checksum at the end of a complete frame at the front fits its payload.
pub open spec fn checksum_fits(s: Seq<u8>) -> bool {
    s.subrange(HDR_SIZE + claimed_len(s), claimed_size(s) as int) == endian::le32(
        frame::checksum(claimed_payload(s)),
    )
}

/// What a parser makes of a byte string: the frames in it, and the bytes at
/// its end that may still become part of a frame.
///
/// Bytes that are not the magic pair are skipped.  A magic pair is skipped too
/// when the length behind it is over the limit or the checksum does not fit.
pub open spec fn parse(s: Seq<u8>) -> (Seq<FrameModel>, Seq<u8>)
    decreases s.len(),
{
    if s.len() < 2 {
        (Seq::empty(), s)
    } else if !magic_at(s, 0) {
        parse(s.skip(1))
    } else if s.len() < HDR_SIZE {
        (Seq::empty(), s)
    } else if claimed_len(s) > MAX_PAYLOAD {
        parse(s.skip(2))
    } else if s.len() < claimed_size(s) {
        (Seq::empty(), s)
    } else if !checksum_fits(s) {
        parse(s.skip(2))
    } else {
        let (frames, rest) = parse(s.skip(claimed_size(s) as int));
        (seq![FrameModel { ftype: s[2], channel: s[3], payload: claimed_payload(s) }] + frames, rest)
    }
}

/// What is left unparsed is always less than one maximal frame.
pub proof fn lemma_rest_is_short(s: Seq<u8>)
    ensures
        parse(s).1.len() < MAX_FRAME,
        parse(s).1.len() <= s.len(),
    decreases s.len(),
{
    if s.len() < 2 {
    } else if !magic_at(s, 0) {
        lemma_rest_is_short(s.skip(1));
    } else if s.len() < HDR_SIZE {
    } else if claimed_len(s) > MAX_PAYLOAD {
        lemma_rest_is_short(s.skip(2));
    } else if s.len() < claimed_size(s) {
    } else if !checksum_fits(s) {
        lemma_rest_is_short(s.skip(2));
    } else {
        lemma_rest_is_short(s.skip(claimed_size(s) as int));
    }
}

/// What is left unparsed holds no further frame: parsing it again yields
/// nothing and leaves it as it is.
pub proof fn lemma_rest_is_stable(s: Seq<u8>)
    ensures
        parse(parse(s).1) == (Seq::<FrameModel>::empty(), parse(s).1),
    decreases s.len(),
{
    if s.len() < 2 {
    } else if !magic_at(s, 0) {
        lemma_rest_is_stable(s.skip(1));
    } else if s.len() < HDR_SIZE {
    } else if claimed_len(s) > MAX_PAYLOAD {
        lemma_rest_is_stable(s.skip(2));
    } else if s.len() < claimed_size(s) {
    } else if !checksum_fits(s) {
        lemma_rest_is_stable(s.skip(2));
    } else {
        lemma_rest_is_stable(s.skip(claimed_size(s) as int));
    }
}

/// The bytes may still become part of a frame: there is at most one byte, or a
/// magic pair with less than a header, or with less than a frame of the legal
/// length that its header claims.
pub open spec fn may_become_frame(s: Seq<u8>) -> bool {
    ||| s.len() <= 1
    ||| magic_at(s, 0) && s.len() < HDR_SIZE
    ||| magic_at(s, 0) && claimed_len(s) <= MAX_PAYLOAD && s.len() < claimed_size(s)
}

/// No frame is left over, neither a complete one nor one to be rejected: what
/// is left unparsed may still become a frame, and is less than the largest
/// one, so that a staging buffer that holds it has room for more.
pub proof fn law_no_frame_is_left_over(s: Seq<u8>)
    ensures
        may_become_frame(parse(s).1),
        parse(s).1.len() < MAX_FRAME < PARSER_BUF_CAP,
    decreases s.len(),
{
    lemma_rest_is_short(s);
    if s.len() < 2 {
    } else if !magic_at(s, 0) {
        law_no_frame_is_left_over(s.skip(1));
    } else if s.len() < HDR_SIZE {
    } else if claimed_len(s) > MAX_PAYLOAD {
        law_no_frame_is_left_over(s.skip(2));
    } else if s.len() < claimed_size(s) {
    } else if !checksum_fits(s) {
        law_no_frame_is_left_over(s.skip(2));
    } else {
        law_no_frame_is_left_over(s.skip(claimed_size(s) as int));
    }
}

/// Bytes that may still become a frame stay as they are.
pub proof fn law_unfinished_frame_is_kept(s: Seq<u8>)
    requires
        may_become_frame(s),
    ensures
        parse(s) == (Seq::<FrameModel>::empty(), s),
{
}

/// A byte stream yields the same frames however it is cut: parsing `a`, and
/// then `b` behind what was left of `a`, is parsing the two together.
pub proof fn law_parsing_ignores_chunk_boundaries(a: Seq<u8>, b: Seq<u8>)
    ensures
        parse(a + b) == (
            parse(a).0 + parse(parse(a).1 + b).0,
            parse(parse(a).1 + b).1,
        ),
    decreases a.len(),
{
    let s = a + b;
    if a.len() < 2 {
        assert(parse(a).0 + parse(s).0 =~= parse(s).0);
    } else if !magic_at(a, 0) {
        assert(s.skip(1) =~= a.skip(1) + b);
        law_parsing_ignores_chunk_boundaries(a.skip(1), b);
    } else if a.len() < HDR_SIZE {
        assert(parse(a).0 + parse(s).0 =~= parse(s).0);
    } else if claimed_len(a) > MAX_PAYLOAD {
        assert(s.skip(2) =~= a.skip(2) + b);
        law_parsing_ignores_chunk_boundaries(a.skip(2), b);
    } else if a.len() < claimed_size(a) {
        assert(parse(a).0 + parse(s).0 =~= parse(s).0);
    } else {
        assert(claimed_payload(s) =~= claimed_payload(a));
        assert(s.subrange(HDR_SIZE + claimed_len(s), claimed_size(s) as int) =~= a.subrange(
            HDR_SIZE + claimed_len(a),
            claimed_size(a) as int,
        ));
        if !checksum_fits(a) {
            assert(s.skip(2) =~= a.skip(2) + b);
            law_parsing_ignores_chunk_boundaries(a.skip(2), b);
        } else {
            let t = claimed_size(a) as int;
            assert(s.skip(t) =~= a.skip(t) + b);
            law_parsing_ignores_chunk_boundaries(a.skip(t), b);
            let f = seq![FrameModel { ftype: a[2], channel: a[3], payload: claimed_payload(a) }];
            let r = parse(a.skip(t)).1 + b;
            assert(f + (parse(a.skip(t)).0 + parse(r).0) =~= (f + parse(a.skip(t)).0) + parse(r).0);
        }
    }
}

/// What was built is parsed: a built frame at the front of a stream is
/// delivered as it was given, and parsing goes on behind it.
pub proof fn law_built_frame_is_parsed(ftype: u8, channel: u8, payload: Seq<u8>, rest: Seq<u8>)
    requires
        payload.len() <= MAX_PAYLOAD,
    ensures
        parse(frame::frame_bytes(ftype, channel, payload) + rest) == (
            seq![FrameModel { ftype, channel, payload }] + parse(rest).0,
            parse(rest).1,
        ),
{
    frame::lemma_frame_fields(ftype, channel, payload, rest);
    let s = frame::frame_bytes(ftype, channel, payload) + rest;
    assert(claimed_payload(s) == payload);
    assert(checksum_fits(s));
}

/// The bytes of a list of frames, one behind the other.
pub open spec fn encoded_all(frames: Seq<FrameModel>) -> Seq<u8>
    decreases frames.len(),
{
    if frames.len() == 0 {
        Seq::empty()
    } else {
        frame::encoded(frames[0]) + encoded_all(frames.skip(1))
    }
}

/// A stream of built frames is parsed into exactly those frames, in order,
/// with nothing left over.
pub proof fn law_built_stream_is_parsed(frames: Seq<FrameModel>)
    requires
        forall|i: int| 0 <= i < frames.len() ==> (#[trigger] frames[i]).payload.len() <= MAX_PAYLOAD,
    ensures
        parse(encoded_all(frames)) == (frames, Seq::<u8>::empty()),
    decreases frames.len(),
{
    if frames.len() == 0 {
        assert(frames =~= Seq::empty());
    } else {
        let f = frames[0];
        let tail = frames.skip(1);
        assert forall|i: int| 0 <= i < tail.len() implies (#[trigger] tail[i]).payload.len()
            <= MAX_PAYLOAD by {
            assert(tail[i] == frames[i + 1]);
        }
        law_built_stream_is_parsed(tail);
        law_built_frame_is_parsed(f.ftype, f.channel, f.payload, encoded_all(tail));
        assert(seq![FrameModel { ftype: f.ftype, channel: f.channel, payload: f.payload }] + tail
            =~= frames);
    }
}

/// Noise in front of a frame is skipped: bytes among which, together with the
/// frame behind them, no magic pair starts, do not hide the frame.
pub proof fn law_noise_is_skipped(
    noise: Seq<u8>,
    ftype: u8,
    channel: u8,
    payload: Seq<u8>,
    rest: Seq<u8>,
)
    requires
        payload.len() <= MAX_PAYLOAD,
        forall|i: int|
            0 <= i < noise.len() ==> !magic_at(
                #[trigger] (noise + frame::frame_bytes(ftype, channel, payload)),
                i,
            ),
    ensures
        parse(noise + frame::frame_bytes(ftype, channel, payload) + rest) == (
            seq![FrameModel { ftype, channel, payload }] + parse(rest).0,
            parse(rest).1,
        ),
    decreases noise.len(),
{
    let frame = frame::frame_bytes(ftype, channel, payload);
    let s = noise + frame + rest;
    if noise.len() == 0 {
        assert(s =~= frame + rest);
        law_built_frame_is_parsed(ftype, channel, payload, rest);
    } else {
        let tail = noise.skip(1);
        assert(!magic_at(noise + frame, 0));
        assert(!magic_at(s, 0));
        assert(s.skip(1) =~= tail + frame + rest);
        assert forall|i: int| 0 <= i < tail.len() implies !magic_at(#[trigger] (tail + frame), i) by {
            assert(!magic_at(noise + frame, i + 1));
            assert((tail + frame)[i] == (noise + frame)[i + 1]);
            assert((tail + frame)[i + 1] == (noise + frame)[i + 2]);
        }
        law_noise_is_skipped(tail, ftype, channel, payload, rest);
    }
}

/// The bytes of frame `f` stand in `s` from position `i` on.
pub open spec fn occurs_at(f: FrameModel, s: Seq<u8>, i: int) -> bool {
    &&& 0 <= i
    &&& i + frame::encoded(f).len() <= s.len()
    &&& s.subrange(i, i + frame::encoded(f).len()) == frame::encoded(f)
}

/// Only what was received is delivered: the bytes of every delivered frame,
/// checksum included, stand in the stream.
pub proof fn law_delivered_frames_were_received(s: Seq<u8>, k: int)
    requires
        0 <= k < parse(s).0.len(),
    ensures
        parse(s).0[k].payload.len() <= MAX_PAYLOAD,
        exists|i: int| occurs_at(parse(s).0[k], s, i),
    decreases s.len(),
{
    let f = parse(s).0[k];
    if !magic_at(s, 0) {
        law_delivered_frames_were_received(s.skip(1), k);
        lemma_occurs_behind(f, s, 1);
    } else if claimed_len(s) > MAX_PAYLOAD || !checksum_fits(s) {
        law_delivered_frames_were_received(s.skip(2), k);
        lemma_occurs_behind(f, s, 2);
    } else if k == 0 {
        lemma_front_frame(s);
        assert(occurs_at(f, s, 0));
    } else {
        let t = claimed_size(s) as int;
        assert(f == parse(s.skip(t)).0[k - 1]);
        law_delivered_frames_were_received(s.skip(t), k - 1);
        lemma_occurs_behind(f, s, t);
    }
}

/// The frames stand in `s` one behind the other, each from its position in
/// `at` on, and `rest` is what ends `s` behind the last of them.
pub open spec fn stand_in_order(
    frames: Seq<FrameModel>,
    rest: Seq<u8>,
    s: Seq<u8>,
    at: Seq<int>,
) -> bool {
    &&& at.len() == frames.len()
    &&& forall|k: int| 0 <= k < at.len() ==> occurs_at(frames[k], s, #[trigger] at[k])
    &&& forall|j: int, k: int|
        0 <= j < k < at.len() ==> #[trigger] at[j] + frame::encoded(frames[j]).len()
            <= #[trigger] at[k]
    &&& rest.len() <= s.len() && s.skip(s.len() - rest.len()) == rest
    &&& forall|k: int|
        0 <= k < at.len() ==> #[trigger] at[k] + frame::encoded(frames[k]).len() <= s.len()
            - rest.len()
}

/// Frames are delivered in stream order, and no byte serves two of them: the
/// bytes of successive frames stand one behind the other, and what is left
/// unparsed stands behind them all.
pub proof fn law_delivered_frames_are_in_order(s: Seq<u8>)
    ensures
        exists|at: Seq<int>| stand_in_order(parse(s).0, parse(s).1, s, at),
    decreases s.len(),
{
    let (frames, rest) = parse(s);
    if s.len() < 2 {
        assert(stand_in_order(frames, rest, s, Seq::empty())) by {
            assert(s.skip(0) =~= s);
        }
    } else if !magic_at(s, 0) {
        law_delivered_frames_are_in_order(s.skip(1));
        lemma_order_behind(frames, rest, s, 1);
    } else if s.len() < HDR_SIZE {
        assert(stand_in_order(frames, rest, s, Seq::empty())) by {
            assert(s.skip(0) =~= s);
        }
    } else if claimed_len(s) > MAX_PAYLOAD {
        law_delivered_frames_are_in_order(s.skip(2));
        lemma_order_behind(frames, rest, s, 2);
    } else if s.len() < claimed_size(s) {
        assert(stand_in_order(frames, rest, s, Seq::empty())) by {
            assert(s.skip(0) =~= s);
        }
    } else if !checksum_fits(s) {
        law_delivered_frames_are_in_order(s.skip(2));
        lemma_order_behind(frames, rest, s, 2);
    } else {
        let t = claimed_size(s) as int;
        let tail = parse(s.skip(t)).0;
        let f = frames[0];
        lemma_front_frame(s);
        law_delivered_frames_are_in_order(s.skip(t));
        lemma_order_behind(tail, rest, s, t);
        let later = choose|at: Seq<int>|
            stand_in_order(tail, rest, s, at) && (forall|k: int|
                0 <= k < at.len() ==> t <= #[trigger] at[k]);
        let at = seq![0int] + later;
        assert(frames =~= seq![f] + tail);
        assert forall|k: int| 0 <= k < at.len() implies occurs_at(frames[k], s, #[trigger] at[k])
            && at[k] + frame::encoded(frames[k]).len() <= s.len() - rest.len() by {
            if k > 0 {
                assert(at[k] == later[k - 1]);
                assert(frames[k] == tail[k - 1]);
            } else {
                lemma_rest_is_short(s.skip(t));
            }
        }
        assert forall|j: int, k: int| 0 <= j < k < at.len() implies #[trigger] at[j]
            + frame::encoded(frames[j]).len() <= #[trigger] at[k] by {
            assert(at[k] == later[k - 1]);
            if j > 0 {
                assert(at[j] == later[j - 1]);
                assert(frames[j] == tail[j - 1]);
            }
        }
        assert(stand_in_order(frames, rest, s, at));
    }
}

proof fn lemma_order_behind(frames: Seq<FrameModel>, rest: Seq<u8>, s: Seq<u8>, d: int)
    requires
        0 <= d <= s.len(),
        exists|at: Seq<int>| stand_in_order(frames, rest, s.skip(d), at),
    ensures
        exists|at: Seq<int>|
            stand_in_order(frames, rest, s, at) && (forall|k: int|
                0 <= k < at.len() ==> d <= #[trigger] at[k]),
{
    let from = choose|at: Seq<int>| stand_in_order(frames, rest, s.skip(d), at);
    let at = Seq::new(from.len(), |k: int| d + from[k]);
    assert forall|k: int| 0 <= k < at.len() implies occurs_at(frames[k], s, #[trigger] at[k]) && d
        <= at[k] && at[k] + frame::encoded(frames[k]).len() <= s.len() - rest.len() by {
        let i = from[k];
        let n = frame::encoded(frames[k]).len();
        assert(occurs_at(frames[k], s.skip(d), i));
        assert(s.subrange(d + i, d + i + n) =~= s.skip(d).subrange(i, i + n));
    }
    assert forall|j: int, k: int| 0 <= j < k < at.len() implies #[trigger] at[j]
        + frame::encoded(frames[j]).len() <= #[trigger] at[k] by {
        assert(from[j] + frame::encoded(frames[j]).len() <= from[k]);
    }
    assert(s.skip(s.len() - rest.len()) =~= s.skip(d).skip(s.skip(d).len() - rest.len()));
    assert(stand_in_order(frames, rest, s, at));
}

/// A complete frame at the front, with a fitting checksum, is spelled by the
/// bytes there.
proof fn lemma_front_frame(s: Seq<u8>)
    requires
        magic_at(s, 0),
        HDR_SIZE <= s.len(),
        claimed_size(s) <= s.len(),
        checksum_fits(s),
    ensures
        ({
            let f = FrameModel { ftype: s[2], channel: s[3], payload: claimed_payload(s) };
            &&& frame::encoded(f).len() == claimed_size(s)
            &&& occurs_at(f, s, 0)
        }),
{
    let f = FrameModel { ftype: s[2], channel: s[3], payload: claimed_payload(s) };
    endian::lemma_le16_inverse(s[4], s[5]);
    assert(s.subrange(0, frame::encoded(f).len() as int) =~= frame::encoded(f)) by {
        let tail = s.subrange(HDR_SIZE + claimed_len(s), claimed_size(s) as int);
        assert(s.subrange(0, claimed_size(s) as int) =~= seq![s[0], s[1], s[2], s[3]] + seq![
            s[4],
            s[5],
        ] + claimed_payload(s) + tail);
    }
}

proof fn lemma_occurs_behind(f: FrameModel, s: Seq<u8>, d: int)
    requires
        0 <= d <= s.len(),
        exists|i: int| occurs_at(f, s.skip(d), i),
    ensures
        exists|i: int| occurs_at(f, s, i),
{
    let i = choose|i: int| occurs_at(f, s.skip(d), i);
    let n = frame::encoded(f).len();
    assert(s.subrange(d + i, d + i + n) =~= s.skip(d).subrange(i, i + n));
    assert(occurs_at(f, s, d + i));
}

proof fn lemma_skip_noise(s: Seq<u8>, n: int)
    requires
        0 <= n < s.len(),
        forall|i: int| 0 <= i < n ==> !#[trigger] magic_at(s, i),
    ensures
        parse(s) == parse(s.skip(n)),
    decreases n,
{
    if n == 0 {
        assert(s.skip(0) =~= s);
    } else {
        let t = s.skip(1);
        assert(!magic_at(s, 0));
        assert forall|i: int| 0 <= i < n - 1 implies !#[trigger] magic_at(t, i) by {
            assert(!magic_at(s, i + 1));
        }
        lemma_skip_noise(t, n - 1);
        assert(t.skip(n - 1) =~= s.skip(n));
    }
}

/// Streaming frame parser with a fixed-capacity internal buffer.
///
/// Feed arbitrary byte chunks via [`FrameParser::feed`], which returns every
/// complete frame whose checksum fits.  The parser re-syncs automatically
/// after corruption or noise by skipping invalid magic bytes.
pub struct FrameParser {
    /// Staging buffer of [`PARSER_BUF_CAP`] bytes.
    buf: Vec<u8>,
    /// Number of valid bytes at the front of `buf`.
    len: usize,
}

impl View for FrameParser {
    type V = Seq<u8>;

    /// The bytes received and not yet consumed.
    closed spec fn view(&self) -> Seq<u8> {
        self.buf@.take(self.len as int)
    }
}

impl Default for FrameParser {
    fn default() -> (p: Self)
        ensures
            p.wf(),
            p@ == Seq::<u8>::empty(),
    {
        Self::new()
    }
}

impl FrameParser {
    /// The staging buffer has its full size, and no complete frame waits in
    /// it: what it holds is less than one maximal frame.
    pub closed spec fn wf(&self) -> bool {
        &&& self.buf@.len() == PARSER_BUF_CAP
        &&& self.len < MAX_FRAME
        &&& parse(self@) == (Seq::<FrameModel>::empty(), self@)
    }

    /// A parser keeps no frame back: between two calls it holds less than the
    /// largest frame, and nothing that could be parsed: at most one byte, or
    /// the beginning of a frame.
    pub proof fn law_parser_keeps_no_frame(&self)
        requires
            self.wf(),
        ensures
            self@.len() < MAX_FRAME,
            parse(self@) == (Seq::<FrameModel>::empty(), self@),
            may_become_frame(self@),
    {
        law_no_frame_is_left_over(self@);
    }

    /// Create a new parser with an empty buffer pre-allocated to
    /// [`PARSER_BUF_CAP`] bytes.
    pub fn new() -> (p: Self)
        ensures
            p.wf(),
            p@ == Seq::<u8>::empty(),
    {
        let p = FrameParser { buf: vec![0u8; PARSER_BUF_CAP], len: 0 };
        assert(p@ =~= Seq::<u8>::empty());
        p
    }

    /// Reset parser state.  Call after a link reconnect.
    pub fn reset(&mut self)
        requires
            old(self).wf(),
        ensures
            final(self).wf(),
            final(self)@ == Seq::<u8>::empty(),
    {
        self.len = 0;
        assert(self@ =~= Seq::<u8>::empty());
    }

    /// Feed a chunk of raw link data, and return the frames that it completes.
    ///
    /// Because the internal buffer has a fixed capacity, large inputs are
    /// consumed in multiple passes: each pass fills the buffer, then drains
    /// all complete frames before accepting more input.
    pub fn feed(&mut self, data: &[u8]) -> (frames: Vec<Frame>)
        requires
            old(self).wf(),
        ensures
            final(self).wf(),
            frame::frame_models(frames@) == parse(old(self)@ + data@).0,
            final(self)@ == parse(old(self)@ + data@).1,
            may_become_frame(final(self)@),
            final(self)@.len() < MAX_FRAME,
    {
        let mut out: Vec<Frame> = Vec::new();
        let mut pos: usize = 0;
        let ghost s0 = self@;
        proof {
            assert(s0 + data@.take(0) =~= s0);
            assert(frame::frame_models(out@) =~= parse(s0).0);
        }
        while pos < data.len()
            invariant
                pos <= data@.len(),
                self.wf(),
                frame::frame_models(out@) == parse(s0 + data@.take(pos as int)).0,
                self@ == parse(s0 + data@.take(pos as int)).1,
            decreases data@.len() - pos,
        {
            let space: usize = PARSER_BUF_CAP - self.len;
            let left: usize = data.len() - pos;
            let copy: usize = if left < space {
                left
            } else {
                space
            };
            let ghost pos0 = pos as int;
            self.fill(data, pos, copy);
            pos += copy;
            self.drain_frames(&mut out);
            proof {
                let chunk = data@.subrange(pos0, pos as int);
                assert(s0 + data@.take(pos as int) =~= s0 + data@.take(pos0) + chunk);
                law_parsing_ignores_chunk_boundaries(s0 + data@.take(pos0), chunk);
            }
        }
        proof {
            assert(data@.take(data@.len() as int) =~= data@);
            self.law_parser_keeps_no_frame();
        }
        out
    }

    /// Append `copy` bytes of `data`, from `pos` on, to the staging buffer.
    fn fill(&mut self, data: &[u8], pos: usize, copy: usize)
        requires
            old(self).buf@.len() == PARSER_BUF_CAP,
            old(self).len + copy <= PARSER_BUF_CAP,
            pos + copy <= data@.len(),
        ensures
            final(self).buf@.len() == PARSER_BUF_CAP,
            final(self).len == old(self).len + copy,
            final(self)@ == old(self)@ + data@.subrange(pos as int, pos + copy),
    {
        let start: usize = self.len;
        let available: usize = data.len();
        let mut j: usize = 0;
        while j < copy
            invariant
                j <= copy,
                start == old(self).len,
                self.len == start,
                start + copy <= PARSER_BUF_CAP,
                available == data@.len(),
                pos + copy <= available,
                self.buf@.len() == PARSER_BUF_CAP,
                self.buf@.take(start as int) == old(self).buf@.take(start as int),
                self.buf@.subrange(start as int, start + j) == data@.subrange(
                    pos as int,
                    pos + j,
                ),
            decreases copy - j,
        {
            let ghost b0 = self.buf@;
            self.buf[start + j] = data[pos + j];
            proof {
                assert(self.buf@.take(start as int) =~= b0.take(start as int));
                assert(self.buf@.subrange(start as int, start + j + 1) =~= b0.subrange(
                    start as int,
                    start + j,
                ).push(data@[pos + j]));
                assert(data@.subrange(pos as int, pos + j + 1) =~= data@.subrange(
                    pos as int,
                    pos + j,
                ).push(data@[pos + j]));
            }
            j += 1;
        }
        self.len = start + copy;
        assert(self@ =~= self.buf@.take(start as int) + self.buf@.subrange(
            start as int,
            start + copy,
        ));
    }

    /// Drop the first `n` bytes of the staging buffer and slide the rest to
    /// its front.
    fn consume(&mut self, n: usize)
        requires
            old(self).buf@.len() == PARSER_BUF_CAP,
            n <= old(self).len <= PARSER_BUF_CAP,
        ensures
            final(self).buf@.len() == PARSER_BUF_CAP,
            final(self).len == old(self).len - n,
            final(self)@ == old(self)@.skip(n as int),
    {
        let left: usize = self.len - n;
        let ghost b0 = self.buf@;
        let mut j: usize = 0;
        while j < left
            invariant
                j <= left,
                left + n == self.len,
                self.len == old(self).len,
                self.len <= PARSER_BUF_CAP,
                self.buf@.len() == PARSER_BUF_CAP,
                b0.len() == PARSER_BUF_CAP,
                forall|k: int| 0 <= k < j ==> #[trigger] self.buf@[k] == b0[k + n],
                forall|k: int| j <= k < PARSER_BUF_CAP ==> #[trigger] self.buf@[k] == b0[k],
            decreases left - j,
        {
            let b: u8 = self.buf[j + n];
            self.buf[j] = b;
            j += 1;
        }
        self.len = left;
        assert(self@ =~= b0.take(left + n).skip(n as int));
    }

    /// Take all complete frames out of the staging buffer, appending them to
    /// `out` in order.
    fn drain_frames(&mut self, out: &mut Vec<Frame>)
        requires
            old(self).buf@.len() == PARSER_BUF_CAP,
            old(self).len <= PARSER_BUF_CAP,
        ensures
            final(self).wf(),
            frame::frame_models(final(out)@) == frame::frame_models(old(out)@) + parse(
                old(self)@,
            ).0,
            final(self)@ == parse(old(self)@).1,
            may_become_frame(final(self)@),
            final(self)@.len() < MAX_FRAME,
    {
        let ghost s0 = self@;
        let ghost f0 = frame::frame_models(out@);
        proof {
            lemma_rest_is_stable(s0);
            law_no_frame_is_left_over(s0);
        }
        loop
            invariant
                self.buf@.len() == PARSER_BUF_CAP,
                self.len <= PARSER_BUF_CAP,
                frame::frame_models(out@) + parse(self@).0 == f0 + parse(s0).0,
                parse(self@).1 == parse(s0).1,
            ensures
                self.buf@.len() == PARSER_BUF_CAP,
                self.len <= PARSER_BUF_CAP,
                frame::frame_models(out@) == f0 + parse(s0).0,
                self@ == parse(s0).1,
            decreases self.len,
        {
            let ghost s = self@;
            let ghost f = frame::frame_models(out@);
            if self.len < 2 {
                assert(f + parse(s).0 =~= f);
                break;
            }
            // Search for the magic pair.
            let mut i: usize = 0;
            while i + 1 < self.len && !(self.buf[i] == MAGIC_0 && self.buf[i + 1] == MAGIC_1)
                invariant
                    self.buf@.len() == PARSER_BUF_CAP,
                    2 <= self.len <= PARSER_BUF_CAP,
                    i < self.len,
                    s == self@,
                    forall|k: int| 0 <= k < i ==> !#[trigger] magic_at(s, k),
                decreases self.len - i,
            {
                i += 1;
            }
            proof {
                lemma_skip_noise(s, i as int);
            }
            // Slide the magic pair, or the last byte where there is none
            // (it may be the first byte of one), to the front.
            let whole: bool = i + 1 < self.len;
            self.consume(i);
            if !whole || self.len < HDR_SIZE {
                assert(f + parse(self@).0 =~= f);
                break;
            }
            let ghost t = self@;
            assert(magic_at(t, 0));
            let ftype: u8 = self.buf[2];
            let channel: u8 = self.buf[3];
            let length: usize = self.buf[4] as usize + 256 * (self.buf[5] as usize);
            if length > MAX_PAYLOAD {
                // Bad length field: skip the magic pair and rescan.
                self.consume(2);
                continue ;
            }
            let total: usize = HDR_SIZE + length + CRC_SIZE;
            if self.len < total {
                assert(f + parse(t).0 =~= f);
                break;
            }
            let payload: Vec<u8> = self.payload_copy(length);
            let crc: u32 = payload_checksum(&payload);
            let fits: bool = trailer_fits(
                self.buf[HDR_SIZE + length],
                self.buf[HDR_SIZE + length + 1],
                self.buf[HDR_SIZE + length + 2],
                self.buf[HDR_SIZE + length + 3],
                crc,
            );
            proof {
                let tail = t.subrange(HDR_SIZE + length, total as int);
                assert(tail =~= seq![tail[0], tail[1], tail[2], tail[3]]);
                assert(checksum_fits(t) <==> fits);
            }
            if !fits {
                self.consume(2);
                continue ;
            }
            self.consume(total);
            let ghost fm = FrameModel { ftype, channel, payload: payload@ };
            out.push(Frame { ftype, channel, payload });
            proof {
                assert(frame::frame_models(out@) =~= f.push(fm));
                assert(f.push(fm) + parse(self@).0 =~= f + (seq![fm] + parse(self@).0));
            }
        }
    }

    /// The payload of the frame at the front of the staging buffer.
    fn payload_copy(&self, length: usize) -> (payload: Vec<u8>)
        requires
            self.buf@.len() == PARSER_BUF_CAP,
            HDR_SIZE + length <= self.len <= PARSER_BUF_CAP,
        ensures
            payload@ == self@.subrange(HDR_SIZE as int, HDR_SIZE + length),
    {
        let mut payload: Vec<u8> = Vec::with_capacity(length);
        let mut j: usize = 0;
        while j < length
            invariant
                j <= length,
                self.buf@.len() == PARSER_BUF_CAP,
                HDR_SIZE + length <= self.len <= PARSER_BUF_CAP,
                payload@ =~= self@.subrange(HDR_SIZE as int, HDR_SIZE + j),
            decreases length - j,
        {
            payload.push(self.buf[HDR_SIZE + j]);
            j += 1;
        }
        payload
    }
}

/// What is rejected hides nothing: where a magic pair is followed by a length
/// over the limit, or by a frame whose checksum is not that of its payload, only
/// the pair is passed over, and all that stands behind it is parsed.
pub proof fn law_rejected_frame_hides_nothing(s: Seq<u8>)
    requires
        s.len() >= 6,
        s[0] == 0xAA,
        s[1] == 0x55,
        ({
            let n = s[4] + 256 * s[5];
            ||| n > 16_384
            ||| s.len() >= n + 10 && s.subrange(6 + n, 10 + n) != endian::le32(
                frame::checksum(s.subrange(6, 6 + n)),
            )
        }),
    ensures
        parse(s) == parse(s.skip(2)),
{
}

/// A frame behind a rejected one is delivered: where no magic pair stands in
/// between.
pub proof fn law_frame_behind_a_rejected_one_is_found(bad: Seq<u8>, f: FrameModel, rest: Seq<u8>)
    requires
        f.payload.len() <= MAX_PAYLOAD,
        bad.len() >= 10,
        bad[0] == 0xAA,
        bad[1] == 0x55,
        bad.len() == bad[4] + 256 * bad[5] + 10,
        bad.subrange(bad.len() - 4, bad.len() as int) != endian::le32(
            frame::checksum(bad.subrange(6, bad.len() - 4)),
        ),
        forall|i: int|
            2 <= i < bad.len() ==> !magic_at(#[trigger] (bad + frame::encoded(f)), i),
    ensures
        parse(bad + frame::encoded(f) + rest) == (seq![f] + parse(rest).0, parse(rest).1),
{
    let s = bad + frame::encoded(f) + rest;
    let n = bad[4] + 256 * bad[5];
    assert(s.subrange(6 + n, 10 + n) =~= bad.subrange(bad.len() - 4, bad.len() as int));
    assert(s.subrange(6, 6 + n) =~= bad.subrange(6, bad.len() - 4));
    law_rejected_frame_hides_nothing(s);
    let noise = bad.skip(2);
    let frame = frame::encoded(f);
    assert(s.skip(2) =~= noise + frame + rest);
    assert forall|i: int| 0 <= i < noise.len() implies !magic_at(#[trigger] (noise + frame), i) by {
        assert(!magic_at(bad + frame, i + 2));
        assert((noise + frame)[i] == (bad + frame)[i + 2]);
        if i + 1 < (noise + frame).len() {
            assert((noise + frame)[i + 1] == (bad + frame)[i + 3]);
        }
    }
    law_noise_is_skipped(noise, f.ftype, f.channel, f.payload, rest);
}

} // verus!
