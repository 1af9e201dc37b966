//! Transparent relay: complete raw Klipper frames between local lines and the
//! USB link.
//!
//! On the exporter a line is a UART, attached from the start.  On the host it
//! is a Unix socket, attached while Klipper is connected to it.
//!
//! ```text
//! line bytes -> KlipperFramer -> TunnelFrame -> link bytes
//! link bytes -> TunnelFrame -> demux by ch_id -> line bytes
//! ```

use super::buffer::{self, buffer_clear, buffer_extend, buffer_new, frozen_clone};
use super::framing::{self, KlipperFramer, TunnelCodec, TunnelFrame, TunnelModel};
#[allow(unused_imports)]
use super::framing::MESSAGE_LENGTH_MAX;
use bytes::{Bytes, BytesMut};
use vstd::prelude::*;

verus! {

/// A local line of the relay.
pub struct Line {
    ch_id: u8,
    /// Somebody takes what is delivered.
    attached: bool,
    framer: KlipperFramer,
    /// Bytes received and not yet framed.
    rx: BytesMut,
}

/// The value of a [`Line`].
#[verifier::ext_equal]
pub struct LineModel {
    pub ch_id: u8,
    pub attached: bool,
    pub synced: bool,
    pub rx: Seq<u8>,
}

impl View for Line {
    type V = LineModel;

    closed spec fn view(&self) -> LineModel {
        LineModel {
            ch_id: self.ch_id,
            attached: self.attached,
            synced: self.framer.is_synced(),
            rx: buffer::buffer_bytes(self.rx),
        }
    }
}

impl LineModel {
    /// What the line has received and not given out is less than one frame.
    pub open spec fn wf(self) -> bool {
        self.rx.len() < MESSAGE_LENGTH_MAX
    }

    /// The line after bytes arrived on it.
    pub open spec fn received(self, data: Seq<u8>) -> LineModel {
        let r = framing::framed_all(self.synced, self.rx + data);
        LineModel { synced: r.1, rx: r.2, ..self }
    }

    /// The frames that they complete.
    pub open spec fn completed(self, data: Seq<u8>) -> Seq<Seq<u8>> {
        framing::framed_all(self.synced, self.rx + data).0
    }

    /// The line when somebody starts, or ceases, to take what is delivered.
    pub open spec fn reset(self, attached: bool) -> LineModel {
        LineModel { attached, synced: false, rx: Seq::empty(), ..self }
    }
}

/// Frames tagged with a channel.
pub open spec fn tagged(ch_id: u8, frames: Seq<Seq<u8>>) -> Seq<TunnelModel> {
    Seq::new(frames.len(), |i: int| TunnelModel { ch_id, frame: frames[i] })
}

impl Line {
    /// A line that has received nothing.
    fn new(ch_id: u8, attached: bool) -> (l: Self)
        ensures
            l@ == (LineModel { ch_id, attached, synced: false, rx: Seq::empty() }),
    {
        Line { ch_id, attached, framer: KlipperFramer::new(), rx: buffer_new() }
    }

    fn receive(&mut self, data: &[u8]) -> (frames: Vec<Bytes>)
        requires
            old(self)@.wf(),
            MESSAGE_LENGTH_MAX + data@.len() <= isize::MAX,
        ensures
            final(self)@.wf(),
            final(self)@ == old(self)@.received(data@),
            framing::frozen_all(frames@) == old(self)@.completed(data@),
    {
        proof {
            framing::law_framed_all_is_sound(self@.synced, self@.rx + data@);
        }
        buffer_extend(&mut self.rx, data);
        self.framer.decode_all(&mut self.rx)
    }

    fn reset(&mut self, attached: bool)
        ensures
            final(self)@.wf(),
            final(self)@ == old(self)@.reset(attached),
    {
        self.attached = attached;
        self.framer = KlipperFramer::new();
        buffer_clear(&mut self.rx);
    }
}

/// What becomes of a packet from the link.
#[derive(Debug)]
pub enum Delivery {
    /// The frame goes to this line.
    ToLine(usize, Bytes),
    /// Nobody is attached to this line: the frame is dropped.  The MCU
    /// retransmits if it needs an answer.
    Detached(usize),
    /// No line has this channel.
    Unknown(u8),
}

/// The value of a [`Delivery`].
#[verifier::ext_equal]
pub enum DeliveryModel {
    ToLine(int, Seq<u8>),
    Detached(int),
    Unknown(u8),
}

impl View for Delivery {
    type V = DeliveryModel;

    open spec fn view(&self) -> DeliveryModel {
        match self {
            Delivery::ToLine(i, f) => DeliveryModel::ToLine(*i as int, buffer::frozen_bytes(*f)),
            Delivery::Detached(i) => DeliveryModel::Detached(*i as int),
            Delivery::Unknown(c) => DeliveryModel::Unknown(*c),
        }
    }
}

/// The values of a list of deliveries.
pub open spec fn delivery_models(list: Seq<Delivery>) -> Seq<DeliveryModel> {
    Seq::new(list.len(), |i: int| list[i]@)
}

/// The line of a channel; of two with one channel the later.
pub open spec fn line_for(lines: Seq<LineModel>, ch_id: u8) -> Option<int>
    decreases lines.len(),
{
    if lines.len() == 0 {
        None
    } else if lines.last().ch_id == ch_id {
        Some(lines.len() - 1)
    } else {
        line_for(lines.drop_last(), ch_id)
    }
}

/// What becomes of a packet.
pub open spec fn delivery(lines: Seq<LineModel>, f: TunnelModel) -> DeliveryModel {
    match line_for(lines, f.ch_id) {
        Some(i) => if lines[i].attached {
            DeliveryModel::ToLine(i, f.frame)
        } else {
            DeliveryModel::Detached(i)
        },
        None => DeliveryModel::Unknown(f.ch_id),
    }
}

/// What becomes of a list of packets.
pub open spec fn deliveries(lines: Seq<LineModel>, frames: Seq<TunnelModel>) -> Seq<
    DeliveryModel,
> {
    Seq::new(frames.len(), |i: int| delivery(lines, frames[i]))
}

/// The relay between local lines and the link.
pub struct Relay {
    lines: Vec<Line>,
    /// Bytes received from the link and not yet decoded.
    link_rx: BytesMut,
}

/// The value of a [`Relay`].
#[verifier::ext_equal]
pub struct RelayModel {
    pub lines: Seq<LineModel>,
    pub link_rx: Seq<u8>,
}

spec fn line_models(lines: Seq<Line>) -> Seq<LineModel> {
    Seq::new(lines.len(), |i: int| lines[i]@)
}

impl View for Relay {
    type V = RelayModel;

    closed spec fn view(&self) -> RelayModel {
        RelayModel {
            lines: line_models(self.lines@),
            link_rx: buffer::buffer_bytes(self.link_rx),
        }
    }
}

impl RelayModel {
    /// What is held of each line is less than one frame, and what is held of
    /// the link less than one packet.
    pub open spec fn wf(self) -> bool {
        &&& self.link_rx.len() <= MESSAGE_LENGTH_MAX
        &&& forall|i: int| 0 <= i < self.lines.len() ==> (#[trigger] self.lines[i]).wf()
    }

    /// The bytes that go to the link for bytes on a line: the frames that they
    /// complete, each with the line's channel in front.
    pub open spec fn sent(self, line: int, data: Seq<u8>) -> Seq<u8> {
        framing::tunnel_encoded_all(
            tagged(self.lines[line].ch_id, self.lines[line].completed(data)),
        )
    }

    /// What bytes from the link come to.
    pub open spec fn delivered(self, data: Seq<u8>) -> Seq<DeliveryModel> {
        deliveries(self.lines, framing::tunnel_decoded_all(self.link_rx + data).0)
    }
}

/// What is left of the link's bytes is less than one packet.
proof fn lemma_link_rest_is_short(s: Seq<u8>)
    ensures
        framing::tunnel_decoded_all(s).1.len() <= MESSAGE_LENGTH_MAX,
    decreases s.len(),
{
    framing::lemma_tunnel_decoded_shrinks(s);
    lemma_packet_rest_is_short(s);
    let r = framing::tunnel_decoded(s);
    if r.0 is Some {
        lemma_link_rest_is_short(r.1);
    }
}

proof fn lemma_packet_rest_is_short(s: Seq<u8>)
    ensures
        framing::tunnel_decoded(s).0 is None ==> framing::tunnel_decoded(s).1.len()
            <= MESSAGE_LENGTH_MAX,
    decreases s.len(),
{
    if s.len() < 2 {
    } else if !framing::is_frame_length(s[1]) {
        lemma_packet_rest_is_short(s.skip(1));
    } else if s.len() < 1 + s[1] {
    } else {
        lemma_packet_rest_is_short(s.skip(1));
    }
}

proof fn lemma_encoded_size(ch_id: u8, frames: Seq<Seq<u8>>)
    requires
        forall|i: int| 0 <= i < frames.len() ==> framing::is_klipper_frame(#[trigger] frames[i]),
    ensures
        framing::tunnel_encoded_all(tagged(ch_id, frames)).len() <= 2 * framing::total_len(frames),
    decreases frames.len(),
{
    if frames.len() > 0 {
        let rest = frames.skip(1);
        assert forall|i: int| 0 <= i < rest.len() implies framing::is_klipper_frame(
            #[trigger] rest[i],
        ) by {
            assert(rest[i] == frames[i + 1]);
        }
        lemma_encoded_size(ch_id, rest);
        assert(tagged(ch_id, frames).skip(1) =~= tagged(ch_id, rest));
    }
}

impl Relay {
    /// A relay with a line for each channel.
    pub fn new(channels: &[u8], attached: bool) -> (r: Self)
        ensures
            r@.wf(),
            r@ == (RelayModel {
                lines: Seq::new(
                    channels@.len(),
                    |i: int|
                        LineModel {
                            ch_id: channels@[i],
                            attached,
                            synced: false,
                            rx: Seq::empty(),
                        },
                ),
                link_rx: Seq::empty(),
            }),
    {
        let mut lines: Vec<Line> = Vec::new();
        let mut i: usize = 0;
        while i < channels.len()
            invariant
                i <= channels@.len(),
                lines@.len() == i,
                forall|k: int|
                    0 <= k < i ==> (#[trigger] lines@[k])@ == (LineModel {
                        ch_id: channels@[k],
                        attached,
                        synced: false,
                        rx: Seq::empty(),
                    }),
            decreases channels@.len() - i,
        {
            lines.push(Line::new(channels[i], attached));
            i += 1;
        }
        let r = Relay { lines, link_rx: buffer_new() };
        assert(r@.lines =~= Seq::new(
            channels@.len(),
            |i: int|
                LineModel { ch_id: channels@[i], attached, synced: false, rx: Seq::empty() },
        ));
        r
    }

    /// Somebody starts to take what is delivered to a line.  What the line had
    /// received before is forgotten.
    pub fn attach(&mut self, line: usize)
        requires
            old(self)@.wf(),
            line < old(self)@.lines.len(),
        ensures
            final(self)@.wf(),
            final(self)@ == (RelayModel {
                lines: old(self)@.lines.update(
                    line as int,
                    old(self)@.lines[line as int].reset(true),
                ),
                ..old(self)@
            }),
    {
        let ghost m0 = self@;
        self.lines[line].reset(true);
        assert(self@.lines =~= m0.lines.update(line as int, m0.lines[line as int].reset(true)));
    }

    /// Nobody takes what is delivered to a line any more.
    pub fn detach(&mut self, line: usize)
        requires
            old(self)@.wf(),
            line < old(self)@.lines.len(),
        ensures
            final(self)@.wf(),
            final(self)@ == (RelayModel {
                lines: old(self)@.lines.update(
                    line as int,
                    old(self)@.lines[line as int].reset(false),
                ),
                ..old(self)@
            }),
    {
        let ghost m0 = self@;
        self.lines[line].reset(false);
        assert(self@.lines =~= m0.lines.update(line as int, m0.lines[line as int].reset(false)));
    }

    /// Bytes arrived on a line: what goes to the link is appended to
    /// `link_out`.
    pub fn line_bytes(&mut self, line: usize, data: &[u8], link_out: &mut BytesMut)
        requires
            old(self)@.wf(),
            line < old(self)@.lines.len(),
            buffer::buffer_bytes(*old(link_out)).len() + 2 * (MESSAGE_LENGTH_MAX + data@.len())
                <= isize::MAX,
        ensures
            final(self)@.wf(),
            final(self)@ == (RelayModel {
                lines: old(self)@.lines.update(
                    line as int,
                    old(self)@.lines[line as int].received(data@),
                ),
                ..old(self)@
            }),
            buffer::buffer_bytes(*final(link_out)) == buffer::buffer_bytes(*old(link_out)) + old(self)@.sent(line as int, data@),
    {
        let ghost m0 = self@;
        let ghost l0 = m0.lines[line as int];
        let ch_id: u8 = self.lines[line].ch_id;
        let frames: Vec<Bytes> = self.lines[line].receive(data);
        assert(self@.lines =~= m0.lines.update(line as int, l0.received(data@)));
        let ghost all = tagged(ch_id, l0.completed(data@));
        proof {
            framing::law_framed_all_is_sound(l0.synced, l0.rx + data@);
            lemma_encoded_size(ch_id, l0.completed(data@));
            assert(all.skip(0) =~= all);
        }
        let ghost out0 = buffer::buffer_bytes(*link_out);
        let mut codec = TunnelCodec;
        let mut i: usize = 0;
        while i < frames.len()
            invariant
                i <= frames@.len(),
                all == tagged(ch_id, framing::frozen_all(frames@)),
                out0 + framing::tunnel_encoded_all(all) == buffer::buffer_bytes(*link_out)
                    + framing::tunnel_encoded_all(all.skip(i as int)),
                out0.len() + framing::tunnel_encoded_all(all).len() <= isize::MAX,
            decreases frames@.len() - i,
        {
            let item = TunnelFrame { ch_id, frame: frozen_clone(&frames[i]) };
            proof {
                let rest = all.skip(i as int);
                assert(rest[0] == item@);
                assert(rest.skip(1) =~= all.skip(i + 1));
                assert((out0 + framing::tunnel_encoded_all(all)).len() == (
                buffer::buffer_bytes(*link_out) + framing::tunnel_encoded_all(rest)).len());
            }
            let ghost before = buffer::buffer_bytes(*link_out);
            let ghost packet = framing::tunnel_encoded(item@);
            let _ = codec.encode(item, link_out);
            assert(before + (packet + framing::tunnel_encoded_all(all.skip(i + 1))) =~= before
                + packet + framing::tunnel_encoded_all(all.skip(i + 1)));
            i += 1;
        }
        assert(all.skip(all.len() as int) =~= Seq::empty());
        assert(buffer::buffer_bytes(*link_out) + Seq::<u8>::empty() =~= buffer::buffer_bytes(
            *link_out,
        ));
    }

    /// Bytes arrived from the link: what becomes of each packet that they
    /// complete.
    pub fn link_bytes(&mut self, data: &[u8]) -> (list: Vec<Delivery>)
        requires
            old(self)@.wf(),
            MESSAGE_LENGTH_MAX + data@.len() <= isize::MAX,
        ensures
            final(self)@.wf(),
            final(self)@ == (RelayModel {
                link_rx: framing::tunnel_decoded_all(old(self)@.link_rx + data@).1,
                ..old(self)@
            }),
            delivery_models(list@) == old(self)@.delivered(data@),
    {
        proof {
            lemma_link_rest_is_short(self@.link_rx + data@);
        }
        buffer_extend(&mut self.link_rx, data);
        let mut codec = TunnelCodec;
        let frames: Vec<TunnelFrame> = codec.decode_all(&mut self.link_rx);
        let mut list: Vec<Delivery> = Vec::new();
        let mut i: usize = 0;
        while i < frames.len()
            invariant
                i <= frames@.len(),
                self@.lines == old(self)@.lines,
                list@.len() == i,
                forall|k: int|
                    0 <= k < i ==> (#[trigger] list@[k])@ == delivery(self@.lines, frames@[k]@),
            decreases frames@.len() - i,
        {
            let d: Delivery = self.deliver(&frames[i]);
            list.push(d);
            i += 1;
        }
        assert(delivery_models(list@) =~= deliveries(
            self@.lines,
            framing::tunnel_models(frames@),
        ));
        list
    }

    fn deliver(&self, f: &TunnelFrame) -> (d: Delivery)
        ensures
            d@ == delivery(self@.lines, f@),
    {
        let mut i: usize = self.lines.len();
        assert(self@.lines.take(i as int) =~= self@.lines);
        while i > 0
            invariant
                i <= self.lines@.len(),
                line_for(self@.lines.take(i as int), f.ch_id) == line_for(self@.lines, f.ch_id),
            decreases i,
        {
            let ghost prefix = self@.lines.take(i as int);
            assert(prefix.drop_last() =~= self@.lines.take(i - 1));
            i -= 1;
            if self.lines[i].ch_id == f.ch_id {
                if self.lines[i].attached {
                    return Delivery::ToLine(i, frozen_clone(&f.frame));
                }
                return Delivery::Detached(i);
            }
        }
        Delivery::Unknown(f.ch_id)
    }
}

/// The relay is transparent: what one side sends for bytes on a line, the
/// other, having nothing held back from the link, delivers frame by frame, in
/// order and unchanged, to the line of that channel.
pub proof fn law_relay_is_transparent(a: RelayModel, line: int, data: Seq<u8>, b: RelayModel)
    requires
        a.wf(),
        b.wf(),
        0 <= line < a.lines.len(),
        b.link_rx.len() == 0,
    ensures
        b.delivered(a.sent(line, data)) == deliveries(
            b.lines,
            tagged(a.lines[line].ch_id, a.lines[line].completed(data)),
        ),
        framing::tunnel_decoded_all(b.link_rx + a.sent(line, data)).1.len() == 0,
{
    let l = a.lines[line];
    let frames = tagged(l.ch_id, l.completed(data));
    framing::law_framed_all_is_sound(l.synced, l.rx + data);
    assert forall|i: int| 0 <= i < frames.len() implies framing::is_klipper_frame(
        (#[trigger] frames[i]).frame,
    ) by {
        assert(framing::is_klipper_frame(l.completed(data)[i]));
    }
    framing::law_tunnel_stream_roundtrip(frames);
    assert(b.link_rx + a.sent(line, data) =~= a.sent(line, data));
}

proof fn lemma_encoded_concat(a: Seq<TunnelModel>, b: Seq<TunnelModel>)
    ensures
        framing::tunnel_encoded_all(a + b) == framing::tunnel_encoded_all(a)
            + framing::tunnel_encoded_all(b),
    decreases a.len(),
{
    if a.len() == 0 {
        assert(a + b =~= b);
    } else {
        assert((a + b).skip(1) =~= a.skip(1) + b);
        lemma_encoded_concat(a.skip(1), b);
    }
}

/// It does not matter how bytes are cut: bytes on a line that arrive in two
/// pieces send what they send in one, and bytes from the link that arrive in
/// two pieces deliver what they deliver in one.
pub proof fn law_relay_ignores_chunk_boundaries(m: RelayModel, line: int, x: Seq<u8>, y: Seq<u8>)
    requires
        m.wf(),
        0 <= line < m.lines.len(),
    ensures
        ({
            let then = RelayModel {
                lines: m.lines.update(line, m.lines[line].received(x)),
                ..m
            };
            &&& m.sent(line, x + y) == m.sent(line, x) + then.sent(line, y)
            &&& m.lines[line].received(x + y) == then.lines[line].received(y)
        }),
        ({
            let then = RelayModel {
                link_rx: framing::tunnel_decoded_all(m.link_rx + x).1,
                ..m
            };
            m.delivered(x + y) == m.delivered(x) + then.delivered(y)
        }),
{
    let l = m.lines[line];
    assert(l.rx + (x + y) =~= l.rx + x + y);
    framing::law_framed_all_ignores_chunk_boundaries(l.synced, l.rx + x, y);
    let first = l.completed(x);
    let second = l.received(x).completed(y);
    assert(tagged(l.ch_id, first + second) =~= tagged(l.ch_id, first) + tagged(l.ch_id, second));
    lemma_encoded_concat(tagged(l.ch_id, first), tagged(l.ch_id, second));
    assert(m.link_rx + (x + y) =~= m.link_rx + x + y);
    framing::law_tunnel_stream_ignores_chunk_boundaries(m.link_rx + x, y);
    let r = framing::tunnel_decoded_all(m.link_rx + x);
    let t = framing::tunnel_decoded_all(r.1 + y);
    assert(deliveries(m.lines, r.0 + t.0) =~= deliveries(m.lines, r.0) + deliveries(
        m.lines,
        t.0,
    ));
}

/// A packet is delivered to a line of its own channel and to no other: to the
/// last of them, as it came, where somebody is attached to it; it is dropped
/// where nobody is, and reported where no line has its channel.
pub proof fn law_packet_goes_to_its_channel(lines: Seq<LineModel>, f: TunnelModel)
    ensures
        match delivery(lines, f) {
            DeliveryModel::ToLine(i, frame) => {
                &&& 0 <= i < lines.len() && lines[i].ch_id == f.ch_id
                &&& lines[i].attached && frame == f.frame
                &&& forall|j: int| i < j < lines.len() ==> (#[trigger] lines[j]).ch_id != f.ch_id
            },
            DeliveryModel::Detached(i) => {
                &&& 0 <= i < lines.len() && lines[i].ch_id == f.ch_id
                &&& !lines[i].attached
                &&& forall|j: int| i < j < lines.len() ==> (#[trigger] lines[j]).ch_id != f.ch_id
            },
            DeliveryModel::Unknown(c) => {
                &&& c == f.ch_id
                &&& forall|j: int| 0 <= j < lines.len() ==> (#[trigger] lines[j]).ch_id != f.ch_id
            },
        },
{
    lemma_line_for(lines, f.ch_id);
}

proof fn lemma_line_for(lines: Seq<LineModel>, ch_id: u8)
    ensures
        match line_for(lines, ch_id) {
            Some(i) => 0 <= i < lines.len() && lines[i].ch_id == ch_id && (forall|j: int|
                i < j < lines.len() ==> (#[trigger] lines[j]).ch_id != ch_id),
            None => forall|j: int| 0 <= j < lines.len() ==> (#[trigger] lines[j]).ch_id != ch_id,
        },
    decreases lines.len(),
{
    if lines.len() > 0 && lines.last().ch_id != ch_id {
        let front = lines.drop_last();
        lemma_line_for(front, ch_id);
        assert forall|j: int| 0 <= j < front.len() implies front[j] == #[trigger] lines[j] by {}
    }
}

/// A packet reaches the one line that has its channel, where somebody is
/// attached to it.
pub proof fn law_packet_reaches_its_line(lines: Seq<LineModel>, f: TunnelModel, i: int)
    requires
        0 <= i < lines.len(),
        lines[i].ch_id == f.ch_id,
        lines[i].attached,
        forall|j: int| 0 <= j < lines.len() && j != i ==> (#[trigger] lines[j]).ch_id != f.ch_id,
    ensures
        delivery(lines, f) == DeliveryModel::ToLine(i, f.frame),
{
    lemma_line_for(lines, f.ch_id);
}

/// Klipper frames cross the relay: frames that arrive on a line in sync come
/// out, in order and unchanged, at the line of the same channel on the other
/// side, and nothing else does; the line holds nothing back.
pub proof fn law_frames_cross_the_relay(
    a: RelayModel,
    line: int,
    frames: Seq<Seq<u8>>,
    b: RelayModel,
    out: int,
)
    requires
        a.wf(),
        b.wf(),
        0 <= line < a.lines.len(),
        a.lines[line].synced,
        a.lines[line].rx.len() == 0,
        forall|k: int| 0 <= k < frames.len() ==> framing::is_klipper_frame(#[trigger] frames[k]),
        b.link_rx.len() == 0,
        0 <= out < b.lines.len(),
        b.lines[out].ch_id == a.lines[line].ch_id,
        b.lines[out].attached,
        forall|j: int|
            0 <= j < b.lines.len() && j != out ==> (#[trigger] b.lines[j]).ch_id
                != a.lines[line].ch_id,
    ensures
        ({
            let data = framing::joined(frames);
            &&& b.delivered(a.sent(line, data)) == Seq::new(
                frames.len(),
                |k: int| DeliveryModel::ToLine(out, frames[k]),
            )
            &&& a.lines[line].received(data) == a.lines[line]
        }),
{
    let l = a.lines[line];
    let data = framing::joined(frames);
    framing::law_stream_of_frames_is_framed(frames);
    assert(l.rx + data =~= data);
    assert(l.rx =~= Seq::empty());
    law_relay_is_transparent(a, line, data, b);
    let want = Seq::new(frames.len(), |k: int| DeliveryModel::ToLine(out, frames[k]));
    let got = deliveries(b.lines, tagged(l.ch_id, frames));
    assert forall|k: int| 0 <= k < frames.len() implies got[k] == want[k] by {
        law_packet_reaches_its_line(
            b.lines,
            TunnelModel { ch_id: l.ch_id, frame: frames[k] },
            out,
        );
    }
    assert(got =~= want);
}

/// Each frame goes over the link right behind its line's channel.
pub proof fn law_sent_frames_carry_their_channel(m: RelayModel, line: int, f: Seq<u8>)
    requires
        m.wf(),
        0 <= line < m.lines.len(),
        m.lines[line].synced,
        m.lines[line].rx.len() == 0,
        framing::is_klipper_frame(f),
    ensures
        m.sent(line, f) == seq![m.lines[line].ch_id] + f,
{
    let l = m.lines[line];
    let frames = seq![f];
    assert(frames.skip(1) =~= Seq::empty());
    assert(framing::joined(frames.skip(1)) =~= Seq::empty());
    assert(framing::joined(frames) =~= f);
    framing::law_stream_of_frames_is_framed(frames);
    assert(l.rx + f =~= f);
    let ts = tagged(l.ch_id, frames);
    assert(ts.skip(1) =~= Seq::empty());
    assert(framing::tunnel_encoded_all(ts.skip(1)) =~= Seq::empty());
    assert(framing::tunnel_encoded_all(ts) =~= seq![l.ch_id] + f);
}

/// A line starts over when somebody attaches or leaves: what it had received
/// before is forgotten, so that it treats new bytes as a new line does, and it
/// keeps its channel.
pub proof fn law_line_starts_over(l: LineModel, attached: bool, data: Seq<u8>)
    ensures
        ({
            let fresh = LineModel { ch_id: l.ch_id, attached, synced: false, rx: Seq::empty() };
            &&& l.reset(attached) == fresh
            &&& l.reset(attached).completed(data) == fresh.completed(data)
        }),
{
}

/// Bytes on a line change nothing of it but what it holds and whether it is in
/// sync.
pub proof fn law_line_keeps_its_channel(l: LineModel, data: Seq<u8>)
    ensures
        l.received(data).ch_id == l.ch_id,
        l.received(data).attached == l.attached,
{
}

} // verus!
