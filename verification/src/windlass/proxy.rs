//! Smart-proxy link: decoded payloads between local lines and the USB link.
//!
//! On the exporter a line is an MCU, attached from the start.  On the host it
//! is a Unix socket, attached while Klipper is connected to it.

use super::buffer::{self, buffer_extend, buffer_new, frozen_clone, frozen_from_vec};
use super::framing::{
    self, FramingError, PayloadModel, PayloadTunnelCodec, PayloadTunnelFrame, CTRL_CH, PAYLOAD_MAX,
};
use bytes::{Bytes, BytesMut};
use vstd::prelude::*;

verus! {

/// A local line of the proxy.
#[derive(Debug, Clone, Copy, PartialEq, Eq, Structural)]
pub struct ProxyLine {
    pub ch_id: u8,
    /// Somebody takes what is delivered.
    pub attached: bool,
}

/// What becomes of a packet from the link.
#[derive(Debug)]
pub enum ProxyDelivery {
    /// A control payload.
    Control(Bytes),
    /// The payload goes to this line.
    ToLine(usize, Bytes),
    /// Nobody is attached to this line: the payload is dropped.
    Detached(usize),
    /// No line has this channel.
    Unknown(u8),
}

/// The value of a [`ProxyDelivery`].
#[verifier::ext_equal]
pub enum ProxyDeliveryModel {
    Control(Seq<u8>),
    ToLine(int, Seq<u8>),
    Detached(int),
    Unknown(u8),
}

impl View for ProxyDelivery {
    type V = ProxyDeliveryModel;

    open spec fn view(&self) -> ProxyDeliveryModel {
        match self {
            ProxyDelivery::Control(p) => ProxyDeliveryModel::Control(buffer::frozen_bytes(*p)),
            ProxyDelivery::ToLine(i, p) => ProxyDeliveryModel::ToLine(
                *i as int,
                buffer::frozen_bytes(*p),
            ),
            ProxyDelivery::Detached(i) => ProxyDeliveryModel::Detached(*i as int),
            ProxyDelivery::Unknown(c) => ProxyDeliveryModel::Unknown(*c),
        }
    }
}

/// The values of a list of deliveries.
pub open spec fn proxy_delivery_models(list: Seq<ProxyDelivery>) -> Seq<ProxyDeliveryModel> {
    Seq::new(list.len(), |i: int| list[i]@)
}

/// The line of a channel; of two with one channel the later.
pub open spec fn proxy_line_for(lines: Seq<ProxyLine>, ch_id: u8) -> Option<int>
    decreases lines.len(),
{
    if lines.len() == 0 {
        None
    } else if lines.last().ch_id == ch_id {
        Some(lines.len() - 1)
    } else {
        proxy_line_for(lines.drop_last(), ch_id)
    }
}

/// What becomes of a packet.
pub open spec fn proxy_delivery(lines: Seq<ProxyLine>, f: PayloadModel) -> ProxyDeliveryModel {
    if f.ch_id == CTRL_CH {
        ProxyDeliveryModel::Control(f.payload)
    } else {
        match proxy_line_for(lines, f.ch_id) {
            Some(i) => if lines[i].attached {
                ProxyDeliveryModel::ToLine(i, f.payload)
            } else {
                ProxyDeliveryModel::Detached(i)
            },
            None => ProxyDeliveryModel::Unknown(f.ch_id),
        }
    }
}

/// What becomes of a list of packets.
pub open spec fn proxy_deliveries(lines: Seq<ProxyLine>, frames: Seq<PayloadModel>) -> Seq<
    ProxyDeliveryModel,
> {
    Seq::new(frames.len(), |i: int| proxy_delivery(lines, frames[i]))
}

/// The link end of a smart proxy.
pub struct ProxyLink {
    lines: Vec<ProxyLine>,
    /// Bytes received from the link and not yet decoded.
    link_rx: BytesMut,
}

/// The value of a [`ProxyLink`].
#[verifier::ext_equal]
pub struct ProxyLinkModel {
    pub lines: Seq<ProxyLine>,
    pub link_rx: Seq<u8>,
}

impl View for ProxyLink {
    type V = ProxyLinkModel;

    closed spec fn view(&self) -> ProxyLinkModel {
        ProxyLinkModel { lines: self.lines@, link_rx: buffer::buffer_bytes(self.link_rx) }
    }
}

impl ProxyLinkModel {
    /// What is held of the link is less than one packet.
    pub open spec fn wf(self) -> bool {
        self.link_rx.len() < 2 + PAYLOAD_MAX
    }

    /// What bytes from the link come to.
    pub open spec fn delivered(self, data: Seq<u8>) -> Seq<ProxyDeliveryModel> {
        proxy_deliveries(self.lines, framing::payload_decoded_all(self.link_rx + data).0)
    }
}

proof fn lemma_payload_rest_is_short(s: Seq<u8>)
    ensures
        framing::payload_decoded_all(s).1.len() < 2 + PAYLOAD_MAX,
    decreases s.len(),
{
    let r = framing::payload_decoded(s);
    if r.0 is Some {
        lemma_payload_rest_is_short(r.1);
    }
}

impl ProxyLink {
    /// A link end with a line for each channel.
    pub fn new(channels: &[u8], attached: bool) -> (l: Self)
        ensures
            l@.wf(),
            l@ == (ProxyLinkModel {
                lines: Seq::new(
                    channels@.len(),
                    |i: int| ProxyLine { ch_id: channels@[i], attached },
                ),
                link_rx: Seq::empty(),
            }),
    {
        let mut lines: Vec<ProxyLine> = Vec::new();
        let mut i: usize = 0;
        while i < channels.len()
            invariant
                i <= channels@.len(),
                lines@.len() == i,
                forall|k: int|
                    0 <= k < i ==> #[trigger] lines@[k] == (ProxyLine {
                        ch_id: channels@[k],
                        attached,
                    }),
            decreases channels@.len() - i,
        {
            lines.push(ProxyLine { ch_id: channels[i], attached });
            i += 1;
        }
        let l = ProxyLink { lines, link_rx: buffer_new() };
        assert(l@.lines =~= Seq::new(
            channels@.len(),
            |i: int| ProxyLine { ch_id: channels@[i], attached },
        ));
        l
    }

    /// Somebody starts, or ceases, to take what is delivered to a line.
    pub fn set_attached(&mut self, line: usize, attached: bool)
        requires
            old(self)@.wf(),
            line < old(self)@.lines.len(),
        ensures
            final(self)@.wf(),
            final(self)@ == (ProxyLinkModel {
                lines: old(self)@.lines.update(
                    line as int,
                    (ProxyLine { attached, ..old(self)@.lines[line as int] }),
                ),
                ..old(self)@
            }),
    {
        let ch_id: u8 = self.lines[line].ch_id;
        self.lines[line] = ProxyLine { ch_id, attached };
    }

    /// A payload is to go over the link: its packet is appended to `link_out`.
    /// One over the limit is refused.
    pub fn payload_bytes(&self, ch_id: u8, payload: Vec<u8>, link_out: &mut BytesMut) -> (res:
        Result<(), FramingError>)
        requires
            buffer::buffer_bytes(*old(link_out)).len() + 2 + PAYLOAD_MAX <= isize::MAX,
        ensures
            ({
                let d0 = buffer::buffer_bytes(*old(link_out));
                let d1 = buffer::buffer_bytes(*final(link_out));
                if payload@.len() > PAYLOAD_MAX {
                    res == Err::<(), FramingError>(
                        FramingError::PayloadTooLong(payload@.len() as usize),
                    ) && d1 == d0
                } else {
                    res == Ok::<(), FramingError>(()) && d1 == d0 + framing::payload_encoded(
                        PayloadModel { ch_id, payload: payload@ },
                    )
                }
            }),
    {
        let mut codec = PayloadTunnelCodec;
        codec.encode(PayloadTunnelFrame { ch_id, payload: frozen_from_vec(payload) }, link_out)
    }

    /// Bytes arrived from the link: what becomes of each packet that they
    /// complete.
    pub fn link_bytes(&mut self, data: &[u8]) -> (list: Vec<ProxyDelivery>)
        requires
            old(self)@.wf(),
            2 + PAYLOAD_MAX + data@.len() <= isize::MAX,
        ensures
            final(self)@.wf(),
            final(self)@ == (ProxyLinkModel {
                link_rx: framing::payload_decoded_all(old(self)@.link_rx + data@).1,
                ..old(self)@
            }),
            proxy_delivery_models(list@) == old(self)@.delivered(data@),
    {
        proof {
            lemma_payload_rest_is_short(self@.link_rx + data@);
        }
        buffer_extend(&mut self.link_rx, data);
        let mut codec = PayloadTunnelCodec;
        let frames: Vec<PayloadTunnelFrame> = codec.decode_all(&mut self.link_rx);
        let mut list: Vec<ProxyDelivery> = Vec::new();
        let mut i: usize = 0;
        while i < frames.len()
            invariant
                i <= frames@.len(),
                self@.lines == old(self)@.lines,
                list@.len() == i,
                forall|k: int|
                    0 <= k < i ==> (#[trigger] list@[k])@ == proxy_delivery(
                        self@.lines,
                        frames@[k]@,
                    ),
            decreases frames@.len() - i,
        {
            let d: ProxyDelivery = self.deliver(&frames[i]);
            list.push(d);
            i += 1;
        }
        assert(proxy_delivery_models(list@) =~= proxy_deliveries(
            self@.lines,
            framing::payload_models(frames@),
        ));
        list
    }

    fn deliver(&self, f: &PayloadTunnelFrame) -> (d: ProxyDelivery)
        ensures
            d@ == proxy_delivery(self@.lines, f@),
    {
        if f.ch_id == CTRL_CH {
            return ProxyDelivery::Control(frozen_clone(&f.payload));
        }
        let mut i: usize = self.lines.len();
        assert(self@.lines.take(i as int) =~= self@.lines);
        while i > 0
            invariant
                i <= self.lines@.len(),
                f.ch_id != CTRL_CH,
                proxy_line_for(self@.lines.take(i as int), f.ch_id) == proxy_line_for(
                    self@.lines,
                    f.ch_id,
                ),
            decreases i,
        {
            let ghost prefix = self@.lines.take(i as int);
            assert(prefix.drop_last() =~= self@.lines.take(i - 1));
            i -= 1;
            if self.lines[i].ch_id == f.ch_id {
                if self.lines[i].attached {
                    return ProxyDelivery::ToLine(i, frozen_clone(&f.payload));
                }
                return ProxyDelivery::Detached(i);
            }
        }
        ProxyDelivery::Unknown(f.ch_id)
    }
}

/// Payloads cross the link whole: what one end encodes the other, having
/// nothing held back, delivers payload by payload, in order and unchanged.
pub proof fn law_proxy_carries_payloads(frames: Seq<PayloadModel>, b: ProxyLinkModel)
    requires
        forall|i: int| 0 <= i < frames.len() ==> (#[trigger] frames[i]).payload.len()
            <= PAYLOAD_MAX,
        b.link_rx.len() == 0,
    ensures
        b.delivered(framing::payload_encoded_all(frames)) == proxy_deliveries(b.lines, frames),
{
    framing::law_payload_stream_roundtrip(frames);
    assert(b.link_rx + framing::payload_encoded_all(frames) =~= framing::payload_encoded_all(
        frames,
    ));
}

/// It does not matter how bytes are cut: bytes from the link that arrive in two
/// pieces deliver what they deliver in one.
pub proof fn law_proxy_ignores_chunk_boundaries(m: ProxyLinkModel, x: Seq<u8>, y: Seq<u8>)
    ensures
        ({
            let then = ProxyLinkModel {
                link_rx: framing::payload_decoded_all(m.link_rx + x).1,
                ..m
            };
            m.delivered(x + y) == m.delivered(x) + then.delivered(y)
        }),
{
    assert(m.link_rx + (x + y) =~= m.link_rx + x + y);
    framing::law_payload_stream_ignores_chunk_boundaries(m.link_rx + x, y);
    let r = framing::payload_decoded_all(m.link_rx + x);
    let t = framing::payload_decoded_all(r.1 + y);
    assert(proxy_deliveries(m.lines, r.0 + t.0) =~= proxy_deliveries(m.lines, r.0)
        + proxy_deliveries(m.lines, t.0));
}

/// Control payloads never reach a line, and nothing else is taken for one.
pub proof fn law_control_is_kept_apart(lines: Seq<ProxyLine>, f: PayloadModel)
    ensures
        proxy_delivery(lines, f) is Control <==> f.ch_id == CTRL_CH,
{
}

/// A payload is delivered to a line of its own channel and to no other: to the
/// last of them, as it came, where somebody is attached to it; it is dropped
/// where nobody is, and reported where no line has its channel.  Control
/// payloads are given out as such, as they came.
pub proof fn law_payload_goes_to_its_channel(lines: Seq<ProxyLine>, f: PayloadModel)
    ensures
        match proxy_delivery(lines, f) {
            ProxyDeliveryModel::Control(payload) => f.ch_id == 255 && payload == f.payload,
            ProxyDeliveryModel::ToLine(i, payload) => {
                &&& 0 <= i < lines.len() && lines[i].ch_id == f.ch_id && f.ch_id != 255
                &&& lines[i].attached && payload == f.payload
                &&& forall|j: int| i < j < lines.len() ==> (#[trigger] lines[j]).ch_id != f.ch_id
            },
            ProxyDeliveryModel::Detached(i) => {
                &&& 0 <= i < lines.len() && lines[i].ch_id == f.ch_id && f.ch_id != 255
                &&& !lines[i].attached
                &&& forall|j: int| i < j < lines.len() ==> (#[trigger] lines[j]).ch_id != f.ch_id
            },
            ProxyDeliveryModel::Unknown(c) => {
                &&& c == f.ch_id && f.ch_id != 255
                &&& forall|j: int| 0 <= j < lines.len() ==> (#[trigger] lines[j]).ch_id != f.ch_id
            },
        },
{
    lemma_proxy_line_for(lines, f.ch_id);
}

proof fn lemma_proxy_line_for(lines: Seq<ProxyLine>, ch_id: u8)
    ensures
        match proxy_line_for(lines, ch_id) {
            Some(i) => 0 <= i < lines.len() && lines[i].ch_id == ch_id && (forall|j: int|
                i < j < lines.len() ==> (#[trigger] lines[j]).ch_id != ch_id),
            None => forall|j: int| 0 <= j < lines.len() ==> (#[trigger] lines[j]).ch_id != ch_id,
        },
    decreases lines.len(),
{
    if lines.len() > 0 && lines.last().ch_id != ch_id {
        let front = lines.drop_last();
        lemma_proxy_line_for(front, ch_id);
        assert forall|j: int| 0 <= j < front.len() implies front[j] == #[trigger] lines[j] by {}
    }
}

/// A payload reaches the one line that has its channel, where somebody is
/// attached to it: what one end sends for a channel comes out there, unchanged.
pub proof fn law_payload_crosses_the_link(f: PayloadModel, b: ProxyLinkModel, i: int)
    requires
        f.payload.len() <= PAYLOAD_MAX,
        f.ch_id != 255,
        b.link_rx.len() == 0,
        0 <= i < b.lines.len(),
        b.lines[i].ch_id == f.ch_id,
        b.lines[i].attached,
        forall|j: int|
            0 <= j < b.lines.len() && j != i ==> (#[trigger] b.lines[j]).ch_id != f.ch_id,
    ensures
        b.delivered(framing::payload_encoded(f)) == seq![
            ProxyDeliveryModel::ToLine(i, f.payload),
        ],
{
    lemma_proxy_line_for(b.lines, f.ch_id);
    let frames = seq![f];
    assert(frames.skip(1) =~= Seq::empty());
    assert(framing::payload_encoded_all(frames.skip(1)) =~= Seq::empty());
    assert(framing::payload_encoded_all(frames) =~= framing::payload_encoded(f));
    law_proxy_carries_payloads(frames, b);
    assert(proxy_deliveries(b.lines, frames) =~= seq![ProxyDeliveryModel::ToLine(i, f.payload)]);
}

} // verus!
