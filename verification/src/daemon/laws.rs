//! What holds of daemons and channels as a whole.

#![allow(unused_imports)]

use super::channels;
use super::{
    link_frame, DaemonModel, LinkOutcome, KA_INTERVAL, KA_TIMEOUT, MAX_TICK, REOPEN_DELAY_MAX,
    REOPEN_DELAY_MIN,
};
use crate::channel::mcu::{McuModel, McuState};
use crate::channel::pty::PtyModel;
use crate::channel::tcp::{self, TableModel, CONN_HIGH_WATER, TDATA_MAX};
use crate::channel::token::MAX_TCP_CONNS;
use crate::channel::ChannelModel;
use crate::protocol::tx_queue::TXQ_LIMIT;
use crate::protocol::frame::FrameModel;
use crate::protocol::{
    F_ACK, F_DATA, F_HELLO, F_PING, F_PONG, F_TDATA, LINK_HIGH_WATER, LINK_LOW_WATER, MAX_PAYLOAD,
};
use crate::protocol::{frame, parser, tx_queue};
use crate::serial::ReadOutcome;
use crate::time::TIME_LIMIT;
use channels::CHANNEL_IDS;
use vstd::prelude::*;

verus! {

/// A frame of the link itself, as a value.
pub open spec fn link_message(ftype: u8) -> FrameModel {
    FrameModel { ftype, channel: 0, payload: Seq::empty() }
}

/// A link that was opened greets: the far side parses exactly one frame from
/// the queue, the greeting.
pub proof fn law_opened_link_greets(d: DaemonModel, now: u64)
    ensures
        parser::parse(d.on_open(LinkOutcome::Opened, now).daemon.queue) == (
            seq![link_message(F_HELLO)],
            Seq::<u8>::empty(),
        ),
{
    parser::law_built_frame_is_parsed(F_HELLO, 0, Seq::empty(), Seq::empty());
    assert(link_frame(F_HELLO) + Seq::<u8>::empty() =~= link_frame(F_HELLO));
    assert(seq![link_message(F_HELLO)] + Seq::<FrameModel>::empty() =~= seq![
        link_message(F_HELLO),
    ]);
}

/// The handshake completes: a daemon that got a greeting or an acknowledgement
/// has its link up.
pub proof fn law_handshake_completes(d: DaemonModel, channel: u8, payload: Seq<u8>, now: u64)
    requires
        d.wf(),
        !d.disconnected,
    ensures
        d.on_frame(FrameModel { ftype: F_HELLO, channel, payload }, now).daemon.link_up,
        d.on_frame(FrameModel { ftype: F_ACK, channel, payload }, now).daemon.link_up,
{
}

/// An acknowledgement counts once: for a link that is up another one changes
/// nothing.
pub proof fn law_acknowledgement_counts_once(d: DaemonModel, f: FrameModel, now: u64)
    requires
        f.ftype == F_ACK,
        d.link_up,
    ensures
        d.on_frame(f, now) == d.idle(),
{
}

/// `b` starts with `a`.
pub open spec fn extends(a: Seq<u8>, b: Seq<u8>) -> bool {
    a.len() <= b.len() && b.take(a.len() as int) == a
}

proof fn lemma_extends_trans(a: Seq<u8>, b: Seq<u8>, c: Seq<u8>)
    requires
        extends(a, b),
        extends(b, c),
    ensures
        extends(a, c),
{
    assert(c.take(a.len() as int) =~= b.take(a.len() as int));
}

proof fn lemma_enqueued_extends(queue: Seq<u8>, data: Seq<u8>)
    ensures
        extends(queue, tx_queue::enqueued(queue, data)),
{
    assert((queue + data).take(queue.len() as int) =~= queue);
    assert(queue.take(queue.len() as int) =~= queue);
}

proof fn lemma_connect_queue_extends(chs: Seq<Option<ChannelModel>>, n: nat, queue: Seq<u8>)
    ensures
        extends(queue, channels::connect_queue(chs, n, queue)),
    decreases n,
{
    if n == 0 {
        assert(queue.take(queue.len() as int) =~= queue);
    } else {
        let before = channels::connect_queue(chs, (n - 1) as nat, queue);
        let after = channels::connect_queue(chs, n, queue);
        lemma_connect_queue_extends(chs, (n - 1) as nat, queue);
        assert(extends(before, after)) by {
            assert(before.take(before.len() as int) =~= before);
            match chs[n - 1] {
                Some(ChannelModel::Mcu(m)) => {
                    let ftype = if m.state == McuState::Active {
                        crate::protocol::F_READY
                    } else {
                        crate::protocol::F_FLUSH
                    };
                    lemma_enqueued_extends(
                        before,
                        frame::frame_bytes(ftype, m.ch_id, Seq::empty()),
                    );
                },
                _ => {},
            }
        }
        lemma_extends_trans(queue, before, after);
    }
}

/// A greeting is acknowledged: the acknowledgement stands right behind what
/// was queued, before anything that the channels announce.
pub proof fn law_greeting_is_acknowledged(d: DaemonModel, channel: u8, payload: Seq<u8>, now: u64)
    requires
        d.wf(),
        !d.disconnected,
        d.queue.len() <= LINK_HIGH_WATER,
    ensures
        extends(
            d.queue + link_frame(F_ACK),
            d.on_frame(FrameModel { ftype: F_HELLO, channel, payload }, now).daemon.queue,
        ),
{
    tx_queue::law_frame_fits_up_to_high_water(d.queue, F_ACK, 0, Seq::empty());
    lemma_connect_queue_extends(
        d.channels,
        CHANNEL_IDS as nat,
        tx_queue::enqueued(d.queue, link_frame(F_ACK)),
    );
}

/// A probe is answered: the answer stands right behind what was queued.
pub proof fn law_probe_is_answered(d: DaemonModel, channel: u8, payload: Seq<u8>, now: u64)
    requires
        d.wf(),
        !d.disconnected,
        d.queue.len() <= LINK_HIGH_WATER,
    ensures
        d.on_frame(FrameModel { ftype: F_PING, channel, payload }, now).daemon.queue == d.queue
            + link_frame(F_PONG),
{
    tx_queue::law_frame_fits_up_to_high_water(d.queue, F_PONG, 0, Seq::empty());
}

/// A silent link is dropped, and an idle one is probed: once the timeout has
/// passed without a byte the link is closed, and before that a link that is up
/// and has nothing to send gets a probe when the interval has passed.
pub proof fn law_keepalive(d: DaemonModel, now: u64)
    requires
        d.wf(),
        !d.disconnected,
    ensures
        d.on_keepalive(now).daemon.disconnected <==> (d.last_rx matches Some(t) && now > t
            + KA_TIMEOUT),
        d.link_up && d.queue.len() == 0 && (d.last_tx matches Some(t) && now >= t + KA_INTERVAL)
            && (d.last_rx matches Some(t) ==> now <= t + KA_TIMEOUT) ==> d.on_keepalive(
            now,
        ).daemon.queue == link_frame(F_PING),
{
    frame::lemma_frame_size(F_PING, 0, Seq::empty());
    assert(Seq::<u8>::empty() + link_frame(F_PING) =~= link_frame(F_PING));
    if d.queue.len() == 0 {
        assert(d.queue =~= Seq::empty());
    }
}

/// Only sending puts a probe off: what arrives on the link or from a channel
/// and leaves nothing to send does not count as sending, so that a side that
/// only receives goes on probing.
pub proof fn law_receiving_is_not_sending(d: DaemonModel, f: FrameModel, now: u64)
    ensures
        d.on_frame(f, now).daemon.queue.len() == 0 ==> d.on_frame(f, now).daemon.last_tx
            == d.last_tx,
        d.queue.len() == 0 ==> d.on_settle(now).daemon.last_tx == d.last_tx,
        d.queue.len() == 0 ==> d.on_high_water().daemon.on_settle(now).daemon.last_tx == d.last_tx,
{
    frame::lemma_frame_size(F_PONG, 0, Seq::empty());
    frame::lemma_frame_size(F_ACK, 0, Seq::empty());
    if f.ftype == F_HELLO {
        let queue = d.pushed(F_ACK, now).queue;
        lemma_connect_queue_extends(d.channels, CHANNEL_IDS as nat, queue);
    }
}

/// A frame reaches only its channel: where it sets off no backpressure, every
/// other channel stays as it was.
pub proof fn law_frame_reaches_only_its_channel(d: DaemonModel, f: FrameModel, now: u64, id: int)
    requires
        d.wf(),
        !d.disconnected,
        f.ftype != F_HELLO && f.ftype != F_ACK,
        f.ftype == F_DATA || f.ftype == F_TDATA ==> d.queue.len() <= LINK_HIGH_WATER,
        0 <= id < CHANNEL_IDS,
        id != f.channel,
    ensures
        d.on_frame(f, now).daemon.channels[id] == d.channels[id],
{
}

/// A frame reaches its channel: where it sets off no backpressure, the channel
/// is what the frame makes of it, and what the channel needs next is asked for.
pub proof fn law_frame_reaches_its_channel(d: DaemonModel, f: FrameModel, now: u64)
    requires
        d.wf(),
        !d.disconnected,
        f.ftype != F_HELLO && f.ftype != F_ACK && f.ftype != F_PING && f.ftype != F_PONG,
        f.ftype == F_DATA || f.ftype == F_TDATA ==> d.queue.len() <= LINK_HIGH_WATER,
        d.channels[f.channel as int] is Some,
    ensures
        ({
            let c = d.channels[f.channel as int]->Some_0;
            let e = c.on_frame(f.ftype, f.payload, d.queue);
            let after = d.on_frame(f, now);
            &&& after.daemon.channels[f.channel as int] == Some(e.ch)
            &&& after.daemon.queue == e.queue
            &&& after.step == e.step
        }),
{
}

/// The link carries frames: what stands as frames in the bytes that one side
/// wrote is what the other side reads, in order and with nothing left over.
pub proof fn law_link_carries_frames(
    frames: Seq<FrameModel>,
    d: DaemonModel,
    data: &[u8],
    now: u64,
)
    requires
        !d.disconnected,
        d.received.len() == 0,
        data@ == parser::encoded_all(frames),
        data@.len() > 0,
        forall|i: int| 0 <= i < frames.len() ==> (#[trigger] frames[i]).payload.len() <= MAX_PAYLOAD,
    ensures
        d.on_read(ReadOutcome::Data(data), now).1 == frames,
        d.on_read(ReadOutcome::Data(data), now).0.daemon.received.len() == 0,
{
    assert(d.received + data@ =~= data@);
    parser::law_built_stream_is_parsed(frames);
}

/// Backpressure follows the queue: once it was looked at, a queue over the
/// high-water mark has all channels paused, and a queue below the low-water
/// mark has none paused; the queue itself stays as it was.
pub proof fn law_backpressure_follows_the_queue(d: DaemonModel)
    requires
        d.wf(),
    ensures
        ({
            let high = d.on_high_water().daemon;
            &&& d.queue.len() > LINK_HIGH_WATER ==> high.link_bp
            &&& channels::all_paused(high.channels, high.link_bp)
            &&& high.queue == d.queue
        }),
        ({
            let low = d.on_low_water().daemon;
            &&& d.queue.len() < LINK_LOW_WATER ==> !low.link_bp
            &&& channels::all_paused(low.channels, low.link_bp)
            &&& low.queue == d.queue
        }),
{
    assert forall|i: int| 0 <= i < CHANNEL_IDS implies (#[trigger] d.channels[i] matches Some(c)
        ==> c.on_pause(true, Seq::empty()).ch.is_paused() && !c.on_pause(
        false,
        Seq::empty(),
    ).ch.is_paused()) by {
        if let Some(c) = d.channels[i] {
            channels::lemma_channel_frame(c, true, 0, Seq::empty());
            channels::lemma_channel_frame(c, false, 0, Seq::empty());
        }
    }
}

/// Attempts to open the link back off: each failure puts the next attempt off
/// by the current delay and doubles it, up to the longest; success starts the
/// delays over.
pub proof fn law_reopening_backs_off(d: DaemonModel, outcome: LinkOutcome, now: u64)
    requires
        d.wf(),
        now <= TIME_LIMIT,
    ensures
        ({
            let after = d.on_open(outcome, now).daemon;
            if outcome == LinkOutcome::Opened {
                after.reopen_delay == REOPEN_DELAY_MIN
            } else {
                &&& after.reopen_at == now + d.reopen_delay
                &&& REOPEN_DELAY_MIN <= d.reopen_delay <= REOPEN_DELAY_MAX
                &&& after.reopen_delay == 2 * d.reopen_delay || after.reopen_delay
                    == REOPEN_DELAY_MAX < 2 * d.reopen_delay
            }
        }),
{
}

proof fn lemma_earliest(chs: Seq<Option<ChannelModel>>, n: nat, t: u64)
    ensures
        channels::earliest(chs, n, t) <= t,
        forall|i: int|
            0 <= i < n ==> (#[trigger] chs[i] matches Some(c) ==> (c.deadline() matches Some(d)
                ==> channels::earliest(chs, n, t) <= d)),
    decreases n,
{
    if n > 0 {
        lemma_earliest(chs, (n - 1) as nat, t);
    }
}

/// The wait for events ends in time: it is never longer than the longest tick,
/// and never goes past the deadline of a channel, the time to re-open the
/// link, or the time of the next keepalive.
pub proof fn law_timeout_meets_deadlines(d: DaemonModel, now: u64)
    requires
        d.wf(),
        now <= TIME_LIMIT,
    ensures
        d.timeout(now) <= MAX_TICK,
        forall|i: int|
            0 <= i < CHANNEL_IDS ==> (#[trigger] d.channels[i] matches Some(c) ==> (
            c.deadline() matches Some(t) ==> t > now ==> now + d.timeout(now) <= t)),
        d.disconnected && d.reopen_at > now ==> now + d.timeout(now) <= d.reopen_at,
        !d.disconnected && d.link_up && (d.last_rx matches Some(t) && t + KA_TIMEOUT > now)
            ==> now + d.timeout(now) <= d.last_rx->Some_0 + KA_TIMEOUT,
        !d.disconnected && d.link_up && (d.last_tx matches Some(t) && t + KA_INTERVAL > now)
            ==> now + d.timeout(now) <= d.last_tx->Some_0 + KA_INTERVAL,
{
    lemma_earliest(
        d.channels,
        CHANNEL_IDS as nat,
        d.link_deadline((now + MAX_TICK) as u64),
    );
}

/// A closed link leaves nothing behind: nothing is queued, no channel is
/// paused, and none has anything to do with the link.
pub proof fn law_closed_link_leaves_nothing(d: DaemonModel, now: u64)
    requires
        d.wf(),
        !d.disconnected,
        now <= TIME_LIMIT,
    ensures
        ({
            let after = d.on_close(now).daemon;
            &&& after.disconnected && !after.link_up && !after.link_bp
            &&& after.queue.len() == 0
            &&& channels::all_down(after.channels)
            &&& channels::all_paused(after.channels, false)
        }),
{
    let after = d.on_close(now).daemon;
    assert forall|i: int| 0 <= i < CHANNEL_IDS implies (#[trigger] after.channels[i] matches Some(
        c,
    ) ==> c.is_down() && !c.is_paused()) by {
        if let Some(c) = d.channels[i] {
            channels::lemma_channel_frame(c, false, now, Seq::empty());
            lemma_pause_keeps_wf(c, false);
            if let Some(r) = d.resumed()[i] {
                channels::lemma_channel_frame(r, false, now, Seq::empty());
            }
        }
    }
}

proof fn lemma_pause_keeps_wf(c: ChannelModel, pause: bool)
    requires
        c.wf(),
    ensures
        c.on_pause(pause, Seq::empty()).ch.wf(),
{
}

/// Bytes from the UART reach the PTY: what an active MCU channel reads is, on
/// a link with room, parsed on the far side into one frame of that channel,
/// and an open PTY channel has it pending for Klipper, unchanged and behind
/// what was pending before.
pub proof fn law_uart_bytes_reach_the_pty(
    mcu: McuModel,
    pty: PtyModel,
    writable: bool,
    data: &[u8],
    now: u64,
    queue: Seq<u8>,
)
    requires
        mcu.wf(),
        mcu.open,
        mcu.link_up,
        mcu.state == McuState::Active,
        0 < data@.len() <= MAX_PAYLOAD,
        queue.len() <= LINK_HIGH_WATER,
        pty.wf(),
        pty.open,
    ensures
        ({
            let e = mcu.on_read(writable, ReadOutcome::Data(data), now, queue);
            let f = FrameModel { ftype: F_DATA, channel: mcu.ch_id, payload: data@ };
            &&& e.queue == queue + frame::encoded(f)
            &&& parser::parse(frame::encoded(f)) == (seq![f], Seq::<u8>::empty())
            &&& pty.on_frame(f.ftype, f.payload, Seq::empty()).ch.txbuf == pty.txbuf + data@
        }),
{
    let f = FrameModel { ftype: F_DATA, channel: mcu.ch_id, payload: data@ };
    tx_queue::law_frame_fits_up_to_high_water(queue, F_DATA, mcu.ch_id, data@);
    parser::law_built_frame_is_parsed(F_DATA, mcu.ch_id, data@, Seq::empty());
    assert(frame::encoded(f) + Seq::<u8>::empty() =~= frame::encoded(f));
    assert(seq![f] + Seq::<FrameModel>::empty() =~= seq![f]);
}

/// Bytes from the PTY reach the UART: what an open PTY channel reads is, on a
/// link with room, parsed on the far side into one frame of that channel, and
/// an active MCU channel has it pending for the UART, unchanged and behind
/// what was pending before.
pub proof fn law_pty_bytes_reach_the_uart(
    pty: PtyModel,
    mcu: McuModel,
    writable: bool,
    data: &[u8],
    queue: Seq<u8>,
)
    requires
        pty.wf(),
        pty.open,
        0 < data@.len() <= MAX_PAYLOAD,
        queue.len() <= LINK_HIGH_WATER,
        mcu.wf(),
        mcu.open,
        mcu.state == McuState::Active,
    ensures
        ({
            let e = pty.on_read(writable, ReadOutcome::Data(data), queue);
            let f = FrameModel { ftype: F_DATA, channel: pty.ch_id, payload: data@ };
            &&& e.queue == queue + frame::encoded(f)
            &&& parser::parse(frame::encoded(f)) == (seq![f], Seq::<u8>::empty())
            &&& mcu.on_frame(f.ftype, f.payload, Seq::empty()).ch.txbuf == mcu.txbuf + data@
        }),
{
    let f = FrameModel { ftype: F_DATA, channel: pty.ch_id, payload: data@ };
    tx_queue::law_frame_fits_up_to_high_water(queue, F_DATA, pty.ch_id, data@);
    parser::law_built_frame_is_parsed(F_DATA, pty.ch_id, data@, Seq::empty());
    assert(frame::encoded(f) + Seq::<u8>::empty() =~= frame::encoded(f));
    assert(seq![f] + Seq::<FrameModel>::empty() =~= seq![f]);
}

/// A frame for each payload.
pub open spec fn frames_of(ftype: u8, channel: u8, payloads: Seq<Seq<u8>>) -> Seq<FrameModel> {
    Seq::new(payloads.len(), |i: int| FrameModel { ftype, channel, payload: payloads[i] })
}

proof fn lemma_all_enqueued(queue: Seq<u8>, ftype: u8, channel: u8, payloads: Seq<Seq<u8>>)
    requires
        queue.len() + parser::encoded_all(frames_of(ftype, channel, payloads)).len() <= TXQ_LIMIT,
    ensures
        tcp::all_enqueued(queue, ftype, channel, payloads) == queue + parser::encoded_all(
            frames_of(ftype, channel, payloads),
        ),
    decreases payloads.len(),
{
    let frames = frames_of(ftype, channel, payloads);
    if payloads.len() == 0 {
        assert(queue + parser::encoded_all(frames) =~= queue);
    } else {
        let rest = payloads.skip(1);
        let first = frame::encoded(frames[0]);
        assert(frames.skip(1) =~= frames_of(ftype, channel, rest));
        lemma_all_enqueued(queue + first, ftype, channel, rest);
        assert(queue + first + parser::encoded_all(frames.skip(1)) =~= queue
            + parser::encoded_all(frames));
    }
}

/// Stream data reaches the far end of the tunnel: what one side reads from a
/// connection is, on a link with room for it, parsed on the far side into data
/// frames of that channel, and the far side has it pending for the connection
/// in the same slot, unchanged and behind what was pending before, as long as
/// that connection has not passed its limit before the last of the frames.
pub proof fn law_stream_data_reaches_the_far_end(
    queue: Seq<u8>,
    ch_id: u8,
    slot: int,
    data: Seq<u8>,
    far: TableModel,
)
    requires
        0 <= slot < MAX_TCP_CONNS,
        queue.len() + parser::encoded_all(
            frames_of(F_TDATA, ch_id, tcp::tdata_payloads(slot as nat, data)),
        ).len() <= TXQ_LIMIT,
        far.wf(),
        far.conns[slot] matches Some(c) && (data.len() > 0 ==> c.txbuf.len() + (data.len() - 1) / (
        TDATA_MAX as int) * TDATA_MAX <= CONN_HIGH_WATER),
    ensures
        ({
            let payloads = tcp::tdata_payloads(slot as nat, data);
            let frames = frames_of(F_TDATA, ch_id, payloads);
            &&& tcp::tunneled(queue, ch_id, slot as nat, data) == queue + parser::encoded_all(
                frames,
            )
            &&& parser::parse(parser::encoded_all(frames)) == (frames, Seq::<u8>::empty())
            &&& tcp::tdata_received(far, payloads, true, Seq::empty()).conns[slot] matches Some(c1)
                && c1.txbuf == far.conns[slot]->Some_0.txbuf + data
        }),
{
    let payloads = tcp::tdata_payloads(slot as nat, data);
    let frames = frames_of(F_TDATA, ch_id, payloads);
    lemma_all_enqueued(queue, F_TDATA, ch_id, payloads);
    assert forall|i: int| 0 <= i < frames.len() implies (#[trigger] frames[i]).payload.len()
        <= MAX_PAYLOAD by {
        tcp::law_tdata_payloads_fit(slot as nat, data, i);
    }
    parser::law_built_stream_is_parsed(frames);
    tcp::law_tunnel_carries_stream_data(far, slot, data, true, Seq::empty());
}

} // verus!
