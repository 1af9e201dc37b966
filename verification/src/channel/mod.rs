//! Channels: what hangs on the link.
//!
//! Each channel type stands for one or more descriptors and speaks a specific
//! sub-protocol over the shared link.  A channel performs no I/O itself: it
//! says which [`Step`] it needs, and is told the outcome as an [`Event`].
//!
//! Channel types:
//! - [`McuChannel`]: UART to and from `F_DATA` frames (exporter side)
//! - [`PtyChannel`]: PTY to and from `F_DATA` frames (host side)
//! - [`TcpSourceChannel`]: TCP listener into `F_TCONN`/`F_TDATA`/`F_TCLOSE`
//!   (exporter)
//! - [`TcpDestChannel`]: TCP connector out of `F_TCONN`/`F_TDATA`/`F_TCLOSE`
//!   (host)

pub mod io;
pub mod mcu;
pub mod pty;
pub mod tcp;
pub mod tcp_dest;
pub mod tcp_source;
pub mod token;

pub use io::{Action, Interest, Step};
pub use mcu::McuChannel;
pub use pty::{PtyChannel, PtyOutcome};
pub use tcp_dest::TcpDestChannel;
pub use tcp_source::{AcceptOutcome, TcpSourceChannel};
pub use token::{
    channel_id_for_token, primary_token, tcp_slot_token, Token, MAX_CHANNEL_ID, TOKEN_LINK,
};

use crate::protocol::TxQueue;
use crate::serial::{ReadOutcome, WriteOutcome};
use crate::time::TIME_LIMIT;
use io::Effect;
use mcu::McuModel;
use pty::PtyModel;
use tcp_dest::TcpDestModel;
use tcp_source::TcpSourceModel;
use token::{slot_for_token, MAX_TCP_CONNS, TCP_BASE};
use vstd::prelude::*;

verus! {

/// What happened to one of a channel's descriptors.
#[derive(Debug, Clone, Copy)]
pub enum Event<'a> {
    /// It became ready.
    Ready,
    /// It was read.
    Read(ReadOutcome<'a>),
    /// The pending bytes were offered to it.
    Written(WriteOutcome),
    /// The UART was opened, or could not be.
    UartOpened(bool),
    /// The attempt to open a PTY is over.
    PtyOpened(PtyOutcome),
    /// The attempt to accept a connection is over.
    Accepted(AcceptOutcome),
    /// The accepted connection was registered, or could not be.
    Adopted(bool),
    /// A connection was started and registered, or could not be.
    ConnectStarted(bool),
    /// A connection was made, or could not be.
    ConnectChecked(bool),
}

/// The event opens something on behalf of the far side of the link, or has
/// something to tell it.
pub open spec fn serves_link(event: Event) -> bool {
    match event {
        Event::PtyOpened(outcome) => outcome == PtyOutcome::Opened,
        Event::Adopted(registered) => registered,
        Event::ConnectStarted(_) => true,
        _ => false,
    }
}

/// A channel of any type.
pub enum Channel {
    Mcu(McuChannel),
    Pty(PtyChannel),
    TcpSource(TcpSourceChannel),
    TcpDest(TcpDestChannel),
}

/// The value of a [`Channel`].
#[verifier::ext_equal]
pub enum ChannelModel {
    Mcu(McuModel),
    Pty(PtyModel),
    TcpSource(TcpSourceModel),
    TcpDest(TcpDestModel),
}

impl View for Channel {
    type V = ChannelModel;

    open spec fn view(&self) -> ChannelModel {
        match self {
            Channel::Mcu(c) => ChannelModel::Mcu(c@),
            Channel::Pty(c) => ChannelModel::Pty(c@),
            Channel::TcpSource(c) => ChannelModel::TcpSource(c@),
            Channel::TcpDest(c) => ChannelModel::TcpDest(c@),
        }
    }
}

/// What is done to an MCU channel, done to a channel.
pub open spec fn mcu_effect(e: Effect<McuModel>) -> Effect<ChannelModel> {
    Effect { ch: ChannelModel::Mcu(e.ch), queue: e.queue, actions: e.actions, step: e.step }
}

/// What is done to a PTY channel, done to a channel.
pub open spec fn pty_effect(e: Effect<PtyModel>) -> Effect<ChannelModel> {
    Effect { ch: ChannelModel::Pty(e.ch), queue: e.queue, actions: e.actions, step: e.step }
}

/// What is done to a TCP source channel, done to a channel.
pub open spec fn source_effect(e: Effect<TcpSourceModel>) -> Effect<ChannelModel> {
    Effect { ch: ChannelModel::TcpSource(e.ch), queue: e.queue, actions: e.actions, step: e.step }
}

/// What is done to a TCP destination channel, done to a channel.
pub open spec fn dest_effect(e: Effect<TcpDestModel>) -> Effect<ChannelModel> {
    Effect { ch: ChannelModel::TcpDest(e.ch), queue: e.queue, actions: e.actions, step: e.step }
}

/// The bytes that wait to be written to a slot's stream.
pub open spec fn slot_pending(t: tcp::TableModel, slot: int) -> Seq<u8> {
    match t.conns[slot] {
        Some(c) => c.txbuf,
        None => Seq::empty(),
    }
}

impl ChannelModel {
    /// The wire channel id.
    pub open spec fn id(self) -> u8 {
        match self {
            ChannelModel::Mcu(m) => m.ch_id,
            ChannelModel::Pty(m) => m.ch_id,
            ChannelModel::TcpSource(m) => m.table.ch_id,
            ChannelModel::TcpDest(m) => m.table.ch_id,
        }
    }

    /// The channel's invariant.
    pub open spec fn wf(self) -> bool {
        match self {
            ChannelModel::Mcu(m) => m.wf(),
            ChannelModel::Pty(m) => m.wf(),
            ChannelModel::TcpSource(m) => m.wf(),
            ChannelModel::TcpDest(m) => m.wf(),
        }
    }

    /// Inbound reads are suspended.
    pub open spec fn is_paused(self) -> bool {
        match self {
            ChannelModel::Mcu(m) => m.bp_paused,
            ChannelModel::Pty(m) => m.bp_paused,
            ChannelModel::TcpSource(m) => m.table.bp_paused,
            ChannelModel::TcpDest(m) => m.table.bp_paused,
        }
    }

    /// The channel has nothing to do with the link: nothing of it is forwarded,
    /// and nothing is open on its behalf.
    pub open spec fn is_down(self) -> bool {
        match self {
            ChannelModel::Mcu(m) => !m.link_up,
            ChannelModel::Pty(m) => !m.open,
            ChannelModel::TcpSource(m) => !m.link_up && m.table.is_empty(),
            ChannelModel::TcpDest(m) => m.table.is_empty(),
        }
    }

    /// The bytes that wait to be written to a descriptor.
    pub open spec fn pending(self, token: Token) -> Seq<u8> {
        match self {
            ChannelModel::Mcu(m) => m.txbuf,
            ChannelModel::Pty(m) => m.txbuf,
            ChannelModel::TcpSource(m) => slot_pending(m.table, token::slot_of(token)),
            ChannelModel::TcpDest(m) => slot_pending(m.table, token::slot_of(token)),
        }
    }

    /// Nothing happens.
    pub open spec fn idle(self, queue: Seq<u8>) -> Effect<ChannelModel> {
        Effect { ch: self, queue, actions: Seq::empty(), step: Step::Done }
    }

    /// The event is one that this descriptor can have.
    pub open spec fn can_have(self, token: Token, event: Event) -> bool {
        &&& token::owner(token) == Some(self.id())
        &&& event matches Event::Written(WriteOutcome::Written(n)) ==> n <= self.pending(
            token,
        ).len()
        &&& match self {
            ChannelModel::Mcu(_) => true,
            ChannelModel::Pty(m) => event is PtyOpened ==> !m.open,
            _ => event is Ready || event is Accepted || token.0 >= TCP_BASE,
        }
    }

    /// What an event comes to.
    pub open spec fn on_event(
        self,
        token: Token,
        readable: bool,
        writable: bool,
        event: Event,
        now: u64,
        queue: Seq<u8>,
    ) -> Effect<ChannelModel> {
        let slot = token::slot_of(token);
        match self {
            ChannelModel::Mcu(m) => match event {
                Event::Ready => mcu_effect(m.on_ready(readable, writable, queue)),
                Event::Read(read) => mcu_effect(m.on_read(writable, read, now, queue)),
                Event::Written(write) => mcu_effect(m.on_write(write, queue)),
                Event::UartOpened(opened) => mcu_effect(m.on_opened(opened, now, queue)),
                _ => self.idle(queue),
            },
            ChannelModel::Pty(m) => match event {
                Event::Ready => pty_effect(m.on_ready(readable, writable, queue)),
                Event::Read(read) => pty_effect(m.on_read(writable, read, queue)),
                Event::Written(write) => pty_effect(m.on_write(write, queue)),
                Event::PtyOpened(outcome) => pty_effect(m.on_opened(outcome, queue)),
                _ => self.idle(queue),
            },
            ChannelModel::TcpSource(m) => match event {
                Event::Ready => source_effect(
                    if token == token::primary(m.table.ch_id) {
                        m.on_listener(readable, queue)
                    } else {
                        m.on_event(slot, readable, writable, queue)
                    },
                ),
                Event::Read(read) => source_effect(m.on_read(slot, writable, read, queue)),
                Event::Written(write) => source_effect(m.on_write(slot, write, queue)),
                Event::Accepted(accept) => source_effect(
                    m.on_accept(accept).0.stepping(m.on_accept(accept).1, queue),
                ),
                Event::Adopted(registered) => source_effect(
                    m.on_adopted(slot, registered, queue),
                ),
                _ => self.idle(queue),
            },
            ChannelModel::TcpDest(m) => match event {
                Event::Ready => if token.0 < TCP_BASE {
                    self.idle(queue)
                } else {
                    dest_effect(m.on_event(slot, readable, writable, queue))
                },
                Event::Read(read) => dest_effect(m.on_read(slot, read, queue)),
                Event::Written(write) => dest_effect(m.on_write(slot, readable, write, queue)),
                Event::ConnectStarted(started) => dest_effect(m.on_connect(slot, started, queue)),
                Event::ConnectChecked(connected) => dest_effect(
                    m.on_checked(slot, readable, connected, queue),
                ),
                _ => self.idle(queue),
            },
        }
    }

    /// What a frame from the far side of the link comes to.
    pub open spec fn on_frame(self, ftype: u8, payload: Seq<u8>, queue: Seq<u8>) -> Effect<
        ChannelModel,
    > {
        match self {
            ChannelModel::Mcu(m) => mcu_effect(m.on_frame(ftype, payload, queue)),
            ChannelModel::Pty(m) => pty_effect(m.on_frame(ftype, payload, queue)),
            ChannelModel::TcpSource(m) => source_effect(m.on_frame(ftype, payload, queue)),
            ChannelModel::TcpDest(m) => dest_effect(m.on_frame(ftype, payload, queue)),
        }
    }

    /// What the completed handshake of the link comes to.
    pub open spec fn on_link_connect(self, queue: Seq<u8>) -> Effect<ChannelModel> {
        match self {
            ChannelModel::Mcu(m) => mcu_effect(m.on_link_connect(queue)),
            ChannelModel::Pty(m) => pty_effect(m.on_close(queue)),
            ChannelModel::TcpSource(m) => source_effect(m.on_link_connect(queue)),
            ChannelModel::TcpDest(m) => dest_effect(m.on_close(queue)),
        }
    }

    /// What the loss of the link comes to.
    pub open spec fn on_link_disconnect(self, queue: Seq<u8>) -> Effect<ChannelModel> {
        match self {
            ChannelModel::Mcu(m) => mcu_effect(m.on_link_disconnect(queue)),
            ChannelModel::Pty(m) => pty_effect(m.on_close(queue)),
            ChannelModel::TcpSource(m) => source_effect(m.on_link_disconnect(queue)),
            ChannelModel::TcpDest(m) => dest_effect(m.on_close(queue)),
        }
    }

    /// What a timer tick comes to.
    pub open spec fn on_tick(self, now: u64, queue: Seq<u8>) -> Effect<ChannelModel> {
        match self {
            ChannelModel::Mcu(m) => mcu_effect(m.on_tick(now, queue)),
            _ => self.idle(queue),
        }
    }

    /// When the next tick is needed.
    pub open spec fn deadline(self) -> Option<u64> {
        match self {
            ChannelModel::Mcu(m) => m.deadline(),
            _ => None,
        }
    }

    /// All descriptors are closed.
    pub open spec fn on_close(self, queue: Seq<u8>) -> Effect<ChannelModel> {
        match self {
            ChannelModel::Mcu(m) => mcu_effect(m.on_close(queue)),
            ChannelModel::Pty(m) => pty_effect(m.on_close(queue)),
            ChannelModel::TcpSource(m) => source_effect(m.on_close(queue)),
            ChannelModel::TcpDest(m) => dest_effect(m.on_close(queue)),
        }
    }

    /// Reads are suspended or resumed.
    pub open spec fn on_pause(self, paused: bool, queue: Seq<u8>) -> Effect<ChannelModel> {
        match self {
            ChannelModel::Mcu(m) => mcu_effect(m.on_pause(paused, queue)),
            ChannelModel::Pty(m) => pty_effect(m.on_pause(paused, queue)),
            ChannelModel::TcpSource(m) => source_effect(m.on_pause(paused, queue)),
            ChannelModel::TcpDest(m) => dest_effect(m.on_pause(paused, queue)),
        }
    }
}

impl Channel {
    /// The wire channel id.
    pub fn channel_id(&self) -> (id: u8)
        ensures
            id == self@.id(),
    {
        match self {
            Channel::Mcu(c) => c.channel_id(),
            Channel::Pty(c) => c.channel_id(),
            Channel::TcpSource(c) => c.channel_id(),
            Channel::TcpDest(c) => c.channel_id(),
        }
    }

    /// The bytes that wait to be written to a descriptor.
    pub fn pending(&self, token: Token) -> (bytes: &[u8])
        requires
            self@.wf(),
            *self is TcpSource || *self is TcpDest ==> token.0 >= TCP_BASE,
        ensures
            bytes@ == self@.pending(token),
    {
        match self {
            Channel::Mcu(c) => c.pending(),
            Channel::Pty(c) => c.pending(),
            Channel::TcpSource(c) => {
                let bytes: &[u8] = c.pending(slot_for_token(token));
                assert(bytes@ =~= self@.pending(token));
                bytes
            },
            Channel::TcpDest(c) => {
                let bytes: &[u8] = c.pending(slot_for_token(token));
                assert(bytes@ =~= self@.pending(token));
                bytes
            },
        }
    }

    /// Something happened to one of this channel's descriptors: what is needed
    /// next.
    pub fn handle_event(
        &mut self,
        token: Token,
        readable: bool,
        writable: bool,
        event: Event,
        now: u64,
        txq: &mut TxQueue,
        out: &mut Vec<Action>,
    ) -> (step: Step)
        requires
            old(self)@.wf(),
            old(txq).wf(),
            old(self)@.can_have(token, event),
            now <= TIME_LIMIT,
        ensures
            final(self)@.wf(),
            final(txq).wf(),
            ({
                let e = old(self)@.on_event(token, readable, writable, event, now, old(txq)@);
                &&& final(self)@ == e.ch
                &&& final(txq)@ == e.queue
                &&& final(out)@ == old(out)@ + e.actions
                &&& step == e.step
            }),
    {
        proof {
            assert(old(out)@ + Seq::<Action>::empty() =~= old(out)@);
            token::lemma_owned_token(token, self@.id());
        }
        match self {
            Channel::Mcu(c) => match event {
                Event::Ready => c.handle_event(readable, writable),
                Event::Read(read) => c.uart_read(writable, read, now, txq, out),
                Event::Written(write) => {
                    c.uart_drain(write, out);
                    Step::Done
                },
                Event::UartOpened(opened) => {
                    c.uart_opened(opened, now, out);
                    Step::Done
                },
                _ => Step::Done,
            },
            Channel::Pty(c) => match event {
                Event::Ready => c.handle_event(readable, writable),
                Event::Read(read) => c.pty_read(writable, read, txq, out),
                Event::Written(write) => {
                    c.pty_drain(write, out);
                    Step::Done
                },
                Event::PtyOpened(outcome) => {
                    c.open_pty(outcome, out);
                    Step::Done
                },
                _ => Step::Done,
            },
            Channel::TcpSource(c) => match event {
                Event::Ready => c.handle_event(token, readable, writable, txq, out),
                Event::Read(read) => c.tcp_read(slot_for_token(token), writable, read, txq, out),
                Event::Written(write) => c.tcp_written(slot_for_token(token), write, txq, out),
                Event::Accepted(accept) => c.accept(accept),
                Event::Adopted(registered) => c.adopted(slot_for_token(token), registered, txq),
                _ => Step::Done,
            },
            Channel::TcpDest(c) => match event {
                Event::Ready => c.handle_event(token, readable, writable, txq, out),
                Event::Read(read) => c.tcp_read(slot_for_token(token), read, txq, out),
                Event::Written(write) => c.tcp_written(
                    slot_for_token(token),
                    readable,
                    write,
                    txq,
                    out,
                ),
                Event::ConnectStarted(started) => {
                    c.open_conn(slot_for_token(token), started, txq);
                    Step::Done
                },
                Event::ConnectChecked(connected) => c.tcp_checked(
                    slot_for_token(token),
                    readable,
                    connected,
                    txq,
                    out,
                ),
                _ => Step::Done,
            },
        }
    }

    /// A frame arrived from the far side of the link.
    pub fn on_frame(
        &mut self,
        ftype: u8,
        payload: &[u8],
        txq: &mut TxQueue,
        out: &mut Vec<Action>,
    ) -> (step: Step)
        requires
            old(self)@.wf(),
            old(txq).wf(),
        ensures
            final(self)@.wf(),
            final(txq).wf(),
            ({
                let e = old(self)@.on_frame(ftype, payload@, old(txq)@);
                &&& final(self)@ == e.ch
                &&& final(txq)@ == e.queue
                &&& final(out)@ == old(out)@ + e.actions
                &&& step == e.step
            }),
    {
        proof {
            assert(old(out)@ + Seq::<Action>::empty() =~= old(out)@);
        }
        match self {
            Channel::Mcu(c) => c.on_frame(ftype, payload),
            Channel::Pty(c) => c.on_frame(ftype, payload, out),
            Channel::TcpSource(c) => {
                c.on_frame(ftype, payload, txq, out);
                Step::Done
            },
            Channel::TcpDest(c) => c.on_frame(ftype, payload, txq, out),
        }
    }

    /// The link just completed its handshake.
    pub fn on_link_connect(&mut self, txq: &mut TxQueue, out: &mut Vec<Action>)
        requires
            old(self)@.wf(),
            old(txq).wf(),
        ensures
            final(self)@.wf(),
            final(txq).wf(),
            ({
                let e = old(self)@.on_link_connect(old(txq)@);
                &&& final(self)@ == e.ch
                &&& final(txq)@ == e.queue
                &&& final(out)@ == old(out)@ + e.actions
            }),
    {
        proof {
            assert(old(out)@ + Seq::<Action>::empty() =~= old(out)@);
        }
        match self {
            Channel::Mcu(c) => c.on_link_connect(txq),
            Channel::Pty(c) => c.on_link_connect(out),
            Channel::TcpSource(c) => c.on_link_connect(),
            Channel::TcpDest(c) => c.on_link_connect(out),
        }
    }

    /// The link dropped.  Close all associated I/O and clean up state.
    pub fn on_link_disconnect(&mut self, out: &mut Vec<Action>)
        requires
            old(self)@.wf(),
        ensures
            final(self)@.wf(),
            ({
                let e = old(self)@.on_link_disconnect(Seq::empty());
                &&& final(self)@ == e.ch
                &&& final(out)@ == old(out)@ + e.actions
            }),
    {
        match self {
            Channel::Mcu(c) => c.on_link_disconnect(out),
            Channel::Pty(c) => c.on_link_disconnect(out),
            Channel::TcpSource(c) => c.on_link_disconnect(out),
            Channel::TcpDest(c) => c.on_link_disconnect(out),
        }
    }

    /// Periodic timer tick.  Handles UART reopen and MCU silence timeout.
    pub fn tick(&mut self, now: u64, txq: &mut TxQueue) -> (step: Step)
        requires
            old(self)@.wf(),
            old(txq).wf(),
        ensures
            final(self)@.wf(),
            final(txq).wf(),
            ({
                let e = old(self)@.on_tick(now, old(txq)@);
                &&& final(self)@ == e.ch
                &&& final(txq)@ == e.queue
                &&& step == e.step
            }),
    {
        match self {
            Channel::Mcu(c) => c.tick(now, txq),
            _ => Step::Done,
        }
    }

    /// Earliest time at which [`tick`](Channel::tick) must run, or `None` if
    /// not needed.
    pub fn next_deadline(&self) -> (t: Option<u64>)
        requires
            self@.wf(),
        ensures
            t == self@.deadline(),
    {
        match self {
            Channel::Mcu(c) => c.next_deadline(),
            _ => None,
        }
    }

    /// Close all descriptors and stop waiting for them, on controlled
    /// teardown.
    pub fn close(&mut self, out: &mut Vec<Action>)
        requires
            old(self)@.wf(),
        ensures
            final(self)@.wf(),
            ({
                let e = old(self)@.on_close(Seq::empty());
                &&& final(self)@ == e.ch
                &&& final(out)@ == old(out)@ + e.actions
            }),
    {
        match self {
            Channel::Mcu(c) => c.close_uart(out),
            Channel::Pty(c) => c.close_pty(out),
            Channel::TcpSource(c) => c.close(out),
            Channel::TcpDest(c) => c.on_link_disconnect(out),
        }
    }

    /// Suspend inbound reads (backpressure: link TX queue above high-water).
    pub fn pause_source_reads(&mut self, out: &mut Vec<Action>)
        requires
            old(self)@.wf(),
        ensures
            final(self)@.wf(),
            ({
                let e = old(self)@.on_pause(true, Seq::empty());
                &&& final(self)@ == e.ch
                &&& final(out)@ == old(out)@ + e.actions
            }),
    {
        match self {
            Channel::Mcu(c) => c.pause_source_reads(out),
            Channel::Pty(c) => c.pause_source_reads(out),
            Channel::TcpSource(c) => c.pause_source_reads(out),
            Channel::TcpDest(c) => c.pause_source_reads(out),
        }
    }

    /// Resume inbound reads (link TX queue drained below low-water).
    pub fn resume_source_reads(&mut self, out: &mut Vec<Action>)
        requires
            old(self)@.wf(),
        ensures
            final(self)@.wf(),
            ({
                let e = old(self)@.on_pause(false, Seq::empty());
                &&& final(self)@ == e.ch
                &&& final(out)@ == old(out)@ + e.actions
            }),
    {
        match self {
            Channel::Mcu(c) => c.resume_source_reads(out),
            Channel::Pty(c) => c.resume_source_reads(out),
            Channel::TcpSource(c) => c.resume_source_reads(out),
            Channel::TcpDest(c) => c.resume_source_reads(out),
        }
    }
}

/// A channel does what its kind does: what comes of frames, of the link, of
/// time, and of suspended reads.  Only MCU channels depend on time; an open PTY
/// and the connections of a TCP destination are closed when the link comes up
/// and when it is lost.
pub proof fn law_channel_does_as_its_kind(
    c: ChannelModel,
    ftype: u8,
    payload: Seq<u8>,
    paused: bool,
    now: u64,
    queue: Seq<u8>,
)
    ensures
        match c {
            ChannelModel::Mcu(m) => {
                &&& c.on_frame(ftype, payload, queue) == mcu_effect(
                    m.on_frame(ftype, payload, queue),
                )
                &&& c.on_link_connect(queue) == mcu_effect(m.on_link_connect(queue))
                &&& c.on_link_disconnect(queue) == mcu_effect(m.on_link_disconnect(queue))
                &&& c.on_tick(now, queue) == mcu_effect(m.on_tick(now, queue))
                &&& c.deadline() == m.deadline()
                &&& c.on_close(queue) == mcu_effect(m.on_close(queue))
                &&& c.on_pause(paused, queue) == mcu_effect(m.on_pause(paused, queue))
            },
            ChannelModel::Pty(m) => {
                &&& c.on_frame(ftype, payload, queue) == pty_effect(
                    m.on_frame(ftype, payload, queue),
                )
                &&& c.on_link_connect(queue) == pty_effect(m.on_close(queue))
                &&& c.on_link_disconnect(queue) == pty_effect(m.on_close(queue))
                &&& c.on_close(queue) == pty_effect(m.on_close(queue))
                &&& c.on_pause(paused, queue) == pty_effect(m.on_pause(paused, queue))
            },
            ChannelModel::TcpSource(m) => {
                &&& c.on_frame(ftype, payload, queue) == source_effect(
                    m.on_frame(ftype, payload, queue),
                )
                &&& c.on_link_connect(queue) == source_effect(m.on_link_connect(queue))
                &&& c.on_link_disconnect(queue) == source_effect(m.on_link_disconnect(queue))
                &&& c.on_close(queue) == source_effect(m.on_close(queue))
                &&& c.on_pause(paused, queue) == source_effect(m.on_pause(paused, queue))
            },
            ChannelModel::TcpDest(m) => {
                &&& c.on_frame(ftype, payload, queue) == dest_effect(
                    m.on_frame(ftype, payload, queue),
                )
                &&& c.on_link_connect(queue) == dest_effect(m.on_close(queue))
                &&& c.on_link_disconnect(queue) == dest_effect(m.on_close(queue))
                &&& c.on_close(queue) == dest_effect(m.on_close(queue))
                &&& c.on_pause(paused, queue) == dest_effect(m.on_pause(paused, queue))
            },
        },
        !(c is Mcu) ==> c.deadline() is None && c.on_tick(now, queue).ch == c && c.on_tick(
            now,
            queue,
        ).queue == queue && c.on_tick(now, queue).step == Step::Done,
{
}

/// What is done to a channel is what is done to it as one of its kind, neither
/// more nor less.
pub proof fn law_kind_is_kept(
    a: Effect<McuModel>,
    b: Effect<PtyModel>,
    c: Effect<TcpSourceModel>,
    d: Effect<TcpDestModel>,
)
    ensures
        mcu_effect(a).ch == ChannelModel::Mcu(a.ch),
        mcu_effect(a).queue == a.queue && mcu_effect(a).actions == a.actions && mcu_effect(a).step
            == a.step,
        pty_effect(b).ch == ChannelModel::Pty(b.ch),
        pty_effect(b).queue == b.queue && pty_effect(b).actions == b.actions && pty_effect(b).step
            == b.step,
        source_effect(c).ch == ChannelModel::TcpSource(c.ch),
        source_effect(c).queue == c.queue && source_effect(c).actions == c.actions
            && source_effect(c).step == c.step,
        dest_effect(d).ch == ChannelModel::TcpDest(d.ch),
        dest_effect(d).queue == d.queue && dest_effect(d).actions == d.actions && dest_effect(
            d,
        ).step == d.step,
{
}

/// Events of the one descriptor of an MCU channel or a PTY channel are the
/// channel's; those of other kinds of descriptors are nothing to it.
pub proof fn law_events_of_serial_channels(
    m: McuModel,
    p: PtyModel,
    token: Token,
    readable: bool,
    writable: bool,
    read: ReadOutcome,
    write: WriteOutcome,
    opened: bool,
    outcome: PtyOutcome,
    event: Event,
    now: u64,
    queue: Seq<u8>,
)
    ensures
        ({
            let c = ChannelModel::Mcu(m);
            &&& c.on_event(token, readable, writable, Event::Ready, now, queue) == mcu_effect(
                m.on_ready(readable, writable, queue),
            )
            &&& c.on_event(token, readable, writable, Event::Read(read), now, queue)
                == mcu_effect(m.on_read(writable, read, now, queue))
            &&& c.on_event(token, readable, writable, Event::Written(write), now, queue)
                == mcu_effect(m.on_write(write, queue))
            &&& c.on_event(token, readable, writable, Event::UartOpened(opened), now, queue)
                == mcu_effect(m.on_opened(opened, now, queue))
            &&& event is PtyOpened || event is Accepted || event is Adopted
                || event is ConnectStarted || event is ConnectChecked ==> ({
                let e = c.on_event(token, readable, writable, event, now, queue);
                e.ch == c && e.queue == queue && e.actions.len() == 0 && e.step == Step::Done
            })
        }),
        ({
            let c = ChannelModel::Pty(p);
            &&& c.on_event(token, readable, writable, Event::Ready, now, queue) == pty_effect(
                p.on_ready(readable, writable, queue),
            )
            &&& c.on_event(token, readable, writable, Event::Read(read), now, queue)
                == pty_effect(p.on_read(writable, read, queue))
            &&& c.on_event(token, readable, writable, Event::Written(write), now, queue)
                == pty_effect(p.on_write(write, queue))
            &&& c.on_event(token, readable, writable, Event::PtyOpened(outcome), now, queue)
                == pty_effect(p.on_opened(outcome, queue))
            &&& event is UartOpened || event is Accepted || event is Adopted
                || event is ConnectStarted || event is ConnectChecked ==> ({
                let e = c.on_event(token, readable, writable, event, now, queue);
                e.ch == c && e.queue == queue && e.actions.len() == 0 && e.step == Step::Done
            })
        }),
{
}

/// Events of a slot's descriptor are that slot's, whichever it is; and those of
/// the primary descriptor of a TCP source are its listener's.
pub proof fn law_events_of_tcp_channels(
    s: TcpSourceModel,
    d: TcpDestModel,
    slot: int,
    readable: bool,
    writable: bool,
    read: ReadOutcome,
    write: WriteOutcome,
    accept: AcceptOutcome,
    done: bool,
    now: u64,
    queue: Seq<u8>,
)
    requires
        s.wf(),
        d.wf(),
        0 <= slot < token::MAX_TCP_CONNS,
    ensures
        ({
            let c = ChannelModel::TcpSource(s);
            let t = token::tcp_slot(s.table.ch_id, slot);
            let listener = token::primary(s.table.ch_id);
            &&& c.pending(t) == (match s.table.conns[slot] {
                Some(conn) => conn.txbuf,
                None => Seq::empty(),
            })
            &&& c.on_event(listener, readable, writable, Event::Ready, now, queue)
                == source_effect(s.on_listener(readable, queue))
            &&& c.on_event(t, readable, writable, Event::Ready, now, queue) == source_effect(
                s.on_event(slot, readable, writable, queue),
            )
            &&& c.on_event(t, readable, writable, Event::Read(read), now, queue)
                == source_effect(s.on_read(slot, writable, read, queue))
            &&& c.on_event(t, readable, writable, Event::Written(write), now, queue)
                == source_effect(s.on_write(slot, write, queue))
            &&& c.on_event(t, readable, writable, Event::Adopted(done), now, queue)
                == source_effect(s.on_adopted(slot, done, queue))
            &&& ({
                let e = c.on_event(
                    listener,
                    readable,
                    writable,
                    Event::Accepted(accept),
                    now,
                    queue,
                );
                &&& e.ch == ChannelModel::TcpSource(s.on_accept(accept).0)
                &&& e.step == s.on_accept(accept).1
                &&& e.queue == queue && e.actions.len() == 0
            })
        }),
        ({
            let c = ChannelModel::TcpDest(d);
            let t = token::tcp_slot(d.table.ch_id, slot);
            &&& c.pending(t) == (match d.table.conns[slot] {
                Some(conn) => conn.txbuf,
                None => Seq::empty(),
            })
            &&& c.on_event(t, readable, writable, Event::Ready, now, queue) == dest_effect(
                d.on_event(slot, readable, writable, queue),
            )
            &&& c.on_event(t, readable, writable, Event::Read(read), now, queue) == dest_effect(
                d.on_read(slot, read, queue),
            )
            &&& c.on_event(t, readable, writable, Event::Written(write), now, queue)
                == dest_effect(d.on_write(slot, readable, write, queue))
            &&& c.on_event(t, readable, writable, Event::ConnectStarted(done), now, queue)
                == dest_effect(d.on_connect(slot, done, queue))
            &&& c.on_event(t, readable, writable, Event::ConnectChecked(done), now, queue)
                == dest_effect(d.on_checked(slot, readable, done, queue))
        }),
{
    token::law_tokens_are_reversible(s.table.ch_id, slot);
    token::law_tokens_are_distinct(s.table.ch_id, slot, s.table.ch_id, slot);
    token::law_tokens_are_reversible(d.table.ch_id, slot);
    token::law_tokens_are_distinct(d.table.ch_id, slot, d.table.ch_id, slot);
}

} // verus!
