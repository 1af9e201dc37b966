//! Host-side TCP channel: connects to a local service what the exporter
//! tunnels.

use super::io::{Action, Effect, Step};
use super::tcp::{send_tclose, send_tdata, unpack_cid, ConnTable, TableModel};
use super::token::{
    slot_for_token, tcp_slot_token, Token, MAX_CHANNEL_ID, MAX_TCP_CONNS, TCP_BASE,
};
use crate::protocol::{TxQueue, F_TCONN};
use crate::serial::{ReadOutcome, WriteOutcome};
#[allow(unused_imports)]
use super::{tcp, token};
#[allow(unused_imports)]
use super::tcp::ConnModel;
#[allow(unused_imports)]
use super::io::{self, Interest};
#[allow(unused_imports)]
use crate::protocol::{tx_queue, F_TCLOSE};
use vstd::prelude::*;

verus! {

/// Host-side TCP channel.
///
/// On receipt of `F_TCONN` it opens a connection to the configured
/// destination address.  Data is forwarded bidirectionally until one side
/// sends `F_TCLOSE`.
pub struct TcpDestChannel {
    table: ConnTable,
    dest_addr: String,
    dest_port: u16,
}

/// The value of a [`TcpDestChannel`].
#[verifier::ext_equal]
pub struct TcpDestModel {
    pub table: TableModel,
    pub dest_addr: Seq<char>,
    pub dest_port: u16,
}

impl View for TcpDestChannel {
    type V = TcpDestModel;

    closed spec fn view(&self) -> TcpDestModel {
        TcpDestModel {
            table: self.table@,
            dest_addr: self.dest_addr@,
            dest_port: self.dest_port,
        }
    }
}

impl TcpDestModel {
    /// The table of slots is sound.
    pub open spec fn wf(self) -> bool {
        self.table.wf()
    }

    /// What is done to the table, done to the channel.
    pub open spec fn lifted(self, e: Effect<TableModel>) -> Effect<TcpDestModel> {
        Effect {
            ch: TcpDestModel { table: e.ch, ..self },
            queue: e.queue,
            actions: e.actions,
            step: e.step,
        }
    }

    /// Nothing changes, and a step is needed.
    pub open spec fn stepping(self, step: Step, queue: Seq<u8>) -> Effect<TcpDestModel> {
        Effect { ch: self, queue, actions: Seq::empty(), step }
    }

    /// What a readable event for a slot comes to.  Nothing is read before the
    /// connection is made, nor once the far side said goodbye.
    pub open spec fn on_readable(self, slot: int, readable: bool, queue: Seq<u8>) -> Effect<
        TcpDestModel,
    > {
        match self.table.conns[slot] {
            Some(c) if readable && !c.connecting && !c.close_pending => self.stepping(
                Step::Read(self.table.token(slot)),
                queue,
            ),
            _ => self.lifted(self.table.resynced(slot, queue)),
        }
    }

    /// What is left to do once the pending bytes of a slot were offered: a
    /// connection that the far side closed is closed when they are through.
    pub open spec fn after_writing(self, slot: int, readable: bool, queue: Seq<u8>) -> Effect<
        TcpDestModel,
    > {
        match self.table.conns[slot] {
            Some(c) if c.is_finished() => self.lifted(self.table.hung_up(slot, false, queue)),
            _ => self.on_readable(slot, readable, queue),
        }
    }

    /// What an event for a slot comes to once its connect is settled: writes
    /// first, then reads.
    pub open spec fn on_writable(self, slot: int, readable: bool, writable: bool, queue: Seq<u8>) -> Effect<
        TcpDestModel,
    > {
        match self.table.conns[slot] {
            Some(c) if writable => if !c.connecting && c.txbuf.len() > 0 {
                self.stepping(Step::Write(self.table.token(slot)), queue)
            } else {
                self.after_writing(slot, readable, queue)
            },
            _ => self.on_readable(slot, readable, queue),
        }
    }

    /// What an event for a slot comes to.  The first writable event of a
    /// connection that is being made tells whether it was.
    pub open spec fn on_event(self, slot: int, readable: bool, writable: bool, queue: Seq<u8>) -> Effect<
        TcpDestModel,
    > {
        match self.table.conns[slot] {
            None => self.stepping(Step::Done, queue),
            Some(c) => if c.connecting && writable {
                self.stepping(Step::CheckConnect(self.table.token(slot)), queue)
            } else {
                self.on_writable(slot, readable, writable, queue)
            },
        }
    }

    /// What the answer to whether a connection was made comes to.
    pub open spec fn on_checked(self, slot: int, readable: bool, connected: bool, queue: Seq<u8>) -> Effect<
        TcpDestModel,
    > {
        match self.table.conns[slot] {
            None => self.stepping(Step::Done, queue),
            Some(c) => if connected {
                (TcpDestModel {
                    table: self.table.with(slot, ConnModel { connecting: false, ..c }),
                    ..self
                }).on_writable(slot, readable, true, queue)
            } else {
                self.lifted(self.table.hung_up(slot, true, queue))
            },
        }
    }

    /// What a write to a stream comes to.
    pub open spec fn on_write(
        self,
        slot: int,
        readable: bool,
        write: WriteOutcome,
        queue: Seq<u8>,
    ) -> Effect<TcpDestModel> {
        match self.table.conns[slot] {
            None => self.stepping(Step::Done, queue),
            Some(c) => match write {
                WriteOutcome::Failed(_) => self.lifted(self.table.hung_up(slot, true, queue)),
                _ => (TcpDestModel {
                    table: self.table.with(slot, c.after_write(write)),
                    ..self
                }).after_writing(slot, readable, queue),
            },
        }
    }

    /// What a read of a stream comes to.  Data goes into the tunnel, and the
    /// stream is read again; its end, or an error, closes the connection.
    pub open spec fn on_read(self, slot: int, read: ReadOutcome, queue: Seq<u8>) -> Effect<
        TcpDestModel,
    > {
        match self.table.conns[slot] {
            None => self.stepping(Step::Done, queue),
            Some(c) => match read {
                ReadOutcome::WouldBlock => self.lifted(self.table.resynced(slot, queue)),
                ReadOutcome::Data(data) if data@.len() > 0 => self.on_readable(
                    slot,
                    true,
                    tcp::tunneled(queue, self.table.ch_id, slot as nat, data@),
                ),
                _ => self.lifted(self.table.hung_up(slot, true, queue)),
            },
        }
    }

    /// What a frame from the exporter comes to.  A connection is opened only
    /// in a slot that is empty.
    pub open spec fn on_frame(self, ftype: u8, payload: Seq<u8>, queue: Seq<u8>) -> Effect<
        TcpDestModel,
    > {
        if ftype == F_TCONN {
            match tcp::unpacked(payload) {
                Some((cid, data)) if cid < MAX_TCP_CONNS && self.table.conns[cid as int] is None =>
                self.stepping(Step::Connect(self.table.token(cid as int)), queue),
                _ => self.stepping(Step::Done, queue),
            }
        } else {
            self.lifted(self.table.on_tunnel_frame(ftype, payload, true, queue))
        }
    }

    /// What the attempt to start a connection comes to: where it fails, the
    /// far side is told at once.
    pub open spec fn on_connect(self, slot: int, started: bool, queue: Seq<u8>) -> Effect<
        TcpDestModel,
    > {
        if started {
            Effect {
                ch: TcpDestModel { table: self.table.with(slot, tcp::fresh_conn(true)), ..self },
                queue,
                actions: Seq::empty(),
                step: Step::Done,
            }
        } else {
            self.stepping(
                Step::Done,
                tcp::close_notified(queue, self.table.ch_id, slot as nat),
            )
        }
    }

    /// Reads are suspended or resumed.
    pub open spec fn on_pause(self, paused: bool, queue: Seq<u8>) -> Effect<TcpDestModel> {
        if self.table.bp_paused == paused {
            self.stepping(Step::Done, queue)
        } else {
            let t = TableModel { bp_paused: paused, ..self.table };
            Effect {
                ch: TcpDestModel { table: t.all_synced(), ..self },
                queue,
                actions: t.all_sync_actions(MAX_TCP_CONNS as nat),
                step: Step::Done,
            }
        }
    }

    /// All connections are closed.
    pub open spec fn on_close(self, queue: Seq<u8>) -> Effect<TcpDestModel> {
        Effect {
            ch: TcpDestModel { table: self.table.all_closed(), ..self },
            queue,
            actions: self.table.all_close_actions(MAX_TCP_CONNS as nat),
            step: Step::Done,
        }
    }
}

impl TcpDestChannel {
    /// Create a new destination channel.  Connections are opened lazily on
    /// `F_TCONN` frames.
    pub fn new(ch_id: u8, dest_addr: String, dest_port: u16) -> (ch: Self)
        requires
            ch_id <= MAX_CHANNEL_ID,
        ensures
            ch@.wf(),
            ch@ == (TcpDestModel {
                table: TableModel {
                    ch_id,
                    bp_paused: false,
                    conns: Seq::new(MAX_TCP_CONNS as nat, |i: int| None),
                },
                dest_addr: dest_addr@,
                dest_port,
            }),
    {
        TcpDestChannel { table: ConnTable::new(ch_id), dest_addr, dest_port }
    }

    /// The wire channel id.
    pub fn channel_id(&self) -> (id: u8)
        ensures
            id == self@.table.ch_id,
    {
        self.table.channel_id()
    }

    /// The address that connections go to.
    pub fn dest_addr(&self) -> (addr: &str)
        ensures
            addr@ == self@.dest_addr,
    {
        self.dest_addr.as_str()
    }

    /// The port that connections go to.
    pub fn dest_port(&self) -> (port: u16)
        ensures
            port == self@.dest_port,
    {
        self.dest_port
    }

    /// An event fired for one of the connections.  The channel has no primary
    /// descriptor, so an event for one is nothing to it.
    pub fn handle_event(
        &mut self,
        token: Token,
        readable: bool,
        writable: bool,
        txq: &mut TxQueue,
        out: &mut Vec<Action>,
    ) -> (step: Step)
        requires
            old(self)@.wf(),
            old(txq).wf(),
            token::owner(token) == Some(old(self)@.table.ch_id),
        ensures
            final(self)@.wf(),
            final(txq).wf(),
            ({
                let e = if token.0 < TCP_BASE {
                    old(self)@.stepping(Step::Done, old(txq)@)
                } else {
                    old(self)@.on_event(token::slot_of(token), readable, writable, old(txq)@)
                };
                &&& final(self)@ == e.ch
                &&& final(txq)@ == e.queue
                &&& final(out)@ == old(out)@ + e.actions
                &&& step == e.step
            }),
    {
        proof {
            assert(old(out)@ + Seq::<Action>::empty() =~= old(out)@);
        }
        if token.0 < TCP_BASE {
            return Step::Done;
        }
        self.tcp_event(slot_for_token(token), readable, writable, txq, out)
    }

    fn tcp_event(
        &mut self,
        slot: usize,
        readable: bool,
        writable: bool,
        txq: &mut TxQueue,
        out: &mut Vec<Action>,
    ) -> (step: Step)
        requires
            old(self)@.wf(),
            old(txq).wf(),
            slot < MAX_TCP_CONNS,
        ensures
            final(self)@.wf(),
            final(txq).wf(),
            ({
                let e = old(self)@.on_event(slot as int, readable, writable, old(txq)@);
                &&& final(self)@ == e.ch
                &&& final(txq)@ == e.queue
                &&& final(out)@ == old(out)@ + e.actions
                &&& step == e.step
            }),
    {
        proof {
            assert(old(out)@ + Seq::<Action>::empty() =~= old(out)@);
        }
        match self.table.status(slot) {
            None => Step::Done,
            Some((connecting, _, _)) => {
                if connecting && writable {
                    return Step::CheckConnect(tcp_slot_token(self.table.channel_id(), slot));
                }
                self.write_phase(slot, readable, writable, txq, out)
            },
        }
    }

    fn write_phase(
        &mut self,
        slot: usize,
        readable: bool,
        writable: bool,
        txq: &mut TxQueue,
        out: &mut Vec<Action>,
    ) -> (step: Step)
        requires
            old(self)@.wf(),
            old(txq).wf(),
            slot < MAX_TCP_CONNS,
        ensures
            final(self)@.wf(),
            final(txq).wf(),
            ({
                let e = old(self)@.on_writable(slot as int, readable, writable, old(txq)@);
                &&& final(self)@ == e.ch
                &&& final(txq)@ == e.queue
                &&& final(out)@ == old(out)@ + e.actions
                &&& step == e.step
            }),
    {
        proof {
            assert(old(out)@ + Seq::<Action>::empty() =~= old(out)@);
        }
        if writable {
            if let Some((connecting, _, n)) = self.table.status(slot) {
                if !connecting && n > 0 {
                    return Step::Write(tcp_slot_token(self.table.channel_id(), slot));
                }
                return self.settle(slot, readable, txq, out);
            }
        }
        self.read_phase(slot, readable, out)
    }

    fn settle(
        &mut self,
        slot: usize,
        readable: bool,
        txq: &mut TxQueue,
        out: &mut Vec<Action>,
    ) -> (step: Step)
        requires
            old(self)@.wf(),
            old(txq).wf(),
            slot < MAX_TCP_CONNS,
        ensures
            final(self)@.wf(),
            final(txq).wf(),
            ({
                let e = old(self)@.after_writing(slot as int, readable, old(txq)@);
                &&& final(self)@ == e.ch
                &&& final(txq)@ == e.queue
                &&& final(out)@ == old(out)@ + e.actions
                &&& step == e.step
            }),
    {
        if let Some((_, close_pending, n)) = self.table.status(slot) {
            if n == 0 && close_pending {
                self.table.hang_up(slot, false, txq, out);
                return Step::Done;
            }
        }
        self.read_phase(slot, readable, out)
    }

    fn read_phase(&mut self, slot: usize, readable: bool, out: &mut Vec<Action>) -> (step: Step)
        requires
            old(self)@.wf(),
            slot < MAX_TCP_CONNS,
        ensures
            final(self)@.wf(),
            ({
                let e = old(self)@.on_readable(slot as int, readable, Seq::empty());
                &&& final(self)@ == e.ch
                &&& final(out)@ == old(out)@ + e.actions
                &&& step == e.step
            }),
    {
        proof {
            assert(old(out)@ + Seq::<Action>::empty() =~= old(out)@);
        }
        if readable {
            if let Some((connecting, close_pending, _)) = self.table.status(slot) {
                if !connecting && !close_pending {
                    return Step::Read(tcp_slot_token(self.table.channel_id(), slot));
                }
            }
        }
        self.table.update_conn_interest(slot, out);
        Step::Done
    }

    /// It was found out whether the connection in a slot was made.
    pub fn tcp_checked(
        &mut self,
        slot: usize,
        readable: bool,
        connected: bool,
        txq: &mut TxQueue,
        out: &mut Vec<Action>,
    ) -> (step: Step)
        requires
            old(self)@.wf(),
            old(txq).wf(),
            slot < MAX_TCP_CONNS,
        ensures
            final(self)@.wf(),
            final(txq).wf(),
            ({
                let e = old(self)@.on_checked(slot as int, readable, connected, old(txq)@);
                &&& final(self)@ == e.ch
                &&& final(txq)@ == e.queue
                &&& final(out)@ == old(out)@ + e.actions
                &&& step == e.step
            }),
    {
        proof {
            assert(old(out)@ + Seq::<Action>::empty() =~= old(out)@);
        }
        if self.table.is_free(slot) {
            return Step::Done;
        }
        if !connected {
            self.table.hang_up(slot, true, txq, out);
            return Step::Done;
        }
        self.table.set_connected(slot);
        self.write_phase(slot, readable, true, txq, out)
    }

    /// The bytes that wait to be written to the stream in a slot.
    pub fn pending(&self, slot: usize) -> (bytes: &[u8])
        requires
            self@.wf(),
            slot < MAX_TCP_CONNS,
        ensures
            match self@.table.conns[slot as int] {
                Some(c) => bytes@ == c.txbuf,
                None => bytes@.len() == 0,
            },
    {
        self.table.pending(slot)
    }

    /// The pending bytes of a slot were offered to its stream.
    pub fn tcp_written(
        &mut self,
        slot: usize,
        readable: bool,
        write: WriteOutcome,
        txq: &mut TxQueue,
        out: &mut Vec<Action>,
    ) -> (step: Step)
        requires
            old(self)@.wf(),
            old(txq).wf(),
            slot < MAX_TCP_CONNS,
            write matches WriteOutcome::Written(n) ==> (old(self)@.table.conns[slot as int] matches Some(
                c,
            ) ==> n <= c.txbuf.len()),
        ensures
            final(self)@.wf(),
            final(txq).wf(),
            ({
                let e = old(self)@.on_write(slot as int, readable, write, old(txq)@);
                &&& final(self)@ == e.ch
                &&& final(txq)@ == e.queue
                &&& final(out)@ == old(out)@ + e.actions
                &&& step == e.step
            }),
    {
        proof {
            assert(old(out)@ + Seq::<Action>::empty() =~= old(out)@);
        }
        if self.table.is_free(slot) {
            return Step::Done;
        }
        let ghost m0 = self@;
        match write {
            WriteOutcome::Failed(_) => {
                self.table.hang_up(slot, true, txq, out);
                return Step::Done;
            },
            WriteOutcome::Written(n) => {
                self.table.drop_written(slot, n);
            },
            WriteOutcome::WouldBlock => {
                assert(m0.table.with(slot as int, m0.table.conns[slot as int]->Some_0)
                    =~= m0.table);
            },
        }
        self.settle(slot, readable, txq, out)
    }

    /// The stream in a slot was read.
    pub fn tcp_read(
        &mut self,
        slot: usize,
        read: ReadOutcome,
        txq: &mut TxQueue,
        out: &mut Vec<Action>,
    ) -> (step: Step)
        requires
            old(self)@.wf(),
            old(txq).wf(),
            slot < MAX_TCP_CONNS,
        ensures
            final(self)@.wf(),
            final(txq).wf(),
            ({
                let e = old(self)@.on_read(slot as int, read, old(txq)@);
                &&& final(self)@ == e.ch
                &&& final(txq)@ == e.queue
                &&& final(out)@ == old(out)@ + e.actions
                &&& step == e.step
            }),
    {
        proof {
            assert(old(out)@ + Seq::<Action>::empty() =~= old(out)@);
        }
        if self.table.is_free(slot) {
            return Step::Done;
        }
        match read {
            ReadOutcome::WouldBlock => {
                self.table.update_conn_interest(slot, out);
                Step::Done
            },
            ReadOutcome::Data(data) => {
                if data.len() == 0 {
                    self.table.hang_up(slot, true, txq, out);
                    return Step::Done;
                }
                send_tdata(self.table.channel_id(), slot as u16, data, txq);
                self.read_phase(slot, true, out)
            },
            ReadOutcome::Failed(_) => {
                self.table.hang_up(slot, true, txq, out);
                Step::Done
            },
        }
    }

    /// A frame arrived from the far side of the link.
    pub fn on_frame(
        &mut self,
        ftype: u8,
        payload: &[u8],
        txq: &mut TxQueue,
        out: &mut Vec<Action>,
    ) -> (step: Step)
        requires
            old(self)@.wf(),
            old(txq).wf(),
        ensures
            final(self)@.wf(),
            final(txq).wf(),
            ({
                let e = old(self)@.on_frame(ftype, payload@, old(txq)@);
                &&& final(self)@ == e.ch
                &&& final(txq)@ == e.queue
                &&& final(out)@ == old(out)@ + e.actions
                &&& step == e.step
            }),
    {
        proof {
            assert(old(out)@ + Seq::<Action>::empty() =~= old(out)@);
        }
        if ftype == F_TCONN {
            if let Some((cid, _)) = unpack_cid(payload) {
                let slot: usize = cid as usize;
                if slot < MAX_TCP_CONNS && self.table.is_free(slot) {
                    return Step::Connect(tcp_slot_token(self.table.channel_id(), slot));
                }
            }
            return Step::Done;
        }
        self.table.on_tunnel_frame(ftype, payload, true, txq, out);
        Step::Done
    }

    /// The connection for a slot was started and registered, or could not be.
    pub fn open_conn(&mut self, slot: usize, started: bool, txq: &mut TxQueue)
        requires
            old(self)@.wf(),
            old(txq).wf(),
            slot < MAX_TCP_CONNS,
        ensures
            final(self)@.wf(),
            final(txq).wf(),
            ({
                let e = old(self)@.on_connect(slot as int, started, old(txq)@);
                &&& final(self)@ == e.ch
                &&& final(txq)@ == e.queue
            }),
    {
        if started {
            self.table.insert(slot, true);
        } else {
            send_tclose(self.table.channel_id(), slot as u16, txq);
        }
    }

    /// The link just completed its handshake: close any connections left open
    /// from a previous session.
    pub fn on_link_connect(&mut self, out: &mut Vec<Action>)
        requires
            old(self)@.wf(),
        ensures
            final(self)@.wf(),
            ({
                let e = old(self)@.on_close(Seq::empty());
                &&& final(self)@ == e.ch
                &&& final(out)@ == old(out)@ + e.actions
            }),
    {
        self.table.close_all(out);
    }

    /// The link dropped: close all connections.
    pub fn on_link_disconnect(&mut self, out: &mut Vec<Action>)
        requires
            old(self)@.wf(),
        ensures
            final(self)@.wf(),
            ({
                let e = old(self)@.on_close(Seq::empty());
                &&& final(self)@ == e.ch
                &&& final(out)@ == old(out)@ + e.actions
            }),
    {
        self.table.close_all(out);
    }

    /// Suspend inbound reads (backpressure: link TX queue above high-water).
    pub fn pause_source_reads(&mut self, out: &mut Vec<Action>)
        requires
            old(self)@.wf(),
        ensures
            final(self)@.wf(),
            ({
                let e = old(self)@.on_pause(true, Seq::empty());
                &&& final(self)@ == e.ch
                &&& final(out)@ == old(out)@ + e.actions
            }),
    {
        proof {
            assert(old(out)@ + Seq::<Action>::empty() =~= old(out)@);
        }
        if !self.table.is_paused() {
            self.table.set_paused(true, out);
        }
    }

    /// Resume inbound reads (link TX queue drained below low-water).
    pub fn resume_source_reads(&mut self, out: &mut Vec<Action>)
        requires
            old(self)@.wf(),
        ensures
            final(self)@.wf(),
            ({
                let e = old(self)@.on_pause(false, Seq::empty());
                &&& final(self)@ == e.ch
                &&& final(out)@ == old(out)@ + e.actions
            }),
    {
        proof {
            assert(old(out)@ + Seq::<Action>::empty() =~= old(out)@);
        }
        if self.table.is_paused() {
            self.table.set_paused(false, out);
        }
    }
}

/// A close is not echoed: where the exporter closed a connection, it is not told
/// of the close, neither at once nor when the pending bytes are through; and by
/// then the slot is empty.
pub proof fn law_dest_does_not_echo_close(
    m: TcpDestModel,
    slot: int,
    readable: bool,
    n: usize,
    queue: Seq<u8>,
)
    requires
        m.wf(),
        0 <= slot < MAX_TCP_CONNS,
        m.table.conns[slot] matches Some(c) && n == c.txbuf.len(),
    ensures
        ({
            let closed = m.on_frame(F_TCLOSE, tcp::cid_bytes(slot as nat), queue);
            let drained = closed.ch.on_write(slot, readable, WriteOutcome::Written(n), closed.queue);
            &&& closed.queue == queue
            &&& n == 0 ==> closed.ch.table.conns[slot] is None
            &&& drained.queue == queue
            &&& drained.ch.table.conns[slot] is None
        }),
{
    tcp::law_cid_roundtrip(slot as nat, Seq::empty());
    assert(tcp::cid_bytes(slot as nat) + Seq::<u8>::empty() =~= tcp::cid_bytes(slot as nat));
}

/// A connection that the exporter announces is made: in the slot of its id, if
/// that is one of a slot that is empty.  Else nothing happens.
pub proof fn law_announced_connection_is_made(m: TcpDestModel, payload: Seq<u8>, queue: Seq<u8>)
    requires
        m.wf(),
    ensures
        ({
            let e = m.on_frame(F_TCONN, payload, queue);
            let id = payload[0] + 256 * payload[1];
            &&& e.ch == m && e.queue == queue && e.actions.len() == 0
            &&& e.step == (if payload.len() >= 2 && id < 256 && m.table.conns[id] is None {
                Step::Connect(m.table.token(id))
            } else {
                Step::Done
            })
        }),
{
}

/// A connection that was started waits to be made, with nothing pending; of
/// one that could not be the far side is told at once, and the slot stays as
/// it was.
pub proof fn law_started_connection_waits(
    m: TcpDestModel,
    slot: int,
    started: bool,
    queue: Seq<u8>,
)
    requires
        m.wf(),
        0 <= slot < MAX_TCP_CONNS,
    ensures
        ({
            let e = m.on_connect(slot, started, queue);
            &&& e.actions.len() == 0 && e.step == Step::Done
            &&& if started {
                &&& e.ch == (TcpDestModel {
                    table: TableModel {
                        conns: m.table.conns.update(
                            slot,
                            Some(
                                ConnModel {
                                    txbuf: Seq::empty(),
                                    connecting: true,
                                    in_sel: true,
                                    close_pending: false,
                                },
                            ),
                        ),
                        ..m.table
                    },
                    ..m
                })
                &&& e.queue == queue
            } else {
                e.ch == m && e.queue == tx_queue::enqueued(
                    queue,
                    tcp::close_notice(m.table.ch_id, slot),
                )
            }
        }),
{
    let t = TableModel {
        conns: m.table.conns.update(slot, Some(tcp::fresh_conn(true))),
        ..m.table
    };
    tcp::law_connection_is_closed(t, slot, true, queue);
}

/// A connection that is being made is asked about when it is writable, and
/// neither read nor written to before.
pub proof fn law_connection_in_the_making_is_checked(
    m: TcpDestModel,
    slot: int,
    readable: bool,
    writable: bool,
    queue: Seq<u8>,
)
    requires
        m.wf(),
        0 <= slot < MAX_TCP_CONNS,
        m.table.conns[slot] matches Some(c) && c.connecting,
    ensures
        ({
            let e = m.on_event(slot, readable, writable, queue);
            &&& e.queue == queue
            &&& writable ==> e.step == Step::CheckConnect(m.table.token(slot)) && e.ch == m
                && e.actions.len() == 0
            &&& !writable ==> e.step == Step::Done && (e.ch.table.conns[slot] matches Some(c)
                && c.connecting && c.txbuf == m.table.conns[slot]->Some_0.txbuf)
        }),
{
}

/// A connection that was made is served as any other from then on; one that
/// could not be made is closed, and the far side told.
pub proof fn law_checked_connection_is_served(
    m: TcpDestModel,
    slot: int,
    readable: bool,
    connected: bool,
    queue: Seq<u8>,
)
    requires
        m.wf(),
        0 <= slot < MAX_TCP_CONNS,
        m.table.conns[slot] is Some,
    ensures
        ({
            let c = m.table.conns[slot]->Some_0;
            let e = m.on_checked(slot, readable, connected, queue);
            if connected {
                e == (TcpDestModel {
                    table: TableModel {
                        conns: m.table.conns.update(
                            slot,
                            Some(ConnModel { connecting: false, ..c }),
                        ),
                        ..m.table
                    },
                    ..m
                }).on_event(slot, readable, true, queue)
            } else {
                &&& e.ch == (TcpDestModel {
                    table: TableModel { conns: m.table.conns.update(slot, None), ..m.table },
                    ..m
                })
                &&& e.queue == tx_queue::enqueued(
                    queue,
                    tcp::close_notice(m.table.ch_id, slot),
                )
                &&& e.actions.len() > 0
                &&& e.actions.last() == Action::Close(m.table.token(slot))
                &&& e.step == Step::Done
            }
        }),
{
    tcp::law_connection_is_closed(m.table, slot, true, queue);
}

/// A connection that was made and is ready is served: it is written to first,
/// while something is pending, then read, unless it is only drained.  Where
/// there is nothing to do its registration is brought in line.  An empty slot
/// is not served.
pub proof fn law_ready_dest_is_served(
    m: TcpDestModel,
    slot: int,
    readable: bool,
    writable: bool,
    queue: Seq<u8>,
)
    requires
        m.wf(),
        0 <= slot < MAX_TCP_CONNS,
        m.table.conns[slot] matches Some(c) ==> !c.connecting,
    ensures
        ({
            let e = m.on_event(slot, readable, writable, queue);
            let t = m.table.token(slot);
            match m.table.conns[slot] {
                None => e.step == Step::Done && e.ch == m && e.queue == queue && e.actions.len()
                    == 0,
                Some(c) => {
                    let resynced = m.table.resynced(slot, queue);
                    &&& writable && c.txbuf.len() > 0 ==> e.step == Step::Write(t) && e.ch == m
                        && e.actions.len() == 0 && e.queue == queue
                    &&& writable && c.txbuf.len() == 0 ==> e == m.on_write(
                        slot,
                        readable,
                        WriteOutcome::Written(0),
                        queue,
                    )
                    &&& !writable && readable && !c.close_pending ==> e.step == Step::Read(t)
                        && e.ch == m && e.actions.len() == 0 && e.queue == queue
                    &&& !writable && !(readable && !c.close_pending) ==> e.ch == (TcpDestModel {
                        table: resynced.ch,
                        ..m
                    }) && e.actions == resynced.actions && e.queue == queue && e.step
                        == Step::Done
                },
            }
        }),
{
    if let Some(c) = m.table.conns[slot] {
        assert(c.txbuf.skip(0) =~= c.txbuf);
        assert(m.table.conns.update(slot, Some(c)) =~= m.table.conns);
    }
}

/// A write to a connection leaves pending just the bytes behind those that it
/// took, none where it would block.  One that was only drained is closed when
/// they are through, without a word to the far side; any other is read where
/// it is readable, or else waits for what it needs.
pub proof fn law_dest_write_takes_bytes_off(
    m: TcpDestModel,
    slot: int,
    before: Option<Interest>,
    readable: bool,
    outcome: WriteOutcome,
    n: int,
    queue: Seq<u8>,
)
    requires
        m.wf(),
        0 <= slot < MAX_TCP_CONNS,
        m.table.conns[slot] matches Some(c) && before is Some == c.in_sel && 0 <= n
            <= c.txbuf.len(),
        outcome is WouldBlock && n == 0 || (outcome matches WriteOutcome::Written(w) && w == n),
    ensures
        ({
            let c = m.table.conns[slot]->Some_0;
            let e = m.on_write(slot, readable, outcome, queue);
            let rest = c.txbuf.skip(n);
            &&& e.queue == queue
            &&& if rest.len() == 0 && c.close_pending {
                &&& e.ch == (TcpDestModel {
                    table: TableModel { conns: m.table.conns.update(slot, None), ..m.table },
                    ..m
                })
                &&& e.actions.len() > 0
                &&& e.actions.last() == Action::Close(m.table.token(slot))
                &&& e.step == Step::Done
            } else {
                let read = !m.table.bp_paused && !c.close_pending;
                let write = rest.len() > 0 || c.connecting;
                let reading = readable && !c.close_pending && !c.connecting;
                &&& e.ch == (TcpDestModel {
                    table: TableModel {
                        conns: m.table.conns.update(
                            slot,
                            Some(
                                ConnModel {
                                    txbuf: rest,
                                    in_sel: if reading {
                                        c.in_sel
                                    } else {
                                        read || write
                                    },
                                    ..c
                                },
                            ),
                        ),
                        ..m.table
                    },
                    ..m
                })
                &&& reading ==> e.step == Step::Read(m.table.token(slot)) && e.actions.len() == 0
                &&& !reading ==> e.step == Step::Done && io::leaves_waiting(
                    before,
                    e.actions,
                    m.table.token(slot),
                    read,
                    write,
                )
            }
        }),
{
    let c = m.table.conns[slot]->Some_0;
    let rest = c.txbuf.skip(n);
    let e = m.on_write(slot, readable, outcome, queue);
    assert(c.txbuf.skip(0) =~= c.txbuf);
    let t = m.table.with(slot, ConnModel { txbuf: rest, ..c });
    if rest.len() == 0 && c.close_pending {
        assert(e.ch.table.conns =~= m.table.conns.update(slot, None));
    } else {
        tcp::law_connection_is_brought_in_line(t, slot, before, queue);
        let in_sel = !m.table.bp_paused && !c.close_pending || rest.len() > 0 || c.connecting;
        assert(t.conns.update(slot, Some(ConnModel { txbuf: rest, in_sel, ..c }))
            =~= m.table.conns.update(slot, Some(ConnModel { txbuf: rest, in_sel, ..c })));
    }
}

/// Bytes from a connection go into the tunnel as they came, under its slot; the
/// stream is read again, unless it is only drained.  Where there is nothing to
/// read the registration is brought in line.
pub proof fn law_dest_stream_is_forwarded(
    m: TcpDestModel,
    slot: int,
    data: &[u8],
    queue: Seq<u8>,
)
    requires
        m.wf(),
        0 <= slot < MAX_TCP_CONNS,
        m.table.conns[slot] is Some,
        data@.len() > 0,
    ensures
        ({
            let c = m.table.conns[slot]->Some_0;
            let e = m.on_read(slot, ReadOutcome::Data(data), queue);
            let sent = tcp::tunneled(queue, m.table.ch_id, slot as nat, data@);
            if c.connecting || c.close_pending {
                e == m.on_read(slot, ReadOutcome::WouldBlock, sent)
            } else {
                &&& e.ch == m
                &&& e.queue == sent
                &&& e.actions.len() == 0
                &&& e.step == Step::Read(m.table.token(slot))
            }
        }),
        ({
            let e = m.on_read(slot, ReadOutcome::WouldBlock, queue);
            let resynced = m.table.resynced(slot, queue);
            &&& e.ch == (TcpDestModel { table: resynced.ch, ..m })
            &&& e.actions == resynced.actions && e.queue == queue && e.step == Step::Done
        }),
{
}

/// A connection that ends, or fails, is closed, and the far side told; no other
/// connection is touched.
pub proof fn law_dest_stream_end_closes(
    m: TcpDestModel,
    slot: int,
    readable: bool,
    read: ReadOutcome,
    write: WriteOutcome,
    queue: Seq<u8>,
)
    requires
        m.wf(),
        0 <= slot < MAX_TCP_CONNS,
        m.table.conns[slot] is Some,
        read is Failed || (read matches ReadOutcome::Data(data) && data@.len() == 0),
        write is Failed,
    ensures
        m.on_write(slot, readable, write, queue) == m.on_read(slot, read, queue),
        ({
            let e = m.on_read(slot, read, queue);
            &&& e.ch == (TcpDestModel {
                table: TableModel { conns: m.table.conns.update(slot, None), ..m.table },
                ..m
            })
            &&& e.queue == tx_queue::enqueued(
                    queue,
                    tcp::close_notice(m.table.ch_id, slot),
                )
            &&& e.actions.len() > 0
            &&& e.actions.last() == Action::Close(m.table.token(slot))
            &&& e.step == Step::Done
        }),
{
    tcp::law_connection_is_closed(m.table, slot, true, queue);
}

/// The slot of no connection stays empty whatever is reported of it.
pub proof fn law_empty_dest_slot_stays_empty(
    m: TcpDestModel,
    slot: int,
    readable: bool,
    connected: bool,
    read: ReadOutcome,
    write: WriteOutcome,
    queue: Seq<u8>,
)
    requires
        m.wf(),
        0 <= slot < MAX_TCP_CONNS,
        m.table.conns[slot] is None,
    ensures
        m.on_read(slot, read, queue) == m.stepping(Step::Done, queue),
        m.on_write(slot, readable, write, queue) == m.stepping(Step::Done, queue),
        m.on_checked(slot, readable, connected, queue) == m.stepping(Step::Done, queue),
        m.stepping(Step::Done, queue).ch == m,
        m.stepping(Step::Done, queue).queue == queue,
        m.stepping(Step::Done, queue).actions.len() == 0,
{
}

/// All connections are closed: every slot is empty, what was in it is closed,
/// nothing is queued, and where connections go does not change.
pub proof fn law_dest_is_closed(m: TcpDestModel, queue: Seq<u8>, slot: int)
    requires
        m.wf(),
        0 <= slot < MAX_TCP_CONNS,
    ensures
        ({
            let e = m.on_close(queue);
            &&& e.ch.dest_addr == m.dest_addr && e.ch.dest_port == m.dest_port
            &&& e.ch.table.ch_id == m.table.ch_id
            &&& e.ch.table.bp_paused == m.table.bp_paused
            &&& e.ch.table.conns.len() == 256
            &&& e.ch.table.conns[slot] is None
            &&& m.table.conns[slot] is Some ==> e.actions.contains(
                Action::Close(m.table.token(slot)),
            )
            &&& e.queue == queue && e.step == Step::Done
        }),
{
    let before = match m.table.conns[slot] {
        Some(c) if c.in_sel => Some(Interest::Readable),
        _ => None,
    };
    tcp::law_all_connections_are_closed(m.table, slot, before);
}

/// Reads of the connections are suspended and resumed: each waits for data
/// again just where they are not suspended and it is not only drained.  Nothing
/// else changes, and where nothing is to change nothing does.
pub proof fn law_dest_reads_are_suspended(
    m: TcpDestModel,
    paused: bool,
    slot: int,
    before: Option<Interest>,
    queue: Seq<u8>,
)
    requires
        m.wf(),
        0 <= slot < MAX_TCP_CONNS,
        m.table.conns[slot] matches Some(c) ==> before is Some == c.in_sel,
    ensures
        ({
            let e = m.on_pause(paused, queue);
            &&& e.queue == queue && e.step == Step::Done
            &&& e.ch.dest_addr == m.dest_addr && e.ch.dest_port == m.dest_port
            &&& e.ch.table.ch_id == m.table.ch_id
            &&& e.ch.table.bp_paused == paused
            &&& m.table.bp_paused == paused ==> e.ch == m && e.actions.len() == 0
            &&& m.table.bp_paused != paused ==> match m.table.conns[slot] {
                Some(c) => {
                    let read = !paused && !c.close_pending;
                    let write = c.txbuf.len() > 0 || c.connecting;
                    &&& e.ch.table.conns[slot] == Some(ConnModel { in_sel: read || write, ..c })
                    &&& io::leaves_waiting(before, e.actions, m.table.token(slot), read, write)
                },
                None => e.ch.table.conns[slot] is None,
            }
        }),
{
    let t = TableModel { bp_paused: paused, ..m.table };
    tcp::law_all_connections_are_brought_in_line(t, slot, before);
}

/// Other frames from the exporter are for the table of connections; nothing
/// else changes, and a close on this side is told.
pub proof fn law_dest_frames_are_for_its_connections(
    m: TcpDestModel,
    ftype: u8,
    payload: Seq<u8>,
    queue: Seq<u8>,
)
    requires
        ftype != F_TCONN,
    ensures
        ({
            let e = m.on_frame(ftype, payload, queue);
            let t = m.table.on_tunnel_frame(ftype, payload, true, queue);
            &&& e.ch == (TcpDestModel { table: t.ch, ..m })
            &&& e.queue == t.queue && e.actions == t.actions && e.step == t.step
        }),
{
}

} // verus!
