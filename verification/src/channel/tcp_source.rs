//! Exporter-side TCP channel: accepts local connections and tunnels them to
//! the host.

use super::io::{Action, Effect, Step};
use super::tcp::{pack_cid, send_tdata, ConnTable, TableModel};
use super::token::{
    primary_token, slot_for_token, tcp_slot_token, Token, MAX_CHANNEL_ID, MAX_TCP_CONNS, TCP_BASE,
};
use crate::protocol::{build_frame, TxQueue, F_TCONN};
use crate::serial::{ReadOutcome, WriteOutcome};
#[allow(unused_imports)]
use super::{tcp, token};
#[allow(unused_imports)]
use super::tcp::ConnModel;
#[allow(unused_imports)]
use super::io::{self, Interest};
#[allow(unused_imports)]
use crate::protocol::{frame, tx_queue, F_TCLOSE};
use vstd::prelude::*;

verus! {

/// What an attempt to accept a connection gave.
#[derive(Debug, Clone, Copy, PartialEq, Eq, Structural)]
pub enum AcceptOutcome {
    /// A connection.
    Accepted,
    /// None is waiting.
    WouldBlock,
    /// A real error.
    Failed,
}

/// Exporter-side TCP channel.
///
/// Listens on a local address and forwards accepted connections to the host as
/// `F_TCONN` / `F_TDATA` / `F_TCLOSE` frames.  The connection-id is the slot
/// index.
pub struct TcpSourceChannel {
    table: ConnTable,
    /// Where the search for a free slot starts.
    next_slot: usize,
    link_up: bool,
}

/// The value of a [`TcpSourceChannel`].
#[verifier::ext_equal]
pub struct TcpSourceModel {
    pub table: TableModel,
    pub next_slot: int,
    pub link_up: bool,
}

impl View for TcpSourceChannel {
    type V = TcpSourceModel;

    closed spec fn view(&self) -> TcpSourceModel {
        TcpSourceModel {
            table: self.table@,
            next_slot: self.next_slot as int,
            link_up: self.link_up,
        }
    }
}

/// The slot behind another, in the round.
pub open spec fn slot_after(slot: int) -> int {
    if slot + 1 < MAX_TCP_CONNS {
        slot + 1
    } else {
        0
    }
}

/// The first free one of `n` slots, from `from` on in the round.
pub open spec fn first_free(conns: Seq<Option<ConnModel>>, from: int, n: nat) -> Option<int>
    decreases n,
{
    if n == 0 {
        None
    } else if conns[from] is None {
        Some(from)
    } else {
        first_free(conns, slot_after(from), (n - 1) as nat)
    }
}

impl TcpSourceModel {
    /// The table of slots is sound, the search starts at one of them, and no
    /// accepted connection is still being made.
    pub open spec fn wf(self) -> bool {
        &&& self.table.wf()
        &&& 0 <= self.next_slot < MAX_TCP_CONNS
        &&& forall|i: int|
            0 <= i < MAX_TCP_CONNS ==> (#[trigger] self.table.conns[i] matches Some(c)
                ==> !c.connecting)
    }

    /// The slot for the next connection.
    pub open spec fn free_slot(self) -> Option<int> {
        first_free(self.table.conns, self.next_slot, MAX_TCP_CONNS as nat)
    }

    /// What is done to the table, done to the channel.
    pub open spec fn lifted(self, e: Effect<TableModel>) -> Effect<TcpSourceModel> {
        Effect {
            ch: TcpSourceModel { table: e.ch, ..self },
            queue: e.queue,
            actions: e.actions,
            step: e.step,
        }
    }

    /// Nothing changes, and a step is needed.
    pub open spec fn stepping(self, step: Step, queue: Seq<u8>) -> Effect<TcpSourceModel> {
        Effect { ch: self, queue, actions: Seq::empty(), step }
    }

    /// What is left to do once the pending bytes of a slot were offered: a
    /// connection that the far side closed is closed when they are through.
    pub open spec fn after_writing(self, slot: int, queue: Seq<u8>) -> Effect<TcpSourceModel> {
        match self.table.conns[slot] {
            Some(c) => if c.is_finished() {
                self.lifted(self.table.hung_up(slot, false, queue))
            } else {
                self.lifted(self.table.resynced(slot, queue))
            },
            None => self.stepping(Step::Done, queue),
        }
    }

    /// What a writable event for a slot comes to.
    pub open spec fn on_writable(self, slot: int, writable: bool, queue: Seq<u8>) -> Effect<
        TcpSourceModel,
    > {
        match self.table.conns[slot] {
            Some(c) if writable => if c.txbuf.len() > 0 {
                self.stepping(Step::Write(self.table.token(slot)), queue)
            } else {
                self.after_writing(slot, queue)
            },
            _ => self.stepping(Step::Done, queue),
        }
    }

    /// What an event for a slot comes to: reads first, then writes.  Nothing
    /// is read any more once the far side said goodbye.
    pub open spec fn on_event(self, slot: int, readable: bool, writable: bool, queue: Seq<u8>) -> Effect<
        TcpSourceModel,
    > {
        match self.table.conns[slot] {
            Some(c) if readable && !c.close_pending => self.stepping(
                Step::Read(self.table.token(slot)),
                queue,
            ),
            _ => self.on_writable(slot, writable, queue),
        }
    }

    /// What a read of a stream comes to.  Data goes into the tunnel, and the
    /// stream is read again; its end, or an error, closes the connection.
    pub open spec fn on_read(
        self,
        slot: int,
        writable: bool,
        read: ReadOutcome,
        queue: Seq<u8>,
    ) -> Effect<TcpSourceModel> {
        match self.table.conns[slot] {
            None => self.stepping(Step::Done, queue),
            Some(c) => match read {
                ReadOutcome::WouldBlock => self.on_writable(slot, writable, queue),
                ReadOutcome::Data(data) if data@.len() > 0 => self.on_event(
                    slot,
                    true,
                    writable,
                    tcp::tunneled(queue, self.table.ch_id, slot as nat, data@),
                ),
                _ => self.lifted(self.table.hung_up(slot, self.link_up, queue)),
            },
        }
    }

    /// What a write to a stream comes to.
    pub open spec fn on_write(self, slot: int, write: WriteOutcome, queue: Seq<u8>) -> Effect<
        TcpSourceModel,
    > {
        match self.table.conns[slot] {
            None => self.stepping(Step::Done, queue),
            Some(c) => match write {
                WriteOutcome::Failed(_) => self.lifted(
                    self.table.hung_up(slot, self.link_up, queue),
                ),
                _ => (TcpSourceModel {
                    table: self.table.with(slot, c.after_write(write)),
                    ..self
                }).after_writing(slot, queue),
            },
        }
    }

    /// What an attempt to accept comes to.
    pub open spec fn on_accept(self, accept: AcceptOutcome) -> (TcpSourceModel, Step) {
        let listener = token::primary(self.table.ch_id);
        if accept != AcceptOutcome::Accepted {
            (self, Step::Done)
        } else if !self.link_up {
            (self, Step::Refuse(listener))
        } else {
            match self.free_slot() {
                Some(s) => (
                    TcpSourceModel { next_slot: slot_after(s), ..self },
                    Step::Adopt(self.table.token(s)),
                ),
                None => (self, Step::Refuse(listener)),
            }
        }
    }

    /// The queue with a connection announced.
    pub open spec fn conn_announced(self, slot: int, queue: Seq<u8>) -> Seq<u8> {
        tx_queue::enqueued(
            queue,
            frame::frame_bytes(F_TCONN, self.table.ch_id, tcp::cid_bytes(slot as nat)),
        )
    }

    /// All connections are closed, and nothing is listened for any more.
    pub open spec fn on_close(self, queue: Seq<u8>) -> Effect<TcpSourceModel> {
        Effect {
            ch: TcpSourceModel { table: self.table.all_closed(), ..self },
            queue,
            actions: self.table.all_close_actions(MAX_TCP_CONNS as nat).push(
                Action::Deregister(token::primary(self.table.ch_id)),
            ),
            step: Step::Done,
        }
    }

    /// Reads are suspended or resumed.
    pub open spec fn on_pause(self, paused: bool, queue: Seq<u8>) -> Effect<TcpSourceModel> {
        if self.table.bp_paused == paused {
            self.stepping(Step::Done, queue)
        } else {
            let t = TableModel { bp_paused: paused, ..self.table };
            Effect {
                ch: TcpSourceModel { table: t.all_synced(), ..self },
                queue,
                actions: t.all_sync_actions(MAX_TCP_CONNS as nat),
                step: Step::Done,
            }
        }
    }

    /// What the registration of an accepted connection comes to.
    pub open spec fn on_adopted(self, slot: int, registered: bool, queue: Seq<u8>) -> Effect<
        TcpSourceModel,
    > {
        let listener = token::primary(self.table.ch_id);
        if registered {
            Effect {
                ch: TcpSourceModel {
                    table: self.table.with(slot, tcp::fresh_conn(false)),
                    ..self
                },
                queue: self.conn_announced(slot, queue),
                actions: Seq::empty(),
                step: Step::Accept(listener),
            }
        } else {
            self.stepping(Step::Accept(listener), queue)
        }
    }

    /// The listener is ready.
    pub open spec fn on_listener(self, readable: bool, queue: Seq<u8>) -> Effect<TcpSourceModel> {
        self.stepping(
            if readable {
                Step::Accept(token::primary(self.table.ch_id))
            } else {
                Step::Done
            },
            queue,
        )
    }

    /// What the completed handshake of the link comes to.
    pub open spec fn on_link_connect(self, queue: Seq<u8>) -> Effect<TcpSourceModel> {
        (TcpSourceModel { link_up: true, ..self }).stepping(Step::Done, queue)
    }

    /// What the loss of the link comes to: all connections are closed.
    pub open spec fn on_link_disconnect(self, queue: Seq<u8>) -> Effect<TcpSourceModel> {
        Effect {
            ch: TcpSourceModel { link_up: false, table: self.table.all_closed(), ..self },
            queue,
            actions: self.table.all_close_actions(MAX_TCP_CONNS as nat),
            step: Step::Done,
        }
    }

    /// What a frame from the host comes to.
    pub open spec fn on_frame(self, ftype: u8, payload: Seq<u8>, queue: Seq<u8>) -> Effect<
        TcpSourceModel,
    > {
        self.lifted(self.table.on_tunnel_frame(ftype, payload, self.link_up, queue))
    }
}

impl TcpSourceChannel {
    /// Create a new source channel.  Its listener is registered by the caller.
    pub fn new(ch_id: u8) -> (ch: Self)
        requires
            ch_id <= MAX_CHANNEL_ID,
        ensures
            ch@.wf(),
            ch@ == (TcpSourceModel {
                table: TableModel {
                    ch_id,
                    bp_paused: false,
                    conns: Seq::new(MAX_TCP_CONNS as nat, |i: int| None),
                },
                next_slot: 0,
                link_up: false,
            }),
    {
        TcpSourceChannel { table: ConnTable::new(ch_id), next_slot: 0, link_up: false }
    }

    /// The wire channel id.
    pub fn channel_id(&self) -> (id: u8)
        ensures
            id == self@.table.ch_id,
    {
        self.table.channel_id()
    }

    /// Find the next free slot using round-robin allocation.
    fn alloc_slot(&mut self) -> (slot: Option<usize>)
        requires
            old(self)@.wf(),
        ensures
            final(self)@.wf(),
            match slot {
                Some(s) => old(self)@.free_slot() == Some(s as int) && s < MAX_TCP_CONNS
                    && final(self)@ == (TcpSourceModel {
                    next_slot: slot_after(s as int),
                    ..old(self)@
                }),
                None => old(self)@.free_slot() is None && final(self)@ == old(self)@,
            },
    {
        let mut s: usize = self.next_slot;
        let mut left: usize = MAX_TCP_CONNS;
        while left > 0
            invariant
                s < MAX_TCP_CONNS,
                left <= MAX_TCP_CONNS,
                self@ == old(self)@,
                self@.wf(),
                first_free(self@.table.conns, s as int, left as nat) == old(self)@.free_slot(),
            decreases left,
        {
            let next: usize = if s + 1 < MAX_TCP_CONNS {
                s + 1
            } else {
                0
            };
            if self.table.is_free(s) {
                self.next_slot = next;
                return Some(s);
            }
            s = next;
            left -= 1;
        }
        None
    }

    /// A connection was accepted, or none could be: whether to adopt it, and
    /// under which slot.
    pub fn accept(&mut self, accept: AcceptOutcome) -> (step: Step)
        requires
            old(self)@.wf(),
        ensures
            final(self)@.wf(),
            (final(self)@, step) == old(self)@.on_accept(accept),
    {
        match accept {
            AcceptOutcome::Accepted => {},
            _ => return Step::Done,
        }
        let ch_id: u8 = self.table.channel_id();
        if !self.link_up {
            return Step::Refuse(primary_token(ch_id));
        }
        match self.alloc_slot() {
            Some(s) => Step::Adopt(tcp_slot_token(ch_id, s)),
            None => Step::Refuse(primary_token(ch_id)),
        }
    }

    /// The accepted connection was registered, or could not be; the next one
    /// is accepted.
    pub fn adopted(&mut self, slot: usize, registered: bool, txq: &mut TxQueue) -> (step: Step)
        requires
            old(self)@.wf(),
            old(txq).wf(),
            slot < MAX_TCP_CONNS,
        ensures
            final(self)@.wf(),
            final(txq).wf(),
            ({
                let e = old(self)@.on_adopted(slot as int, registered, old(txq)@);
                &&& final(self)@ == e.ch
                &&& final(txq)@ == e.queue
                &&& step == e.step
            }),
    {
        let ch_id: u8 = self.table.channel_id();
        if registered {
            self.table.insert(slot, false);
            let frame: Vec<u8> = build_frame(F_TCONN, ch_id, &pack_cid(slot as u16));
            txq.enqueue(&frame);
        }
        Step::Accept(primary_token(ch_id))
    }

    /// An event fired for the listener or for one of the connections.
    pub fn handle_event(
        &mut self,
        token: Token,
        readable: bool,
        writable: bool,
        txq: &mut TxQueue,
        out: &mut Vec<Action>,
    ) -> (step: Step)
        requires
            old(self)@.wf(),
            old(txq).wf(),
            token::owner(token) == Some(old(self)@.table.ch_id),
        ensures
            final(self)@.wf(),
            final(txq).wf(),
            ({
                let e = if token == token::primary(old(self)@.table.ch_id) {
                    old(self)@.on_listener(readable, old(txq)@)
                } else {
                    old(self)@.on_event(token::slot_of(token), readable, writable, old(txq)@)
                };
                &&& final(self)@ == e.ch
                &&& final(txq)@ == e.queue
                &&& final(out)@ == old(out)@ + e.actions
                &&& step == e.step
            }),
    {
        proof {
            token::lemma_owned_token(token, self@.table.ch_id);
            assert(old(out)@ + Seq::<Action>::empty() =~= old(out)@);
        }
        if token.0 < TCP_BASE {
            if readable {
                Step::Accept(token)
            } else {
                Step::Done
            }
        } else {
            self.tcp_event(slot_for_token(token), readable, writable, txq, out)
        }
    }

    fn tcp_event(
        &mut self,
        slot: usize,
        readable: bool,
        writable: bool,
        txq: &mut TxQueue,
        out: &mut Vec<Action>,
    ) -> (step: Step)
        requires
            old(self)@.wf(),
            old(txq).wf(),
            slot < MAX_TCP_CONNS,
        ensures
            final(self)@.wf(),
            final(txq).wf(),
            ({
                let e = old(self)@.on_event(slot as int, readable, writable, old(txq)@);
                &&& final(self)@ == e.ch
                &&& final(txq)@ == e.queue
                &&& final(out)@ == old(out)@ + e.actions
                &&& step == e.step
            }),
    {
        proof {
            assert(old(out)@ + Seq::<Action>::empty() =~= old(out)@);
        }
        if readable {
            match self.table.status(slot) {
                Some((_, close_pending, _)) => {
                    if !close_pending {
                        return Step::Read(tcp_slot_token(self.table.channel_id(), slot));
                    }
                },
                None => return Step::Done,
            }
        }
        self.write_phase(slot, writable, txq, out)
    }

    fn write_phase(
        &mut self,
        slot: usize,
        writable: bool,
        txq: &mut TxQueue,
        out: &mut Vec<Action>,
    ) -> (step: Step)
        requires
            old(self)@.wf(),
            old(txq).wf(),
            slot < MAX_TCP_CONNS,
        ensures
            final(self)@.wf(),
            final(txq).wf(),
            ({
                let e = old(self)@.on_writable(slot as int, writable, old(txq)@);
                &&& final(self)@ == e.ch
                &&& final(txq)@ == e.queue
                &&& final(out)@ == old(out)@ + e.actions
                &&& step == e.step
            }),
    {
        proof {
            assert(old(out)@ + Seq::<Action>::empty() =~= old(out)@);
        }
        if !writable {
            return Step::Done;
        }
        match self.table.status(slot) {
            Some((_, _, n)) => {
                if n > 0 {
                    return Step::Write(tcp_slot_token(self.table.channel_id(), slot));
                }
                self.settle(slot, txq, out)
            },
            None => Step::Done,
        }
    }

    fn settle(&mut self, slot: usize, txq: &mut TxQueue, out: &mut Vec<Action>) -> (step: Step)
        requires
            old(self)@.wf(),
            old(txq).wf(),
            slot < MAX_TCP_CONNS,
            old(self)@.table.conns[slot as int] is Some,
        ensures
            final(self)@.wf(),
            final(txq).wf(),
            ({
                let e = old(self)@.after_writing(slot as int, old(txq)@);
                &&& final(self)@ == e.ch
                &&& final(txq)@ == e.queue
                &&& final(out)@ == old(out)@ + e.actions
                &&& step == e.step
            }),
    {
        if let Some((_, close_pending, n)) = self.table.status(slot) {
            if n == 0 && close_pending {
                self.table.hang_up(slot, false, txq, out);
            } else {
                self.table.update_conn_interest(slot, out);
            }
        }
        Step::Done
    }

    /// The stream in a slot was read.
    pub fn tcp_read(
        &mut self,
        slot: usize,
        writable: bool,
        read: ReadOutcome,
        txq: &mut TxQueue,
        out: &mut Vec<Action>,
    ) -> (step: Step)
        requires
            old(self)@.wf(),
            old(txq).wf(),
            slot < MAX_TCP_CONNS,
        ensures
            final(self)@.wf(),
            final(txq).wf(),
            ({
                let e = old(self)@.on_read(slot as int, writable, read, old(txq)@);
                &&& final(self)@ == e.ch
                &&& final(txq)@ == e.queue
                &&& final(out)@ == old(out)@ + e.actions
                &&& step == e.step
            }),
    {
        proof {
            assert(old(out)@ + Seq::<Action>::empty() =~= old(out)@);
        }
        if self.table.is_free(slot) {
            return Step::Done;
        }
        match read {
            ReadOutcome::WouldBlock => self.write_phase(slot, writable, txq, out),
            ReadOutcome::Data(data) => {
                if data.len() == 0 {
                    self.table.hang_up(slot, self.link_up, txq, out);
                    return Step::Done;
                }
                send_tdata(self.table.channel_id(), slot as u16, data, txq);
                self.tcp_event(slot, true, writable, txq, out)
            },
            ReadOutcome::Failed(_) => {
                self.table.hang_up(slot, self.link_up, txq, out);
                Step::Done
            },
        }
    }

    /// The bytes that wait to be written to the stream in a slot.
    pub fn pending(&self, slot: usize) -> (bytes: &[u8])
        requires
            self@.wf(),
            slot < MAX_TCP_CONNS,
        ensures
            match self@.table.conns[slot as int] {
                Some(c) => bytes@ == c.txbuf,
                None => bytes@.len() == 0,
            },
    {
        self.table.pending(slot)
    }

    /// The pending bytes of a slot were offered to its stream.
    pub fn tcp_written(
        &mut self,
        slot: usize,
        write: WriteOutcome,
        txq: &mut TxQueue,
        out: &mut Vec<Action>,
    ) -> (step: Step)
        requires
            old(self)@.wf(),
            old(txq).wf(),
            slot < MAX_TCP_CONNS,
            write matches WriteOutcome::Written(n) ==> (old(self)@.table.conns[slot as int] matches Some(
                c,
            ) ==> n <= c.txbuf.len()),
        ensures
            final(self)@.wf(),
            final(txq).wf(),
            ({
                let e = old(self)@.on_write(slot as int, write, old(txq)@);
                &&& final(self)@ == e.ch
                &&& final(txq)@ == e.queue
                &&& final(out)@ == old(out)@ + e.actions
                &&& step == e.step
            }),
    {
        proof {
            assert(old(out)@ + Seq::<Action>::empty() =~= old(out)@);
        }
        if self.table.is_free(slot) {
            return Step::Done;
        }
        let ghost m0 = self@;
        match write {
            WriteOutcome::Failed(_) => {
                self.table.hang_up(slot, self.link_up, txq, out);
                return Step::Done;
            },
            WriteOutcome::Written(n) => {
                self.table.drop_written(slot, n);
            },
            WriteOutcome::WouldBlock => {
                assert(m0.table.with(slot as int, m0.table.conns[slot as int]->Some_0)
                    =~= m0.table);
            },
        }
        self.settle(slot, txq, out)
    }

    /// A frame arrived from the far side of the link.
    pub fn on_frame(
        &mut self,
        ftype: u8,
        payload: &[u8],
        txq: &mut TxQueue,
        out: &mut Vec<Action>,
    )
        requires
            old(self)@.wf(),
            old(txq).wf(),
        ensures
            final(self)@.wf(),
            final(txq).wf(),
            ({
                let e = old(self)@.on_frame(ftype, payload@, old(txq)@);
                &&& final(self)@ == e.ch
                &&& final(txq)@ == e.queue
                &&& final(out)@ == old(out)@ + e.actions
            }),
    {
        self.table.on_tunnel_frame(ftype, payload, self.link_up, txq, out);
    }

    /// The link just completed its handshake.
    pub fn on_link_connect(&mut self)
        requires
            old(self)@.wf(),
        ensures
            final(self)@.wf(),
            ({
                let e = old(self)@.on_link_connect(Seq::empty());
                &&& final(self)@ == e.ch
            }),
    {
        self.link_up = true;
    }

    /// The link dropped: close all connections.
    pub fn on_link_disconnect(&mut self, out: &mut Vec<Action>)
        requires
            old(self)@.wf(),
        ensures
            final(self)@.wf(),
            ({
                let e = old(self)@.on_link_disconnect(Seq::empty());
                &&& final(self)@ == e.ch
                &&& final(out)@ == old(out)@ + e.actions
            }),
    {
        self.link_up = false;
        self.table.close_all(out);
    }

    /// Close all connections, and stop listening.
    pub fn close(&mut self, out: &mut Vec<Action>)
        requires
            old(self)@.wf(),
        ensures
            final(self)@.wf(),
            ({
                let e = old(self)@.on_close(Seq::empty());
                &&& final(self)@ == e.ch
                &&& final(out)@ == old(out)@ + e.actions
            }),
    {
        self.table.close_all(out);
        out.push(Action::Deregister(primary_token(self.table.channel_id())));
        assert(out@ =~= old(out)@ + old(self)@.on_close(Seq::empty()).actions);
    }

    /// Suspend inbound reads (backpressure: link TX queue above high-water).
    pub fn pause_source_reads(&mut self, out: &mut Vec<Action>)
        requires
            old(self)@.wf(),
        ensures
            final(self)@.wf(),
            ({
                let e = old(self)@.on_pause(true, Seq::empty());
                &&& final(self)@ == e.ch
                &&& final(out)@ == old(out)@ + e.actions
            }),
    {
        proof {
            assert(old(out)@ + Seq::<Action>::empty() =~= old(out)@);
        }
        if !self.table.is_paused() {
            self.table.set_paused(true, out);
        }
    }

    /// Resume inbound reads (link TX queue drained below low-water).
    pub fn resume_source_reads(&mut self, out: &mut Vec<Action>)
        requires
            old(self)@.wf(),
        ensures
            final(self)@.wf(),
            ({
                let e = old(self)@.on_pause(false, Seq::empty());
                &&& final(self)@ == e.ch
                &&& final(out)@ == old(out)@ + e.actions
            }),
    {
        proof {
            assert(old(out)@ + Seq::<Action>::empty() =~= old(out)@);
        }
        if self.table.is_paused() {
            self.table.set_paused(false, out);
        }
    }
}

/// A close is not echoed: where the host closed a connection, it is not told
/// of the close, neither at once nor when the pending bytes are through; and by
/// then the slot is empty.
pub proof fn law_source_does_not_echo_close(
    m: TcpSourceModel,
    slot: int,
    n: usize,
    queue: Seq<u8>,
)
    requires
        m.wf(),
        0 <= slot < MAX_TCP_CONNS,
        m.table.conns[slot] matches Some(c) && n == c.txbuf.len(),
    ensures
        ({
            let closed = m.on_frame(F_TCLOSE, tcp::cid_bytes(slot as nat), queue);
            let drained = closed.ch.on_write(slot, WriteOutcome::Written(n), closed.queue);
            &&& closed.queue == queue
            &&& n == 0 ==> closed.ch.table.conns[slot] is None
            &&& drained.queue == queue
            &&& drained.ch.table.conns[slot] is None
        }),
{
    tcp::law_cid_roundtrip(slot as nat, Seq::empty());
    assert(tcp::cid_bytes(slot as nat) + Seq::<u8>::empty() =~= tcp::cid_bytes(slot as nat));
}

/// Slots are handed out soundly: the slot for a new connection is free, and
/// there is none only where all slots are taken.
pub proof fn law_slot_is_free(m: TcpSourceModel)
    requires
        m.wf(),
    ensures
        match m.free_slot() {
            Some(s) => 0 <= s < MAX_TCP_CONNS && m.table.conns[s] is None,
            None => forall|i: int| 0 <= i < MAX_TCP_CONNS ==> #[trigger] m.table.conns[i] is Some,
        },
{
    lemma_first_free(m.table.conns, m.next_slot, MAX_TCP_CONNS as nat);
    if m.free_slot() is None {
        assert forall|i: int| 0 <= i < MAX_TCP_CONNS implies #[trigger] m.table.conns[i] is Some by {
            let k = if i >= m.next_slot {
                i - m.next_slot
            } else {
                i + MAX_TCP_CONNS - m.next_slot
            };
            assert(slot_behind(m.next_slot, k) == i);
        }
    }
}

/// The slot `k` places behind another, in the round.
spec fn slot_behind(from: int, k: int) -> int {
    if from + k < MAX_TCP_CONNS {
        from + k
    } else {
        from + k - MAX_TCP_CONNS
    }
}

proof fn lemma_first_free(conns: Seq<Option<ConnModel>>, from: int, n: nat)
    requires
        conns.len() == MAX_TCP_CONNS,
        0 <= from < MAX_TCP_CONNS,
        n <= MAX_TCP_CONNS,
    ensures
        match first_free(conns, from, n) {
            Some(s) => 0 <= s < MAX_TCP_CONNS && conns[s] is None,
            None => forall|k: int|
                0 <= k < n ==> conns[#[trigger] slot_behind(from, k)] is Some,
        },
    decreases n,
{
    if n > 0 && conns[from] is Some {
        lemma_first_free(conns, slot_after(from), (n - 1) as nat);
        if first_free(conns, from, n) is None {
            assert forall|k: int| 0 <= k < n implies conns[#[trigger] slot_behind(from, k)] is Some by {
                if k > 0 {
                    assert(slot_behind(slot_after(from), k - 1) == slot_behind(from, k));
                }
            }
        }
    }
}

/// Whether a slot stands in the round from one slot on before another.
pub open spec fn before_in_round(from: int, i: int, end: int) -> bool {
    if from <= end {
        from <= i < end
    } else {
        from <= i || i < end
    }
}

proof fn lemma_first_free_is_next(conns: Seq<Option<ConnModel>>, from: int, n: nat) -> (k: int)
    requires
        conns.len() == MAX_TCP_CONNS,
        0 <= from < MAX_TCP_CONNS,
        n <= MAX_TCP_CONNS,
        first_free(conns, from, n) is Some,
    ensures
        0 <= k < n,
        first_free(conns, from, n) == Some(slot_behind(from, k)),
        forall|j: int| 0 <= j < k ==> conns[#[trigger] slot_behind(from, j)] is Some,
    decreases n,
{
    if conns[from] is None {
        0
    } else {
        let k = lemma_first_free_is_next(conns, slot_after(from), (n - 1) as nat) + 1;
        assert forall|j: int| 0 <= j < k implies conns[#[trigger] slot_behind(from, j)] is Some by {
            if j > 0 {
                assert(slot_behind(slot_after(from), j - 1) == slot_behind(from, j));
            }
        }
        k
    }
}

/// The listener is served: where it is readable a connection is accepted, else
/// nothing happens.
pub proof fn law_listener_is_served(m: TcpSourceModel, readable: bool, queue: Seq<u8>)
    ensures
        ({
            let e = m.on_listener(readable, queue);
            &&& e.ch == m && e.queue == queue && e.actions.len() == 0
            &&& readable ==> e.step == Step::Accept(token::primary(m.table.ch_id))
            &&& !readable ==> e.step == Step::Done
        }),
{
}

/// What becomes of an accepted connection: with a link it gets the next free
/// slot in the round, and the search starts behind it the next time; without a
/// link, or where all slots are taken, it is refused.  Where none was accepted
/// nothing happens.
pub proof fn law_accepted_connection_gets_next_slot(m: TcpSourceModel, accept: AcceptOutcome)
    requires
        m.wf(),
    ensures
        ({
            let (after, step) = m.on_accept(accept);
            let full = forall|i: int|
                0 <= i < MAX_TCP_CONNS ==> #[trigger] m.table.conns[i] is Some;
            if accept != AcceptOutcome::Accepted {
                after == m && step == Step::Done
            } else if !m.link_up || full {
                after == m && step == Step::Refuse(token::primary(m.table.ch_id))
            } else {
                exists|s: int|
                    #![trigger m.table.token(s)]
                    {
                        &&& 0 <= s < 256
                        &&& m.table.conns[s] is None
                        &&& step == Step::Adopt(m.table.token(s))
                        &&& after == (TcpSourceModel { next_slot: (s + 1) % 256, ..m })
                        &&& forall|i: int|
                            0 <= i < 256 && before_in_round(m.next_slot, i, s)
                                ==> #[trigger] m.table.conns[i] is Some
                    }
            }
        }),
{
    law_slot_is_free(m);
    if m.free_slot() is Some {
        let s = m.free_slot()->Some_0;
        assert(m.table.conns[s] is None);
        let k = lemma_first_free_is_next(m.table.conns, m.next_slot, MAX_TCP_CONNS as nat);
        assert forall|i: int|
            0 <= i < 256 && before_in_round(m.next_slot, i, s) implies #[trigger] m.table.conns[i] is Some by {
            let j = if i >= m.next_slot {
                i - m.next_slot
            } else {
                i + 256 - m.next_slot
            };
            assert(slot_behind(m.next_slot, j) == i);
            assert(j < k);
        }
        assert(m.on_accept(accept).1 == Step::Adopt(m.table.token(s)) || accept
            != AcceptOutcome::Accepted || !m.link_up);
    }
}

/// An adopted connection is announced: its slot holds a connection with nothing
/// pending that waits for data, the far side is told its id, the low byte
/// first, and the next connection is accepted.  One that could not be
/// registered leaves no trace.
pub proof fn law_adopted_connection_is_announced(
    m: TcpSourceModel,
    slot: int,
    registered: bool,
    queue: Seq<u8>,
)
    requires
        m.wf(),
        0 <= slot < MAX_TCP_CONNS,
    ensures
        ({
            let e = m.on_adopted(slot, registered, queue);
            &&& e.actions.len() == 0
            &&& e.step == Step::Accept(token::primary(m.table.ch_id))
            &&& if registered {
                &&& e.ch == (TcpSourceModel {
                    table: TableModel {
                        conns: m.table.conns.update(
                            slot,
                            Some(
                                ConnModel {
                                    txbuf: Seq::empty(),
                                    connecting: false,
                                    in_sel: true,
                                    close_pending: false,
                                },
                            ),
                        ),
                        ..m.table
                    },
                    ..m
                })
                &&& e.queue == tx_queue::enqueued(
                    queue,
                    frame::frame_bytes(
                        F_TCONN,
                        m.table.ch_id,
                        seq![(slot % 256) as u8, (slot / 256) as u8],
                    ),
                )
            } else {
                e.ch == m && e.queue == queue
            }
        }),
{
    assert(tcp::cid_bytes(slot as nat) =~= seq![(slot % 256) as u8, (slot / 256) as u8]);
}

/// Bytes from an accepted connection go into the tunnel as they came, under its
/// slot; the channel stays as it was, and the stream is read again, unless it
/// is only drained.
pub proof fn law_source_stream_is_forwarded(
    m: TcpSourceModel,
    slot: int,
    writable: bool,
    data: &[u8],
    queue: Seq<u8>,
)
    requires
        m.wf(),
        0 <= slot < MAX_TCP_CONNS,
        m.table.conns[slot] is Some,
        data@.len() > 0,
    ensures
        ({
            let e = m.on_read(slot, writable, ReadOutcome::Data(data), queue);
            let sent = tcp::tunneled(queue, m.table.ch_id, slot as nat, data@);
            if m.table.conns[slot]->Some_0.close_pending {
                e == m.on_read(slot, writable, ReadOutcome::WouldBlock, sent)
            } else {
                &&& e.ch == m
                &&& e.queue == sent
                &&& e.actions.len() == 0
                &&& e.step == Step::Read(m.table.token(slot))
            }
        }),
{
}

/// An accepted connection that ends, or fails, is closed, and the far side told
/// where there is a link; no other connection is touched.
pub proof fn law_source_stream_end_closes(
    m: TcpSourceModel,
    slot: int,
    writable: bool,
    read: ReadOutcome,
    write: WriteOutcome,
    queue: Seq<u8>,
)
    requires
        m.wf(),
        0 <= slot < MAX_TCP_CONNS,
        m.table.conns[slot] is Some,
        read is Failed || (read matches ReadOutcome::Data(data) && data@.len() == 0),
        write is Failed,
    ensures
        m.on_write(slot, write, queue) == m.on_read(slot, writable, read, queue),
        ({
            let e = m.on_read(slot, writable, read, queue);
            &&& e.ch == (TcpSourceModel {
                table: TableModel { conns: m.table.conns.update(slot, None), ..m.table },
                ..m
            })
            &&& e.queue == (if m.link_up {
                tx_queue::enqueued(queue, tcp::close_notice(m.table.ch_id, slot))
            } else {
                queue
            })
            &&& e.actions.len() > 0
            &&& e.actions.last() == Action::Close(m.table.token(slot))
            &&& e.step == Step::Done
        }),
{
    tcp::law_connection_is_closed(m.table, slot, m.link_up, queue);
}

/// A write to an accepted connection leaves pending just the bytes behind those
/// that it took, none where it would block.  One that was only drained is
/// closed when they are through, without a word to the far side; any other
/// waits for what it needs.
pub proof fn law_source_write_takes_bytes_off(
    m: TcpSourceModel,
    slot: int,
    before: Option<Interest>,
    write: WriteOutcome,
    n: int,
    queue: Seq<u8>,
)
    requires
        m.wf(),
        0 <= slot < MAX_TCP_CONNS,
        m.table.conns[slot] matches Some(c) && before is Some == c.in_sel && 0 <= n
            <= c.txbuf.len(),
        write is WouldBlock && n == 0 || (write matches WriteOutcome::Written(w) && w == n),
    ensures
        ({
            let c = m.table.conns[slot]->Some_0;
            let e = m.on_write(slot, write, queue);
            let rest = c.txbuf.skip(n);
            &&& e.queue == queue && e.step == Step::Done
            &&& if rest.len() == 0 && c.close_pending {
                &&& e.ch == (TcpSourceModel {
                    table: TableModel { conns: m.table.conns.update(slot, None), ..m.table },
                    ..m
                })
                &&& e.actions.len() > 0
                &&& e.actions.last() == Action::Close(m.table.token(slot))
            } else {
                let read = !m.table.bp_paused && !c.close_pending;
                &&& e.ch == (TcpSourceModel {
                    table: TableModel {
                        conns: m.table.conns.update(
                            slot,
                            Some(
                                ConnModel { txbuf: rest, in_sel: read || rest.len() > 0, ..c },
                            ),
                        ),
                        ..m.table
                    },
                    ..m
                })
                &&& io::leaves_waiting(
                    before,
                    e.actions,
                    m.table.token(slot),
                    read,
                    rest.len() > 0,
                )
            }
        }),
{
    let c = m.table.conns[slot]->Some_0;
    let rest = c.txbuf.skip(n);
    let e = m.on_write(slot, write, queue);
    assert(c.txbuf.skip(0) =~= c.txbuf);
    let t = m.table.with(slot, ConnModel { txbuf: rest, ..c });
    if rest.len() == 0 && c.close_pending {
        assert(e.ch.table.conns =~= m.table.conns.update(slot, None));
    } else {
        tcp::law_connection_is_brought_in_line(t, slot, before, queue);
        let read = !m.table.bp_paused && !c.close_pending;
        assert(e.ch.table.conns =~= m.table.conns.update(
            slot,
            Some(ConnModel { txbuf: rest, in_sel: read || rest.len() > 0, ..c }),
        ));
    }
}

/// An accepted connection that is ready is served: it is read first, unless it
/// is only drained, then written to while something is pending.  An empty slot
/// is not served.
pub proof fn law_ready_source_is_served(
    m: TcpSourceModel,
    slot: int,
    readable: bool,
    writable: bool,
    queue: Seq<u8>,
)
    requires
        m.wf(),
        0 <= slot < MAX_TCP_CONNS,
    ensures
        ({
            let e = m.on_event(slot, readable, writable, queue);
            let blocked = m.on_read(slot, writable, ReadOutcome::WouldBlock, queue);
            let t = m.table.token(slot);
            match m.table.conns[slot] {
                None => e.step == Step::Done && e.ch == m && e.queue == queue && e.actions.len()
                    == 0 && blocked == e,
                Some(c) => {
                    &&& e.queue == queue
                    &&& readable && !c.close_pending ==> e.step == Step::Read(t) && e.ch == m
                        && e.actions.len() == 0
                    &&& !(readable && !c.close_pending) ==> e == blocked
                    &&& writable && c.txbuf.len() > 0 ==> blocked.step == Step::Write(t)
                        && blocked.ch == m && blocked.actions.len() == 0 && blocked.queue == queue
                    &&& !writable ==> blocked.step == Step::Done && blocked.ch == m
                        && blocked.actions.len() == 0 && blocked.queue == queue
                    &&& writable && c.txbuf.len() == 0 ==> blocked == m.on_write(
                        slot,
                        WriteOutcome::Written(0),
                        queue,
                    )
                },
            }
        }),
{
    if let Some(c) = m.table.conns[slot] {
        assert(c.txbuf.skip(0) =~= c.txbuf);
        assert(m.table.conns.update(slot, Some(c)) =~= m.table.conns);
    }
}

/// The source follows the link: while there is one, connections can be
/// accepted; when it is lost they are all closed.  Where the search for a slot
/// goes on does not change, and nothing is queued.
pub proof fn law_source_follows_the_link(m: TcpSourceModel, queue: Seq<u8>, slot: int)
    requires
        m.wf(),
        0 <= slot < MAX_TCP_CONNS,
    ensures
        ({
            let up = m.on_link_connect(queue);
            &&& up.ch == (TcpSourceModel { link_up: true, ..m })
            &&& up.queue == queue && up.actions.len() == 0 && up.step == Step::Done
        }),
        ({
            let down = m.on_link_disconnect(queue);
            &&& !down.ch.link_up
            &&& down.ch.next_slot == m.next_slot
            &&& down.ch.table.ch_id == m.table.ch_id
            &&& down.ch.table.bp_paused == m.table.bp_paused
            &&& down.ch.table.conns.len() == 256
            &&& down.ch.table.conns[slot] is None
            &&& m.table.conns[slot] is Some ==> down.actions.contains(
                Action::Close(m.table.token(slot)),
            )
            &&& down.queue == queue && down.step == Step::Done
        }),
        ({
            let closed = m.on_close(queue);
            &&& closed.ch.link_up == m.link_up
            &&& closed.ch.next_slot == m.next_slot
            &&& closed.ch.table.ch_id == m.table.ch_id
            &&& closed.ch.table.bp_paused == m.table.bp_paused
            &&& closed.ch.table.conns.len() == 256
            &&& closed.ch.table.conns[slot] is None
            &&& m.table.conns[slot] is Some ==> closed.actions.contains(
                Action::Close(m.table.token(slot)),
            )
            &&& closed.actions.last() == Action::Deregister(token::primary(m.table.ch_id))
            &&& closed.queue == queue && closed.step == Step::Done
        }),
{
    let before = match m.table.conns[slot] {
        Some(c) if c.in_sel => Some(Interest::Readable),
        _ => None,
    };
    tcp::law_all_connections_are_closed(m.table, slot, before);
    if m.table.conns[slot] is Some {
        let close = Action::Close(m.table.token(slot));
        let all = m.table.all_close_actions(MAX_TCP_CONNS as nat);
        let k = choose|k: int| 0 <= k < all.len() && all[k] == close;
        assert(m.on_close(queue).actions[k] == close);
    }
}

/// Reads of the accepted connections are suspended and resumed: each waits for
/// data again just where they are not suspended and it is not only drained.
/// Nothing else changes, and where nothing is to change nothing does.
pub proof fn law_source_reads_are_suspended(
    m: TcpSourceModel,
    paused: bool,
    slot: int,
    before: Option<Interest>,
    queue: Seq<u8>,
)
    requires
        m.wf(),
        0 <= slot < MAX_TCP_CONNS,
        m.table.conns[slot] matches Some(c) ==> before is Some == c.in_sel,
    ensures
        ({
            let e = m.on_pause(paused, queue);
            &&& e.queue == queue && e.step == Step::Done
            &&& e.ch.link_up == m.link_up && e.ch.next_slot == m.next_slot
            &&& e.ch.table.ch_id == m.table.ch_id
            &&& e.ch.table.bp_paused == paused
            &&& m.table.bp_paused == paused ==> e.ch == m && e.actions.len() == 0
            &&& m.table.bp_paused != paused ==> match m.table.conns[slot] {
                Some(c) => {
                    let read = !paused && !c.close_pending;
                    let write = c.txbuf.len() > 0 || c.connecting;
                    &&& e.ch.table.conns[slot] == Some(ConnModel { in_sel: read || write, ..c })
                    &&& io::leaves_waiting(before, e.actions, m.table.token(slot), read, write)
                },
                None => e.ch.table.conns[slot] is None,
            }
        }),
{
    let t = TableModel { bp_paused: paused, ..m.table };
    tcp::law_all_connections_are_brought_in_line(t, slot, before);
}

/// Frames from the host are for the table of connections; nothing else of the
/// source changes, and a close on this side is told where there is a link.
pub proof fn law_source_frames_are_for_its_connections(
    m: TcpSourceModel,
    ftype: u8,
    payload: Seq<u8>,
    queue: Seq<u8>,
)
    ensures
        ({
            let e = m.on_frame(ftype, payload, queue);
            let t = m.table.on_tunnel_frame(ftype, payload, m.link_up, queue);
            &&& e.ch == (TcpSourceModel { table: t.ch, ..m })
            &&& e.queue == t.queue && e.actions == t.actions && e.step == t.step
        }),
{
}

} // verus!
