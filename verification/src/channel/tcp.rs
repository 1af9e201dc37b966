//! What both ends of a TCP tunnel share: connection ids, data chunks, and the
//! table of connection slots.

use super::io::{drop_front, sync_registration, Action, Effect, Step};
#[allow(unused_imports)]
use super::io::Interest;
use super::token::{tcp_slot_token, Token, MAX_CHANNEL_ID, MAX_TCP_CONNS};
use crate::protocol::{build_frame, TxQueue, F_TCLOSE, F_TDATA, MAX_PAYLOAD};
use crate::serial::WriteOutcome;
#[allow(unused_imports)]
use super::{io, token};
#[allow(unused_imports)]
use crate::protocol::{endian, frame, tx_queue};
use vstd::prelude::*;

verus! {

/// Per-connection buffer limit.
pub const CONN_HIGH_WATER: usize = 256 * 1024;

/// Most stream bytes in one `F_TDATA` frame: two bytes of the payload hold the
/// connection id.
pub const TDATA_MAX: usize = MAX_PAYLOAD - 2;

/// The bytes of a connection id on the wire.
pub open spec fn cid_bytes(cid: nat) -> Seq<u8> {
    endian::le16(cid)
}

/// The connection id at the front of a payload, and what follows it.
pub open spec fn unpacked(payload: Seq<u8>) -> Option<(nat, Seq<u8>)> {
    if payload.len() < 2 {
        None
    } else {
        Some((endian::from_le16(payload[0], payload[1]), payload.skip(2)))
    }
}

/// Spell a connection id.
pub fn pack_cid(cid: u16) -> (bytes: [u8; 2])
    ensures
        bytes@ == cid_bytes(cid as nat),
{
    let bytes: [u8; 2] = [(cid % 256) as u8, (cid / 256) as u8];
    assert(bytes@ =~= cid_bytes(cid as nat));
    bytes
}

/// Split a payload into its connection id and the rest; `None` where it is
/// too short to hold an id.
pub fn unpack_cid(payload: &[u8]) -> (res: Option<(u16, &[u8])>)
    ensures
        match res {
            Some((cid, rest)) => unpacked(payload@) == Some((cid as nat, rest@)),
            None => unpacked(payload@) is None,
        },
{
    if payload.len() < 2 {
        return None;
    }
    let cid: u16 = payload[0] as u16 + 256 * (payload[1] as u16);
    let rest: &[u8] = &payload[2..payload.len()];
    assert(rest@ =~= payload@.skip(2));
    Some((cid, rest))
}

/// A connection id is read back as it was written.
pub proof fn law_cid_roundtrip(cid: nat, data: Seq<u8>)
    requires
        cid < 0x1_0000,
    ensures
        unpacked(cid_bytes(cid) + data) == Some((cid, data)),
{
    endian::lemma_le16_roundtrip(cid);
    assert((cid_bytes(cid) + data).skip(2) =~= data);
}

/// The length of the first chunk of stream data.
pub open spec fn chunk_len(data: Seq<u8>) -> int {
    if data.len() <= TDATA_MAX {
        data.len() as int
    } else {
        TDATA_MAX as int
    }
}

/// The payloads that carry stream data, in order.
pub open spec fn tdata_payloads(cid: nat, data: Seq<u8>) -> Seq<Seq<u8>>
    decreases data.len(),
{
    if data.len() == 0 {
        Seq::empty()
    } else {
        let n = chunk_len(data);
        seq![cid_bytes(cid) + data.take(n)] + tdata_payloads(cid, data.skip(n))
    }
}

/// The queue with a frame for each payload pushed, in order.
pub open spec fn all_enqueued(
    queue: Seq<u8>,
    ftype: u8,
    ch_id: u8,
    payloads: Seq<Seq<u8>>,
) -> Seq<u8>
    decreases payloads.len(),
{
    if payloads.len() == 0 {
        queue
    } else {
        all_enqueued(
            tx_queue::enqueued(queue, frame::frame_bytes(ftype, ch_id, payloads[0])),
            ftype,
            ch_id,
            payloads.skip(1),
        )
    }
}

/// The queue after stream data was sent into the tunnel.
pub open spec fn tunneled(queue: Seq<u8>, ch_id: u8, cid: nat, data: Seq<u8>) -> Seq<u8> {
    all_enqueued(queue, F_TDATA, ch_id, tdata_payloads(cid, data))
}

/// The queue with a close notice for a connection pushed.
pub open spec fn close_notified(queue: Seq<u8>, ch_id: u8, cid: nat) -> Seq<u8> {
    tx_queue::enqueued(queue, frame::frame_bytes(F_TCLOSE, ch_id, cid_bytes(cid)))
}

/// Send stream data into the tunnel, in chunks that fit a frame.
pub fn send_tdata(ch_id: u8, cid: u16, data: &[u8], txq: &mut TxQueue)
    requires
        old(txq).wf(),
    ensures
        final(txq).wf(),
        final(txq)@ == tunneled(old(txq)@, ch_id, cid as nat, data@),
{
    let mut off: usize = 0;
    assert(data@.skip(0) =~= data@);
    while off < data.len()
        invariant
            off <= data@.len(),
            txq.wf(),
            tunneled(txq@, ch_id, cid as nat, data@.skip(off as int)) == tunneled(
                old(txq)@,
                ch_id,
                cid as nat,
                data@,
            ),
        decreases data@.len() - off,
    {
        let left: usize = data.len() - off;
        let n: usize = if left <= TDATA_MAX {
            left
        } else {
            TDATA_MAX
        };
        let ghost rest = data@.skip(off as int);
        let mut payload: Vec<u8> = Vec::with_capacity(2 + n);
        payload.extend_from_slice(&pack_cid(cid));
        payload.extend_from_slice(&data[off..off + n]);
        let frame: Vec<u8> = build_frame(F_TDATA, ch_id, &payload);
        txq.enqueue(&frame);
        proof {
            let ps = tdata_payloads(cid as nat, rest);
            assert(payload@ =~= cid_bytes(cid as nat) + rest.take(n as int));
            assert(ps.skip(1) =~= tdata_payloads(cid as nat, rest.skip(n as int)));
            assert(rest.skip(n as int) =~= data@.skip(off + n));
        }
        off += n;
    }
}

/// Notify the far side that a connection is closed.
pub fn send_tclose(ch_id: u8, cid: u16, txq: &mut TxQueue)
    requires
        old(txq).wf(),
    ensures
        final(txq).wf(),
        final(txq)@ == close_notified(old(txq)@, ch_id, cid as nat),
{
    let frame: Vec<u8> = build_frame(F_TCLOSE, ch_id, &pack_cid(cid));
    txq.enqueue(&frame);
}

/// Every payload that carries stream data fits a frame, and holds the
/// connection id and a piece of the data.
pub proof fn law_tdata_payloads_fit(cid: nat, data: Seq<u8>, i: int)
    requires
        cid < 0x1_0000,
        0 <= i < tdata_payloads(cid, data).len(),
    ensures
        tdata_payloads(cid, data)[i].len() <= MAX_PAYLOAD,
        unpacked(tdata_payloads(cid, data)[i]) matches Some((c, piece)) && c == cid && 0
            < piece.len(),
    decreases data.len(),
{
    let n = chunk_len(data);
    if i == 0 {
        law_cid_roundtrip(cid, data.take(n));
    } else {
        law_tdata_payloads_fit(cid, data.skip(n), i - 1);
    }
}

/// State of a single TCP connection slot.
pub struct TcpConn {
    /// Bytes waiting to be written to the stream.
    txbuf: Vec<u8>,
    /// Connect in progress.
    connecting: bool,
    /// Registered for events.
    in_sel: bool,
    /// Peer sent `F_TCLOSE`; drain `txbuf` then close without sending
    /// `F_TCLOSE` back.
    close_pending: bool,
}

/// The value of a [`TcpConn`].
#[verifier::ext_equal]
pub struct ConnModel {
    pub txbuf: Seq<u8>,
    pub connecting: bool,
    pub in_sel: bool,
    pub close_pending: bool,
}

impl View for TcpConn {
    type V = ConnModel;

    closed spec fn view(&self) -> ConnModel {
        ConnModel {
            txbuf: self.txbuf@,
            connecting: self.connecting,
            in_sel: self.in_sel,
            close_pending: self.close_pending,
        }
    }
}

/// A connection that was just made, or is being made.
pub open spec fn fresh_conn(connecting: bool) -> ConnModel {
    ConnModel { txbuf: Seq::empty(), connecting, in_sel: true, close_pending: false }
}

impl ConnModel {
    /// Reads are suspended under backpressure, and when the connection is only
    /// drained before it is closed.
    pub open spec fn wants_read(self, bp_paused: bool) -> bool {
        !(bp_paused || self.close_pending)
    }

    /// Writes are wanted while bytes are pending, and to learn that a connect
    /// is through.
    pub open spec fn wants_write(self) -> bool {
        self.txbuf.len() > 0 || self.connecting
    }

    /// The connection with its registration brought in line.
    pub open spec fn synced(self, bp_paused: bool) -> ConnModel {
        ConnModel { in_sel: self.wants_read(bp_paused) || self.wants_write(), ..self }
    }

    /// The order that does so.
    pub open spec fn sync_actions(self, t: Token, bp_paused: bool) -> Seq<Action> {
        io::sync_actions(
            t,
            io::interest_for(self.wants_read(bp_paused), self.wants_write()),
            self.in_sel,
        )
    }

    /// The orders that close the connection.
    pub open spec fn close_actions(self, t: Token) -> Seq<Action> {
        if self.in_sel {
            seq![Action::Deregister(t), Action::Close(t)]
        } else {
            seq![Action::Close(t)]
        }
    }

    /// The connection can take that many more bytes.
    pub open spec fn has_room(self, n: nat) -> bool {
        &&& self.txbuf.len() <= CONN_HIGH_WATER
        &&& self.txbuf.len() + n <= CONN_HIGH_WATER + MAX_PAYLOAD
    }

    /// The connection was told to close and has nothing left to write.
    pub open spec fn is_finished(self) -> bool {
        self.txbuf.len() == 0 && self.close_pending
    }

    /// The connection after that many bytes were written.
    pub open spec fn written(self, n: int) -> ConnModel {
        ConnModel { txbuf: self.txbuf.skip(n), ..self }
    }

    /// The bytes written by a write that did not fail.
    pub open spec fn after_write(self, write: WriteOutcome) -> ConnModel {
        match write {
            WriteOutcome::Written(n) => self.written(n as int),
            _ => self,
        }
    }
}

/// The connection slots of a channel.
pub struct ConnTable {
    ch_id: u8,
    bp_paused: bool,
    /// Connection slots.  `None` = empty.
    conns: Vec<Option<TcpConn>>,
}

/// The value of a [`ConnTable`].
#[verifier::ext_equal]
pub struct TableModel {
    pub ch_id: u8,
    pub bp_paused: bool,
    pub conns: Seq<Option<ConnModel>>,
}

spec fn conn_models(conns: Seq<Option<TcpConn>>) -> Seq<Option<ConnModel>> {
    Seq::new(
        conns.len(),
        |i: int|
            match conns[i] {
                Some(c) => Some(c@),
                None => None,
            },
    )
}

impl View for ConnTable {
    type V = TableModel;

    closed spec fn view(&self) -> TableModel {
        TableModel {
            ch_id: self.ch_id,
            bp_paused: self.bp_paused,
            conns: conn_models(self.conns@),
        }
    }
}

impl TableModel {
    /// The channel has tokens for all its slots, and no connection has more
    /// bytes pending than its limit and one frame.
    pub open spec fn wf(self) -> bool {
        &&& self.ch_id <= MAX_CHANNEL_ID
        &&& self.conns.len() == MAX_TCP_CONNS
        &&& forall|i: int|
            0 <= i < MAX_TCP_CONNS ==> (#[trigger] self.conns[i] matches Some(c) ==> c.txbuf.len()
                <= CONN_HIGH_WATER + MAX_PAYLOAD)
    }

    /// All slots are empty.
    pub open spec fn is_empty(self) -> bool {
        forall|i: int| 0 <= i < self.conns.len() ==> #[trigger] self.conns[i] is None
    }

    /// The token of a slot.
    pub open spec fn token(self, slot: int) -> Token {
        token::tcp_slot(self.ch_id, slot)
    }

    /// The table with a connection in a slot.
    pub open spec fn with(self, slot: int, conn: ConnModel) -> TableModel {
        TableModel { conns: self.conns.update(slot, Some(conn)), ..self }
    }

    /// The table with a slot empty.
    pub open spec fn without(self, slot: int) -> TableModel {
        TableModel { conns: self.conns.update(slot, None), ..self }
    }

    /// The orders that close what is in a slot.
    pub open spec fn close_actions(self, slot: int) -> Seq<Action> {
        match self.conns[slot] {
            Some(c) => c.close_actions(self.token(slot)),
            None => Seq::empty(),
        }
    }

    /// The table with the registration of a slot brought in line.
    pub open spec fn synced(self, slot: int) -> TableModel {
        match self.conns[slot] {
            Some(c) => self.with(slot, c.synced(self.bp_paused)),
            None => self,
        }
    }

    /// The order that does so.
    pub open spec fn sync_actions(self, slot: int) -> Seq<Action> {
        match self.conns[slot] {
            Some(c) => c.sync_actions(self.token(slot), self.bp_paused),
            None => Seq::empty(),
        }
    }

    /// The table with the registrations of all slots brought in line.
    pub open spec fn all_synced(self) -> TableModel {
        TableModel {
            conns: Seq::new(
                self.conns.len(),
                |i: int|
                    match self.conns[i] {
                        Some(c) => Some(c.synced(self.bp_paused)),
                        None => None,
                    },
            ),
            ..self
        }
    }

    /// The orders that do so for the first `n` slots.
    pub open spec fn all_sync_actions(self, n: nat) -> Seq<Action>
        decreases n,
    {
        if n == 0 {
            Seq::empty()
        } else {
            self.all_sync_actions((n - 1) as nat) + self.sync_actions(n - 1)
        }
    }

    /// The table with all slots empty.
    pub open spec fn all_closed(self) -> TableModel {
        TableModel { conns: Seq::new(self.conns.len(), |i: int| None), ..self }
    }

    /// The orders that close the first `n` slots.
    pub open spec fn all_close_actions(self, n: nat) -> Seq<Action>
        decreases n,
    {
        if n == 0 {
            Seq::empty()
        } else {
            self.all_close_actions((n - 1) as nat) + self.close_actions(n - 1)
        }
    }

    /// A connection is closed from this side; the far side is told if `notify`
    /// says so.
    pub open spec fn hung_up(self, slot: int, notify: bool, queue: Seq<u8>) -> Effect<TableModel> {
        Effect {
            ch: self.without(slot),
            queue: if self.conns[slot] is Some && notify {
                close_notified(queue, self.ch_id, slot as nat)
            } else {
                queue
            },
            actions: self.close_actions(slot),
            step: Step::Done,
        }
    }

    /// Nothing happens.
    pub open spec fn idle(self, queue: Seq<u8>) -> Effect<TableModel> {
        Effect { ch: self, queue, actions: Seq::empty(), step: Step::Done }
    }

    /// The registration of a slot is brought in line.
    pub open spec fn resynced(self, slot: int, queue: Seq<u8>) -> Effect<TableModel> {
        Effect {
            ch: self.synced(slot),
            queue,
            actions: self.sync_actions(slot),
            step: Step::Done,
        }
    }

    /// Stream data arrived for a slot.  It is kept while the connection has
    /// room; one that is over its limit is closed.
    pub open spec fn on_tdata(self, slot: int, data: Seq<u8>, notify: bool, queue: Seq<u8>) -> Effect<
        TableModel,
    > {
        match self.conns[slot] {
            Some(c) if data.len() > 0 => if c.has_room(data.len()) {
                self.with(slot, ConnModel { txbuf: c.txbuf + data, ..c }).resynced(slot, queue)
            } else {
                self.hung_up(slot, notify, queue)
            },
            _ => self.idle(queue),
        }
    }

    /// The far side closed a connection.  What is still pending is written
    /// first.
    pub open spec fn on_tclose(self, slot: int, queue: Seq<u8>) -> Effect<TableModel> {
        match self.conns[slot] {
            Some(c) => if c.txbuf.len() == 0 {
                self.hung_up(slot, false, queue)
            } else {
                self.with(slot, ConnModel { close_pending: true, ..c }).resynced(slot, queue)
            },
            None => self.idle(queue),
        }
    }

    /// A data or close frame arrived.  Frames without a connection id, or with
    /// one that names no slot, are ignored.
    pub open spec fn on_tunnel_frame(
        self,
        ftype: u8,
        payload: Seq<u8>,
        notify: bool,
        queue: Seq<u8>,
    ) -> Effect<TableModel> {
        match unpacked(payload) {
            Some((cid, data)) if cid < MAX_TCP_CONNS => if ftype == F_TDATA {
                self.on_tdata(cid as int, data, notify, queue)
            } else if ftype == F_TCLOSE {
                self.on_tclose(cid as int, queue)
            } else {
                self.idle(queue)
            },
            _ => self.idle(queue),
        }
    }
}

/// The table after a run of data frames.
pub open spec fn tdata_received(
    m: TableModel,
    payloads: Seq<Seq<u8>>,
    notify: bool,
    queue: Seq<u8>,
) -> TableModel
    decreases payloads.len(),
{
    if payloads.len() == 0 {
        m
    } else {
        let e = m.on_tunnel_frame(F_TDATA, payloads[0], notify, queue);
        tdata_received(e.ch, payloads.skip(1), notify, e.queue)
    }
}

/// Stream data crosses the tunnel: what one side read from its stream, cut
/// into frames, the other side has pending for its stream, unchanged and in
/// order, as long as the connection has not passed its limit before the last
/// of the frames.
pub proof fn law_tunnel_carries_stream_data(
    m: TableModel,
    slot: int,
    data: Seq<u8>,
    notify: bool,
    queue: Seq<u8>,
)
    requires
        m.wf(),
        0 <= slot < MAX_TCP_CONNS,
        m.conns[slot] matches Some(c) && (data.len() > 0 ==> c.txbuf.len() + (data.len() - 1)
            / (TDATA_MAX as int) * TDATA_MAX <= CONN_HIGH_WATER),
    ensures
        ({
            let after = tdata_received(m, tdata_payloads(slot as nat, data), notify, queue);
            &&& after.conns[slot] matches Some(c1) && c1.txbuf == m.conns[slot]->Some_0.txbuf + data
            &&& forall|i: int|
                0 <= i < MAX_TCP_CONNS && i != slot ==> #[trigger] after.conns[i] == m.conns[i]
        }),
    decreases data.len(),
{
    let c = m.conns[slot]->Some_0;
    let ps = tdata_payloads(slot as nat, data);
    if data.len() == 0 {
        assert(c.txbuf + data =~= c.txbuf);
    } else {
        let n = chunk_len(data);
        let first = data.take(n);
        let rest = data.skip(n);
        law_cid_roundtrip(slot as nat, first);
        assert(ps[0] == cid_bytes(slot as nat) + first);
        assert(ps.skip(1) =~= tdata_payloads(slot as nat, rest));
        let q = (data.len() - 1) / (TDATA_MAX as int);
        assert(q >= 0);
        assert(q * TDATA_MAX >= 0) by (nonlinear_arith)
            requires
                q >= 0,
        ;
        assert(c.has_room(first.len()));
        let e = m.on_tunnel_frame(F_TDATA, ps[0], notify, queue);
        let c1 = e.ch.conns[slot]->Some_0;
        assert(c1.txbuf == c.txbuf + first);
        if rest.len() > 0 {
            assert((rest.len() - 1) / (TDATA_MAX as int) == q - 1) by {
                vstd::arithmetic::div_mod::lemma_div_minus_one(data.len() - 1, TDATA_MAX as int);
            }
            assert((q - 1) * TDATA_MAX == q * TDATA_MAX - TDATA_MAX) by (nonlinear_arith);
        }
        law_tunnel_carries_stream_data(e.ch, slot, rest, notify, e.queue);
        assert(c.txbuf + first + rest =~= c.txbuf + data);
    }
}

/// The order waits for data to arrive.
pub open spec fn waits_for_data(a: Action) -> bool {
    match a {
        Action::Register(_, i) => i != Interest::Writable,
        Action::Reregister(_, i) => i != Interest::Writable,
        _ => false,
    }
}

/// Backpressure suspends reads: once the table is paused, no order that
/// brings a registration in line waits for data, and a connection that has
/// nothing to write is not registered at all.
pub proof fn law_pause_suspends_reads(m: TableModel, slot: int)
    requires
        m.wf(),
        m.bp_paused,
        0 <= slot < MAX_TCP_CONNS,
    ensures
        forall|k: int|
            0 <= k < m.sync_actions(slot).len() ==> !waits_for_data(
                #[trigger] m.sync_actions(slot)[k],
            ),
        m.synced(slot).conns[slot] matches Some(c) ==> c.in_sel == c.wants_write(),
{
}

impl ConnTable {
    /// A table with all slots empty.
    pub fn new(ch_id: u8) -> (t: Self)
        requires
            ch_id <= MAX_CHANNEL_ID,
        ensures
            t@.wf(),
            t@ == (TableModel {
                ch_id,
                bp_paused: false,
                conns: Seq::new(MAX_TCP_CONNS as nat, |i: int| None),
            }),
    {
        let mut conns: Vec<Option<TcpConn>> = Vec::with_capacity(MAX_TCP_CONNS);
        let mut i: usize = 0;
        while i < MAX_TCP_CONNS
            invariant
                i <= MAX_TCP_CONNS,
                conns@.len() == i,
                forall|k: int| 0 <= k < i ==> conns@[k] is None,
            decreases MAX_TCP_CONNS - i,
        {
            conns.push(None);
            i += 1;
        }
        let t = ConnTable { ch_id, bp_paused: false, conns };
        assert(t@.conns =~= Seq::new(MAX_TCP_CONNS as nat, |i: int| None));
        t
    }

    /// The wire channel id.
    pub fn channel_id(&self) -> (id: u8)
        ensures
            id == self@.ch_id,
    {
        self.ch_id
    }

    /// Reads are suspended.
    pub fn is_paused(&self) -> (paused: bool)
        ensures
            paused == self@.bp_paused,
    {
        self.bp_paused
    }

    /// A slot is empty.
    pub fn is_free(&self, slot: usize) -> (free: bool)
        requires
            self@.wf(),
            slot < MAX_TCP_CONNS,
        ensures
            free == self@.conns[slot as int] is None,
    {
        self.conns[slot].is_none()
    }

    /// Put a connection in a slot.
    pub fn insert(&mut self, slot: usize, connecting: bool)
        requires
            old(self)@.wf(),
            slot < MAX_TCP_CONNS,
        ensures
            final(self)@.wf(),
            final(self)@ == old(self)@.with(slot as int, fresh_conn(connecting)),
    {
        let conn = TcpConn {
            txbuf: Vec::new(),
            connecting,
            in_sel: true,
            close_pending: false,
        };
        assert(conn@ =~= fresh_conn(connecting));
        self.conns[slot] = Some(conn);
        assert(self@ =~= old(self)@.with(slot as int, fresh_conn(connecting)));
    }

    /// The bytes that wait to be written to the stream in a slot.
    pub fn pending(&self, slot: usize) -> (bytes: &[u8])
        requires
            self@.wf(),
            slot < MAX_TCP_CONNS,
        ensures
            match self@.conns[slot as int] {
                Some(c) => bytes@ == c.txbuf,
                None => bytes@.len() == 0,
            },
    {
        match &self.conns[slot] {
            Some(c) => c.txbuf.as_slice(),
            None => &[],
        }
    }

    /// What is known of the connection in a slot: whether it is connecting,
    /// whether it is to be closed, and how many bytes it has pending.
    pub fn status(&self, slot: usize) -> (s: Option<(bool, bool, usize)>)
        requires
            self@.wf(),
            slot < MAX_TCP_CONNS,
        ensures
            match self@.conns[slot as int] {
                Some(c) => s matches Some((connecting, close_pending, n)) && connecting
                    == c.connecting && close_pending == c.close_pending && n == c.txbuf.len(),
                None => s is None,
            },
    {
        match &self.conns[slot] {
            Some(c) => Some((c.connecting, c.close_pending, c.txbuf.len())),
            None => None,
        }
    }

    /// A write took the first `n` pending bytes of a slot.
    pub fn drop_written(&mut self, slot: usize, n: usize)
        requires
            old(self)@.wf(),
            slot < MAX_TCP_CONNS,
            old(self)@.conns[slot as int] matches Some(c) && n <= c.txbuf.len(),
        ensures
            final(self)@.wf(),
            final(self)@ == old(self)@.with(
                slot as int,
                old(self)@.conns[slot as int]->Some_0.written(n as int),
            ),
    {
        let ghost c0 = old(self)@.conns[slot as int]->Some_0;
        if let Some(mut c) = self.conns[slot].take() {
            drop_front(&mut c.txbuf, n);
            assert(c@ =~= c0.written(n as int));
            self.conns[slot] = Some(c);
        }
        assert(self@ =~= old(self)@.with(slot as int, c0.written(n as int)));
    }

    /// The connection in a slot was made.
    pub fn set_connected(&mut self, slot: usize)
        requires
            old(self)@.wf(),
            slot < MAX_TCP_CONNS,
            old(self)@.conns[slot as int] is Some,
        ensures
            final(self)@.wf(),
            final(self)@ == old(self)@.with(
                slot as int,
                (ConnModel { connecting: false, ..old(self)@.conns[slot as int]->Some_0 }),
            ),
    {
        let ghost c0 = old(self)@.conns[slot as int]->Some_0;
        if let Some(mut c) = self.conns[slot].take() {
            c.connecting = false;
            assert(c@ =~= (ConnModel { connecting: false, ..c0 }));
            self.conns[slot] = Some(c);
        }
        assert(self@ =~= old(self)@.with(slot as int, ConnModel { connecting: false, ..c0 }));
    }

    /// Bring the registration of a slot in line.
    pub fn update_conn_interest(&mut self, slot: usize, out: &mut Vec<Action>)
        requires
            old(self)@.wf(),
            slot < MAX_TCP_CONNS,
        ensures
            final(self)@.wf(),
            final(self)@ == old(self)@.synced(slot as int),
            final(out)@ == old(out)@ + old(self)@.sync_actions(slot as int),
    {
        let t = tcp_slot_token(self.ch_id, slot);
        let ghost m0 = self@;
        if let Some(mut c) = self.conns[slot].take() {
            let ghost c0 = c@;
            c.in_sel = sync_registration(
                t,
                !(self.bp_paused || c.close_pending),
                c.txbuf.len() > 0 || c.connecting,
                c.in_sel,
                out,
            );
            assert(c@ =~= c0.synced(m0.bp_paused));
            self.conns[slot] = Some(c);
        }
        assert(self@ =~= m0.synced(slot as int));
        assert(out@ =~= old(out)@ + m0.sync_actions(slot as int));
    }

    /// Suspend or resume reads on all connections.
    pub fn set_paused(&mut self, paused: bool, out: &mut Vec<Action>)
        requires
            old(self)@.wf(),
        ensures
            final(self)@.wf(),
            ({
                let m = TableModel { bp_paused: paused, ..old(self)@ };
                &&& final(self)@ == m.all_synced()
                &&& final(out)@ == old(out)@ + m.all_sync_actions(MAX_TCP_CONNS as nat)
            }),
    {
        self.bp_paused = paused;
        let ghost m = self@;
        let mut slot: usize = 0;
        assert(old(out)@ + m.all_sync_actions(0) =~= old(out)@);
        while slot < MAX_TCP_CONNS
            invariant
                slot <= MAX_TCP_CONNS,
                self@.wf(),
                m.wf(),
                self@.ch_id == m.ch_id,
                self@.bp_paused == m.bp_paused,
                forall|i: int|
                    0 <= i < slot ==> #[trigger] self@.conns[i] == m.all_synced().conns[i],
                forall|i: int| slot <= i < MAX_TCP_CONNS ==> #[trigger] self@.conns[i] == m.conns[i],
                out@ == old(out)@ + m.all_sync_actions(slot as nat),
            decreases MAX_TCP_CONNS - slot,
        {
            self.update_conn_interest(slot, out);
            assert(out@ =~= old(out)@ + m.all_sync_actions((slot + 1) as nat));
            slot += 1;
        }
        assert(self@ =~= m.all_synced());
    }

    /// Empty a slot, and say whether there was a connection in it.
    pub fn close_slot(&mut self, slot: usize, out: &mut Vec<Action>) -> (was_open: bool)
        requires
            old(self)@.wf(),
            slot < MAX_TCP_CONNS,
        ensures
            final(self)@.wf(),
            was_open == old(self)@.conns[slot as int] is Some,
            final(self)@ == old(self)@.without(slot as int),
            final(out)@ == old(out)@ + old(self)@.close_actions(slot as int),
    {
        let t = tcp_slot_token(self.ch_id, slot);
        let ghost m0 = self@;
        let mut was_open: bool = false;
        if let Some(c) = self.conns[slot].take() {
            if c.in_sel {
                out.push(Action::Deregister(t));
            }
            out.push(Action::Close(t));
            was_open = true;
        }
        assert(self@ =~= m0.without(slot as int));
        assert(out@ =~= old(out)@ + m0.close_actions(slot as int));
        was_open
    }

    /// Empty a slot from this side, and tell the far side if `notify` says so.
    pub fn hang_up(&mut self, slot: usize, notify: bool, txq: &mut TxQueue, out: &mut Vec<Action>)
        requires
            old(self)@.wf(),
            old(txq).wf(),
            slot < MAX_TCP_CONNS,
        ensures
            final(self)@.wf(),
            final(txq).wf(),
            ({
                let e = old(self)@.hung_up(slot as int, notify, old(txq)@);
                &&& final(self)@ == e.ch
                &&& final(txq)@ == e.queue
                &&& final(out)@ == old(out)@ + e.actions
            }),
    {
        let was_open: bool = self.close_slot(slot, out);
        if was_open && notify {
            send_tclose(self.ch_id, slot as u16, txq);
        }
    }

    /// Empty all slots.
    pub fn close_all(&mut self, out: &mut Vec<Action>)
        requires
            old(self)@.wf(),
        ensures
            final(self)@.wf(),
            final(self)@ == old(self)@.all_closed(),
            final(out)@ == old(out)@ + old(self)@.all_close_actions(MAX_TCP_CONNS as nat),
    {
        let ghost m = self@;
        let mut slot: usize = 0;
        assert(old(out)@ + m.all_close_actions(0) =~= old(out)@);
        while slot < MAX_TCP_CONNS
            invariant
                slot <= MAX_TCP_CONNS,
                self@.wf(),
                m.wf(),
                self@.ch_id == m.ch_id,
                self@.bp_paused == m.bp_paused,
                forall|i: int| 0 <= i < slot ==> #[trigger] self@.conns[i] is None,
                forall|i: int| slot <= i < MAX_TCP_CONNS ==> #[trigger] self@.conns[i] == m.conns[i],
                out@ == old(out)@ + m.all_close_actions(slot as nat),
            decreases MAX_TCP_CONNS - slot,
        {
            self.close_slot(slot, out);
            assert(out@ =~= old(out)@ + m.all_close_actions((slot + 1) as nat));
            slot += 1;
        }
        assert(self@ =~= m.all_closed());
    }

    /// A data or close frame arrived from the far side of the link.
    pub fn on_tunnel_frame(
        &mut self,
        ftype: u8,
        payload: &[u8],
        notify: bool,
        txq: &mut TxQueue,
        out: &mut Vec<Action>,
    )
        requires
            old(self)@.wf(),
            old(txq).wf(),
        ensures
            final(self)@.wf(),
            final(txq).wf(),
            ({
                let e = old(self)@.on_tunnel_frame(ftype, payload@, notify, old(txq)@);
                &&& final(self)@ == e.ch
                &&& final(txq)@ == e.queue
                &&& final(out)@ == old(out)@ + e.actions
            }),
    {
        proof {
            assert(old(out)@ + Seq::<Action>::empty() =~= old(out)@);
        }
        let (cid, data): (u16, &[u8]) = match unpack_cid(payload) {
            Some(x) => x,
            None => return ,
        };
        let slot: usize = cid as usize;
        if slot >= MAX_TCP_CONNS {
            return ;
        }
        if ftype == F_TDATA {
            self.on_tdata(slot, data, notify, txq, out);
        } else if ftype == F_TCLOSE {
            self.on_tclose(slot, txq, out);
        }
    }

    fn on_tdata(
        &mut self,
        slot: usize,
        data: &[u8],
        notify: bool,
        txq: &mut TxQueue,
        out: &mut Vec<Action>,
    )
        requires
            old(self)@.wf(),
            old(txq).wf(),
            slot < MAX_TCP_CONNS,
        ensures
            final(self)@.wf(),
            final(txq).wf(),
            ({
                let e = old(self)@.on_tdata(slot as int, data@, notify, old(txq)@);
                &&& final(self)@ == e.ch
                &&& final(txq)@ == e.queue
                &&& final(out)@ == old(out)@ + e.actions
            }),
    {
        proof {
            assert(old(out)@ + Seq::<Action>::empty() =~= old(out)@);
        }
        if data.len() == 0 {
            return ;
        }
        let ghost m0 = self@;
        if let Some(mut c) = self.conns[slot].take() {
            let ghost c0 = c@;
            let used: usize = c.txbuf.len();
            if used > CONN_HIGH_WATER || data.len() > CONN_HIGH_WATER + MAX_PAYLOAD - used {
                self.conns[slot] = Some(c);
                assert(self@ =~= m0);
                self.hang_up(slot, notify, txq, out);
            } else {
                c.txbuf.extend_from_slice(data);
                assert(c@ =~= (ConnModel { txbuf: c0.txbuf + data@, ..c0 }));
                self.conns[slot] = Some(c);
                assert(self@ =~= m0.with(
                    slot as int,
                    ConnModel { txbuf: c0.txbuf + data@, ..c0 },
                ));
                self.update_conn_interest(slot, out);
            }
        } else {
            assert(self@ =~= m0);
        }
    }

    fn on_tclose(&mut self, slot: usize, txq: &mut TxQueue, out: &mut Vec<Action>)
        requires
            old(self)@.wf(),
            old(txq).wf(),
            slot < MAX_TCP_CONNS,
        ensures
            final(self)@.wf(),
            final(txq).wf(),
            ({
                let e = old(self)@.on_tclose(slot as int, old(txq)@);
                &&& final(self)@ == e.ch
                &&& final(txq)@ == e.queue
                &&& final(out)@ == old(out)@ + e.actions
            }),
    {
        proof {
            assert(old(out)@ + Seq::<Action>::empty() =~= old(out)@);
        }
        let ghost m0 = self@;
        if let Some(mut c) = self.conns[slot].take() {
            let ghost c0 = c@;
            if c.txbuf.len() == 0 {
                self.conns[slot] = Some(c);
                assert(self@ =~= m0);
                self.hang_up(slot, false, txq, out);
            } else {
                c.close_pending = true;
                assert(c@ =~= (ConnModel { close_pending: true, ..c0 }));
                self.conns[slot] = Some(c);
                assert(self@ =~= m0.with(slot as int, ConnModel { close_pending: true, ..c0 }));
                self.update_conn_interest(slot, out);
            }
        } else {
            assert(self@ =~= m0);
        }
    }
}

/// The frame that tells the far side of a close: it holds the connection id, the
/// low byte first.
pub open spec fn close_notice(ch_id: u8, slot: int) -> Seq<u8> {
    frame::frame_bytes(F_TCLOSE, ch_id, seq![(slot % 256) as u8, (slot / 256) as u8])
}

/// A connection is closed from this side: its slot is empty, nothing waits for
/// it any more, the far side is told if it is to be, and nothing else changes.
pub proof fn law_connection_is_closed(m: TableModel, slot: int, notify: bool, queue: Seq<u8>)
    requires
        m.wf(),
        0 <= slot < MAX_TCP_CONNS,
    ensures
        ({
            let e = m.hung_up(slot, notify, queue);
            &&& e.ch == (TableModel { conns: m.conns.update(slot, None), ..m })
            &&& e.queue == (if m.conns[slot] is Some && notify {
                tx_queue::enqueued(queue, close_notice(m.ch_id, slot))
            } else {
                queue
            })
            &&& e.actions == (match m.conns[slot] {
                Some(c) if c.in_sel => seq![
                    Action::Deregister(m.token(slot)),
                    Action::Close(m.token(slot)),
                ],
                Some(_) => seq![Action::Close(m.token(slot))],
                None => Seq::empty(),
            })
            &&& e.step == Step::Done
        }),
{
    assert(cid_bytes(slot as nat) =~= seq![(slot % 256) as u8, (slot / 256) as u8]);
}

/// Each slot has a token of its own: that of its channel and its number.
pub proof fn law_slot_has_its_own_token(m: TableModel, a: int, b: int)
    requires
        m.wf(),
        0 <= a < MAX_TCP_CONNS,
        0 <= b < MAX_TCP_CONNS,
    ensures
        m.token(a) == token::tcp_slot(m.ch_id, a),
        m.token(a) == m.token(b) ==> a == b,
        token::owner(m.token(a)) == Some(m.ch_id),
        token::slot_of(m.token(a)) == a,
{
    token::law_tokens_are_distinct(m.ch_id, a, m.ch_id, b);
    token::law_tokens_are_reversible(m.ch_id, a);
}

/// Stream data is kept for its connection, behind what was pending and
/// unchanged, while no more than the limit of 256 KiB is pending; the
/// connection then waits for room, and nothing else changes.
pub proof fn law_stream_data_is_kept(
    m: TableModel,
    slot: int,
    before: Option<Interest>,
    data: Seq<u8>,
    notify: bool,
    queue: Seq<u8>,
)
    requires
        m.wf(),
        0 <= slot < MAX_TCP_CONNS,
        m.conns[slot] matches Some(c) && c.txbuf.len() <= 262144 && before is Some == c.in_sel,
        0 < data.len() <= TDATA_MAX,
    ensures
        ({
            let c = m.conns[slot]->Some_0;
            let e = m.on_tunnel_frame(F_TDATA, cid_bytes(slot as nat) + data, notify, queue);
            &&& e.ch == (TableModel {
                conns: m.conns.update(
                    slot,
                    Some(ConnModel { txbuf: c.txbuf + data, in_sel: true, ..c }),
                ),
                ..m
            })
            &&& e.queue == queue && e.step == Step::Done
            &&& io::leaves_waiting(
                before,
                e.actions,
                m.token(slot),
                !m.bp_paused && !c.close_pending,
                true,
            )
        }),
{
    let c = m.conns[slot]->Some_0;
    law_cid_roundtrip(slot as nat, data);
    io::law_registration_is_brought_in_line(
        m.token(slot),
        !m.bp_paused && !c.close_pending,
        true,
        before,
        m.token(slot),
    );
    let e = m.on_tunnel_frame(F_TDATA, cid_bytes(slot as nat) + data, notify, queue);
    assert(e.ch.conns =~= m.conns.update(
        slot,
        Some(ConnModel { txbuf: c.txbuf + data, in_sel: true, ..c }),
    ));
}

/// A connection that has more than the limit pending and gets more is closed,
/// and the far side told if it is to be.
pub proof fn law_overfull_connection_is_closed(
    m: TableModel,
    slot: int,
    data: Seq<u8>,
    notify: bool,
    queue: Seq<u8>,
)
    requires
        m.wf(),
        0 <= slot < MAX_TCP_CONNS,
        m.conns[slot] matches Some(c) && c.txbuf.len() > 262144,
        data.len() > 0,
    ensures
        m.on_tunnel_frame(F_TDATA, cid_bytes(slot as nat) + data, notify, queue) == m.hung_up(
            slot,
            notify,
            queue,
        ),
{
    law_cid_roundtrip(slot as nat, data);
}

/// A connection that the far side closes is closed at once where nothing is
/// pending, and otherwise only drained from then on: it keeps what is pending,
/// waits for room and no longer for data.  The far side is not told.
pub proof fn law_closed_connection_is_drained(
    m: TableModel,
    slot: int,
    before: Option<Interest>,
    notify: bool,
    queue: Seq<u8>,
)
    requires
        m.wf(),
        0 <= slot < MAX_TCP_CONNS,
        m.conns[slot] matches Some(c) && before is Some == c.in_sel,
    ensures
        ({
            let c = m.conns[slot]->Some_0;
            let e = m.on_tunnel_frame(F_TCLOSE, cid_bytes(slot as nat), notify, queue);
            &&& e.queue == queue && e.step == Step::Done
            &&& c.txbuf.len() == 0 ==> e == m.hung_up(slot, false, queue)
            &&& c.txbuf.len() > 0 ==> e.ch == (TableModel {
                conns: m.conns.update(
                    slot,
                    Some(ConnModel { close_pending: true, in_sel: true, ..c }),
                ),
                ..m
            }) && io::leaves_waiting(before, e.actions, m.token(slot), false, true)
        }),
{
    let c = m.conns[slot]->Some_0;
    law_cid_roundtrip(slot as nat, Seq::empty());
    assert(cid_bytes(slot as nat) + Seq::<u8>::empty() =~= cid_bytes(slot as nat));
    io::law_registration_is_brought_in_line(m.token(slot), false, true, before, m.token(slot));
    let e = m.on_tunnel_frame(F_TCLOSE, cid_bytes(slot as nat), notify, queue);
    if c.txbuf.len() > 0 {
        assert(e.ch.conns =~= m.conns.update(
            slot,
            Some(ConnModel { close_pending: true, in_sel: true, ..c }),
        ));
    }
}

/// A frame without a connection changes nothing: one too short for an id, one
/// whose id names no slot or an empty one, one without data, or one of another
/// kind than data and close.
pub proof fn law_frame_without_connection_is_ignored(
    m: TableModel,
    ftype: u8,
    payload: Seq<u8>,
    notify: bool,
    queue: Seq<u8>,
)
    requires
        m.wf(),
        ({
            let id = payload[0] + 256 * payload[1];
            ||| payload.len() < 2
            ||| id >= 256
            ||| m.conns[id] is None
            ||| ftype == F_TDATA && payload.len() == 2
            ||| ftype != F_TDATA && ftype != F_TCLOSE
        }),
    ensures
        ({
            let e = m.on_tunnel_frame(ftype, payload, notify, queue);
            e.ch == m && e.queue == queue && e.actions.len() == 0 && e.step == Step::Done
        }),
{
}

/// Connections are independent: a frame leaves every connection but the one that
/// its id names as it was.
pub proof fn law_connections_are_independent(
    m: TableModel,
    ftype: u8,
    payload: Seq<u8>,
    notify: bool,
    queue: Seq<u8>,
    other: int,
)
    requires
        m.wf(),
        0 <= other < MAX_TCP_CONNS,
        payload.len() >= 2 ==> payload[0] + 256 * payload[1] != other,
    ensures
        ({
            let e = m.on_tunnel_frame(ftype, payload, notify, queue);
            &&& e.ch.conns[other] == m.conns[other]
            &&& e.ch.ch_id == m.ch_id && e.ch.bp_paused == m.bp_paused
        }),
{
}

/// Under backpressure, and when it is lifted, every connection waits for data
/// just where it is neither paused nor only drained, and for room just where it
/// has something to write or is being made; nothing else of it changes.
pub proof fn law_all_connections_are_brought_in_line(
    m: TableModel,
    slot: int,
    before: Option<Interest>,
)
    requires
        m.wf(),
        0 <= slot < MAX_TCP_CONNS,
        m.conns[slot] matches Some(c) ==> before is Some == c.in_sel,
    ensures
        match m.conns[slot] {
            Some(c) => {
                let read = !m.bp_paused && !c.close_pending;
                let write = c.txbuf.len() > 0 || c.connecting;
                &&& m.all_synced().conns[slot] == Some(ConnModel { in_sel: read || write, ..c })
                &&& io::leaves_waiting(
                    before,
                    m.all_sync_actions(MAX_TCP_CONNS as nat),
                    m.token(slot),
                    read,
                    write,
                )
            },
            None => m.all_synced().conns[slot] is None,
        },
        m.all_synced().ch_id == m.ch_id,
        m.all_synced().bp_paused == m.bp_paused,
{
    if m.conns[slot] is Some {
        lemma_all_sync(m, MAX_TCP_CONNS as nat, slot, before);
    }
}

proof fn lemma_sync_other(m: TableModel, n: int, slot: int, before: Option<Interest>)
    requires
        m.wf(),
        0 <= n < MAX_TCP_CONNS,
        0 <= slot < MAX_TCP_CONNS,
        n != slot,
    ensures
        registration_kept(before, m.sync_actions(n), m.token(slot)),
        registration_kept(before, m.close_actions(n), m.token(slot)),
{
    law_slot_has_its_own_token(m, n, slot);
    reveal_with_fuel(io::registration, 3);
    reveal_with_fuel(io::orderly, 3);
}

/// The orders do not touch a token.
spec fn registration_kept(before: Option<Interest>, actions: Seq<Action>, t: Token) -> bool {
    io::registration(before, actions, t) == before && io::orderly(before, actions, t)
}

proof fn lemma_all_sync(m: TableModel, n: nat, slot: int, before: Option<Interest>)
    requires
        m.wf(),
        n <= MAX_TCP_CONNS,
        0 <= slot < MAX_TCP_CONNS,
        m.conns[slot] matches Some(c) && before is Some == c.in_sel,
    ensures
        ({
            let c = m.conns[slot]->Some_0;
            if slot < n {
                io::leaves_waiting(
                    before,
                    m.all_sync_actions(n),
                    m.token(slot),
                    !m.bp_paused && !c.close_pending,
                    c.txbuf.len() > 0 || c.connecting,
                )
            } else {
                registration_kept(before, m.all_sync_actions(n), m.token(slot))
            }
        }),
    decreases n,
{
    let c = m.conns[slot]->Some_0;
    if n > 0 {
        let front = m.all_sync_actions((n - 1) as nat);
        let t = m.token(slot);
        lemma_all_sync(m, (n - 1) as nat, slot, before);
        io::lemma_registration_concat(before, front, m.sync_actions(n - 1), t);
        if n - 1 == slot {
            io::law_registration_is_brought_in_line(
                t,
                !m.bp_paused && !c.close_pending,
                c.txbuf.len() > 0 || c.connecting,
                before,
                t,
            );
        } else {
            lemma_sync_other(m, n - 1, slot, io::registration(before, front, t));
        }
    }
}

/// All connections are closed: every slot is empty, what was in it is closed,
/// nothing waits for it any more, and nothing else changes.
pub proof fn law_all_connections_are_closed(m: TableModel, slot: int, before: Option<Interest>)
    requires
        m.wf(),
        0 <= slot < MAX_TCP_CONNS,
        m.conns[slot] matches Some(c) ==> before is Some == c.in_sel,
    ensures
        m.all_closed().conns.len() == MAX_TCP_CONNS,
        m.all_closed().conns[slot] is None,
        m.all_closed().ch_id == m.ch_id,
        m.all_closed().bp_paused == m.bp_paused,
        m.conns[slot] is Some ==> ({
            let actions = m.all_close_actions(MAX_TCP_CONNS as nat);
            &&& io::registration(before, actions, m.token(slot)) is None
            &&& io::orderly(before, actions, m.token(slot))
            &&& actions.contains(Action::Close(m.token(slot)))
        }),
{
    if m.conns[slot] is Some {
        lemma_all_close(m, MAX_TCP_CONNS as nat, slot, before);
    }
}

proof fn lemma_all_close(m: TableModel, n: nat, slot: int, before: Option<Interest>)
    requires
        m.wf(),
        n <= MAX_TCP_CONNS,
        0 <= slot < MAX_TCP_CONNS,
        m.conns[slot] matches Some(c) && before is Some == c.in_sel,
    ensures
        ({
            let actions = m.all_close_actions(n);
            let t = m.token(slot);
            if slot < n {
                &&& io::registration(before, actions, t) is None
                &&& io::orderly(before, actions, t)
                &&& actions.contains(Action::Close(t))
            } else {
                registration_kept(before, actions, t)
            }
        }),
    decreases n,
{
    if n > 0 {
        let front = m.all_close_actions((n - 1) as nat);
        let last = m.close_actions(n - 1);
        let t = m.token(slot);
        lemma_all_close(m, (n - 1) as nat, slot, before);
        io::lemma_registration_concat(before, front, last, t);
        let all = m.all_close_actions(n);
        if n - 1 == slot {
            reveal_with_fuel(io::registration, 3);
            reveal_with_fuel(io::orderly, 3);
            assert(last.last() == Action::Close(t));
            assert(all[all.len() - 1] == Action::Close(t));
        } else {
            lemma_sync_other(m, n - 1, slot, io::registration(before, front, t));
            if slot < n - 1 {
                let k = choose|k: int| 0 <= k < front.len() && front[k] == Action::Close(t);
                assert(all[k] == Action::Close(t));
            }
        }
    }
}

/// Long stream data is cut: what fits one frame with its connection id goes
/// first, and the rest follows as if it had come on its own.
pub proof fn law_long_data_is_cut(queue: Seq<u8>, ch_id: u8, cid: nat, a: Seq<u8>, b: Seq<u8>)
    requires
        a.len() == 16_382,
    ensures
        tunneled(queue, ch_id, cid, a + b) == tunneled(
            tunneled(queue, ch_id, cid, a),
            ch_id,
            cid,
            b,
        ),
{
    let ps = tdata_payloads(cid, a);
    let all = tdata_payloads(cid, a + b);
    assert((a + b).take(16_382) =~= a);
    assert((a + b).skip(16_382) =~= b);
    assert(a.take(16_382) =~= a);
    assert(a.skip(16_382) =~= Seq::empty());
    assert(tdata_payloads(cid, Seq::empty()) =~= Seq::empty());
    if b.len() == 0 {
        assert(a + b =~= a);
        assert(b =~= Seq::empty());
    }
    assert(ps =~= seq![cid_bytes(cid) + a]);
    assert(ps.skip(1) =~= Seq::empty());
    assert(all =~= seq![cid_bytes(cid) + a] + tdata_payloads(cid, b));
    assert(all.skip(1) =~= tdata_payloads(cid, b));
    let first = tx_queue::enqueued(queue, frame::frame_bytes(F_TDATA, ch_id, ps[0]));
    assert(all_enqueued(first, F_TDATA, ch_id, ps.skip(1)) == first);
}

/// Stream data that fits one frame is sent in one: it holds the connection id,
/// the low byte first, and then the data.  No data is no frame.
pub proof fn law_short_data_is_one_frame(queue: Seq<u8>, ch_id: u8, slot: int, data: Seq<u8>)
    requires
        0 <= slot < MAX_TCP_CONNS,
        data.len() <= 16_382,
    ensures
        tunneled(queue, ch_id, slot as nat, data) == (if data.len() == 0 {
            queue
        } else {
            tx_queue::enqueued(
                queue,
                frame::frame_bytes(
                    F_TDATA,
                    ch_id,
                    seq![(slot % 256) as u8, (slot / 256) as u8] + data,
                ),
            )
        }),
{
    if data.len() > 0 {
        let cid = slot as nat;
        assert(cid_bytes(cid) =~= seq![(slot % 256) as u8, (slot / 256) as u8]);
        let ps = tdata_payloads(cid, data);
        assert(data.take(data.len() as int) =~= data);
        assert(data.skip(data.len() as int) =~= Seq::empty());
        assert(tdata_payloads(cid, Seq::empty()) =~= Seq::empty());
        assert(ps =~= seq![cid_bytes(cid) + data]);
        assert(ps.skip(1) =~= Seq::empty());
        let first = tx_queue::enqueued(queue, frame::frame_bytes(F_TDATA, ch_id, ps[0]));
        assert(all_enqueued(first, F_TDATA, ch_id, ps.skip(1)) == first);
    }
}

/// The registration of a connection is brought in line: it waits for data just
/// where it is neither suspended nor only drained, and for room just where it
/// has something to write or is being made; nothing else changes.
pub proof fn law_connection_is_brought_in_line(
    m: TableModel,
    slot: int,
    before: Option<Interest>,
    queue: Seq<u8>,
)
    requires
        m.wf(),
        0 <= slot < MAX_TCP_CONNS,
        m.conns[slot] matches Some(c) && before is Some == c.in_sel,
    ensures
        ({
            let c = m.conns[slot]->Some_0;
            let e = m.resynced(slot, queue);
            let read = !m.bp_paused && !c.close_pending;
            let write = c.txbuf.len() > 0 || c.connecting;
            &&& e.ch == (TableModel {
                conns: m.conns.update(slot, Some(ConnModel { in_sel: read || write, ..c })),
                ..m
            })
            &&& e.queue == queue && e.step == Step::Done
            &&& io::leaves_waiting(before, e.actions, m.token(slot), read, write)
        }),
{
    let c = m.conns[slot]->Some_0;
    io::law_registration_is_brought_in_line(
        m.token(slot),
        !m.bp_paused && !c.close_pending,
        c.txbuf.len() > 0 || c.connecting,
        before,
        m.token(slot),
    );
}

} // verus!
