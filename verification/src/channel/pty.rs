//! Host-side MCU channel: PTY to and from `F_DATA` frames.

use super::io::{drop_front, sync_registration, Action, Effect, Step};
use super::token::{primary_token, MAX_CHANNEL_ID};
use crate::protocol::{build_frame, TxQueue, F_DATA, F_FLUSH, F_READY};
use crate::serial::{ReadOutcome, WriteOutcome, EIO};
#[allow(unused_imports)]
use super::io::Interest;
#[allow(unused_imports)]
use super::{io, token};
#[allow(unused_imports)]
use crate::protocol::{frame, tx_queue};
use vstd::prelude::*;

verus! {

/// What became of the attempt to open a PTY and expose it.
#[derive(Debug, Clone, Copy, PartialEq, Eq, Structural)]
pub enum PtyOutcome {
    /// No pair could be opened.
    OpenFailed,
    /// The pair was opened, but its slave has no name.
    NameFailed,
    /// The pair was opened, but the symlink could not be made.
    SymlinkFailed,
    /// The pair is open, and the symlink leads to its slave.
    Opened,
}

/// Host-side MCU channel.
///
/// Opens a PTY pair and exposes the slave via a well-known symlink so Klipper
/// can connect with `serial: /tmp/klipper_mcu`.  Forwards PTY master reads as
/// `F_DATA` frames and writes incoming `F_DATA` payloads to the master.
///
/// The PTY is opened on receipt of `F_READY` and closed on `F_FLUSH` or link
/// disconnect.
pub struct PtyChannel {
    ch_id: u8,
    symlink: String,
    baud: u32,
    /// The PTY pair is open.
    open: bool,
    /// The master is registered for events.
    in_sel: bool,
    /// Bytes to write to the PTY master (from the link).
    txbuf: Vec<u8>,
    bp_paused: bool,
}

/// The value of a [`PtyChannel`].
#[verifier::ext_equal]
pub struct PtyModel {
    pub ch_id: u8,
    pub symlink: Seq<char>,
    pub baud: u32,
    pub open: bool,
    pub in_sel: bool,
    pub txbuf: Seq<u8>,
    pub bp_paused: bool,
}

impl View for PtyChannel {
    type V = PtyModel;

    closed spec fn view(&self) -> PtyModel {
        PtyModel {
            ch_id: self.ch_id,
            symlink: self.symlink@,
            baud: self.baud,
            open: self.open,
            in_sel: self.in_sel,
            txbuf: self.txbuf@,
            bp_paused: self.bp_paused,
        }
    }
}

impl PtyModel {
    /// The channel has a token, only an open PTY is registered or has bytes
    /// pending, and an open PTY that is not paused is always registered.
    pub open spec fn wf(self) -> bool {
        &&& self.ch_id <= MAX_CHANNEL_ID
        &&& self.in_sel ==> self.open
        &&& self.open && !self.bp_paused ==> self.in_sel
        &&& !self.open ==> self.txbuf.len() == 0
    }

    /// The channel with its registration brought in line: reads unless paused,
    /// writes while bytes are pending.
    pub open spec fn synced(self) -> PtyModel {
        if self.open {
            PtyModel { in_sel: !self.bp_paused || self.txbuf.len() > 0, ..self }
        } else {
            self
        }
    }

    /// The order that does so.
    pub open spec fn sync_actions(self) -> Seq<Action> {
        if self.open {
            io::sync_actions(
                token::primary(self.ch_id),
                io::interest_for(!self.bp_paused, self.txbuf.len() > 0),
                self.in_sel,
            )
        } else {
            Seq::empty()
        }
    }

    /// The channel with its PTY closed.
    pub open spec fn closed(self) -> PtyModel {
        PtyModel { open: false, in_sel: false, txbuf: Seq::empty(), ..self }
    }

    /// The orders that close the PTY and take its symlink away.
    pub open spec fn close_actions(self) -> Seq<Action> {
        let t = token::primary(self.ch_id);
        if self.open && self.in_sel {
            seq![Action::Deregister(t), Action::Close(t), Action::RemoveSymlink(t)]
        } else if self.open {
            seq![Action::Close(t), Action::RemoveSymlink(t)]
        } else {
            seq![Action::RemoveSymlink(t)]
        }
    }

    /// The write that a writable event calls for.
    pub open spec fn write_step(self, writable: bool) -> Step {
        if writable && self.open && self.txbuf.len() > 0 {
            Step::Write(token::primary(self.ch_id))
        } else {
            Step::Done
        }
    }

    /// What readiness comes to: a read, or else a write.
    pub open spec fn on_ready(self, readable: bool, writable: bool, queue: Seq<u8>) -> Effect<
        PtyModel,
    > {
        Effect {
            ch: self,
            queue,
            actions: Seq::empty(),
            step: if readable && self.open {
                Step::Read(token::primary(self.ch_id))
            } else {
                self.write_step(writable)
            },
        }
    }

    /// What a read of the PTY comes to.  The error code of a vanished far side
    /// says that Klipper disconnected.
    pub open spec fn on_read(
        self,
        writable: bool,
        read: ReadOutcome,
        queue: Seq<u8>,
    ) -> Effect<PtyModel> {
        match read {
            ReadOutcome::Data(data) if self.open && data@.len() > 0 => Effect {
                ch: self,
                queue: tx_queue::enqueued(
                    queue,
                    frame::frame_bytes(F_DATA, self.ch_id, data@),
                ),
                actions: Seq::empty(),
                step: self.write_step(writable),
            },
            ReadOutcome::Failed(code) if self.open && code == EIO => self.on_close(queue),
            _ => Effect {
                ch: self,
                queue,
                actions: Seq::empty(),
                step: self.write_step(writable),
            },
        }
    }

    /// The pending bytes after a write to the PTY.
    pub open spec fn unwritten(self, write: WriteOutcome) -> Seq<u8> {
        match write {
            WriteOutcome::Written(n) => self.txbuf.skip(n as int),
            WriteOutcome::WouldBlock => self.txbuf,
            WriteOutcome::Failed(_) => Seq::empty(),
        }
    }

    /// What a frame from the exporter comes to.
    pub open spec fn on_frame(self, ftype: u8, payload: Seq<u8>, queue: Seq<u8>) -> Effect<
        PtyModel,
    > {
        if ftype == F_FLUSH {
            self.on_close(queue)
        } else if ftype == F_READY && !self.open {
            Effect {
                ch: self,
                queue,
                actions: Seq::empty(),
                step: Step::OpenPty(token::primary(self.ch_id)),
            }
        } else if ftype == F_DATA && self.open {
            let ch = PtyModel { txbuf: self.txbuf + payload, ..self };
            Effect { ch, queue, actions: Seq::empty(), step: ch.write_step(true) }
        } else {
            Effect { ch: self, queue, actions: Seq::empty(), step: Step::Done }
        }
    }

    /// What a write to the PTY comes to.
    pub open spec fn on_write(self, write: WriteOutcome, queue: Seq<u8>) -> Effect<PtyModel> {
        if self.open && self.txbuf.len() > 0 {
            let m = PtyModel { txbuf: self.unwritten(write), ..self };
            Effect { ch: m.synced(), queue, actions: m.sync_actions(), step: Step::Done }
        } else {
            Effect { ch: self, queue, actions: Seq::empty(), step: Step::Done }
        }
    }

    /// What the attempt to open a PTY comes to.  A pair that could not be
    /// exposed is closed again.
    pub open spec fn on_opened(self, outcome: PtyOutcome, queue: Seq<u8>) -> Effect<PtyModel> {
        match outcome {
            PtyOutcome::Opened => {
                let m = PtyModel { open: true, in_sel: false, ..self };
                Effect { ch: m.synced(), queue, actions: m.sync_actions(), step: Step::Done }
            },
            PtyOutcome::OpenFailed => Effect {
                ch: self,
                queue,
                actions: Seq::empty(),
                step: Step::Done,
            },
            _ => Effect {
                ch: self,
                queue,
                actions: seq![Action::Close(token::primary(self.ch_id))],
                step: Step::Done,
            },
        }
    }

    /// The PTY is closed.
    pub open spec fn on_close(self, queue: Seq<u8>) -> Effect<PtyModel> {
        Effect { ch: self.closed(), queue, actions: self.close_actions(), step: Step::Done }
    }

    /// Reads are suspended or resumed.
    pub open spec fn on_pause(self, paused: bool, queue: Seq<u8>) -> Effect<PtyModel> {
        if self.bp_paused == paused {
            Effect { ch: self, queue, actions: Seq::empty(), step: Step::Done }
        } else {
            let m = PtyModel { bp_paused: paused, ..self };
            Effect { ch: m.synced(), queue, actions: m.sync_actions(), step: Step::Done }
        }
    }
}

impl PtyChannel {
    /// Create a new PTY channel.  The symlink is removed if it already exists.
    pub fn new(ch_id: u8, symlink: String, baud: u32, out: &mut Vec<Action>) -> (ch: Self)
        requires
            ch_id <= MAX_CHANNEL_ID,
        ensures
            ch@.wf(),
            ch@ == (PtyModel {
                ch_id,
                symlink: symlink@,
                baud,
                open: false,
                in_sel: false,
                txbuf: Seq::empty(),
                bp_paused: false,
            }),
            final(out)@ == old(out)@.push(Action::RemoveSymlink(token::primary(ch_id))),
    {
        out.push(Action::RemoveSymlink(primary_token(ch_id)));
        let ch = PtyChannel {
            ch_id,
            symlink,
            baud,
            open: false,
            in_sel: false,
            txbuf: Vec::new(),
            bp_paused: false,
        };
        assert(ch@.txbuf =~= Seq::empty());
        ch
    }

    /// The wire channel id.
    pub fn channel_id(&self) -> (id: u8)
        ensures
            id == self@.ch_id,
    {
        self.ch_id
    }

    /// The path of the symlink.
    pub fn symlink(&self) -> (path: &str)
        ensures
            path@ == self@.symlink,
    {
        self.symlink.as_str()
    }

    /// The line speed of the PTY.
    pub fn baud(&self) -> (baud: u32)
        ensures
            baud == self@.baud,
    {
        self.baud
    }

    /// The attempt to open the PTY is over.  A pair that could not be exposed
    /// is closed again.
    pub fn open_pty(&mut self, outcome: PtyOutcome, out: &mut Vec<Action>)
        requires
            old(self)@.wf(),
            !old(self)@.open,
        ensures
            final(self)@.wf(),
            ({
                let e = old(self)@.on_opened(outcome, Seq::empty());
                &&& final(self)@ == e.ch
                &&& final(out)@ == old(out)@ + e.actions
            }),
    {
        proof {
            assert(old(out)@ + Seq::<Action>::empty() =~= old(out)@);
        }
        match outcome {
            PtyOutcome::Opened => {
                self.open = true;
                self.in_sel = false;
                self.update_interest(out);
            },
            PtyOutcome::OpenFailed => {},
            _ => {
                out.push(Action::Close(primary_token(self.ch_id)));
                assert(out@ =~= old(out)@ + seq![Action::Close(token::primary(self.ch_id))]);
            },
        }
    }

    /// Close the PTY and remove its symlink.
    pub fn close_pty(&mut self, out: &mut Vec<Action>)
        requires
            old(self)@.wf(),
        ensures
            final(self)@.wf(),
            ({
                let e = old(self)@.on_close(Seq::empty());
                &&& final(self)@ == e.ch
                &&& final(out)@ == old(out)@ + e.actions
            }),
    {
        let t = primary_token(self.ch_id);
        if self.open {
            if self.in_sel {
                out.push(Action::Deregister(t));
            }
            out.push(Action::Close(t));
        }
        self.open = false;
        self.in_sel = false;
        self.txbuf = Vec::new();
        out.push(Action::RemoveSymlink(t));
        assert(self@.txbuf =~= Seq::empty());
        assert(out@ =~= old(out)@ + old(self)@.close_actions());
    }

    fn update_interest(&mut self, out: &mut Vec<Action>)
        requires
            old(self)@.ch_id <= MAX_CHANNEL_ID,
        ensures
            final(self)@ == old(self)@.synced(),
            final(out)@ == old(out)@ + old(self)@.sync_actions(),
    {
        if self.open {
            self.in_sel = sync_registration(
                primary_token(self.ch_id),
                !self.bp_paused,
                self.txbuf.len() > 0,
                self.in_sel,
                out,
            );
        }
        assert(out@ =~= old(out)@ + old(self)@.sync_actions());
    }

    /// An event fired for the PTY: the read it calls for, or else the write.
    pub fn handle_event(&self, readable: bool, writable: bool) -> (step: Step)
        requires
            self@.wf(),
        ensures
            step == self@.on_ready(readable, writable, Seq::empty()).step,
    {
        if readable && self.open {
            Step::Read(primary_token(self.ch_id))
        } else {
            self.next_write(writable)
        }
    }

    fn next_write(&self, writable: bool) -> (step: Step)
        requires
            self@.wf(),
        ensures
            step == self@.write_step(writable),
    {
        if writable && self.open && self.txbuf.len() > 0 {
            Step::Write(primary_token(self.ch_id))
        } else {
            Step::Done
        }
    }

    /// The PTY master was read.
    pub fn pty_read(
        &mut self,
        writable: bool,
        read: ReadOutcome,
        txq: &mut TxQueue,
        out: &mut Vec<Action>,
    ) -> (step: Step)
        requires
            old(self)@.wf(),
            old(txq).wf(),
        ensures
            final(self)@.wf(),
            final(txq).wf(),
            ({
                let e = old(self)@.on_read(writable, read, old(txq)@);
                &&& final(self)@ == e.ch
                &&& final(txq)@ == e.queue
                &&& final(out)@ == old(out)@ + e.actions
                &&& step == e.step
            }),
    {
        proof {
            assert(old(out)@ + Seq::<Action>::empty() =~= old(out)@);
        }
        if !self.open {
            return self.next_write(writable);
        }
        match read {
            ReadOutcome::Data(data) => {
                if data.len() > 0 {
                    let frame: Vec<u8> = build_frame(F_DATA, self.ch_id, data);
                    txq.enqueue(&frame);
                }
            },
            ReadOutcome::WouldBlock => {},
            ReadOutcome::Failed(code) => {
                // All slave descriptors closed: Klipper disconnected.
                if code == EIO {
                    self.close_pty(out);
                    return Step::Done;
                }
            },
        }
        self.next_write(writable)
    }

    /// The bytes that wait to be written to the PTY master.
    pub fn pending(&self) -> (bytes: &[u8])
        ensures
            bytes@ == self@.txbuf,
    {
        self.txbuf.as_slice()
    }

    /// The pending bytes were offered to the PTY master.
    pub fn pty_drain(&mut self, write: WriteOutcome, out: &mut Vec<Action>)
        requires
            old(self)@.wf(),
            write matches WriteOutcome::Written(n) ==> n <= old(self)@.txbuf.len(),
        ensures
            final(self)@.wf(),
            ({
                let e = old(self)@.on_write(write, Seq::empty());
                &&& final(self)@ == e.ch
                &&& final(out)@ == old(out)@ + e.actions
            }),
    {
        proof {
            assert(old(out)@ + Seq::<Action>::empty() =~= old(out)@);
        }
        if !self.open || self.txbuf.len() == 0 {
            return ;
        }
        match write {
            WriteOutcome::Written(n) => {
                drop_front(&mut self.txbuf, n);
            },
            WriteOutcome::WouldBlock => {},
            WriteOutcome::Failed(_) => {
                self.txbuf = Vec::new();
                assert(self@.txbuf =~= Seq::empty());
            },
        }
        self.update_interest(out);
    }

    /// A frame arrived from the far side of the link.
    pub fn on_frame(&mut self, ftype: u8, payload: &[u8], out: &mut Vec<Action>) -> (step: Step)
        requires
            old(self)@.wf(),
        ensures
            final(self)@.wf(),
            ({
                let e = old(self)@.on_frame(ftype, payload@, Seq::empty());
                &&& final(self)@ == e.ch
                &&& final(out)@ == old(out)@ + e.actions
                &&& step == e.step
            }),
    {
        proof {
            assert(old(out)@ + Seq::<Action>::empty() =~= old(out)@);
        }
        if ftype == F_FLUSH {
            self.close_pty(out);
        } else if ftype == F_READY {
            if !self.open {
                return Step::OpenPty(primary_token(self.ch_id));
            }
        } else if ftype == F_DATA {
            if self.open {
                self.txbuf.extend_from_slice(payload);
                assert(self@.txbuf =~= old(self)@.txbuf + payload@);
                return self.next_write(true);
            }
        }
        Step::Done
    }

    /// The link just completed its handshake: stay closed until the exporter
    /// sends `F_READY`.
    pub fn on_link_connect(&mut self, out: &mut Vec<Action>)
        requires
            old(self)@.wf(),
        ensures
            final(self)@.wf(),
            ({
                let e = old(self)@.on_close(Seq::empty());
                &&& final(self)@ == e.ch
                &&& final(out)@ == old(out)@ + e.actions
            }),
    {
        self.close_pty(out);
    }

    /// The link dropped.
    pub fn on_link_disconnect(&mut self, out: &mut Vec<Action>)
        requires
            old(self)@.wf(),
        ensures
            final(self)@.wf(),
            ({
                let e = old(self)@.on_close(Seq::empty());
                &&& final(self)@ == e.ch
                &&& final(out)@ == old(out)@ + e.actions
            }),
    {
        self.close_pty(out);
    }

    /// Suspend inbound reads (backpressure: link TX queue above high-water).
    pub fn pause_source_reads(&mut self, out: &mut Vec<Action>)
        requires
            old(self)@.wf(),
        ensures
            final(self)@.wf(),
            ({
                let e = old(self)@.on_pause(true, Seq::empty());
                &&& final(self)@ == e.ch
                &&& final(out)@ == old(out)@ + e.actions
            }),
    {
        proof {
            assert(old(out)@ + Seq::<Action>::empty() =~= old(out)@);
        }
        if !self.bp_paused {
            self.bp_paused = true;
            self.update_interest(out);
        }
    }

    /// Resume inbound reads (link TX queue drained below low-water).
    pub fn resume_source_reads(&mut self, out: &mut Vec<Action>)
        requires
            old(self)@.wf(),
        ensures
            final(self)@.wf(),
            ({
                let e = old(self)@.on_pause(false, Seq::empty());
                &&& final(self)@ == e.ch
                &&& final(out)@ == old(out)@ + e.actions
            }),
    {
        proof {
            assert(old(out)@ + Seq::<Action>::empty() =~= old(out)@);
        }
        if self.bp_paused {
            self.bp_paused = false;
            self.update_interest(out);
        }
    }
}

/// The PTY follows the MCU: it is asked for when the MCU is ready and it is not
/// open, and closed, with whatever was pending, when the MCU resets.
pub proof fn law_pty_follows_the_mcu(m: PtyModel, payload: Seq<u8>, queue: Seq<u8>)
    requires
        m.wf(),
    ensures
        m.on_frame(F_READY, payload, queue).step == (if m.open {
            Step::Done
        } else {
            Step::OpenPty(token::primary(m.ch_id))
        }),
        !m.on_frame(F_FLUSH, payload, queue).ch.open,
        m.on_frame(F_FLUSH, payload, queue).ch.txbuf.len() == 0,
        m.on_frame(F_FLUSH, payload, queue).actions == m.close_actions(),
{
}

/// A write to the PTY takes bytes off the front of what is pending, and no
/// others: all but the first `n` stay where it took `n`, all of them where it
/// would have blocked; an error drops them.  The PTY then waits for room just
/// while bytes are pending.
pub proof fn law_pty_write_takes_bytes_off(
    m: PtyModel,
    before: Option<Interest>,
    write: WriteOutcome,
    queue: Seq<u8>,
)
    requires
        m.wf(),
        m.open,
        m.txbuf.len() > 0,
        before is Some == m.in_sel,
        write matches WriteOutcome::Written(n) ==> n <= m.txbuf.len(),
    ensures
        ({
            let e = m.on_write(write, queue);
            &&& e.ch == (PtyModel { txbuf: e.ch.txbuf, in_sel: e.ch.in_sel, ..m })
            &&& match write {
                WriteOutcome::Written(n) => m.txbuf == m.txbuf.take(n as int) + e.ch.txbuf,
                WriteOutcome::WouldBlock => e.ch.txbuf == m.txbuf,
                WriteOutcome::Failed(_) => e.ch.txbuf.len() == 0,
            }
            &&& e.queue == queue && e.step == Step::Done
            &&& io::leaves_waiting(
                before,
                e.actions,
                token::primary(m.ch_id),
                !m.bp_paused,
                e.ch.txbuf.len() > 0,
            )
            &&& e.ch.in_sel == (!m.bp_paused || e.ch.txbuf.len() > 0)
        }),
{
    let e = m.on_write(write, queue);
    if let WriteOutcome::Written(n) = write {
        assert(m.txbuf =~= m.txbuf.take(n as int) + m.txbuf.skip(n as int));
    }
    io::law_registration_is_brought_in_line(
        token::primary(m.ch_id),
        !m.bp_paused,
        e.ch.txbuf.len() > 0,
        before,
        token::primary(m.ch_id),
    );
}

/// Data from the exporter is pending for Klipper behind what was, and is to be
/// written, while the PTY is open; while it is not, it is dropped.
pub proof fn law_pty_takes_data(m: PtyModel, payload: Seq<u8>, queue: Seq<u8>)
    ensures
        ({
            let e = m.on_frame(F_DATA, payload, queue);
            &&& e.ch == (PtyModel {
                txbuf: if m.open {
                    m.txbuf + payload
                } else {
                    m.txbuf
                },
                ..m
            })
            &&& e.queue == queue && e.actions.len() == 0
            &&& e.step == (if m.open && m.txbuf.len() + payload.len() > 0 {
                Step::Write(token::primary(m.ch_id))
            } else {
                Step::Done
            })
        }),
{
}

/// A frame of another kind than data, ready and flush is nothing to a PTY; and
/// that the MCU is ready changes nothing yet.
pub proof fn law_pty_ignores_other_frames(
    m: PtyModel,
    ftype: u8,
    payload: Seq<u8>,
    queue: Seq<u8>,
)
    requires
        ftype != F_DATA,
        ftype != F_FLUSH,
    ensures
        ({
            let e = m.on_frame(ftype, payload, queue);
            &&& e.ch == m && e.queue == queue && e.actions.len() == 0
            &&& ftype != F_READY ==> e.step == Step::Done
        }),
{
}

/// What Klipper writes is forwarded as it came, in one frame of the channel;
/// a read that brings nothing changes nothing.
pub proof fn law_klipper_is_forwarded(
    m: PtyModel,
    writable: bool,
    read: ReadOutcome,
    queue: Seq<u8>,
)
    requires
        !(read is Failed),
    ensures
        ({
            let e = m.on_read(writable, read, queue);
            &&& e.ch == m
            &&& e.actions.len() == 0
            &&& e.queue == (match read {
                ReadOutcome::Data(d) if m.open && d@.len() > 0 => tx_queue::enqueued(
                    queue,
                    frame::frame_bytes(F_DATA, m.ch_id, d@),
                ),
                _ => queue,
            })
            &&& e.step == (if writable && m.open && m.txbuf.len() > 0 {
                Step::Write(token::primary(m.ch_id))
            } else {
                Step::Done
            })
        }),
{
}

/// When Klipper leaves, which the error code 5 says, the PTY is closed; any
/// other error leaves it as it was.
pub proof fn law_pty_closes_when_klipper_leaves(
    m: PtyModel,
    writable: bool,
    code: i32,
    queue: Seq<u8>,
)
    requires
        m.wf(),
        m.open,
    ensures
        ({
            let e = m.on_read(writable, ReadOutcome::Failed(code), queue);
            &&& e.queue == queue
            &&& e.ch.open == (code != 5)
            &&& code == 5 ==> e.step == Step::Done && e.actions.len() > 0 && e.actions
                == m.on_close(queue).actions
            &&& code != 5 ==> e.ch == m && e.actions.len() == 0
        }),
{
}

/// A PTY is closed whole: nothing waits for it any more, its symlink is taken
/// away, what was pending is dropped, and the rest stays.
pub proof fn law_pty_is_closed(m: PtyModel, queue: Seq<u8>)
    requires
        m.wf(),
    ensures
        ({
            let me = token::primary(m.ch_id);
            let e = m.on_close(queue);
            &&& e.ch == (PtyModel { open: false, in_sel: false, txbuf: Seq::empty(), ..m })
            &&& e.queue == queue && e.step == Step::Done
            &&& e.actions == (if m.in_sel {
                seq![Action::Deregister(me), Action::Close(me), Action::RemoveSymlink(me)]
            } else if m.open {
                seq![Action::Close(me), Action::RemoveSymlink(me)]
            } else {
                seq![Action::RemoveSymlink(me)]
            })
            &&& m.on_frame(F_FLUSH, Seq::empty(), queue) == e
        }),
{
}

/// A PTY that was opened and exposed is open and waits for what is wanted of
/// it; one that was opened but could not be exposed is closed again; otherwise
/// nothing happens.
pub proof fn law_pty_is_opened(m: PtyModel, outcome: PtyOutcome, queue: Seq<u8>)
    requires
        m.wf(),
        !m.open,
    ensures
        ({
            let me = token::primary(m.ch_id);
            let e = m.on_opened(outcome, queue);
            &&& e.queue == queue && e.step == Step::Done
            &&& e.ch.open == (outcome == PtyOutcome::Opened)
            &&& e.ch == (PtyModel { open: e.ch.open, in_sel: e.ch.in_sel, ..m })
            &&& outcome == PtyOutcome::Opened ==> io::leaves_waiting(
                None,
                e.actions,
                me,
                !m.bp_paused,
                false,
            ) && e.ch.in_sel == !m.bp_paused
            &&& outcome == PtyOutcome::OpenFailed ==> e.actions.len() == 0 && e.ch == m
            &&& outcome == PtyOutcome::NameFailed || outcome == PtyOutcome::SymlinkFailed
                ==> e.actions == seq![Action::Close(me)] && e.ch == m
        }),
{
    io::law_registration_is_brought_in_line(
        token::primary(m.ch_id),
        !m.bp_paused,
        false,
        None,
        token::primary(m.ch_id),
    );
}

/// Backpressure suspends the reads of the PTY and nothing else: once paused, it
/// does not wait for data, resumed it does, and either way it waits for room
/// just while bytes are pending.  To pause and to resume leaves the channel as
/// it was.
pub proof fn law_pty_reads_are_suspended(
    m: PtyModel,
    before: Option<Interest>,
    paused: bool,
    queue: Seq<u8>,
)
    requires
        m.wf(),
        m.open,
        m.bp_paused != paused,
        before is Some == m.in_sel,
    ensures
        ({
            let e = m.on_pause(paused, queue);
            &&& e.ch == (PtyModel { bp_paused: paused, in_sel: e.ch.in_sel, ..m })
            &&& e.queue == queue && e.step == Step::Done
            &&& io::leaves_waiting(
                before,
                e.actions,
                token::primary(m.ch_id),
                !paused,
                m.txbuf.len() > 0,
            )
            &&& e.ch.in_sel == (!paused || m.txbuf.len() > 0)
            &&& paused ==> e.ch.on_pause(false, queue).ch == m
            &&& e.ch.on_pause(paused, queue).ch == e.ch && e.ch.on_pause(
                paused,
                queue,
            ).actions.len() == 0
        }),
{
    io::law_registration_is_brought_in_line(
        token::primary(m.ch_id),
        !paused,
        m.txbuf.len() > 0,
        before,
        token::primary(m.ch_id),
    );
}

/// A ready PTY is read first, and else written where bytes are pending; one
/// that is not open is neither.
pub proof fn law_ready_pty_is_served(m: PtyModel, readable: bool, writable: bool, queue: Seq<u8>)
    ensures
        ({
            let me = token::primary(m.ch_id);
            let e = m.on_ready(readable, writable, queue);
            &&& e.ch == m && e.queue == queue && e.actions.len() == 0
            &&& e.step == (if !m.open {
                Step::Done
            } else if readable {
                Step::Read(me)
            } else if writable && m.txbuf.len() > 0 {
                Step::Write(me)
            } else {
                Step::Done
            })
        }),
{
}

} // verus!
