//! Exporter-side MCU channel: UART to and from `F_DATA` frames.

use super::io::{drop_front, sync_registration, Action, Effect, Step};
use super::token::{primary_token, MAX_CHANNEL_ID};
use crate::protocol::{
    build_frame, TxQueue, F_DATA, F_FLUSH, F_READY, KLIPPER_SYNC,
};
use crate::serial::{ReadOutcome, WriteOutcome};
use crate::time::{SECOND, TIME_LIMIT};
#[allow(unused_imports)]
use super::io::Interest;
#[allow(unused_imports)]
use super::{io, token};
#[allow(unused_imports)]
use crate::protocol::{frame, tx_queue, CRC_SIZE, HDR_SIZE, LINK_HIGH_WATER, MAX_PAYLOAD};
use vstd::prelude::*;

verus! {

/// How long the MCU must be silent before we declare a reset.
pub const RESET_SILENCE: u64 = 5 * SECOND;

/// How long to wait before re-opening a UART that could not be opened.
pub const REOPEN_DELAY: u64 = 2 * SECOND;

/// How long to wait before re-opening a UART that failed.
pub const ERROR_REOPEN_DELAY: u64 = SECOND;

/// MCU state machine.
#[derive(Debug, Clone, Copy, PartialEq, Eq, Structural)]
pub enum McuState {
    /// Initial / waiting for Klipper sync byte.
    Init,
    /// Klipper is running; forward all UART bytes.
    Active,
    /// MCU reset detected (silence timeout); drain and wait for sync.
    Resetting,
}

/// Exporter-side MCU channel.
///
/// Reads bytes from a hardware UART and forwards them to the host as `F_DATA`
/// frames.  Waits for Klipper's sync byte (`0x7E`) before declaring the MCU
/// active, and transitions back to `Resetting` after [`RESET_SILENCE`] of
/// silence.
pub struct McuChannel {
    ch_id: u8,
    device: String,
    baud: u32,
    state: McuState,
    /// The UART is open.
    open: bool,
    /// The UART is registered for events.
    in_sel: bool,
    /// Pending bytes to write to the UART (from the host).
    txbuf: Vec<u8>,
    last_rx: Option<u64>,
    reopen_at: Option<u64>,
    bp_paused: bool,
    link_up: bool,
}

/// The value of an [`McuChannel`].
#[verifier::ext_equal]
pub struct McuModel {
    pub ch_id: u8,
    pub device: Seq<char>,
    pub baud: u32,
    pub state: McuState,
    pub open: bool,
    pub in_sel: bool,
    pub txbuf: Seq<u8>,
    pub last_rx: Option<u64>,
    pub reopen_at: Option<u64>,
    pub bp_paused: bool,
    pub link_up: bool,
}

impl View for McuChannel {
    type V = McuModel;

    closed spec fn view(&self) -> McuModel {
        McuModel {
            ch_id: self.ch_id,
            device: self.device@,
            baud: self.baud,
            state: self.state,
            open: self.open,
            in_sel: self.in_sel,
            txbuf: self.txbuf@,
            last_rx: self.last_rx,
            reopen_at: self.reopen_at,
            bp_paused: self.bp_paused,
            link_up: self.link_up,
        }
    }
}

/// The bytes of a string from the first sync byte on.
pub open spec fn from_sync(data: Seq<u8>) -> Seq<u8>
    decreases data.len(),
{
    if data.len() == 0 || data[0] == KLIPPER_SYNC {
        data
    } else {
        from_sync(data.skip(1))
    }
}

impl McuModel {
    /// The channel has a token, its times lie within the clock's range, only
    /// an open UART is registered, and an open UART that is not paused always
    /// is.
    pub open spec fn wf(self) -> bool {
        &&& self.ch_id <= MAX_CHANNEL_ID
        &&& self.last_rx matches Some(t) ==> t <= TIME_LIMIT
        &&& self.in_sel ==> self.open
        &&& self.open && !self.bp_paused ==> self.in_sel
    }

    /// The queue with an empty frame of this channel pushed.
    pub open spec fn announced(self, ftype: u8, queue: Seq<u8>) -> Seq<u8> {
        if self.link_up {
            tx_queue::enqueued(queue, frame::frame_bytes(ftype, self.ch_id, Seq::empty()))
        } else {
            queue
        }
    }

    /// The queue with data of this channel pushed.
    pub open spec fn forwarded(self, data: Seq<u8>, queue: Seq<u8>) -> Seq<u8> {
        if self.link_up {
            tx_queue::enqueued(queue, frame::frame_bytes(F_DATA, self.ch_id, data))
        } else {
            queue
        }
    }

    /// The channel with its registration brought in line: reads unless paused,
    /// writes while bytes are pending.
    pub open spec fn synced(self) -> McuModel {
        if self.open {
            McuModel { in_sel: !self.bp_paused || self.txbuf.len() > 0, ..self }
        } else {
            self
        }
    }

    /// The order that does so.
    pub open spec fn sync_actions(self) -> Seq<Action> {
        if self.open {
            io::sync_actions(
                token::primary(self.ch_id),
                io::interest_for(!self.bp_paused, self.txbuf.len() > 0),
                self.in_sel,
            )
        } else {
            Seq::empty()
        }
    }

    /// The channel with its UART closed.
    pub open spec fn closed(self) -> McuModel {
        McuModel { open: false, in_sel: false, ..self }
    }

    /// The orders that close the UART.
    pub open spec fn close_actions(self) -> Seq<Action> {
        let t = token::primary(self.ch_id);
        if self.open && self.in_sel {
            seq![Action::Deregister(t), Action::Close(t)]
        } else if self.open {
            seq![Action::Close(t)]
        } else {
            Seq::empty()
        }
    }

    /// The channel in another state.  Whatever was pending is dropped when the
    /// MCU resets.
    pub open spec fn entered(self, state: McuState) -> McuModel {
        if state == McuState::Resetting && self.state != McuState::Resetting {
            McuModel { state, last_rx: None, txbuf: Seq::empty(), ..self }
        } else {
            McuModel { state, ..self }
        }
    }

    /// The queue after the change of state was announced to the host.
    pub open spec fn entered_queue(self, state: McuState, queue: Seq<u8>) -> Seq<u8> {
        if state == self.state {
            queue
        } else {
            match state {
                McuState::Resetting => self.announced(F_FLUSH, queue),
                McuState::Active => self.announced(F_READY, queue),
                McuState::Init => queue,
            }
        }
    }

    /// The write that a writable event calls for.
    pub open spec fn write_step(self, writable: bool) -> Step {
        if writable && self.open && self.txbuf.len() > 0 {
            Step::Write(token::primary(self.ch_id))
        } else {
            Step::Done
        }
    }

    /// What bytes from the UART come to.
    pub open spec fn received(self, data: Seq<u8>, now: u64) -> McuModel {
        let heard = McuModel { last_rx: Some(now), ..self };
        if self.state == McuState::Active || from_sync(data).len() == 0 {
            heard
        } else {
            heard.entered(McuState::Active)
        }
    }

    /// What bytes from the UART put on the queue: all of them while Klipper
    /// runs; otherwise, from the sync byte on, what follows the announcement
    /// that it does.
    pub open spec fn received_queue(self, data: Seq<u8>, queue: Seq<u8>) -> Seq<u8> {
        if self.state == McuState::Active {
            self.forwarded(data, queue)
        } else if from_sync(data).len() == 0 {
            queue
        } else {
            self.forwarded(from_sync(data), self.announced(F_READY, queue))
        }
    }

    /// What readiness comes to: a read, or else a write.
    pub open spec fn on_ready(self, readable: bool, writable: bool, queue: Seq<u8>) -> Effect<
        McuModel,
    > {
        Effect {
            ch: self,
            queue,
            actions: Seq::empty(),
            step: if readable && self.open {
                Step::Read(token::primary(self.ch_id))
            } else {
                self.write_step(writable)
            },
        }
    }

    /// What a read of the UART comes to.
    pub open spec fn on_read(
        self,
        writable: bool,
        read: ReadOutcome,
        now: u64,
        queue: Seq<u8>,
    ) -> Effect<McuModel> {
        match read {
            ReadOutcome::Data(data) if self.open && data@.len() > 0 => {
                let ch = self.received(data@, now);
                Effect {
                    ch,
                    queue: self.received_queue(data@, queue),
                    actions: Seq::empty(),
                    step: ch.write_step(writable),
                }
            },
            ReadOutcome::Failed(_) if self.open => Effect {
                ch: McuModel {
                    reopen_at: Some((now + ERROR_REOPEN_DELAY) as u64),
                    ..self.closed().entered(McuState::Resetting)
                },
                queue: self.entered_queue(McuState::Resetting, queue),
                actions: self.close_actions(),
                step: Step::Done,
            },
            _ => Effect {
                ch: self,
                queue,
                actions: Seq::empty(),
                step: self.write_step(writable),
            },
        }
    }

    /// The pending bytes after a write to the UART.
    pub open spec fn unwritten(self, write: WriteOutcome) -> Seq<u8> {
        match write {
            WriteOutcome::Written(n) => self.txbuf.skip(n as int),
            WriteOutcome::WouldBlock => self.txbuf,
            WriteOutcome::Failed(_) => Seq::empty(),
        }
    }

    /// What a frame from the host comes to.  Data is taken only while the UART
    /// is open and Klipper runs.
    pub open spec fn on_frame(self, ftype: u8, payload: Seq<u8>, queue: Seq<u8>) -> Effect<
        McuModel,
    > {
        if ftype == F_DATA && self.open && self.state == McuState::Active {
            let ch = McuModel { txbuf: self.txbuf + payload, ..self };
            Effect { ch, queue, actions: Seq::empty(), step: ch.write_step(true) }
        } else {
            Effect { ch: self, queue, actions: Seq::empty(), step: Step::Done }
        }
    }

    /// What a write to the UART comes to.
    pub open spec fn on_write(self, write: WriteOutcome, queue: Seq<u8>) -> Effect<McuModel> {
        if self.open && self.txbuf.len() > 0 {
            let m = McuModel { txbuf: self.unwritten(write), ..self };
            Effect { ch: m.synced(), queue, actions: m.sync_actions(), step: Step::Done }
        } else {
            Effect { ch: self, queue, actions: Seq::empty(), step: Step::Done }
        }
    }

    /// What the attempt to open the UART comes to.
    pub open spec fn on_opened(self, opened: bool, now: u64, queue: Seq<u8>) -> Effect<McuModel> {
        if opened {
            let m = McuModel { open: true, in_sel: false, ..self };
            Effect { ch: m.synced(), queue, actions: m.sync_actions(), step: Step::Done }
        } else {
            Effect {
                ch: McuModel { reopen_at: Some((now + REOPEN_DELAY) as u64), ..self },
                queue,
                actions: Seq::empty(),
                step: Step::Done,
            }
        }
    }

    /// What the completed handshake of the link comes to: the host is told
    /// whether Klipper runs.
    pub open spec fn on_link_connect(self, queue: Seq<u8>) -> Effect<McuModel> {
        let ch = McuModel { link_up: true, ..self };
        Effect {
            ch,
            queue: ch.announced(
                if self.state == McuState::Active {
                    F_READY
                } else {
                    F_FLUSH
                },
                queue,
            ),
            actions: Seq::empty(),
            step: Step::Done,
        }
    }

    /// What the loss of the link comes to.
    pub open spec fn on_link_disconnect(self, queue: Seq<u8>) -> Effect<McuModel> {
        let m = McuModel { link_up: false, txbuf: Seq::empty(), ..self };
        Effect { ch: m.synced(), queue, actions: m.sync_actions(), step: Step::Done }
    }

    /// What a timer tick comes to.
    pub open spec fn on_tick(self, now: u64, queue: Seq<u8>) -> Effect<McuModel> {
        if self.reopen_due(now) {
            Effect {
                ch: McuModel { reopen_at: None, ..self },
                queue,
                actions: Seq::empty(),
                step: Step::OpenUart(token::primary(self.ch_id)),
            }
        } else if self.is_silent(now) {
            Effect {
                ch: self.entered(McuState::Resetting),
                queue: self.announced(F_FLUSH, queue),
                actions: Seq::empty(),
                step: Step::Done,
            }
        } else {
            Effect { ch: self, queue, actions: Seq::empty(), step: Step::Done }
        }
    }

    /// The UART is closed.
    pub open spec fn on_close(self, queue: Seq<u8>) -> Effect<McuModel> {
        Effect { ch: self.closed(), queue, actions: self.close_actions(), step: Step::Done }
    }

    /// Reads are suspended or resumed.
    pub open spec fn on_pause(self, paused: bool, queue: Seq<u8>) -> Effect<McuModel> {
        if self.bp_paused == paused {
            Effect { ch: self, queue, actions: Seq::empty(), step: Step::Done }
        } else {
            let m = McuModel { bp_paused: paused, ..self };
            Effect { ch: m.synced(), queue, actions: m.sync_actions(), step: Step::Done }
        }
    }

    /// The MCU has been silent for too long.
    pub open spec fn is_silent(self, now: u64) -> bool {
        &&& self.open
        &&& self.state == McuState::Active
        &&& self.last_rx matches Some(t) && now > t + RESET_SILENCE
    }

    /// It is time to open the UART again.
    pub open spec fn reopen_due(self, now: u64) -> bool {
        !self.open && (self.reopen_at matches Some(t) && now >= t)
    }

    /// When the next tick is needed.
    pub open spec fn deadline(self) -> Option<u64> {
        if !self.open {
            self.reopen_at
        } else if self.state == McuState::Active {
            match self.last_rx {
                Some(t) => Some((t + RESET_SILENCE) as u64),
                None => None,
            }
        } else {
            None
        }
    }
}

impl McuChannel {
    /// Create a new MCU channel, whose UART is to be opened at once.
    pub fn new(ch_id: u8, device: String, baud: u32) -> (res: (Self, Step))
        requires
            ch_id <= MAX_CHANNEL_ID,
        ensures
            res.0@.wf(),
            res.0@ == (McuModel {
                ch_id,
                device: device@,
                baud,
                state: McuState::Init,
                open: false,
                in_sel: false,
                txbuf: Seq::empty(),
                last_rx: None,
                reopen_at: None,
                bp_paused: false,
                link_up: false,
            }),
            res.1 == Step::OpenUart(token::primary(ch_id)),
    {
        let ch = McuChannel {
            ch_id,
            device,
            baud,
            state: McuState::Init,
            open: false,
            in_sel: false,
            txbuf: Vec::new(),
            last_rx: None,
            reopen_at: None,
            bp_paused: false,
            link_up: false,
        };
        assert(ch@.txbuf =~= Seq::empty());
        (ch, Step::OpenUart(primary_token(ch_id)))
    }

    /// The wire channel id.
    pub fn channel_id(&self) -> (id: u8)
        ensures
            id == self@.ch_id,
    {
        self.ch_id
    }

    /// The path of the UART.
    pub fn device(&self) -> (path: &str)
        ensures
            path@ == self@.device,
    {
        self.device.as_str()
    }

    /// The line speed of the UART.
    pub fn baud(&self) -> (baud: u32)
        ensures
            baud == self@.baud,
    {
        self.baud
    }

    /// The attempt to open the UART is over.
    pub fn uart_opened(&mut self, opened: bool, now: u64, out: &mut Vec<Action>)
        requires
            old(self)@.wf(),
            now <= TIME_LIMIT,
        ensures
            final(self)@.wf(),
            ({
                let e = old(self)@.on_opened(opened, now, Seq::empty());
                &&& final(self)@ == e.ch
                &&& final(out)@ == old(out)@ + e.actions
            }),
    {
        proof {
            assert(old(out)@ + Seq::<Action>::empty() =~= old(out)@);
        }
        if opened {
            self.open = true;
            self.in_sel = false;
            self.update_interest(out);
        } else {
            self.reopen_at = Some(now + REOPEN_DELAY);
        }
    }

    /// Close the UART.
    pub fn close_uart(&mut self, out: &mut Vec<Action>)
        requires
            old(self)@.wf(),
        ensures
            final(self)@.wf(),
            final(self)@ == old(self)@.closed(),
            final(out)@ == old(out)@ + old(self)@.close_actions(),
    {
        if self.open {
            let t = primary_token(self.ch_id);
            if self.in_sel {
                out.push(Action::Deregister(t));
            }
            out.push(Action::Close(t));
        }
        self.open = false;
        self.in_sel = false;
        assert(out@ =~= old(out)@ + old(self)@.close_actions());
    }

    /// Bring the registration in line with the current channel state.
    fn update_interest(&mut self, out: &mut Vec<Action>)
        requires
            old(self)@.ch_id <= MAX_CHANNEL_ID,
        ensures
            final(self)@ == old(self)@.synced(),
            final(out)@ == old(out)@ + old(self)@.sync_actions(),
    {
        if self.open {
            self.in_sel = sync_registration(
                primary_token(self.ch_id),
                !self.bp_paused,
                self.txbuf.len() > 0,
                self.in_sel,
                out,
            );
        }
        assert(out@ =~= old(out)@ + old(self)@.sync_actions());
    }

    fn transition(&mut self, state: McuState, txq: &mut TxQueue)
        requires
            old(txq).wf(),
        ensures
            final(txq).wf(),
            final(self)@ == old(self)@.entered(state),
            final(txq)@ == old(self)@.entered_queue(state, old(txq)@),
    {
        if state == self.state {
            return ;
        }
        self.state = state;
        match state {
            McuState::Resetting => {
                self.last_rx = None;
                self.txbuf = Vec::new();
                assert(self@.txbuf =~= Seq::empty());
                self.announce(F_FLUSH, txq);
            },
            McuState::Active => {
                self.announce(F_READY, txq);
            },
            McuState::Init => {},
        }
    }

    fn announce(&self, ftype: u8, txq: &mut TxQueue)
        requires
            old(txq).wf(),
        ensures
            final(txq).wf(),
            final(txq)@ == self@.announced(ftype, old(txq)@),
    {
        if self.link_up {
            self.push_empty(ftype, txq);
        }
    }

    fn push_empty(&self, ftype: u8, txq: &mut TxQueue)
        requires
            old(txq).wf(),
        ensures
            final(txq).wf(),
            final(txq)@ == tx_queue::enqueued(
                old(txq)@,
                frame::frame_bytes(ftype, self@.ch_id, Seq::empty()),
            ),
    {
        let empty: Vec<u8> = Vec::new();
        assert(empty@ =~= Seq::empty());
        let frame: Vec<u8> = build_frame(ftype, self.ch_id, &empty);
        txq.enqueue(&frame);
    }

    fn forward(&self, data: &[u8], txq: &mut TxQueue)
        requires
            old(txq).wf(),
        ensures
            final(txq).wf(),
            final(txq)@ == self@.forwarded(data@, old(txq)@),
    {
        if self.link_up {
            let frame: Vec<u8> = build_frame(F_DATA, self.ch_id, data);
            txq.enqueue(&frame);
        }
    }

    /// An event fired for the UART: the read it calls for, or else the write.
    pub fn handle_event(&self, readable: bool, writable: bool) -> (step: Step)
        requires
            self@.wf(),
        ensures
            step == self@.on_ready(readable, writable, Seq::empty()).step,
    {
        if readable && self.open {
            Step::Read(primary_token(self.ch_id))
        } else {
            self.next_write(writable)
        }
    }

    fn next_write(&self, writable: bool) -> (step: Step)
        requires
            self@.wf(),
        ensures
            step == self@.write_step(writable),
    {
        if writable && self.open && self.txbuf.len() > 0 {
            Step::Write(primary_token(self.ch_id))
        } else {
            Step::Done
        }
    }

    /// The UART was read.  Bytes before the first sync byte are bootloader
    /// noise while the MCU is not active, and are discarded.
    pub fn uart_read(
        &mut self,
        writable: bool,
        read: ReadOutcome,
        now: u64,
        txq: &mut TxQueue,
        out: &mut Vec<Action>,
    ) -> (step: Step)
        requires
            old(self)@.wf(),
            old(txq).wf(),
            now <= TIME_LIMIT,
        ensures
            final(self)@.wf(),
            final(txq).wf(),
            ({
                let e = old(self)@.on_read(writable, read, now, old(txq)@);
                &&& final(self)@ == e.ch
                &&& final(txq)@ == e.queue
                &&& final(out)@ == old(out)@ + e.actions
                &&& step == e.step
            }),
    {
        proof {
            assert(old(out)@ + Seq::<Action>::empty() =~= old(out)@);
        }
        if !self.open {
            return self.next_write(writable);
        }
        match read {
            ReadOutcome::WouldBlock => self.next_write(writable),
            ReadOutcome::Data(data) => {
                if data.len() == 0 {
                    return self.next_write(writable);
                }
                self.last_rx = Some(now);
                if self.state == McuState::Active {
                    self.forward(data, txq);
                } else {
                    let idx: usize = sync_offset(data);
                    if idx < data.len() {
                        self.transition(McuState::Active, txq);
                        self.forward(&data[idx..data.len()], txq);
                        assert(data@.subrange(idx as int, data@.len() as int) =~= from_sync(
                            data@,
                        ));
                    }
                }
                self.next_write(writable)
            },
            ReadOutcome::Failed(_) => {
                self.close_uart(out);
                self.transition(McuState::Resetting, txq);
                self.reopen_at = Some(now + ERROR_REOPEN_DELAY);
                Step::Done
            },
        }
    }

    /// The bytes that wait to be written to the UART.
    pub fn pending(&self) -> (bytes: &[u8])
        ensures
            bytes@ == self@.txbuf,
    {
        self.txbuf.as_slice()
    }

    /// The pending bytes were offered to the UART.
    pub fn uart_drain(&mut self, write: WriteOutcome, out: &mut Vec<Action>)
        requires
            old(self)@.wf(),
            write matches WriteOutcome::Written(n) ==> n <= old(self)@.txbuf.len(),
        ensures
            final(self)@.wf(),
            ({
                let e = old(self)@.on_write(write, Seq::empty());
                &&& final(self)@ == e.ch
                &&& final(out)@ == old(out)@ + e.actions
            }),
    {
        proof {
            assert(old(out)@ + Seq::<Action>::empty() =~= old(out)@);
        }
        if !self.open || self.txbuf.len() == 0 {
            return ;
        }
        match write {
            WriteOutcome::Written(n) => {
                drop_front(&mut self.txbuf, n);
            },
            WriteOutcome::WouldBlock => {},
            WriteOutcome::Failed(_) => {
                self.txbuf = Vec::new();
                assert(self@.txbuf =~= Seq::empty());
            },
        }
        self.update_interest(out);
    }

    /// A frame arrived from the far side of the link.
    pub fn on_frame(&mut self, ftype: u8, payload: &[u8]) -> (step: Step)
        requires
            old(self)@.wf(),
        ensures
            final(self)@.wf(),
            ({
                let e = old(self)@.on_frame(ftype, payload@, Seq::empty());
                &&& final(self)@ == e.ch
                &&& step == e.step
            }),
    {
        if ftype == F_DATA && self.open && self.state == McuState::Active {
            self.txbuf.extend_from_slice(payload);
            assert(self@.txbuf =~= old(self)@.txbuf + payload@);
            return self.next_write(true);
        }
        Step::Done
    }

    /// The link just completed its handshake.
    pub fn on_link_connect(&mut self, txq: &mut TxQueue)
        requires
            old(self)@.wf(),
            old(txq).wf(),
        ensures
            final(self)@.wf(),
            final(txq).wf(),
            ({
                let e = old(self)@.on_link_connect(old(txq)@);
                &&& final(self)@ == e.ch
                &&& final(txq)@ == e.queue
            }),
    {
        self.link_up = true;
        if self.state == McuState::Active {
            self.push_empty(F_READY, txq);
        } else {
            self.push_empty(F_FLUSH, txq);
        }
    }

    /// The link dropped.
    pub fn on_link_disconnect(&mut self, out: &mut Vec<Action>)
        requires
            old(self)@.wf(),
        ensures
            final(self)@.wf(),
            ({
                let e = old(self)@.on_link_disconnect(Seq::empty());
                &&& final(self)@ == e.ch
                &&& final(out)@ == old(out)@ + e.actions
            }),
    {
        self.link_up = false;
        self.txbuf = Vec::new();
        assert(self@.txbuf =~= Seq::empty());
        self.update_interest(out);
    }

    /// Periodic timer tick: UART reopen, MCU silence timeout.
    pub fn tick(&mut self, now: u64, txq: &mut TxQueue) -> (step: Step)
        requires
            old(self)@.wf(),
            old(txq).wf(),
        ensures
            final(self)@.wf(),
            final(txq).wf(),
            ({
                let e = old(self)@.on_tick(now, old(txq)@);
                &&& final(self)@ == e.ch
                &&& final(txq)@ == e.queue
                &&& step == e.step
            }),
    {
        if !self.open {
            if let Some(t) = self.reopen_at {
                if now >= t {
                    self.reopen_at = None;
                    return Step::OpenUart(primary_token(self.ch_id));
                }
            }
            return Step::Done;
        }
        if self.state == McuState::Active {
            if let Some(last) = self.last_rx {
                if now > last && now - last > RESET_SILENCE {
                    self.transition(McuState::Resetting, txq);
                }
            }
        }
        Step::Done
    }

    /// Earliest time at which [`tick`](McuChannel::tick) must run, or `None`
    /// if not needed.
    pub fn next_deadline(&self) -> (t: Option<u64>)
        requires
            self@.wf(),
        ensures
            t == self@.deadline(),
    {
        if !self.open {
            return self.reopen_at;
        }
        if self.state == McuState::Active {
            if let Some(last) = self.last_rx {
                return Some(last + RESET_SILENCE);
            }
        }
        None
    }

    /// Suspend inbound reads (backpressure: link TX queue above high-water).
    pub fn pause_source_reads(&mut self, out: &mut Vec<Action>)
        requires
            old(self)@.wf(),
        ensures
            final(self)@.wf(),
            ({
                let e = old(self)@.on_pause(true, Seq::empty());
                &&& final(self)@ == e.ch
                &&& final(out)@ == old(out)@ + e.actions
            }),
    {
        proof {
            assert(old(out)@ + Seq::<Action>::empty() =~= old(out)@);
        }
        if !self.bp_paused {
            self.bp_paused = true;
            self.update_interest(out);
        }
    }

    /// Resume inbound reads (link TX queue drained below low-water).
    pub fn resume_source_reads(&mut self, out: &mut Vec<Action>)
        requires
            old(self)@.wf(),
        ensures
            final(self)@.wf(),
            ({
                let e = old(self)@.on_pause(false, Seq::empty());
                &&& final(self)@ == e.ch
                &&& final(out)@ == old(out)@ + e.actions
            }),
    {
        proof {
            assert(old(out)@ + Seq::<Action>::empty() =~= old(out)@);
        }
        if self.bp_paused {
            self.bp_paused = false;
            self.update_interest(out);
        }
    }
}

/// The position of the first sync byte, or the length where there is none.
fn sync_offset(data: &[u8]) -> (idx: usize)
    ensures
        idx <= data@.len(),
        data@.skip(idx as int) == from_sync(data@),
        idx < data@.len() <==> from_sync(data@).len() > 0,
{
    let mut idx: usize = 0;
    assert(data@.skip(0) =~= data@);
    while idx < data.len() && data[idx] != KLIPPER_SYNC
        invariant
            idx <= data@.len(),
            from_sync(data@.skip(idx as int)) == from_sync(data@),
        decreases data@.len() - idx,
    {
        assert(data@.skip(idx as int).skip(1) =~= data@.skip(idx + 1));
        idx += 1;
    }
    idx
}

/// Bootloader noise is not forwarded: while Klipper is not running, bytes
/// without a sync byte put nothing on the link.
pub proof fn law_noise_is_not_forwarded(
    m: McuModel,
    writable: bool,
    data: &[u8],
    now: u64,
    queue: Seq<u8>,
)
    requires
        m.state != McuState::Active,
        forall|i: int| 0 <= i < data@.len() ==> data@[i] != KLIPPER_SYNC,
    ensures
        m.on_read(writable, ReadOutcome::Data(data), now, queue).queue == queue,
        m.on_read(writable, ReadOutcome::Data(data), now, queue).ch.state == m.state,
{
    lemma_no_sync(data@);
}

proof fn lemma_no_sync(data: Seq<u8>)
    requires
        forall|i: int| 0 <= i < data.len() ==> data[i] != KLIPPER_SYNC,
    ensures
        from_sync(data).len() == 0,
    decreases data.len(),
{
    if data.len() > 0 {
        lemma_no_sync(data.skip(1));
    }
}

/// A sync byte is announced: on a link with room, the first read that has one
/// puts the announcement that Klipper runs on the link, and behind it the bytes
/// from the sync byte on; and the channel is active from then on.
pub proof fn law_sync_is_announced(
    m: McuModel,
    writable: bool,
    data: &[u8],
    now: u64,
    queue: Seq<u8>,
)
    requires
        m.open,
        m.link_up,
        m.state != McuState::Active,
        exists|i: int| 0 <= i < data@.len() && data@[i] == KLIPPER_SYNC,
        data@.len() <= MAX_PAYLOAD,
        queue.len() + HDR_SIZE + CRC_SIZE <= LINK_HIGH_WATER,
    ensures
        ({
            let e = m.on_read(writable, ReadOutcome::Data(data), now, queue);
            &&& e.queue == queue + frame::frame_bytes(F_READY, m.ch_id, Seq::empty())
                + frame::frame_bytes(F_DATA, m.ch_id, from_sync(data@))
            &&& from_sync(data@).len() > 0 && from_sync(data@)[0] == KLIPPER_SYNC
            &&& e.ch.state == McuState::Active
        }),
{
    lemma_from_sync(data@);
    let ready = frame::frame_bytes(F_READY, m.ch_id, Seq::empty());
    frame::lemma_frame_size(F_READY, m.ch_id, Seq::empty());
    tx_queue::law_frame_fits_up_to_high_water(queue, F_READY, m.ch_id, Seq::empty());
    tx_queue::law_frame_fits_up_to_high_water(
        queue + ready,
        F_DATA,
        m.ch_id,
        from_sync(data@),
    );
}

proof fn lemma_from_sync(data: Seq<u8>)
    requires
        exists|i: int| 0 <= i < data.len() && data[i] == KLIPPER_SYNC,
    ensures
        0 < from_sync(data).len() <= data.len(),
        from_sync(data)[0] == KLIPPER_SYNC,
    decreases data.len(),
{
    if data[0] != KLIPPER_SYNC {
        let i = choose|i: int| 0 <= i < data.len() && data[i] == KLIPPER_SYNC;
        assert(data.skip(1)[i - 1] == KLIPPER_SYNC);
        lemma_from_sync(data.skip(1));
    }
}

/// The deadline covers the tick: a tick that would do anything is not earlier
/// than the deadline.
pub proof fn law_mcu_deadline_covers_tick(m: McuModel, now: u64)
    requires
        m.wf(),
        m.reopen_due(now) || m.is_silent(now),
    ensures
        m.deadline() matches Some(t) && t <= now,
{
}

/// A talking MCU is left alone: after a read that brings bytes, no tick within
/// the next five seconds changes the channel, asks for anything, or tells the
/// host anything.
pub proof fn law_talking_mcu_is_not_reset(
    m: McuModel,
    writable: bool,
    data: &[u8],
    t: u64,
    u: u64,
    queue: Seq<u8>,
    later: Seq<u8>,
)
    requires
        m.open,
        data@.len() > 0,
        u <= t + 5_000_000_000,
    ensures
        ({
            let heard = m.on_read(writable, ReadOutcome::Data(data), t, queue).ch;
            let tick = heard.on_tick(u, later);
            &&& tick.ch == heard
            &&& tick.queue == later
            &&& tick.step == Step::Done
            &&& tick.actions.len() == 0
        }),
{
}

/// A silent MCU is reset: more than five seconds after its last bytes, a tick
/// drops what was pending for it and tells the host, if there is a link; the
/// UART stays open, and no later tick does anything.
pub proof fn law_silent_mcu_is_reset(
    m: McuModel,
    writable: bool,
    data: &[u8],
    t: u64,
    u: u64,
    v: u64,
    queue: Seq<u8>,
    later: Seq<u8>,
)
    requires
        m.open,
        m.state == McuState::Active,
        data@.len() > 0,
        u > t + 5_000_000_000,
    ensures
        ({
            let heard = m.on_read(writable, ReadOutcome::Data(data), t, queue).ch;
            let tick = heard.on_tick(u, later);
            let again = tick.ch.on_tick(v, tick.queue);
            &&& tick.ch == (McuModel {
                state: McuState::Resetting,
                last_rx: None,
                txbuf: Seq::empty(),
                ..m
            })
            &&& tick.queue == (if m.link_up {
                tx_queue::enqueued(later, frame::frame_bytes(F_FLUSH, m.ch_id, Seq::empty()))
            } else {
                later
            })
            &&& tick.step == Step::Done && tick.actions.len() == 0
            &&& again.ch == tick.ch && again.queue == tick.queue && again.step == Step::Done
        }),
{
}

/// An active MCU's bytes are forwarded as they came, in one frame of its
/// channel, if there is a link; the channel only notes when it heard them.
pub proof fn law_active_mcu_is_forwarded(
    m: McuModel,
    writable: bool,
    data: &[u8],
    t: u64,
    queue: Seq<u8>,
)
    requires
        m.open,
        m.state == McuState::Active,
        data@.len() > 0,
    ensures
        ({
            let e = m.on_read(writable, ReadOutcome::Data(data), t, queue);
            &&& e.ch == (McuModel { last_rx: Some(t), ..m })
            &&& e.queue == (if m.link_up {
                tx_queue::enqueued(queue, frame::frame_bytes(F_DATA, m.ch_id, data@))
            } else {
                queue
            })
            &&& e.actions.len() == 0
            &&& e.step == (if writable && m.txbuf.len() > 0 {
                Step::Write(token::primary(m.ch_id))
            } else {
                Step::Done
            })
        }),
{
}

/// The first sync byte makes the MCU active, whatever came before it in the
/// read: the host is told, and gets the bytes from that byte on and no others,
/// if there is a link.
pub proof fn law_first_sync_byte_counts(
    m: McuModel,
    writable: bool,
    data: &[u8],
    i: int,
    t: u64,
    queue: Seq<u8>,
)
    requires
        m.open,
        m.state != McuState::Active,
        0 <= i < data@.len(),
        data@[i] == 0x7E,
        forall|j: int| 0 <= j < i ==> data@[j] != 0x7E,
    ensures
        ({
            let e = m.on_read(writable, ReadOutcome::Data(data), t, queue);
            &&& e.ch == (McuModel { state: McuState::Active, last_rx: Some(t), ..m })
            &&& e.queue == (if m.link_up {
                tx_queue::enqueued(
                    tx_queue::enqueued(
                        queue,
                        frame::frame_bytes(F_READY, m.ch_id, Seq::empty()),
                    ),
                    frame::frame_bytes(F_DATA, m.ch_id, data@.skip(i)),
                )
            } else {
                queue
            })
            &&& e.actions.len() == 0
        }),
{
    lemma_from_first_sync(data@, i);
}

proof fn lemma_from_first_sync(data: Seq<u8>, i: int)
    requires
        0 <= i < data.len(),
        data[i] == KLIPPER_SYNC,
        forall|j: int| 0 <= j < i ==> data[j] != KLIPPER_SYNC,
    ensures
        from_sync(data) == data.skip(i),
    decreases i,
{
    if i == 0 {
        assert(data.skip(0) =~= data);
    } else {
        lemma_from_first_sync(data.skip(1), i - 1);
        assert(data.skip(1).skip(i - 1) =~= data.skip(i));
    }
}

/// Noise only shows that somebody is there: without a sync byte, bytes from an
/// MCU that is not active leave everything else as it was.
pub proof fn law_noise_only_is_heard(
    m: McuModel,
    writable: bool,
    data: &[u8],
    t: u64,
    queue: Seq<u8>,
)
    requires
        m.open,
        m.state != McuState::Active,
        data@.len() > 0,
        forall|j: int| 0 <= j < data@.len() ==> data@[j] != 0x7E,
    ensures
        ({
            let e = m.on_read(writable, ReadOutcome::Data(data), t, queue);
            &&& e.ch == (McuModel { last_rx: Some(t), ..m })
            &&& e.queue == queue
            &&& e.actions.len() == 0
        }),
{
    lemma_no_sync(data@);
}

/// A read that brings nothing changes nothing, and neither does a read of a
/// UART that is not open.
pub proof fn law_empty_uart_read_changes_nothing(
    m: McuModel,
    writable: bool,
    read: ReadOutcome,
    t: u64,
    queue: Seq<u8>,
)
    requires
        !m.open || read is WouldBlock || (read matches ReadOutcome::Data(d) && d@.len() == 0),
    ensures
        ({
            let e = m.on_read(writable, read, t, queue);
            &&& e.ch == m
            &&& e.queue == queue
            &&& e.actions.len() == 0
            &&& e.step == (if writable && m.open && m.txbuf.len() > 0 {
                Step::Write(token::primary(m.ch_id))
            } else {
                Step::Done
            })
        }),
{
}

/// A UART that fails is closed, its MCU counts as reset, which the host is told
/// if it is news, and one second later, not before, it is to be opened again,
/// once.
pub proof fn law_failed_uart_is_opened_again(
    m: McuModel,
    writable: bool,
    code: i32,
    t: u64,
    u: u64,
    v: u64,
    queue: Seq<u8>,
    later: Seq<u8>,
)
    requires
        m.wf(),
        m.open,
        t <= TIME_LIMIT,
    ensures
        ({
            let me = token::primary(m.ch_id);
            let e = m.on_read(writable, ReadOutcome::Failed(code), t, queue);
            let tick = e.ch.on_tick(u, later);
            let again = tick.ch.on_tick(v, later);
            &&& !e.ch.open && !e.ch.in_sel && e.ch.state == McuState::Resetting
            &&& m.state != McuState::Resetting ==> e.ch.txbuf.len() == 0 && e.ch.last_rx is None
            &&& m.state == McuState::Resetting ==> e.ch.txbuf == m.txbuf && e.ch.last_rx
                == m.last_rx
            &&& (e.ch.ch_id, e.ch.device, e.ch.baud, e.ch.bp_paused, e.ch.link_up) == (
                m.ch_id,
                m.device,
                m.baud,
                m.bp_paused,
                m.link_up,
            )
            &&& e.queue == (if m.link_up && m.state != McuState::Resetting {
                tx_queue::enqueued(queue, frame::frame_bytes(F_FLUSH, m.ch_id, Seq::empty()))
            } else {
                queue
            })
            &&& e.actions == (if m.in_sel {
                seq![Action::Deregister(me), Action::Close(me)]
            } else {
                seq![Action::Close(me)]
            })
            &&& e.step == Step::Done
            &&& tick.queue == later
            &&& u < t + 1_000_000_000 ==> tick.ch == e.ch && tick.step == Step::Done
            &&& u >= t + 1_000_000_000 ==> tick.step == Step::OpenUart(me) && again.step
                == Step::Done
        }),
{
}

/// A UART that could not be opened is tried again two seconds later, not
/// before, and once; one that could be is open and waits for what is wanted of
/// it; and nothing else changes.
pub proof fn law_uart_is_opened(
    m: McuModel,
    before: Option<Interest>,
    t: u64,
    u: u64,
    v: u64,
    queue: Seq<u8>,
    later: Seq<u8>,
)
    requires
        m.wf(),
        !m.open,
        before is None,
        t <= TIME_LIMIT,
    ensures
        ({
            let me = token::primary(m.ch_id);
            let failed = m.on_opened(false, t, queue);
            let tick = failed.ch.on_tick(u, later);
            let again = tick.ch.on_tick(v, later);
            &&& failed.ch == (McuModel { reopen_at: failed.ch.reopen_at, ..m })
            &&& failed.queue == queue && failed.actions.len() == 0 && failed.step == Step::Done
            &&& tick.queue == later
            &&& u < t + 2_000_000_000 ==> tick.ch == failed.ch && tick.step == Step::Done
            &&& u >= t + 2_000_000_000 ==> tick.step == Step::OpenUart(me) && again.step
                == Step::Done
        }),
        ({
            let me = token::primary(m.ch_id);
            let e = m.on_opened(true, t, queue);
            &&& e.ch == (McuModel { open: true, in_sel: e.ch.in_sel, ..m })
            &&& e.queue == queue && e.step == Step::Done
            &&& io::leaves_waiting(before, e.actions, me, !m.bp_paused, m.txbuf.len() > 0)
            &&& e.ch.in_sel == (!m.bp_paused || m.txbuf.len() > 0)
        }),
{
    io::law_registration_is_brought_in_line(
        token::primary(m.ch_id),
        !m.bp_paused,
        m.txbuf.len() > 0,
        None,
        token::primary(m.ch_id),
    );
}

/// A write to the UART takes bytes off the front of what is pending, and no
/// others: all but the first `n` stay where it took `n`, all of them where it
/// would have blocked; an error drops them.  The UART then waits for room just
/// while bytes are pending.
pub proof fn law_uart_write_takes_bytes_off(
    m: McuModel,
    before: Option<Interest>,
    write: WriteOutcome,
    queue: Seq<u8>,
)
    requires
        m.wf(),
        m.open,
        m.txbuf.len() > 0,
        before is Some == m.in_sel,
        write matches WriteOutcome::Written(n) ==> n <= m.txbuf.len(),
    ensures
        ({
            let e = m.on_write(write, queue);
            &&& e.ch == (McuModel { txbuf: e.ch.txbuf, in_sel: e.ch.in_sel, ..m })
            &&& match write {
                WriteOutcome::Written(n) => m.txbuf == m.txbuf.take(n as int) + e.ch.txbuf,
                WriteOutcome::WouldBlock => e.ch.txbuf == m.txbuf,
                WriteOutcome::Failed(_) => e.ch.txbuf.len() == 0,
            }
            &&& e.queue == queue && e.step == Step::Done
            &&& io::leaves_waiting(
                before,
                e.actions,
                token::primary(m.ch_id),
                !m.bp_paused,
                e.ch.txbuf.len() > 0,
            )
            &&& e.ch.in_sel == (!m.bp_paused || e.ch.txbuf.len() > 0)
        }),
{
    let e = m.on_write(write, queue);
    if let WriteOutcome::Written(n) = write {
        assert(m.txbuf =~= m.txbuf.take(n as int) + m.txbuf.skip(n as int));
    }
    io::law_registration_is_brought_in_line(
        token::primary(m.ch_id),
        !m.bp_paused,
        e.ch.txbuf.len() > 0,
        before,
        token::primary(m.ch_id),
    );
}

/// Data from the host is pending behind what was, and is to be written, while
/// the UART is open and its MCU active; any other frame, and data at any other
/// time, is ignored.
pub proof fn law_mcu_takes_data(m: McuModel, ftype: u8, payload: Seq<u8>, queue: Seq<u8>)
    ensures
        ({
            let e = m.on_frame(ftype, payload, queue);
            let taken = ftype == F_DATA && m.open && m.state == McuState::Active;
            &&& e.ch == (McuModel {
                txbuf: if taken {
                    m.txbuf + payload
                } else {
                    m.txbuf
                },
                ..m
            })
            &&& e.queue == queue && e.actions.len() == 0
            &&& e.step == (if taken && m.txbuf.len() + payload.len() > 0 {
                Step::Write(token::primary(m.ch_id))
            } else {
                Step::Done
            })
        }),
{
}

/// A new link is told whether the MCU is active, and nothing else changes;
/// without a link nothing is forwarded, and what was pending for the UART is
/// dropped, but the UART stays open and its MCU as it was.
pub proof fn law_mcu_follows_the_link(m: McuModel, before: Option<Interest>, queue: Seq<u8>)
    requires
        m.wf(),
        before is Some == m.in_sel,
    ensures
        ({
            let e = m.on_link_connect(queue);
            &&& e.ch == (McuModel { link_up: true, ..m })
            &&& e.queue == tx_queue::enqueued(
                queue,
                frame::frame_bytes(
                    if m.state == McuState::Active {
                        F_READY
                    } else {
                        F_FLUSH
                    },
                    m.ch_id,
                    Seq::empty(),
                ),
            )
            &&& e.actions.len() == 0 && e.step == Step::Done
        }),
        ({
            let e = m.on_link_disconnect(queue);
            &&& e.ch == (McuModel {
                link_up: false,
                txbuf: Seq::empty(),
                in_sel: e.ch.in_sel,
                ..m
            })
            &&& e.queue == queue && e.step == Step::Done
            &&& m.open ==> io::leaves_waiting(
                before,
                e.actions,
                token::primary(m.ch_id),
                !m.bp_paused,
                false,
            ) && e.ch.in_sel == !m.bp_paused
            &&& !m.open ==> e.actions.len() == 0 && !e.ch.in_sel
        }),
{
    io::law_registration_is_brought_in_line(
        token::primary(m.ch_id),
        !m.bp_paused,
        false,
        before,
        token::primary(m.ch_id),
    );
}

/// Backpressure suspends the reads of the UART and nothing else: once paused, it
/// does not wait for data, resumed it does, and either way it waits for room
/// just while bytes are pending.  To pause and to resume leaves the channel as
/// it was.
pub proof fn law_uart_reads_are_suspended(
    m: McuModel,
    before: Option<Interest>,
    paused: bool,
    queue: Seq<u8>,
)
    requires
        m.wf(),
        m.open,
        m.bp_paused != paused,
        before is Some == m.in_sel,
    ensures
        ({
            let e = m.on_pause(paused, queue);
            &&& e.ch == (McuModel { bp_paused: paused, in_sel: e.ch.in_sel, ..m })
            &&& e.queue == queue && e.step == Step::Done
            &&& io::leaves_waiting(
                before,
                e.actions,
                token::primary(m.ch_id),
                !paused,
                m.txbuf.len() > 0,
            )
            &&& e.ch.in_sel == (!paused || m.txbuf.len() > 0)
            &&& paused ==> e.ch.on_pause(false, queue).ch == m
            &&& e.ch.on_pause(paused, queue).ch == e.ch && e.ch.on_pause(
                paused,
                queue,
            ).actions.len() == 0
        }),
{
    io::law_registration_is_brought_in_line(
        token::primary(m.ch_id),
        !paused,
        m.txbuf.len() > 0,
        before,
        token::primary(m.ch_id),
    );
}

/// A ready UART is read first, and else written where bytes are pending; one
/// that is not open is neither.
pub proof fn law_ready_uart_is_served(m: McuModel, readable: bool, writable: bool, queue: Seq<u8>)
    ensures
        ({
            let me = token::primary(m.ch_id);
            let e = m.on_ready(readable, writable, queue);
            &&& e.ch == m && e.queue == queue && e.actions.len() == 0
            &&& e.step == (if !m.open {
                Step::Done
            } else if readable {
                Step::Read(me)
            } else if writable && m.txbuf.len() > 0 {
                Step::Write(me)
            } else {
                Step::Done
            })
        }),
{
}

/// The deadline is when the next tick does something: no tick before it does
/// anything, nor any tick at all where there is none; and every tick after it
/// does.
pub proof fn law_mcu_deadline_is_exact(m: McuModel, u: u64, queue: Seq<u8>)
    requires
        m.wf(),
    ensures
        ({
            let tick = m.on_tick(u, queue);
            let nothing = tick.ch == m && tick.queue == queue && tick.step == Step::Done;
            &&& m.deadline() is None ==> nothing
            &&& m.deadline() matches Some(d) ==> (u < d ==> nothing) && (u > d ==> !nothing)
            &&& tick.actions.len() == 0
        }),
{
}

/// A UART is closed whole: nothing waits for it any more, and nothing but that
/// changes.
pub proof fn law_uart_is_closed(m: McuModel, queue: Seq<u8>)
    requires
        m.wf(),
    ensures
        ({
            let me = token::primary(m.ch_id);
            let e = m.on_close(queue);
            &&& e.ch == (McuModel { open: false, in_sel: false, ..m })
            &&& e.queue == queue && e.step == Step::Done
            &&& e.actions == (if m.in_sel {
                seq![Action::Deregister(me), Action::Close(me)]
            } else if m.open {
                seq![Action::Close(me)]
            } else {
                Seq::empty()
            })
        }),
{
}

} // verus!
