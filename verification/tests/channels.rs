//! Channels, driven by hand: what they order, what they send, what they ask.

use serialmux::channel::mcu::{ERROR_REOPEN_DELAY, REOPEN_DELAY, RESET_SILENCE};
use serialmux::channel::tcp::{pack_cid, send_tdata, unpack_cid, CONN_HIGH_WATER, TDATA_MAX};
use serialmux::channel::{
    channel_id_for_token, primary_token, tcp_slot_token, AcceptOutcome, Action, Channel, Event,
    Interest, McuChannel, PtyChannel, PtyOutcome, Step, TcpDestChannel, TcpSourceChannel, Token,
    MAX_CHANNEL_ID, TOKEN_LINK,
};
use serialmux::protocol::{
    FrameParser, TxQueue, F_DATA, F_FLUSH, F_READY, F_TCLOSE, F_TCONN, F_TDATA, MAX_PAYLOAD,
};
use serialmux::serial::{ReadOutcome, WriteOutcome, EIO};
use serialmux::time::SECOND;

fn sent(txq: &TxQueue) -> Vec<(u8, u8, Vec<u8>)> {
    let mut parser = FrameParser::new();
    parser
        .feed(txq.segment())
        .into_iter()
        .map(|f| (f.ftype, f.channel, f.payload))
        .collect()
}

struct Rig {
    ch: Channel,
    txq: TxQueue,
    out: Vec<Action>,
    now: u64,
}

impl Rig {
    fn new(ch: Channel) -> Rig {
        Rig { ch, txq: TxQueue::new(), out: Vec::new(), now: SECOND }
    }

    fn event(&mut self, token: Token, readable: bool, writable: bool, event: Event) -> Step {
        self.ch.handle_event(
            token,
            readable,
            writable,
            event,
            self.now,
            &mut self.txq,
            &mut self.out,
        )
    }

    fn frame(&mut self, ftype: u8, payload: &[u8]) -> Step {
        self.ch.on_frame(ftype, payload, &mut self.txq, &mut self.out)
    }

    fn actions(&mut self) -> Vec<Action> {
        std::mem::take(&mut self.out)
    }

    fn frames(&mut self) -> Vec<(u8, u8, Vec<u8>)> {
        let list = sent(&self.txq);
        self.txq.reset();
        list
    }
}

fn open_mcu() -> (Rig, Token) {
    let (ch, step) = McuChannel::new(3, "/dev/ttyS7".to_string(), 230400);
    let t = primary_token(3);
    assert_eq!(step, Step::OpenUart(t));
    assert_eq!(ch.device(), "/dev/ttyS7");
    assert_eq!(ch.baud(), 230400);
    let mut rig = Rig::new(Channel::Mcu(ch));
    assert_eq!(rig.event(t, false, false, Event::UartOpened(true)), Step::Done);
    assert_eq!(rig.actions(), vec![Action::Register(t, Interest::Readable)]);
    (rig, t)
}

fn active_mcu() -> (Rig, Token) {
    let (mut rig, t) = open_mcu();
    rig.ch.on_link_connect(&mut rig.txq, &mut rig.out);
    rig.event(t, true, false, Event::Read(ReadOutcome::Data(&[0x7E])));
    rig.frames();
    (rig, t)
}

#[test]
fn tokens_lead_back_to_their_channels() {
    assert_eq!(primary_token(0), Token(1));
    assert_eq!(primary_token(MAX_CHANNEL_ID), Token(63));
    assert_eq!(tcp_slot_token(0, 0), Token(64));
    assert_eq!(tcp_slot_token(2, 255), Token(64 + 2 * 256 + 255));
    assert_eq!(channel_id_for_token(Token(TOKEN_LINK)), None);
    assert_eq!(channel_id_for_token(Token(63)), Some(62));
    assert_eq!(channel_id_for_token(Token(64)), Some(0));
    assert_eq!(channel_id_for_token(tcp_slot_token(62, 255)), Some(62));
    assert_eq!(channel_id_for_token(Token(64 + 63 * 256)), None);
}

#[test]
fn mcu_waits_for_the_sync_byte() {
    let (mut rig, t) = open_mcu();
    rig.ch.on_link_connect(&mut rig.txq, &mut rig.out);
    assert_eq!(rig.frames(), vec![(F_FLUSH, 3, vec![])]);

    assert_eq!(rig.event(t, true, false, Event::Ready), Step::Read(t));
    rig.event(t, true, false, Event::Read(ReadOutcome::Data(&[1, 2, 3])));
    assert!(rig.frames().is_empty());

    rig.event(t, true, false, Event::Read(ReadOutcome::Data(&[9, 0x7E, 4, 5])));
    assert_eq!(
        rig.frames(),
        vec![(F_READY, 3, vec![]), (F_DATA, 3, vec![0x7E, 4, 5])]
    );
    rig.event(t, true, false, Event::Read(ReadOutcome::Data(&[6, 7])));
    assert_eq!(rig.frames(), vec![(F_DATA, 3, vec![6, 7])]);
    assert!(rig.actions().is_empty());
}

#[test]
fn mcu_sends_nothing_without_a_link() {
    let (mut rig, t) = open_mcu();
    rig.event(t, true, false, Event::Read(ReadOutcome::Data(&[0x7E, 1])));
    assert!(rig.txq.is_empty());
    rig.ch.on_link_connect(&mut rig.txq, &mut rig.out);
    assert_eq!(rig.frames(), vec![(F_READY, 3, vec![])]);
}

#[test]
fn mcu_writes_what_the_host_sends() {
    let (mut rig, t) = active_mcu();
    assert_eq!(rig.frame(F_DATA, &[1, 2, 3]), Step::Write(t));
    assert_eq!(rig.ch.pending(t), &[1, 2, 3]);
    rig.event(t, false, true, Event::Written(WriteOutcome::Written(2)));
    assert_eq!(rig.ch.pending(t), &[3]);
    assert_eq!(rig.actions(), vec![Action::Reregister(t, Interest::ReadWrite)]);
    assert_eq!(rig.event(t, false, true, Event::Ready), Step::Write(t));
    rig.event(t, false, true, Event::Written(WriteOutcome::Written(1)));
    assert_eq!(rig.actions(), vec![Action::Reregister(t, Interest::Readable)]);
    assert_eq!(rig.event(t, false, true, Event::Ready), Step::Done);
}

#[test]
fn mcu_drops_pending_bytes_on_a_write_error() {
    let (mut rig, t) = active_mcu();
    rig.frame(F_DATA, &[1, 2, 3]);
    rig.event(t, false, true, Event::Written(WriteOutcome::WouldBlock));
    assert_eq!(rig.ch.pending(t), &[1, 2, 3]);
    rig.event(t, false, true, Event::Written(WriteOutcome::Failed(5)));
    assert!(rig.ch.pending(t).is_empty());
}

#[test]
fn mcu_takes_no_data_before_klipper_runs() {
    let (mut rig, t) = open_mcu();
    assert_eq!(rig.frame(F_DATA, &[1]), Step::Done);
    assert!(rig.ch.pending(t).is_empty());
    assert_eq!(rig.frame(F_READY, &[]), Step::Done);
}

#[test]
fn mcu_resets_after_silence() {
    let (mut rig, _) = active_mcu();
    let heard = rig.now;
    assert_eq!(rig.ch.next_deadline(), Some(heard + RESET_SILENCE));
    assert_eq!(rig.ch.tick(heard + RESET_SILENCE, &mut rig.txq), Step::Done);
    assert!(rig.txq.is_empty());
    assert_eq!(rig.ch.tick(heard + RESET_SILENCE + 1, &mut rig.txq), Step::Done);
    assert_eq!(rig.frames(), vec![(F_FLUSH, 3, vec![])]);
    assert_eq!(rig.ch.next_deadline(), None);
}

#[test]
fn mcu_reopens_a_uart_that_could_not_be_opened() {
    let (ch, _) = McuChannel::new(0, "/dev/ttyS1".to_string(), 115200);
    let t = primary_token(0);
    let mut rig = Rig::new(Channel::Mcu(ch));
    assert_eq!(rig.ch.next_deadline(), None);
    rig.event(t, false, false, Event::UartOpened(false));
    let at = rig.now + REOPEN_DELAY;
    assert_eq!(rig.ch.next_deadline(), Some(at));
    assert_eq!(rig.ch.tick(at - 1, &mut rig.txq), Step::Done);
    assert_eq!(rig.ch.tick(at, &mut rig.txq), Step::OpenUart(t));
    assert_eq!(rig.ch.tick(at, &mut rig.txq), Step::Done);
}

#[test]
fn mcu_closes_a_uart_that_fails() {
    let (mut rig, t) = active_mcu();
    rig.frame(F_DATA, &[1]);
    let step = rig.event(t, true, true, Event::Read(ReadOutcome::Failed(5)));
    assert_eq!(step, Step::Done);
    assert_eq!(rig.actions(), vec![Action::Deregister(t), Action::Close(t)]);
    assert_eq!(rig.frames(), vec![(F_FLUSH, 3, vec![])]);
    assert!(rig.ch.pending(t).is_empty());
    assert_eq!(rig.ch.next_deadline(), Some(rig.now + ERROR_REOPEN_DELAY));
}

#[test]
fn mcu_reads_are_suspended_under_backpressure() {
    let (mut rig, t) = active_mcu();
    rig.ch.pause_source_reads(&mut rig.out);
    assert_eq!(rig.actions(), vec![Action::Deregister(t)]);
    rig.ch.pause_source_reads(&mut rig.out);
    assert!(rig.actions().is_empty());
    rig.frame(F_DATA, &[1, 2]);
    rig.event(t, false, true, Event::Written(WriteOutcome::Written(1)));
    assert_eq!(rig.actions(), vec![Action::Register(t, Interest::Writable)]);
    rig.ch.resume_source_reads(&mut rig.out);
    assert_eq!(rig.actions(), vec![Action::Reregister(t, Interest::ReadWrite)]);
}

#[test]
fn mcu_forgets_pending_bytes_with_the_link() {
    let (mut rig, t) = active_mcu();
    rig.frame(F_DATA, &[1, 2]);
    rig.ch.on_link_disconnect(&mut rig.out);
    assert!(rig.ch.pending(t).is_empty());
    assert_eq!(rig.actions(), vec![Action::Reregister(t, Interest::Readable)]);
    rig.event(t, true, false, Event::Read(ReadOutcome::Data(&[1])));
    assert!(rig.txq.is_empty());
    rig.ch.close(&mut rig.out);
    assert_eq!(rig.actions(), vec![Action::Deregister(t), Action::Close(t)]);
}

fn open_pty() -> (Rig, Token) {
    let mut out = Vec::new();
    let ch = PtyChannel::new(1, "/tmp/klipper_mcu".to_string(), 230400, &mut out);
    let t = primary_token(1);
    assert_eq!(out, vec![Action::RemoveSymlink(t)]);
    assert_eq!(ch.symlink(), "/tmp/klipper_mcu");
    assert_eq!(ch.baud(), 230400);
    let mut rig = Rig::new(Channel::Pty(ch));
    assert_eq!(rig.frame(F_READY, &[]), Step::OpenPty(t));
    rig.event(t, false, false, Event::PtyOpened(PtyOutcome::Opened));
    assert_eq!(rig.actions(), vec![Action::Register(t, Interest::Readable)]);
    (rig, t)
}

#[test]
fn pty_opens_on_ready_and_closes_on_flush() {
    let (mut rig, t) = open_pty();
    assert_eq!(rig.frame(F_READY, &[]), Step::Done);
    assert_eq!(rig.frame(F_FLUSH, &[]), Step::Done);
    assert_eq!(
        rig.actions(),
        vec![Action::Deregister(t), Action::Close(t), Action::RemoveSymlink(t)]
    );
    assert_eq!(rig.frame(F_DATA, &[1]), Step::Done);
    assert!(rig.ch.pending(t).is_empty());
    assert_eq!(rig.ch.next_deadline(), None);
}

#[test]
fn pty_that_cannot_be_exposed_is_closed() {
    let mut out = Vec::new();
    let ch = PtyChannel::new(1, "/tmp/x".to_string(), 230400, &mut out);
    let t = primary_token(1);
    let mut rig = Rig::new(Channel::Pty(ch));
    rig.event(t, false, false, Event::PtyOpened(PtyOutcome::OpenFailed));
    assert!(rig.actions().is_empty());
    rig.event(t, false, false, Event::PtyOpened(PtyOutcome::NameFailed));
    assert_eq!(rig.actions(), vec![Action::Close(t)]);
    rig.event(t, false, false, Event::PtyOpened(PtyOutcome::SymlinkFailed));
    assert_eq!(rig.actions(), vec![Action::Close(t)]);
    assert_eq!(rig.frame(F_READY, &[]), Step::OpenPty(t));
}

#[test]
fn pty_carries_bytes_both_ways() {
    let (mut rig, t) = open_pty();
    assert_eq!(rig.event(t, true, true, Event::Ready), Step::Read(t));
    rig.event(t, true, false, Event::Read(ReadOutcome::Data(&[1, 2])));
    assert_eq!(rig.frames(), vec![(F_DATA, 1, vec![1, 2])]);
    rig.event(t, true, false, Event::Read(ReadOutcome::Data(&[])));
    assert!(rig.txq.is_empty());
    assert_eq!(rig.frame(F_DATA, &[3, 4]), Step::Write(t));
    rig.event(t, false, true, Event::Written(WriteOutcome::Written(1)));
    assert_eq!(rig.ch.pending(t), &[4]);
    rig.event(t, false, true, Event::Written(WriteOutcome::Failed(9)));
    assert!(rig.ch.pending(t).is_empty());
}

#[test]
fn pty_closes_when_klipper_leaves() {
    let (mut rig, t) = open_pty();
    rig.event(t, true, false, Event::Read(ReadOutcome::Failed(EIO + 1)));
    assert!(rig.actions().is_empty());
    let step = rig.event(t, true, true, Event::Read(ReadOutcome::Failed(EIO)));
    assert_eq!(step, Step::Done);
    assert_eq!(
        rig.actions(),
        vec![Action::Deregister(t), Action::Close(t), Action::RemoveSymlink(t)]
    );
}

#[test]
fn pty_is_closed_by_handshake_and_loss_of_the_link() {
    let (mut rig, t) = open_pty();
    rig.ch.on_link_connect(&mut rig.txq, &mut rig.out);
    assert_eq!(
        rig.actions(),
        vec![Action::Deregister(t), Action::Close(t), Action::RemoveSymlink(t)]
    );
    rig.ch.on_link_disconnect(&mut rig.out);
    assert_eq!(rig.actions(), vec![Action::RemoveSymlink(t)]);
}

#[test]
fn pty_reads_are_suspended_under_backpressure() {
    let (mut rig, t) = open_pty();
    rig.ch.pause_source_reads(&mut rig.out);
    assert_eq!(rig.actions(), vec![Action::Deregister(t)]);
    rig.ch.resume_source_reads(&mut rig.out);
    assert_eq!(rig.actions(), vec![Action::Register(t, Interest::Readable)]);
}

#[test]
fn connection_ids_are_read_back() {
    assert_eq!(pack_cid(0x0102), [0x02, 0x01]);
    assert_eq!(unpack_cid(&[0x02, 0x01, 9]), Some((0x0102, &[9u8][..])));
    assert_eq!(unpack_cid(&[0xFF, 0xFF]), Some((0xFFFF, &[][..])));
    assert_eq!(unpack_cid(&[1]), None);
}

#[test]
fn stream_data_is_cut_to_fit_frames() {
    let mut txq = TxQueue::new();
    let data: Vec<u8> = (0..TDATA_MAX + 10).map(|i| i as u8).collect();
    send_tdata(5, 7, &data, &mut txq);
    let frames = sent(&txq);
    assert_eq!(frames.len(), 2);
    assert_eq!((frames[0].0, frames[0].1), (F_TDATA, 5));
    assert_eq!(frames[0].2.len(), MAX_PAYLOAD);
    assert_eq!(&frames[0].2[..2], &[7, 0]);
    assert_eq!(frames[1].2.len(), 12);
    assert_eq!(&frames[1].2[2..], &data[TDATA_MAX..]);
    send_tdata(5, 7, &[], &mut txq);
    assert_eq!(sent(&txq).len(), 2);
}

fn source_with_conn() -> (Rig, Token, Token) {
    let mut rig = Rig::new(Channel::TcpSource(TcpSourceChannel::new(2)));
    let listener = primary_token(2);
    let t = tcp_slot_token(2, 0);
    rig.ch.on_link_connect(&mut rig.txq, &mut rig.out);
    assert_eq!(rig.event(listener, true, false, Event::Ready), Step::Accept(listener));
    assert_eq!(
        rig.event(listener, true, false, Event::Accepted(AcceptOutcome::Accepted)),
        Step::Adopt(t)
    );
    assert_eq!(rig.event(t, true, false, Event::Adopted(true)), Step::Accept(listener));
    assert_eq!(
        rig.event(listener, true, false, Event::Accepted(AcceptOutcome::WouldBlock)),
        Step::Done
    );
    assert_eq!(rig.frames(), vec![(F_TCONN, 2, vec![0, 0])]);
    (rig, listener, t)
}

#[test]
fn source_refuses_connections_without_a_link() {
    let mut rig = Rig::new(Channel::TcpSource(TcpSourceChannel::new(2)));
    let listener = primary_token(2);
    assert_eq!(
        rig.event(listener, true, false, Event::Accepted(AcceptOutcome::Accepted)),
        Step::Refuse(listener)
    );
    assert_eq!(
        rig.event(listener, true, false, Event::Accepted(AcceptOutcome::Failed)),
        Step::Done
    );
    assert_eq!(rig.event(listener, false, true, Event::Ready), Step::Done);
}

#[test]
fn source_hands_slots_out_in_the_round() {
    let (mut rig, listener, t) = source_with_conn();
    // The slot of a connection that could not be registered is passed over.
    assert_eq!(
        rig.event(listener, true, false, Event::Accepted(AcceptOutcome::Accepted)),
        Step::Adopt(tcp_slot_token(2, 1))
    );
    rig.event(tcp_slot_token(2, 1), true, false, Event::Adopted(false));
    assert!(rig.txq.is_empty());
    for slot in 2..256 {
        let s = tcp_slot_token(2, slot);
        assert_eq!(
            rig.event(listener, true, false, Event::Accepted(AcceptOutcome::Accepted)),
            Step::Adopt(s)
        );
        rig.event(s, true, false, Event::Adopted(true));
    }
    let one = tcp_slot_token(2, 1);
    assert_eq!(
        rig.event(listener, true, false, Event::Accepted(AcceptOutcome::Accepted)),
        Step::Adopt(one)
    );
    rig.event(one, true, false, Event::Adopted(true));
    assert_eq!(
        rig.event(listener, true, false, Event::Accepted(AcceptOutcome::Accepted)),
        Step::Refuse(listener)
    );
    rig.frames();
    rig.event(t, true, false, Event::Read(ReadOutcome::Data(&[])));
    assert_eq!(rig.frames(), vec![(F_TCLOSE, 2, vec![0, 0])]);
    assert_eq!(
        rig.event(listener, true, false, Event::Accepted(AcceptOutcome::Accepted)),
        Step::Adopt(t)
    );
}

#[test]
fn source_reads_until_the_stream_would_block() {
    let (mut rig, _, t) = source_with_conn();
    assert_eq!(rig.event(t, true, false, Event::Ready), Step::Read(t));
    assert_eq!(
        rig.event(t, true, false, Event::Read(ReadOutcome::Data(&[1, 2]))),
        Step::Read(t)
    );
    assert_eq!(rig.event(t, true, false, Event::Read(ReadOutcome::WouldBlock)), Step::Done);
    assert_eq!(rig.frames(), vec![(F_TDATA, 2, vec![0, 0, 1, 2])]);
    assert!(rig.actions().is_empty());
}

#[test]
fn source_tells_of_ends_and_errors() {
    let (mut rig, _, t) = source_with_conn();
    assert_eq!(rig.event(t, true, true, Event::Read(ReadOutcome::Failed(104))), Step::Done);
    assert_eq!(rig.frames(), vec![(F_TCLOSE, 2, vec![0, 0])]);
    assert_eq!(rig.actions(), vec![Action::Deregister(t), Action::Close(t)]);
    assert_eq!(rig.event(t, true, true, Event::Ready), Step::Done);

    let (mut rig, _, t) = source_with_conn();
    rig.frame(F_TDATA, &[0, 0, 1]);
    rig.event(t, false, true, Event::Written(WriteOutcome::Failed(32)));
    assert_eq!(rig.frames(), vec![(F_TCLOSE, 2, vec![0, 0])]);
}

#[test]
fn source_drains_before_it_closes() {
    let (mut rig, _, t) = source_with_conn();
    rig.frame(F_TDATA, &[0, 0, 1, 2, 3]);
    assert_eq!(rig.actions(), vec![Action::Reregister(t, Interest::ReadWrite)]);
    rig.frame(F_TCLOSE, &[0, 0]);
    assert_eq!(rig.actions(), vec![Action::Reregister(t, Interest::Writable)]);
    // Nothing is read any more, only written.
    assert_eq!(rig.event(t, true, true, Event::Ready), Step::Write(t));
    rig.event(t, true, true, Event::Written(WriteOutcome::Written(2)));
    assert_eq!(rig.ch.pending(t), &[3]);
    assert_eq!(rig.actions(), vec![Action::Reregister(t, Interest::Writable)]);
    rig.event(t, false, true, Event::Written(WriteOutcome::Written(1)));
    assert_eq!(rig.actions(), vec![Action::Deregister(t), Action::Close(t)]);
    // The close is not echoed.
    assert!(rig.txq.is_empty());
}

#[test]
fn source_closes_at_once_what_has_nothing_pending() {
    let (mut rig, _, t) = source_with_conn();
    rig.frame(F_TCLOSE, &[0, 0]);
    assert_eq!(rig.actions(), vec![Action::Deregister(t), Action::Close(t)]);
    assert!(rig.txq.is_empty());
    rig.frame(F_TCLOSE, &[0, 0]);
    assert!(rig.actions().is_empty());
}

#[test]
fn source_ignores_frames_it_cannot_place() {
    let (mut rig, _, t) = source_with_conn();
    rig.frame(F_TDATA, &[0]);
    rig.frame(F_TDATA, &[0, 0]);
    rig.frame(F_TDATA, &[0, 1, 9]);
    rig.frame(F_TDATA, &[1, 0, 9]);
    rig.frame(F_TCLOSE, &[0, 1]);
    rig.frame(F_DATA, &[0, 0, 9]);
    assert!(rig.actions().is_empty());
    assert!(rig.txq.is_empty());
    assert!(rig.ch.pending(t).is_empty());
}

#[test]
fn source_closes_a_connection_over_its_limit() {
    let (mut rig, _, t) = source_with_conn();
    let mut payload = vec![0, 0];
    payload.resize(2 + TDATA_MAX, 7);
    let mut held = 0;
    while held <= CONN_HIGH_WATER {
        rig.frame(F_TDATA, &payload);
        held += TDATA_MAX;
    }
    assert_eq!(rig.ch.pending(t).len(), held);
    assert!(rig.txq.is_empty());
    rig.actions();
    rig.frame(F_TDATA, &payload);
    assert_eq!(rig.actions(), vec![Action::Deregister(t), Action::Close(t)]);
    assert_eq!(rig.frames(), vec![(F_TCLOSE, 2, vec![0, 0])]);
}

#[test]
fn source_suspends_and_resumes_connections() {
    let (mut rig, _, t) = source_with_conn();
    rig.ch.pause_source_reads(&mut rig.out);
    assert_eq!(rig.actions(), vec![Action::Deregister(t)]);
    rig.frame(F_TDATA, &[0, 0, 1]);
    assert_eq!(rig.actions(), vec![Action::Register(t, Interest::Writable)]);
    rig.ch.resume_source_reads(&mut rig.out);
    assert_eq!(rig.actions(), vec![Action::Reregister(t, Interest::ReadWrite)]);
    rig.ch.resume_source_reads(&mut rig.out);
    assert!(rig.actions().is_empty());
}

#[test]
fn source_closes_all_with_the_link() {
    let (mut rig, listener, t) = source_with_conn();
    rig.ch.on_link_disconnect(&mut rig.out);
    assert_eq!(rig.actions(), vec![Action::Deregister(t), Action::Close(t)]);
    assert!(rig.txq.is_empty());
    rig.ch.close(&mut rig.out);
    assert_eq!(rig.actions(), vec![Action::Deregister(listener)]);
}

fn dest_with_conn() -> (Rig, Token) {
    let ch = TcpDestChannel::new(2, "127.0.0.1".to_string(), 7125);
    assert_eq!(ch.dest_addr(), "127.0.0.1");
    assert_eq!(ch.dest_port(), 7125);
    let mut rig = Rig::new(Channel::TcpDest(ch));
    let t = tcp_slot_token(2, 4);
    assert_eq!(rig.frame(F_TCONN, &[4, 0]), Step::Connect(t));
    assert_eq!(rig.event(t, false, false, Event::ConnectStarted(true)), Step::Done);
    assert_eq!(rig.frame(F_TCONN, &[4, 0]), Step::Done);
    (rig, t)
}

fn connected_dest() -> (Rig, Token) {
    let (mut rig, t) = dest_with_conn();
    assert_eq!(rig.event(t, false, true, Event::Ready), Step::CheckConnect(t));
    assert_eq!(rig.event(t, false, true, Event::ConnectChecked(true)), Step::Done);
    assert_eq!(rig.actions(), vec![Action::Reregister(t, Interest::Readable)]);
    (rig, t)
}

#[test]
fn dest_tells_of_connects_that_fail() {
    let mut rig =
        Rig::new(Channel::TcpDest(TcpDestChannel::new(2, "127.0.0.1".to_string(), 7125)));
    let t = tcp_slot_token(2, 4);
    rig.event(t, false, false, Event::ConnectStarted(false));
    assert_eq!(rig.frames(), vec![(F_TCLOSE, 2, vec![4, 0])]);

    let (mut rig, t) = dest_with_conn();
    rig.event(t, false, true, Event::Ready);
    rig.event(t, false, true, Event::ConnectChecked(false));
    assert_eq!(rig.frames(), vec![(F_TCLOSE, 2, vec![4, 0])]);
    assert_eq!(rig.actions(), vec![Action::Deregister(t), Action::Close(t)]);
    assert_eq!(rig.frame(F_TCONN, &[4]), Step::Done);
    assert_eq!(rig.frame(F_TCONN, &[0, 1]), Step::Done);
}

#[test]
fn dest_keeps_data_until_it_is_connected() {
    let (mut rig, t) = dest_with_conn();
    rig.frame(F_TDATA, &[4, 0, 1, 2]);
    assert_eq!(rig.actions(), vec![Action::Reregister(t, Interest::ReadWrite)]);
    // A readable event alone is not a connection.
    assert_eq!(rig.event(t, true, false, Event::Ready), Step::Done);
    rig.actions();
    assert_eq!(rig.event(t, true, true, Event::Ready), Step::CheckConnect(t));
    assert_eq!(rig.event(t, true, true, Event::ConnectChecked(true)), Step::Write(t));
    assert_eq!(rig.ch.pending(t), &[1, 2]);
    // Writes first, then reads.
    assert_eq!(
        rig.event(t, true, true, Event::Written(WriteOutcome::Written(2))),
        Step::Read(t)
    );
    assert_eq!(
        rig.event(t, true, true, Event::Read(ReadOutcome::Data(&[8]))),
        Step::Read(t)
    );
    assert_eq!(rig.event(t, true, true, Event::Read(ReadOutcome::WouldBlock)), Step::Done);
    assert_eq!(rig.frames(), vec![(F_TDATA, 2, vec![4, 0, 8])]);
    assert_eq!(rig.actions(), vec![Action::Reregister(t, Interest::Readable)]);
}

#[test]
fn dest_drains_before_it_closes() {
    let (mut rig, t) = connected_dest();
    rig.frame(F_TDATA, &[4, 0, 1, 2]);
    rig.frame(F_TCLOSE, &[4, 0]);
    rig.actions();
    assert_eq!(rig.event(t, true, true, Event::Ready), Step::Write(t));
    assert_eq!(
        rig.event(t, true, true, Event::Written(WriteOutcome::Written(2))),
        Step::Done
    );
    assert_eq!(rig.actions(), vec![Action::Deregister(t), Action::Close(t)]);
    assert!(rig.txq.is_empty());
}

#[test]
fn dest_tells_of_ends_and_errors() {
    let (mut rig, t) = connected_dest();
    rig.event(t, true, false, Event::Read(ReadOutcome::Data(&[])));
    assert_eq!(rig.frames(), vec![(F_TCLOSE, 2, vec![4, 0])]);

    let (mut rig, t) = connected_dest();
    rig.frame(F_TDATA, &[4, 0, 1]);
    rig.event(t, false, true, Event::Written(WriteOutcome::Failed(32)));
    assert_eq!(rig.frames(), vec![(F_TCLOSE, 2, vec![4, 0])]);
    assert_eq!(rig.event(t, true, true, Event::Ready), Step::Done);
}

#[test]
fn dest_suspends_and_closes_connections() {
    let (mut rig, t) = connected_dest();
    rig.ch.pause_source_reads(&mut rig.out);
    assert_eq!(rig.actions(), vec![Action::Deregister(t)]);
    rig.ch.resume_source_reads(&mut rig.out);
    assert_eq!(rig.actions(), vec![Action::Register(t, Interest::Readable)]);
    // A greeting of the peer ends what is left of a previous session.
    rig.ch.on_link_connect(&mut rig.txq, &mut rig.out);
    assert_eq!(rig.actions(), vec![Action::Deregister(t), Action::Close(t)]);
    assert!(rig.txq.is_empty());
    rig.ch.on_link_disconnect(&mut rig.out);
    assert!(rig.actions().is_empty());
    assert_eq!(rig.event(primary_token(2), true, true, Event::Ready), Step::Done);
}
