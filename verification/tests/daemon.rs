//! The daemon, driven by hand.

use serialmux::channel::{
    primary_token, Action, Channel, Event, Interest, McuChannel, PtyChannel, PtyOutcome, Step,
    Token, TOKEN_LINK,
};
use serialmux::daemon::{
    Daemon, LinkOutcome, LinkTarget, Route, KA_INTERVAL, KA_TIMEOUT, MAX_TICK, REOPEN_DELAY_MIN,
};
use serialmux::protocol::{
    Frame, FrameParser, F_ACK, F_DATA, F_FLUSH, F_HELLO, F_PING, F_PONG, F_READY, LINK_HIGH_WATER,
    LINK_LOW_WATER, MAX_PAYLOAD,
};
use serialmux::serial::{ReadOutcome, WriteOutcome};
use serialmux::time::{MILLISECOND, SECOND};

const LINK: Token = Token(TOKEN_LINK);
const START: u64 = 100 * SECOND;

fn frame(ftype: u8, channel: u8, payload: &[u8]) -> Frame {
    Frame { ftype, channel, payload: payload.to_vec() }
}

fn queued(d: &Daemon) -> Vec<(u8, u8, Vec<u8>)> {
    let mut parser = FrameParser::new();
    parser
        .feed(d.link_segment())
        .into_iter()
        .map(|f| (f.ftype, f.channel, f.payload))
        .collect()
}

/// Write all that is queued.
fn flush(d: &mut Daemon, now: u64) -> Vec<Action> {
    let mut out = Vec::new();
    while !d.link_segment().is_empty() {
        let n = d.link_segment().len();
        d.link_write(WriteOutcome::Written(n), now, &mut out);
    }
    out
}

fn mcu(id: u8) -> Channel {
    Channel::Mcu(McuChannel::new(id, "/dev/ttyS7".to_string(), 230400).0)
}

fn pty(id: u8) -> Channel {
    let mut out = Vec::new();
    Channel::Pty(PtyChannel::new(id, "/tmp/klipper_mcu".to_string(), 230400, &mut out))
}

fn daemon(channels: Vec<Channel>) -> Daemon {
    Daemon::new("host".to_string(), Some("/dev/ttyGS0".to_string()), None, channels, START)
}

fn opened(channels: Vec<Channel>) -> Daemon {
    let mut d = daemon(channels);
    let mut out = Vec::new();
    d.open_link(LinkOutcome::Opened, START, &mut out);
    assert_eq!(out, vec![Action::Reregister(LINK, Interest::ReadWrite)]);
    d
}

fn connected(channels: Vec<Channel>) -> Daemon {
    let mut d = opened(channels);
    let mut out = Vec::new();
    d.dispatch_frame(&frame(F_ACK, 0, &[]), START, &mut out);
    flush(&mut d, START);
    d
}

#[test]
fn link_device_is_resolved() {
    let d = daemon(vec![]);
    assert!(matches!(d.resolve_dev(), LinkTarget::Device("/dev/ttyGS0")));
    assert_eq!(d.mode(), "host");
    let ids = Some(("1d6b".to_string(), "0104".to_string()));
    let d = Daemon::new("exporter".to_string(), Some("/dev/x".to_string()), ids, vec![], 0);
    assert!(matches!(d.resolve_dev(), LinkTarget::Usb("1d6b", "0104")));
    let d = Daemon::new("exporter".to_string(), None, None, vec![], 0);
    assert!(matches!(d.resolve_dev(), LinkTarget::Missing));
}

#[test]
fn opened_link_greets_the_peer() {
    let d = opened(vec![]);
    assert!(!d.is_disconnected());
    assert_eq!(queued(&d), vec![(F_HELLO, 0, vec![])]);
}

#[test]
fn reopening_backs_off() {
    let mut d = daemon(vec![]);
    let mut out = Vec::new();
    let mut now = START;
    assert!(d.open_due(now));
    for delay in [500u64, 1000, 2000, 4000, 8000, 8000] {
        d.open_link(LinkOutcome::NoDevice, now, &mut out);
        assert!(d.is_disconnected());
        assert!(!d.open_due(now + delay * MILLISECOND - 1));
        assert!(d.open_due(now + delay * MILLISECOND));
        now += delay * MILLISECOND;
    }
    assert!(out.is_empty());
    d.open_link(LinkOutcome::RegisterFailed, now, &mut out);
    assert_eq!(out, vec![Action::Close(LINK)]);
    now += 8 * SECOND;
    d.open_link(LinkOutcome::OpenFailed, now, &mut out);
    now += 8 * SECOND;
    // Success starts the delays over.
    d.open_link(LinkOutcome::Opened, now, &mut out);
    assert!(!d.open_due(now));
    d.close_link(now, &mut out);
    assert!(d.open_due(now + REOPEN_DELAY_MIN));
}

#[test]
fn handshake_announces_channel_states() {
    let mut d = opened(vec![mcu(1), mcu(0)]);
    flush(&mut d, START);
    let mut out = Vec::new();
    d.dispatch_frame(&frame(F_HELLO, 0, &[]), START, &mut out);
    assert_eq!(
        queued(&d),
        vec![(F_ACK, 0, vec![]), (F_FLUSH, 0, vec![]), (F_FLUSH, 1, vec![])]
    );
    flush(&mut d, START);
    // A peer that reconnects is told again; another acknowledgement is not news.
    d.dispatch_frame(&frame(F_ACK, 0, &[]), START, &mut out);
    assert!(queued(&d).is_empty());
    d.dispatch_frame(&frame(F_HELLO, 0, &[]), START, &mut out);
    assert_eq!(queued(&d).len(), 3);
}

#[test]
fn acknowledgement_completes_the_handshake() {
    let mut d = opened(vec![mcu(0)]);
    flush(&mut d, START);
    let mut out = Vec::new();
    d.dispatch_frame(&frame(F_ACK, 0, &[]), START, &mut out);
    assert_eq!(queued(&d), vec![(F_FLUSH, 0, vec![])]);
    assert_eq!(out, vec![Action::Reregister(LINK, Interest::ReadWrite)]);
}

#[test]
fn probes_are_answered() {
    let mut d = connected(vec![]);
    let mut out = Vec::new();
    d.dispatch_frame(&frame(F_PING, 0, &[]), START, &mut out);
    assert_eq!(queued(&d), vec![(F_PONG, 0, vec![])]);
    assert_eq!(out, vec![Action::Reregister(LINK, Interest::ReadWrite)]);
    assert_eq!(flush(&mut d, START), vec![Action::Reregister(LINK, Interest::Readable)]);
    out.clear();
    d.dispatch_frame(&frame(F_PONG, 0, &[]), START, &mut out);
    assert!(out.is_empty() && queued(&d).is_empty());
}

#[test]
fn idle_link_is_probed_and_silent_link_dropped() {
    let mut d = connected(vec![pty(0)]);
    let mut out = Vec::new();
    d.tick_keepalive(START + KA_INTERVAL - 1, &mut out);
    assert!(queued(&d).is_empty());
    d.tick_keepalive(START + KA_INTERVAL, &mut out);
    assert_eq!(queued(&d), vec![(F_PING, 0, vec![])]);
    // Not again while something is queued.
    d.tick_keepalive(START + 2 * KA_INTERVAL, &mut out);
    assert_eq!(queued(&d).len(), 1);
    d.tick_keepalive(START + KA_TIMEOUT, &mut out);
    assert!(!d.is_disconnected());
    out.clear();
    d.tick_keepalive(START + KA_TIMEOUT + 1, &mut out);
    assert!(d.is_disconnected());
    assert_eq!(
        out,
        vec![
            Action::Deregister(LINK),
            Action::Close(LINK),
            Action::RemoveSymlink(primary_token(0)),
        ]
    );
    assert!(d.link_segment().is_empty());
}

#[test]
fn receiving_does_not_put_a_probe_off() {
    let mut d = connected(vec![pty(0)]);
    let mut out = Vec::new();
    let mut now = START;
    // Data for an absent channel, a frame that a channel takes without a
    // reply, and an event that leaves nothing to send.
    for f in [frame(F_DATA, 9, &[1]), frame(F_READY, 0, &[]), frame(F_PONG, 0, &[])] {
        now += SECOND;
        assert!(d.link_read(ReadOutcome::Data(&[0]), now, &mut out).is_empty());
        d.dispatch_frame(&f, now, &mut out);
        d.finish_event(now, &mut out);
        assert!(queued(&d).is_empty());
    }
    assert_eq!(now, START + KA_INTERVAL);
    d.tick_keepalive(now, &mut out);
    assert_eq!(queued(&d), vec![(F_PING, 0, vec![])]);
    // What is sent does put the next one off.
    flush(&mut d, now);
    now += KA_INTERVAL - 1;
    d.dispatch_frame(&frame(F_PING, 0, &[]), now, &mut out);
    flush(&mut d, now);
    now += KA_INTERVAL - 1;
    d.tick_keepalive(now, &mut out);
    assert!(queued(&d).is_empty());
}

#[test]
fn link_that_is_not_up_is_not_probed() {
    let mut d = opened(vec![]);
    flush(&mut d, START);
    let mut out = Vec::new();
    d.tick_keepalive(START + KA_INTERVAL, &mut out);
    assert!(queued(&d).is_empty());
}

#[test]
fn frames_are_routed_to_their_channels() {
    let mut d = connected(vec![pty(0), pty(1)]);
    let mut out = Vec::new();
    let t = primary_token(1);
    let step = d.dispatch_frame(&frame(F_READY, 1, &[]), START, &mut out);
    assert_eq!(step, Step::OpenPty(t));
    let opened = Event::PtyOpened(PtyOutcome::Opened);
    d.channel_event(1, t, false, false, opened, START, &mut out);
    let step = d.dispatch_frame(&frame(F_DATA, 1, &[1, 2]), START, &mut out);
    assert_eq!(step, Step::Write(t));
    assert_eq!(d.channel(1).unwrap().pending(t), &[1, 2]);
    assert!(d.channel(0).unwrap().pending(primary_token(0)).is_empty());
    assert!(d.channel(2).is_none());
    assert_eq!(d.dispatch_frame(&frame(F_DATA, 9, &[1]), START, &mut out), Step::Done);
}

#[test]
fn reads_of_the_link_give_frames() {
    let mut d = opened(vec![]);
    let mut out = Vec::new();
    let hello = d.link_segment().to_vec();
    let frames = d.link_read(ReadOutcome::Data(&hello[..4]), START, &mut out);
    assert!(frames.is_empty());
    let frames = d.link_read(ReadOutcome::Data(&hello[4..]), START, &mut out);
    assert_eq!(frames.len(), 1);
    assert_eq!(frames[0].ftype, F_HELLO);
    assert!(d.link_read(ReadOutcome::WouldBlock, START, &mut out).is_empty());
    // A terminal without data gives no bytes; that is not its end.
    assert!(d.link_read(ReadOutcome::Data(&[]), START, &mut out).is_empty());
    assert!(!d.is_disconnected());
    assert!(d.link_read(ReadOutcome::Failed(5), START, &mut out).is_empty());
    assert!(d.is_disconnected());
    assert_eq!(out, vec![Action::Deregister(LINK), Action::Close(LINK)]);
}

#[test]
fn write_error_closes_the_link() {
    let mut d = opened(vec![]);
    let mut out = Vec::new();
    d.link_write(WriteOutcome::WouldBlock, START, &mut out);
    assert!(!d.is_disconnected() && out.is_empty());
    d.link_write(WriteOutcome::Failed(5), START, &mut out);
    assert!(d.is_disconnected());
    assert_eq!(d.route(LINK), Route::Stale);
}

#[test]
fn events_are_routed() {
    let d = opened(vec![]);
    assert_eq!(d.route(LINK), Route::Link);
    assert_eq!(d.route(primary_token(7)), Route::Channel(7));
    assert_eq!(d.route(Token(64 + 63 * 256)), Route::Unknown);
}

/// A daemon with an active MCU channel on id 0, whose UART is open.
fn exporting() -> (Daemon, Token) {
    let mut d = connected(vec![mcu(0)]);
    let mut out = Vec::new();
    let t = primary_token(0);
    d.channel_event(0, t, false, false, Event::UartOpened(true), START, &mut out);
    let sync = Event::Read(ReadOutcome::Data(&[0x7E]));
    d.channel_event(0, t, true, false, sync, START, &mut out);
    flush(&mut d, START);
    (d, t)
}

#[test]
fn backpressure_pauses_above_high_water_and_resumes_below_low_water() {
    let (mut d, t) = exporting();
    let mut out = Vec::new();
    let block = vec![0u8; MAX_PAYLOAD];
    let mut used = 0;
    // Fill the queue to exactly the high-water mark: one frame adds ten bytes.
    while used < LINK_HIGH_WATER {
        let n = (LINK_HIGH_WATER - used - 10).min(MAX_PAYLOAD);
        let n = if (1..=10).contains(&(LINK_HIGH_WATER - used - n - 10)) { n - 20 } else { n };
        let read = Event::Read(ReadOutcome::Data(&block[..n]));
        d.channel_event(0, t, true, false, read, START, &mut out);
        used += n + 10;
    }
    assert_eq!(used, LINK_HIGH_WATER);
    d.finish_event(START, &mut out);
    assert!(!out.contains(&Action::Deregister(t)));
    let read = Event::Read(ReadOutcome::Data(&block[..1]));
    d.channel_event(0, t, true, false, read, START, &mut out);
    used += 11;
    out.clear();
    d.finish_event(START, &mut out);
    assert_eq!(
        out,
        vec![Action::Deregister(t), Action::Reregister(LINK, Interest::ReadWrite)]
    );

    // Drain to exactly the low-water mark: reads stay suspended.
    out.clear();
    while used > LINK_LOW_WATER {
        let n = d.link_segment().len().min(used - LINK_LOW_WATER);
        d.link_write(WriteOutcome::Written(n), START, &mut out);
        used -= n;
    }
    assert!(out.is_empty());
    d.link_write(WriteOutcome::Written(1), START, &mut out);
    assert_eq!(out, vec![Action::Register(t, Interest::Readable)]);
}

#[test]
fn closed_link_resumes_and_disconnects_channels() {
    let (mut d, t) = exporting();
    let mut out = Vec::new();
    let block = vec![0u8; MAX_PAYLOAD];
    for _ in 0..33 {
        let read = Event::Read(ReadOutcome::Data(&block));
        d.channel_event(0, t, true, false, read, START, &mut out);
    }
    d.finish_event(START, &mut out);
    assert!(out.contains(&Action::Deregister(t)));
    out.clear();
    d.close_link(START, &mut out);
    assert_eq!(
        out,
        vec![
            Action::Deregister(LINK),
            Action::Close(LINK),
            Action::Register(t, Interest::Readable),
            Action::Reregister(t, Interest::Readable),
        ]
    );
    assert!(d.link_segment().is_empty());
    // Without a link nothing is queued, and closing it again does nothing.
    let read = Event::Read(ReadOutcome::Data(&[1]));
    d.channel_event(0, t, true, false, read, START, &mut out);
    assert!(d.link_segment().is_empty());
    out.clear();
    d.close_link(START, &mut out);
    assert!(out.is_empty());
}

#[test]
fn ticks_ask_for_what_channels_need() {
    let mut d = connected(vec![mcu(0), mcu(5)]);
    let mut out = Vec::new();
    let t = primary_token(5);
    d.channel_event(5, t, false, false, Event::UartOpened(false), START, &mut out);
    assert!(d.tick(START + SECOND, &mut out).is_empty());
    assert_eq!(d.tick(START + 2 * SECOND, &mut out), vec![Step::OpenUart(t)]);
    assert!(out.is_empty());
}

#[test]
fn silence_of_an_mcu_is_announced() {
    let (mut d, _) = exporting();
    let mut out = Vec::new();
    d.tick(START + 5 * SECOND + 1, &mut out);
    assert_eq!(queued(&d), vec![(F_FLUSH, 0, vec![])]);
    assert_eq!(out, vec![Action::Reregister(LINK, Interest::ReadWrite)]);
}

#[test]
fn waiting_ends_in_time() {
    let mut d = daemon(vec![]);
    let mut out = Vec::new();
    assert_eq!(d.next_timeout(START), 0);
    d.open_link(LinkOutcome::NoDevice, START, &mut out);
    assert_eq!(d.next_timeout(START), REOPEN_DELAY_MIN);
    assert_eq!(d.next_timeout(START + 100 * MILLISECOND), 400 * MILLISECOND);
    let d = connected(vec![]);
    assert_eq!(d.next_timeout(START), MAX_TICK);
    assert_eq!(d.next_timeout(START + KA_INTERVAL - 7), 7);
    assert_eq!(d.next_timeout(START + KA_INTERVAL), 0);
    let (d, _) = exporting();
    assert_eq!(d.next_timeout(START + 2500 * MILLISECOND), 500 * MILLISECOND);
}

#[test]
fn later_of_two_channels_with_one_id_stays() {
    let d = daemon(vec![mcu(0), pty(0)]);
    assert!(matches!(d.channel(0), Some(Channel::Pty(_))));
}

#[test]
fn serial_bytes_cross_two_daemons() {
    let (mut exporter, uart) = exporting();
    let mut host = connected(vec![pty(0)]);
    let mut out = Vec::new();
    let master = primary_token(0);
    let data: Vec<u8> = (0..200u8).collect();

    // The exporter announces itself anew, and sends what the UART gave.
    exporter.dispatch_frame(&frame(F_HELLO, 0, &[]), START, &mut out);
    let read = Event::Read(ReadOutcome::Data(&data));
    exporter.channel_event(0, uart, true, false, read, START, &mut out);
    let wire = exporter.link_segment().to_vec();
    for f in host.link_read(ReadOutcome::Data(&wire), START, &mut out) {
        if let Step::OpenPty(t) = host.dispatch_frame(&f, START, &mut out) {
            let opened = Event::PtyOpened(PtyOutcome::Opened);
            host.channel_event(0, t, false, false, opened, START, &mut out);
        }
    }
    assert_eq!(host.channel(0).unwrap().pending(master), data.as_slice());

    // And back.
    flush(&mut host, START);
    let read = Event::Read(ReadOutcome::Data(&[7, 8, 9]));
    host.channel_event(0, master, true, false, read, START, &mut out);
    let wire = host.link_segment().to_vec();
    for f in exporter.link_read(ReadOutcome::Data(&wire), START, &mut out) {
        exporter.dispatch_frame(&f, START, &mut out);
    }
    assert_eq!(exporter.channel(0).unwrap().pending(uart), &[7, 8, 9]);
}
