//! What holds of a daemon's link: when it is opened, probed, and closed, and
//! what its reads and writes do.  Times are in nanoseconds.

#![allow(unused_imports)]

use super::channels;
use super::laws;
use super::{link, link_frame, DaemonModel, LinkOutcome, Route};
use crate::channel::token::{self, Token, MAX_CHANNEL_ID, MAX_TCP_CONNS};
use crate::channel::{Action, Event, Interest, Step};
use crate::protocol::frame::FrameModel;
use crate::protocol::{F_HELLO, F_PING, F_PONG};
use crate::protocol::{frame, parser, tx_queue};
use crate::serial::{ReadOutcome, WriteOutcome};
use crate::time::TIME_LIMIT;
use vstd::prelude::*;

verus! {

/// A link that was heard stays open: after a read that brings bytes the
/// keepalive timer closes it at no time within the next ten seconds, whichever
/// frame is handled meanwhile, and at every later time it does.
pub proof fn law_heard_link_stays_open(
    d: DaemonModel,
    data: &[u8],
    f: FrameModel,
    t: u64,
    u: u64,
)
    requires
        d.wf(),
        !d.disconnected,
        data@.len() > 0,
        t <= TIME_LIMIT,
    ensures
        ({
            let heard = d.on_read(ReadOutcome::Data(data), t).0.daemon;
            let handled = heard.on_frame(f, t).daemon;
            &&& !heard.disconnected
            &&& heard.on_keepalive(u).daemon.disconnected <==> u > t + 10_000_000_000
            &&& handled.on_keepalive(u).daemon.disconnected <==> u > t + 10_000_000_000
        }),
{
}

/// A read that brings bytes only takes them in: besides the time it is noted
/// at and the bytes held back for the next one nothing changes, and nothing is
/// ordered.
pub proof fn law_link_read_takes_bytes_in(d: DaemonModel, data: &[u8], now: u64)
    requires
        !d.disconnected,
        data@.len() > 0,
    ensures
        ({
            let e = d.on_read(ReadOutcome::Data(data), now).0;
            &&& e.daemon == (DaemonModel {
                last_rx: Some(now),
                received: e.daemon.received,
                ..d
            })
            &&& e.actions.len() == 0
        }),
{
}

/// Frames are found across reads: two reads give the frames that one read of
/// all their bytes gives, in order, and hold the same bytes back.
pub proof fn law_frames_are_found_across_reads(
    d: DaemonModel,
    first: &[u8],
    second: &[u8],
    both: &[u8],
    t: u64,
    u: u64,
)
    requires
        !d.disconnected,
        first@.len() > 0,
        second@.len() > 0,
        both@ == first@ + second@,
    ensures
        ({
            let (a, frames_a) = d.on_read(ReadOutcome::Data(first), t);
            let (b, frames_b) = a.daemon.on_read(ReadOutcome::Data(second), u);
            let (c, frames) = d.on_read(ReadOutcome::Data(both), u);
            &&& frames == frames_a + frames_b
            &&& c.daemon == b.daemon
        }),
{
    parser::law_parsing_ignores_chunk_boundaries(d.received + first@, second@);
    assert(d.received + first@ + second@ =~= d.received + both@);
}

/// A read without bytes changes nothing, and nor does a read of a link that is
/// not open.
pub proof fn law_empty_link_read_changes_nothing(d: DaemonModel, data: &[u8], now: u64)
    requires
        d.disconnected || data@.len() == 0,
    ensures
        d.on_read(ReadOutcome::Data(data), now).0.daemon == d,
        d.on_read(ReadOutcome::Data(data), now).0.actions.len() == 0,
        d.on_read(ReadOutcome::Data(data), now).1.len() == 0,
        d.on_read(ReadOutcome::WouldBlock, now).0.daemon == d,
        d.on_read(ReadOutcome::WouldBlock, now).0.actions.len() == 0,
        d.on_read(ReadOutcome::WouldBlock, now).1.len() == 0,
{
}

/// A link whose read or write fails is closed: a failed read in any case, a
/// failed write where there was something to write.  The descriptor is given
/// up, and the next attempt to open it is put off by the current delay.
pub proof fn law_failed_link_is_closed(
    d: DaemonModel,
    read: ReadOutcome,
    write: WriteOutcome,
    now: u64,
)
    requires
        d.wf(),
        !d.disconnected,
        now <= TIME_LIMIT,
        read is Failed,
        write is Failed,
        d.queue.len() > 0,
    ensures
        is_closed(d, d.on_read(read, now).0.daemon, now),
        d.on_read(read, now).0.actions.take(2) == seq![
            Action::Deregister(link()),
            Action::Close(link()),
        ],
        d.on_read(read, now).1.len() == 0,
        is_closed(d, d.on_write(write, now).daemon, now),
        d.on_write(write, now).actions.take(2) == seq![
            Action::Deregister(link()),
            Action::Close(link()),
        ],
{
    let two = seq![Action::Deregister(link()), Action::Close(link())];
    assert(d.on_close(now).actions.take(2) =~= two);
    laws::law_closed_link_leaves_nothing(d, now);
}

/// The daemon after it closed its link: nothing is queued, every channel was
/// told, and the link is to be opened again after the delay.
pub open spec fn is_closed(d: DaemonModel, after: DaemonModel, now: u64) -> bool {
    &&& after.disconnected
    &&& !after.link_up
    &&& !after.link_bp
    &&& after.queue.len() == 0
    &&& channels::all_down(after.channels)
    &&& channels::all_paused(after.channels, false)
    &&& after.reopen_at == now + d.reopen_delay
    &&& after.mode == d.mode
    &&& after.link_dev == d.link_dev
    &&& after.usb_id == d.usb_id
}

/// A link that is silent for more than ten seconds is closed, and one that is
/// not open is left alone.
pub proof fn law_silent_link_is_closed(d: DaemonModel, t: u64, now: u64)
    requires
        d.wf(),
        now <= TIME_LIMIT,
        d.last_rx == Some(t),
    ensures
        !d.disconnected && now > t + 10_000_000_000 ==> is_closed(
            d,
            d.on_keepalive(now).daemon,
            now,
        ) && d.on_keepalive(now).actions.take(2) == seq![
            Action::Deregister(link()),
            Action::Close(link()),
        ],
        d.disconnected ==> d.on_keepalive(now).daemon == d && d.on_keepalive(now).actions.len()
            == 0 && d.on_close(now).daemon == d && d.on_close(now).actions.len() == 0,
{
    if !d.disconnected {
        let two = seq![Action::Deregister(link()), Action::Close(link())];
        assert(d.on_close(now).actions.take(2) =~= two);
        laws::law_closed_link_leaves_nothing(d, now);
    }
}

/// When a probe is sent: to a link that was heard within the last ten seconds,
/// is up, has nothing queued, and to which nothing was sent for three seconds.
/// Else nothing happens.
pub proof fn law_probe_is_sent_when_due(d: DaemonModel, heard: u64, sent: u64, now: u64)
    requires
        d.wf(),
        !d.disconnected,
        d.last_rx == Some(heard),
        d.last_tx == Some(sent),
        now <= heard + 10_000_000_000,
    ensures
        ({
            let e = d.on_keepalive(now);
            if d.link_up && d.queue.len() == 0 && now >= sent + 3_000_000_000 {
                &&& e.daemon == (DaemonModel {
                    queue: frame::frame_bytes(F_PING, 0, Seq::empty()),
                    last_tx: Some(now),
                    ..d
                })
                &&& e.actions == seq![Action::Reregister(link(), Interest::ReadWrite)]
            } else {
                e.daemon == d && e.actions.len() == 0
            }
        }),
{
    frame::lemma_frame_size(F_PING, 0, Seq::empty());
    assert(Seq::<u8>::empty() + link_frame(F_PING) =~= link_frame(F_PING));
    if d.queue.len() == 0 {
        assert(d.queue =~= Seq::empty());
    }
}

/// Sending puts a probe off: once something was queued at `t`, no probe is sent
/// within the three seconds that follow, even where all of it was written; and
/// where the link is up and still heard, one is sent when they have passed.
pub proof fn law_sending_puts_probes_off(d: DaemonModel, t: u64, heard: u64, u: u64)
    requires
        d.wf(),
        !d.disconnected,
        !d.link_bp,
        0 < d.queue.len() <= usize::MAX,
        d.last_rx == Some(heard),
        t <= TIME_LIMIT,
        u <= heard + 10_000_000_000,
    ensures
        ({
            let all = WriteOutcome::Written(d.queue.len() as usize);
            let drained = d.on_settle(t).daemon.on_write(all, t).daemon;
            let later = drained.on_keepalive(u).daemon;
            &&& u < t + 3_000_000_000 ==> later == drained
            &&& u >= t + 3_000_000_000 && d.link_up ==> later.queue == frame::frame_bytes(
                F_PING,
                0,
                Seq::empty(),
            )
        }),
{
    let all = WriteOutcome::Written(d.queue.len() as usize);
    let drained = d.on_settle(t).daemon.on_write(all, t).daemon;
    assert(drained.queue =~= Seq::empty());
    frame::lemma_frame_size(F_PING, 0, Seq::empty());
    assert(Seq::<u8>::empty() + link_frame(F_PING) =~= link_frame(F_PING));
}

/// A probe puts the next one off, in the same way.
pub proof fn law_probes_keep_their_distance(d: DaemonModel, t: u64, u: u64)
    requires
        d.wf(),
        !d.disconnected,
        !d.link_bp,
        d.queue.len() == 0,
        d.on_keepalive(t).daemon.queue.len() > 0,
        u < t + 3_000_000_000,
        d.last_rx matches Some(heard) ==> u <= heard + 10_000_000_000,
    ensures
        ({
            let probed = d.on_keepalive(t).daemon;
            let all = WriteOutcome::Written(probed.queue.len() as usize);
            let drained = probed.on_write(all, t).daemon;
            &&& drained.queue.len() == 0
            &&& drained.on_keepalive(u).daemon == drained
        }),
{
    frame::lemma_frame_size(F_PING, 0, Seq::empty());
    let probed = d.on_keepalive(t).daemon;
    let all = WriteOutcome::Written(probed.queue.len() as usize);
    assert(probed.on_write(all, t).daemon.queue =~= Seq::empty());
}

/// The link is settled: it waits for room just while something is queued, and
/// what is queued counts as sent now; nothing else changes.
pub proof fn law_link_is_settled(d: DaemonModel, now: u64)
    ensures
        ({
            let e = d.on_settle(now);
            &&& e.daemon == (DaemonModel { last_tx: e.daemon.last_tx, ..d })
            &&& e.daemon.last_tx == (if d.queue.len() > 0 {
                Some(now)
            } else {
                d.last_tx
            })
            &&& e.actions == (if d.disconnected {
                Seq::<Action>::empty()
            } else if d.queue.len() > 0 {
                seq![Action::Reregister(link(), Interest::ReadWrite)]
            } else {
                seq![Action::Reregister(link(), Interest::Readable)]
            })
        }),
{
}

/// A write to the link takes off the queue just the bytes that it took, none
/// where it would block; the link stays open, and stops waiting for room when
/// the queue is empty.  What changes besides is at most that backpressure is
/// lifted.
pub proof fn law_link_write_takes_bytes_off(d: DaemonModel, n: usize, now: u64)
    requires
        d.wf(),
        !d.disconnected,
        n <= d.queue.len(),
    ensures
        ({
            let e = d.on_write(WriteOutcome::Written(n), now);
            let rest = d.queue.skip(n as int);
            let lifted = d.link_bp && rest.len() < 262_144;
            &&& e.daemon == (DaemonModel {
                queue: rest,
                link_bp: d.link_bp && !lifted,
                channels: e.daemon.channels,
                ..d
            })
            &&& !lifted ==> e.daemon.channels == d.channels
            &&& rest.len() == 0 ==> e.actions.len() > 0 && e.actions.last() == Action::Reregister(
                link(),
                Interest::Readable,
            )
            &&& rest.len() > 0 && !lifted ==> e.actions.len() == 0
        }),
        n == 0 ==> d.on_write(WriteOutcome::WouldBlock, now) == d.on_write(
            WriteOutcome::Written(n),
            now,
        ),
        n == d.queue.len() ==> d.on_write(WriteOutcome::Written(n), now).daemon.queue.len() == 0,
{
    assert(d.queue.skip(0) =~= d.queue);
}

/// A write that fails while nothing is queued fails nothing, and a write to a
/// link that is not open is no write.
pub proof fn law_idle_write_changes_nothing(d: DaemonModel, write: WriteOutcome, now: u64)
    requires
        d.wf(),
        d.disconnected || write is Failed && d.queue.len() == 0 && !d.link_bp,
    ensures
        d.on_write(write, now).daemon == d,
        d.disconnected ==> d.on_write(write, now).actions.len() == 0,
        !d.disconnected ==> d.on_write(write, now).actions == seq![
            Action::Reregister(link(), Interest::Readable),
        ],
{
    if !d.disconnected {
        assert(d.on_write(write, now).actions =~= seq![
            Action::Reregister(link(), Interest::Readable),
        ]);
    }
}

/// What is written to the link in two goes is what would be written in one.
pub proof fn law_link_writes_go_on(d: DaemonModel, m: usize, n: usize, now: u64)
    requires
        d.wf(),
        !d.disconnected,
        m + n <= d.queue.len(),
        m + n <= usize::MAX,
    ensures
        d.on_write(WriteOutcome::Written(m), now).daemon.on_write(
            WriteOutcome::Written(n),
            now,
        ).daemon.queue == d.on_write(WriteOutcome::Written((m + n) as usize), now).daemon.queue,
{
    assert(d.queue.skip(m as int).skip(n as int) =~= d.queue.skip(m + n));
}

/// A link that was opened starts afresh: only the greeting is queued, nothing
/// of what was received before is left, the link waits for data and for room,
/// and it is not closed before ten silent seconds have passed.  The next delay
/// is half a second again.
pub proof fn law_opened_link_starts_afresh(d: DaemonModel, t: u64, u: u64)
    requires
        d.wf(),
        d.disconnected,
        t <= TIME_LIMIT,
        u <= TIME_LIMIT,
    ensures
        ({
            let e = d.on_open(LinkOutcome::Opened, t);
            &&& e.daemon == (DaemonModel {
                disconnected: false,
                received: Seq::empty(),
                queue: frame::frame_bytes(F_HELLO, 0, Seq::empty()),
                reopen_delay: 500_000_000,
                last_rx: Some(t),
                last_tx: Some(t),
                ..d
            })
            &&& !e.daemon.link_up
            &&& e.actions == seq![Action::Reregister(link(), Interest::ReadWrite)]
            &&& e.daemon.on_keepalive(u).daemon.disconnected <==> u > t + 10_000_000_000
            &&& e.daemon.on_close(u).daemon.reopen_at == u + 500_000_000
        }),
{
}

/// A link that could not be opened is tried again after the current delay,
/// which doubles up to eight seconds; nothing else changes, and what was opened
/// in vain is closed.
pub proof fn law_failed_opening_is_put_off(d: DaemonModel, outcome: LinkOutcome, now: u64)
    requires
        d.wf(),
        d.disconnected,
        now <= TIME_LIMIT,
        outcome != LinkOutcome::Opened,
    ensures
        ({
            let e = d.on_open(outcome, now);
            &&& e.daemon == (DaemonModel {
                reopen_at: (now + d.reopen_delay) as u64,
                reopen_delay: if d.reopen_delay <= 4_000_000_000 {
                    (2 * d.reopen_delay) as u64
                } else {
                    8_000_000_000
                },
                ..d
            })
            &&& e.daemon.disconnected
            &&& 500_000_000 <= d.reopen_delay <= 8_000_000_000
            &&& e.actions == (if outcome == LinkOutcome::RegisterFailed {
                seq![Action::Close(link())]
            } else {
                Seq::<Action>::empty()
            })
        }),
{
}

/// Only reading counts as hearing, and nothing but a read or the opening of
/// the link moves the time at which it was last heard.
pub proof fn law_only_reads_are_heard(
    d: DaemonModel,
    f: FrameModel,
    write: WriteOutcome,
    id: u8,
    token: Token,
    readable: bool,
    writable: bool,
    event: Event,
    now: u64,
)
    ensures
        d.on_frame(f, now).daemon.last_rx == d.last_rx,
        d.on_write(write, now).daemon.last_rx == d.last_rx,
        d.on_settle(now).daemon.last_rx == d.last_rx,
        d.on_high_water().daemon.last_rx == d.last_rx,
        d.on_keepalive(now).daemon.last_rx == d.last_rx,
        d.on_tick(now).daemon.last_rx == d.last_rx,
        d.on_channel_event(id, token, readable, writable, event, now).daemon.last_rx == d.last_rx,
{
}

/// The answer to a probe only counts as heard: it changes nothing.
pub proof fn law_probe_answer_changes_nothing(d: DaemonModel, f: FrameModel, now: u64)
    requires
        f.ftype == F_PONG,
    ensures
        d.on_frame(f, now).daemon == d,
        d.on_frame(f, now).actions.len() == 0,
        d.on_frame(f, now).step == Step::Done,
{
}

/// A probe is answered at once and changes nothing else: the answer is queued,
/// the link waits for room, and the answer counts as sent.
pub proof fn law_probe_answer_is_queued(d: DaemonModel, f: FrameModel, now: u64)
    requires
        d.wf(),
        !d.disconnected,
        f.ftype == F_PING,
    ensures
        ({
            let e = d.on_frame(f, now);
            &&& e.daemon == (DaemonModel {
                queue: tx_queue::enqueued(
                    d.queue,
                    frame::frame_bytes(F_PONG, 0, Seq::empty()),
                ),
                last_tx: Some(now),
                ..d
            })
            &&& e.actions == seq![Action::Reregister(link(), Interest::ReadWrite)]
            &&& e.step == Step::Done
        }),
{
}

/// Events find whom they concern: those of the link the link while it is open,
/// and those of a channel's descriptors the channel.
pub proof fn law_events_find_their_way(d: DaemonModel, id: u8, slot: int)
    requires
        id <= MAX_CHANNEL_ID,
        0 <= slot < MAX_TCP_CONNS,
    ensures
        d.route(link()) == (if d.disconnected {
            Route::Stale
        } else {
            Route::Link
        }),
        d.route(token::primary(id)) == Route::Channel(id),
        d.route(token::tcp_slot(id, slot)) == Route::Channel(id),
        forall|t: Token| #[trigger] d.route(t) is Link || d.route(t) is Stale ==> t == link(),
{
    token::law_tokens_are_reversible(id, slot);
    token::law_tokens_are_distinct(id, slot, id, slot);
}

} // verus!
