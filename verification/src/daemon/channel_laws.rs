//! What holds of a daemon's channels: who they are, what each of them is told,
//! and what they have to tell.  Times are in nanoseconds.

#![allow(unused_imports)]

use super::channels;
use super::{link, link_frame, DaemonModel};
use crate::channel::mcu::{McuModel, McuState};
use crate::channel::token::{self, Token};
use crate::channel::{Action, ChannelModel, Event, Interest, Step};
use crate::protocol::frame::FrameModel;
use crate::protocol::{
    F_ACK, F_DATA, F_FLUSH, F_HELLO, F_PING, F_PONG, F_READY, F_TDATA, LINK_HIGH_WATER,
};
use crate::protocol::{frame, tx_queue};
use crate::time::TIME_LIMIT;
use channels::CHANNEL_IDS;
use vstd::prelude::*;

verus! {

/// A channel stands in the place of its id: the last one of a list that has
/// it, and none where none has.
pub proof fn law_last_channel_of_an_id_stays(list: Seq<ChannelModel>, k: int, id: int)
    requires
        0 <= id < CHANNEL_IDS,
        -1 <= k < list.len(),
        k >= 0 ==> list[k].id() == id,
        forall|j: int| k < j < list.len() ==> (#[trigger] list[j]).id() != id,
    ensures
        channels::collected(list).len() == 256,
        channels::collected(list)[id] == (if k >= 0 {
            Some(list[k])
        } else {
            None
        }),
    decreases list.len(),
{
    if list.len() > 0 {
        let front = list.drop_last();
        if k == list.len() - 1 {
            lemma_collected_len(front);
        } else {
            law_last_channel_of_an_id_stays(front, k, id);
            assert(list.last() == list[list.len() - 1]);
        }
    }
}

proof fn lemma_collected_len(list: Seq<ChannelModel>)
    ensures
        channels::collected(list).len() == CHANNEL_IDS,
    decreases list.len(),
{
    if list.len() > 0 {
        lemma_collected_len(list.drop_last());
    }
}

/// When backpressure changes: it is applied where more than 512 KiB are queued,
/// lifted where less than 256 KiB are, and stays as it is otherwise.  Every
/// channel is told of a change, and nothing else changes.
pub proof fn law_backpressure_has_two_marks(d: DaemonModel, id: int)
    requires
        d.wf(),
        0 <= id < CHANNEL_IDS,
    ensures
        ({
            let e = d.on_high_water();
            &&& e.daemon.link_bp <==> d.link_bp || d.queue.len() > 524_288
            &&& e.daemon == (DaemonModel {
                link_bp: e.daemon.link_bp,
                channels: e.daemon.channels,
                ..d
            })
            &&& told_to_pause(d, e.daemon, id)
            &&& e.daemon.link_bp == d.link_bp ==> e.actions.len() == 0
        }),
        ({
            let e = d.on_low_water();
            &&& e.daemon.link_bp <==> d.link_bp && d.queue.len() >= 262_144
            &&& e.daemon == (DaemonModel {
                link_bp: e.daemon.link_bp,
                channels: e.daemon.channels,
                ..d
            })
            &&& told_to_pause(d, e.daemon, id)
            &&& e.daemon.link_bp == d.link_bp ==> e.actions.len() == 0
        }),
{
}

/// A channel is suspended, or resumed, where backpressure changed, and left
/// alone where it did not.
pub open spec fn told_to_pause(d: DaemonModel, after: DaemonModel, id: int) -> bool {
    match d.channels[id] {
        Some(c) => after.channels[id] == Some(
            if after.link_bp == d.link_bp {
                c
            } else {
                c.on_pause(after.link_bp, Seq::empty()).ch
            },
        ),
        None => after.channels[id] is None,
    }
}

/// All of `part` stands in `whole`, in one piece.
pub open spec fn holds(whole: Seq<Action>, part: Seq<Action>) -> bool {
    exists|k: int|
        0 <= k <= whole.len() - part.len() && #[trigger] whole.subrange(k, k + part.len()) == part
}

proof fn lemma_holds_front(whole: Seq<Action>, part: Seq<Action>, more: Seq<Action>)
    requires
        holds(whole, part),
    ensures
        holds(whole + more, part),
        holds(more + whole, part),
{
    let k = choose|k: int|
        0 <= k <= whole.len() - part.len() && #[trigger] whole.subrange(k, k + part.len()) == part;
    let m = k + more.len();
    assert((whole + more).subrange(k, k + part.len()) =~= part);
    assert((more + whole).subrange(m, m + part.len()) =~= part) by {
        assert forall|i: int| 0 <= i < part.len() implies (more + whole)[m + i] == part[i] by {
            assert(whole.subrange(k, k + part.len())[i] == whole[k + i]);
        }
    }
}

proof fn lemma_holds_back(front: Seq<Action>, part: Seq<Action>)
    ensures
        holds(front + part, part),
{
    let k = front.len() as int;
    assert((front + part).subrange(k, k + part.len()) =~= part);
}

/// The orders of every channel are given: those that suspend or resume it, and
/// those that the link's coming and going means to it.
pub proof fn law_every_channel_gives_its_orders(
    chs: Seq<Option<ChannelModel>>,
    pause: bool,
    id: int,
    n: nat,
)
    requires
        0 <= id < n,
        chs[id] is Some,
    ensures
        ({
            let c = chs[id]->Some_0;
            let none = Seq::<u8>::empty();
            &&& holds(channels::pause_actions(chs, pause, n), c.on_pause(pause, none).actions)
            &&& holds(channels::disconnect_actions(chs, n), c.on_link_disconnect(none).actions)
            &&& holds(channels::connect_actions(chs, n), c.on_link_connect(none).actions)
        }),
    decreases n,
{
    let c = chs[id]->Some_0;
    let none = Seq::<u8>::empty();
    let m = (n - 1) as nat;
    if id == n - 1 {
        lemma_holds_back(
            channels::pause_actions(chs, pause, m),
            c.on_pause(pause, none).actions,
        );
        lemma_holds_back(
            channels::disconnect_actions(chs, m),
            c.on_link_disconnect(none).actions,
        );
        lemma_holds_back(channels::connect_actions(chs, m), c.on_link_connect(none).actions);
    } else {
        law_every_channel_gives_its_orders(chs, pause, id, m);
        let (p, q, r) = match chs[n - 1] {
            Some(c) => (
                c.on_pause(pause, none).actions,
                c.on_link_disconnect(none).actions,
                c.on_link_connect(none).actions,
            ),
            None => (Seq::empty(), Seq::empty(), Seq::empty()),
        };
        lemma_holds_front(
            channels::pause_actions(chs, pause, m),
            c.on_pause(pause, none).actions,
            p,
        );
        lemma_holds_front(
            channels::disconnect_actions(chs, m),
            c.on_link_disconnect(none).actions,
            q,
        );
        lemma_holds_front(
            channels::connect_actions(chs, m),
            c.on_link_connect(none).actions,
            r,
        );
    }
}

/// The orders of every channel are among those of the daemon: where
/// backpressure changes, where the link is lost, and where it comes up.
pub proof fn law_orders_are_passed_on(d: DaemonModel, id: int, now: u64)
    requires
        d.wf(),
        0 <= id < CHANNEL_IDS,
        d.channels[id] is Some,
    ensures
        ({
            let c = d.channels[id]->Some_0;
            let none = Seq::<u8>::empty();
            let calm = if d.link_bp {
                c.on_pause(false, none).ch
            } else {
                c
            };
            &&& !d.link_bp && d.queue.len() > 524_288 ==> holds(
                d.on_high_water().actions,
                c.on_pause(true, none).actions,
            )
            &&& d.link_bp && d.queue.len() < 262_144 ==> holds(
                d.on_low_water().actions,
                c.on_pause(false, none).actions,
            )
            &&& d.link_bp && !d.disconnected ==> holds(
                d.on_close(now).actions,
                c.on_pause(false, none).actions,
            )
            &&& !d.disconnected ==> d.on_close(now).daemon.channels[id] == Some(
                calm.on_link_disconnect(none).ch,
            ) && holds(d.on_close(now).actions, calm.on_link_disconnect(none).actions)
            &&& holds(d.on_connect(now).actions, c.on_link_connect(none).actions)
        }),
{
    let c = d.channels[id]->Some_0;
    let none = Seq::<u8>::empty();
    let n = CHANNEL_IDS as nat;
    law_every_channel_gives_its_orders(d.channels, true, id, n);
    law_every_channel_gives_its_orders(d.channels, false, id, n);
    law_every_channel_gives_its_orders(d.resumed(), false, id, n);
    let first = seq![Action::Deregister(link()), Action::Close(link())];
    let resume = channels::pause_actions(d.channels, false, n);
    let gone = channels::disconnect_actions(d.resumed(), n);
    let calm = d.resumed()[id]->Some_0;
    lemma_holds_front(resume, c.on_pause(false, none).actions, first);
    lemma_holds_front(first + resume, c.on_pause(false, none).actions, gone);
    lemma_holds_front(gone, calm.on_link_disconnect(none).actions, first + resume);
    lemma_holds_front(
        gone,
        calm.on_link_disconnect(none).actions,
        first + Seq::<Action>::empty(),
    );
    let up = DaemonModel {
        link_up: true,
        channels: channels::connected(d.channels),
        queue: channels::connect_queue(d.channels, n, d.queue),
        ..d
    };
    lemma_holds_front(
        channels::connect_actions(d.channels, n),
        c.on_link_connect(none).actions,
        up.on_settle(now).actions,
    );
}

/// What the MCU channels among the first `n` ids tell a far side that comes
/// up: in the order of the ids, that the MCU is active, or else that it is not.
pub open spec fn announcements(chs: Seq<Option<ChannelModel>>, n: nat) -> Seq<u8>
    decreases n,
{
    if n == 0 {
        Seq::empty()
    } else {
        announcements(chs, (n - 1) as nat) + (match chs[n - 1] {
            Some(ChannelModel::Mcu(m)) => if m.state == McuState::Active {
                frame::frame_bytes(F_READY, m.ch_id, Seq::empty())
            } else {
                frame::frame_bytes(F_FLUSH, m.ch_id, Seq::empty())
            },
            _ => Seq::empty(),
        })
    }
}

proof fn lemma_announcements(chs: Seq<Option<ChannelModel>>, n: nat, queue: Seq<u8>)
    requires
        n <= CHANNEL_IDS,
        queue.len() <= LINK_HIGH_WATER + 10,
    ensures
        channels::connect_queue(chs, n, queue) == queue + announcements(chs, n),
        announcements(chs, n).len() <= 10 * n,
    decreases n,
{
    if n == 0 {
        assert(queue + announcements(chs, 0) =~= queue);
    } else {
        let m = (n - 1) as nat;
        lemma_announcements(chs, m, queue);
        match chs[n - 1] {
            Some(ChannelModel::Mcu(mcu)) => {
                frame::lemma_frame_size(F_READY, mcu.ch_id, Seq::empty());
                frame::lemma_frame_size(F_FLUSH, mcu.ch_id, Seq::empty());
            },
            _ => {},
        }
        assert(channels::connect_queue(chs, n, queue) =~= queue + announcements(chs, n));
    }
}

/// The handshake is completed by the first acknowledgement: the link is up,
/// every channel learns of it, the MCU channels tell the far side of their
/// states, and the link waits for room where there is something to tell.
pub proof fn law_acknowledged_link_comes_up(d: DaemonModel, f: FrameModel, now: u64, id: int)
    requires
        d.wf(),
        !d.disconnected,
        !d.link_up,
        f.ftype == F_ACK,
        d.queue.len() <= LINK_HIGH_WATER,
        0 <= id < CHANNEL_IDS,
    ensures
        ({
            let e = d.on_frame(f, now);
            let queue = d.queue + announcements(d.channels, 256);
            &&& e.daemon == (DaemonModel {
                link_up: true,
                queue,
                channels: e.daemon.channels,
                last_tx: if queue.len() > 0 {
                    Some(now)
                } else {
                    d.last_tx
                },
                ..d
            })
            &&& told_of_link(d, e.daemon, id)
            &&& e.actions.len() > 0
            &&& e.actions.last() == Action::Reregister(
                link(),
                if queue.len() > 0 {
                    Interest::ReadWrite
                } else {
                    Interest::Readable
                },
            )
            &&& e.step == Step::Done
        }),
{
    lemma_announcements(d.channels, CHANNEL_IDS as nat, d.queue);
}

/// A channel learned that the link is up.
pub open spec fn told_of_link(d: DaemonModel, after: DaemonModel, id: int) -> bool {
    match d.channels[id] {
        Some(c) => after.channels[id] == Some(c.on_link_connect(Seq::empty()).ch),
        None => after.channels[id] is None,
    }
}

/// A greeting is acknowledged, and completes the handshake each time anew: the
/// MCU channels tell their states behind the acknowledgement.
pub proof fn law_greeted_link_comes_up(d: DaemonModel, f: FrameModel, now: u64, id: int)
    requires
        d.wf(),
        !d.disconnected,
        f.ftype == F_HELLO,
        d.queue.len() <= LINK_HIGH_WATER,
        0 <= id < CHANNEL_IDS,
    ensures
        ({
            let e = d.on_frame(f, now);
            &&& e.daemon == (DaemonModel {
                link_up: true,
                queue: d.queue + frame::frame_bytes(F_ACK, 0, Seq::empty()) + announcements(
                    d.channels,
                    256,
                ),
                channels: e.daemon.channels,
                last_tx: Some(now),
                ..d
            })
            &&& told_of_link(d, e.daemon, id)
            &&& e.actions.len() > 0
            &&& e.actions.last() == Action::Reregister(link(), Interest::ReadWrite)
            &&& e.step == Step::Done
        }),
{
    tx_queue::law_frame_fits_up_to_high_water(d.queue, F_ACK, 0, Seq::empty());
    frame::lemma_frame_size(F_ACK, 0, Seq::empty());
    lemma_announcements(d.channels, CHANNEL_IDS as nat, d.queue + link_frame(F_ACK));
}

/// An MCU that was last heard more than five seconds ago is silent.
pub open spec fn fell_silent(m: McuModel, now: u64) -> bool {
    &&& m.open
    &&& m.state == McuState::Active
    &&& m.last_rx matches Some(t) && now > t + 5_000_000_000
}

/// What the MCU channels among the first `n` ids tell at a tick: each whose MCU
/// fell silent, that it did.
pub open spec fn flushes(chs: Seq<Option<ChannelModel>>, now: u64, n: nat) -> Seq<u8>
    decreases n,
{
    if n == 0 {
        Seq::empty()
    } else {
        flushes(chs, now, (n - 1) as nat) + (match chs[n - 1] {
            Some(ChannelModel::Mcu(m)) if m.link_up && fell_silent(m, now) => frame::frame_bytes(
                F_FLUSH,
                m.ch_id,
                Seq::empty(),
            ),
            _ => Seq::empty(),
        })
    }
}

proof fn lemma_flushes(chs: Seq<Option<ChannelModel>>, now: u64, n: nat, queue: Seq<u8>)
    requires
        n <= CHANNEL_IDS,
        queue.len() <= LINK_HIGH_WATER,
    ensures
        channels::tick_queue(chs, now, n, queue) == queue + flushes(chs, now, n),
        flushes(chs, now, n).len() <= 10 * n,
    decreases n,
{
    if n == 0 {
        assert(queue + flushes(chs, now, 0) =~= queue);
    } else {
        let m = (n - 1) as nat;
        lemma_flushes(chs, now, m, queue);
        match chs[n - 1] {
            Some(ChannelModel::Mcu(mcu)) => {
                frame::lemma_frame_size(F_FLUSH, mcu.ch_id, Seq::empty());
            },
            _ => {},
        }
        assert(channels::tick_queue(chs, now, n, queue) =~= queue + flushes(chs, now, n));
    }
}

/// A tick reaches every channel: each is what its own tick makes of it, the
/// silent ones are reported, and where anything is queued the link waits for
/// room; nothing else changes.
pub proof fn law_tick_reaches_every_channel(d: DaemonModel, now: u64, id: int)
    requires
        d.wf(),
        d.queue.len() <= LINK_HIGH_WATER,
        0 <= id < CHANNEL_IDS,
    ensures
        ({
            let e = d.on_tick(now);
            let queue = d.queue + flushes(d.channels, now, 256);
            &&& e.daemon == (DaemonModel {
                queue,
                channels: e.daemon.channels,
                last_tx: if queue.len() > 0 {
                    Some(now)
                } else {
                    d.last_tx
                },
                ..d
            })
            &&& match d.channels[id] {
                Some(c) => e.daemon.channels[id] == Some(c.on_tick(now, Seq::empty()).ch),
                None => e.daemon.channels[id] is None,
            }
            &&& e.actions == (if queue.len() > 0 && !d.disconnected {
                seq![Action::Reregister(link(), Interest::ReadWrite)]
            } else {
                Seq::<Action>::empty()
            })
        }),
{
    lemma_flushes(d.channels, now, CHANNEL_IDS as nat, d.queue);
}

/// The UART of a channel is due to be opened.
pub open spec fn opening_due(c: ChannelModel, now: u64) -> bool {
    c matches ChannelModel::Mcu(m) && !m.open && (m.reopen_at matches Some(t) && now >= t)
}

/// A tick asks for just the UARTs that are due to be opened.
pub proof fn law_due_uarts_are_opened(chs: Seq<Option<ChannelModel>>, now: u64, n: nat)
    requires
        n <= chs.len(),
    ensures
        forall|i: int|
            0 <= i < n && (#[trigger] chs[i] matches Some(c) && opening_due(c, now))
                ==> channels::tick_steps(chs, now, n).contains(
                Step::OpenUart(token::primary(chs[i]->Some_0.id())),
            ),
        forall|k: int|
            0 <= k < channels::tick_steps(chs, now, n).len() ==> exists|i: int|
                0 <= i < n && (#[trigger] chs[i] matches Some(c) && opening_due(c, now)
                    && #[trigger] channels::tick_steps(chs, now, n)[k] == Step::OpenUart(
                    token::primary(c.id()),
                )),
    decreases n,
{
    if n > 0 {
        let m = (n - 1) as nat;
        let before = channels::tick_steps(chs, now, m);
        let after = channels::tick_steps(chs, now, n);
        law_due_uarts_are_opened(chs, now, m);
        assert forall|i: int|
            0 <= i < n && (#[trigger] chs[i] matches Some(c) && opening_due(c, now)) implies after.contains(
            Step::OpenUart(token::primary(chs[i]->Some_0.id())),
        ) by {
            let s = Step::OpenUart(token::primary(chs[i]->Some_0.id()));
            if i == n - 1 {
                assert(after.last() == s);
                assert(after[after.len() - 1] == s);
            } else {
                let k = choose|k: int| 0 <= k < before.len() && before[k] == s;
                assert(after[k] == s);
            }
        }
        assert forall|k: int| 0 <= k < after.len() implies exists|i: int|
            0 <= i < n && (#[trigger] chs[i] matches Some(c) && opening_due(c, now)
                && #[trigger] after[k] == Step::OpenUart(token::primary(c.id()))) by {
            if k < before.len() {
                assert(after[k] == before[k]);
                let i = choose|i: int|
                    0 <= i < m && (#[trigger] chs[i] matches Some(c) && opening_due(c, now)
                        && before[k] == Step::OpenUart(token::primary(c.id())));
                assert(chs[i] is Some);
            } else {
                assert(chs[n - 1] is Some);
            }
        }
    }
}

/// Something needs attention by a time: a channel, the opening of the link, or
/// its keepalive.
pub open spec fn due_by(d: DaemonModel, t: int) -> bool {
    ||| exists|i: int|
        0 <= i < CHANNEL_IDS && (#[trigger] d.channels[i] matches Some(c) && (
        c.deadline() matches Some(at) && at <= t))
    ||| d.disconnected && d.reopen_at <= t
    ||| !d.disconnected && d.link_up && (d.last_tx matches Some(at) && at + 3_000_000_000 <= t)
    ||| !d.disconnected && d.link_up && (d.last_rx matches Some(at) && at + 10_000_000_000 <= t)
}

proof fn lemma_earliest_is_a_deadline(chs: Seq<Option<ChannelModel>>, n: nat, t: u64)
    ensures
        channels::earliest(chs, n, t) == t || exists|i: int|
            0 <= i < n && (#[trigger] chs[i] matches Some(c) && c.deadline() == Some(
                channels::earliest(chs, n, t),
            )),
        channels::earliest(chs, n, t) <= t,
    decreases n,
{
    if n > 0 {
        lemma_earliest_is_a_deadline(chs, (n - 1) as nat, t);
        let before = channels::earliest(chs, (n - 1) as nat, t);
        if channels::earliest(chs, n, t) != before {
            assert(chs[n - 1] is Some);
        }
    }
}

/// The wait for events ends only for a reason: after a second, or else when
/// something needs attention.
pub proof fn law_wait_ends_for_a_reason(d: DaemonModel, now: u64)
    requires
        d.wf(),
        now <= TIME_LIMIT,
    ensures
        d.timeout(now) == 1_000_000_000 || due_by(d, now + d.timeout(now)),
        d.timeout(now) == 0 ==> due_by(d, now as int),
{
    let start = d.link_deadline((now + 1_000_000_000) as u64);
    let n = CHANNEL_IDS as nat;
    lemma_earliest_is_a_deadline(d.channels, n, start);
    let deadline = channels::earliest(d.channels, n, start);
    if deadline != start {
        let i = choose|i: int|
            0 <= i < n && (#[trigger] d.channels[i] matches Some(c) && c.deadline() == Some(
                deadline,
            ));
        assert(d.channels[i] is Some);
        assert(due_by(d, deadline as int));
        if deadline < now {
            assert(due_by(d, now as int));
        }
    }
}

/// An event of a channel is the channel's alone: it is what the event makes of
/// it, the queue, the orders and the step are the channel's, and nothing else
/// of the daemon changes.  An event of a channel that is not there is nothing.
pub proof fn law_event_is_its_channels(
    d: DaemonModel,
    id: u8,
    token: Token,
    readable: bool,
    writable: bool,
    event: Event,
    now: u64,
)
    requires
        d.wf(),
    ensures
        ({
            let e = d.on_channel_event(id, token, readable, writable, event, now);
            match d.channels[id as int] {
                Some(c) => {
                    let own = c.on_event(token, readable, writable, event, now, d.queue);
                    &&& e.daemon == (DaemonModel {
                        channels: d.channels.update(id as int, Some(own.ch)),
                        queue: own.queue,
                        ..d
                    })
                    &&& e.actions == own.actions
                    &&& e.step == own.step
                },
                None => e.daemon == d && e.actions.len() == 0 && e.step == Step::Done,
            }
        }),
{
}

/// A frame for a channel: where backpressure is not to be applied, the frame is
/// the channel's alone, its orders are given, then the link waits for room just
/// where something is queued.  What is queued counts as sent, and nothing else of the
/// daemon changes.
pub proof fn law_channel_frame_is_settled(d: DaemonModel, f: FrameModel, now: u64)
    requires
        d.wf(),
        !d.disconnected,
        f.ftype != F_HELLO && f.ftype != F_ACK && f.ftype != F_PING && f.ftype != F_PONG,
        f.ftype == F_DATA || f.ftype == F_TDATA ==> d.link_bp || d.queue.len() <= 524_288,
    ensures
        ({
            let e = d.on_frame(f, now);
            let orders = match d.channels[f.channel as int] {
                Some(c) => c.on_frame(f.ftype, f.payload, d.queue).actions,
                None => Seq::empty(),
            };
            &&& d.channels[f.channel as int] matches Some(c) ==> {
                let own = c.on_frame(f.ftype, f.payload, d.queue);
                &&& e.daemon.channels == d.channels.update(f.channel as int, Some(own.ch))
                &&& e.daemon.queue == own.queue
                &&& e.step == own.step
            }
            &&& e.daemon == (DaemonModel {
                channels: e.daemon.channels,
                queue: e.daemon.queue,
                last_tx: if e.daemon.queue.len() > 0 {
                    Some(now)
                } else {
                    d.last_tx
                },
                ..d
            })
            &&& e.actions == orders.push(
                Action::Reregister(
                    link(),
                    if e.daemon.queue.len() > 0 {
                        Interest::ReadWrite
                    } else {
                        Interest::Readable
                    },
                ),
            )
            &&& d.channels[f.channel as int] is None ==> e.daemon.channels == d.channels
                && e.daemon.queue == d.queue && e.step == Step::Done
        }),
{
    let e = d.on_frame(f, now);
    let orders = match d.channels[f.channel as int] {
        Some(c) => c.on_frame(f.ftype, f.payload, d.queue).actions,
        None => Seq::empty(),
    };
    assert(e.actions =~= orders + d.on_frame(f, now).daemon.link_interest(
        e.daemon.queue.len() > 0,
    ));
}

/// A data frame that finds more than 512 KiB queued sets off backpressure
/// first: every channel is suspended, and the frame's own then gets the frame.
pub proof fn law_data_over_the_mark_suspends_reads(
    d: DaemonModel,
    f: FrameModel,
    now: u64,
    id: int,
)
    requires
        d.wf(),
        !d.disconnected,
        !d.link_bp,
        d.queue.len() > 524_288,
        f.ftype == F_DATA || f.ftype == F_TDATA,
        0 <= id < CHANNEL_IDS,
    ensures
        ({
            let e = d.on_frame(f, now);
            &&& e.daemon.link_bp
            &&& match d.channels[id] {
                Some(c) => {
                    let paused = c.on_pause(true, Seq::empty()).ch;
                    &&& holds(e.actions, c.on_pause(true, Seq::empty()).actions)
                    &&& e.daemon.channels[id] == Some(
                        if id == f.channel {
                            paused.on_frame(f.ftype, f.payload, d.queue).ch
                        } else {
                            paused
                        },
                    )
                    &&& id == f.channel ==> holds(
                        e.actions,
                        paused.on_frame(f.ftype, f.payload, d.queue).actions,
                    ) && e.daemon.queue == paused.on_frame(f.ftype, f.payload, d.queue).queue
                        && e.step == paused.on_frame(f.ftype, f.payload, d.queue).step
                },
                None => e.daemon.channels[id] is None,
            }
        }),
{
    let high = d.on_high_water();
    let none = Seq::<u8>::empty();
    let own = match high.daemon.channels[f.channel as int] {
        Some(c) => c.on_frame(f.ftype, f.payload, d.queue).actions,
        None => Seq::empty(),
    };
    let end = d.on_frame(f, now).daemon.link_interest(d.on_frame(f, now).daemon.queue.len() > 0);
    assert(d.on_frame(f, now).actions =~= high.actions + own + end);
    if let Some(c) = d.channels[id] {
        law_every_channel_gives_its_orders(d.channels, true, id, CHANNEL_IDS as nat);
        lemma_holds_front(high.actions, c.on_pause(true, none).actions, own);
        lemma_holds_front(high.actions + own, c.on_pause(true, none).actions, end);
        lemma_holds_back(high.actions, own);
        lemma_holds_front(high.actions + own, own, end);
    }
}

proof fn lemma_earliest_is_no_later(chs: Seq<Option<ChannelModel>>, n: nat, t: u64, i: int)
    requires
        0 <= i < n,
        chs[i] matches Some(c) && c.deadline() is Some,
    ensures
        channels::earliest(chs, n, t) <= chs[i]->Some_0.deadline()->Some_0,
    decreases n,
{
    if i < n - 1 {
        lemma_earliest_is_no_later(chs, (n - 1) as nat, t, i);
    }
}

/// The wait for events ends in time for all that needs attention, and there is
/// none where something needs it already.
pub proof fn law_wait_ends_in_time(d: DaemonModel, now: u64, t: int)
    requires
        d.wf(),
        now <= TIME_LIMIT,
        now <= t,
        due_by(d, t),
    ensures
        now + d.timeout(now) <= t,
{
    let start = d.link_deadline((now + 1_000_000_000) as u64);
    let n = CHANNEL_IDS as nat;
    lemma_earliest_is_a_deadline(d.channels, n, start);
    if exists|i: int|
        0 <= i < CHANNEL_IDS && (#[trigger] d.channels[i] matches Some(c) && (
        c.deadline() matches Some(at) && at <= t)) {
        let i = choose|i: int|
            0 <= i < CHANNEL_IDS && (#[trigger] d.channels[i] matches Some(c) && (
            c.deadline() matches Some(at) && at <= t));
        lemma_earliest_is_no_later(d.channels, n, start, i);
    }
}

} // verus!
