//! Event-loop daemon.
//!
//! [`Daemon`] owns the state of the link, all channels, and the TX queue.  It
//! performs no I/O itself: an event loop carries out its orders and tells it
//! what came of them.  The daemon
//!
//! 1. decides when and from where the link is (re-)opened,
//! 2. performs the `F_HELLO` / `F_ACK` handshake,
//! 3. routes incoming frames to the appropriate channel,
//! 4. hands channel I/O events on and enqueues `F_*` frames for the link,
//! 5. applies backpressure (pause / resume channel reads at the high/low
//!    water marks of the TX queue),
//! 6. sends keepalive `F_PING` frames and times out a silent link.

pub mod channel_laws;
pub mod channels;
pub mod laws;
pub mod link_laws;

use crate::channel::{
    channel_id_for_token, Action, Channel, ChannelModel, Event, Interest, Step, Token, TOKEN_LINK,
};
use crate::protocol::frame::FrameModel;
use crate::protocol::{
    build_frame, Frame, FrameParser, TxQueue, F_ACK, F_DATA, F_HELLO, F_PING, F_PONG, F_TDATA,
    LINK_HIGH_WATER, LINK_LOW_WATER,
};
use crate::serial::{ReadOutcome, WriteOutcome};
use crate::time::{MILLISECOND, SECOND, TIME_LIMIT};
use channels::ChannelSet;
#[allow(unused_imports)]
use channels::CHANNEL_IDS;
#[allow(unused_imports)]
use crate::channel::{self, token};
#[allow(unused_imports)]
use crate::protocol::{frame, parser, tx_queue};
use vstd::prelude::*;

verus! {

/// Maximum time to block before running timers.
pub const MAX_TICK: u64 = SECOND;

/// Send a `F_PING` after this much idle TX time.
pub const KA_INTERVAL: u64 = 3 * SECOND;

/// Drop the link if no bytes arrive within this window.
pub const KA_TIMEOUT: u64 = 10 * SECOND;

/// First delay before the link is re-opened.
pub const REOPEN_DELAY_MIN: u64 = 500 * MILLISECOND;

/// Longest delay before the link is re-opened.
pub const REOPEN_DELAY_MAX: u64 = 8 * SECOND;

/// Line speed of the link.
pub const LINK_BAUD: u32 = 115200;

/// Where the link device is to be found.
#[derive(Debug, Clone, Copy)]
pub enum LinkTarget<'a> {
    /// The serial device of the USB device with this vendor and product id.
    Usb(&'a str, &'a str),
    /// A fixed path.
    Device(&'a str),
    /// Nowhere.
    Missing,
}

/// What became of the attempt to open the link.
#[derive(Debug, Clone, Copy, PartialEq, Eq, Structural)]
pub enum LinkOutcome {
    /// There is no device.
    NoDevice,
    /// The device could not be opened.
    OpenFailed,
    /// The device was opened, but could not be registered.
    RegisterFailed,
    /// The device is open and registered for reading.
    Opened,
}

/// Whom an event concerns.
#[derive(Debug, Clone, Copy, PartialEq, Eq, Structural)]
pub enum Route {
    /// The link.
    Link,
    /// The link, which was closed since.
    Stale,
    /// A channel.
    Channel(u8),
    /// Nobody.
    Unknown,
}

/// Central event-loop state.
pub struct Daemon {
    /// `"exporter"` or `"host"`, used for logging.
    mode: String,
    /// Fixed device path (mutually exclusive with `usb_id`).
    link_dev: Option<String>,
    /// USB VID/PID to discover (mutually exclusive with `link_dev`).
    usb_id: Option<(String, String)>,
    /// All channels by wire channel id.
    channels: ChannelSet,
    /// Single outbound TX ring buffer shared by all channels.
    txq: TxQueue,
    parser: FrameParser,
    /// Handshake complete.
    link_up: bool,
    /// TX queue above high-water; channel reads are paused.
    link_bp: bool,
    /// The link is not open; waiting to (re-)open.
    disconnected: bool,
    reopen_at: u64,
    reopen_delay: u64,
    last_rx: Option<u64>,
    last_tx: Option<u64>,
}

/// The value of a [`Daemon`].
#[verifier::ext_equal]
pub struct DaemonModel {
    pub mode: Seq<char>,
    pub link_dev: Option<Seq<char>>,
    pub usb_id: Option<(Seq<char>, Seq<char>)>,
    pub channels: Seq<Option<ChannelModel>>,
    /// The bytes queued for the link.
    pub queue: Seq<u8>,
    /// The bytes received and not yet parsed.
    pub received: Seq<u8>,
    pub link_up: bool,
    pub link_bp: bool,
    pub disconnected: bool,
    pub reopen_at: u64,
    pub reopen_delay: u64,
    pub last_rx: Option<u64>,
    pub last_tx: Option<u64>,
}

/// What a call does to a daemon.
#[verifier::ext_equal]
pub struct DaemonEffect {
    /// The daemon afterwards.
    pub daemon: DaemonModel,
    /// The orders given.
    pub actions: Seq<Action>,
    /// The I/O needed next.
    pub step: Step,
}

impl View for Daemon {
    type V = DaemonModel;

    closed spec fn view(&self) -> DaemonModel {
        DaemonModel {
            mode: self.mode@,
            link_dev: match self.link_dev {
                Some(d) => Some(d@),
                None => None,
            },
            usb_id: match self.usb_id {
                Some((v, p)) => Some((v@, p@)),
                None => None,
            },
            channels: self.channels@,
            queue: self.txq@,
            received: self.parser@,
            link_up: self.link_up,
            link_bp: self.link_bp,
            disconnected: self.disconnected,
            reopen_at: self.reopen_at,
            reopen_delay: self.reopen_delay,
            last_rx: self.last_rx,
            last_tx: self.last_tx,
        }
    }
}

/// The token of the link.
pub open spec fn link() -> Token {
    Token(TOKEN_LINK)
}

/// The bytes of a frame of the link itself.
pub open spec fn link_frame(ftype: u8) -> Seq<u8> {
    frame::frame_bytes(ftype, 0, Seq::empty())
}

/// The delay after another: twice as long, up to the longest.
pub open spec fn next_delay(delay: u64) -> u64 {
    if 2 * delay <= REOPEN_DELAY_MAX {
        (2 * delay) as u64
    } else {
        REOPEN_DELAY_MAX
    }
}

impl DaemonModel {
    /// Every channel is sound, in the place of its id, and paused exactly
    /// under backpressure; without a link nothing is queued, nothing is
    /// paused, and no channel has anything to do with it; and all times lie
    /// within the clock's range.
    pub open spec fn wf(self) -> bool {
        &&& channels::all_wf(self.channels)
        &&& channels::all_paused(self.channels, self.link_bp)
        &&& self.disconnected ==> !self.link_up && !self.link_bp && self.queue.len() == 0
            && channels::all_down(self.channels)
        &&& self.last_rx matches Some(t) ==> t <= TIME_LIMIT
        &&& self.last_tx matches Some(t) ==> t <= TIME_LIMIT
        &&& REOPEN_DELAY_MIN <= self.reopen_delay <= REOPEN_DELAY_MAX
    }

    /// Nothing happens.
    pub open spec fn idle(self) -> DaemonEffect {
        DaemonEffect { daemon: self, actions: Seq::empty(), step: Step::Done }
    }

    /// The order that waits for the link to take bytes, or no longer does.
    pub open spec fn link_interest(self, want_write: bool) -> Seq<Action> {
        if self.disconnected {
            Seq::empty()
        } else if want_write {
            seq![Action::Reregister(link(), Interest::ReadWrite)]
        } else {
            seq![Action::Reregister(link(), Interest::Readable)]
        }
    }

    /// The next attempt to open the link is put off.
    pub open spec fn scheduled(self, now: u64) -> DaemonModel {
        DaemonModel {
            reopen_at: (now + self.reopen_delay) as u64,
            reopen_delay: next_delay(self.reopen_delay),
            ..self
        }
    }

    /// The channels with backpressure lifted.
    pub open spec fn resumed(self) -> Seq<Option<ChannelModel>> {
        if self.link_bp {
            channels::paused(self.channels, false)
        } else {
            self.channels
        }
    }

    /// The link is closed: the queue is dropped, backpressure is lifted, and
    /// all channels are told.
    pub open spec fn on_close(self, now: u64) -> DaemonEffect {
        if self.disconnected {
            self.idle()
        } else {
            DaemonEffect {
                daemon: (DaemonModel {
                    disconnected: true,
                    link_up: false,
                    link_bp: false,
                    queue: Seq::empty(),
                    channels: channels::disconnected(self.resumed()),
                    ..self
                }).scheduled(now),
                actions: seq![Action::Deregister(link()), Action::Close(link())] + (
                if self.link_bp {
                    channels::pause_actions(self.channels, false, CHANNEL_IDS as nat)
                } else {
                    Seq::empty()
                }) + channels::disconnect_actions(self.resumed(), CHANNEL_IDS as nat),
                step: Step::Done,
            }
        }
    }

    /// What the attempt to open the link comes to.
    pub open spec fn on_open(self, outcome: LinkOutcome, now: u64) -> DaemonEffect {
        match outcome {
            LinkOutcome::Opened => DaemonEffect {
                daemon: DaemonModel {
                    disconnected: false,
                    reopen_delay: REOPEN_DELAY_MIN,
                    link_bp: false,
                    received: Seq::empty(),
                    queue: link_frame(F_HELLO),
                    last_rx: Some(now),
                    last_tx: Some(now),
                    ..self
                },
                actions: seq![Action::Reregister(link(), Interest::ReadWrite)],
                step: Step::Done,
            },
            LinkOutcome::RegisterFailed => DaemonEffect {
                daemon: self.scheduled(now),
                actions: seq![Action::Close(link())],
                step: Step::Done,
            },
            _ => DaemonEffect {
                daemon: self.scheduled(now),
                actions: Seq::empty(),
                step: Step::Done,
            },
        }
    }

    /// A frame of the link itself is queued, and writing is armed.
    pub open spec fn pushed(self, ftype: u8, now: u64) -> DaemonModel {
        if self.disconnected {
            self
        } else {
            DaemonModel {
                queue: tx_queue::enqueued(self.queue, link_frame(ftype)),
                last_tx: Some(now),
                ..self
            }
        }
    }

    /// Writing is armed, and the link not idle, while anything is queued.
    pub open spec fn on_settle(self, now: u64) -> DaemonEffect {
        DaemonEffect {
            daemon: DaemonModel {
                last_tx: if self.queue.len() > 0 {
                    Some(now)
                } else {
                    self.last_tx
                },
                ..self
            },
            actions: self.link_interest(self.queue.len() > 0),
            step: Step::Done,
        }
    }

    /// Backpressure is applied once the queue exceeds the high-water mark.
    pub open spec fn on_high_water(self) -> DaemonEffect {
        if !self.link_bp && self.queue.len() > LINK_HIGH_WATER {
            DaemonEffect {
                daemon: DaemonModel {
                    link_bp: true,
                    channels: channels::paused(self.channels, true),
                    ..self
                },
                actions: channels::pause_actions(self.channels, true, CHANNEL_IDS as nat),
                step: Step::Done,
            }
        } else {
            self.idle()
        }
    }

    /// Backpressure is lifted once the queue is below the low-water mark.
    pub open spec fn on_low_water(self) -> DaemonEffect {
        if self.link_bp && self.queue.len() < LINK_LOW_WATER {
            DaemonEffect {
                daemon: DaemonModel {
                    link_bp: false,
                    channels: channels::paused(self.channels, false),
                    ..self
                },
                actions: channels::pause_actions(self.channels, false, CHANNEL_IDS as nat),
                step: Step::Done,
            }
        } else {
            self.idle()
        }
    }

    /// The handshake is complete: all channels announce their states.
    pub open spec fn on_connect(self, now: u64) -> DaemonEffect {
        let d = DaemonModel {
            link_up: true,
            channels: channels::connected(self.channels),
            queue: channels::connect_queue(self.channels, CHANNEL_IDS as nat, self.queue),
            ..self
        };
        DaemonEffect {
            daemon: d.on_settle(now).daemon,
            actions: channels::connect_actions(self.channels, CHANNEL_IDS as nat) + d.on_settle(
                now,
            ).actions,
            step: Step::Done,
        }
    }

    /// What a frame for a channel comes to.
    pub open spec fn on_channel_frame(self, f: FrameModel, now: u64) -> DaemonEffect {
        let bulk = f.ftype == F_DATA || f.ftype == F_TDATA;
        let high = if bulk {
            self.on_high_water()
        } else {
            self.idle()
        };
        match high.daemon.channels[f.channel as int] {
            Some(c) => {
                let e = c.on_frame(f.ftype, f.payload, high.daemon.queue);
                let d = DaemonModel {
                    channels: high.daemon.channels.update(f.channel as int, Some(e.ch)),
                    queue: e.queue,
                    ..high.daemon
                };
                DaemonEffect {
                    daemon: d.on_settle(now).daemon,
                    actions: high.actions + e.actions + d.on_settle(now).actions,
                    step: e.step,
                }
            },
            None => DaemonEffect {
                daemon: high.daemon.on_settle(now).daemon,
                actions: high.actions + high.daemon.on_settle(now).actions,
                step: Step::Done,
            },
        }
    }

    /// What a frame from the link comes to.  A probe is answered; a greeting
    /// is answered and, as an acknowledgement does where it is the first,
    /// completes the handshake; all other frames are routed to their channels.
    pub open spec fn on_frame(self, f: FrameModel, now: u64) -> DaemonEffect {
        if f.ftype == F_PING {
            DaemonEffect {
                daemon: self.pushed(F_PONG, now),
                actions: self.link_interest(true),
                step: Step::Done,
            }
        } else if f.ftype == F_PONG {
            self.idle()
        } else if f.ftype == F_HELLO {
            let e = self.pushed(F_ACK, now).on_connect(now);
            DaemonEffect {
                daemon: e.daemon,
                actions: self.link_interest(true) + e.actions,
                step: Step::Done,
            }
        } else if f.ftype == F_ACK {
            if self.link_up {
                self.idle()
            } else {
                self.on_connect(now)
            }
        } else {
            self.on_channel_frame(f, now)
        }
    }

    /// What a read of the link comes to, and the frames that it completes.
    /// A terminal without data gives no bytes; that is not its end.
    pub open spec fn on_read(self, read: ReadOutcome, now: u64) -> (DaemonEffect, Seq<FrameModel>) {
        match read {
            ReadOutcome::Data(data) if !self.disconnected && data@.len() > 0 => {
                let parsed = parser::parse(self.received + data@);
                (
                    (DaemonModel { last_rx: Some(now), received: parsed.1, ..self }).idle(),
                    parsed.0,
                )
            },
            ReadOutcome::Failed(_) => (self.on_close(now), Seq::empty()),
            _ => (self.idle(), Seq::empty()),
        }
    }

    /// What a write to the link comes to.
    pub open spec fn on_write(self, write: WriteOutcome, now: u64) -> DaemonEffect {
        if self.disconnected {
            self.idle()
        } else if write is Failed && self.queue.len() > 0 {
            self.on_close(now)
        } else {
            let d = DaemonModel {
                queue: match write {
                    WriteOutcome::Written(n) => self.queue.skip(n as int),
                    _ => self.queue,
                },
                ..self
            };
            let low = d.on_low_water();
            DaemonEffect {
                daemon: low.daemon,
                actions: low.actions + (if d.queue.len() == 0 {
                    d.link_interest(false)
                } else {
                    Seq::empty()
                }),
                step: Step::Done,
            }
        }
    }

    /// The link has been silent for too long.
    pub open spec fn is_silent(self, now: u64) -> bool {
        !self.disconnected && (self.last_rx matches Some(t) && now > t + KA_TIMEOUT)
    }

    /// A probe is due.
    pub open spec fn probe_due(self, now: u64) -> bool {
        &&& !self.disconnected
        &&& self.link_up
        &&& self.queue.len() == 0
        &&& self.last_tx matches Some(t) && now >= t + KA_INTERVAL
    }

    /// What the keepalive timer comes to.
    pub open spec fn on_keepalive(self, now: u64) -> DaemonEffect {
        if self.is_silent(now) {
            self.on_close(now)
        } else if self.probe_due(now) {
            DaemonEffect {
                daemon: self.pushed(F_PING, now),
                actions: self.link_interest(true),
                step: Step::Done,
            }
        } else {
            self.idle()
        }
    }

    /// What a timer tick of all channels comes to.
    pub open spec fn on_tick(self, now: u64) -> DaemonEffect {
        let d = DaemonModel {
            channels: channels::ticked(self.channels, now),
            queue: channels::tick_queue(self.channels, now, CHANNEL_IDS as nat, self.queue),
            ..self
        };
        if d.queue.len() > 0 {
            d.on_settle(now)
        } else {
            d.idle()
        }
    }

    /// The time at which the link needs attention, if that is before `t`.
    pub open spec fn link_deadline(self, t: u64) -> u64 {
        if self.disconnected {
            channels::earlier(t, Some(self.reopen_at))
        } else if self.link_up {
            let ping = match self.last_tx {
                Some(l) => Some((l + KA_INTERVAL) as u64),
                None => None,
            };
            let silence = match self.last_rx {
                Some(l) => Some((l + KA_TIMEOUT) as u64),
                None => None,
            };
            channels::earlier(channels::earlier(t, ping), silence)
        } else {
            t
        }
    }

    /// How long to wait for events.
    pub open spec fn timeout(self, now: u64) -> u64 {
        let deadline = channels::earliest(
            self.channels,
            CHANNEL_IDS as nat,
            self.link_deadline((now + MAX_TICK) as u64),
        );
        if deadline > now {
            (deadline - now) as u64
        } else {
            0
        }
    }

    /// Whom an event concerns.
    pub open spec fn route(self, token: Token) -> Route {
        if token == link() {
            if self.disconnected {
                Route::Stale
            } else {
                Route::Link
            }
        } else {
            match token::owner(token) {
                Some(id) => Route::Channel(id),
                None => Route::Unknown,
            }
        }
    }

    /// What an event for a channel comes to.
    pub open spec fn on_channel_event(
        self,
        id: u8,
        token: Token,
        readable: bool,
        writable: bool,
        event: Event,
        now: u64,
    ) -> DaemonEffect {
        match self.channels[id as int] {
            Some(c) => {
                let e = c.on_event(token, readable, writable, event, now, self.queue);
                DaemonEffect {
                    daemon: DaemonModel {
                        channels: self.channels.update(id as int, Some(e.ch)),
                        queue: e.queue,
                        ..self
                    },
                    actions: e.actions,
                    step: e.step,
                }
            },
            None => self.idle(),
        }
    }
}

impl Daemon {
    /// The daemon's invariant.
    pub closed spec fn wf(&self) -> bool {
        &&& self.txq.wf()
        &&& self.parser.wf()
        &&& self@.wf()
    }

    /// A sound daemon has a sound value: what holds of every sound value holds
    /// of it.
    pub proof fn law_value_is_sound(&self)
        requires
            self.wf(),
        ensures
            self@.wf(),
    {
    }

    /// How many of the queued bytes can be written next.
    pub closed spec fn contiguous(&self) -> nat {
        self.txq.contiguous()
    }

    /// The queued bytes run past the end of the queue's ring.
    pub closed spec fn wraps(&self) -> bool {
        self.txq.wraps()
    }

    /// What can be written next is the whole queue unless its ring wraps, and
    /// is nothing only where the queue is empty.
    pub proof fn law_queue_is_offered(&self)
        requires
            self.wf(),
        ensures
            self.contiguous() <= self@.queue.len(),
            self.contiguous() == 0 <==> self@.queue.len() == 0,
            self.contiguous() == self@.queue.len() <==> !self.wraps(),
    {
        self.txq.law_queue_is_bounded();
    }

    /// Create a new daemon, whose link is to be opened at once.
    pub fn new(
        mode: String,
        link_dev: Option<String>,
        usb_id: Option<(String, String)>,
        channels: Vec<Channel>,
        now: u64,
    ) -> (d: Self)
        requires
            forall|i: int|
                0 <= i < channels@.len() ==> (#[trigger] channels@[i])@.wf()
                    && !channels@[i]@.is_paused() && channels@[i]@.is_down(),
        ensures
            d.wf(),
            d@ == (DaemonModel {
                mode: mode@,
                link_dev: match link_dev {
                    Some(p) => Some(p@),
                    None => None,
                },
                usb_id: match usb_id {
                    Some((v, p)) => Some((v@, p@)),
                    None => None,
                },
                channels: channels::collected(
                    Seq::new(channels@.len(), |i: int| channels@[i]@),
                ),
                queue: Seq::empty(),
                received: Seq::empty(),
                link_up: false,
                link_bp: false,
                disconnected: true,
                reopen_at: now,
                reopen_delay: REOPEN_DELAY_MIN,
                last_rx: None,
                last_tx: None,
            }),
    {
        Daemon {
            mode,
            link_dev,
            usb_id,
            channels: ChannelSet::new(channels),
            txq: TxQueue::new(),
            parser: FrameParser::new(),
            link_up: false,
            link_bp: false,
            disconnected: true,
            reopen_at: now,
            reopen_delay: REOPEN_DELAY_MIN,
            last_rx: None,
            last_tx: None,
        }
    }

    /// `"exporter"` or `"host"`.
    pub fn mode(&self) -> (mode: &str)
        ensures
            mode@ == self@.mode,
    {
        self.mode.as_str()
    }

    /// The link is not open.
    pub fn is_disconnected(&self) -> (yes: bool)
        ensures
            yes == self@.disconnected,
    {
        self.disconnected
    }

    /// The channel with a wire id.
    pub fn channel(&self, id: u8) -> (c: Option<&Channel>)
        requires
            self.wf(),
        ensures
            match c {
                Some(c) => self@.channels[id as int] == Some(c@),
                None => self@.channels[id as int] is None,
            },
    {
        self.channels.get(id)
    }

    /// Where to look for the link device: by USB ids where they are given,
    /// else at the fixed path.
    pub fn resolve_dev(&self) -> (target: LinkTarget)
        ensures
            match self@.usb_id {
                Some((vid, pid)) => target matches LinkTarget::Usb(v, p) && v@ == vid && p@ == pid,
                None => match self@.link_dev {
                    Some(path) => target matches LinkTarget::Device(d) && d@ == path,
                    None => target is Missing,
                },
            },
    {
        if let Some((vid, pid)) = &self.usb_id {
            return LinkTarget::Usb(vid.as_str(), pid.as_str());
        }
        match &self.link_dev {
            Some(d) => LinkTarget::Device(d.as_str()),
            None => LinkTarget::Missing,
        }
    }

    /// It is time to open the link.
    pub fn open_due(&self, now: u64) -> (due: bool)
        ensures
            due == (self@.disconnected && now >= self@.reopen_at),
    {
        self.disconnected && now >= self.reopen_at
    }

    /// The attempt to open the link is over.
    pub fn open_link(&mut self, outcome: LinkOutcome, now: u64, out: &mut Vec<Action>)
        requires
            old(self).wf(),
            old(self)@.disconnected,
            now <= TIME_LIMIT,
        ensures
            final(self).wf(),
            final(self)@ == old(self)@.on_open(outcome, now).daemon,
            final(out)@ == old(out)@ + old(self)@.on_open(outcome, now).actions,
    {
        proof {
            assert(old(out)@ + Seq::<Action>::empty() =~= old(out)@);
        }
        match outcome {
            LinkOutcome::Opened => {
                self.disconnected = false;
                self.reopen_delay = REOPEN_DELAY_MIN;
                self.link_bp = false;
                self.parser.reset();
                self.txq.reset();
                self.last_rx = Some(now);
                self.last_tx = Some(now);
                // Initiate handshake.
                self.push_link_frame(F_HELLO);
                self.set_link_write_interest(true, out);
                proof {
                    frame::lemma_frame_size(F_HELLO, 0, Seq::empty());
                    assert(Seq::<u8>::empty() + link_frame(F_HELLO) =~= link_frame(F_HELLO));
                    assert(self@ =~= old(self)@.on_open(outcome, now).daemon);
                }
            },
            LinkOutcome::RegisterFailed => {
                out.push(Action::Close(Token(TOKEN_LINK)));
                assert(out@ =~= old(out)@ + seq![Action::Close(link())]);
                self.schedule_reopen(now);
            },
            _ => {
                self.schedule_reopen(now);
            },
        }
    }

    /// Close the link.
    pub fn close_link(&mut self, now: u64, out: &mut Vec<Action>)
        requires
            old(self).wf(),
            now <= TIME_LIMIT,
        ensures
            final(self).wf(),
            final(self)@ == old(self)@.on_close(now).daemon,
            final(out)@ == old(out)@ + old(self)@.on_close(now).actions,
    {
        proof {
            assert(old(out)@ + Seq::<Action>::empty() =~= old(out)@);
        }
        if self.disconnected {
            return ;
        }
        self.disconnected = true;
        self.link_up = false;
        out.push(Action::Deregister(Token(TOKEN_LINK)));
        out.push(Action::Close(Token(TOKEN_LINK)));
        self.txq.reset();
        // Resume all channels before signalling link-down so they can flush.
        if self.link_bp {
            self.link_bp = false;
            self.channels.pause_all(false, out);
        }
        self.channels.disconnect_all(out);
        self.schedule_reopen(now);
        assert(out@ =~= old(out)@ + old(self)@.on_close(now).actions);
        assert(channels::all_paused(self.channels@, false));
    }

    fn schedule_reopen(&mut self, now: u64)
        requires
            now <= TIME_LIMIT,
            REOPEN_DELAY_MIN <= old(self)@.reopen_delay <= REOPEN_DELAY_MAX,
        ensures
            final(self)@ == old(self)@.scheduled(now),
            final(self).txq == old(self).txq,
            final(self).parser == old(self).parser,
            final(self).channels == old(self).channels,
    {
        self.reopen_at = now + self.reopen_delay;
        self.reopen_delay = if 2 * self.reopen_delay <= REOPEN_DELAY_MAX {
            2 * self.reopen_delay
        } else {
            REOPEN_DELAY_MAX
        };
    }

    fn push_link_frame(&mut self, ftype: u8)
        requires
            old(self).txq.wf(),
        ensures
            final(self).txq.wf(),
            final(self)@ == (DaemonModel {
                queue: tx_queue::enqueued(old(self)@.queue, link_frame(ftype)),
                ..old(self)@
            }),
            final(self).parser == old(self).parser,
    {
        let empty: Vec<u8> = Vec::new();
        assert(empty@ =~= Seq::empty());
        let frame: Vec<u8> = build_frame(ftype, 0, &empty);
        self.txq.enqueue(&frame);
    }

    fn set_link_write_interest(&self, want_write: bool, out: &mut Vec<Action>)
        ensures
            final(out)@ == old(out)@ + self@.link_interest(want_write),
    {
        if !self.disconnected {
            if want_write {
                out.push(Action::Reregister(Token(TOKEN_LINK), Interest::ReadWrite));
            } else {
                out.push(Action::Reregister(Token(TOKEN_LINK), Interest::Readable));
            }
        }
        assert(out@ =~= old(out)@ + self@.link_interest(want_write));
    }

    /// The link was read: the frames that it completes, to be dispatched one
    /// by one.
    pub fn link_read(&mut self, read: ReadOutcome, now: u64, out: &mut Vec<Action>) -> (frames: Vec<
        Frame,
    >)
        requires
            old(self).wf(),
            now <= TIME_LIMIT,
        ensures
            final(self).wf(),
            ({
                let (e, parsed) = old(self)@.on_read(read, now);
                &&& final(self)@ == e.daemon
                &&& final(out)@ == old(out)@ + e.actions
                &&& frame::frame_models(frames@) == parsed
            }),
    {
        proof {
            assert(old(out)@ + Seq::<Action>::empty() =~= old(out)@);
        }
        let none: Vec<Frame> = Vec::new();
        assert(frame::frame_models(none@) =~= Seq::empty());
        match read {
            ReadOutcome::WouldBlock => none,
            ReadOutcome::Data(data) => {
                if self.disconnected || data.len() == 0 {
                    return none;
                }
                self.last_rx = Some(now);
                self.parser.feed(data)
            },
            ReadOutcome::Failed(_) => {
                self.close_link(now, out);
                none
            },
        }
    }

    /// The bytes to write to the link next.
    pub fn link_segment(&self) -> (bytes: &[u8])
        requires
            self.wf(),
        ensures
            bytes@ == self@.queue.take(self.contiguous() as int),
    {
        self.txq.segment()
    }

    /// The next bytes were offered to the link.
    pub fn link_write(&mut self, write: WriteOutcome, now: u64, out: &mut Vec<Action>)
        requires
            old(self).wf(),
            now <= TIME_LIMIT,
            write matches WriteOutcome::Written(n) ==> n <= old(self).contiguous(),
        ensures
            final(self).wf(),
            final(self)@ == old(self)@.on_write(write, now).daemon,
            final(out)@ == old(out)@ + old(self)@.on_write(write, now).actions,
    {
        proof {
            assert(old(out)@ + Seq::<Action>::empty() =~= old(out)@);
        }
        if self.disconnected {
            return ;
        }
        match self.txq.drain_to_fd(write) {
            Err(_) => {
                self.close_link(now, out);
                return ;
            },
            Ok(_) => {},
        }
        // Resume channel reads when the queue drains below low-water.
        if self.link_bp && self.txq.used() < LINK_LOW_WATER {
            self.link_bp = false;
            self.channels.pause_all(false, out);
        }
        if self.txq.is_empty() {
            self.set_link_write_interest(false, out);
        }
        assert(out@ =~= old(out)@ + old(self)@.on_write(write, now).actions);
    }

    fn check_bp_high(&mut self, out: &mut Vec<Action>)
        requires
            old(self).wf(),
        ensures
            final(self).wf(),
            final(self)@ == old(self)@.on_high_water().daemon,
            final(out)@ == old(out)@ + old(self)@.on_high_water().actions,
    {
        proof {
            assert(old(out)@ + Seq::<Action>::empty() =~= old(out)@);
        }
        if !self.link_bp && self.txq.used() > LINK_HIGH_WATER {
            self.link_bp = true;
            self.channels.pause_all(true, out);
        }
    }

    fn enqueue_frame(&mut self, ftype: u8, now: u64, out: &mut Vec<Action>)
        requires
            old(self).wf(),
            now <= TIME_LIMIT,
        ensures
            final(self).wf(),
            final(self)@ == old(self)@.pushed(ftype, now),
            final(out)@ == old(out)@ + old(self)@.link_interest(true),
    {
        proof {
            assert(old(out)@ + Seq::<Action>::empty() =~= old(out)@);
        }
        if self.disconnected {
            return ;
        }
        self.push_link_frame(ftype);
        self.last_tx = Some(now);
        self.set_link_write_interest(true, out);
    }

    /// A frame arrived from the link.
    pub fn dispatch_frame(&mut self, frame: &Frame, now: u64, out: &mut Vec<Action>) -> (step: Step)
        requires
            old(self).wf(),
            !old(self)@.disconnected,
            now <= TIME_LIMIT,
        ensures
            final(self).wf(),
            ({
                let e = old(self)@.on_frame(frame@, now);
                &&& final(self)@ == e.daemon
                &&& final(out)@ == old(out)@ + e.actions
                &&& step == e.step
            }),
    {
        proof {
            assert(old(out)@ + Seq::<Action>::empty() =~= old(out)@);
        }
        let ftype: u8 = frame.ftype;
        if ftype == F_PING {
            self.enqueue_frame(F_PONG, now, out);
            return Step::Done;
        }
        if ftype == F_PONG {
            return Step::Done;
        }
        if ftype == F_HELLO {
            self.enqueue_frame(F_ACK, now, out);
            // A peer that reconnected is told all channel states again.
            self.announce_channels(now, out);
            assert(out@ =~= old(out)@ + old(self)@.on_frame(frame@, now).actions);
            return Step::Done;
        }
        if ftype == F_ACK {
            if !self.link_up {
                self.announce_channels(now, out);
            }
            return Step::Done;
        }
        self.route_frame(frame, now, out)
    }

    fn route_frame(&mut self, frame: &Frame, now: u64, out: &mut Vec<Action>) -> (step: Step)
        requires
            old(self).wf(),
            !old(self)@.disconnected,
            now <= TIME_LIMIT,
        ensures
            final(self).wf(),
            ({
                let e = old(self)@.on_channel_frame(frame@, now);
                &&& final(self)@ == e.daemon
                &&& final(out)@ == old(out)@ + e.actions
                &&& step == e.step
            }),
    {
        proof {
            assert(old(out)@ + Seq::<Action>::empty() =~= old(out)@);
        }
        if frame.ftype == F_DATA || frame.ftype == F_TDATA {
            self.check_bp_high(out);
        }
        let step: Step = self.channels.on_frame(
            frame.channel,
            frame.ftype,
            &frame.payload,
            &mut self.txq,
            out,
        );
        assert(channels::all_paused(self.channels@, self.link_bp));
        self.settle(now, out);
        assert(out@ =~= old(out)@ + old(self)@.on_channel_frame(frame@, now).actions);
        step
    }

    fn announce_channels(&mut self, now: u64, out: &mut Vec<Action>)
        requires
            old(self).wf(),
            !old(self)@.disconnected,
            now <= TIME_LIMIT,
        ensures
            final(self).wf(),
            final(self)@ == old(self)@.on_connect(now).daemon,
            final(out)@ == old(out)@ + old(self)@.on_connect(now).actions,
    {
        self.link_up = true;
        self.channels.connect_all(&mut self.txq, out);
        assert(channels::all_paused(self.channels@, self.link_bp));
        self.settle(now, out);
        assert(out@ =~= old(out)@ + old(self)@.on_connect(now).actions);
    }

    /// Account for what is queued, and arm writing while there is something to
    /// write.  Where nothing is, the link goes on being idle.
    pub fn settle(&mut self, now: u64, out: &mut Vec<Action>)
        requires
            old(self).wf(),
            now <= TIME_LIMIT,
        ensures
            final(self).wf(),
            final(self)@ == old(self)@.on_settle(now).daemon,
            final(out)@ == old(out)@ + old(self)@.on_settle(now).actions,
    {
        let pending: bool = !self.txq.is_empty();
        if pending {
            self.last_tx = Some(now);
        }
        self.set_link_write_interest(pending, out);
    }

    /// The events of a channel's descriptor are handled: apply backpressure
    /// where the queue calls for it, and arm writing.
    pub fn finish_event(&mut self, now: u64, out: &mut Vec<Action>)
        requires
            old(self).wf(),
            now <= TIME_LIMIT,
        ensures
            final(self).wf(),
            ({
                let high = old(self)@.on_high_water();
                let e = high.daemon.on_settle(now);
                &&& final(self)@ == e.daemon
                &&& final(out)@ == old(out)@ + high.actions + e.actions
            }),
    {
        self.check_bp_high(out);
        self.settle(now, out);
    }

    /// Send a probe where the link has been idle, and drop a link that has
    /// been silent for too long.
    pub fn tick_keepalive(&mut self, now: u64, out: &mut Vec<Action>)
        requires
            old(self).wf(),
            now <= TIME_LIMIT,
        ensures
            final(self).wf(),
            final(self)@ == old(self)@.on_keepalive(now).daemon,
            final(out)@ == old(out)@ + old(self)@.on_keepalive(now).actions,
    {
        proof {
            assert(old(out)@ + Seq::<Action>::empty() =~= old(out)@);
        }
        if self.disconnected {
            return ;
        }
        if let Some(last) = self.last_rx {
            if now > last && now - last > KA_TIMEOUT {
                self.close_link(now, out);
                return ;
            }
        }
        if self.link_up {
            if let Some(last) = self.last_tx {
                if now >= last && now - last >= KA_INTERVAL && self.txq.is_empty() {
                    self.enqueue_frame(F_PING, now, out);
                }
            }
        }
    }

    /// Tick all channels (UART reopen, MCU silence timeout), and say which
    /// steps they need.
    pub fn tick(&mut self, now: u64, out: &mut Vec<Action>) -> (steps: Vec<Step>)
        requires
            old(self).wf(),
            now <= TIME_LIMIT,
        ensures
            final(self).wf(),
            final(self)@ == old(self)@.on_tick(now).daemon,
            final(out)@ == old(out)@ + old(self)@.on_tick(now).actions,
            steps@ == channels::tick_steps(old(self)@.channels, now, CHANNEL_IDS as nat),
    {
        proof {
            assert(old(out)@ + Seq::<Action>::empty() =~= old(out)@);
        }
        let mut steps: Vec<Step> = Vec::new();
        self.channels.tick_all(now, &mut self.txq, &mut steps);
        assert(channels::all_paused(self.channels@, self.link_bp));
        assert(steps@ =~= channels::tick_steps(old(self)@.channels, now, CHANNEL_IDS as nat));
        if !self.txq.is_empty() {
            self.settle(now, out);
        }
        steps
    }

    /// Compute how long to wait for events.
    pub fn next_timeout(&self, now: u64) -> (timeout: u64)
        requires
            self.wf(),
            now <= TIME_LIMIT,
        ensures
            timeout == self@.timeout(now),
    {
        let mut deadline: u64 = now + MAX_TICK;
        if self.disconnected {
            if self.reopen_at < deadline {
                deadline = self.reopen_at;
            }
        } else if self.link_up {
            if let Some(last) = self.last_tx {
                if last + KA_INTERVAL < deadline {
                    deadline = last + KA_INTERVAL;
                }
            }
            if let Some(last) = self.last_rx {
                if last + KA_TIMEOUT < deadline {
                    deadline = last + KA_TIMEOUT;
                }
            }
        }
        deadline = self.channels.next_deadline(deadline);
        if deadline > now {
            deadline - now
        } else {
            0
        }
    }

    /// Whom an event concerns.
    pub fn route(&self, token: Token) -> (r: Route)
        ensures
            r == self@.route(token),
    {
        if token.0 == TOKEN_LINK {
            if self.disconnected {
                Route::Stale
            } else {
                Route::Link
            }
        } else {
            match channel_id_for_token(token) {
                Some(id) => Route::Channel(id),
                None => Route::Unknown,
            }
        }
    }

    /// Something happened to a descriptor of a channel: what is needed next.
    pub fn channel_event(
        &mut self,
        id: u8,
        token: Token,
        readable: bool,
        writable: bool,
        event: Event,
        now: u64,
        out: &mut Vec<Action>,
    ) -> (step: Step)
        requires
            old(self).wf(),
            now <= TIME_LIMIT,
            old(self)@.channels[id as int] matches Some(c) ==> c.can_have(token, event),
            old(self)@.disconnected ==> !channel::serves_link(event),
        ensures
            final(self).wf(),
            ({
                let e = old(self)@.on_channel_event(id, token, readable, writable, event, now);
                &&& final(self)@ == e.daemon
                &&& final(out)@ == old(out)@ + e.actions
                &&& step == e.step
            }),
    {
        proof {
            assert(old(out)@ + Seq::<Action>::empty() =~= old(out)@);
        }
        let step: Step = self.channels.on_event(
            id,
            token,
            readable,
            writable,
            event,
            now,
            &mut self.txq,
            out,
        );
        assert(channels::all_paused(self.channels@, self.link_bp));
        step
    }
}

} // verus!
