//! All channels of a daemon, by wire id.

use crate::channel::{Action, Channel, ChannelModel, Event, Step, Token};
use crate::protocol::TxQueue;
use crate::time::TIME_LIMIT;
#[allow(unused_imports)]
use crate::channel::{self, token};
use vstd::prelude::*;

verus! {

/// Number of wire channel ids.
pub const CHANNEL_IDS: usize = 256;

/// A set of channels: one place for every wire id.
pub struct ChannelSet {
    slots: Vec<Option<Channel>>,
}

spec fn models(slots: Seq<Option<Channel>>) -> Seq<Option<ChannelModel>> {
    Seq::new(
        slots.len(),
        |i: int|
            match slots[i] {
                Some(c) => Some(c@),
                None => None,
            },
    )
}

impl View for ChannelSet {
    type V = Seq<Option<ChannelModel>>;

    closed spec fn view(&self) -> Seq<Option<ChannelModel>> {
        models(self.slots@)
    }
}

/// Every channel is sound and stands in the place of its id.
pub open spec fn all_wf(chs: Seq<Option<ChannelModel>>) -> bool {
    &&& chs.len() == CHANNEL_IDS
    &&& forall|i: int|
        0 <= i < CHANNEL_IDS ==> (#[trigger] chs[i] matches Some(c) ==> c.wf() && c.id() == i)
}

/// Every channel is paused, or none is.
pub open spec fn all_paused(chs: Seq<Option<ChannelModel>>, paused: bool) -> bool {
    forall|i: int|
        0 <= i < chs.len() ==> (#[trigger] chs[i] matches Some(c) ==> c.is_paused() == paused)
}

/// No channel has anything to do with the link.
pub open spec fn all_down(chs: Seq<Option<ChannelModel>>) -> bool {
    forall|i: int| 0 <= i < chs.len() ==> (#[trigger] chs[i] matches Some(c) ==> c.is_down())
}

/// The channels with one put in the place of its id.
pub open spec fn inserted(chs: Seq<Option<ChannelModel>>, c: ChannelModel) -> Seq<
    Option<ChannelModel>,
> {
    chs.update(c.id() as int, Some(c))
}

/// The channels of a list; of two with one id the later stays.
pub open spec fn collected(list: Seq<ChannelModel>) -> Seq<Option<ChannelModel>>
    decreases list.len(),
{
    if list.len() == 0 {
        Seq::new(CHANNEL_IDS as nat, |i: int| None)
    } else {
        inserted(collected(list.drop_last()), list.last())
    }
}

/// All channels with their reads suspended or resumed.
pub open spec fn paused(chs: Seq<Option<ChannelModel>>, pause: bool) -> Seq<
    Option<ChannelModel>,
> {
    Seq::new(
        chs.len(),
        |i: int|
            match chs[i] {
                Some(c) => Some(c.on_pause(pause, Seq::empty()).ch),
                None => None,
            },
    )
}

/// The orders that do so for the first `n` ids.
pub open spec fn pause_actions(chs: Seq<Option<ChannelModel>>, pause: bool, n: nat) -> Seq<Action>
    decreases n,
{
    if n == 0 {
        Seq::empty()
    } else {
        pause_actions(chs, pause, (n - 1) as nat) + (match chs[n - 1] {
            Some(c) => c.on_pause(pause, Seq::empty()).actions,
            None => Seq::empty(),
        })
    }
}

/// All channels with the link gone.
pub open spec fn disconnected(chs: Seq<Option<ChannelModel>>) -> Seq<Option<ChannelModel>> {
    Seq::new(
        chs.len(),
        |i: int|
            match chs[i] {
                Some(c) => Some(c.on_link_disconnect(Seq::empty()).ch),
                None => None,
            },
    )
}

/// The orders that the loss of the link comes to for the first `n` ids.
pub open spec fn disconnect_actions(chs: Seq<Option<ChannelModel>>, n: nat) -> Seq<Action>
    decreases n,
{
    if n == 0 {
        Seq::empty()
    } else {
        disconnect_actions(chs, (n - 1) as nat) + (match chs[n - 1] {
            Some(c) => c.on_link_disconnect(Seq::empty()).actions,
            None => Seq::empty(),
        })
    }
}

/// All channels with the link's handshake completed.
pub open spec fn connected(chs: Seq<Option<ChannelModel>>) -> Seq<Option<ChannelModel>> {
    Seq::new(
        chs.len(),
        |i: int|
            match chs[i] {
                Some(c) => Some(c.on_link_connect(Seq::empty()).ch),
                None => None,
            },
    )
}

/// The orders that the completed handshake comes to for the first `n` ids.
pub open spec fn connect_actions(chs: Seq<Option<ChannelModel>>, n: nat) -> Seq<Action>
    decreases n,
{
    if n == 0 {
        Seq::empty()
    } else {
        connect_actions(chs, (n - 1) as nat) + (match chs[n - 1] {
            Some(c) => c.on_link_connect(Seq::empty()).actions,
            None => Seq::empty(),
        })
    }
}

/// The queue once the first `n` ids announced themselves, one after the other.
pub open spec fn connect_queue(chs: Seq<Option<ChannelModel>>, n: nat, queue: Seq<u8>) -> Seq<u8>
    decreases n,
{
    if n == 0 {
        queue
    } else {
        let before = connect_queue(chs, (n - 1) as nat, queue);
        match chs[n - 1] {
            Some(c) => c.on_link_connect(before).queue,
            None => before,
        }
    }
}

/// All channels after a timer tick.
pub open spec fn ticked(chs: Seq<Option<ChannelModel>>, now: u64) -> Seq<Option<ChannelModel>> {
    Seq::new(
        chs.len(),
        |i: int|
            match chs[i] {
                Some(c) => Some(c.on_tick(now, Seq::empty()).ch),
                None => None,
            },
    )
}

/// The queue once the first `n` ids were ticked, one after the other.
pub open spec fn tick_queue(
    chs: Seq<Option<ChannelModel>>,
    now: u64,
    n: nat,
    queue: Seq<u8>,
) -> Seq<u8>
    decreases n,
{
    if n == 0 {
        queue
    } else {
        let before = tick_queue(chs, now, (n - 1) as nat, queue);
        match chs[n - 1] {
            Some(c) => c.on_tick(now, before).queue,
            None => before,
        }
    }
}

/// The steps that the first `n` ids need after a tick.
pub open spec fn tick_steps(chs: Seq<Option<ChannelModel>>, now: u64, n: nat) -> Seq<Step>
    decreases n,
{
    if n == 0 {
        Seq::empty()
    } else {
        let before = tick_steps(chs, now, (n - 1) as nat);
        match chs[n - 1] {
            Some(c) if c.on_tick(now, Seq::empty()).step != Step::Done => before.push(
                c.on_tick(now, Seq::empty()).step,
            ),
            _ => before,
        }
    }
}

/// The earlier of a time and a deadline.
pub open spec fn earlier(t: u64, deadline: Option<u64>) -> u64 {
    match deadline {
        Some(d) if d < t => d,
        _ => t,
    }
}

/// The earliest of a time and the deadlines of the first `n` ids.
pub open spec fn earliest(chs: Seq<Option<ChannelModel>>, n: nat, t: u64) -> u64
    decreases n,
{
    if n == 0 {
        t
    } else {
        earlier(
            earliest(chs, (n - 1) as nat, t),
            match chs[n - 1] {
                Some(c) => c.deadline(),
                None => None,
            },
        )
    }
}

/// What each call leaves of a channel as it was: its id, and, but for pausing
/// itself, whether it is paused.
pub proof fn lemma_channel_frame(c: ChannelModel, pause: bool, now: u64, queue: Seq<u8>)
    requires
        c.wf(),
    ensures
        c.on_pause(pause, queue).ch.id() == c.id(),
        c.on_pause(pause, queue).ch.is_paused() == pause,
        c.is_down() ==> c.on_pause(pause, queue).ch.is_down(),
        c.on_link_disconnect(queue).ch.id() == c.id(),
        c.on_link_disconnect(queue).ch.is_paused() == c.is_paused(),
        c.on_link_disconnect(queue).ch.is_down(),
        c.on_link_connect(queue).ch.id() == c.id(),
        c.on_link_connect(queue).ch.is_paused() == c.is_paused(),
        c.on_tick(now, queue).ch.id() == c.id(),
        c.on_tick(now, queue).ch.is_paused() == c.is_paused(),
        c.is_down() ==> c.on_tick(now, queue).ch.is_down(),
        c.is_down() ==> c.on_tick(now, queue).queue == queue,
{
}

/// What a frame leaves of a channel as it was.
proof fn lemma_on_frame_frame(c: ChannelModel, ftype: u8, payload: Seq<u8>, queue: Seq<u8>)
    requires
        c.wf(),
    ensures
        c.on_frame(ftype, payload, queue).ch.id() == c.id(),
        c.on_frame(ftype, payload, queue).ch.is_paused() == c.is_paused(),
{
}

/// What an event leaves of a channel as it was; and one that does not serve
/// the link leaves a channel that has nothing to do with it so.
proof fn lemma_on_event_frame(
    c: ChannelModel,
    token: Token,
    readable: bool,
    writable: bool,
    event: Event,
    now: u64,
    queue: Seq<u8>,
)
    requires
        c.wf(),
        c.can_have(token, event),
    ensures
        ({
            let e = c.on_event(token, readable, writable, event, now, queue);
            &&& e.ch.id() == c.id()
            &&& e.ch.is_paused() == c.is_paused()
            &&& c.is_down() && !channel::serves_link(event) ==> e.ch.is_down() && e.queue == queue
        }),
{
    token::lemma_owned_token(token, c.id());
}

impl ChannelSet {
    /// Collect channels; of two with one id the later stays.
    pub fn new(list: Vec<Channel>) -> (s: Self)
        requires
            forall|i: int|
                0 <= i < list@.len() ==> (#[trigger] list@[i])@.wf() && !list@[i]@.is_paused()
                    && list@[i]@.is_down(),
        ensures
            s@ == collected(Seq::new(list@.len(), |i: int| list@[i]@)),
            all_wf(s@),
            all_paused(s@, false),
            all_down(s@),
    {
        let mut slots: Vec<Option<Channel>> = Vec::with_capacity(CHANNEL_IDS);
        let mut i: usize = 0;
        while i < CHANNEL_IDS
            invariant
                i <= CHANNEL_IDS,
                slots@.len() == i,
                forall|k: int| 0 <= k < i ==> slots@[k] is None,
            decreases CHANNEL_IDS - i,
        {
            slots.push(None);
            i += 1;
        }
        let ghost full = Seq::new(list@.len(), |i: int| list@[i]@);
        let ghost all = list@;
        let mut rest: Vec<Channel> = list;
        let mut done: usize = 0;
        let total: usize = rest.len();
        let mut set = ChannelSet { slots };
        assert(set@ =~= collected(full.take(0)));
        while done < total
            invariant
                done <= total,
                total == all.len(),
                rest@.len() == total - done,
                full == Seq::new(all.len(), |i: int| all[i]@),
                forall|k: int| 0 <= k < rest@.len() ==> rest@[k] == all[done + k],
                forall|i: int|
                    0 <= i < all.len() ==> (#[trigger] all[i])@.wf() && !all[i]@.is_paused()
                        && all[i]@.is_down(),
                set.slots@.len() == CHANNEL_IDS,
                set@ == collected(full.take(done as int)),
                all_wf(set@),
                all_paused(set@, false),
                all_down(set@),
            decreases total - done,
        {
            let c: Channel = rest.remove(0);
            let ghost before = set@;
            let ghost m = c@;
            assert(m == all[done as int]@);
            let id: usize = c.channel_id() as usize;
            set.slots[id] = Some(c);
            proof {
                let prefix = full.take(done + 1);
                assert(prefix.drop_last() =~= full.take(done as int));
                assert(prefix.last() == m);
                assert(set@ =~= inserted(before, m));
            }
            done += 1;
        }
        assert(full.take(total as int) =~= full);
        set
    }

    /// The channel with a wire id.
    pub fn get(&self, id: u8) -> (c: Option<&Channel>)
        requires
            all_wf(self@),
        ensures
            match c {
                Some(c) => self@[id as int] == Some(c@),
                None => self@[id as int] is None,
            },
    {
        assert(self@.len() == self.slots@.len());
        match &self.slots[id as usize] {
            Some(c) => Some(c),
            None => None,
        }
    }

    /// Suspend or resume the reads of all channels.
    pub fn pause_all(&mut self, pause: bool, out: &mut Vec<Action>)
        requires
            all_wf(old(self)@),
        ensures
            all_wf(final(self)@),
            all_paused(final(self)@, pause),
            all_down(old(self)@) ==> all_down(final(self)@),
            final(self)@ == paused(old(self)@, pause),
            final(out)@ == old(out)@ + pause_actions(old(self)@, pause, CHANNEL_IDS as nat),
    {
        let ghost chs = self@;
        let mut i: usize = 0;
        assert(old(out)@ + pause_actions(chs, pause, 0) =~= old(out)@);
        while i < CHANNEL_IDS
            invariant
                i <= CHANNEL_IDS,
                all_wf(chs),
                all_wf(self@),
                forall|k: int| 0 <= k < i ==> #[trigger] self@[k] == paused(chs, pause)[k],
                forall|k: int| i <= k < CHANNEL_IDS ==> #[trigger] self@[k] == chs[k],
                out@ == old(out)@ + pause_actions(chs, pause, i as nat),
            decreases CHANNEL_IDS - i,
        {
            let ghost before = self@;
            assert(self@.len() == self.slots@.len());
            if let Some(mut c) = self.slots[i].take() {
                assert(before[i as int] == Some(c@));
                proof {
                    lemma_channel_frame(c@, pause, 0, Seq::empty());
                }
                if pause {
                    c.pause_source_reads(out);
                } else {
                    c.resume_source_reads(out);
                }
                let ghost m = c@;
                self.slots[i] = Some(c);
                assert(self@ =~= before.update(i as int, Some(m)));
            } else {
                assert(self@ =~= before);
            }
            assert(out@ =~= old(out)@ + pause_actions(chs, pause, (i + 1) as nat));
            i += 1;
        }
        assert(self@ =~= paused(chs, pause));
        assert forall|k: int| 0 <= k < CHANNEL_IDS implies (#[trigger] self@[k] matches Some(
            c,
        ) ==> c.is_paused() == pause && (all_down(chs) ==> c.is_down())) by {
            if let Some(c0) = chs[k] {
                lemma_channel_frame(c0, pause, 0, Seq::empty());
            }
        }
    }

    /// Tell all channels that the link is gone.
    pub fn disconnect_all(&mut self, out: &mut Vec<Action>)
        requires
            all_wf(old(self)@),
        ensures
            all_wf(final(self)@),
            forall|p: bool|
                all_paused(old(self)@, p) ==> #[trigger] all_paused(final(self)@, p),
            all_down(final(self)@),
            final(self)@ == disconnected(old(self)@),
            final(out)@ == old(out)@ + disconnect_actions(old(self)@, CHANNEL_IDS as nat),
    {
        let ghost chs = self@;
        let mut i: usize = 0;
        assert(old(out)@ + disconnect_actions(chs, 0) =~= old(out)@);
        while i < CHANNEL_IDS
            invariant
                i <= CHANNEL_IDS,
                all_wf(chs),
                all_wf(self@),
                forall|k: int| 0 <= k < i ==> #[trigger] self@[k] == disconnected(chs)[k],
                forall|k: int| i <= k < CHANNEL_IDS ==> #[trigger] self@[k] == chs[k],
                out@ == old(out)@ + disconnect_actions(chs, i as nat),
            decreases CHANNEL_IDS - i,
        {
            let ghost before = self@;
            assert(self@.len() == self.slots@.len());
            if let Some(mut c) = self.slots[i].take() {
                assert(before[i as int] == Some(c@));
                proof {
                    lemma_channel_frame(c@, false, 0, Seq::empty());
                }
                c.on_link_disconnect(out);
                let ghost m = c@;
                self.slots[i] = Some(c);
                assert(self@ =~= before.update(i as int, Some(m)));
            } else {
                assert(self@ =~= before);
            }
            assert(out@ =~= old(out)@ + disconnect_actions(chs, (i + 1) as nat));
            i += 1;
        }
        assert(self@ =~= disconnected(chs));
        assert forall|k: int| 0 <= k < CHANNEL_IDS implies (#[trigger] self@[k] matches Some(
            c,
        ) ==> chs[k] is Some && c.is_paused() == chs[k]->Some_0.is_paused() && c.is_down()) by {
            if let Some(c0) = chs[k] {
                lemma_channel_frame(c0, false, 0, Seq::empty());
            }
        }
    }

    /// Tell all channels that the link's handshake is complete.
    pub fn connect_all(&mut self, txq: &mut TxQueue, out: &mut Vec<Action>)
        requires
            all_wf(old(self)@),
            old(txq).wf(),
        ensures
            all_wf(final(self)@),
            final(txq).wf(),
            forall|p: bool|
                all_paused(old(self)@, p) ==> #[trigger] all_paused(final(self)@, p),
            final(self)@ == connected(old(self)@),
            final(txq)@ == connect_queue(old(self)@, CHANNEL_IDS as nat, old(txq)@),
            final(out)@ == old(out)@ + connect_actions(old(self)@, CHANNEL_IDS as nat),
    {
        let ghost chs = self@;
        let mut i: usize = 0;
        assert(old(out)@ + connect_actions(chs, 0) =~= old(out)@);
        while i < CHANNEL_IDS
            invariant
                i <= CHANNEL_IDS,
                all_wf(chs),
                all_wf(self@),
                txq.wf(),
                forall|k: int| 0 <= k < i ==> #[trigger] self@[k] == connected(chs)[k],
                forall|k: int| i <= k < CHANNEL_IDS ==> #[trigger] self@[k] == chs[k],
                txq@ == connect_queue(chs, i as nat, old(txq)@),
                out@ == old(out)@ + connect_actions(chs, i as nat),
            decreases CHANNEL_IDS - i,
        {
            let ghost before = self@;
            assert(self@.len() == self.slots@.len());
            if let Some(mut c) = self.slots[i].take() {
                assert(before[i as int] == Some(c@));
                proof {
                    lemma_channel_frame(c@, false, 0, Seq::empty());
                    lemma_channel_frame(c@, false, 0, txq@);
                }
                c.on_link_connect(txq, out);
                let ghost m = c@;
                self.slots[i] = Some(c);
                assert(self@ =~= before.update(i as int, Some(m)));
            } else {
                assert(self@ =~= before);
            }
            assert(out@ =~= old(out)@ + connect_actions(chs, (i + 1) as nat));
            i += 1;
        }
        assert(self@ =~= connected(chs));
        assert forall|k: int| 0 <= k < CHANNEL_IDS implies (#[trigger] self@[k] matches Some(
            c,
        ) ==> chs[k] is Some && c.is_paused() == chs[k]->Some_0.is_paused()) by {
            if let Some(c0) = chs[k] {
                lemma_channel_frame(c0, false, 0, Seq::empty());
            }
        }
    }

    /// Tick all channels, and collect the steps that they need.
    pub fn tick_all(&mut self, now: u64, txq: &mut TxQueue, steps: &mut Vec<Step>)
        requires
            all_wf(old(self)@),
            old(txq).wf(),
        ensures
            all_wf(final(self)@),
            final(txq).wf(),
            forall|p: bool|
                all_paused(old(self)@, p) ==> #[trigger] all_paused(final(self)@, p),
            all_down(old(self)@) ==> all_down(final(self)@) && final(txq)@ == old(txq)@,
            final(self)@ == ticked(old(self)@, now),
            final(txq)@ == tick_queue(old(self)@, now, CHANNEL_IDS as nat, old(txq)@),
            final(steps)@ == old(steps)@ + tick_steps(old(self)@, now, CHANNEL_IDS as nat),
    {
        let ghost chs = self@;
        let mut i: usize = 0;
        assert(old(steps)@ + tick_steps(chs, now, 0) =~= old(steps)@);
        while i < CHANNEL_IDS
            invariant
                i <= CHANNEL_IDS,
                all_wf(chs),
                all_wf(self@),
                txq.wf(),
                forall|k: int| 0 <= k < i ==> #[trigger] self@[k] == ticked(chs, now)[k],
                forall|k: int| i <= k < CHANNEL_IDS ==> #[trigger] self@[k] == chs[k],
                txq@ == tick_queue(chs, now, i as nat, old(txq)@),
                all_down(chs) ==> txq@ == old(txq)@,
                steps@ == old(steps)@ + tick_steps(chs, now, i as nat),
            decreases CHANNEL_IDS - i,
        {
            let ghost before = self@;
            assert(self@.len() == self.slots@.len());
            if let Some(mut c) = self.slots[i].take() {
                assert(before[i as int] == Some(c@));
                proof {
                    assert(before[i as int] == chs[i as int]);
                    lemma_channel_frame(c@, false, now, Seq::empty());
                    lemma_channel_frame(c@, false, now, txq@);
                }
                let step: Step = c.tick(now, txq);
                let ghost m = c@;
                self.slots[i] = Some(c);
                assert(self@ =~= before.update(i as int, Some(m)));
                match step {
                    Step::Done => {},
                    _ => {
                        steps.push(step);
                    },
                }
            } else {
                assert(self@ =~= before);
            }
            assert(steps@ =~= old(steps)@ + tick_steps(chs, now, (i + 1) as nat));
            i += 1;
        }
        assert(self@ =~= ticked(chs, now));
        assert forall|k: int| 0 <= k < CHANNEL_IDS implies (#[trigger] self@[k] matches Some(
            c,
        ) ==> chs[k] is Some && c.is_paused() == chs[k]->Some_0.is_paused() && (all_down(chs)
            ==> c.is_down())) by {
            if let Some(c0) = chs[k] {
                lemma_channel_frame(c0, false, now, Seq::empty());
            }
        }
    }

    /// The earliest of a time and the deadlines of all channels.
    pub fn next_deadline(&self, t: u64) -> (d: u64)
        requires
            all_wf(self@),
        ensures
            d == earliest(self@, CHANNEL_IDS as nat, t),
    {
        let mut d: u64 = t;
        let mut i: usize = 0;
        assert(self@.len() == self.slots@.len());
        while i < CHANNEL_IDS
            invariant
                i <= CHANNEL_IDS,
                all_wf(self@),
                self.slots@.len() == CHANNEL_IDS,
                d == earliest(self@, i as nat, t),
            decreases CHANNEL_IDS - i,
        {
            if let Some(c) = &self.slots[i] {
                assert(self@[i as int] == Some(c@));
                if let Some(at) = c.next_deadline() {
                    if at < d {
                        d = at;
                    }
                }
            } else {
                assert(self@[i as int] is None);
            }
            i += 1;
        }
        d
    }

    /// A frame arrived for a channel.  One for a channel that is not there is
    /// dropped.
    pub fn on_frame(
        &mut self,
        id: u8,
        ftype: u8,
        payload: &[u8],
        txq: &mut TxQueue,
        out: &mut Vec<Action>,
    ) -> (step: Step)
        requires
            all_wf(old(self)@),
            old(txq).wf(),
        ensures
            all_wf(final(self)@),
            final(txq).wf(),
            forall|p: bool|
                all_paused(old(self)@, p) ==> #[trigger] all_paused(final(self)@, p),
            match old(self)@[id as int] {
                Some(c) => ({
                    let e = c.on_frame(ftype, payload@, old(txq)@);
                    &&& final(self)@ == old(self)@.update(id as int, Some(e.ch))
                    &&& final(txq)@ == e.queue
                    &&& final(out)@ == old(out)@ + e.actions
                    &&& step == e.step
                }),
                None => final(self)@ == old(self)@ && final(txq)@ == old(txq)@ && final(out)@
                    == old(out)@ && step == Step::Done,
            },
    {
        let ghost before = self@;
        assert(self@.len() == self.slots@.len());
        let i: usize = id as usize;
        if let Some(mut c) = self.slots[i].take() {
            assert(before[i as int] == Some(c@));
            proof {
                lemma_on_frame_frame(c@, ftype, payload@, txq@);
            }
            let step: Step = c.on_frame(ftype, payload, txq, out);
            let ghost m = c@;
            self.slots[i] = Some(c);
            assert(self@ =~= before.update(i as int, Some(m)));
            step
        } else {
            assert(self@ =~= before);
            Step::Done
        }
    }

    /// Something happened to a descriptor of a channel.  What happens to a
    /// channel that is not there is nothing.
    pub fn on_event(
        &mut self,
        id: u8,
        token: Token,
        readable: bool,
        writable: bool,
        event: Event,
        now: u64,
        txq: &mut TxQueue,
        out: &mut Vec<Action>,
    ) -> (step: Step)
        requires
            all_wf(old(self)@),
            old(txq).wf(),
            now <= TIME_LIMIT,
            old(self)@[id as int] matches Some(c) ==> c.can_have(token, event),
        ensures
            all_wf(final(self)@),
            final(txq).wf(),
            forall|p: bool|
                all_paused(old(self)@, p) ==> #[trigger] all_paused(final(self)@, p),
            all_down(old(self)@) && !channel::serves_link(event) ==> all_down(final(self)@)
                && final(txq)@ == old(txq)@,
            match old(self)@[id as int] {
                Some(c) => ({
                    let e = c.on_event(token, readable, writable, event, now, old(txq)@);
                    &&& final(self)@ == old(self)@.update(id as int, Some(e.ch))
                    &&& final(txq)@ == e.queue
                    &&& final(out)@ == old(out)@ + e.actions
                    &&& step == e.step
                }),
                None => final(self)@ == old(self)@ && final(txq)@ == old(txq)@ && final(out)@
                    == old(out)@ && step == Step::Done,
            },
    {
        let ghost before = self@;
        assert(self@.len() == self.slots@.len());
        let i: usize = id as usize;
        if let Some(mut c) = self.slots[i].take() {
            assert(before[i as int] == Some(c@));
            proof {
                lemma_on_event_frame(c@, token, readable, writable, event, now, txq@);
            }
            let step: Step = c.handle_event(token, readable, writable, event, now, txq, out);
            let ghost m = c@;
            self.slots[i] = Some(c);
            assert(self@ =~= before.update(i as int, Some(m)));
            step
        } else {
            assert(self@ =~= before);
            Step::Done
        }
    }
}

} // verus!
