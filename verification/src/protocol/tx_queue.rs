//! Outbound ring buffer of the link.

use super::LINK_TXBUF_SIZE;
use crate::serial::WriteOutcome;
#[allow(unused_imports)]
use super::frame;
#[allow(unused_imports)]
use super::{LINK_HIGH_WATER, MAX_PAYLOAD};
use vstd::prelude::*;

verus! {

/// The most bytes a queue can hold: one place of the ring stays free.
pub const TXQ_LIMIT: usize = LINK_TXBUF_SIZE - 1;

/// The queue after a frame was pushed: the frame stands at its end, or, where
/// it does not fit whole, was dropped whole.
pub open spec fn enqueued(queue: Seq<u8>, data: Seq<u8>) -> Seq<u8> {
    if queue.len() + data.len() <= TXQ_LIMIT {
        queue + data
    } else {
        queue
    }
}

/// The place of the ring that a position stands for.
pub open spec fn wrapped(i: int) -> int {
    if i < LINK_TXBUF_SIZE {
        i
    } else {
        i - LINK_TXBUF_SIZE
    }
}

/// Outbound frame ring buffer for the CDC link.
///
/// Frames are pushed at the tail and drained from the head, one contiguous
/// segment per write.  The underlying buffer is fixed at
/// [`LINK_TXBUF_SIZE`] bytes and pre-allocated at construction; no further
/// heap allocation occurs during normal operation.
pub struct TxQueue {
    /// Fixed-size backing store.
    buf: Vec<u8>,
    /// Read position (bytes available from `head` to `tail`).
    head: usize,
    /// Write position.
    tail: usize,
}

impl View for TxQueue {
    type V = Seq<u8>;

    /// The queued bytes, the next one to be written first.
    closed spec fn view(&self) -> Seq<u8> {
        Seq::new(self.count() as nat, |i: int| self.buf@[wrapped(self.head + i)])
    }
}

impl Default for TxQueue {
    fn default() -> (q: Self)
        ensures
            q.wf(),
            q@ == Seq::<u8>::empty(),
            q.start() == 0,
    {
        Self::new()
    }
}

impl TxQueue {
    /// The ring has its full size, and both positions lie in it.
    pub closed spec fn wf(&self) -> bool {
        &&& self.buf@.len() == LINK_TXBUF_SIZE
        &&& self.head < LINK_TXBUF_SIZE
        &&& self.tail < LINK_TXBUF_SIZE
    }

    spec fn count(&self) -> int {
        if self.tail >= self.head {
            self.tail - self.head
        } else {
            self.tail + LINK_TXBUF_SIZE - self.head
        }
    }

    /// The place of the ring where the first queued byte stands.
    pub closed spec fn start(&self) -> nat {
        self.head as nat
    }

    /// The queued bytes run past the end of the ring, and go on at its front.
    pub open spec fn wraps(&self) -> bool {
        self.start() + self@.len() > LINK_TXBUF_SIZE
    }

    /// How many of the queued bytes stand in one piece, from the first on: all
    /// of them, or those up to the end of the ring.
    pub open spec fn contiguous(&self) -> nat {
        if self.wraps() {
            (LINK_TXBUF_SIZE - self.start()) as nat
        } else {
            self@.len()
        }
    }

    /// A queue never holds more than its limit, and the piece that can be
    /// written next is the whole queue unless the ring wraps; it is empty only
    /// where the queue is.
    pub proof fn law_queue_is_bounded(&self)
        requires
            self.wf(),
        ensures
            self@.len() <= TXQ_LIMIT,
            self.contiguous() <= self@.len(),
            self.contiguous() == 0 <==> self@.len() == 0,
            self.contiguous() == self@.len() <==> !self.wraps(),
            self.start() < LINK_TXBUF_SIZE,
    {
    }

    /// Allocate a new ring buffer of capacity [`LINK_TXBUF_SIZE`].
    pub fn new() -> (q: Self)
        ensures
            q.wf(),
            q@ == Seq::<u8>::empty(),
            q.start() == 0,
    {
        let q = TxQueue { buf: vec![0u8; LINK_TXBUF_SIZE], head: 0, tail: 0 };
        assert(q@ =~= Seq::<u8>::empty());
        q
    }

    /// Reset to empty.  Call after a link reconnect.
    pub fn reset(&mut self)
        requires
            old(self).wf(),
        ensures
            final(self).wf(),
            final(self)@ == Seq::<u8>::empty(),
            final(self).start() == 0,
    {
        self.head = 0;
        self.tail = 0;
        assert(self@ =~= Seq::<u8>::empty());
    }

    /// Number of bytes currently queued.
    pub fn used(&self) -> (n: usize)
        requires
            self.wf(),
        ensures
            n == self@.len(),
    {
        if self.tail >= self.head {
            self.tail - self.head
        } else {
            self.tail + LINK_TXBUF_SIZE - self.head
        }
    }

    /// Whether the queue is empty.
    pub fn is_empty(&self) -> (empty: bool)
        requires
            self.wf(),
        ensures
            empty == (self@.len() == 0),
    {
        self.head == self.tail
    }

    /// Enqueue `data` bytes at the tail.
    ///
    /// If there is insufficient space (i.e. the caller did not apply
    /// backpressure correctly), the frame is silently dropped.
    pub fn enqueue(&mut self, data: &[u8])
        requires
            old(self).wf(),
        ensures
            final(self).wf(),
            final(self)@ == enqueued(old(self)@, data@),
            final(self).start() == old(self).start(),
    {
        let n: usize = data.len();
        if n > LINK_TXBUF_SIZE - 1 - self.used() {
            return ;
        }
        let mut t: usize = self.tail;
        let mut j: usize = 0;
        let ghost b0 = self.buf@;
        let ghost c0 = self.count();
        while j < n
            invariant
                j <= n,
                n == data@.len(),
                self.head == old(self).head,
                self.tail == old(self).tail,
                self.head < LINK_TXBUF_SIZE,
                self.tail < LINK_TXBUF_SIZE,
                self.buf@.len() == LINK_TXBUF_SIZE,
                b0.len() == LINK_TXBUF_SIZE,
                c0 == self.count(),
                c0 + n < LINK_TXBUF_SIZE,
                t == wrapped(self.tail + j),
                forall|i: int|
                    0 <= i < c0 ==> self.buf@[#[trigger] wrapped(self.head + i)] == b0[wrapped(
                        self.head + i,
                    )],
                forall|i: int|
                    0 <= i < j ==> self.buf@[wrapped(self.head + c0 + i)] == #[trigger] data@[i],
            decreases n - j,
        {
            self.buf[t] = data[j];
            t = if t + 1 == LINK_TXBUF_SIZE {
                0
            } else {
                t + 1
            };
            j += 1;
        }
        self.tail = t;
        proof {
            let q0 = old(self)@;
            assert(self.count() == c0 + n);
            assert forall|i: int| 0 <= i < c0 + n implies self@[i] == (q0 + data@)[i] by {
                if i < c0 {
                    assert(self.buf@[wrapped(self.head + i)] == b0[wrapped(self.head + i)]);
                } else {
                    assert(self.buf@[wrapped(self.head + c0 + (i - c0))] == data@[i - c0]);
                }
            }
            assert(self@ =~= q0 + data@);
        }
    }

    /// The piece to hand to the next write.  If the data wraps around, only
    /// the first piece is given; the rest follows on the next writable event.
    pub fn segment(&self) -> (piece: &[u8])
        requires
            self.wf(),
        ensures
            piece@ == self@.take(self.contiguous() as int),
    {
        let end: usize = if self.tail >= self.head {
            self.tail
        } else {
            LINK_TXBUF_SIZE
        };
        let piece: &[u8] = &self.buf.as_slice()[self.head..end];
        assert(piece@ =~= self@.take(self.contiguous() as int));
        piece
    }

    /// Account for one write of the contiguous [`segment`](TxQueue::segment).
    ///
    /// Returns `Ok(true)` if the queue is now empty, `Ok(false)` if bytes
    /// remain (also where the descriptor was not ready), or the error code of
    /// a real write error.  On an empty queue nothing is written.
    pub fn drain_to_fd(&mut self, write: WriteOutcome) -> (res: Result<bool, i32>)
        requires
            old(self).wf(),
            write matches WriteOutcome::Written(n) ==> n <= old(self).contiguous(),
        ensures
            final(self).wf(),
            ({
                let q0 = old(self)@;
                let q1 = final(self)@;
                match write {
                    WriteOutcome::Written(n) => q1 == q0.skip(n as int) && res == Ok::<bool, i32>(
                        q1.len() == 0,
                    ),
                    WriteOutcome::WouldBlock => q1 == q0 && res == Ok::<bool, i32>(q0.len() == 0),
                    WriteOutcome::Failed(code) => q1 == q0 && res == (if q0.len() == 0 {
                        Ok::<bool, i32>(true)
                    } else {
                        Err(code)
                    }),
                }
            }),
            final(self).start() == (match write {
                WriteOutcome::Written(n) => wrapped(old(self).start() + n),
                _ => old(self).start() as int,
            }),
    {
        match write {
            WriteOutcome::Written(n) => {
                let ghost q0 = self@;
                self.head = if self.head + n >= LINK_TXBUF_SIZE {
                    self.head + n - LINK_TXBUF_SIZE
                } else {
                    self.head + n
                };
                assert(self@ =~= q0.skip(n as int));
                Ok(self.is_empty())
            },
            WriteOutcome::WouldBlock => Ok(self.is_empty()),
            WriteOutcome::Failed(code) => if self.is_empty() {
                Ok(true)
            } else {
                Err(code)
            },
        }
    }
}

/// Backpressure leaves room: a queue that has not passed the high-water mark
/// takes any frame of legal size whole.
pub proof fn law_frame_fits_up_to_high_water(
    queue: Seq<u8>,
    ftype: u8,
    channel: u8,
    payload: Seq<u8>,
)
    requires
        queue.len() <= LINK_HIGH_WATER,
        payload.len() <= MAX_PAYLOAD,
    ensures
        enqueued(queue, frame::frame_bytes(ftype, channel, payload)) == queue
            + frame::frame_bytes(ftype, channel, payload),
{
    frame::lemma_frame_size(ftype, channel, payload);
}

/// The queue is first in, first out: what comes out of a queue is a prefix of
/// what was in it, and what is pushed stays behind it.
pub proof fn law_queue_is_fifo(queue: Seq<u8>, data: Seq<u8>, n: int)
    requires
        0 <= n <= queue.len(),
        queue.len() + data.len() <= TXQ_LIMIT,
    ensures
        queue.take(n) + enqueued(queue.skip(n), data) == enqueued(queue, data),
{
    assert(queue.take(n) + (queue.skip(n) + data) =~= queue + data);
}

/// A frame is taken whole or not at all: it stands behind what was queued where
/// all of it fits into 540,745 bytes, and else nothing of it does.
pub proof fn law_frame_is_taken_whole_or_dropped(queue: Seq<u8>, data: Seq<u8>)
    ensures
        queue.len() + data.len() <= 540_745 ==> enqueued(queue, data) == queue + data,
        queue.len() + data.len() > 540_745 ==> enqueued(queue, data) == queue,
{
}

} // verus!
