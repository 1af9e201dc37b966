//! What a channel asks of the event loop.

use super::token::Token;
use vstd::prelude::*;

verus! {

/// The readiness that a registration waits for.
#[derive(Debug, Clone, Copy, PartialEq, Eq, Structural)]
pub enum Interest {
    Readable,
    Writable,
    ReadWrite,
}

/// An order to the event loop that needs no answer.  Orders are carried out
/// in the order given.
#[derive(Debug, Clone, Copy, PartialEq, Eq, Structural)]
pub enum Action {
    /// Start to wait for readiness.
    Register(Token, Interest),
    /// Change what is waited for.
    Reregister(Token, Interest),
    /// Stop waiting.
    Deregister(Token),
    /// Close the descriptors behind the token.
    Close(Token),
    /// Remove the symlink that exposes the PTY behind the token.
    RemoveSymlink(Token),
}

/// The I/O that a channel needs next, and whose outcome it must be told.
#[derive(Debug, Clone, Copy, PartialEq, Eq, Structural)]
pub enum Step {
    /// Nothing: the call is finished.
    Done,
    /// Read from the descriptor.
    Read(Token),
    /// Write the pending bytes to the descriptor.
    Write(Token),
    /// Open the UART.
    OpenUart(Token),
    /// Open a PTY pair and expose it.
    OpenPty(Token),
    /// Accept a connection on the listener.
    Accept(Token),
    /// Drop the connection just accepted, and accept again.
    Refuse(Token),
    /// Register the connection just accepted, for reading and writing.
    Adopt(Token),
    /// Start to connect, and register for reading and writing.
    Connect(Token),
    /// Find out whether the connection was made.
    CheckConnect(Token),
}

/// What a call does to a channel.
#[verifier::ext_equal]
pub struct Effect<M> {
    /// The channel afterwards.
    pub ch: M,
    /// The link's outbound queue afterwards.
    pub queue: Seq<u8>,
    /// The orders given.
    pub actions: Seq<Action>,
    /// The I/O needed next.
    pub step: Step,
}

/// The registration that fits what is wanted of a descriptor.
pub open spec fn interest_for(read: bool, write: bool) -> Option<Interest> {
    if read && write {
        Some(Interest::ReadWrite)
    } else if read {
        Some(Interest::Readable)
    } else if write {
        Some(Interest::Writable)
    } else {
        None
    }
}

/// The order that brings a registration in line with what is wanted.
pub open spec fn sync_actions(token: Token, want: Option<Interest>, in_sel: bool) -> Seq<Action> {
    match want {
        Some(i) => if in_sel {
            seq![Action::Reregister(token, i)]
        } else {
            seq![Action::Register(token, i)]
        },
        None => if in_sel {
            seq![Action::Deregister(token)]
        } else {
            Seq::empty()
        },
    }
}

/// Bring a registration in line with what is wanted, and return whether the
/// descriptor is registered then.
pub fn sync_registration(
    token: Token,
    read: bool,
    write: bool,
    in_sel: bool,
    out: &mut Vec<Action>,
) -> (registered: bool)
    ensures
        registered == (read || write),
        final(out)@ == old(out)@ + sync_actions(token, interest_for(read, write), in_sel),
{
    if read || write {
        let interest: Interest = if read && write {
            Interest::ReadWrite
        } else if read {
            Interest::Readable
        } else {
            Interest::Writable
        };
        if in_sel {
            out.push(Action::Reregister(token, interest));
        } else {
            out.push(Action::Register(token, interest));
        }
        assert(out@ =~= old(out)@ + sync_actions(token, interest_for(read, write), in_sel));
        true
    } else {
        if in_sel {
            out.push(Action::Deregister(token));
        }
        assert(out@ =~= old(out)@ + sync_actions(token, interest_for(read, write), in_sel));
        false
    }
}

/// Drop the first `n` bytes of a buffer.
pub(crate) fn drop_front(buf: &mut Vec<u8>, n: usize)
    requires
        n <= old(buf)@.len(),
    ensures
        final(buf)@ == old(buf)@.skip(n as int),
{
    let tail: Vec<u8> = buf.split_off(n);
    *buf = tail;
    assert(buf@ =~= old(buf)@.skip(n as int));
}

/// What is waited for at a token once orders were carried out, given what was
/// waited for before.
pub open spec fn registration(before: Option<Interest>, actions: Seq<Action>, token: Token) -> Option<
    Interest,
>
    decreases actions.len(),
{
    if actions.len() == 0 {
        before
    } else {
        let sofar = registration(before, actions.drop_last(), token);
        match actions.last() {
            Action::Register(t, i) if t == token => Some(i),
            Action::Reregister(t, i) if t == token => Some(i),
            Action::Deregister(t) if t == token => None,
            _ => sofar,
        }
    }
}

/// Orders can be carried out: only what is not waited for is registered, and
/// only what is waited for is changed or ended.
pub open spec fn orderly(before: Option<Interest>, actions: Seq<Action>, token: Token) -> bool
    decreases actions.len(),
{
    if actions.len() == 0 {
        true
    } else {
        let sofar = registration(before, actions.drop_last(), token);
        &&& orderly(before, actions.drop_last(), token)
        &&& match actions.last() {
            Action::Register(t, _) => t == token ==> sofar is None,
            Action::Reregister(t, _) => t == token ==> sofar is Some,
            Action::Deregister(t) => t == token ==> sofar is Some,
            _ => true,
        }
    }
}

/// The registration waits for data.
pub open spec fn expects_data(r: Option<Interest>) -> bool {
    r == Some(Interest::Readable) || r == Some(Interest::ReadWrite)
}

/// The registration waits for room to write.
pub open spec fn expects_room(r: Option<Interest>) -> bool {
    r == Some(Interest::Writable) || r == Some(Interest::ReadWrite)
}

/// The orders, carried out at a token, leave it waiting for just what is
/// wanted; where that is nothing, it is not registered.
pub open spec fn leaves_waiting(
    before: Option<Interest>,
    actions: Seq<Action>,
    token: Token,
    read: bool,
    write: bool,
) -> bool {
    let after = registration(before, actions, token);
    &&& orderly(before, actions, token)
    &&& expects_data(after) == read
    &&& expects_room(after) == write
    &&& after is Some == (read || write)
}

/// A registration is brought in line with what is wanted, whatever it was
/// before, and no other token is touched.
pub proof fn law_registration_is_brought_in_line(
    token: Token,
    read: bool,
    write: bool,
    before: Option<Interest>,
    other: Token,
)
    ensures
        ({
            let actions = sync_actions(token, interest_for(read, write), before is Some);
            &&& leaves_waiting(before, actions, token, read, write)
            &&& other != token ==> registration(before, actions, other) == before
        }),
{
    let actions = sync_actions(token, interest_for(read, write), before is Some);
    if actions.len() > 0 {
        assert(actions.drop_last() =~= Seq::empty());
        assert(registration(before, actions.drop_last(), token) == before);
        assert(registration(before, actions.drop_last(), other) == before);
        assert(orderly(before, actions.drop_last(), token));
    }
}

/// Orders are carried out one after the other.
pub proof fn lemma_registration_concat(
    before: Option<Interest>,
    a: Seq<Action>,
    b: Seq<Action>,
    token: Token,
)
    ensures
        registration(before, a + b, token) == registration(
            registration(before, a, token),
            b,
            token,
        ),
        orderly(before, a + b, token) == (orderly(before, a, token) && orderly(
            registration(before, a, token),
            b,
            token,
        )),
    decreases b.len(),
{
    if b.len() == 0 {
        assert(a + b =~= a);
    } else {
        lemma_registration_concat(before, a, b.drop_last(), token);
        assert((a + b).drop_last() =~= a + b.drop_last());
    }
}

} // verus!
