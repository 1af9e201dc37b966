//! Event tokens: which descriptor an event belongs to.
//!
//! * `Token(0)`: the link (managed by the daemon)
//! * `Token(1..=63)`: a channel's primary descriptor (channel N has token N+1)
//! * `Token(TCP_BASE + N*MAX_TCP_CONNS + slot)`: a TCP connection slot of
//!   channel N

use vstd::prelude::*;

verus! {

/// Names a registered event source.
#[derive(Debug, Clone, Copy, PartialEq, Eq, Structural)]
pub struct Token(pub usize);

/// Number of the token reserved for the link.
pub const TOKEN_LINK: usize = 0;

/// Base token for TCP connection slots.
pub const TCP_BASE: usize = 64;

/// Highest channel id that can be represented by primary-descriptor tokens.
pub const MAX_CHANNEL_ID: u8 = 62;

/// Maximum concurrent TCP connections per channel.
pub const MAX_TCP_CONNS: usize = 256;

/// The token of a channel's primary descriptor.
pub open spec fn primary(ch_id: u8) -> Token {
    Token((ch_id + 1) as usize)
}

/// The token of a connection slot.
pub open spec fn tcp_slot(ch_id: u8, slot: int) -> Token {
    Token((TCP_BASE + ch_id * MAX_TCP_CONNS + slot) as usize)
}

/// The channel that owns a token.
pub open spec fn owner(token: Token) -> Option<u8> {
    if token.0 == TOKEN_LINK {
        None
    } else if token.0 < TCP_BASE {
        Some((token.0 - 1) as u8)
    } else if (token.0 - TCP_BASE) / MAX_TCP_CONNS as int <= MAX_CHANNEL_ID {
        Some(((token.0 - TCP_BASE) / MAX_TCP_CONNS as int) as u8)
    } else {
        None
    }
}

/// The connection slot that a token stands for inside its channel.
pub open spec fn slot_of(token: Token) -> int {
    (token.0 - TCP_BASE) % MAX_TCP_CONNS as int
}

/// Compute the token for a channel's primary descriptor (UART / PTY / listen
/// socket).
pub fn primary_token(ch_id: u8) -> (t: Token)
    requires
        ch_id <= MAX_CHANNEL_ID,
    ensures
        t == primary(ch_id),
{
    Token(ch_id as usize + 1)
}

/// Compute the token for a TCP connection slot inside a channel.
pub fn tcp_slot_token(ch_id: u8, slot: usize) -> (t: Token)
    requires
        TCP_BASE + ch_id * MAX_TCP_CONNS + slot <= usize::MAX,
    ensures
        t == tcp_slot(ch_id, slot as int),
{
    Token(TCP_BASE + ch_id as usize * MAX_TCP_CONNS + slot)
}

/// Reverse-map any token to its owning channel id.
///
/// Returns `None` for the link, and for tokens above the last channel's.
pub fn channel_id_for_token(token: Token) -> (id: Option<u8>)
    ensures
        id == owner(token),
{
    if token.0 == TOKEN_LINK {
        None
    } else if token.0 < TCP_BASE {
        Some((token.0 - 1) as u8)
    } else {
        let id: usize = (token.0 - TCP_BASE) / MAX_TCP_CONNS;
        if id <= MAX_CHANNEL_ID as usize {
            Some(id as u8)
        } else {
            None
        }
    }
}

/// The connection slot that a token stands for.
pub fn slot_for_token(token: Token) -> (slot: usize)
    requires
        token.0 >= TCP_BASE,
    ensures
        slot == slot_of(token),
        slot < MAX_TCP_CONNS,
{
    (token.0 - TCP_BASE) % MAX_TCP_CONNS
}

/// A token of a channel is its primary token or that of one of its slots.
pub proof fn lemma_owned_token(token: Token, ch_id: u8)
    requires
        owner(token) == Some(ch_id),
    ensures
        token.0 < TCP_BASE ==> token == primary(ch_id),
        token.0 >= TCP_BASE ==> token == tcp_slot(ch_id, slot_of(token)) && 0 <= slot_of(token)
            < MAX_TCP_CONNS,
{
}

/// Tokens lead back to where they came from: to the channel, and to the slot.
pub proof fn law_tokens_are_reversible(ch_id: u8, slot: int)
    requires
        ch_id <= MAX_CHANNEL_ID,
        0 <= slot < MAX_TCP_CONNS,
    ensures
        owner(primary(ch_id)) == Some(ch_id),
        owner(tcp_slot(ch_id, slot)) == Some(ch_id),
        slot_of(tcp_slot(ch_id, slot)) == slot,
        owner(Token(TOKEN_LINK)) is None,
{
}

/// No two descriptors share a token.
pub proof fn law_tokens_are_distinct(ch_a: u8, slot_a: int, ch_b: u8, slot_b: int)
    requires
        ch_a <= MAX_CHANNEL_ID,
        ch_b <= MAX_CHANNEL_ID,
        0 <= slot_a < MAX_TCP_CONNS,
        0 <= slot_b < MAX_TCP_CONNS,
    ensures
        primary(ch_a) != Token(TOKEN_LINK),
        tcp_slot(ch_a, slot_a) != Token(TOKEN_LINK),
        primary(ch_a) != tcp_slot(ch_b, slot_b),
        primary(ch_a) == primary(ch_b) ==> ch_a == ch_b,
        tcp_slot(ch_a, slot_a) == tcp_slot(ch_b, slot_b) ==> ch_a == ch_b && slot_a == slot_b,
{
}

} // verus!
