//! Frame protocol of the multiplexed link.
//!
//! Wire format (all integers little-endian):
//! ```text
//! [ 0xAA 0x55 ][ ftype:1 ][ channel:1 ][ length:2 LE ][ payload:N ][ crc32:4 LE ]
//! ```

pub mod endian;
pub mod frame;
pub mod parser;
pub mod tx_queue;

pub use frame::{build_frame, Frame};
pub use parser::FrameParser;
pub use tx_queue::TxQueue;

use vstd::prelude::*;

verus! {

/// magic(2) + type(1) + channel(1) + length(2 LE)
pub const HDR_SIZE: usize = 6;

pub const CRC_SIZE: usize = 4;

/// Maximum payload bytes in a single frame.
pub const MAX_PAYLOAD: usize = 16 * 1024;

/// Total size of the largest possible frame.
pub const MAX_FRAME: usize = HDR_SIZE + MAX_PAYLOAD + CRC_SIZE;

/// First magic byte.
pub const MAGIC_0: u8 = 0xAA;

/// Second magic byte.
pub const MAGIC_1: u8 = 0x55;

/// Raw MCU serial data (exporter to host, or host to MCU).
pub const F_DATA: u8 = 0x01;

/// MCU is resetting; the host closes the PTY.
pub const F_FLUSH: u8 = 0x02;

/// MCU is ready; the host opens the PTY.
pub const F_READY: u8 = 0x03;

/// Link handshake initiation.
pub const F_HELLO: u8 = 0x05;

/// Link handshake acknowledgement.
pub const F_ACK: u8 = 0x06;

/// TCP tunnel: new connection notification.
pub const F_TCONN: u8 = 0x10;

/// TCP tunnel: payload bytes.
pub const F_TDATA: u8 = 0x11;

/// TCP tunnel: connection closed.
pub const F_TCLOSE: u8 = 0x12;

/// Keepalive probe.
pub const F_PING: u8 = 0x20;

/// Keepalive reply.
pub const F_PONG: u8 = 0x21;

/// Klipper firmware sync byte.  Seeing `0x7E` after silence means the MCU
/// has booted and Klipper is running.
pub const KLIPPER_SYNC: u8 = 0x7E;

/// Pause all channel reads when the TX queue exceeds this many bytes.
pub const LINK_HIGH_WATER: usize = 512 * 1024;

/// Resume channel reads when the TX queue drains below this many bytes.
pub const LINK_LOW_WATER: usize = 256 * 1024;

/// TX ring-buffer capacity: high-water + one max frame + guard margin.
pub const LINK_TXBUF_SIZE: usize = LINK_HIGH_WATER + MAX_FRAME + 64;

/// Capacity of the parser's staging buffer: one max frame + guard margin.
pub const PARSER_BUF_CAP: usize = MAX_FRAME + 64;

} // verus!
