//! Multiplexing of serial ports and TCP streams over one byte link.
//!
//! * [`protocol`]: the frames of the link, their parser, and the queue of
//!   outgoing bytes
//! * [`channel`]: what hangs on the link
//! * [`daemon`]: the link itself, and all channels on it
//! * [`windlass`]: the transparent relay and the smart proxy for Klipper's own
//!   transport
//! * [`cli`]: values of the command line
//! * [`discovery`], [`serial`], [`text`], [`time`]: what these rest on
//!
//! Nothing in this library performs I/O: an event loop carries out what is
//! asked, and tells what came of it.

pub mod channel;
pub mod cli;
pub mod daemon;
pub mod discovery;
pub mod protocol;
pub mod serial;
pub mod text;
pub mod time;
pub mod windlass;
