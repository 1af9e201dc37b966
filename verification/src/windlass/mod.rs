//! Native Klipper transport relay.
//!
//! # Architecture
//!
//! ```text
//! Transparent relay:
//!   exporter:  UART -> [KlipperFramer] -> ch_id prefix -> CDC ACM
//!   host:      CDC ACM -> [TunnelCodec] -> demux by ch_id -> Unix socket
//! ```
//!
//! Smart proxy: the Klipper transport session is terminated at each end of
//! the link, and only decoded payloads cross it.  The MCU dictionary is
//! forwarded to the host, which answers `identify` locally.
//!
//! ## Tunnel wire format
//!
//! Transparent relay:
//!
//! ```text
//! [ ch_id : u8 ][ raw Klipper frame : 5..=64 bytes ]
//! ```
//!
//! Smart proxy:
//!
//! ```text
//! [ ch_id : u8 ][ payload_len : u8 ][ payload : 0..=255 bytes ]
//! ```

pub mod buffer;
pub mod cli;
pub mod framing;
pub mod mcu_transport;
pub mod proxy;
pub mod relay;
pub mod smart_exporter;
pub mod smart_host;
pub mod vlq;

use vstd::prelude::*;

verus! {

/// A parsed MCU channel specification.
#[derive(Debug, Clone)]
pub struct McuSpec {
    /// Channel index (0 to 254).  Must be unique across all channels.
    pub ch_id: u8,
    /// Exporter: UART device path.  Host: Unix socket path.
    pub path: String,
    /// Baud rate.  Ignored by the host (socket has no baud rate).
    pub baud: u32,
}

/// Where the link device comes from.
#[derive(Debug)]
pub enum LinkDevice {
    /// It is this path.
    Path(String),
    /// It is to be waited for, under this vendor and product id.
    WaitForUsb(String, String),
}

/// Resolve a link device: either a direct path or a USB-discovered path, which
/// is then to be waited for.
pub fn resolve_link_device(link_dev: Option<&str>, usb_id: Option<(&str, &str)>) -> (d: LinkDevice)
    requires
        link_dev is Some || usb_id is Some,
    ensures
        match link_dev {
            Some(dev) => d matches LinkDevice::Path(p) && p@ == dev@,
            None => d matches LinkDevice::WaitForUsb(v, p) && v@ == usb_id->Some_0.0@ && p@
                == usb_id->Some_0.1@,
        },
{
    if let Some(dev) = link_dev {
        return LinkDevice::Path(dev.to_owned());
    }
    match usb_id {
        Some((vid, pid)) => LinkDevice::WaitForUsb(vid.to_owned(), pid.to_owned()),
        None => vstd::pervasive::unreached(),
    }
}

/// What stands at a path.
#[derive(Debug, Clone, Copy, PartialEq, Eq, Structural)]
pub enum Occupant {
    Nothing,
    Socket,
    Symlink,
    Other,
}

/// Decide how a socket path is made free: whether what stands there is to be
/// removed, or the message that it is neither a socket nor a symlink and is
/// left alone.
pub fn prepare_socket_path(path: &str, at: Occupant) -> (res: Result<bool, String>)
    ensures
        match at {
            Occupant::Nothing => res == Ok::<bool, String>(false),
            Occupant::Socket | Occupant::Symlink => res == Ok::<bool, String>(true),
            Occupant::Other => res matches Err(m) && m@ == "refusing to remove non-socket file at "@
                + path@,
        },
{
    match at {
        Occupant::Nothing => Ok(false),
        Occupant::Socket | Occupant::Symlink => Ok(true),
        Occupant::Other => {
            let mut m: String = "refusing to remove non-socket file at ".to_owned();
            m.append(path);
            Err(m)
        },
    }
}

} // verus!
