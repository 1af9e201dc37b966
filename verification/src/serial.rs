//! Serial ports: what comes back from a descriptor, and line speeds.

use crate::text::render_number;
#[allow(unused_imports)]
use crate::text;
use vstd::prelude::*;

verus! {

/// What a non-blocking read gave.
#[derive(Debug, Clone, Copy)]
pub enum ReadOutcome<'a> {
    /// Bytes arrived.  None at all is what a terminal gives for "no data yet",
    /// and a stream for its end.
    Data(&'a [u8]),
    /// The descriptor was not ready.
    WouldBlock,
    /// A real error, with its code.
    Failed(i32),
}

/// What a non-blocking write gave.
#[derive(Debug, Clone, Copy, PartialEq, Eq, Structural)]
pub enum WriteOutcome {
    /// That many bytes were taken.
    Written(usize),
    /// The descriptor was not ready.
    WouldBlock,
    /// A real error, with its code.
    Failed(i32),
}

/// Error code of a terminal whose far side is gone.
pub const EIO: i32 = 5;

/// The two error codes that say a descriptor was not ready.
#[derive(Debug, Clone, Copy, PartialEq, Eq, Structural)]
pub struct NotReady {
    pub eagain: i32,
    pub ewouldblock: i32,
}

/// What the result of a `read` call says of the buffer that it was given.
///
/// `n` is what the call returned, `code` the error code where that is
/// negative.
pub fn read_nonblock<'a>(n: isize, code: i32, not_ready: NotReady, buf: &'a [u8]) -> (res:
    ReadOutcome<'a>)
    requires
        n <= buf@.len(),
    ensures
        if n >= 0 {
            res matches ReadOutcome::Data(d) && d@ == buf@.take(n as int)
        } else if code == not_ready.eagain || code == not_ready.ewouldblock {
            res is WouldBlock
        } else {
            res == ReadOutcome::Failed(code)
        },
{
    if n < 0 {
        if code == not_ready.eagain || code == not_ready.ewouldblock {
            return ReadOutcome::WouldBlock;
        }
        return ReadOutcome::Failed(code);
    }
    let data: &'a [u8] = &buf[0..n as usize];
    assert(data@ =~= buf@.take(n as int));
    ReadOutcome::Data(data)
}

/// What the result of a `write` call says.
///
/// `n` is what the call returned, `code` the error code where that is
/// negative.
pub fn write_nonblock(n: isize, code: i32, not_ready: NotReady) -> (res: WriteOutcome)
    ensures
        if n >= 0 {
            res == WriteOutcome::Written(n as usize)
        } else if code == not_ready.eagain || code == not_ready.ewouldblock {
            res is WouldBlock
        } else {
            res == WriteOutcome::Failed(code)
        },
{
    if n < 0 {
        if code == not_ready.eagain || code == not_ready.ewouldblock {
            return WriteOutcome::WouldBlock;
        }
        return WriteOutcome::Failed(code);
    }
    WriteOutcome::Written(n as usize)
}

/// The line speeds that can be set.
#[derive(Debug, Clone, Copy, PartialEq, Eq, Structural)]
pub enum LineSpeed {
    B1200,
    B2400,
    B4800,
    B9600,
    B19200,
    B38400,
    B57600,
    B115200,
    B230400,
    B460800,
    B921600,
}

impl LineSpeed {
    /// The bits per second of a line speed.
    pub open spec fn bps(self) -> u32 {
        match self {
            LineSpeed::B1200 => 1200,
            LineSpeed::B2400 => 2400,
            LineSpeed::B4800 => 4800,
            LineSpeed::B9600 => 9600,
            LineSpeed::B19200 => 19200,
            LineSpeed::B38400 => 38400,
            LineSpeed::B57600 => 57600,
            LineSpeed::B115200 => 115200,
            LineSpeed::B230400 => 230400,
            LineSpeed::B460800 => 460800,
            LineSpeed::B921600 => 921600,
        }
    }
}

/// The bits per second are those of a line speed.
pub open spec fn is_standard(baud: u32) -> bool {
    baud == 1200 || baud == 2400 || baud == 4800 || baud == 9600 || baud == 19200 || baud == 38400
        || baud == 57600 || baud == 115200 || baud == 230400 || baud == 460800 || baud == 921600
}

/// Map a numeric baud rate to a line speed.
///
/// Supports 1200 to 921600.  Returns `None` for unsupported values.
pub fn baud_to_speed(baud: u32) -> (speed: Option<LineSpeed>)
    ensures
        match speed {
            Some(s) => s.bps() == baud,
            None => !is_standard(baud),
        },
{
    Some(
        match baud {
            1200 => LineSpeed::B1200,
            2400 => LineSpeed::B2400,
            4800 => LineSpeed::B4800,
            9600 => LineSpeed::B9600,
            19200 => LineSpeed::B19200,
            38400 => LineSpeed::B38400,
            57600 => LineSpeed::B57600,
            115200 => LineSpeed::B115200,
            230400 => LineSpeed::B230400,
            460800 => LineSpeed::B460800,
            921600 => LineSpeed::B921600,
            _ => return None,
        },
    )
}

/// Whether a baud rate is a standard one.
pub fn is_standard_baud(baud: u32) -> (yes: bool)
    ensures
        yes == is_standard(baud),
{
    baud_to_speed(baud).is_some()
}

/// The message about a baud rate that cannot be set.
pub open spec fn unsupported_message(baud: u32) -> Seq<char> {
    "unsupported baud rate: "@ + text::decimal(baud as nat)
}

/// The line speed for a baud rate, or the message that it cannot be set.
pub fn line_speed(baud: u32) -> (res: Result<LineSpeed, String>)
    ensures
        match res {
            Ok(s) => s.bps() == baud,
            Err(m) => !is_standard(baud) && m@ == unsupported_message(baud),
        },
{
    match baud_to_speed(baud) {
        Some(s) => Ok(s),
        None => {
            let mut m: String = "unsupported baud rate: ".to_owned();
            m.append(render_number(baud as u64).as_str());
            Err(m)
        },
    }
}

/// The line speed for a baud rate; a rate of zero leaves the speed alone, as
/// suits a USB device that ignores it.
pub fn optional_line_speed(baud: u32) -> (res: Result<Option<LineSpeed>, String>)
    ensures
        match res {
            Ok(None) => baud == 0,
            Ok(Some(s)) => baud != 0 && s.bps() == baud,
            Err(m) => baud != 0 && !is_standard(baud) && m@ == unsupported_message(baud),
        },
{
    if baud == 0 {
        return Ok(None);
    }
    match line_speed(baud) {
        Ok(s) => Ok(Some(s)),
        Err(m) => Err(m),
    }
}

/// The standard line speeds are just those that can be set.
pub proof fn law_standard_speeds_can_be_set(speed: LineSpeed, baud: u32)
    ensures
        is_standard(speed.bps()),
        is_standard(baud) <==> exists|s: LineSpeed| #[trigger] s.bps() == baud,
{
    if is_standard(baud) {
        assert(LineSpeed::B1200.bps() == 1200);
        assert(LineSpeed::B2400.bps() == 2400);
        assert(LineSpeed::B4800.bps() == 4800);
        assert(LineSpeed::B9600.bps() == 9600);
        assert(LineSpeed::B19200.bps() == 19200);
        assert(LineSpeed::B38400.bps() == 38400);
        assert(LineSpeed::B57600.bps() == 57600);
        assert(LineSpeed::B115200.bps() == 115200);
        assert(LineSpeed::B230400.bps() == 230400);
        assert(LineSpeed::B460800.bps() == 460800);
        assert(LineSpeed::B921600.bps() == 921600);
    }
}

/// Different line speeds have different numbers of bits per second.
pub proof fn law_speeds_are_told_apart(a: LineSpeed, b: LineSpeed)
    ensures
        a.bps() == b.bps() ==> a == b,
{
}

} // verus!
