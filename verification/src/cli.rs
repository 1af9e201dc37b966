//! Command-line values of the multiplexer: link ids and channel specs.
//!
//! ```text
//! mcu:<id>:<uart_device>:<baud>      exporter MCU channel
//! mcu:<id>:<pty_symlink>[:<baud>]    host MCU channel  (baud defaults to 230400)
//! tcp:<id>:<bind_addr>:<port>        exporter TCP tunnel channel
//! tcp:<id>:<dest_addr>:<port>        host TCP tunnel channel
//! ```

use crate::channel::{
    Action, Channel, ChannelModel, McuChannel, PtyChannel, Step, TcpDestChannel, TcpSourceChannel,
    MAX_CHANNEL_ID,
};
use crate::serial::is_standard_baud;
use crate::text::{
    is_hex_text, lower_hex_text, parse_number, quoted, render_number, same_text, split,
};
#[allow(unused_imports)]
use crate::channel::mcu::{McuModel, McuState};
#[allow(unused_imports)]
use crate::channel::pty::PtyModel;
#[allow(unused_imports)]
use crate::channel::tcp::TableModel;
#[allow(unused_imports)]
use crate::channel::tcp_dest::TcpDestModel;
#[allow(unused_imports)]
use crate::channel::tcp_source::TcpSourceModel;
#[allow(unused_imports)]
use crate::channel::token::{self, MAX_TCP_CONNS};
#[allow(unused_imports)]
use crate::{serial, text};
use vstd::prelude::*;

verus! {

/// Line speed of a host MCU channel that names none.
pub const DEFAULT_BAUD: u32 = 230400;

/// Which end of the link this is.
#[derive(Debug, Clone, Copy, PartialEq, Eq, Structural)]
pub enum Mode {
    /// Runs on the machine wired to the MCUs.
    Exporter,
    /// Runs on the machine that runs Klipper.
    Host,
}

/// Parsed channel specification.
#[derive(Debug, Clone)]
pub enum ChannelSpec {
    McuExporter { id: u8, device: String, baud: u32 },
    McuHost { id: u8, symlink: String, baud: u32 },
    TcpExporter { id: u8, bind_addr: String, port: u16 },
    TcpHost { id: u8, dest_addr: String, port: u16 },
}

/// The value of a [`ChannelSpec`].
#[verifier::ext_equal]
pub enum SpecModel {
    McuExporter { id: u8, device: Seq<char>, baud: u32 },
    McuHost { id: u8, symlink: Seq<char>, baud: u32 },
    TcpExporter { id: u8, bind_addr: Seq<char>, port: u16 },
    TcpHost { id: u8, dest_addr: Seq<char>, port: u16 },
}

impl View for ChannelSpec {
    type V = SpecModel;

    open spec fn view(&self) -> SpecModel {
        match self {
            ChannelSpec::McuExporter { id, device, baud } => SpecModel::McuExporter {
                id: *id,
                device: device@,
                baud: *baud,
            },
            ChannelSpec::McuHost { id, symlink, baud } => SpecModel::McuHost {
                id: *id,
                symlink: symlink@,
                baud: *baud,
            },
            ChannelSpec::TcpExporter { id, bind_addr, port } => SpecModel::TcpExporter {
                id: *id,
                bind_addr: bind_addr@,
                port: *port,
            },
            ChannelSpec::TcpHost { id, dest_addr, port } => SpecModel::TcpHost {
                id: *id,
                dest_addr: dest_addr@,
                port: *port,
            },
        }
    }
}

impl SpecModel {
    /// The wire channel id.
    pub open spec fn id(self) -> u8 {
        match self {
            SpecModel::McuExporter { id, .. } => id,
            SpecModel::McuHost { id, .. } => id,
            SpecModel::TcpExporter { id, .. } => id,
            SpecModel::TcpHost { id, .. } => id,
        }
    }
}

/// A text put together of three.
pub open spec fn joined(before: Seq<char>, middle: Seq<char>, after: Seq<char>) -> Seq<char> {
    before + middle + after
}

/// Put three texts together.
pub(crate) fn join(before: &str, middle: &str, after: &str) -> (t: String)
    ensures
        t@ == joined(before@, middle@, after@),
{
    let mut t: String = before.to_owned();
    t.append(middle);
    t.append(after);
    t
}

/// Why a text spells no vendor and product id.
#[derive(Debug, Clone, Copy, PartialEq, Eq, Structural)]
pub enum UsbIdError {
    /// There is no colon.
    NotAPair,
    /// What stands before the colon is not hexadecimal.
    BadVid,
    /// What stands behind the colon is not hexadecimal.
    BadPid,
}

impl UsbIdError {
    /// The text of the error, given the value in quotes.
    pub open spec fn text(self, quoted: Seq<char>) -> Seq<char> {
        match self {
            UsbIdError::NotAPair => joined(
                "--usb must be VID:PID (e.g. 1d6b:0104), got "@,
                quoted,
                ""@,
            ),
            UsbIdError::BadVid => joined("VID in "@, quoted, " must be a hex string"@),
            UsbIdError::BadPid => joined("PID in "@, quoted, " must be a hex string"@),
        }
    }

    /// Describe the error, given the value in quotes.
    pub fn describe(&self, quoted: &str) -> (m: String)
        ensures
            m@ == self.text(quoted@),
    {
        match self {
            UsbIdError::NotAPair => join(
                "--usb must be VID:PID (e.g. 1d6b:0104), got ",
                quoted,
                "",
            ),
            UsbIdError::BadVid => join("VID in ", quoted, " must be a hex string"),
            UsbIdError::BadPid => join("PID in ", quoted, " must be a hex string"),
        }
    }
}

/// The vendor and product id that a text spells, in lower case, or why it
/// spells none.
pub open spec fn usb_id(val: Seq<char>) -> Result<(Seq<char>, Seq<char>), UsbIdError> {
    let n = text::first_of(val, ':');
    let vid = val.take(n);
    let pid = val.skip(n + 1);
    if n == val.len() {
        Err(UsbIdError::NotAPair)
    } else if !text::is_hex(vid) {
        Err(UsbIdError::BadVid)
    } else if !text::is_hex(pid) {
        Err(UsbIdError::BadPid)
    } else {
        Ok((text::lower_hex(vid), text::lower_hex(pid)))
    }
}

/// Read a `VID:PID` pair.
pub fn read_usb_id(val: &str) -> (res: Result<(String, String), UsbIdError>)
    ensures
        match res {
            Ok((vid, pid)) => usb_id(val@) == Ok::<(Seq<char>, Seq<char>), UsbIdError>(
                (vid@, pid@),
            ),
            Err(e) => usb_id(val@) == Err::<(Seq<char>, Seq<char>), UsbIdError>(e),
        },
{
    let len: usize = val.unicode_len();
    let mut n: usize = 0;
    assert(val@.skip(0) =~= val@);
    while n < len && val.get_char(n) != ':'
        invariant
            len == val@.len(),
            n <= len,
            n + text::first_of(val@.skip(n as int), ':') == text::first_of(val@, ':'),
        decreases len - n,
    {
        assert(val@.skip(n as int).skip(1) =~= val@.skip(n + 1));
        n += 1;
    }
    if n == len {
        return Err(UsbIdError::NotAPair);
    }
    let vid: &str = val.substring_char(0, n);
    let pid: &str = val.substring_char(n + 1, len);
    assert(vid@ =~= val@.take(n as int));
    assert(pid@ =~= val@.skip(n + 1));
    if !is_hex_text(vid) {
        return Err(UsbIdError::BadVid);
    }
    if !is_hex_text(pid) {
        return Err(UsbIdError::BadPid);
    }
    Ok((lower_hex_text(vid), lower_hex_text(pid)))
}

/// Parse a `VID:PID` pair; an error is described in words.
pub fn parse_usb_id(val: &str) -> (res: Result<(String, String), String>)
    ensures
        match res {
            Ok((vid, pid)) => usb_id(val@) == Ok::<(Seq<char>, Seq<char>), UsbIdError>(
                (vid@, pid@),
            ),
            Err(m) => usb_id(val@) matches Err(e) && m@ == e.text(text::debug_form(val@)),
        },
{
    match read_usb_id(val) {
        Ok(ids) => Ok(ids),
        Err(e) => Err(e.describe(quoted(val).as_str())),
    }
}

/// Why a text spells no standard line speed.
#[derive(Debug, Clone, Copy, PartialEq, Eq, Structural)]
pub enum BaudError {
    /// It is not a number.
    NotANumber,
    /// It is some other number.
    NotStandard(u32),
}

impl BaudError {
    /// The text of the error, given the channel spec in quotes.
    pub open spec fn text(self, quoted: Seq<char>) -> Seq<char> {
        match self {
            BaudError::NotANumber => joined("baud in "@, quoted, " is not a number"@),
            BaudError::NotStandard(baud) => joined(
                joined("baud "@, text::decimal(baud as nat), " in "@),
                quoted,
                " is not a standard value"@,
            ),
        }
    }

    /// Describe the error, given the channel spec in quotes.
    pub fn describe(&self, quoted: &str) -> (m: String)
        ensures
            m@ == self.text(quoted@),
    {
        match self {
            BaudError::NotANumber => join("baud in ", quoted, " is not a number"),
            BaudError::NotStandard(baud) => {
                let before: String = join(
                    "baud ",
                    render_number(*baud as u64).as_str(),
                    " in ",
                );
                join(before.as_str(), quoted, " is not a standard value")
            },
        }
    }
}

/// The standard line speed that a text spells, or why it spells none.
pub open spec fn standard_baud(raw: Seq<char>) -> Result<u32, BaudError> {
    match text::number(raw, u32::MAX as nat) {
        None => Err(BaudError::NotANumber),
        Some(baud) => if serial::is_standard(baud as u32) {
            Ok(baud as u32)
        } else {
            Err(BaudError::NotStandard(baud as u32))
        },
    }
}

/// Parse a standard line speed.
pub fn parse_standard_baud(raw: &str) -> (res: Result<u32, BaudError>)
    ensures
        res == standard_baud(raw@),
{
    match parse_number(raw, u32::MAX) {
        None => Err(BaudError::NotANumber),
        Some(baud) => {
            if is_standard_baud(baud) {
                Ok(baud)
            } else {
                Err(BaudError::NotStandard(baud))
            }
        },
    }
}

/// Why a text describes no channel.
#[derive(Debug, Clone, Copy, PartialEq, Eq, Structural)]
pub enum SpecError {
    /// It has fewer than three parts.
    TooShort,
    /// Its type is neither `mcu` nor `tcp`.
    UnknownType,
    /// Its id is not a number from 0 to 255.
    BadId,
    /// An MCU channel of an exporter has four parts.
    ExporterMcuParts,
    /// An MCU channel of a host has three or four parts.
    HostMcuParts,
    /// Its line speed will not do.
    BadBaud(BaudError),
    /// A TCP channel has a port.
    PortMissing,
    /// Its port is not a number from 1 to 65535.
    BadPort,
}

impl SpecError {
    /// The text of the error, given its subject in quotes.
    pub open spec fn text(self, quoted: Seq<char>) -> Seq<char> {
        match self {
            SpecError::TooShort => joined(
                "channel spec "@,
                quoted,
                " is too short\nexporter mcu: mcu:<id>:<device>:<baud>\nhost     mcu: mcu:<id>:<pty_symlink>[:<baud>]\nexporter tcp: tcp:<id>:<bind_addr>:<port>\nhost     tcp: tcp:<id>:<dest_addr>:<port>"@,
            ),
            SpecError::UnknownType => joined(
                "unknown channel type "@,
                quoted,
                " -- must be 'mcu' or 'tcp'"@,
            ),
            SpecError::BadId => joined("channel id in "@, quoted, " must be 0-255"@),
            SpecError::ExporterMcuParts => joined(
                "exporter mcu spec "@,
                quoted,
                ": need mcu:<id>:<device>:<baud>"@,
            ),
            SpecError::HostMcuParts => joined(
                "host mcu spec "@,
                quoted,
                ": need mcu:<id>:<symlink>[:<baud>]"@,
            ),
            SpecError::BadBaud(e) => e.text(quoted),
            SpecError::PortMissing => joined(
                "tcp spec "@,
                quoted,
                ": need tcp:<id>:<addr>:<port>"@,
            ),
            SpecError::BadPort => joined("port in "@, quoted, " must be 1-65535"@),
        }
    }

    /// What the error is about: the type of the channel, or the whole spec.
    pub open spec fn subject(self, spec: Seq<char>) -> Seq<char> {
        if self == SpecError::UnknownType {
            text::pieces(spec, ':')[0]
        } else {
            spec
        }
    }

    /// Describe the error, given its subject in quotes.
    pub fn describe(&self, quoted: &str) -> (m: String)
        ensures
            m@ == self.text(quoted@),
    {
        match self {
            SpecError::TooShort => join(
                "channel spec ",
                quoted,
                " is too short\nexporter mcu: mcu:<id>:<device>:<baud>\nhost     mcu: mcu:<id>:<pty_symlink>[:<baud>]\nexporter tcp: tcp:<id>:<bind_addr>:<port>\nhost     tcp: tcp:<id>:<dest_addr>:<port>",
            ),
            SpecError::UnknownType => join(
                "unknown channel type ",
                quoted,
                " -- must be 'mcu' or 'tcp'",
            ),
            SpecError::BadId => join("channel id in ", quoted, " must be 0-255"),
            SpecError::ExporterMcuParts => join(
                "exporter mcu spec ",
                quoted,
                ": need mcu:<id>:<device>:<baud>",
            ),
            SpecError::HostMcuParts => join(
                "host mcu spec ",
                quoted,
                ": need mcu:<id>:<symlink>[:<baud>]",
            ),
            SpecError::BadBaud(e) => e.describe(quoted),
            SpecError::PortMissing => join("tcp spec ", quoted, ": need tcp:<id>:<addr>:<port>"),
            SpecError::BadPort => join("port in ", quoted, " must be 1-65535"),
        }
    }
}

/// The port that a text spells, or why it spells none.
pub open spec fn tcp_port(raw: Option<Seq<char>>) -> Result<u16, SpecError> {
    match raw {
        None => Err(SpecError::PortMissing),
        Some(r) => match text::number(r, u16::MAX as nat) {
            Some(port) if port >= 1 => Ok(port as u16),
            _ => Err(SpecError::BadPort),
        },
    }
}

/// Parse a TCP port: 1-65535.
pub fn parse_tcp_port(raw: Option<&str>) -> (res: Result<u16, SpecError>)
    ensures
        res == tcp_port(
            match raw {
                Some(t) => Some(t@),
                None => None,
            },
        ),
{
    match raw {
        None => Err(SpecError::PortMissing),
        Some(t) => match parse_number(t, u16::MAX as u32) {
            Some(port) if port >= 1 => Ok(port as u16),
            _ => Err(SpecError::BadPort),
        },
    }
}

/// The MCU channel that the pieces of a spec describe.
pub open spec fn mcu_channel(mode: Mode, id: u8, parts: Seq<Seq<char>>) -> Result<
    SpecModel,
    SpecError,
> {
    match mode {
        Mode::Exporter => if parts.len() != 4 {
            Err(SpecError::ExporterMcuParts)
        } else {
            match standard_baud(parts[3]) {
                Ok(baud) => Ok(SpecModel::McuExporter { id, device: parts[2], baud }),
                Err(e) => Err(SpecError::BadBaud(e)),
            }
        },
        Mode::Host => if parts.len() > 4 {
            Err(SpecError::HostMcuParts)
        } else if parts.len() == 4 {
            match standard_baud(parts[3]) {
                Ok(baud) => Ok(SpecModel::McuHost { id, symlink: parts[2], baud }),
                Err(e) => Err(SpecError::BadBaud(e)),
            }
        } else {
            Ok(SpecModel::McuHost { id, symlink: parts[2], baud: DEFAULT_BAUD })
        },
    }
}

/// The TCP channel that the pieces of a spec describe.  Pieces behind the port
/// are ignored.
pub open spec fn tcp_channel(mode: Mode, id: u8, parts: Seq<Seq<char>>) -> Result<
    SpecModel,
    SpecError,
> {
    let raw = if parts.len() > 3 {
        Some(parts[3])
    } else {
        None
    };
    match tcp_port(raw) {
        Ok(port) => match mode {
            Mode::Exporter => Ok(SpecModel::TcpExporter { id, bind_addr: parts[2], port }),
            Mode::Host => Ok(SpecModel::TcpHost { id, dest_addr: parts[2], port }),
        },
        Err(e) => Err(e),
    }
}

/// The channel that a spec describes, or why it describes none.
pub open spec fn channel_spec(mode: Mode, spec: Seq<char>) -> Result<SpecModel, SpecError> {
    let parts = text::pieces(spec, ':');
    if parts.len() < 3 {
        Err(SpecError::TooShort)
    } else if parts[0] != "mcu"@ && parts[0] != "tcp"@ {
        Err(SpecError::UnknownType)
    } else {
        match text::number(parts[1], u8::MAX as nat) {
            None => Err(SpecError::BadId),
            Some(id) => if parts[0] == "mcu"@ {
                mcu_channel(mode, id as u8, parts)
            } else {
                tcp_channel(mode, id as u8, parts)
            },
        }
    }
}

/// Read a channel spec.
pub fn read_channel_spec(mode: Mode, spec: &str) -> (res: Result<ChannelSpec, SpecError>)
    ensures
        match res {
            Ok(c) => channel_spec(mode, spec@) == Ok::<SpecModel, SpecError>(c@),
            Err(e) => channel_spec(mode, spec@) == Err::<SpecModel, SpecError>(e),
        },
{
    let parts: Vec<&str> = split(spec, ':');
    let ghost ps = text::pieces(spec@, ':');
    assert(forall|i: int| 0 <= i < parts@.len() ==> (#[trigger] parts@[i])@ == ps[i]);
    if parts.len() < 3 {
        return Err(SpecError::TooShort);
    }
    let is_mcu: bool = same_text(parts[0], "mcu");
    if !is_mcu && !same_text(parts[0], "tcp") {
        return Err(SpecError::UnknownType);
    }
    let id: u8 = match parse_number(parts[1], u8::MAX as u32) {
        Some(n) => n as u8,
        None => return Err(SpecError::BadId),
    };
    let subject: String = parts[2].to_owned();
    if is_mcu {
        match mode {
            Mode::Exporter => {
                if parts.len() != 4 {
                    return Err(SpecError::ExporterMcuParts);
                }
                match parse_standard_baud(parts[3]) {
                    Ok(baud) => Ok(ChannelSpec::McuExporter { id, device: subject, baud }),
                    Err(e) => Err(SpecError::BadBaud(e)),
                }
            },
            Mode::Host => {
                if parts.len() > 4 {
                    return Err(SpecError::HostMcuParts);
                }
                if parts.len() == 4 {
                    match parse_standard_baud(parts[3]) {
                        Ok(baud) => Ok(ChannelSpec::McuHost { id, symlink: subject, baud }),
                        Err(e) => Err(SpecError::BadBaud(e)),
                    }
                } else {
                    Ok(ChannelSpec::McuHost { id, symlink: subject, baud: DEFAULT_BAUD })
                }
            },
        }
    } else {
        let raw: Option<&str> = if parts.len() > 3 {
            Some(parts[3])
        } else {
            None
        };
        match parse_tcp_port(raw) {
            Ok(port) => match mode {
                Mode::Exporter => Ok(ChannelSpec::TcpExporter { id, bind_addr: subject, port }),
                Mode::Host => Ok(ChannelSpec::TcpHost { id, dest_addr: subject, port }),
            },
            Err(e) => Err(e),
        }
    }
}

/// The result of a parse says what it should.
pub open spec fn parsed_as(
    res: Result<ChannelSpec, String>,
    r: Result<SpecModel, SpecError>,
    spec: Seq<char>,
) -> bool {
    match res {
        Ok(c) => r == Ok::<SpecModel, SpecError>(c@),
        Err(m) => r matches Err(e) && m@ == e.text(text::debug_form(e.subject(spec))),
    }
}

/// Parse a channel spec; an error is described in words.
pub fn parse_channel_spec(mode: Mode, spec: &str) -> (res: Result<ChannelSpec, String>)
    ensures
        parsed_as(res, channel_spec(mode, spec@), spec@),
{
    match read_channel_spec(mode, spec) {
        Ok(c) => Ok(c),
        Err(SpecError::UnknownType) => {
            let parts: Vec<&str> = split(spec, ':');
            assert(parts@[0]@ == text::pieces(spec@, ':')[0]);
            Err(SpecError::UnknownType.describe(quoted(parts[0]).as_str()))
        },
        Err(e) => Err(e.describe(quoted(spec).as_str())),
    }
}

/// Parse a channel spec of an exporter.
pub fn parse_exporter_channel_spec(spec: &str) -> (res: Result<ChannelSpec, String>)
    ensures
        parsed_as(res, channel_spec(Mode::Exporter, spec@), spec@),
{
    parse_channel_spec(Mode::Exporter, spec)
}

/// Parse a channel spec of a host.
pub fn parse_host_channel_spec(spec: &str) -> (res: Result<ChannelSpec, String>)
    ensures
        parsed_as(res, channel_spec(Mode::Host, spec@), spec@),
{
    parse_channel_spec(Mode::Host, spec)
}

/// Why arguments name no link and channels.
#[derive(Debug, Clone, Copy, PartialEq, Eq, Structural)]
pub enum ArgsError {
    /// Neither USB ids nor a device path tell where the link is.
    LinkMissing,
    /// There is no channel spec.
    SpecsMissing,
}

/// Tell the device path of the link from the channel specs behind it.  With
/// USB ids there is no path: all arguments are channel specs.
pub fn split_args(has_usb_id: bool, args: Vec<String>) -> (res: Result<
    (Option<String>, Vec<String>),
    ArgsError,
>)
    ensures
        match res {
            Ok((None, specs)) => has_usb_id && args@.len() > 0 && specs == args,
            Ok((Some(dev), specs)) => !has_usb_id && args@.len() > 1 && dev == args@[0] && specs@
                == args@.skip(1),
            Err(ArgsError::LinkMissing) => !has_usb_id && args@.len() == 0,
            Err(ArgsError::SpecsMissing) => args@.len() == (if has_usb_id {
                0int
            } else {
                1int
            }),
        },
{
    if has_usb_id {
        if args.len() == 0 {
            return Err(ArgsError::SpecsMissing);
        }
        return Ok((None, args));
    }
    if args.len() == 0 {
        return Err(ArgsError::LinkMissing);
    }
    if args.len() == 1 {
        return Err(ArgsError::SpecsMissing);
    }
    let mut specs: Vec<String> = args;
    let link_dev: String = specs.remove(0);
    assert(specs@ =~= args@.skip(1));
    Ok((Some(link_dev), specs))
}

/// The first id of a list that occurred before in it.
pub open spec fn first_repeat(ids: Seq<u8>, from: int) -> Option<u8>
    decreases ids.len() - from,
{
    if from >= ids.len() {
        None
    } else if ids.take(from).contains(ids[from]) {
        Some(ids[from])
    } else {
        first_repeat(ids, from + 1)
    }
}

/// The message about an id that is used twice.
pub open spec fn duplicate_message(id: u8) -> Seq<char> {
    "duplicate channel id "@ + text::decimal(id as nat)
}

/// Refuse a list of ids in which one occurs twice.
pub fn check_unique_ids(ids: &[u8]) -> (res: Result<(), String>)
    ensures
        match first_repeat(ids@, 0) {
            None => res is Ok,
            Some(id) => res matches Err(m) && m@ == duplicate_message(id),
        },
{
    let mut i: usize = 0;
    while i < ids.len()
        invariant
            i <= ids@.len(),
            first_repeat(ids@, i as int) == first_repeat(ids@, 0),
        decreases ids@.len() - i,
    {
        let mut j: usize = 0;
        while j < i
            invariant
                j <= i < ids@.len(),
                first_repeat(ids@, i as int) == first_repeat(ids@, 0),
                forall|k: int| 0 <= k < j ==> ids@[k] != ids@[i as int],
            decreases i - j,
        {
            if ids[j] == ids[i] {
                assert(ids@.take(i as int)[j as int] == ids@[i as int]);
                let mut m: String = "duplicate channel id ".to_owned();
                m.append(render_number(ids[i] as u64).as_str());
                return Err(m);
            }
            j += 1;
        }
        i += 1;
    }
    Ok(())
}

/// The ids of a list of specs.
pub open spec fn spec_ids(specs: Seq<ChannelSpec>) -> Seq<u8> {
    Seq::new(specs.len(), |i: int| specs[i]@.id())
}

/// Refuse a list of specs in which an id occurs twice.
pub fn validate_unique_channel_ids(specs: &[ChannelSpec]) -> (res: Result<(), String>)
    ensures
        match first_repeat(spec_ids(specs@), 0) {
            None => res is Ok,
            Some(id) => res matches Err(m) && m@ == duplicate_message(id),
        },
{
    let mut ids: Vec<u8> = Vec::new();
    let mut i: usize = 0;
    while i < specs.len()
        invariant
            i <= specs@.len(),
            ids@ =~= spec_ids(specs@).take(i as int),
        decreases specs@.len() - i,
    {
        let id: u8 = match &specs[i] {
            ChannelSpec::McuExporter { id, .. } => *id,
            ChannelSpec::McuHost { id, .. } => *id,
            ChannelSpec::TcpExporter { id, .. } => *id,
            ChannelSpec::TcpHost { id, .. } => *id,
        };
        ids.push(id);
        i += 1;
    }
    assert(ids@ =~= spec_ids(specs@));
    check_unique_ids(&ids)
}

/// A table of connection slots, all empty.
pub open spec fn empty_table(ch_id: u8) -> TableModel {
    TableModel {
        ch_id,
        bp_paused: false,
        conns: Seq::new(MAX_TCP_CONNS as nat, |i: int| None),
    }
}

/// The channel that a spec stands for, before anything happened to it.
pub open spec fn fresh_channel(spec: SpecModel) -> ChannelModel {
    match spec {
        SpecModel::McuExporter { id, device, baud } => ChannelModel::Mcu(
            McuModel {
                ch_id: id,
                device,
                baud,
                state: McuState::Init,
                open: false,
                in_sel: false,
                txbuf: Seq::empty(),
                last_rx: None,
                reopen_at: None,
                bp_paused: false,
                link_up: false,
            },
        ),
        SpecModel::McuHost { id, symlink, baud } => ChannelModel::Pty(
            PtyModel {
                ch_id: id,
                symlink,
                baud,
                open: false,
                in_sel: false,
                txbuf: Seq::empty(),
                bp_paused: false,
            },
        ),
        SpecModel::TcpExporter { id, bind_addr, port } => ChannelModel::TcpSource(
            TcpSourceModel { table: empty_table(id), next_slot: 0, link_up: false },
        ),
        SpecModel::TcpHost { id, dest_addr, port } => ChannelModel::TcpDest(
            TcpDestModel { table: empty_table(id), dest_addr, dest_port: port },
        ),
    }
}

/// Build the channel of a spec.  A UART is to be opened at once; an old symlink
/// is removed; the listener of a TCP source is the caller's.
pub fn build_channel(spec: ChannelSpec, out: &mut Vec<Action>) -> (res: (Channel, Step))
    requires
        spec@.id() <= MAX_CHANNEL_ID,
    ensures
        res.0@ == fresh_channel(spec@),
        res.0@.wf(),
        !res.0@.is_paused(),
        res.0@.is_down(),
        res.1 == (if spec is McuExporter {
            Step::OpenUart(token::primary(spec@.id()))
        } else {
            Step::Done
        }),
        final(out)@ == (if spec is McuHost {
            old(out)@.push(Action::RemoveSymlink(token::primary(spec@.id())))
        } else {
            old(out)@
        }),
{
    match spec {
        ChannelSpec::McuExporter { id, device, baud } => {
            let (ch, step) = McuChannel::new(id, device, baud);
            (Channel::Mcu(ch), step)
        },
        ChannelSpec::McuHost { id, symlink, baud } => (
            Channel::Pty(PtyChannel::new(id, symlink, baud, out)),
            Step::Done,
        ),
        ChannelSpec::TcpExporter { id, .. } => (
            Channel::TcpSource(TcpSourceChannel::new(id)),
            Step::Done,
        ),
        ChannelSpec::TcpHost { id, dest_addr, port } => (
            Channel::TcpDest(TcpDestChannel::new(id, dest_addr, port)),
            Step::Done,
        ),
    }
}

/// A spec of three parts.
pub open spec fn short_spec(kind: Seq<char>, id: u8, subject: Seq<char>) -> Seq<char> {
    kind + seq![':'] + (text::decimal(id as nat) + seq![':'] + subject)
}

/// A spec of four parts.
pub open spec fn long_spec(kind: Seq<char>, id: u8, subject: Seq<char>, last: nat) -> Seq<char> {
    kind + seq![':'] + (text::decimal(id as nat) + seq![':'] + (subject + seq![':']
        + text::decimal(last)))
}

/// A spec of three parts is split into them.
pub proof fn lemma_short_spec(kind: Seq<char>, id: u8, subject: Seq<char>)
    requires
        text::is_whole(kind, ':'),
        text::is_whole(subject, ':'),
    ensures
        text::pieces(short_spec(kind, id, subject), ':') == seq![
            kind,
            text::decimal(id as nat),
            subject,
        ],
{
    let d = text::decimal(id as nat);
    text::lemma_decimal_is_whole(id as nat);
    text::law_split_undoes_join(kind, ':', d + seq![':'] + subject);
    text::law_split_undoes_join(d, ':', subject);
    text::law_split_undoes_join(subject, ':', Seq::empty());
    assert(seq![kind] + (seq![d] + seq![subject]) =~= seq![kind, d, subject]);
}

/// A spec of four parts is split into them.
pub proof fn lemma_long_spec(kind: Seq<char>, id: u8, subject: Seq<char>, last: nat)
    requires
        text::is_whole(kind, ':'),
        text::is_whole(subject, ':'),
    ensures
        text::pieces(long_spec(kind, id, subject, last), ':') == seq![
            kind,
            text::decimal(id as nat),
            subject,
            text::decimal(last),
        ],
{
    let d = text::decimal(id as nat);
    let l = text::decimal(last);
    text::lemma_decimal_is_whole(id as nat);
    text::lemma_decimal_is_whole(last);
    text::law_split_undoes_join(kind, ':', d + seq![':'] + (subject + seq![':'] + l));
    text::law_split_undoes_join(d, ':', subject + seq![':'] + l);
    text::law_split_undoes_join(subject, ':', l);
    text::law_split_undoes_join(l, ':', Seq::empty());
    assert(seq![kind] + (seq![d] + (seq![subject] + seq![l])) =~= seq![kind, d, subject, l]);
}

/// Specs of MCU channels are understood as documented: with any id, any path
/// without a colon, and any standard line speed, which a host may leave out.
pub proof fn law_mcu_specs_are_understood(id: u8, path: Seq<char>, baud: u32)
    requires
        text::is_whole(path, ':'),
        serial::is_standard(baud),
    ensures
        channel_spec(Mode::Exporter, long_spec("mcu"@, id, path, baud as nat)) == Ok::<
            SpecModel,
            SpecError,
        >(SpecModel::McuExporter { id, device: path, baud }),
        channel_spec(Mode::Host, long_spec("mcu"@, id, path, baud as nat)) == Ok::<
            SpecModel,
            SpecError,
        >(SpecModel::McuHost { id, symlink: path, baud }),
        channel_spec(Mode::Host, short_spec("mcu"@, id, path)) == Ok::<SpecModel, SpecError>(
            SpecModel::McuHost { id, symlink: path, baud: DEFAULT_BAUD },
        ),
{
    reveal_strlit("mcu");
    lemma_long_spec("mcu"@, id, path, baud as nat);
    lemma_short_spec("mcu"@, id, path);
    text::law_number_roundtrip(id as nat, u8::MAX as nat);
    text::law_number_roundtrip(baud as nat, u32::MAX as nat);
}

/// Specs of TCP channels are understood as documented: with any id, any
/// address without a colon, and any port from 1 on.
pub proof fn law_tcp_specs_are_understood(id: u8, addr: Seq<char>, port: u16)
    requires
        text::is_whole(addr, ':'),
        port >= 1,
    ensures
        channel_spec(Mode::Exporter, long_spec("tcp"@, id, addr, port as nat)) == Ok::<
            SpecModel,
            SpecError,
        >(SpecModel::TcpExporter { id, bind_addr: addr, port }),
        channel_spec(Mode::Host, long_spec("tcp"@, id, addr, port as nat)) == Ok::<
            SpecModel,
            SpecError,
        >(SpecModel::TcpHost { id, dest_addr: addr, port }),
{
    reveal_strlit("tcp");
    reveal_strlit("mcu");
    assert("tcp"@[0] != "mcu"@[0]);
    lemma_long_spec("tcp"@, id, addr, port as nat);
    text::law_number_roundtrip(id as nat, u8::MAX as nat);
    text::law_number_roundtrip(port as nat, u16::MAX as nat);
}

/// A spec of four parts with more behind them.
pub open spec fn longer_spec(
    kind: Seq<char>,
    id: u8,
    subject: Seq<char>,
    last: nat,
    more: Seq<char>,
) -> Seq<char> {
    kind + seq![':'] + (text::decimal(id as nat) + seq![':'] + (subject + seq![':'] + (
    text::decimal(last) + seq![':'] + more)))
}

/// What stands behind the port of a TCP channel is ignored.
pub proof fn law_parts_behind_the_port_are_ignored(
    mode: Mode,
    id: u8,
    addr: Seq<char>,
    port: u16,
    more: Seq<char>,
)
    requires
        text::is_whole(addr, ':'),
    ensures
        channel_spec(mode, longer_spec("tcp"@, id, addr, port as nat, more)) == channel_spec(
            mode,
            long_spec("tcp"@, id, addr, port as nat),
        ),
{
    reveal_strlit("tcp");
    reveal_strlit("mcu");
    assert("tcp"@[0] != "mcu"@[0]);
    let d = text::decimal(id as nat);
    let l = text::decimal(port as nat);
    text::lemma_decimal_is_whole(id as nat);
    text::lemma_decimal_is_whole(port as nat);
    lemma_long_spec("tcp"@, id, addr, port as nat);
    let r3 = l + seq![':'] + more;
    let r2 = addr + seq![':'] + r3;
    text::law_split_undoes_join("tcp"@, ':', d + seq![':'] + r2);
    text::law_split_undoes_join(d, ':', r2);
    text::law_split_undoes_join(addr, ':', r3);
    text::law_split_undoes_join(l, ':', more);
}

/// No spec is understood that lacks a part: one of a TCP channel has at least
/// four and names a port that exists, one of an MCU channel has just four and a
/// standard line speed, or, on a host, three.
pub proof fn law_accepted_specs_are_complete(mode: Mode, spec: Seq<char>)
    ensures
        channel_spec(mode, spec) matches Ok(c) ==> match c {
            SpecModel::McuExporter { baud, .. } => text::pieces(spec, ':').len() == 4
                && serial::is_standard(baud),
            SpecModel::McuHost { baud, .. } => 3 <= text::pieces(spec, ':').len() <= 4
                && serial::is_standard(baud),
            SpecModel::TcpExporter { port, .. } => text::pieces(spec, ':').len() >= 4 && port >= 1,
            SpecModel::TcpHost { port, .. } => text::pieces(spec, ':').len() >= 4 && port >= 1,
        },
{
}

/// A list of specs is refused exactly where two of them share an id.
pub proof fn law_repeat_is_found(ids: Seq<u8>)
    ensures
        first_repeat(ids, 0) is Some <==> (exists|i: int, j: int|
            0 <= i < j < ids.len() && #[trigger] ids[i] == #[trigger] ids[j]),
{
    lemma_first_repeat(ids, 0);
    if first_repeat(ids, 0) is None {
        assert forall|i: int, j: int| 0 <= i < j < ids.len() implies #[trigger] ids[i]
            != #[trigger] ids[j] by {
            assert(ids.take(j)[i] == ids[i]);
            assert(!ids.take(j).contains(ids[j]));
        }
    } else {
        let j = choose|j: int| 0 <= j < ids.len() && #[trigger] ids.take(j).contains(ids[j]);
        let i = choose|i: int| 0 <= i < j && ids.take(j)[i] == ids[j];
        assert(ids[i] == ids[j]);
    }
}

proof fn lemma_first_repeat(ids: Seq<u8>, from: int)
    requires
        0 <= from,
    ensures
        first_repeat(ids, from) is Some ==> exists|j: int|
            from <= j < ids.len() && #[trigger] ids.take(j).contains(ids[j]),
        first_repeat(ids, from) is None ==> forall|j: int|
            from <= j < ids.len() ==> !#[trigger] ids.take(j).contains(ids[j]),
    decreases ids.len() - from,
{
    if from < ids.len() && !ids.take(from).contains(ids[from]) {
        lemma_first_repeat(ids, from + 1);
    }
}

/// USB ids are a pair of hexadecimal numbers around the first colon, and come
/// out in lower case; without a colon there is no pair, and each of the two is
/// refused where it is not hexadecimal, the first one first.
pub proof fn law_usb_ids_are_a_pair(vid: Seq<char>, pid: Seq<char>)
    requires
        text::is_whole(vid, ':'),
    ensures
        usb_id(vid) == Err::<(Seq<char>, Seq<char>), UsbIdError>(UsbIdError::NotAPair),
        usb_id(vid + seq![':'] + pid) == (if !text::is_hex(vid) {
            Err::<(Seq<char>, Seq<char>), UsbIdError>(UsbIdError::BadVid)
        } else if !text::is_hex(pid) {
            Err(UsbIdError::BadPid)
        } else {
            Ok((text::lower_hex(vid), text::lower_hex(pid)))
        }),
{
    let val = vid + seq![':'] + pid;
    text::law_first_separator_is_found(vid, ':', pid);
    assert(val.take(vid.len() as int) =~= vid);
    assert(val.skip(vid.len() as int + 1) =~= pid);
}

/// A line speed is understood where it is a standard one, and else named in the
/// refusal; what is no number is refused as such.
pub proof fn law_line_speeds_are_understood(baud: u32, raw: Seq<char>)
    requires
        text::number(raw, u32::MAX as nat) is None,
    ensures
        standard_baud(text::decimal(baud as nat)) == (if serial::is_standard(baud) {
            Ok::<u32, BaudError>(baud)
        } else {
            Err(BaudError::NotStandard(baud))
        }),
        standard_baud(raw) == Err::<u32, BaudError>(BaudError::NotANumber),
        DEFAULT_BAUD == 230_400,
{
    text::law_number_roundtrip(baud as nat, u32::MAX as nat);
}

/// A port is a number from 1 to 65535.
pub proof fn law_ports_are_understood(port: nat)
    ensures
        tcp_port(Some(text::decimal(port))) == (if 1 <= port <= 65_535 {
            Ok::<u16, SpecError>(port as u16)
        } else {
            Err(SpecError::BadPort)
        }),
        tcp_port(None) == Err::<u16, SpecError>(SpecError::PortMissing),
{
    text::lemma_decimal(port);
    let s = text::decimal(port);
    assert(text::is_digit(s[0]));
    assert(text::unsigned_part(s) == s);
}

/// Why a spec is refused: the first thing that is wrong with it, looked for in
/// this order: the number of parts, the type, the id, and what the type asks
/// for.
pub proof fn law_refused_specs(mode: Mode, spec: Seq<char>)
    ensures
        ({
            let parts = text::pieces(spec, ':');
            let n = parts.len();
            let mcu = parts[0] == "mcu"@;
            let tcp = !mcu && parts[0] == "tcp"@;
            let id = text::number(parts[1], 255);
            let baud = text::number(parts[3], u32::MAX as nat);
            let port = text::number(parts[3], 65_535);
            let refused = |e: SpecError| channel_spec(mode, spec) == Err::<SpecModel, SpecError>(e);
            &&& n < 3 ==> refused(SpecError::TooShort)
            &&& n >= 3 && !mcu && !tcp ==> refused(SpecError::UnknownType)
            &&& n >= 3 && (mcu || tcp) && id is None ==> refused(SpecError::BadId)
            &&& n >= 3 && mcu && id is Some && mode == Mode::Exporter && n != 4 ==> refused(
                SpecError::ExporterMcuParts,
            )
            &&& n > 4 && mcu && id is Some && mode == Mode::Host ==> refused(
                SpecError::HostMcuParts,
            )
            &&& n == 4 && mcu && id is Some && baud is None ==> refused(
                SpecError::BadBaud(BaudError::NotANumber),
            )
            &&& n == 4 && mcu && id is Some && (baud matches Some(b) && !serial::is_standard(
                b as u32,
            )) ==> refused(SpecError::BadBaud(BaudError::NotStandard(baud->Some_0 as u32)))
            &&& n == 3 && tcp && id is Some ==> refused(SpecError::PortMissing)
            &&& n > 3 && tcp && id is Some && (port is None || port == Some(0nat)) ==> refused(
                SpecError::BadPort,
            )
        }),
{
}

/// What a spec says is taken as it stands: the id is that of its second part,
/// the path or address its third part, and the speed or port its fourth.
pub proof fn law_parts_are_taken_as_they_stand(mode: Mode, spec: Seq<char>)
    ensures
        ({
            let parts = text::pieces(spec, ':');
            channel_spec(mode, spec) matches Ok(c) ==> {
                &&& text::number(parts[1], 255) == Some(c.id() as nat)
                &&& match c {
                    SpecModel::McuExporter { device, baud, .. } => mode == Mode::Exporter
                        && parts[0] == "mcu"@ && device == parts[2] && text::number(
                        parts[3],
                        u32::MAX as nat,
                    ) == Some(baud as nat),
                    SpecModel::McuHost { symlink, baud, .. } => mode == Mode::Host && parts[0]
                        == "mcu"@ && symlink == parts[2] && if parts.len() == 3 {
                        baud == 230_400
                    } else {
                        text::number(parts[3], u32::MAX as nat) == Some(baud as nat)
                    },
                    SpecModel::TcpExporter { bind_addr, port, .. } => mode == Mode::Exporter
                        && parts[0] == "tcp"@ && bind_addr == parts[2] && text::number(
                        parts[3],
                        65_535,
                    ) == Some(port as nat),
                    SpecModel::TcpHost { dest_addr, port, .. } => mode == Mode::Host && parts[0]
                        == "tcp"@ && dest_addr == parts[2] && text::number(parts[3], 65_535)
                        == Some(port as nat),
                }
            }
        }),
{
}

/// The text `part` stands in `whole`.
pub open spec fn mentions(whole: Seq<char>, part: Seq<char>) -> bool {
    exists|before: Seq<char>, after: Seq<char>| whole == #[trigger] joined(before, part, after)
}

/// Every refusal quotes what it is about.
pub proof fn law_refusals_quote_their_subject(
    u: UsbIdError,
    b: BaudError,
    s: SpecError,
    quoted: Seq<char>,
)
    ensures
        mentions(u.text(quoted), quoted),
        mentions(b.text(quoted), quoted),
        mentions(s.text(quoted), quoted),
{
    lemma_baud_text_mentions(b, quoted);
    if let SpecError::BadBaud(e) = s {
        lemma_baud_text_mentions(e, quoted);
    }
    match u {
        UsbIdError::NotAPair => {
            assert(u.text(quoted) == joined(
                "--usb must be VID:PID (e.g. 1d6b:0104), got "@,
                quoted,
                ""@,
            ));
        },
        UsbIdError::BadVid => {
            assert(u.text(quoted) == joined("VID in "@, quoted, " must be a hex string"@));
        },
        UsbIdError::BadPid => {
            assert(u.text(quoted) == joined("PID in "@, quoted, " must be a hex string"@));
        },
    }
}

proof fn lemma_baud_text_mentions(b: BaudError, quoted: Seq<char>)
    ensures
        mentions(b.text(quoted), quoted),
{
    match b {
        BaudError::NotANumber => {
            assert(b.text(quoted) == joined("baud in "@, quoted, " is not a number"@));
        },
        BaudError::NotStandard(baud) => {
            assert(b.text(quoted) == joined(
                joined("baud "@, text::decimal(baud as nat), " in "@),
                quoted,
                " is not a standard value"@,
            ));
        },
    }
}

/// The repeat that is reported is the first: the id at the first place whose id
/// stands at an earlier one.
pub proof fn law_first_repeat_is_reported(ids: Seq<u8>, i: int, j: int)
    requires
        0 <= i < j < ids.len(),
        ids[i] == ids[j],
        forall|a: int, b: int| 0 <= a < b < j ==> #[trigger] ids[a] != #[trigger] ids[b],
    ensures
        first_repeat(ids, 0) == Some(ids[j]),
{
    lemma_repeat_at(ids, 0, i, j);
}

proof fn lemma_repeat_at(ids: Seq<u8>, from: int, i: int, j: int)
    requires
        0 <= from <= j,
        0 <= i < j < ids.len(),
        ids[i] == ids[j],
        forall|a: int, b: int| 0 <= a < b < j ==> #[trigger] ids[a] != #[trigger] ids[b],
    ensures
        first_repeat(ids, from) == Some(ids[j]),
    decreases j - from,
{
    if from == j {
        assert(ids.take(j)[i] == ids[j]);
    } else {
        if ids.take(from).contains(ids[from]) {
            let a = choose|a: int| 0 <= a < from && ids.take(from)[a] == ids[from];
            assert(ids[a] == ids[from]);
        }
        lemma_repeat_at(ids, from + 1, i, j);
    }
}

/// A channel is built as its spec says: it has its id, path or address, and
/// speed or port, nothing of it is open or pending, and no slot is taken.
pub proof fn law_channels_are_built_as_specified(spec: SpecModel, slot: int)
    requires
        0 <= slot < 256,
    ensures
        fresh_channel(spec).id() == spec.id(),
        !fresh_channel(spec).is_paused(),
        match spec {
            SpecModel::McuExporter { id, device, baud } => fresh_channel(
                spec,
            ) matches ChannelModel::Mcu(m) && m.device == device && m.baud == baud && m.state
                == McuState::Init && !m.open && !m.in_sel && !m.link_up && m.txbuf.len() == 0
                && m.last_rx is None && m.reopen_at is None,
            SpecModel::McuHost { id, symlink, baud } => fresh_channel(
                spec,
            ) matches ChannelModel::Pty(m) && m.symlink == symlink && m.baud == baud && !m.open
                && !m.in_sel && m.txbuf.len() == 0,
            SpecModel::TcpExporter { id, bind_addr, port } => fresh_channel(
                spec,
            ) matches ChannelModel::TcpSource(m) && m.next_slot == 0 && !m.link_up
                && m.table.conns.len() == 256 && m.table.conns[slot] is None,
            SpecModel::TcpHost { id, dest_addr, port } => fresh_channel(
                spec,
            ) matches ChannelModel::TcpDest(m) && m.dest_addr == dest_addr && m.dest_port == port
                && m.table.conns.len() == 256 && m.table.conns[slot] is None,
        },
{
}

} // verus!
