//! Command-line values of the bridge: channel specs.
//!
//! ```text
//! mcu:<id>:<uart_device>:<baud>   exporter: UART to bridge
//! mcu:<id>:<socket_path>          host: Unix socket path for Klipper
//! ```

use super::framing::CTRL_CH;
use super::McuSpec;
use crate::cli::{check_unique_ids, join, parse_standard_baud, BaudError, Mode};
use crate::text::{parse_number, quoted, same_text, split};
#[allow(unused_imports)]
use crate::{cli, serial, text};
use vstd::prelude::*;

verus! {

/// The value of an [`McuSpec`].
#[verifier::ext_equal]
pub struct McuSpecModel {
    pub ch_id: u8,
    pub path: Seq<char>,
    pub baud: u32,
}

impl View for McuSpec {
    type V = McuSpecModel;

    open spec fn view(&self) -> McuSpecModel {
        McuSpecModel { ch_id: self.ch_id, path: self.path@, baud: self.baud }
    }
}

/// Why a text describes no channel.
#[derive(Debug, Clone, Copy, PartialEq, Eq, Structural)]
pub enum SpecError {
    /// It has fewer than three parts.
    TooShort,
    /// Its type is not `mcu`.
    UnknownType,
    /// Its id is not a number from 0 to 255.
    BadId,
    /// Its id is that of the control channel.
    ReservedId,
    /// A channel of an exporter has four parts.
    ExporterParts,
    /// A channel of a host has three parts.
    HostParts,
    /// Its line speed will not do.
    BadBaud(BaudError),
}

impl SpecError {
    /// The text of the error, given its subject in quotes.
    pub open spec fn text(self, quoted: Seq<char>) -> Seq<char> {
        match self {
            SpecError::TooShort => cli::joined(
                "channel spec "@,
                quoted,
                " too short\nexporter: mcu:<id>:<uart_device>:<baud>\nhost:     mcu:<id>:<socket_path>"@,
            ),
            SpecError::UnknownType => cli::joined(
                "unknown channel type "@,
                quoted,
                " — only 'mcu' is supported by windlass-bridge"@,
            ),
            SpecError::BadId => cli::joined("channel id in "@, quoted, " must be 0-255"@),
            SpecError::ReservedId => cli::joined(
                "channel id 255 in "@,
                quoted,
                " is reserved for the windlass smart-proxy control channel"@,
            ),
            SpecError::ExporterParts => cli::joined(
                "exporter mcu spec "@,
                quoted,
                ": need mcu:<id>:<device>:<baud>"@,
            ),
            SpecError::HostParts => cli::joined(
                "host mcu spec "@,
                quoted,
                ": need mcu:<id>:<socket_path>"@,
            ),
            SpecError::BadBaud(e) => e.text(quoted),
        }
    }

    /// What the error is about: the type of the channel, or the whole spec.
    pub open spec fn subject(self, spec: Seq<char>) -> Seq<char> {
        if self == SpecError::UnknownType {
            text::pieces(spec, ':')[0]
        } else {
            spec
        }
    }

    /// Describe the error, given its subject in quotes.
    pub fn describe(&self, quoted: &str) -> (m: String)
        ensures
            m@ == self.text(quoted@),
    {
        match self {
            SpecError::TooShort => join(
                "channel spec ",
                quoted,
                " too short\nexporter: mcu:<id>:<uart_device>:<baud>\nhost:     mcu:<id>:<socket_path>",
            ),
            SpecError::UnknownType => join(
                "unknown channel type ",
                quoted,
                " — only 'mcu' is supported by windlass-bridge",
            ),
            SpecError::BadId => join("channel id in ", quoted, " must be 0-255"),
            SpecError::ReservedId => join(
                "channel id 255 in ",
                quoted,
                " is reserved for the windlass smart-proxy control channel",
            ),
            SpecError::ExporterParts => join(
                "exporter mcu spec ",
                quoted,
                ": need mcu:<id>:<device>:<baud>",
            ),
            SpecError::HostParts => join(
                "host mcu spec ",
                quoted,
                ": need mcu:<id>:<socket_path>",
            ),
            SpecError::BadBaud(e) => e.describe(quoted),
        }
    }
}

/// The channel that the pieces of a spec describe once its id is known.
pub open spec fn mcu_channel(mode: Mode, ch_id: u8, parts: Seq<Seq<char>>) -> Result<
    McuSpecModel,
    SpecError,
> {
    match mode {
        Mode::Exporter => if parts.len() != 4 {
            Err(SpecError::ExporterParts)
        } else {
            match cli::standard_baud(parts[3]) {
                Ok(baud) => Ok(McuSpecModel { ch_id, path: parts[2], baud }),
                Err(e) => Err(SpecError::BadBaud(e)),
            }
        },
        Mode::Host => if parts.len() != 3 {
            Err(SpecError::HostParts)
        } else {
            Ok(McuSpecModel { ch_id, path: parts[2], baud: 0 })
        },
    }
}

/// The channel that a spec describes, or why it describes none.  The id of the
/// control channel is reserved.
pub open spec fn channel_spec(mode: Mode, spec: Seq<char>) -> Result<McuSpecModel, SpecError> {
    let parts = text::pieces(spec, ':');
    if parts.len() < 3 {
        Err(SpecError::TooShort)
    } else if parts[0] != "mcu"@ {
        Err(SpecError::UnknownType)
    } else {
        match text::number(parts[1], u8::MAX as nat) {
            None => Err(SpecError::BadId),
            Some(id) => if id == CTRL_CH {
                Err(SpecError::ReservedId)
            } else {
                mcu_channel(mode, id as u8, parts)
            },
        }
    }
}

/// Read a channel spec.
pub fn read_channel_spec(mode: Mode, spec: &str) -> (res: Result<McuSpec, SpecError>)
    ensures
        match res {
            Ok(c) => channel_spec(mode, spec@) == Ok::<McuSpecModel, SpecError>(c@),
            Err(e) => channel_spec(mode, spec@) == Err::<McuSpecModel, SpecError>(e),
        },
{
    let parts: Vec<&str> = split(spec, ':');
    let ghost ps = text::pieces(spec@, ':');
    assert(forall|i: int| 0 <= i < parts@.len() ==> (#[trigger] parts@[i])@ == ps[i]);
    if parts.len() < 3 {
        return Err(SpecError::TooShort);
    }
    if !same_text(parts[0], "mcu") {
        return Err(SpecError::UnknownType);
    }
    let ch_id: u8 = match parse_number(parts[1], u8::MAX as u32) {
        Some(n) => n as u8,
        None => return Err(SpecError::BadId),
    };
    if ch_id == CTRL_CH {
        return Err(SpecError::ReservedId);
    }
    match mode {
        Mode::Exporter => {
            if parts.len() != 4 {
                return Err(SpecError::ExporterParts);
            }
            match parse_standard_baud(parts[3]) {
                Ok(baud) => Ok(McuSpec { ch_id, path: parts[2].to_owned(), baud }),
                Err(e) => Err(SpecError::BadBaud(e)),
            }
        },
        Mode::Host => {
            if parts.len() != 3 {
                return Err(SpecError::HostParts);
            }
            Ok(McuSpec { ch_id, path: parts[2].to_owned(), baud: 0 })
        },
    }
}

/// The result of a parse says what it should.
pub open spec fn parsed_as(
    res: Result<McuSpec, String>,
    r: Result<McuSpecModel, SpecError>,
    spec: Seq<char>,
) -> bool {
    match res {
        Ok(c) => r == Ok::<McuSpecModel, SpecError>(c@),
        Err(m) => r matches Err(e) && m@ == e.text(text::debug_form(e.subject(spec))),
    }
}

/// Parse a channel spec; an error is described in words.
pub fn parse_channel_spec(mode: Mode, spec: &str) -> (res: Result<McuSpec, String>)
    ensures
        parsed_as(res, channel_spec(mode, spec@), spec@),
{
    match read_channel_spec(mode, spec) {
        Ok(c) => Ok(c),
        Err(SpecError::UnknownType) => {
            let parts: Vec<&str> = split(spec, ':');
            assert(parts@[0]@ == text::pieces(spec@, ':')[0]);
            Err(SpecError::UnknownType.describe(quoted(parts[0]).as_str()))
        },
        Err(e) => Err(e.describe(quoted(spec).as_str())),
    }
}

/// Parse a channel spec of an exporter.
pub fn parse_exporter_channel_spec(spec: &str) -> (res: Result<McuSpec, String>)
    ensures
        parsed_as(res, channel_spec(Mode::Exporter, spec@), spec@),
{
    parse_channel_spec(Mode::Exporter, spec)
}

/// Parse a channel spec of a host.
pub fn parse_host_channel_spec(spec: &str) -> (res: Result<McuSpec, String>)
    ensures
        parsed_as(res, channel_spec(Mode::Host, spec@), spec@),
{
    parse_channel_spec(Mode::Host, spec)
}

/// The ids of a list of specs.
pub open spec fn spec_ids(specs: Seq<McuSpec>) -> Seq<u8> {
    Seq::new(specs.len(), |i: int| specs[i].ch_id)
}

/// Refuse a list of specs in which an id occurs twice.
pub fn validate_unique_channel_ids(specs: &[McuSpec]) -> (res: Result<(), String>)
    ensures
        match cli::first_repeat(spec_ids(specs@), 0) {
            None => res is Ok,
            Some(id) => res matches Err(m) && m@ == cli::duplicate_message(id),
        },
{
    let mut ids: Vec<u8> = Vec::new();
    let mut i: usize = 0;
    while i < specs.len()
        invariant
            i <= specs@.len(),
            ids@ =~= spec_ids(specs@).take(i as int),
        decreases specs@.len() - i,
    {
        ids.push(specs[i].ch_id);
        i += 1;
    }
    assert(ids@ =~= spec_ids(specs@));
    check_unique_ids(&ids)
}

/// Specs are understood as documented: with any id but the reserved one, any
/// path without a colon, and, on an exporter, any standard line speed.
pub proof fn law_specs_are_understood(ch_id: u8, path: Seq<char>, baud: u32)
    requires
        ch_id != CTRL_CH,
        text::is_whole(path, ':'),
        serial::is_standard(baud),
    ensures
        channel_spec(Mode::Exporter, cli::long_spec("mcu"@, ch_id, path, baud as nat)) == Ok::<
            McuSpecModel,
            SpecError,
        >(McuSpecModel { ch_id, path, baud }),
        channel_spec(Mode::Host, cli::short_spec("mcu"@, ch_id, path)) == Ok::<
            McuSpecModel,
            SpecError,
        >(McuSpecModel { ch_id, path, baud: 0 }),
{
    reveal_strlit("mcu");
    cli::lemma_long_spec("mcu"@, ch_id, path, baud as nat);
    cli::lemma_short_spec("mcu"@, ch_id, path);
    text::law_number_roundtrip(ch_id as nat, u8::MAX as nat);
    text::law_number_roundtrip(baud as nat, u32::MAX as nat);
}

/// No channel takes the control channel's id: whatever spec is understood, its
/// id is another.
pub proof fn law_control_channel_is_reserved(mode: Mode, spec: Seq<char>)
    ensures
        channel_spec(mode, spec) matches Ok(c) ==> c.ch_id != CTRL_CH,
{
}

/// Why a spec is refused: the first thing that is wrong with it, looked for in
/// this order: the number of parts, the type, the id, and what the mode asks
/// for.
pub proof fn law_refused_specs(mode: Mode, spec: Seq<char>)
    ensures
        ({
            let parts = text::pieces(spec, ':');
            let n = parts.len();
            let mcu = parts[0] == "mcu"@;
            let id = text::number(parts[1], 255);
            let usable = id is Some && id != Some(255nat);
            let baud = text::number(parts[3], u32::MAX as nat);
            let refused = |e: SpecError|
                channel_spec(mode, spec) == Err::<McuSpecModel, SpecError>(e);
            &&& n < 3 ==> refused(SpecError::TooShort)
            &&& n >= 3 && !mcu ==> refused(SpecError::UnknownType)
            &&& n >= 3 && mcu && id is None ==> refused(SpecError::BadId)
            &&& n >= 3 && mcu && id == Some(255nat) ==> refused(SpecError::ReservedId)
            &&& n >= 3 && mcu && usable && mode == Mode::Exporter && n != 4 ==> refused(
                SpecError::ExporterParts,
            )
            &&& n > 3 && mcu && usable && mode == Mode::Host ==> refused(SpecError::HostParts)
            &&& n == 4 && mcu && usable && mode == Mode::Exporter && baud is None ==> refused(
                SpecError::BadBaud(BaudError::NotANumber),
            )
            &&& n == 4 && mcu && usable && mode == Mode::Exporter && (baud matches Some(b)
                && !serial::is_standard(b as u32)) ==> refused(
                SpecError::BadBaud(BaudError::NotStandard(baud->Some_0 as u32)),
            )
        }),
{
}

/// What a spec says is taken as it stands: the id is that of its second part,
/// the path its third part, and the speed its fourth, zero where a host needs
/// none.
pub proof fn law_parts_are_taken_as_they_stand(mode: Mode, spec: Seq<char>)
    ensures
        ({
            let parts = text::pieces(spec, ':');
            channel_spec(mode, spec) matches Ok(c) ==> {
                &&& parts[0] == "mcu"@
                &&& text::number(parts[1], 255) == Some(c.ch_id as nat)
                &&& c.path == parts[2]
                &&& mode == Mode::Exporter ==> parts.len() == 4 && serial::is_standard(c.baud)
                    && text::number(parts[3], u32::MAX as nat) == Some(c.baud as nat)
                &&& mode == Mode::Host ==> parts.len() == 3 && c.baud == 0
            }
        }),
{
}

} // verus!
