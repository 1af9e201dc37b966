//! Command-line values of both programs.

use serialmux::channel::{primary_token, Action, Channel, Step};
use serialmux::cli::{
    build_channel, check_unique_ids, parse_channel_spec, parse_exporter_channel_spec,
    parse_host_channel_spec, parse_standard_baud, parse_tcp_port, parse_usb_id, read_channel_spec,
    read_usb_id, split_args, validate_unique_channel_ids, ArgsError, BaudError, ChannelSpec, Mode,
    SpecError, UsbIdError, DEFAULT_BAUD,
};
use serialmux::windlass::cli as bridge;
use serialmux::windlass::{
    prepare_socket_path, resolve_link_device, LinkDevice, McuSpec, Occupant,
};

fn text(s: &str) -> String {
    s.to_string()
}

#[test]
fn usb_ids_are_hex_pairs() {
    assert_eq!(parse_usb_id("1D6b:0104"), Ok((text("1d6b"), text("0104"))));
    assert_eq!(
        parse_usb_id("1d6b"),
        Err(text("--usb must be VID:PID (e.g. 1d6b:0104), got \"1d6b\""))
    );
    assert_eq!(parse_usb_id(":1"), Err(text("VID in \":1\" must be a hex string")));
    assert_eq!(parse_usb_id("xyz:1"), Err(text("VID in \"xyz:1\" must be a hex string")));
    assert_eq!(parse_usb_id("1:"), Err(text("PID in \"1:\" must be a hex string")));
    assert_eq!(parse_usb_id("1:2:3"), Err(text("PID in \"1:2:3\" must be a hex string")));
    assert_eq!(read_usb_id("a"), Err(UsbIdError::NotAPair));
    assert_eq!(read_usb_id("g:1"), Err(UsbIdError::BadVid));
    assert_eq!(read_usb_id("1:g"), Err(UsbIdError::BadPid));
    assert!(read_usb_id("0:f").is_ok());
}

#[test]
fn quoting_escapes() {
    assert_eq!(
        parse_usb_id("a\"b\n"),
        Err(text("--usb must be VID:PID (e.g. 1d6b:0104), got \"a\\\"b\\n\""))
    );
}

#[test]
fn exporter_specs() {
    assert!(matches!(
        parse_exporter_channel_spec("mcu:0:/dev/ttyS7:230400"),
        Ok(ChannelSpec::McuExporter { id: 0, device, baud: 230400 }) if device == "/dev/ttyS7"
    ));
    assert!(matches!(
        parse_exporter_channel_spec("tcp:2:0.0.0.0:7125"),
        Ok(ChannelSpec::TcpExporter { id: 2, bind_addr, port: 7125 }) if bind_addr == "0.0.0.0"
    ));
    assert!(matches!(
        read_channel_spec(Mode::Exporter, "mcu:0:/dev/ttyS7"),
        Err(SpecError::ExporterMcuParts)
    ));
}

#[test]
fn host_specs() {
    assert!(matches!(
        parse_host_channel_spec("mcu:255:/tmp/klipper_mcu"),
        Ok(ChannelSpec::McuHost { id: 255, symlink, baud: DEFAULT_BAUD })
            if symlink == "/tmp/klipper_mcu"
    ));
    assert!(matches!(
        parse_host_channel_spec("mcu:+1:/tmp/x:9600"),
        Ok(ChannelSpec::McuHost { id: 1, baud: 9600, .. })
    ));
    assert!(matches!(
        parse_host_channel_spec("tcp:3:127.0.0.1:1"),
        Ok(ChannelSpec::TcpHost { id: 3, dest_addr, port: 1 }) if dest_addr == "127.0.0.1"
    ));
    assert!(matches!(
        read_channel_spec(Mode::Host, "tcp:3:127.0.0.1:0"),
        Err(SpecError::BadPort)
    ));
    // Parts behind the port are ignored.
    assert!(matches!(
        parse_exporter_channel_spec("tcp:2:1.2.3.4:7125:x"),
        Ok(ChannelSpec::TcpExporter { id: 2, bind_addr, port: 7125 }) if bind_addr == "1.2.3.4"
    ));
    assert!(matches!(
        read_channel_spec(Mode::Host, "mcu:1:a:9600:b"),
        Err(SpecError::HostMcuParts)
    ));
}

#[test]
fn errors_in_specs_are_described() {
    let host = |s: &str| parse_channel_spec(Mode::Host, s).err().unwrap_or_default();
    let exporter = |s: &str| parse_channel_spec(Mode::Exporter, s).err().unwrap_or_default();
    assert_eq!(
        host("mcu:1"),
        "channel spec \"mcu:1\" is too short\n\
         exporter mcu: mcu:<id>:<device>:<baud>\n\
         host     mcu: mcu:<id>:<pty_symlink>[:<baud>]\n\
         exporter tcp: tcp:<id>:<bind_addr>:<port>\n\
         host     tcp: tcp:<id>:<dest_addr>:<port>"
    );
    assert_eq!(host("udp:1:x"), "unknown channel type \"udp\" -- must be 'mcu' or 'tcp'");
    assert_eq!(host("mcu:256:x"), "channel id in \"mcu:256:x\" must be 0-255");
    assert_eq!(host("mcu:-1:x"), "channel id in \"mcu:-1:x\" must be 0-255");
    assert_eq!(host("mcu::x"), "channel id in \"mcu::x\" must be 0-255");
    assert_eq!(
        exporter("mcu:1:x"),
        "exporter mcu spec \"mcu:1:x\": need mcu:<id>:<device>:<baud>"
    );
    assert_eq!(
        host("mcu:1:x:9600:y"),
        "host mcu spec \"mcu:1:x:9600:y\": need mcu:<id>:<symlink>[:<baud>]"
    );
    assert_eq!(host("mcu:1:x:fast"), "baud in \"mcu:1:x:fast\" is not a number");
    assert_eq!(
        exporter("mcu:1:x:250000"),
        "baud 250000 in \"mcu:1:x:250000\" is not a standard value"
    );
    assert_eq!(host("tcp:1:x"), "tcp spec \"tcp:1:x\": need tcp:<id>:<addr>:<port>");
    assert_eq!(host("tcp:1:x:65536"), "port in \"tcp:1:x:65536\" must be 1-65535");
    assert_eq!(host("tcp:1:x:0"), "port in \"tcp:1:x:0\" must be 1-65535");
}

#[test]
fn bauds_and_ports() {
    assert_eq!(parse_standard_baud("115200"), Ok(115200));
    assert_eq!(parse_standard_baud("1"), Err(BaudError::NotStandard(1)));
    assert_eq!(parse_standard_baud("4294967296"), Err(BaudError::NotANumber));
    assert_eq!(parse_standard_baud(""), Err(BaudError::NotANumber));
    assert_eq!(parse_tcp_port(Some("65535")), Ok(65535));
    assert_eq!(parse_tcp_port(Some("1")), Ok(1));
    assert_eq!(parse_tcp_port(Some("0")), Err(SpecError::BadPort));
    assert_eq!(parse_tcp_port(Some("x")), Err(SpecError::BadPort));
    assert_eq!(parse_tcp_port(None), Err(SpecError::PortMissing));
}

#[test]
fn link_device_is_told_from_channel_specs() {
    let list = |args: &[&str]| args.iter().map(|a| text(a)).collect::<Vec<String>>();
    let specs = list(&["mcu:0:/dev/ttyS7:230400", "tcp:2:0.0.0.0:7125"]);
    assert_eq!(split_args(true, specs.clone()), Ok((None, specs.clone())));
    let args = list(&["/dev/ttyGS0", "mcu:0:/dev/ttyS7:230400", "tcp:2:0.0.0.0:7125"]);
    assert_eq!(split_args(false, args), Ok((Some(text("/dev/ttyGS0")), specs)));
    assert_eq!(split_args(true, vec![]), Err(ArgsError::SpecsMissing));
    assert_eq!(split_args(false, vec![]), Err(ArgsError::LinkMissing));
    assert_eq!(split_args(false, list(&["/dev/ttyGS0"])), Err(ArgsError::SpecsMissing));
}

#[test]
fn channel_ids_are_unique() {
    let spec = |s: &str| parse_host_channel_spec(s).unwrap();
    let list = [spec("mcu:0:a"), spec("tcp:1:b:1"), spec("mcu:2:c")];
    assert_eq!(validate_unique_channel_ids(&list), Ok(()));
    let list = [spec("mcu:7:a"), spec("mcu:3:b"), spec("tcp:3:c:1"), spec("mcu:7:d")];
    assert_eq!(validate_unique_channel_ids(&list), Err(text("duplicate channel id 3")));
    assert_eq!(check_unique_ids(&[]), Ok(()));
    assert_eq!(check_unique_ids(&[255, 0, 255]), Err(text("duplicate channel id 255")));
}

#[test]
fn channels_are_built_from_specs() {
    let mut out = Vec::new();
    let spec = parse_exporter_channel_spec("mcu:0:/dev/ttyS7:230400").unwrap();
    let (ch, step) = build_channel(spec, &mut out);
    assert!(matches!(ch, Channel::Mcu(_)));
    assert_eq!(step, Step::OpenUart(primary_token(0)));
    assert!(out.is_empty());
    let (ch, step) = build_channel(parse_host_channel_spec("mcu:1:/tmp/x").unwrap(), &mut out);
    assert!(matches!(&ch, Channel::Pty(c) if c.symlink() == "/tmp/x"));
    assert_eq!(step, Step::Done);
    assert_eq!(out, vec![Action::RemoveSymlink(primary_token(1))]);
    let spec = parse_exporter_channel_spec("tcp:2:0.0.0.0:7125").unwrap();
    assert!(matches!(build_channel(spec, &mut out).0, Channel::TcpSource(_)));
    let spec = parse_host_channel_spec("tcp:3:127.0.0.1:7125").unwrap();
    let (ch, _) = build_channel(spec, &mut out);
    assert!(matches!(&ch, Channel::TcpDest(c) if c.dest_port() == 7125));
    assert_eq!(ch.channel_id(), 3);
}

fn same(s: &McuSpec, ch_id: u8, path: &str, baud: u32) -> bool {
    s.ch_id == ch_id && s.path == path && s.baud == baud
}

#[test]
fn bridge_specs() {
    let s = bridge::parse_exporter_channel_spec("mcu:0:/dev/ttyS7:230400").unwrap();
    assert!(same(&s, 0, "/dev/ttyS7", 230400));
    let s = bridge::parse_host_channel_spec("mcu:254:/tmp/klipper_mcu").unwrap();
    assert!(same(&s, 254, "/tmp/klipper_mcu", 0));
}

#[test]
fn errors_in_bridge_specs_are_described() {
    let host = |s: &str| bridge::parse_host_channel_spec(s).err().unwrap_or_default();
    let exporter = |s: &str| bridge::parse_exporter_channel_spec(s).err().unwrap_or_default();
    assert_eq!(
        host("mcu"),
        "channel spec \"mcu\" too short\n\
         exporter: mcu:<id>:<uart_device>:<baud>\n\
         host:     mcu:<id>:<socket_path>"
    );
    assert_eq!(
        host("tcp:1:x"),
        "unknown channel type \"tcp\" — only 'mcu' is supported by windlass-bridge"
    );
    assert_eq!(host("mcu:x:y"), "channel id in \"mcu:x:y\" must be 0-255");
    assert_eq!(
        host("mcu:255:y"),
        "channel id 255 in \"mcu:255:y\" is reserved for the windlass smart-proxy control channel"
    );
    assert_eq!(
        exporter("mcu:1:y"),
        "exporter mcu spec \"mcu:1:y\": need mcu:<id>:<device>:<baud>"
    );
    assert_eq!(host("mcu:1:y:9600"), "host mcu spec \"mcu:1:y:9600\": need mcu:<id>:<socket_path>");
    assert_eq!(exporter("mcu:1:y:z"), "baud in \"mcu:1:y:z\" is not a number");
    assert_eq!(exporter("mcu:1:y:5"), "baud 5 in \"mcu:1:y:5\" is not a standard value");
}

#[test]
fn bridge_channel_ids_are_unique() {
    let spec = |s: &str| bridge::parse_host_channel_spec(s).unwrap();
    assert_eq!(bridge::validate_unique_channel_ids(&[spec("mcu:0:a"), spec("mcu:1:b")]), Ok(()));
    assert_eq!(
        bridge::validate_unique_channel_ids(&[spec("mcu:1:a"), spec("mcu:1:b")]),
        Err(text("duplicate channel id 1"))
    );
}

#[test]
fn link_device_is_a_path_or_awaited() {
    assert!(matches!(
        resolve_link_device(Some("/dev/ttyGS0"), Some(("a", "b"))),
        LinkDevice::Path(p) if p == "/dev/ttyGS0"
    ));
    assert!(matches!(
        resolve_link_device(None, Some(("1d6b", "0104"))),
        LinkDevice::WaitForUsb(v, p) if v == "1d6b" && p == "0104"
    ));
}

#[test]
fn only_sockets_and_symlinks_are_cleared_away() {
    assert_eq!(prepare_socket_path("/tmp/s", Occupant::Nothing), Ok(false));
    assert_eq!(prepare_socket_path("/tmp/s", Occupant::Socket), Ok(true));
    assert_eq!(prepare_socket_path("/tmp/s", Occupant::Symlink), Ok(true));
    assert_eq!(
        prepare_socket_path("/tmp/s", Occupant::Other),
        Err(text("refusing to remove non-socket file at /tmp/s"))
    );
}
