//! Outcomes of system calls, line speeds, and discovery.

use serialmux::discovery::{
    find_acm_by_usb_id, same_usb_id, AcmWait, TtyEntry, UsbIds, WaitStep, WAIT_LOG_INTERVAL,
};
use serialmux::serial::{
    baud_to_speed, is_standard_baud, line_speed, optional_line_speed, read_nonblock,
    write_nonblock, LineSpeed, NotReady, ReadOutcome, WriteOutcome,
};

const NOT_READY: NotReady = NotReady { eagain: 11, ewouldblock: 12 };

#[test]
fn results_of_reads() {
    let buf = [1, 2, 3, 4];
    assert!(matches!(read_nonblock(2, 0, NOT_READY, &buf), ReadOutcome::Data([1, 2])));
    assert!(matches!(read_nonblock(0, 0, NOT_READY, &buf), ReadOutcome::Data([])));
    assert!(matches!(read_nonblock(-1, 11, NOT_READY, &buf), ReadOutcome::WouldBlock));
    assert!(matches!(read_nonblock(-1, 12, NOT_READY, &buf), ReadOutcome::WouldBlock));
    assert!(matches!(read_nonblock(-1, 5, NOT_READY, &buf), ReadOutcome::Failed(5)));
}

#[test]
fn results_of_writes() {
    assert_eq!(write_nonblock(3, 0, NOT_READY), WriteOutcome::Written(3));
    assert_eq!(write_nonblock(-1, 11, NOT_READY), WriteOutcome::WouldBlock);
    assert_eq!(write_nonblock(-1, 12, NOT_READY), WriteOutcome::WouldBlock);
    assert_eq!(write_nonblock(-1, 32, NOT_READY), WriteOutcome::Failed(32));
}

#[test]
fn standard_line_speeds() {
    let all = [
        1200, 2400, 4800, 9600, 19200, 38400, 57600, 115200, 230400, 460800, 921600,
    ];
    for baud in all {
        assert!(is_standard_baud(baud));
        assert!(baud_to_speed(baud).is_some());
    }
    assert_eq!(baud_to_speed(230400), Some(LineSpeed::B230400));
    assert_eq!(baud_to_speed(250000), None);
    assert!(!is_standard_baud(0));
    assert_eq!(line_speed(1200), Ok(LineSpeed::B1200));
    assert_eq!(line_speed(250000), Err("unsupported baud rate: 250000".to_string()));
    assert_eq!(line_speed(0), Err("unsupported baud rate: 0".to_string()));
    assert_eq!(optional_line_speed(0), Ok(None));
    assert_eq!(optional_line_speed(9600), Ok(Some(LineSpeed::B9600)));
    assert!(optional_line_speed(1).is_err());
}

fn ids(vendor: &str, product: &str) -> Option<UsbIds> {
    Some(UsbIds { vendor: vendor.to_string(), product: product.to_string() })
}

fn entry(name: &str, levels: Vec<Option<UsbIds>>) -> TtyEntry {
    TtyEntry { name: name.to_string(), levels }
}

#[test]
fn acm_device_is_found_by_usb_id() {
    let entries = [
        entry("ttyACM1", vec![None, None, ids("1d6b\n", "0104\n")]),
        entry("ttyACM0", vec![None, ids("1d6b\n", "9999\n"), ids("1d6b\n", "0104\n")]),
        entry("ttyS0", vec![ids("1d6b\n", "0104\n")]),
    ];
    // The first entry with ids decides: ttyACM0 is another device.
    assert_eq!(
        find_acm_by_usb_id(&entries, "1d6b", "0104"),
        Some("/dev/ttyACM1".to_string())
    );
    assert_eq!(
        find_acm_by_usb_id(&entries, "1d6b", "9999"),
        Some("/dev/ttyACM0".to_string())
    );
    assert_eq!(find_acm_by_usb_id(&entries, "1d6b", "0105"), None);
    assert_eq!(find_acm_by_usb_id(&[], "1d6b", "0104"), None);
}

#[test]
fn lowest_number_wins() {
    let chosen = |names: &[&str]| {
        let entries: Vec<TtyEntry> =
            names.iter().map(|n| entry(n, vec![ids("a", "b")])).collect();
        find_acm_by_usb_id(&entries, "a", "b").unwrap_or_default()
    };
    assert_eq!(chosen(&["ttyACM2", "ttyACM10"]), "/dev/ttyACM2");
    assert_eq!(chosen(&["ttyACM10", "ttyACM2"]), "/dev/ttyACM2");
    assert_eq!(chosen(&["ttyACM100", "ttyACM99", "ttyACM101"]), "/dev/ttyACM99");
    assert_eq!(
        chosen(&["ttyACM100000000000000000000", "ttyACM99999999999999999999"]),
        "/dev/ttyACM99999999999999999999"
    );
    // Equal numbers go by name, and names without a number come last.
    assert_eq!(chosen(&["ttyACM7", "ttyACM07"]), "/dev/ttyACM07");
    assert_eq!(chosen(&["ttyACM", "ttyACM1x", "ttyACM20"]), "/dev/ttyACM20");
    assert_eq!(chosen(&["ttyACMb", "ttyACMa"]), "/dev/ttyACMa");
}

#[test]
fn only_eight_levels_are_climbed() {
    let mut levels: Vec<Option<UsbIds>> = (0..7).map(|_| None).collect();
    levels.push(ids("a", "b"));
    assert!(find_acm_by_usb_id(&[entry("ttyACM0", levels)], "a", "b").is_some());
    let mut levels: Vec<Option<UsbIds>> = (0..8).map(|_| None).collect();
    levels.push(ids("a", "b"));
    assert!(find_acm_by_usb_id(&[entry("ttyACM0", levels)], "a", "b").is_none());
}

#[test]
fn white_space_around_usb_ids_is_ignored() {
    let found = |vendor: &str| {
        find_acm_by_usb_id(&[entry("ttyACM0", vec![ids(vendor, "b")])], "a c", "b").is_some()
    };
    assert!(found("\t a c\r\n"));
    assert!(!found("ac"));
    // Of the characters in the basic plane, just those with Unicode's property
    // `White_Space` are taken off.
    for c in (0..=0xFFFFu32).filter_map(char::from_u32) {
        let white = matches!(c,
            '\u{9}'..='\u{d}' | ' ' | '\u{85}' | '\u{a0}' | '\u{1680}' | '\u{2000}'..='\u{200a}'
            | '\u{2028}' | '\u{2029}' | '\u{202f}' | '\u{205f}' | '\u{3000}');
        assert_eq!(found(&format!("{}a c", c)), white, "{:?} in front", c);
        assert_eq!(found(&format!("a c{}", c)), white, "{:?} behind", c);
    }
}

#[test]
fn usb_ids_are_compared_as_text() {
    assert!(same_usb_id("1d6b", "0104", "1d6b", "0104"));
    assert!(!same_usb_id("1d6b", "0104", "1D6B", "0104"));
    assert!(!same_usb_id("1d6b", "0104", "1d6b", "104"));
}

#[test]
fn waiting_for_a_device_logs_now_and_then() {
    let mut w = AcmWait::new();
    assert!(matches!(w.wait_for_acm(None, 5), WaitStep::LogAndSleep));
    assert!(matches!(w.wait_for_acm(None, 5 + WAIT_LOG_INTERVAL - 1), WaitStep::Sleep));
    assert!(matches!(w.wait_for_acm(None, 5 + WAIT_LOG_INTERVAL), WaitStep::LogAndSleep));
    let dev = "/dev/ttyACM0".to_string();
    assert!(matches!(w.wait_for_acm(Some(dev), 5 + 2 * WAIT_LOG_INTERVAL),
        WaitStep::Found(d) if d == "/dev/ttyACM0"));
}
