//! Transparent relay between lines and the link.

use bytes::BytesMut;
use serialmux::windlass::relay::{Delivery, Relay};

fn frame(payload: &[u8]) -> Vec<u8> {
    let mut f = vec![5 + payload.len() as u8, 0x80];
    f.extend_from_slice(payload);
    f.extend_from_slice(&[0, 0, 0x7E]);
    f
}

#[test]
fn frames_cross_the_relay_in_order() {
    let a = frame(&[1]);
    let b = frame(&[2, 3]);
    let mut exporter = Relay::new(&[0, 7], true);
    let mut host = Relay::new(&[7, 0], false);
    host.attach(0);

    let mut line = vec![0x7E];
    line.extend_from_slice(&a);
    line.extend_from_slice(&b);
    let mut link = BytesMut::new();
    exporter.line_bytes(1, &line[..4], &mut link);
    assert!(link.is_empty());
    exporter.line_bytes(1, &line[4..], &mut link);
    let mut expected = vec![7];
    expected.extend_from_slice(&a);
    expected.push(7);
    expected.extend_from_slice(&b);
    assert_eq!(link.as_ref(), expected.as_slice());

    let got = host.link_bytes(&link);
    assert_eq!(got.len(), 2);
    assert!(matches!(&got[0], Delivery::ToLine(0, f) if f.as_ref() == a.as_slice()));
    assert!(matches!(&got[1], Delivery::ToLine(0, f) if f.as_ref() == b.as_slice()));
}

#[test]
fn frames_without_a_client_or_a_line_are_dropped() {
    let a = frame(&[1]);
    let mut host = Relay::new(&[3], false);
    let mut link = vec![3];
    link.extend_from_slice(&a);
    link.push(4);
    link.extend_from_slice(&a);
    let got = host.link_bytes(&link);
    assert_eq!(got.len(), 2);
    assert!(matches!(&got[0], Delivery::Detached(0)));
    assert!(matches!(&got[1], Delivery::Unknown(4)));
}

#[test]
fn a_new_client_starts_afresh() {
    let a = frame(&[1]);
    let mut host = Relay::new(&[3], false);
    host.attach(0);
    let mut link = BytesMut::new();
    host.line_bytes(0, &[0x7E, 6, 0x80], &mut link);
    host.detach(0);
    host.attach(0);
    // Out of sync again: the frame is taken only behind a sync byte.
    host.line_bytes(0, &a, &mut link);
    assert!(link.is_empty());
    host.line_bytes(0, &a, &mut link);
    assert_eq!(link.len(), 1 + a.len());
}

#[test]
fn the_later_of_two_lines_with_one_channel_is_served() {
    let a = frame(&[1]);
    let mut relay = Relay::new(&[3, 3], true);
    let mut link = vec![3];
    link.extend_from_slice(&a);
    let got = relay.link_bytes(&link);
    assert!(matches!(&got[0], Delivery::ToLine(1, _)));
}
