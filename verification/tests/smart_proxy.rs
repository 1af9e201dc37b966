//! Smart proxy: dictionaries, dispatch, and the payload link.

use bytes::BytesMut;
use serialmux::windlass::framing::{
    FramingError, CTRL_CH, CTRL_DICT_DONE, CTRL_DICT_FRAG, DICT_FRAG_MAX,
};
use serialmux::windlass::proxy::{ProxyDelivery, ProxyLink};
use serialmux::windlass::smart_exporter::send_dictionary;
use serialmux::windlass::smart_host::{
    build_identify_answer, ControlOutcome, DictionaryGatherer, ProxyContext,
};
use serialmux::windlass::vlq::{encode_vlq_int, VlqError};

#[test]
fn dictionary_is_cut_into_fragments() {
    let dict: Vec<u8> = (0..600u32).map(|i| i as u8).collect();
    let frames = send_dictionary(3, &dict);
    assert_eq!(frames.len(), 4);
    assert!(frames.iter().all(|f| f.ch_id == CTRL_CH));
    assert_eq!(frames[0].payload.len(), 2 + DICT_FRAG_MAX);
    assert_eq!(&frames[0].payload[..2], &[CTRL_DICT_FRAG, 3]);
    assert_eq!(&frames[1].payload[2..], &dict[253..506]);
    assert_eq!(frames[2].payload.len(), 2 + 94);
    assert_eq!(frames[3].payload.as_ref(), &[CTRL_DICT_DONE, 3]);
}

#[test]
fn empty_dictionary_is_only_marked_done() {
    let frames = send_dictionary(0, &[]);
    assert_eq!(frames.len(), 1);
    assert_eq!(frames[0].payload.as_ref(), &[CTRL_DICT_DONE, 0]);
}

#[test]
fn dictionaries_cross_the_link_interleaved() {
    let a: Vec<u8> = vec![1; 700];
    let b: Vec<u8> = vec![2; 300];
    let fa = send_dictionary(1, &a);
    let fb = send_dictionary(2, &b);
    let mut g = DictionaryGatherer::new(vec![1, 2]);
    let mut ready = Vec::new();
    let n = fa.len().max(fb.len());
    for i in 0..n {
        for list in [&fa, &fb] {
            if let Some(f) = list.get(i) {
                match g.on_control(&f.payload) {
                    ControlOutcome::Ready(ch, d) => ready.push((ch, d)),
                    ControlOutcome::Stored(_) => {}
                    other => panic!("unexpected {:?}", other),
                }
            }
        }
    }
    assert_eq!(ready, vec![(2, b), (1, a)]);
}

#[test]
fn control_payloads_that_say_nothing() {
    let mut g = DictionaryGatherer::new(vec![1]);
    assert!(matches!(g.on_control(&[]), ControlOutcome::TooShort));
    assert!(matches!(g.on_control(&[CTRL_DICT_FRAG]), ControlOutcome::TooShort));
    assert!(matches!(g.on_control(&[9, 1]), ControlOutcome::UnknownType(9)));
    assert!(matches!(g.on_control(&[CTRL_DICT_FRAG, 7, 1, 2]), ControlOutcome::Stored(7)));
    assert!(matches!(g.on_control(&[CTRL_DICT_DONE, 7]), ControlOutcome::UnknownChannel(7)));
    match g.on_control(&[CTRL_DICT_DONE, 1]) {
        ControlOutcome::Ready(1, d) => assert!(d.is_empty()),
        other => panic!("unexpected {:?}", other),
    }
}

#[test]
fn identify_is_answered_locally() {
    let dict: Vec<u8> = (0..50u8).collect();
    let mut cmd = Vec::new();
    encode_vlq_int(&mut cmd, 1);
    encode_vlq_int(&mut cmd, 40);
    encode_vlq_int(&mut cmd, 40);
    let mut ctx = ProxyContext::new(&dict);
    let mut frame = cmd.as_slice();
    assert_eq!(ctx.dispatch_raw(&mut frame), Ok(()));
    assert!(ctx.to_exporter.is_empty());
    let mut expected = vec![0, 40, 10];
    expected.extend_from_slice(&dict[40..]);
    assert_eq!(ctx.pending_responses, vec![expected]);
}

#[test]
fn identify_behind_the_end_is_answered_empty() {
    assert_eq!(build_identify_answer(&[1, 2, 3], 4, 40), vec![0, 4, 0]);
    assert_eq!(build_identify_answer(&[1, 2, 3], 3, 40), vec![0, 3, 0]);
    assert_eq!(build_identify_answer(&[1, 2, 3], 1, 1), vec![0, 1, 1, 2]);
}

#[test]
fn other_commands_are_forwarded_unchanged() {
    let dict = [1u8, 2];
    let mut ctx = ProxyContext::new(&dict);
    let cmd = [0x05u8, 0x81, 0x00, 0x7F];
    let mut frame = &cmd[..];
    assert_eq!(ctx.dispatch_raw(&mut frame), Ok(()));
    assert!(frame.is_empty());
    assert_eq!(ctx.to_exporter, vec![cmd.to_vec()]);
    assert!(ctx.pending_responses.is_empty());
}

#[test]
fn truncated_commands_are_errors() {
    let dict = [1u8, 2];
    let mut ctx = ProxyContext::new(&dict);
    let mut empty: &[u8] = &[];
    assert_eq!(ctx.dispatch_raw(&mut empty), Err(VlqError::Truncated));
    let mut no_args: &[u8] = &[0x01];
    assert_eq!(ctx.dispatch_raw(&mut no_args), Err(VlqError::Truncated));
    let mut one_arg: &[u8] = &[0x01, 0x00];
    assert_eq!(ctx.dispatch_raw(&mut one_arg), Err(VlqError::Truncated));
    assert!(ctx.pending_responses.is_empty());
    let mut left: &[u8] = &[0x00];
    assert_eq!(ctx.dispatch(7, &mut left), Ok(()));
    assert_eq!(left, &[0x00]);
}

#[test]
fn payloads_are_routed_by_channel() {
    let sender = ProxyLink::new(&[4, 5], true);
    let mut link = BytesMut::new();
    assert!(sender.payload_bytes(4, vec![1, 2], &mut link).is_ok());
    assert!(sender.payload_bytes(CTRL_CH, vec![2, 4], &mut link).is_ok());
    assert!(sender.payload_bytes(5, vec![], &mut link).is_ok());
    assert!(sender.payload_bytes(9, vec![7], &mut link).is_ok());
    assert_eq!(
        sender.payload_bytes(4, vec![0; 256], &mut link),
        Err(FramingError::PayloadTooLong(256))
    );

    let mut receiver = ProxyLink::new(&[4, 5], false);
    receiver.set_attached(0, true);
    let mut got = receiver.link_bytes(&link[..3]);
    assert!(got.is_empty());
    got.extend(receiver.link_bytes(&link[3..]));
    assert_eq!(got.len(), 4);
    assert!(matches!(&got[0], ProxyDelivery::ToLine(0, p) if p.as_ref() == [1, 2]));
    assert!(matches!(&got[1], ProxyDelivery::Control(p) if p.as_ref() == [2, 4]));
    assert!(matches!(&got[2], ProxyDelivery::Detached(1)));
    assert!(matches!(&got[3], ProxyDelivery::Unknown(9)));
}
