//! The `identify` exchange.

use serialmux::windlass::mcu_transport::{
    build_identify_request, parse_identify_response, DictionaryFetch, FetchStep, CMD_IDENTIFY,
    CMD_IDENTIFY_RESPONSE, IDENTIFY_CHUNK_SIZE,
};
use serialmux::windlass::smart_host::{build_identify_answer, ProxyContext};
use serialmux::windlass::vlq::{encode_vlq_int, parse_vlq_int, VlqError};

#[test]
fn build_identify_request_encodes_expected_fields() {
    let req = build_identify_request(123);
    let mut data = req.as_slice();

    assert_eq!(parse_vlq_int(&mut data).unwrap(), CMD_IDENTIFY);
    assert_eq!(parse_vlq_int(&mut data).unwrap(), 123);
    assert_eq!(parse_vlq_int(&mut data).unwrap(), IDENTIFY_CHUNK_SIZE);
    assert!(data.is_empty());
}

#[test]
fn parse_identify_response_accepts_matching_chunk() {
    let mut payload = Vec::new();
    encode_vlq_int(&mut payload, CMD_IDENTIFY_RESPONSE);
    encode_vlq_int(&mut payload, 40);
    encode_vlq_int(&mut payload, 3);
    payload.extend_from_slice(&[1, 2, 3]);

    assert_eq!(parse_identify_response(&payload, 40), Some(vec![1, 2, 3]));
}

#[test]
fn parse_identify_response_rejects_wrong_offset() {
    let mut payload = Vec::new();
    encode_vlq_int(&mut payload, CMD_IDENTIFY_RESPONSE);
    encode_vlq_int(&mut payload, 41);
    encode_vlq_int(&mut payload, 1);
    payload.push(9);

    assert!(parse_identify_response(&payload, 40).is_none());
}

#[test]
fn parse_identify_response_rejects_non_identify_messages() {
    let mut payload = Vec::new();
    encode_vlq_int(&mut payload, 99);
    encode_vlq_int(&mut payload, 0);

    assert!(parse_identify_response(&payload, 0).is_none());
}

#[test]
fn parse_identify_response_rejects_short_data() {
    let mut payload = Vec::new();
    encode_vlq_int(&mut payload, CMD_IDENTIFY_RESPONSE);
    encode_vlq_int(&mut payload, 0);
    encode_vlq_int(&mut payload, 4);
    payload.extend_from_slice(&[1, 2, 3]);
    assert!(parse_identify_response(&payload, 0).is_none());
    assert!(parse_identify_response(&[], 0).is_none());
    assert!(parse_identify_response(&[0x80], 0).is_none());
}

#[test]
fn vlq_known_encodings() {
    let cases: [(u32, &[u8]); 9] = [
        (0, &[0x00]),
        (95, &[0x5F]),
        (96, &[0x80, 0x60]),
        (0xFFFF_FFE0, &[0x60]),        // -32
        (0xFFFF_FFDF, &[0xFF, 0x5F]),  // -33
        (12287, &[0xDF, 0x7F]),
        (12288, &[0x80, 0xE0, 0x00]),
        (0x7FFF_FFFF, &[0x87, 0xFF, 0xFF, 0xFF, 0x7F]),
        (0x8000_0000, &[0xF8, 0x80, 0x80, 0x80, 0x00]),
    ];
    for (v, bytes) in cases {
        let mut out = vec![0xEE];
        encode_vlq_int(&mut out, v);
        assert_eq!(&out[1..], bytes, "encoding of {}", v);
        let mut with_rest = bytes.to_vec();
        with_rest.push(0x42);
        let mut data = with_rest.as_slice();
        assert_eq!(parse_vlq_int(&mut data).unwrap(), v);
        assert_eq!(data, &[0x42]);
    }
}

#[test]
fn vlq_roundtrips_at_the_borders() {
    for shift in [5u32, 12, 19, 26] {
        for base in [(3u32 << shift) as i64, -(1i64 << shift)] {
            for d in -2i64..=2 {
                let v = ((base + d) as i32) as u32;
                let mut out = Vec::new();
                encode_vlq_int(&mut out, v);
                let mut data = out.as_slice();
                assert_eq!(parse_vlq_int(&mut data).unwrap(), v);
                assert!(data.is_empty());
            }
        }
    }
}

#[test]
fn vlq_rejects_truncated_input() {
    let mut data: &[u8] = &[0x80, 0x80];
    assert_eq!(parse_vlq_int(&mut data), Err(VlqError::Truncated));
    assert!(data.is_empty());
}

#[test]
fn fetch_assembles_the_dictionary() {
    let dictionary: Vec<u8> = (0..100u8).collect();
    let mut fetch = DictionaryFetch::new();
    let mut requests = 0;
    loop {
        let req = fetch.request();
        requests += 1;
        let mut ctx = ProxyContext::new(&dictionary);
        let mut frame = req.as_slice();
        ctx.dispatch_raw(&mut frame).unwrap();
        assert!(frame.is_empty());
        assert!(ctx.to_exporter.is_empty());
        assert_eq!(ctx.pending_responses.len(), 1);
        assert_eq!(fetch.on_payload(&[0x63]), FetchStep::Ignored);
        match fetch.on_payload(&ctx.pending_responses[0]) {
            FetchStep::NextRequest => {}
            FetchStep::Complete => break,
            FetchStep::Ignored => panic!("a matching response was ignored"),
        }
    }
    assert_eq!(requests, 3);
    assert_eq!(fetch.into_dictionary(), dictionary);
}

#[test]
fn fetch_of_full_chunks_ends_with_an_empty_one() {
    let dictionary = vec![9u8; 80];
    let mut fetch = DictionaryFetch::new();
    assert_eq!(
        fetch.on_payload(&build_identify_answer(&dictionary, 0, 40)),
        FetchStep::NextRequest
    );
    assert_eq!(
        fetch.on_payload(&build_identify_answer(&dictionary, 0, 40)),
        FetchStep::Ignored
    );
    assert_eq!(
        fetch.on_payload(&build_identify_answer(&dictionary, 40, 40)),
        FetchStep::NextRequest
    );
    assert_eq!(
        fetch.on_payload(&build_identify_answer(&dictionary, 80, 40)),
        FetchStep::Complete
    );
    assert_eq!(fetch.into_dictionary(), dictionary);
}
