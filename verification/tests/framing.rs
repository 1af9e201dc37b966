//! Tunnel codecs and the Klipper framer.

use bytes::{BufMut, BytesMut};
use serialmux::windlass::framing::{
    KlipperFramer, PayloadTunnelCodec, PayloadTunnelFrame, TunnelCodec, TunnelFrame,
    MESSAGE_LENGTH_MAX, MESSAGE_LENGTH_MIN, MESSAGE_VALUE_SYNC,
};

fn make_frame(payload: &[u8]) -> Vec<u8> {
    // len + seq + payload + crc_hi + crc_lo + sync
    let len = 2 + payload.len() + 3;
    assert!(len >= MESSAGE_LENGTH_MIN && len <= MESSAGE_LENGTH_MAX);
    let mut f = vec![len as u8, 0x10u8]; // len + seq (dest 0x10)
    f.extend_from_slice(payload);
    // Minimal fake CRC (zeroes) for framing tests.
    f.extend_from_slice(&[0x00, 0x00, MESSAGE_VALUE_SYNC]);
    f
}

#[test]
fn framer_parses_single_frame_after_sync() {
    let mut src = BytesMut::new();
    src.extend_from_slice(&[MESSAGE_VALUE_SYNC]); // initial sync
    let frame = make_frame(&[0x01, 0x02]);
    src.extend_from_slice(&frame);

    let mut codec = KlipperFramer::new();
    let result = codec.decode(&mut src).unwrap();
    assert!(result.is_some());
    let got = result.unwrap();
    assert_eq!(got.as_ref(), frame.as_slice());
}

#[test]
fn framer_skips_idle_syncs() {
    let mut src = BytesMut::new();
    // Three idle syncs, then a real frame.
    src.extend_from_slice(&[
        MESSAGE_VALUE_SYNC,
        MESSAGE_VALUE_SYNC,
        MESSAGE_VALUE_SYNC,
    ]);
    let frame = make_frame(&[0xAA]);
    src.extend_from_slice(&frame);

    let mut codec = KlipperFramer::new();
    // First call: consume the first sync to become synced, skip idles,
    // then parse the frame.
    let result = codec.decode(&mut src).unwrap();
    assert!(result.is_some());
    assert_eq!(result.unwrap().as_ref(), frame.as_slice());
}

#[test]
fn framer_resyncs_on_bad_length() {
    let mut src = BytesMut::new();
    src.extend_from_slice(&[MESSAGE_VALUE_SYNC]); // sync
    src.extend_from_slice(&[0x00]); // invalid length (< 5)
    // Valid frame follows.
    let frame = make_frame(&[0x05]);
    src.extend_from_slice(&[MESSAGE_VALUE_SYNC]); // resync sync
    src.extend_from_slice(&frame);

    let mut codec = KlipperFramer::new();
    // Should skip the bad byte, resync, and return the valid frame.
    let result = codec.decode(&mut src).unwrap();
    assert!(result.is_some());
    assert_eq!(result.unwrap().as_ref(), frame.as_slice());
}

#[test]
fn framer_returns_none_on_partial_frame() {
    let frame = make_frame(&[0x01, 0x02, 0x03]);
    let partial = &frame[..frame.len() - 1]; // drop the last byte
    let mut src = BytesMut::new();
    src.extend_from_slice(&[MESSAGE_VALUE_SYNC]); // sync
    src.extend_from_slice(partial);

    let mut codec = KlipperFramer::new();
    let result = codec.decode(&mut src).unwrap();
    assert!(result.is_none());
}

// ── TunnelCodec ──────────────────────────────────────────────────────────

#[test]
fn tunnel_roundtrip() {
    let frame = make_frame(&[0x11, 0x22]);
    let tf = TunnelFrame {
        ch_id: 3,
        frame: bytes::Bytes::copy_from_slice(&frame),
    };

    // Encode.
    let mut buf = BytesMut::new();
    let mut enc = TunnelCodec;
    enc.encode(tf.clone(), &mut buf).unwrap();

    // Decode.
    let mut dec = TunnelCodec;
    let got = dec.decode(&mut buf).unwrap().unwrap();
    assert_eq!(got.ch_id, 3);
    assert_eq!(got.frame.as_ref(), frame.as_slice());
    assert!(buf.is_empty());
}

#[test]
fn tunnel_skips_bad_length_byte() {
    // Build a buffer: [ch=0][bad_len=2][ch=1][valid_frame...]
    let frame = make_frame(&[0xBB]);
    let mut buf = BytesMut::new();
    buf.put_u8(0); // ch_id
    buf.put_u8(2); // length 2 < MESSAGE_LENGTH_MIN → skip
    buf.put_u8(1); // ch_id of valid frame
    buf.extend_from_slice(&frame);

    let mut dec = TunnelCodec;
    let got = dec.decode(&mut buf).unwrap().unwrap();
    assert_eq!(got.ch_id, 1);
    assert_eq!(got.frame.as_ref(), frame.as_slice());
}

#[test]
fn tunnel_returns_none_when_incomplete() {
    let frame = make_frame(&[0x01]);
    // Drop the last two bytes of the Klipper frame.
    let partial = &frame[..frame.len() - 2];
    let mut buf = BytesMut::new();
    buf.put_u8(7);
    buf.extend_from_slice(partial);

    let mut dec = TunnelCodec;
    assert!(dec.decode(&mut buf).unwrap().is_none());
}

// ── PayloadTunnelCodec ───────────────────────────────────────────────────

#[test]
fn payload_tunnel_roundtrip() {
    let payload = bytes::Bytes::from_static(&[0x01, 0x00, 0x28]);
    let pf = PayloadTunnelFrame { ch_id: 5, payload: payload.clone() };

    let mut buf = BytesMut::new();
    let mut enc = PayloadTunnelCodec;
    enc.encode(pf, &mut buf).unwrap();

    // Wire: [ch_id=5][len=3][0x01,0x00,0x28]
    assert_eq!(buf.len(), 5);
    assert_eq!(buf[0], 5);
    assert_eq!(buf[1], 3);

    let mut dec = PayloadTunnelCodec;
    let got = dec.decode(&mut buf).unwrap().unwrap();
    assert_eq!(got.ch_id, 5);
    assert_eq!(got.payload.as_ref(), payload.as_ref());
    assert!(buf.is_empty());
}

#[test]
fn payload_tunnel_zero_length_payload() {
    let pf = PayloadTunnelFrame {
        ch_id: 0xFF,
        payload: bytes::Bytes::new(),
    };
    let mut buf = BytesMut::new();
    PayloadTunnelCodec.encode(pf, &mut buf).unwrap();
    assert_eq!(buf.len(), 2); // ch_id + len=0
    assert_eq!(buf[0], 0xFF);
    assert_eq!(buf[1], 0x00);

    let got = PayloadTunnelCodec.decode(&mut buf).unwrap().unwrap();
    assert_eq!(got.ch_id, 0xFF);
    assert!(got.payload.is_empty());
}

#[test]
fn payload_tunnel_returns_none_when_incomplete() {
    // Only ch_id byte present, no length byte yet.
    let mut buf = BytesMut::new();
    buf.put_u8(0x02); // ch_id only
    assert!(PayloadTunnelCodec.decode(&mut buf).unwrap().is_none());
}

#[test]
fn payload_tunnel_returns_none_when_payload_incomplete() {
    let mut buf = BytesMut::new();
    buf.put_u8(0x01); // ch_id
    buf.put_u8(10);   // claims 10 bytes
    buf.extend_from_slice(&[0xAA; 5]); // only 5 bytes present
    assert!(PayloadTunnelCodec.decode(&mut buf).unwrap().is_none());
}

#[test]
fn payload_tunnel_rejects_oversized_payload() {
    let pf = PayloadTunnelFrame {
        ch_id: 0,
        payload: bytes::Bytes::from(vec![0u8; 256]),
    };
    let mut buf = BytesMut::new();
    assert!(PayloadTunnelCodec.encode(pf, &mut buf).is_err());
}

// ── Whole streams ────────────────────────────────────────────────────────────

#[test]
fn framer_takes_all_frames_across_chunks() {
    let a = make_frame(&[1]);
    let b = make_frame(&[2, 3]);
    let mut stream = vec![0x00, 0x11, MESSAGE_VALUE_SYNC];
    stream.extend_from_slice(&a);
    stream.extend_from_slice(&b);
    stream.push(9); // start of a third frame
    for cut in 0..stream.len() {
        let mut codec = KlipperFramer::new();
        let mut src = BytesMut::new();
        src.extend_from_slice(&stream[..cut]);
        let mut got = codec.decode_all(&mut src);
        src.extend_from_slice(&stream[cut..]);
        got.extend(codec.decode_all(&mut src));
        assert_eq!(got.len(), 2);
        assert_eq!(got[0].as_ref(), a.as_slice());
        assert_eq!(got[1].as_ref(), b.as_slice());
        assert_eq!(src.as_ref(), &[9]);
    }
}

#[test]
fn framer_resyncs_on_bad_trailer() {
    let mut bad = make_frame(&[1, 2]);
    let last = bad.len() - 1;
    bad[last] = 0x00;
    let good = make_frame(&[3]);
    let mut src = BytesMut::new();
    src.extend_from_slice(&[MESSAGE_VALUE_SYNC]);
    src.extend_from_slice(&bad);
    src.extend_from_slice(&[MESSAGE_VALUE_SYNC]);
    src.extend_from_slice(&good);
    let mut codec = KlipperFramer::new();
    let got = codec.decode_all(&mut src);
    assert_eq!(got.len(), 1);
    assert_eq!(got[0].as_ref(), good.as_slice());
}

#[test]
fn framer_drops_unsynced_noise() {
    let mut src = BytesMut::new();
    src.extend_from_slice(&[1, 2, 3, 4, 5, 6, 7]);
    let mut codec = KlipperFramer::default();
    assert!(codec.decode(&mut src).unwrap().is_none());
    assert!(src.is_empty());
}

#[test]
fn tunnel_skips_bad_sync_byte() {
    let bad = [5, 0x80, 0x00, 0x00, 0x00]; // the sync byte is missing
    let good = make_frame(&[0x7F, 0x7F]);
    let mut buf = BytesMut::new();
    buf.put_u8(4);
    buf.extend_from_slice(&bad);
    buf.put_u8(1);
    buf.extend_from_slice(&good);
    let frames = TunnelCodec.decode_all(&mut buf);
    assert_eq!(frames.len(), 1);
    assert_eq!(frames[0].ch_id, 1);
    assert_eq!(frames[0].frame.as_ref(), good.as_slice());
}

#[test]
fn tunnel_adds_one_byte() {
    let frame = make_frame(&[0x01, 0x02, 0x03]);
    let mut buf = BytesMut::new();
    TunnelCodec
        .encode(
            TunnelFrame { ch_id: 200, frame: bytes::Bytes::copy_from_slice(&frame) },
            &mut buf,
        )
        .unwrap();
    assert_eq!(buf.len(), frame.len() + 1);
    assert_eq!(buf[0], 200);
    assert_eq!(&buf[1..], frame.as_slice());
}

#[test]
fn payload_tunnel_streams_and_limits() {
    let mut buf = BytesMut::new();
    for n in [0usize, 1, 255] {
        PayloadTunnelCodec
            .encode(
                PayloadTunnelFrame { ch_id: n as u8, payload: bytes::Bytes::from(vec![7u8; n]) },
                &mut buf,
            )
            .unwrap();
    }
    let before = buf.len();
    let err = PayloadTunnelCodec
        .encode(
            PayloadTunnelFrame { ch_id: 1, payload: bytes::Bytes::from(vec![0u8; 300]) },
            &mut buf,
        )
        .unwrap_err();
    assert_eq!(err.message(), "smart-proxy payload 300 bytes exceeds 255-byte limit");
    assert_eq!(buf.len(), before);
    let frames = PayloadTunnelCodec.decode_all(&mut buf);
    assert_eq!(frames.len(), 3);
    assert_eq!(frames[0].payload.len(), 0);
    assert_eq!(frames[1].payload.as_ref(), &[7]);
    assert_eq!(frames[2].payload.as_ref(), vec![7u8; 255].as_slice());
    assert!(buf.is_empty());
}
