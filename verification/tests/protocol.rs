//! Frames, the streaming parser, and the TX queue.

use serialmux::protocol::endian::{push_le16, push_le32, read_le32};
use serialmux::protocol::frame::{assemble_frame, payload_checksum, trailer_fits, CRC_POLYNOMIAL};
use serialmux::protocol::tx_queue::TXQ_LIMIT;
use serialmux::protocol::{
    build_frame, Frame, FrameParser, TxQueue, CRC_SIZE, F_ACK, F_DATA, F_HELLO, F_PING, F_TDATA,
    HDR_SIZE, LINK_HIGH_WATER, LINK_LOW_WATER, LINK_TXBUF_SIZE, MAX_FRAME, MAX_PAYLOAD,
    PARSER_BUF_CAP,
};
use serialmux::serial::WriteOutcome;

fn same(f: &Frame, ftype: u8, channel: u8, payload: &[u8]) -> bool {
    f.ftype == ftype && f.channel == channel && f.payload == payload
}

#[test]
fn sizes_are_as_documented() {
    assert_eq!(MAX_PAYLOAD, 16384);
    assert_eq!(MAX_FRAME, 16394);
    assert_eq!(PARSER_BUF_CAP, 16458);
    assert_eq!(LINK_HIGH_WATER, 524288);
    assert_eq!(LINK_LOW_WATER, 262144);
    assert_eq!(LINK_TXBUF_SIZE, 540746);
    assert_eq!(TXQ_LIMIT, 540745);
    assert_eq!(HDR_SIZE + CRC_SIZE, 10);
}

#[test]
fn little_endian_numbers() {
    let mut out = Vec::new();
    push_le16(&mut out, 0x1234);
    push_le16(&mut out, 0x1_0002);
    push_le32(&mut out, 0xDEAD_BEEF);
    assert_eq!(out, vec![0x34, 0x12, 0x02, 0x00, 0xEF, 0xBE, 0xAD, 0xDE]);
    assert_eq!(read_le32(0xEF, 0xBE, 0xAD, 0xDE), 0xDEAD_BEEF);
}

#[test]
fn frame_of_known_bytes() {
    // The CRC-32 of "123456789" is 0xCBF43926.
    assert_eq!(payload_checksum(b"123456789"), 0xCBF4_3926);
    let f = build_frame(F_DATA, 7, b"123456789");
    assert_eq!(
        f,
        vec![
            0xAA, 0x55, 0x01, 0x07, 0x09, 0x00, b'1', b'2', b'3', b'4', b'5', b'6', b'7', b'8',
            b'9', 0x26, 0x39, 0xF4, 0xCB,
        ]
    );
    assert_eq!(f, assemble_frame(F_DATA, 7, b"123456789", 0xCBF4_3926));
}

#[test]
fn checksum_is_the_complement_of_the_shifted_register() {
    let data: Vec<u8> = (0..MAX_PAYLOAD as u32).map(|i| (i * i / 7 + i) as u8).collect();
    let mut register = 0xFFFF_FFFFu32;
    for n in 0..=data.len() {
        if n <= 1100 || n == data.len() {
            assert_eq!(payload_checksum(&data[..n]), !register, "{} bytes", n);
        }
        if n < data.len() {
            register ^= data[n] as u32;
            for _ in 0..8 {
                register = (register >> 1) ^ if register & 1 == 1 { CRC_POLYNOMIAL } else { 0 };
            }
        }
    }
}

#[test]
fn frames_come_in_stream_order() {
    let mut stream = vec![1, 2, 0xAA];
    for i in 0..5u8 {
        stream.extend_from_slice(&build_frame(F_DATA, i, &[i; 3]));
        stream.extend_from_slice(&[0x55, i]);
    }
    let frames = FrameParser::new().feed(&stream);
    assert_eq!(frames.iter().map(|f| f.channel).collect::<Vec<u8>>(), vec![0, 1, 2, 3, 4]);
}

#[test]
fn empty_payload_has_zero_checksum() {
    assert_eq!(payload_checksum(b""), 0);
    let f = build_frame(F_HELLO, 0, b"");
    assert_eq!(f, vec![0xAA, 0x55, 0x05, 0x00, 0, 0, 0, 0, 0, 0]);
}

#[test]
fn trailer_is_compared_byte_by_byte() {
    assert!(trailer_fits(0x26, 0x39, 0xF4, 0xCB, 0xCBF4_3926));
    assert!(!trailer_fits(0x26, 0x39, 0xF4, 0xCA, 0xCBF4_3926));
    assert!(!trailer_fits(0xCB, 0xF4, 0x39, 0x26, 0xCBF4_3926));
}

#[test]
fn built_frames_are_parsed_in_order() {
    let mut stream = build_frame(F_DATA, 1, &[1, 2, 3]);
    stream.extend_from_slice(&build_frame(F_PING, 0, b""));
    stream.extend_from_slice(&build_frame(F_TDATA, 2, &[0, 0, 9]));
    let mut p = FrameParser::new();
    let frames = p.feed(&stream);
    assert_eq!(frames.len(), 3);
    assert!(same(&frames[0], F_DATA, 1, &[1, 2, 3]));
    assert!(same(&frames[1], F_PING, 0, &[]));
    assert!(same(&frames[2], F_TDATA, 2, &[0, 0, 9]));
}

#[test]
fn chunking_does_not_matter() {
    let mut stream = vec![0x00, 0xAA, 0x13];
    stream.extend_from_slice(&build_frame(F_DATA, 1, &[0xAA, 0x55, 0x01]));
    stream.extend_from_slice(&[0xAA]);
    stream.extend_from_slice(&build_frame(F_ACK, 0, b""));
    let mut whole = FrameParser::new();
    let expected = whole.feed(&stream);
    assert_eq!(expected.len(), 2);
    for cut in 1..stream.len() {
        let mut p = FrameParser::default();
        let mut got = p.feed(&stream[..cut]);
        got.extend(p.feed(&stream[cut..]));
        assert_eq!(got.len(), 2);
        for (a, b) in got.iter().zip(expected.iter()) {
            assert!(same(a, b.ftype, b.channel, &b.payload));
        }
    }
    let mut bytewise = FrameParser::new();
    let mut n = 0;
    for b in &stream {
        n += bytewise.feed(&[*b]).len();
    }
    assert_eq!(n, 2);
}

#[test]
fn noise_before_a_frame_is_skipped() {
    let mut stream = vec![0x13, 0x55, 0xAA, 0x00, 0xAA];
    stream.extend_from_slice(&build_frame(F_DATA, 3, b"x"));
    let mut p = FrameParser::new();
    let frames = p.feed(&stream);
    assert_eq!(frames.len(), 1);
    assert!(same(&frames[0], F_DATA, 3, b"x"));
}

#[test]
fn bad_checksum_is_skipped_and_the_next_frame_found() {
    let mut bad = build_frame(F_DATA, 1, &[1, 2, 3]);
    let last = bad.len() - 1;
    bad[last] ^= 1;
    bad.extend_from_slice(&build_frame(F_DATA, 2, &[4]));
    let mut p = FrameParser::new();
    let frames = p.feed(&bad);
    assert_eq!(frames.len(), 1);
    assert!(same(&frames[0], F_DATA, 2, &[4]));
}

#[test]
fn bad_length_is_skipped_and_the_next_frame_found() {
    let mut bad = vec![0xAA, 0x55, F_DATA, 1, 0x01, 0x40];
    bad.extend_from_slice(&build_frame(F_DATA, 2, &[4]));
    let mut p = FrameParser::new();
    let frames = p.feed(&bad);
    assert_eq!(frames.len(), 1);
    assert!(same(&frames[0], F_DATA, 2, &[4]));
}

#[test]
fn maximal_frames_pass_the_fixed_buffer() {
    let payload = vec![0x5A; MAX_PAYLOAD];
    let mut stream = Vec::new();
    for ch in 0..5u8 {
        stream.extend_from_slice(&build_frame(F_DATA, ch, &payload));
    }
    let mut p = FrameParser::new();
    let frames = p.feed(&stream);
    assert_eq!(frames.len(), 5);
    for (i, f) in frames.iter().enumerate() {
        assert!(same(f, F_DATA, i as u8, &payload));
    }
}

#[test]
fn reset_forgets_a_partial_frame() {
    let f = build_frame(F_DATA, 1, &[1, 2, 3]);
    let mut p = FrameParser::new();
    assert!(p.feed(&f[..7]).is_empty());
    p.reset();
    assert!(p.feed(&f[7..]).is_empty());
    assert_eq!(p.feed(&f).len(), 1);
}

#[test]
fn queue_is_first_in_first_out() {
    let mut q = TxQueue::new();
    assert!(q.is_empty());
    assert_eq!(q.used(), 0);
    q.enqueue(&[]);
    assert!(q.is_empty());
    q.enqueue(&[1, 2, 3]);
    q.enqueue(&[4, 5]);
    assert_eq!(q.used(), 5);
    assert_eq!(q.segment(), &[1, 2, 3, 4, 5]);
    assert_eq!(q.drain_to_fd(WriteOutcome::Written(2)), Ok(false));
    assert_eq!(q.segment(), &[3, 4, 5]);
    assert_eq!(q.drain_to_fd(WriteOutcome::WouldBlock), Ok(false));
    assert_eq!(q.drain_to_fd(WriteOutcome::Failed(5)), Err(5));
    assert_eq!(q.used(), 3);
    assert_eq!(q.drain_to_fd(WriteOutcome::Written(3)), Ok(true));
    assert_eq!(q.drain_to_fd(WriteOutcome::Failed(5)), Ok(true));
    assert!(q.is_empty());
}

#[test]
fn queue_wraps_around() {
    let mut q = TxQueue::default();
    let chunk = vec![7u8; 400_000];
    q.enqueue(&chunk);
    assert_eq!(q.drain_to_fd(WriteOutcome::Written(400_000)), Ok(true));
    let data: Vec<u8> = (0..300_000u32).map(|i| (i % 251) as u8).collect();
    q.enqueue(&data);
    assert_eq!(q.used(), 300_000);
    let first = q.segment().to_vec();
    assert_eq!(first.len(), LINK_TXBUF_SIZE - 400_000);
    assert_eq!(q.drain_to_fd(WriteOutcome::Written(first.len())), Ok(false));
    let mut all = first;
    all.extend_from_slice(q.segment());
    assert_eq!(all, data);
}

#[test]
fn whole_queue_is_offered_unless_the_ring_wraps() {
    let mut q = TxQueue::new();
    q.enqueue(&vec![7u8; 500_000]);
    assert_eq!(q.segment().len(), 500_000);
    assert_eq!(q.drain_to_fd(WriteOutcome::Written(500_000)), Ok(true));
    // Up to the last place of the ring, and one byte more.
    let room = LINK_TXBUF_SIZE - 500_000;
    q.enqueue(&vec![8u8; room]);
    assert_eq!(q.segment().len(), room);
    q.enqueue(&[9]);
    assert_eq!(q.segment().len(), room);
    assert_eq!(q.used(), room + 1);
    assert_eq!(q.drain_to_fd(WriteOutcome::Written(room)), Ok(false));
    assert_eq!(q.segment(), &[9]);
}

#[test]
fn queue_drops_what_does_not_fit_whole() {
    let mut q = TxQueue::new();
    q.enqueue(&vec![1u8; TXQ_LIMIT - 1]);
    q.enqueue(&[2, 3]);
    assert_eq!(q.used(), TXQ_LIMIT - 1);
    q.enqueue(&[2]);
    assert_eq!(q.used(), TXQ_LIMIT);
    q.enqueue(&[4]);
    assert_eq!(q.used(), TXQ_LIMIT);
    q.reset();
    assert!(q.is_empty());
}

#[test]
fn maximal_frame_fits_at_high_water() {
    let mut q = TxQueue::new();
    q.enqueue(&vec![0u8; LINK_HIGH_WATER]);
    let f = build_frame(F_DATA, 0, &vec![0u8; MAX_PAYLOAD]);
    q.enqueue(&f);
    assert_eq!(q.used(), LINK_HIGH_WATER + MAX_FRAME);
}
