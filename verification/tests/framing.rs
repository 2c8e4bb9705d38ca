//! Frame layer behaviour: round trips under every combination of
//! compression and encryption, partial reads, and malformed input.

use netgate::framer::{Framer, RecvStep};

fn expect_frame(step: RecvStep) -> (u32, Vec<u8>) {
    match step {
        RecvStep::Frame(f) => (f.id, f.body),
        RecvStep::More => panic!("expected a frame, got More"),
        RecvStep::Bad => panic!("expected a frame, got Bad"),
    }
}

fn round_trip(comp: bool, enc: bool, body: &[u8]) {
    let key = [7u8; 16];
    let mut tx = Framer::new();
    let mut rx = Framer::new();
    if enc {
        tx.enable_encryption(&key);
        rx.enable_encryption(&key);
    }
    if comp {
        tx.set_compression(16);
        rx.set_compression(16);
    }
    tx.send_frame(0x2a, body);
    let wire = tx.take_outgoing();
    if enc {
        // a cipher that handed bytes back unchanged would fail here
        assert_ne!(wire.as_slice(), body);
    }
    rx.feed(wire.as_slice());
    let (id, got) = expect_frame(rx.try_next());
    assert_eq!(id, 0x2a);
    assert_eq!(got.as_slice(), body);
}

#[test]
fn frame_round_trip_plain() {
    round_trip(false, false, b"hello frame");
}

#[test]
fn frame_round_trip_compressed() {
    let body = vec![3u8; 4000];
    round_trip(true, false, body.as_slice());
}

#[test]
fn frame_round_trip_encrypted() {
    round_trip(false, true, b"hello frame");
}

#[test]
fn frame_round_trip_compressed_encrypted() {
    let body = vec![9u8; 4000];
    round_trip(true, true, body.as_slice());
}

#[test]
fn frame_round_trip_below_threshold_in_compressed_mode() {
    // small frames stay in the clear but keep the size marker
    round_trip(true, false, b"tiny");
}

#[test]
fn compression_shrinks_a_compressible_frame() {
    let body = vec![0u8; 4000];
    let mut tx = Framer::new();
    tx.set_compression(16);
    tx.send_frame(1, body.as_slice());
    let wire = tx.take_outgoing();
    assert!(wire.len() < body.len());
}

#[test]
fn partial_reads_yield_exactly_one_frame() {
    let mut tx = Framer::new();
    tx.send_frame(5, b"split across reads");
    let wire = tx.take_outgoing();
    let mut rx = Framer::new();
    let third = wire.len() / 3;
    rx.feed(&wire[..third]);
    assert!(matches!(rx.try_next(), RecvStep::More));
    rx.feed(&wire[third..2 * third]);
    assert!(matches!(rx.try_next(), RecvStep::More));
    rx.feed(&wire[2 * third..]);
    let (id, body) = expect_frame(rx.try_next());
    assert_eq!(id, 5);
    assert_eq!(body.as_slice(), b"split across reads");
    assert!(matches!(rx.try_next(), RecvStep::More));
}

#[test]
fn two_frames_in_one_read() {
    let mut tx = Framer::new();
    tx.send_frame(1, b"first");
    tx.send_frame(2, b"second");
    let wire = tx.take_outgoing();
    let mut rx = Framer::new();
    rx.feed(wire.as_slice());
    let (id1, b1) = expect_frame(rx.try_next());
    let (id2, b2) = expect_frame(rx.try_next());
    assert_eq!((id1, b1.as_slice()), (1, b"first".as_slice()));
    assert_eq!((id2, b2.as_slice()), (2, b"second".as_slice()));
    assert!(matches!(rx.try_next(), RecvStep::More));
}

#[test]
fn overlong_length_prefix_is_rejected() {
    let mut rx = Framer::new();
    rx.feed(&[0xff, 0xff, 0xff, 0xff, 0xff]);
    assert!(matches!(rx.try_next(), RecvStep::Bad));
}

#[test]
fn oversized_frame_is_rejected() {
    let mut rx = Framer::new();
    // length prefix declaring 0x400_0000 bytes, far past the cap
    rx.feed(&[0x80, 0x80, 0x80, 0x20]);
    assert!(matches!(rx.try_next(), RecvStep::Bad));
}

#[test]
fn empty_buffer_asks_for_more() {
    let mut rx = Framer::new();
    assert!(matches!(rx.try_next(), RecvStep::More));
}

#[test]
fn varint_encode_parse_round_trip() {
    for v in [0u32, 1, 127, 128, 300, 0xffff, 0x0fff_ffff, u32::MAX] {
        let mut out: Vec<u8> = Vec::new();
        netgate::wire::write_varint(v, &mut out);
        let got = netgate::wire::read_varint(out.as_slice(), 0);
        assert_eq!(got, Some((v, out.len())));
    }
}

#[test]
fn varint_known_encodings() {
    let cases: [(u32, &[u8]); 5] = [
        (0, &[0x00]),
        (127, &[0x7f]),
        (128, &[0x80, 0x01]),
        (300, &[0xac, 0x02]),
        (2097151, &[0xff, 0xff, 0x7f]),
    ];
    for (v, expect) in cases {
        let mut out: Vec<u8> = Vec::new();
        netgate::wire::write_varint(v, &mut out);
        assert_eq!(out.as_slice(), expect, "encoding of {v}");
    }
}

#[test]
fn plain_frame_has_the_documented_layout() {
    let mut tx = netgate::framer::Framer::new();
    tx.send_frame(0x00, &[0x2a, 0x2b]);
    // length 3, id 0, two body bytes
    assert_eq!(tx.take_outgoing(), vec![0x03, 0x00, 0x2a, 0x2b]);
}
