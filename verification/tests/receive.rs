//! Tests of the receive-buffer manager: incremental parsing, buffer
//! compaction, growth, and the buffer-too-small path.

use miniqtt::client::{Client, Connection, PollOutcome};
use miniqtt::protocol::qos::QoS;
use miniqtt::protocol::v5::RetainHandling;

fn hex(s: &str) -> Vec<u8> {
    let mut out = Vec::new();
    let mut nibbles = Vec::new();
    for c in s.chars() {
        if let Some(d) = c.to_digit(16) {
            nibbles.push(d as u8);
        }
    }
    for pair in nibbles.chunks(2) {
        out.push(pair[0] * 16 + pair[1]);
    }
    out
}

/// A ten-byte PUBLISH: topic "top", payload "ab".
fn small_publish() -> Vec<u8> {
    hex("30 08 00 03 74 6f 70 00 61 62")
}

/// Drives one receive to completion, feeding from `wire` as the
/// connection asks, at most `chunk` bytes at a time. Returns the
/// packet, or panics on any other terminal outcome.
fn receive_publish(
    conn: &mut Connection,
    wire: &[u8],
    fed: &mut usize,
    chunk: usize,
) -> miniqtt::protocol::v5::Publish {
    conn.begin_receive();
    loop {
        match conn.poll_publish() {
            PollOutcome::Received(p) => return p,
            PollOutcome::NeedRead => {
                let free = conn.free_len();
                let take = chunk.min(free).min(wire.len() - *fed);
                assert!(take > 0, "the connection asked for bytes but none are left");
                conn.fill(&wire[*fed..*fed + take]);
                *fed += take;
            }
            PollOutcome::Protocol => panic!("protocol error"),
            PollOutcome::InsufficientBufferSize => panic!("buffer too small"),
        }
    }
}

#[test]
fn incremental_feed_one_byte_at_a_time() {
    let wire = small_publish();
    let mut conn = Connection::new(vec![0; 32], false);
    let mut fed = 0;
    let publish = receive_publish(&mut conn, &wire, &mut fed, 1);
    assert_eq!(fed, wire.len());
    assert_eq!(publish.topic.as_bytes(), &b"top".to_vec());
    assert_eq!(publish.payload, b"ab".to_vec());
}

#[test]
fn cancelled_receive_resumes_cleanly() {
    // Feed a ten-byte packet in chunks of four and six bytes, dropping
    // the first pending receive after the first chunk; a second
    // receive must complete and produce the same packet.
    let wire = small_publish();
    let mut conn = Connection::new(vec![0; 32], false);

    // First receive: gets four bytes, then is abandoned.
    conn.begin_receive();
    assert!(matches!(conn.poll_publish(), PollOutcome::NeedRead));
    conn.fill(&wire[..4]);
    assert!(matches!(conn.poll_publish(), PollOutcome::NeedRead));
    // The future is dropped here; no state is lost.

    // Second receive: gets the remaining six bytes and completes.
    conn.begin_receive();
    assert!(matches!(conn.poll_publish(), PollOutcome::NeedRead));
    conn.fill(&wire[4..]);
    match conn.poll_publish() {
        PollOutcome::Received(p) => {
            assert_eq!(p.topic.as_bytes(), &b"top".to_vec());
            assert_eq!(p.payload, b"ab".to_vec());
        }
        _ => panic!("the resumed receive did not produce the packet"),
    }
}

#[test]
fn back_to_back_packets_compact_between_receives() {
    // Two packets arrive in one read; the second is parsed, from
    // offset 0, after the first is reclaimed.
    let first = small_publish();
    let second = hex("30 09 00 04 74 6f 70 32 00 78 79");
    let mut wire = first.clone();
    wire.extend_from_slice(&second);

    let mut conn = Connection::new(vec![0; 64], false);
    conn.begin_receive();
    assert!(matches!(conn.poll_publish(), PollOutcome::NeedRead));
    conn.fill(&wire);
    let p1 = match conn.poll_publish() {
        PollOutcome::Received(p) => p,
        _ => panic!("first packet not parsed"),
    };
    assert_eq!(p1.topic.as_bytes(), &b"top".to_vec());

    // The second receive compacts and parses without further reads.
    conn.begin_receive();
    let p2 = match conn.poll_publish() {
        PollOutcome::Received(p) => p,
        _ => panic!("second packet not parsed after compaction"),
    };
    assert_eq!(p2.topic.as_bytes(), &b"top2".to_vec());
    assert_eq!(p2.payload, b"xy".to_vec());
}

#[test]
fn buffer_too_small_is_reported() {
    // An eight-byte buffer cannot hold a twenty-two-byte PUBLISH; the
    // receive reports the failure instead of panicking or spinning.
    let wire = hex("30 14 00 05 74 6f 70 69 63 00 68 65 6c 6c 6f 77 6f 72 6c 64 31 32");
    assert_eq!(wire.len(), 22);
    let mut conn = Connection::new(vec![0; 8], false);
    conn.begin_receive();
    let mut fed = 0;
    let outcome = loop {
        match conn.poll_publish() {
            PollOutcome::Received(_) => panic!("the packet cannot fit"),
            PollOutcome::NeedRead => {
                let free = conn.free_len();
                let take = free.min(wire.len() - fed);
                assert!(take > 0);
                conn.fill(&wire[fed..fed + take]);
                fed += take;
            }
            other => break other,
        }
    };
    assert!(matches!(outcome, PollOutcome::InsufficientBufferSize));
}

#[test]
fn growable_buffer_grows_to_fit() {
    let wire = hex("30 14 00 05 74 6f 70 69 63 00 68 65 6c 6c 6f 77 6f 72 6c 64 31 32");
    let mut conn = Connection::new(vec![0; 4], true);
    let mut fed = 0;
    let publish = receive_publish(&mut conn, &wire, &mut fed, 64);
    assert_eq!(publish.topic.as_bytes(), &b"topic".to_vec());
    assert_eq!(publish.payload, b"helloworld12".to_vec());
}

#[test]
fn connack_receive_via_connection() {
    let wire = hex("20 09 00 00 06 22 00 0a 21 00 14");
    let mut conn = Connection::new(vec![0; 32], false);
    conn.begin_receive();
    assert!(matches!(conn.poll_connack(), PollOutcome::NeedRead));
    conn.fill(&wire);
    match conn.poll_connack() {
        PollOutcome::Received(ack) => {
            assert!(ack.successful());
            assert!(!ack.session_present());
        }
        _ => panic!("CONNACK not parsed"),
    }
}

#[test]
fn malformed_connack_reports_protocol() {
    let wire = hex("20 03 00 8b 00");
    let mut conn = Connection::new(vec![0; 32], false);
    conn.begin_receive();
    conn.fill(&wire);
    assert!(matches!(conn.poll_connack(), PollOutcome::Protocol));
}

#[test]
fn suback_receive_via_connection() {
    // SUBACK: identifier 20000, empty properties, one reason code 0.
    let wire = hex("90 04 4e 20 00 00");
    let mut conn = Connection::new(vec![0; 32], false);
    conn.begin_receive();
    conn.fill(&wire);
    assert!(matches!(conn.poll_suback(), PollOutcome::Received(_)));
}

#[test]
fn client_identifier_allocation() {
    let mut client = Client::new(Connection::new(vec![0; 16], false));
    assert_eq!(client.next_identifier(), 20_000);
    assert_eq!(client.next_identifier(), 20_001);
    let request = client.subscribe_request(
        miniqtt::protocol::types::EncodedStr::from_str("news").unwrap(),
    );
    assert_eq!(request.identifier, 20_002);
    assert_eq!(request.topics.len(), 1);
    assert_eq!(request.topics[0].qos, QoS::AtMostOnce);
    assert!(!request.topics[0].no_local);
    assert!(!request.topics[0].retain_as_published);
    assert_eq!(request.topics[0].retain, RetainHandling::SendRetained);
}
