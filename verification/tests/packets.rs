//! Tests of the packet codecs against the exact wire bytes.

use miniqtt::client::Connect;
use miniqtt::protocol::types::{BinaryData, EncodedStr};
use miniqtt::protocol::v5::connect::{ConnAck, ConnAckReason, ConnectProperty, Will, WillProperty};
use miniqtt::protocol::v5::Properties;
use miniqtt::protocol::v5::publish::Publish;
use miniqtt::protocol::v5::{Disconnect, Subscribe, TopicFilter, RetainHandling};
use miniqtt::protocol::qos::QoS;
use miniqtt::protocol::ParseError;

fn hex(s: &str) -> Vec<u8> {
    let mut out = Vec::new();
    let mut nibbles = Vec::new();
    for c in s.chars() {
        if let Some(d) = c.to_digit(16) {
            nibbles.push(d as u8);
        }
    }
    for pair in nibbles.chunks(2) {
        out.push(pair[0] * 16 + pair[1]);
    }
    out
}

fn estr(s: &str) -> EncodedStr {
    EncodedStr::from_str(s).unwrap()
}

#[test]
fn connect_with_credentials_and_keep_alive() {
    let request = Connect::new(estr("miniqtt"))
        .with_username(Some(estr("aaa")))
        .with_password(Some(estr("bbb")))
        .keep_alive(0x42);

    let bytes = request.packet.to_bytes().unwrap();
    assert_eq!(
        bytes,
        hex("10 1e 00 04 4d 51 54 54 05 c2 00 42 00 00 07 6d 69 6e 69 71 74 74 00 03 61 61 61 00 03 62 62 62")
    );
}

#[test]
fn connack_success_with_properties() {
    let bytes = hex("20 09 00 00 06 22 00 0a 21 00 14");
    let (used, ack) = ConnAck::parse(&bytes).unwrap();
    assert_eq!(used, 11);
    assert!(ack.successful());
    assert!(!ack.session_present());
}

#[test]
fn connack_not_authorized() {
    let bytes = hex("20 03 00 87 00");
    let (used, ack) = ConnAck::parse(&bytes).unwrap();
    assert_eq!(used, 5);
    assert!(!ack.successful());
    assert_eq!(ack.reason, ConnAckReason::NotAuthorized);
}

#[test]
fn connack_session_present_bit() {
    let bytes = hex("20 03 01 00 00");
    let (_, ack) = ConnAck::parse(&bytes).unwrap();
    assert!(ack.successful());
    assert!(ack.session_present());
}

#[test]
fn connack_unknown_reason_is_protocol_error() {
    // 0x8B is not one of the documented reason codes.
    let bytes = hex("20 03 00 8b 00");
    assert!(matches!(ConnAck::parse(&bytes), Err(ParseError::Error(_))));
}

#[test]
fn connack_reason_codes_round_trip() {
    let mut documented = 0;
    for b in 0..=255u8 {
        match ConnAckReason::from_byte(b) {
            Some(reason) => {
                assert_eq!(reason.code(), b);
                documented += 1;
            }
            None => {}
        }
    }
    assert_eq!(documented, 22);
}

#[test]
fn connect_resume_session_with_expiry() {
    let request = Connect::new(estr("miniqtt"))
        .resume_session(true)
        .with_properties(vec![ConnectProperty::SessionExpiryInterval(99)]);

    // clean_start is off, and the property block carries identifier
    // 0x11 with the four-byte interval.
    let bytes = request.packet.to_bytes().unwrap();
    assert_eq!(
        bytes,
        hex("10 19 00 04 4d 51 54 54 05 00 00 00 05 11 00 00 00 63 00 07 6d 69 6e 69 71 74 74")
    );
}

#[test]
fn publish_qos0_decode() {
    let bytes = hex("30 0d 00 05 74 6f 70 69 63 00 68 65 6c 6c 6f");
    let (used, publish) = Publish::parse(&bytes).unwrap();
    assert_eq!(used, 15);
    assert_eq!(publish.topic.as_bytes(), &b"topic".to_vec());
    assert_eq!(publish.payload, b"hello".to_vec());
    assert_eq!(publish.qos, QoS::AtMostOnce);
    assert!(!publish.dup);
    assert!(!publish.retain);
    assert_eq!(publish.identifier, None);
}

#[test]
fn publish_qos0_encode_matches_decode() {
    let publish = Publish {
        dup: false,
        qos: QoS::AtMostOnce,
        retain: false,
        identifier: None,
        topic: estr("topic"),
        payload: b"hello".to_vec(),
    };
    let bytes = publish.to_bytes().unwrap();
    assert_eq!(bytes, hex("30 0d 00 05 74 6f 70 69 63 00 68 65 6c 6c 6f"));

    let (used, back) = Publish::parse(&bytes).unwrap();
    assert_eq!(used, bytes.len());
    assert_eq!(back.topic.as_bytes(), publish.topic.as_bytes());
    assert_eq!(back.payload, publish.payload);
    assert_eq!(back.qos, publish.qos);
    assert_eq!(back.identifier, None);
}

#[test]
fn publish_qos1_round_trip() {
    let publish = Publish {
        dup: true,
        qos: QoS::AtLeastOnce,
        retain: true,
        identifier: Some(0x1234),
        topic: estr("a/b"),
        payload: vec![1, 2, 3],
    };
    let bytes = publish.to_bytes().unwrap();
    // Flags: dup<<3 | qos<<1 | retain = 0b1011.
    assert_eq!(bytes[0], 0x3b);
    let (used, back) = Publish::parse(&bytes).unwrap();
    assert_eq!(used, bytes.len());
    assert_eq!(back.dup, true);
    assert_eq!(back.retain, true);
    assert_eq!(back.qos, QoS::AtLeastOnce);
    assert_eq!(back.identifier, Some(0x1234));
    assert_eq!(back.topic.as_bytes(), &b"a/b".to_vec());
    assert_eq!(back.payload, vec![1, 2, 3]);
}

#[test]
fn publish_qos3_flags_are_protocol_error() {
    // Flags 0b0110 carry QoS 3.
    let bytes = hex("36 0d 00 05 74 6f 70 69 63 00 68 65 6c 6c 6f");
    assert!(matches!(Publish::parse(&bytes), Err(ParseError::Error(_))));
    // The error surfaces as soon as the fixed header is readable,
    // before the body has arrived.
    assert!(matches!(
        Publish::parse(&hex("36 0d 00 05")),
        Err(ParseError::Error(_))
    ));
}

#[test]
fn publish_wrong_type_is_error() {
    let bytes = hex("20 03 00 00 00");
    assert!(matches!(Publish::parse(&bytes), Err(ParseError::Error(_))));
}

#[test]
fn subscribe_wire_form() {
    let subscribe = Subscribe {
        identifier: 20_000,
        topics: vec![TopicFilter {
            name: estr("a/b"),
            qos: QoS::AtMostOnce,
            no_local: false,
            retain_as_published: false,
            retain: RetainHandling::SendRetained,
        }],
    };
    let bytes = subscribe.to_bytes().unwrap();
    assert_eq!(bytes, hex("82 09 4e 20 00 00 03 61 2f 62 00"));
}

#[test]
fn subscribe_options_byte() {
    let subscribe = Subscribe {
        identifier: 1,
        topics: vec![TopicFilter {
            name: estr("t"),
            qos: QoS::AtLeastOnce,
            no_local: true,
            retain_as_published: true,
            retain: RetainHandling::DoNotSendRetained,
        }],
    };
    let bytes = subscribe.to_bytes().unwrap();
    // Options: retain_handling<<4 | rap<<3 | no_local<<2 | qos.
    assert_eq!(*bytes.last().unwrap(), 0x2d);
}

#[test]
fn disconnect_wire_form() {
    let bytes = Disconnect {}.to_bytes();
    assert_eq!(bytes, hex("e0 01 04"));
}

#[test]
fn connect_with_will() {
    let will = Will {
        retain: true,
        qos: QoS::AtLeastOnce,
        properties: vec![WillProperty::WillDelay(5)],
        topic: estr("w"),
        payload: BinaryData::new(b"x".to_vec()).unwrap(),
    };
    let mut request = Connect::new(estr("c"));
    request.packet.will = Some(will);
    let bytes = request.packet.to_bytes().unwrap();
    // Flags: will retain | will QoS 1 | will present | clean start.
    assert_eq!(
        bytes,
        hex("10 1a 00 04 4d 51 54 54 05 2e 00 00 00 00 01 63 05 18 00 00 00 05 00 01 77 00 01 78")
    );
}

#[test]
fn connect_property_wire_forms() {
    let props = vec![
        ConnectProperty::UserProperty { key: estr("k"), value: estr("v") },
        ConnectProperty::AuthenticationMethod(estr("m")),
        ConnectProperty::AuthenticationData(BinaryData::new(vec![9]).unwrap()),
        ConnectProperty::ReceiveMaximum(0x1234),
        ConnectProperty::RequestProblemInformation(true),
    ];
    let mut out: Vec<u8> = Vec::new();
    Properties(&props).write_to(&mut out).unwrap();
    assert_eq!(
        out,
        hex("14 26 00 01 6b 00 01 76 15 00 01 6d 16 00 01 09 21 12 34 17 01")
    );
}
