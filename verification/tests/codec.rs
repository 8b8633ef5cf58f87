//! Tests of the primitive codecs: QoS, variable byte integers, and
//! length-prefixed strings.

use miniqtt::protocol::qos::QoS;
use miniqtt::protocol::types::{BinaryData, EncodedStr, FixedHeader, VariableByteInteger};
use miniqtt::protocol::{PacketError, ParseError};
use miniqtt::utils::Cursor;

#[test]
fn test_qos_convert() {
    assert_eq!(u8::from(QoS::AtMostOnce), 0);
    assert_eq!(QoS::try_from(0).unwrap(), QoS::AtMostOnce);
    assert_eq!(u8::from(QoS::AtLeastOnce), 1);
    assert_eq!(QoS::try_from(1).unwrap(), QoS::AtLeastOnce);
    assert_eq!(u8::from(QoS::ExactlyOnce), 2);
    assert_eq!(QoS::try_from(2).unwrap(), QoS::ExactlyOnce);

    for i in 3..u8::MAX {
        assert!(
            QoS::try_from(i).is_err(),
            "'{i}' should not be convertable to a QoS"
        );
    }
}

fn assert_var_byte_int(value: u32, repr: &[u8]) {
    let encoded = VariableByteInteger::try_from(value).unwrap();
    assert_eq!(encoded.as_slice(), repr);
    assert_eq!(encoded.as_u32(), value);
    assert_eq!(u32::from(encoded), value);
}

#[test]
fn test_var_byte_int() {
    for byte in 0..128u32 {
        assert_var_byte_int(byte, &[byte as u8]);
    }

    assert_var_byte_int(128, &[0x80, 0x01]);
    assert_var_byte_int(16383, &[0xff, 0x7f]);

    assert_var_byte_int(16384, &[0x80, 0x80, 0x01]);
    assert_var_byte_int(2097151, &[0xff, 0xff, 0x7f]);

    assert_var_byte_int(2097152, &[0x80, 0x80, 0x80, 0x01]);
    assert_var_byte_int(268435455, &[0xff, 0xff, 0xff, 0x7f]);
}

#[test]
fn test_var_byte_int_large() {}

#[test]
fn var_byte_int_parse_edges() {
    let (used, v) = VariableByteInteger::parse(&[0x7f]).unwrap();
    assert_eq!((used, v.as_u32()), (1, 127));

    assert!(matches!(
        VariableByteInteger::parse(&[0x80]),
        Err(ParseError::NotEnoughData)
    ));

    let (used, v) = VariableByteInteger::parse(&[0x80, 0x01]).unwrap();
    assert_eq!((used, v.as_u32()), (2, 128));

    // Parsing stops at the terminating byte; trailing data is untouched.
    let (used, v) = VariableByteInteger::parse(&[0x80, 0x01, 0xff]).unwrap();
    assert_eq!((used, v.as_u32()), (2, 128));

    assert!(matches!(
        VariableByteInteger::parse(&[0xff, 0xff, 0xff, 0xff]),
        Err(ParseError::Error(_))
    ));

    let encoded = VariableByteInteger::try_from(200_000_000u32).unwrap();
    assert_eq!(encoded.as_slice(), &[0x80, 0x84, 0xaf, 0x5f]);
    assert_eq!(encoded.size(), 4);
}

#[test]
fn var_byte_int_overflow_rejected() {
    assert!(VariableByteInteger::try_from(0x0FFF_FFFFu32).is_ok());
    assert!(VariableByteInteger::try_from(0x1000_0000u32).is_err());
}

#[test]
fn var_byte_int_as_u8_as_u16() {
    let a = VariableByteInteger::try_from(127u32).unwrap();
    assert_eq!(a.as_u8(), Some(127));
    let b = VariableByteInteger::try_from(128u32).unwrap();
    assert_eq!(b.as_u8(), None);
    assert_eq!(b.as_u16(), Some(128));
    let c = VariableByteInteger::try_from(16382u32).unwrap();
    assert_eq!(c.as_u16(), Some(16382));
    let d = VariableByteInteger::try_from(16384u32).unwrap();
    assert_eq!(d.as_u16(), None);
    let zero = VariableByteInteger::try_from(0u32).unwrap();
    assert_eq!(zero.size(), 1);
    assert_eq!(zero.as_slice(), &[0x00]);
}

#[test]
fn fixed_header_round_trip() {
    let header = FixedHeader::new(3, 0b1011, 300);
    assert_eq!(header.ty(), 3);
    assert_eq!(header.flags(), 0b1011);
    assert_eq!(header.length().as_u32(), 300);

    let mut out: Vec<u8> = Vec::new();
    header.write_to(&mut out);
    assert_eq!(out, vec![0x3b, 0xac, 0x02]);

    let (used, parsed) = FixedHeader::parse(&out).unwrap();
    assert_eq!(used, 3);
    assert_eq!(parsed.ty(), 3);
    assert_eq!(parsed.flags(), 0b1011);
    assert_eq!(parsed.length().as_u32(), 300);
}

#[test]
fn encoded_str_accepts_utf8_only() {
    assert!(EncodedStr::new(b"hello".to_vec()).is_some());
    // An isolated continuation byte is not valid UTF-8.
    assert!(EncodedStr::new(vec![0x68, 0xff, 0x6f]).is_none());
    // An overlong encoding of '/' is rejected too.
    assert!(EncodedStr::new(vec![0xc0, 0xaf]).is_none());
    // Too long for the two-byte length prefix.
    assert!(EncodedStr::new(vec![b'a'; 65_536]).is_none());
    assert!(EncodedStr::new(vec![b'a'; 65_535]).is_some());
}

#[test]
fn encoded_str_parse_rejects_malformed_utf8() {
    // Length 2, then an invalid byte pair.
    assert!(matches!(
        EncodedStr::parse(&[0x00, 0x02, 0xff, 0xff]),
        Err(ParseError::Error(_))
    ));
    // The same bytes are fine as raw binary data.
    let (used, bin) = BinaryData::parse(&[0x00, 0x02, 0xff, 0xff]).unwrap();
    assert_eq!(used, 4);
    assert_eq!(bin.as_bytes(), &vec![0xff, 0xff]);
}

#[test]
fn encoded_str_wire_form() {
    let s = EncodedStr::from_str("MQTT").unwrap();
    assert_eq!(s.size(), 6);
    let mut out: Vec<u8> = Vec::new();
    s.write_to(&mut out);
    assert_eq!(out, vec![0x00, 0x04, b'M', b'Q', b'T', b'T']);

    let (used, back) = EncodedStr::parse(&out).unwrap();
    assert_eq!(used, 6);
    assert_eq!(back.as_bytes(), &b"MQTT".to_vec());
}

#[test]
fn utf8_validation_edges() {
    // Well-formed strings of every encoded width.
    assert!(EncodedStr::new(vec![]).is_some());
    assert!(EncodedStr::new("h\u{e9}llo".as_bytes().to_vec()).is_some());
    assert!(EncodedStr::new("\u{20ac}".as_bytes().to_vec()).is_some());
    assert!(EncodedStr::new("\u{1f600}".as_bytes().to_vec()).is_some());

    // A surrogate encoding is rejected.
    assert!(EncodedStr::new(vec![0xed, 0xa0, 0x80]).is_none());
    // The last scalar before the surrogates is fine.
    assert!(EncodedStr::new(vec![0xed, 0x9f, 0xbf]).is_some());
    // Overlong two-, three- and four-byte encodings are rejected.
    assert!(EncodedStr::new(vec![0xc1, 0xbf]).is_none());
    assert!(EncodedStr::new(vec![0xe0, 0x9f, 0xbf]).is_none());
    assert!(EncodedStr::new(vec![0xf0, 0x8f, 0xbf, 0xbf]).is_none());
    // Values beyond the last Unicode scalar are rejected.
    assert!(EncodedStr::new(vec![0xf4, 0x90, 0x80, 0x80]).is_none());
    // The largest scalar is accepted.
    assert!(EncodedStr::new(vec![0xf4, 0x8f, 0xbf, 0xbf]).is_some());
    // A truncated multi-byte sequence is rejected.
    assert!(EncodedStr::new(vec![0xc3]).is_none());
    assert!(EncodedStr::new(vec![0xe2, 0x82]).is_none());
    assert!(EncodedStr::new(vec![0xf0, 0x9f, 0x98]).is_none());
}

#[test]
fn parse_error_map() {
    let short: ParseError<u8> = ParseError::NotEnoughData;
    assert_eq!(short.map(|e| e as u16 + 1), ParseError::NotEnoughData);
    let hard: ParseError<u8> = ParseError::Error(7);
    assert_eq!(hard.map(|e| e as u16 + 1), ParseError::Error(8));
}

#[test]
fn cursor_consumes_mismatched_header() {
    // A CONNACK start byte where a PUBLISH was expected: the error
    // names both types, and the cursor stands past the parsed header.
    let bytes = [0x20u8, 0x03, 0x00, 0x00, 0x00];
    let mut cursor = Cursor::new(&bytes);
    match cursor.read_fixed_header(3) {
        Err(ParseError::Error(PacketError::InvalidType { expected, actual })) => {
            assert_eq!((expected, actual), (3, 2));
        }
        _ => panic!("the type mismatch was not reported"),
    }
    assert_eq!(cursor.position(), 2);

    // On a match the cursor advances the same way.
    let mut cursor = Cursor::new(&bytes);
    let header = cursor.read_fixed_header(2).unwrap();
    assert_eq!(header.ty(), 2);
    assert_eq!(cursor.position(), 2);
}
