//! The CONNECT request, its properties, the Will message, and the
//! CONNACK response.

use vstd::prelude::*;

use crate::protocol::qos::{qos_from_byte, qos_value, QoS};
use crate::protocol::types::{
    frame_packet, write_u16_be, write_u32_be, BinaryData, EncodedStr, VariableByteInteger,
    VariableByteIntegerOverflow,
};
use crate::protocol::v5::property::{
    props_block, props_encodable, props_payload, props_wf, Properties, Property,
};
use crate::protocol::wire::{
    be16_bytes, be32_bytes, data_bytes, data_parse, header_parse, header_start_byte,
    lemma_data_parse_extension, lemma_str_parse_extension, lemma_vbi_bytes_shape,
    lemma_vbi_parse_extension, str_parse, vbi_bytes, vbi_len, vbi_parse, ParseFailure, SpecParse,
};
use crate::protocol::{PacketError, ParseError};
use crate::utils::Cursor;
use vstd::slice::slice_subrange;

verus! {

/// Properties accepted in a [`Connect`] request.
#[derive(Debug, Clone)]
pub enum ConnectProperty {
    /// The Session Expiry Interval in seconds.
    SessionExpiryInterval(u32),
    /// The Receive Maximum value.
    ReceiveMaximum(u16),
    /// The Maximum Packet Size the client is willing to accept.
    MaximumPacketSize(u32),
    /// The Topic Alias Maximum value.
    TopicAliasMaximum(u16),
    /// Requests the server to return Response Information in the CONNACK.
    RequestResponseInformation(u8),
    /// Whether Reason Strings and User Properties are wanted on failures.
    RequestProblemInformation(bool),
    /// A custom connection-related property.
    UserProperty { key: EncodedStr, value: EncodedStr },
    /// The authentication method for extended authentication.
    AuthenticationMethod(EncodedStr),
    /// Binary authentication data.
    AuthenticationData(BinaryData),
}

impl Property for ConnectProperty {
    open spec fn prop_bytes(&self) -> Seq<u8> {
        match self {
            ConnectProperty::SessionExpiryInterval(v) => seq![0x11u8] + be32_bytes(*v as int),
            ConnectProperty::ReceiveMaximum(v) => seq![0x21u8] + be16_bytes(*v as int),
            ConnectProperty::MaximumPacketSize(v) => seq![0x27u8] + be32_bytes(*v as int),
            ConnectProperty::TopicAliasMaximum(v) => seq![0x22u8] + be16_bytes(*v as int),
            ConnectProperty::RequestResponseInformation(v) => seq![0x19u8, *v],
            ConnectProperty::RequestProblemInformation(v) => seq![
                0x17u8,
                if *v {
                    1u8
                } else {
                    0u8
                },
            ],
            ConnectProperty::UserProperty { key, value } => seq![0x26u8] + data_bytes(key@)
                + data_bytes(value@),
            ConnectProperty::AuthenticationMethod(v) => seq![0x15u8] + data_bytes(v@),
            ConnectProperty::AuthenticationData(v) => seq![0x16u8] + data_bytes(v@),
        }
    }

    open spec fn prop_wf(&self) -> bool {
        match self {
            ConnectProperty::UserProperty { key, value } => key.wf() && value.wf(),
            ConnectProperty::AuthenticationMethod(v) => v.wf(),
            ConnectProperty::AuthenticationData(v) => v.wf(),
            _ => true,
        }
    }

    fn write_to(&self, out: &mut Vec<u8>) {
        match self {
            ConnectProperty::SessionExpiryInterval(v) => {
                out.push(0x11);
                write_u32_be(*v, out);
            },
            ConnectProperty::ReceiveMaximum(v) => {
                out.push(0x21);
                write_u16_be(*v, out);
            },
            ConnectProperty::MaximumPacketSize(v) => {
                out.push(0x27);
                write_u32_be(*v, out);
            },
            ConnectProperty::TopicAliasMaximum(v) => {
                out.push(0x22);
                write_u16_be(*v, out);
            },
            ConnectProperty::RequestResponseInformation(v) => {
                out.push(0x19);
                out.push(*v);
            },
            ConnectProperty::RequestProblemInformation(v) => {
                out.push(0x17);
                out.push(if *v {
                    1
                } else {
                    0
                });
            },
            ConnectProperty::UserProperty { key, value } => {
                out.push(0x26);
                key.write_to(out);
                value.write_to(out);
            },
            ConnectProperty::AuthenticationMethod(v) => {
                out.push(0x15);
                v.write_to(out);
            },
            ConnectProperty::AuthenticationData(v) => {
                out.push(0x16);
                v.write_to(out);
            },
        }
        proof {
            assert(final(out)@ =~= old(out)@ + self.prop_bytes());
        }
    }
}

/// [`Will`]-specific properties accepted in a [`Connect`] request.
#[derive(Debug, Clone)]
pub enum WillProperty {
    /// The Will Delay Interval in seconds.
    WillDelay(u32),
    /// The Payload Format Indicator.
    PayloadFormatIndicator(u8),
    /// The Message Expiry Interval in seconds.
    MessageExpiryInterval(u32),
    /// A description of the content of the Will message.
    ContentType(EncodedStr),
    /// The Topic Name for a response message.
    ResponseTopic(EncodedStr),
    /// Data by which the response can be correlated to this request.
    CorrelationData(BinaryData),
    /// A custom property.
    UserProperty { key: EncodedStr, value: EncodedStr },
}

impl Property for WillProperty {
    open spec fn prop_bytes(&self) -> Seq<u8> {
        match self {
            WillProperty::WillDelay(v) => seq![0x18u8] + be32_bytes(*v as int),
            WillProperty::PayloadFormatIndicator(v) => seq![0x01u8, *v],
            WillProperty::MessageExpiryInterval(v) => seq![0x02u8] + be32_bytes(*v as int),
            WillProperty::ContentType(v) => seq![0x03u8] + data_bytes(v@),
            WillProperty::ResponseTopic(v) => seq![0x08u8] + data_bytes(v@),
            WillProperty::CorrelationData(v) => seq![0x09u8] + data_bytes(v@),
            WillProperty::UserProperty { key, value } => seq![0x26u8] + data_bytes(key@)
                + data_bytes(value@),
        }
    }

    open spec fn prop_wf(&self) -> bool {
        match self {
            WillProperty::ContentType(v) => v.wf(),
            WillProperty::ResponseTopic(v) => v.wf(),
            WillProperty::CorrelationData(v) => v.wf(),
            WillProperty::UserProperty { key, value } => key.wf() && value.wf(),
            _ => true,
        }
    }

    fn write_to(&self, out: &mut Vec<u8>) {
        match self {
            WillProperty::WillDelay(v) => {
                out.push(0x18);
                write_u32_be(*v, out);
            },
            WillProperty::PayloadFormatIndicator(v) => {
                out.push(0x01);
                out.push(*v);
            },
            WillProperty::MessageExpiryInterval(v) => {
                out.push(0x02);
                write_u32_be(*v, out);
            },
            WillProperty::ContentType(v) => {
                out.push(0x03);
                v.write_to(out);
            },
            WillProperty::ResponseTopic(v) => {
                out.push(0x08);
                v.write_to(out);
            },
            WillProperty::CorrelationData(v) => {
                out.push(0x09);
                v.write_to(out);
            },
            WillProperty::UserProperty { key, value } => {
                out.push(0x26);
                key.write_to(out);
                value.write_to(out);
            },
        }
        proof {
            assert(final(out)@ =~= old(out)@ + self.prop_bytes());
        }
    }
}

/// A message the broker publishes on behalf of the client if the
/// client disconnects ungracefully.
#[derive(Debug, Clone)]
pub struct Will {
    pub retain: bool,
    pub qos: QoS,
    pub properties: Vec<WillProperty>,
    pub topic: EncodedStr,
    pub payload: BinaryData,
}

/// A Will's contribution to the CONNECT payload: its property block,
/// its topic, then its payload.
pub open spec fn will_bytes(w: Will) -> Seq<u8> {
    props_block(w.properties@) + data_bytes(w.topic@) + data_bytes(w.payload@)
}

impl Will {
    pub open spec fn wf(self) -> bool {
        self.topic.wf() && self.payload.wf() && props_wf(self.properties@)
    }

    pub open spec fn encodable(self) -> bool {
        props_encodable(self.properties@)
    }

    /// Appends the Will's wire form; fails when its property block is
    /// too large to frame.
    pub fn write_to(&self, out: &mut Vec<u8>) -> (r: Result<(), VariableByteIntegerOverflow>)
        requires
            self.wf(),
        ensures
            match r {
                Ok(()) => self.encodable() && final(out)@ == old(out)@ + will_bytes(*self),
                Err(_) => !self.encodable(),
            },
    {
        Properties(self.properties.as_slice()).write_to(out)?;
        self.topic.write_to(out);
        self.payload.write_to(out);
        proof {
            assert(final(out)@ =~= old(out)@ + will_bytes(*self));
        }
        Ok(())
    }
}

/// A CONNECT request: the first packet a client sends.
#[derive(Debug, Clone)]
pub struct Connect {
    /// The client identifier; may be empty.
    pub client_id: EncodedStr,
    /// Keep-alive interval in seconds.
    pub keep_alive: u16,
    /// Whether the server must discard any existing session state.
    pub clean_start: bool,
    pub will: Option<Will>,
    pub username: Option<EncodedStr>,
    pub password: Option<EncodedStr>,
    pub properties: Vec<ConnectProperty>,
}

/// The connect-flags byte: username, password, will retain, will QoS,
/// will present and clean start, each in its documented bit position;
/// the lowest bit is reserved and stays zero.
pub open spec fn connect_flags_byte(c: Connect) -> u8 {
    ((if c.username is Some {
        0x80int
    } else {
        0
    }) + (if c.password is Some {
        0x40int
    } else {
        0
    }) + (match c.will {
        Some(w) => (if w.retain {
            0x20int
        } else {
            0
        }) + 8 * qos_value(w.qos) + 4,
        None => 0,
    }) + (if c.clean_start {
        2int
    } else {
        0
    })) as u8
}

/// The CONNECT body: the protocol name "MQTT", the protocol version 5,
/// the connect flags, the keep-alive, the property block, then the
/// payload: client identifier, optional Will, optional username,
/// optional password.
pub open spec fn connect_body(c: Connect) -> Seq<u8> {
    data_bytes(seq![0x4du8, 0x51u8, 0x54u8, 0x54u8]) + seq![5u8] + seq![connect_flags_byte(c)]
        + be16_bytes(c.keep_alive as int) + props_block(c.properties@) + data_bytes(c.client_id@)
        + (match c.will {
        Some(w) => will_bytes(w),
        None => Seq::empty(),
    }) + (match c.username {
        Some(u) => data_bytes(u@),
        None => Seq::empty(),
    }) + (match c.password {
        Some(p) => data_bytes(p@),
        None => Seq::empty(),
    })
}

/// The whole CONNECT packet as it goes on the wire.
pub open spec fn connect_packet_bytes(c: Connect) -> Seq<u8> {
    crate::protocol::wire::packet_bytes(1, 0, connect_body(c))
}

impl Connect {
    /// All strings and blobs of the request are structurally valid.
    pub open spec fn wf(self) -> bool {
        &&& self.client_id.wf()
        &&& props_wf(self.properties@)
        &&& match self.will {
            Some(w) => w.wf(),
            None => true,
        }
        &&& match self.username {
            Some(u) => u.wf(),
            None => true,
        }
        &&& match self.password {
            Some(p) => p.wf(),
            None => true,
        }
    }

    /// The request's property blocks and body fit their length prefixes.
    pub open spec fn encodable(self) -> bool {
        &&& props_encodable(self.properties@)
        &&& match self.will {
            Some(w) => w.encodable(),
            None => true,
        }
        &&& connect_body(self).len() <= 0x0FFF_FFFF
    }

    /// A request for `client_id` with all options at their defaults:
    /// keep-alive 0, clean start, no will, no credentials, no properties.
    pub fn new(client_id: EncodedStr) -> (r: Self)
        ensures
            r.client_id == client_id,
            r.keep_alive == 0u16,
            r.clean_start == true,
            r.will is None,
            r.username is None,
            r.password is None,
            r.properties@ == Seq::<ConnectProperty>::empty(),
    {
        Connect {
            client_id,
            keep_alive: 0,
            clean_start: true,
            will: None,
            username: None,
            password: None,
            properties: Vec::new(),
        }
    }

    /// Appends the CONNECT body; fails when a property block is too
    /// large to frame.
    #[verifier::rlimit(60)]
    pub fn write_to(&self, out: &mut Vec<u8>) -> (r: Result<(), VariableByteIntegerOverflow>)
        requires
            self.wf(),
        ensures
            match r {
                Ok(()) => {
                    &&& props_encodable(self.properties@)
                    &&& (self.will matches Some(w) ==> w.encodable())
                    &&& final(out)@ == old(out)@ + connect_body(*self)
                },
                Err(_) => !self.encodable(),
            },
    {
        // Protocol name "MQTT" and protocol version 5.
        out.push(0x00);
        out.push(0x04);
        out.push(0x4d);
        out.push(0x51);
        out.push(0x54);
        out.push(0x54);
        out.push(0x05);
        // Connect flags.
        let mut flags: u8 = 0;
        if self.username.is_some() {
            flags = flags + 0x80;
        }
        if self.password.is_some() {
            flags = flags + 0x40;
        }
        match &self.will {
            Some(w) => {
                if w.retain {
                    flags = flags + 0x20;
                }
                let q: u8 = match w.qos {
                    QoS::AtMostOnce => 0,
                    QoS::AtLeastOnce => 1,
                    QoS::ExactlyOnce => 2,
                };
                flags = flags + 8 * q + 4;
            },
            None => {},
        }
        if self.clean_start {
            flags = flags + 2;
        }
        proof {
            assert(flags == connect_flags_byte(*self));
        }
        out.push(flags);
        // Keep alive.
        write_u16_be(self.keep_alive, out);
        let ghost head = old(out)@ + data_bytes(seq![0x4du8, 0x51u8, 0x54u8, 0x54u8]) + seq![5u8]
            + seq![connect_flags_byte(*self)] + be16_bytes(self.keep_alive as int);
        proof {
            assert(data_bytes(seq![0x4du8, 0x51u8, 0x54u8, 0x54u8]) =~= seq![
                0x00u8,
                0x04u8,
                0x4du8,
                0x51u8,
                0x54u8,
                0x54u8,
            ]);
            assert(out@ =~= head);
        }
        // Properties.
        Properties(self.properties.as_slice()).write_to(out)?;
        // Payload.
        self.client_id.write_to(out);
        let ghost mid = head + props_block(self.properties@) + data_bytes(self.client_id@);
        proof {
            assert(out@ =~= mid);
        }
        match &self.will {
            Some(w) => {
                w.write_to(out)?;
            },
            None => {},
        }
        let ghost with_will = mid + (match &self.will {
            Some(w) => will_bytes(*w),
            None => Seq::<u8>::empty(),
        });
        proof {
            assert(out@ =~= with_will);
        }
        match &self.username {
            Some(u) => u.write_to(out),
            None => {},
        }
        match &self.password {
            Some(p) => p.write_to(out),
            None => {},
        }
        proof {
            assert(final(out)@ =~= with_will + (match &self.username {
                Some(u) => data_bytes(u@),
                None => Seq::<u8>::empty(),
            }) + (match &self.password {
                Some(p) => data_bytes(p@),
                None => Seq::<u8>::empty(),
            }));
            assert(final(out)@ =~= old(out)@ + connect_body(*self));
        }
        Ok(())
    }

    /// The whole packet, fixed header included, as it goes on the wire.
    pub fn to_bytes(&self) -> (r: Result<Vec<u8>, VariableByteIntegerOverflow>)
        requires
            self.wf(),
        ensures
            match r {
                Ok(v) => self.encodable() && v@ == connect_packet_bytes(*self),
                Err(_) => !self.encodable(),
            },
    {
        let mut body: Vec<u8> = Vec::new();
        self.write_to(&mut body)?;
        frame_packet(1, 0, body)
    }
}


/// The reason a CONNECT was accepted or refused: the closed set of
/// documented CONNACK reason codes. Any other byte on the wire is a
/// protocol error.
#[derive(Debug, Clone, Copy, PartialEq, Eq, Structural)]
pub enum ConnAckReason {
    Success,
    UnspecifiedError,
    MalformedPacket,
    ProtocolError,
    ImplementationSpecificError,
    UnsupportedProtocolVersion,
    ClientIdentifierNotValid,
    BadUserNameOrPassword,
    NotAuthorized,
    ServerUnavailable,
    ServerBusy,
    Banned,
    BadAuthenticationMethod,
    TopicNameInvalid,
    PacketTooLarge,
    QuotaExceeded,
    PayloadFormatInvalid,
    RetainNotSupported,
    QoSNotSupported,
    UseAnotherServer,
    ServerMoved,
    ConnectionRateExceeded,
}

/// The byte code of a CONNACK reason.
pub open spec fn reason_value(r: ConnAckReason) -> int {
    match r {
        ConnAckReason::Success => 0x00,
        ConnAckReason::UnspecifiedError => 0x80,
        ConnAckReason::MalformedPacket => 0x81,
        ConnAckReason::ProtocolError => 0x82,
        ConnAckReason::ImplementationSpecificError => 0x83,
        ConnAckReason::UnsupportedProtocolVersion => 0x84,
        ConnAckReason::ClientIdentifierNotValid => 0x85,
        ConnAckReason::BadUserNameOrPassword => 0x86,
        ConnAckReason::NotAuthorized => 0x87,
        ConnAckReason::ServerUnavailable => 0x88,
        ConnAckReason::ServerBusy => 0x89,
        ConnAckReason::Banned => 0x8A,
        ConnAckReason::BadAuthenticationMethod => 0x8C,
        ConnAckReason::TopicNameInvalid => 0x90,
        ConnAckReason::PacketTooLarge => 0x95,
        ConnAckReason::QuotaExceeded => 0x97,
        ConnAckReason::PayloadFormatInvalid => 0x99,
        ConnAckReason::RetainNotSupported => 0x9A,
        ConnAckReason::QoSNotSupported => 0x9B,
        ConnAckReason::UseAnotherServer => 0x9C,
        ConnAckReason::ServerMoved => 0x9D,
        ConnAckReason::ConnectionRateExceeded => 0x9F,
    }
}

/// The CONNACK reason a byte denotes, if any.
pub open spec fn reason_from_byte(b: u8) -> Option<ConnAckReason> {
    if b == 0x00 {
        Some(ConnAckReason::Success)
    } else if b == 0x80 {
        Some(ConnAckReason::UnspecifiedError)
    } else if b == 0x81 {
        Some(ConnAckReason::MalformedPacket)
    } else if b == 0x82 {
        Some(ConnAckReason::ProtocolError)
    } else if b == 0x83 {
        Some(ConnAckReason::ImplementationSpecificError)
    } else if b == 0x84 {
        Some(ConnAckReason::UnsupportedProtocolVersion)
    } else if b == 0x85 {
        Some(ConnAckReason::ClientIdentifierNotValid)
    } else if b == 0x86 {
        Some(ConnAckReason::BadUserNameOrPassword)
    } else if b == 0x87 {
        Some(ConnAckReason::NotAuthorized)
    } else if b == 0x88 {
        Some(ConnAckReason::ServerUnavailable)
    } else if b == 0x89 {
        Some(ConnAckReason::ServerBusy)
    } else if b == 0x8A {
        Some(ConnAckReason::Banned)
    } else if b == 0x8C {
        Some(ConnAckReason::BadAuthenticationMethod)
    } else if b == 0x90 {
        Some(ConnAckReason::TopicNameInvalid)
    } else if b == 0x95 {
        Some(ConnAckReason::PacketTooLarge)
    } else if b == 0x97 {
        Some(ConnAckReason::QuotaExceeded)
    } else if b == 0x99 {
        Some(ConnAckReason::PayloadFormatInvalid)
    } else if b == 0x9A {
        Some(ConnAckReason::RetainNotSupported)
    } else if b == 0x9B {
        Some(ConnAckReason::QoSNotSupported)
    } else if b == 0x9C {
        Some(ConnAckReason::UseAnotherServer)
    } else if b == 0x9D {
        Some(ConnAckReason::ServerMoved)
    } else if b == 0x9F {
        Some(ConnAckReason::ConnectionRateExceeded)
    } else {
        None
    }
}

impl ConnAckReason {
    /// The reason a byte denotes; `None` for the undocumented bytes.
    pub fn from_byte(b: u8) -> (r: Option<ConnAckReason>)
        ensures
            r == reason_from_byte(b),
    {
        match b {
            0x00 => Some(ConnAckReason::Success),
            0x80 => Some(ConnAckReason::UnspecifiedError),
            0x81 => Some(ConnAckReason::MalformedPacket),
            0x82 => Some(ConnAckReason::ProtocolError),
            0x83 => Some(ConnAckReason::ImplementationSpecificError),
            0x84 => Some(ConnAckReason::UnsupportedProtocolVersion),
            0x85 => Some(ConnAckReason::ClientIdentifierNotValid),
            0x86 => Some(ConnAckReason::BadUserNameOrPassword),
            0x87 => Some(ConnAckReason::NotAuthorized),
            0x88 => Some(ConnAckReason::ServerUnavailable),
            0x89 => Some(ConnAckReason::ServerBusy),
            0x8A => Some(ConnAckReason::Banned),
            0x8C => Some(ConnAckReason::BadAuthenticationMethod),
            0x90 => Some(ConnAckReason::TopicNameInvalid),
            0x95 => Some(ConnAckReason::PacketTooLarge),
            0x97 => Some(ConnAckReason::QuotaExceeded),
            0x99 => Some(ConnAckReason::PayloadFormatInvalid),
            0x9A => Some(ConnAckReason::RetainNotSupported),
            0x9B => Some(ConnAckReason::QoSNotSupported),
            0x9C => Some(ConnAckReason::UseAnotherServer),
            0x9D => Some(ConnAckReason::ServerMoved),
            0x9F => Some(ConnAckReason::ConnectionRateExceeded),
            _ => None,
        }
    }

    /// The reason's byte code.
    pub fn code(&self) -> (r: u8)
        ensures
            r as int == reason_value(*self),
    {
        match self {
            ConnAckReason::Success => 0x00,
            ConnAckReason::UnspecifiedError => 0x80,
            ConnAckReason::MalformedPacket => 0x81,
            ConnAckReason::ProtocolError => 0x82,
            ConnAckReason::ImplementationSpecificError => 0x83,
            ConnAckReason::UnsupportedProtocolVersion => 0x84,
            ConnAckReason::ClientIdentifierNotValid => 0x85,
            ConnAckReason::BadUserNameOrPassword => 0x86,
            ConnAckReason::NotAuthorized => 0x87,
            ConnAckReason::ServerUnavailable => 0x88,
            ConnAckReason::ServerBusy => 0x89,
            ConnAckReason::Banned => 0x8A,
            ConnAckReason::BadAuthenticationMethod => 0x8C,
            ConnAckReason::TopicNameInvalid => 0x90,
            ConnAckReason::PacketTooLarge => 0x95,
            ConnAckReason::QuotaExceeded => 0x97,
            ConnAckReason::PayloadFormatInvalid => 0x99,
            ConnAckReason::RetainNotSupported => 0x9A,
            ConnAckReason::QoSNotSupported => 0x9B,
            ConnAckReason::UseAnotherServer => 0x9C,
            ConnAckReason::ServerMoved => 0x9D,
            ConnAckReason::ConnectionRateExceeded => 0x9F,
        }
    }
}

/// Law: a byte parses as a CONNACK reason only to the reason whose
/// code it is, and every reason's code parses back to the reason; the
/// bytes outside the documented set parse to nothing.
pub proof fn lemma_connack_reason_round_trip(b: u8, r: ConnAckReason)
    ensures
        reason_from_byte(b) matches Some(x) ==> reason_value(x) == b as int,
        reason_from_byte(reason_value(r) as u8) == Some(r),
{
}

/// Spec-level parse of a CONNACK: a fixed header of type 2, then
/// within the remaining length: the acknowledge-flags byte (bit 0 is
/// session-present), a documented reason code, and the property block,
/// whose contents are consumed but not interpreted. The three parts
/// must fill the remaining length exactly.
pub open spec fn connack_parse(s: Seq<u8>) -> SpecParse<(bool, ConnAckReason)> {
    match header_parse(s) {
        Ok((hlen, (ty, flags, rem))) => if ty != 2 {
            Err(ParseFailure::Malformed)
        } else if s.len() < hlen + rem {
            Err(ParseFailure::TooShort)
        } else {
            let w = s.subrange(hlen, hlen + rem);
            if w.len() < 2 {
                Err(ParseFailure::Malformed)
            } else {
                match vbi_parse(w.subrange(2, w.len() as int)) {
                    Ok((pused, plen)) => if 2 + pused + plen != w.len() {
                        Err(ParseFailure::Malformed)
                    } else {
                        match reason_from_byte(w[1]) {
                            Some(re) => Ok((hlen + rem, (w[0] % 2 == 1, re))),
                            None => Err(ParseFailure::Malformed),
                        }
                    },
                    Err(_) => Err(ParseFailure::Malformed),
                }
            }
        },
        Err(f) => Err(f),
    }
}

/// A CONNACK's wire form: the session-present flag, the reason code,
/// then a property block. Used to state the receive path's laws; the
/// core itself only parses CONNACKs.
pub open spec fn connack_bytes(sp: bool, re: ConnAckReason, props: Seq<u8>) -> Seq<u8> {
    crate::protocol::wire::packet_bytes(
        2,
        0,
        seq![
            (if sp {
                1u8
            } else {
                0u8
            }),
            reason_value(re) as u8,
        ] + vbi_bytes(props.len() as int) + props,
    )
}

/// Law (round trip): a serialized CONNACK parses back, consuming
/// exactly its own bytes, whatever follows it.
#[verifier::rlimit(100)]
pub proof fn lemma_connack_round_trip(sp: bool, re: ConnAckReason, props: Seq<u8>, tail: Seq<u8>)
    requires
        props.len() + 6 <= 0x0FFF_FFFF,
    ensures
        connack_parse(connack_bytes(sp, re, props) + tail) == Ok::<
            (int, (bool, ConnAckReason)),
            ParseFailure,
        >((connack_bytes(sp, re, props).len() as int, (sp, re))),
{
    let spb: u8 = if sp {
        1u8
    } else {
        0u8
    };
    let body = seq![spb, reason_value(re) as u8] + vbi_bytes(props.len() as int) + props;
    lemma_vbi_bytes_shape(props.len() as int);
    let bl = body.len() as int;
    let s = connack_bytes(sp, re, props) + tail;
    lemma_vbi_bytes_shape(bl);
    let hlen = 1 + vbi_len(bl);

    assert(s[0] == header_start_byte(2, 0));
    assert(s[0] / 0x10 == 2 && s[0] % 0x10 == 0);
    assert(s.drop_first() =~= vbi_bytes(bl) + (body + tail));
    lemma_vbi_parse_extension(bl, body + tail);
    assert(s.len() == hlen + bl + tail.len());
    let w = s.subrange(hlen, hlen + bl);
    assert(w =~= body);

    assert(w[0] == spb && (w[0] % 2 == 1) == sp);
    assert(w[1] == reason_value(re) as u8);
    lemma_connack_reason_round_trip(w[1], re);

    let rest = w.subrange(2, w.len() as int);
    assert(rest =~= vbi_bytes(props.len() as int) + props);
    lemma_vbi_parse_extension(props.len() as int, props);
    assert(vbi_parse(rest) == vbi_parse(vbi_bytes(props.len() as int) + props));
    assert(2 + vbi_len(props.len() as int) + props.len() == w.len());
    assert(connack_bytes(sp, re, props).len() == hlen + bl);
}

/// Law (incrementality): every strict prefix of a serialized CONNACK
/// parses as "not enough data" — the receive loop keeps reading.
#[verifier::rlimit(100)]
pub proof fn lemma_connack_parse_prefix(sp: bool, re: ConnAckReason, props: Seq<u8>, k: int)
    requires
        props.len() + 6 <= 0x0FFF_FFFF,
        0 <= k < connack_bytes(sp, re, props).len(),
    ensures
        connack_parse(connack_bytes(sp, re, props).subrange(0, k)) == Err::<
            (int, (bool, ConnAckReason)),
            ParseFailure,
        >(ParseFailure::TooShort),
{
    let spb: u8 = if sp {
        1u8
    } else {
        0u8
    };
    let body = seq![spb, reason_value(re) as u8] + vbi_bytes(props.len() as int) + props;
    lemma_vbi_bytes_shape(props.len() as int);
    let bl = body.len() as int;
    let s = connack_bytes(sp, re, props);
    lemma_vbi_bytes_shape(bl);
    let hlen = 1 + vbi_len(bl);
    let q = s.subrange(0, k);
    if k == 0 {
        assert(q.len() < 1);
    } else if k - 1 < vbi_len(bl) {
        assert(q.drop_first() =~= vbi_bytes(bl).subrange(0, k - 1));
        assert(forall|j: int|
            0 <= j < k - 1 ==> q.drop_first()[j] == vbi_bytes(bl)[j] && vbi_bytes(bl)[j] >= 0x80);
        crate::protocol::wire::lemma_first_low_all_high(q.drop_first());
    } else {
        assert(q[0] == header_start_byte(2, 0));
        assert(q[0] / 0x10 == 2 && q[0] % 0x10 == 0);
        assert(q.drop_first() =~= vbi_bytes(bl) + s.subrange(hlen, k));
        lemma_vbi_parse_extension(bl, s.subrange(hlen, k));
        assert(s.len() == hlen + bl);
        assert(q.len() < hlen + bl);
    }
}

/// A CONNACK response: whether a previous session is present, and the
/// reason the connection was accepted or refused.
#[derive(Debug, Clone, Copy, PartialEq, Eq, Structural)]
pub struct ConnAck {
    pub session_present: bool,
    pub reason: ConnAckReason,
}

impl ConnAck {
    /// Whether the connect attempt succeeded.
    pub fn successful(&self) -> (r: bool)
        ensures
            r == (self.reason == ConnAckReason::Success),
    {
        matches!(self.reason, ConnAckReason::Success)
    }

    /// Whether the server has a session for the client.
    pub fn session_present(&self) -> (r: bool)
        ensures
            r == self.session_present,
    {
        self.session_present
    }

    /// Parses a CONNACK from the front of a slice.
    pub fn parse(data: &[u8]) -> (r: Result<(usize, Self), ParseError<PacketError>>)
        ensures
            match r {
                Ok((used, p)) => {
                    &&& connack_parse(data@) == Ok::<(int, (bool, ConnAckReason)), ParseFailure>(
                        (used as int, (p.session_present, p.reason)),
                    )
                    &&& used <= data@.len()
                },
                Err(ParseError::NotEnoughData) => connack_parse(data@) == Err::<
                    (int, (bool, ConnAckReason)),
                    ParseFailure,
                >(ParseFailure::TooShort),
                Err(ParseError::Error(_)) => connack_parse(data@) == Err::<
                    (int, (bool, ConnAckReason)),
                    ParseFailure,
                >(ParseFailure::Malformed),
            },
    {
        let mut cursor = Cursor::new(data);
        proof {
            assert(cursor.rem_spec() =~= data@);
        }
        let header = match cursor.read_fixed_header(2) {
            Ok(h) => h,
            Err(e) => {
                return Err(e);
            },
        };
        let rem = header.length().as_u32() as usize;
        let start = cursor.position();
        if data.len() - start < rem {
            return Err(ParseError::NotEnoughData);
        }
        let window = slice_subrange(data, start, start + rem);
        if window.len() < 2 {
            return Err(ParseError::Error(PacketError::ProtocolError));
        }
        let ack_flags = *vstd::slice::slice_index_get(window, 0);
        let reason_byte = *vstd::slice::slice_index_get(window, 1);
        let rest = slice_subrange(window, 2, window.len());
        proof {
            assert(rest@ =~= window@.subrange(2, window@.len() as int));
        }
        let (pused, plen_v) = match VariableByteInteger::parse(rest) {
            Ok(x) => x,
            Err(_) => {
                return Err(ParseError::Error(PacketError::ProtocolError));
            },
        };
        let plen = plen_v.as_u32() as usize;
        if plen != window.len() - 2 - pused {
            return Err(ParseError::Error(PacketError::ProtocolError));
        }
        let reason = match ConnAckReason::from_byte(reason_byte) {
            Some(re) => re,
            None => {
                return Err(ParseError::Error(PacketError::ProtocolError));
            },
        };
        Ok((start + rem, ConnAck { session_present: ack_flags % 2 == 1, reason }))
    }
}


/// The abstract value of a Will as it stands in the CONNECT payload,
/// its property block as raw bytes.
pub struct WillView {
    pub retain: bool,
    pub qos: QoS,
    pub props: Seq<u8>,
    pub topic: Seq<u8>,
    pub payload: Seq<u8>,
}

/// The abstract value of a CONNECT request: every field the body
/// carries, with the property blocks as the raw bytes they are written
/// as (the core writes them but does not re-interpret them).
pub struct ConnectView {
    pub client_id: Seq<u8>,
    pub keep_alive: int,
    pub clean_start: bool,
    pub props: Seq<u8>,
    pub will: Option<WillView>,
    pub username: Option<Seq<u8>>,
    pub password: Option<Seq<u8>>,
}

/// A CONNECT request's abstract value.
pub open spec fn connect_view(c: Connect) -> ConnectView {
    ConnectView {
        client_id: c.client_id@,
        keep_alive: c.keep_alive as int,
        clean_start: c.clean_start,
        props: crate::protocol::v5::property::props_payload(c.properties@),
        will: match c.will {
            Some(w) => Some(
                WillView {
                    retain: w.retain,
                    qos: w.qos,
                    props: crate::protocol::v5::property::props_payload(w.properties@),
                    topic: w.topic@,
                    payload: w.payload@,
                },
            ),
            None => None,
        },
        username: match c.username {
            Some(u) => Some(u@),
            None => None,
        },
        password: match c.password {
            Some(p) => Some(p@),
            None => None,
        },
    }
}

/// Spec-level parse of a CONNECT body from its window: the protocol
/// name "MQTT" and version 5, the connect flags, the keep-alive, the
/// property block, then the payload fields that the flags announce,
/// filling the window exactly. The reserved flag bit must be clear.
pub open spec fn connect_body_parse(w: Seq<u8>) -> Option<ConnectView> {
    if w.len() < 10 {
        None
    } else if w.subrange(0, 7) != seq![0x00u8, 0x04u8, 0x4du8, 0x51u8, 0x54u8, 0x54u8, 0x05u8] {
        None
    } else {
        let cf = w[7] as int;
        let has_user = cf / 128 % 2 == 1;
        let has_pass = cf / 64 % 2 == 1;
        let will_retain = cf / 32 % 2 == 1;
        let will_qos = cf / 8 % 4;
        let has_will = cf / 4 % 2 == 1;
        let clean_start = cf / 2 % 2 == 1;
        if cf % 2 != 0 {
            None
        } else if !has_will && (will_retain || will_qos != 0) {
            None
        } else {
            match qos_from_byte(will_qos as u8) {
                Err(_) => None,
                Ok(wq) => {
                    let keep_alive = 0x100 * (w[8] as int) + (w[9] as int);
                    match vbi_parse(w.subrange(10, w.len() as int)) {
                        Err(_) => None,
                        Ok((pu, plen)) => if 10 + pu + plen > w.len() {
                            None
                        } else {
                            let props = w.subrange(10 + pu, 10 + pu + plen);
                            let off1 = 10 + pu + plen;
                            match str_parse(w.subrange(off1, w.len() as int)) {
                                Err(_) => None,
                                Ok((cu, cid)) => connect_payload_parse(
                                    w,
                                    off1 + cu,
                                    ConnectView {
                                        client_id: cid,
                                        keep_alive,
                                        clean_start,
                                        props,
                                        will: None,
                                        username: None,
                                        password: None,
                                    },
                                    has_will,
                                    will_retain,
                                    wq,
                                    has_user,
                                    has_pass,
                                ),
                            }
                        },
                    }
                },
            }
        }
    }
}

/// Spec-level parse of a Will from the CONNECT payload: its property
/// block (as raw bytes), its topic, then its payload.
pub open spec fn will_parse(w: Seq<u8>, off: int, retain: bool, q: QoS) -> Option<
    (int, WillView),
> {
    match vbi_parse(w.subrange(off, w.len() as int)) {
        Err(_) => None,
        Ok((wpu, wplen)) => if off + wpu + wplen > w.len() {
            None
        } else {
            let wprops = w.subrange(off + wpu, off + wpu + wplen);
            let o2 = off + wpu + wplen;
            match str_parse(w.subrange(o2, w.len() as int)) {
                Err(_) => None,
                Ok((tu, topic)) => match data_parse(w.subrange(o2 + tu, w.len() as int)) {
                    Err(_) => None,
                    Ok((bu, pay)) => Some(
                        (
                            o2 + tu + bu,
                            WillView { retain, qos: q, props: wprops, topic, payload: pay },
                        ),
                    ),
                },
            }
        },
    }
}

/// Spec-level parse of an optional string field announced by a flag.
pub open spec fn opt_str_parse(w: Seq<u8>, off: int, present: bool) -> Option<
    (int, Option<Seq<u8>>),
> {
    if !present {
        Some((off, None))
    } else {
        match str_parse(w.subrange(off, w.len() as int)) {
            Err(_) => None,
            Ok((u, b)) => Some((off + u, Some(b))),
        }
    }
}

/// The tail of the CONNECT payload after the client identifier: the
/// optional Will (property block, topic, payload), username and
/// password, which must fill the window exactly.
pub open spec fn connect_payload_parse(
    w: Seq<u8>,
    off: int,
    base: ConnectView,
    has_will: bool,
    will_retain: bool,
    will_qos: QoS,
    has_user: bool,
    has_pass: bool,
) -> Option<ConnectView> {
    let after_will: Option<(int, Option<WillView>)> = if !has_will {
        Some((off, None))
    } else {
        match will_parse(w, off, will_retain, will_qos) {
            None => None,
            Some((o, wv)) => Some((o, Some(wv))),
        }
    };
    match after_will {
        None => None,
        Some((o3, will)) => match opt_str_parse(w, o3, has_user) {
            None => None,
            Some((o4, username)) => match opt_str_parse(w, o4, has_pass) {
                None => None,
                Some((o5, password)) => if o5 == w.len() {
                    Some(ConnectView { will, username, password, ..base })
                } else {
                    None
                },
            },
        },
    }
}

/// Spec-level parse of a whole CONNECT packet: a fixed header of type
/// 1 with clear flags, then the body filling the remaining length.
pub open spec fn connect_parse(s: Seq<u8>) -> SpecParse<ConnectView> {
    match header_parse(s) {
        Ok((hlen, (ty, flags, rem))) => if ty != 1 || flags != 0 {
            Err(ParseFailure::Malformed)
        } else if s.len() < hlen + rem {
            Err(ParseFailure::TooShort)
        } else {
            match connect_body_parse(s.subrange(hlen, hlen + rem)) {
                Some(v) => Ok((hlen + rem, v)),
                None => Err(ParseFailure::Malformed),
            }
        },
        Err(f) => Err(f),
    }
}



/// A Will in the payload parses back to its value.
proof fn lemma_will_round_trip(w: Seq<u8>, off: int, w0: Will, rest: Seq<u8>)
    requires
        w0.wf(),
        w0.encodable(),
        0 <= off <= w.len(),
        w.subrange(off, w.len() as int) == will_bytes(w0) + rest,
    ensures
        will_parse(w, off, w0.retain, w0.qos) == Some(
            (
                off + will_bytes(w0).len(),
                WillView {
                    retain: w0.retain,
                    qos: w0.qos,
                    props: props_payload(w0.properties@),
                    topic: w0.topic@,
                    payload: w0.payload@,
                },
            ),
        ),
{
    let t2 = w.subrange(off, w.len() as int);
    let wp = props_payload(w0.properties@);
    lemma_vbi_bytes_shape(wp.len() as int);
    let wpu = vbi_len(wp.len() as int);
    let wrest = data_bytes(w0.topic@) + (data_bytes(w0.payload@) + rest);
    assert(t2 =~= vbi_bytes(wp.len() as int) + (wp + wrest)) by {
        assert(will_bytes(w0) == (vbi_bytes(wp.len() as int) + wp) + data_bytes(w0.topic@)
            + data_bytes(w0.payload@));
    }
    lemma_vbi_parse_extension(wp.len() as int, wp + wrest);
    assert(w.subrange(off + wpu, off + wpu + wp.len() as int) =~= wp) by {
        assert(forall|i: int|
            0 <= i < wp.len() ==> w.subrange(off + wpu, off + wpu + wp.len() as int)[i] == t2[wpu
                + i] && t2[wpu + i] == wp[i]);
    }
    let o2 = off + wpu + wp.len() as int;
    let t3 = w.subrange(o2, w.len() as int);
    assert(t3 =~= wrest) by {
        assert(forall|i: int| 0 <= i < t3.len() ==> t3[i] == t2[wpu + wp.len() + i]);
    }
    lemma_str_parse_extension(w0.topic@, data_bytes(w0.payload@) + rest);
    let o3 = o2 + 2 + w0.topic@.len() as int;
    let t4 = w.subrange(o3, w.len() as int);
    assert(t4 =~= data_bytes(w0.payload@) + rest) by {
        assert(forall|i: int| 0 <= i < t4.len() ==> t4[i] == t3[2 + w0.topic@.len() + i]);
    }
    lemma_data_parse_extension(w0.payload@, rest);
    assert(will_bytes(w0).len() == (wpu + wp.len()) + (2 + w0.topic@.len()) + (2
        + w0.payload@.len()));
}

/// An optional string field parses back to its value.
proof fn lemma_opt_str_round_trip(w: Seq<u8>, off: int, s: Option<EncodedStr>, rest: Seq<u8>)
    requires
        s matches Some(u) ==> u.wf(),
        0 <= off <= w.len(),
        w.subrange(off, w.len() as int) == (match s {
            Some(u) => data_bytes(u@),
            None => Seq::<u8>::empty(),
        }) + rest,
    ensures
        opt_str_parse(w, off, s is Some) == Some(
            (
                off + (match s {
                    Some(u) => 2 + u@.len() as int,
                    None => 0,
                }),
                match s {
                    Some(u) => Some(u@),
                    None => None,
                },
            ),
        ),
{
    match s {
        Some(u) => {
            lemma_str_parse_extension(u@, rest);
        },
        None => {},
    }
}

/// The payload after the client identifier parses back: the optional
/// Will, username and password, exactly filling the window.
#[verifier::rlimit(100)]
proof fn lemma_connect_payload_round_trip(
    w: Seq<u8>,
    off: int,
    base: ConnectView,
    will: Option<Will>,
    username: Option<EncodedStr>,
    password: Option<EncodedStr>,
)
    requires
        0 <= off <= w.len(),
        will matches Some(w0) ==> w0.wf() && w0.encodable(),
        w.subrange(off, w.len() as int) == (match will {
            Some(w0) => will_bytes(w0),
            None => Seq::<u8>::empty(),
        }) + ((match username {
            Some(u) => data_bytes(u@),
            None => Seq::<u8>::empty(),
        }) + (match password {
            Some(p) => data_bytes(p@),
            None => Seq::<u8>::empty(),
        })),
        username matches Some(u) ==> u.wf(),
        password matches Some(p) ==> p.wf(),
    ensures
        connect_payload_parse(
            w,
            off,
            base,
            will is Some,
            (will matches Some(w0) && w0.retain),
            match will {
                Some(w0) => w0.qos,
                None => QoS::AtMostOnce,
            },
            username is Some,
            password is Some,
        ) == Some(
            ConnectView {
                will: match will {
                    Some(w0) => Some(
                        WillView {
                            retain: w0.retain,
                            qos: w0.qos,
                            props: props_payload(w0.properties@),
                            topic: w0.topic@,
                            payload: w0.payload@,
                        },
                    ),
                    None => None,
                },
                username: match username {
                    Some(u) => Some(u@),
                    None => None,
                },
                password: match password {
                    Some(p) => Some(p@),
                    None => None,
                },
                ..base
            },
        ),
{
    let willpart = match will {
        Some(w0) => will_bytes(w0),
        None => Seq::<u8>::empty(),
    };
    let userpart = match username {
        Some(u) => data_bytes(u@),
        None => Seq::<u8>::empty(),
    };
    let passpart = match password {
        Some(p) => data_bytes(p@),
        None => Seq::<u8>::empty(),
    };
    let t2 = w.subrange(off, w.len() as int);
    match will {
        Some(w0) => {
            lemma_will_round_trip(w, off, w0, userpart + passpart);
        },
        None => {
            assert(t2 =~= willpart + (userpart + passpart));
        },
    }
    let o3 = off + willpart.len() as int;
    assert(w.subrange(o3, w.len() as int) =~= userpart + passpart) by {
        assert(forall|i: int|
            0 <= i < w.len() - o3 ==> w.subrange(o3, w.len() as int)[i] == t2[willpart.len()
                + i] && t2[willpart.len() + i] == (userpart + passpart)[i]);
    }
    lemma_opt_str_round_trip(w, o3, username, passpart);
    let o4 = o3 + userpart.len() as int;
    assert(w.subrange(o4, w.len() as int) =~= passpart + Seq::<u8>::empty()) by {
        assert(forall|i: int|
            0 <= i < w.len() - o4 ==> w.subrange(o4, w.len() as int)[i] == t2[willpart.len()
                + userpart.len() + i] && t2[willpart.len() + userpart.len() + i] == passpart[i]);
    }
    lemma_opt_str_round_trip(w, o4, password, Seq::<u8>::empty());
    let o5 = o4 + passpart.len() as int;
    assert(o5 == w.len());
}

/// The connect-flags byte decodes back to the request's options.
proof fn lemma_connect_flags_decode(c: Connect)
    ensures
        connect_flags_byte(c) as int / 128 % 2 == (if c.username is Some {
            1int
        } else {
            0
        }),
        connect_flags_byte(c) as int / 64 % 2 == (if c.password is Some {
            1int
        } else {
            0
        }),
        connect_flags_byte(c) as int / 32 % 2 == (match c.will {
            Some(w0) => if w0.retain {
                1int
            } else {
                0
            },
            None => 0,
        }),
        connect_flags_byte(c) as int / 8 % 4 == (match c.will {
            Some(w0) => qos_value(w0.qos),
            None => 0,
        }),
        connect_flags_byte(c) as int / 4 % 2 == (if c.will is Some {
            1int
        } else {
            0
        }),
        connect_flags_byte(c) as int / 2 % 2 == (if c.clean_start {
            1int
        } else {
            0
        }),
        connect_flags_byte(c) as int % 2 == 0,
{
    let cf = connect_flags_byte(c) as int;
    let wr = match c.will {
        Some(w0) => if w0.retain {
            1int
        } else {
            0
        },
        None => 0,
    };
    let wq = match c.will {
        Some(w0) => qos_value(w0.qos),
        None => 0,
    };
    assert(cf == 128 * (if c.username is Some {
        1int
    } else {
        0
    }) + 64 * (if c.password is Some {
        1int
    } else {
        0
    }) + 32 * wr + 8 * wq + 4 * (if c.will is Some {
        1int
    } else {
        0
    }) + 2 * (if c.clean_start {
        1int
    } else {
        0
    }));
}

/// How the CONNECT body decomposes into its segments.
#[verifier::rlimit(100)]
proof fn lemma_connect_body_segments(c: Connect)
    ensures
        connect_body(c).len() >= 10,
        connect_body(c).subrange(0, 7) == seq![
            0x00u8,
            0x04u8,
            0x4du8,
            0x51u8,
            0x54u8,
            0x54u8,
            0x05u8,
        ],
        connect_body(c)[7] == connect_flags_byte(c),
        connect_body(c)[8] == (c.keep_alive as int / 0x100) as u8,
        connect_body(c)[9] == (c.keep_alive as int % 0x100) as u8,
        connect_body(c).subrange(10, connect_body(c).len() as int) == vbi_bytes(
            props_payload(c.properties@).len() as int,
        ) + (props_payload(c.properties@) + (data_bytes(c.client_id@) + ((match c.will {
            Some(w0) => will_bytes(w0),
            None => Seq::<u8>::empty(),
        }) + ((match c.username {
            Some(u) => data_bytes(u@),
            None => Seq::<u8>::empty(),
        }) + (match c.password {
            Some(p) => data_bytes(p@),
            None => Seq::<u8>::empty(),
        }))))),
{
    let w = connect_body(c);
    assert(w.subrange(0, 7) =~= seq![0x00u8, 0x04u8, 0x4du8, 0x51u8, 0x54u8, 0x54u8, 0x05u8]);
    assert(w.subrange(10, w.len() as int) =~= vbi_bytes(
        props_payload(c.properties@).len() as int,
    ) + (props_payload(c.properties@) + (data_bytes(c.client_id@) + ((match c.will {
        Some(w0) => will_bytes(w0),
        None => Seq::<u8>::empty(),
    }) + ((match c.username {
        Some(u) => data_bytes(u@),
        None => Seq::<u8>::empty(),
    }) + (match c.password {
        Some(p) => data_bytes(p@),
        None => Seq::<u8>::empty(),
    }))))));
}

/// A window with the CONNECT body's segment structure parses back to
/// the request's value. Stated over an arbitrary window so that the
/// body's long concatenation is expanded only once, by the caller.
#[verifier::rlimit(100)]
proof fn lemma_connect_window_parse(w: Seq<u8>, c: Connect)
    requires
        c.wf(),
        c.encodable(),
        w.len() >= 10,
        w.subrange(0, 7) == seq![0x00u8, 0x04u8, 0x4du8, 0x51u8, 0x54u8, 0x54u8, 0x05u8],
        w[7] == connect_flags_byte(c),
        w[8] == (c.keep_alive as int / 0x100) as u8,
        w[9] == (c.keep_alive as int % 0x100) as u8,
        w.subrange(10, w.len() as int) == vbi_bytes(props_payload(c.properties@).len() as int) + (
        props_payload(c.properties@) + (data_bytes(c.client_id@) + ((match c.will {
            Some(w0) => will_bytes(w0),
            None => Seq::<u8>::empty(),
        }) + ((match c.username {
            Some(u) => data_bytes(u@),
            None => Seq::<u8>::empty(),
        }) + (match c.password {
            Some(p) => data_bytes(p@),
            None => Seq::<u8>::empty(),
        }))))),
    ensures
        connect_body_parse(w) == Some(connect_view(c)),
{
    lemma_connect_flags_decode(c);
    let cf = connect_flags_byte(c) as int;
    let ka = c.keep_alive as int;
    assert(0x100 * (w[8] as int) + (w[9] as int) == ka);

    let pp = props_payload(c.properties@);
    let willpart = match c.will {
        Some(w0) => will_bytes(w0),
        None => Seq::<u8>::empty(),
    };
    let userpart = match c.username {
        Some(u) => data_bytes(u@),
        None => Seq::<u8>::empty(),
    };
    let passpart = match c.password {
        Some(p) => data_bytes(p@),
        None => Seq::<u8>::empty(),
    };
    let after_props = data_bytes(c.client_id@) + (willpart + (userpart + passpart));
    lemma_vbi_bytes_shape(pp.len() as int);
    let pu = vbi_len(pp.len() as int);
    let t10 = w.subrange(10, w.len() as int);
    lemma_vbi_parse_extension(pp.len() as int, pp + after_props);
    assert(w.subrange(10 + pu, 10 + pu + pp.len() as int) =~= pp) by {
        assert(forall|i: int|
            0 <= i < pp.len() ==> w.subrange(10 + pu, 10 + pu + pp.len() as int)[i] == t10[pu + i]
                && t10[pu + i] == pp[i]);
    }
    let off1 = 10 + pu + pp.len() as int;

    let t1 = w.subrange(off1, w.len() as int);
    assert(t1 =~= data_bytes(c.client_id@) + (willpart + (userpart + passpart))) by {
        assert(forall|i: int| 0 <= i < t1.len() ==> t1[i] == t10[pu + pp.len() + i]);
        assert(forall|i: int|
            0 <= i < after_props.len() ==> t10[pu + pp.len() + i] == after_props[i]);
    }
    lemma_str_parse_extension(c.client_id@, willpart + (userpart + passpart));
    let off2 = off1 + 2 + c.client_id@.len() as int;
    assert(w.subrange(off2, w.len() as int) =~= willpart + (userpart + passpart)) by {
        assert(forall|i: int|
            0 <= i < w.len() - off2 ==> w.subrange(off2, w.len() as int)[i] == t1[2
                + c.client_id@.len() + i]);
    }

    let base = ConnectView {
        client_id: c.client_id@,
        keep_alive: ka,
        clean_start: c.clean_start,
        props: pp,
        will: None,
        username: None,
        password: None,
    };
    lemma_connect_payload_round_trip(w, off2, base, c.will, c.username, c.password);
    match c.will {
        Some(w0) => {
            assert(qos_from_byte((cf / 8 % 4) as u8) == Ok::<
                QoS,
                crate::protocol::qos::InvalidQoS,
            >(w0.qos));
        },
        None => {
            assert(qos_from_byte((cf / 8 % 4) as u8) == Ok::<
                QoS,
                crate::protocol::qos::InvalidQoS,
            >(QoS::AtMostOnce));
        },
    }
}

/// The CONNECT body parses back to the request's value.
proof fn lemma_connect_body_round_trip(c: Connect)
    requires
        c.wf(),
        c.encodable(),
    ensures
        connect_body_parse(connect_body(c)) == Some(connect_view(c)),
{
    lemma_connect_body_segments(c);
    lemma_connect_window_parse(connect_body(c), c);
}

/// Law (round trip): parsing the serialized form of any well-formed,
/// encodable CONNECT — whatever bytes follow it — consumes exactly the
/// packet's bytes and yields every field back: the client identifier,
/// keep-alive, clean start, the property block, and the optional Will,
/// username and password.
pub proof fn lemma_connect_round_trip(c: Connect, tail: Seq<u8>)
    requires
        c.wf(),
        c.encodable(),
    ensures
        connect_parse(connect_packet_bytes(c) + tail) == Ok::<(int, ConnectView), ParseFailure>(
            (connect_packet_bytes(c).len() as int, connect_view(c)),
        ),
{
    let body = connect_body(c);
    let bl = body.len() as int;
    let s = connect_packet_bytes(c) + tail;
    lemma_vbi_bytes_shape(bl);
    let hlen = 1 + vbi_len(bl);

    assert(s[0] == header_start_byte(1, 0));
    assert(s[0] / 0x10 == 1 && s[0] % 0x10 == 0);
    assert(s.drop_first() =~= vbi_bytes(bl) + (body + tail));
    lemma_vbi_parse_extension(bl, body + tail);
    assert(crate::protocol::wire::header_parse(s) == Ok::<(int, (int, int, int)), ParseFailure>(
        (hlen, (1, 0, bl)),
    ));
    assert(s.len() == hlen + bl + tail.len());
    assert(s.subrange(hlen, hlen + bl) =~= body);
    lemma_connect_body_round_trip(c);
    assert(connect_packet_bytes(c).len() == hlen + bl);
}

} // verus!
