//! The MQTT v5 packets.

pub mod connect;
pub mod property;
pub mod publish;

use vstd::prelude::*;
use vstd::slice::slice_index_get;

use crate::protocol::qos::{qos_from_byte, qos_value, QoS};
use crate::protocol::types::{
    frame_packet, write_u16_be, EncodedStr, VariableByteIntegerOverflow,
};
use crate::protocol::wire::{
    be16_bytes, data_bytes, header_parse, header_start_byte, lemma_first_low_found,
    lemma_str_parse_extension, lemma_vbi_bytes_shape, lemma_vbi_parse_extension,
    lemma_vbi_value_upto4, str_parse, vbi_bytes, vbi_len, vbi_parse, ParseFailure, SpecParse,
};
use crate::protocol::{PacketError, ParseError};
use crate::utils::Cursor;

pub use self::connect::{ConnAck, ConnAckReason, Connect, ConnectProperty, Will, WillProperty};
pub use self::property::{Properties, Property};
pub use self::publish::Publish;

verus! {

/// A DISCONNECT packet. Its body is a single reason-code byte; the
/// core emits 0x04, "disconnect with Will message".
#[derive(Debug, Clone, Copy)]
pub struct Disconnect {}

/// The DISCONNECT body: the fixed reason code.
pub open spec fn disconnect_body() -> Seq<u8> {
    seq![0x04u8]
}

/// The whole DISCONNECT packet as it goes on the wire.
pub open spec fn disconnect_packet_bytes() -> Seq<u8> {
    crate::protocol::wire::packet_bytes(14, 0, disconnect_body())
}

impl Disconnect {
    /// Appends the body: the reason code.
    pub fn write_to(&self, out: &mut Vec<u8>)
        ensures
            final(out)@ == old(out)@ + disconnect_body(),
    {
        out.push(0x04);
        proof {
            assert(final(out)@ =~= old(out)@ + disconnect_body());
        }
    }

    /// The whole packet, fixed header included, as it goes on the wire.
    pub fn to_bytes(&self) -> (r: Vec<u8>)
        ensures
            r@ == disconnect_packet_bytes(),
    {
        let mut body: Vec<u8> = Vec::new();
        self.write_to(&mut body);
        match frame_packet(14, 0, body) {
            Ok(v) => v,
            Err(_) => {
                proof {
                    assert(false);
                }
                Vec::new()
            },
        }
    }
}

/// Retain handling of a [`TopicFilter`]: whether retained messages are
/// sent when the subscription is established.
#[derive(Debug, Clone, Copy, PartialEq, Eq, Structural)]
pub enum RetainHandling {
    /// Send retained messages at the time of the subscribe.
    SendRetained,
    /// Send retained messages only if the subscription does not
    /// currently exist.
    SendRetainedOnNewSubscription,
    /// Do not send retained messages at the time of the subscribe.
    DoNotSendRetained,
}

/// The numeric value of a retain-handling option.
pub open spec fn retain_handling_value(r: RetainHandling) -> int {
    match r {
        RetainHandling::SendRetained => 0,
        RetainHandling::SendRetainedOnNewSubscription => 1,
        RetainHandling::DoNotSendRetained => 2,
    }
}

impl Default for RetainHandling {
    /// Retained messages are sent on subscribe unless asked otherwise.
    fn default() -> (r: Self)
        ensures
            r == RetainHandling::SendRetained,
    {
        RetainHandling::SendRetained
    }
}

/// A topic filter, used to [subscribe](Subscribe) to topics.
#[derive(Debug, Clone)]
pub struct TopicFilter {
    /// The name of the topic.
    pub name: EncodedStr,
    /// The Quality of Service level.
    pub qos: QoS,
    /// If true, messages must not be forwarded to a connection with a
    /// client id equal to the publishing connection's.
    pub no_local: bool,
    /// If true, forwarded messages keep the RETAIN flag they were
    /// published with.
    pub retain_as_published: bool,
    /// Whether retained messages are sent when the subscription is
    /// established.
    pub retain: RetainHandling,
}

/// A filter's options byte: retain handling, retain-as-published,
/// no-local and the QoS, each in its documented bit position.
pub open spec fn filter_options_byte(f: TopicFilter) -> u8 {
    (16 * retain_handling_value(f.retain) + (if f.retain_as_published {
        8int
    } else {
        0
    }) + (if f.no_local {
        4int
    } else {
        0
    }) + qos_value(f.qos)) as u8
}

/// A filter's wire form: its name, then its options byte.
pub open spec fn filter_bytes(f: TopicFilter) -> Seq<u8> {
    data_bytes(f.name@) + seq![filter_options_byte(f)]
}

/// The concatenated wire forms of a list of filters, in order.
pub open spec fn filters_payload(fs: Seq<TopicFilter>) -> Seq<u8>
    decreases fs.len(),
{
    if fs.len() == 0 {
        Seq::empty()
    } else {
        filters_payload(fs.drop_last()) + filter_bytes(fs.last())
    }
}

impl TopicFilter {
    pub open spec fn wf(self) -> bool {
        self.name.wf()
    }

    /// Appends the filter's wire form.
    pub fn write_to(&self, out: &mut Vec<u8>)
        requires
            self.wf(),
        ensures
            final(out)@ == old(out)@ + filter_bytes(*self),
    {
        self.name.write_to(out);
        let rh: u8 = match self.retain {
            RetainHandling::SendRetained => 0,
            RetainHandling::SendRetainedOnNewSubscription => 1,
            RetainHandling::DoNotSendRetained => 2,
        };
        let q: u8 = match self.qos {
            QoS::AtMostOnce => 0,
            QoS::AtLeastOnce => 1,
            QoS::ExactlyOnce => 2,
        };
        let mut options: u8 = 16 * rh + q;
        if self.retain_as_published {
            options = options + 8;
        }
        if self.no_local {
            options = options + 4;
        }
        out.push(options);
        proof {
            assert(options == filter_options_byte(*self));
            assert(final(out)@ =~= old(out)@ + filter_bytes(*self));
        }
    }
}

/// A SUBSCRIBE request: a packet identifier and the topic filters to
/// subscribe to.
#[derive(Debug, Clone)]
pub struct Subscribe {
    pub identifier: u16,
    pub topics: Vec<TopicFilter>,
}

/// The SUBSCRIBE body: the packet identifier, an empty property block,
/// then the filters in order.
pub open spec fn subscribe_body(s: Subscribe) -> Seq<u8> {
    be16_bytes(s.identifier as int) + seq![0u8] + filters_payload(s.topics@)
}

/// The whole SUBSCRIBE packet as it goes on the wire; its fixed-header
/// flags are the required 0b0010.
pub open spec fn subscribe_packet_bytes(s: Subscribe) -> Seq<u8> {
    crate::protocol::wire::packet_bytes(8, 0b0010, subscribe_body(s))
}

impl Subscribe {
    pub open spec fn wf(self) -> bool {
        forall|i: int| 0 <= i < self.topics@.len() ==> (#[trigger] self.topics@[i]).wf()
    }

    pub open spec fn encodable(self) -> bool {
        subscribe_body(self).len() <= 0x0FFF_FFFF
    }

    /// The fixed-header flags nibble; SUBSCRIBE requires 0b0010.
    pub fn flags(&self) -> (r: u8)
        ensures
            r == 0b0010u8,
    {
        0b0010
    }

    /// Appends the SUBSCRIBE body.
    pub fn write_to(&self, out: &mut Vec<u8>)
        requires
            self.wf(),
        ensures
            final(out)@ == old(out)@ + subscribe_body(*self),
    {
        write_u16_be(self.identifier, out);
        out.push(0);
        let ghost head = old(out)@ + be16_bytes(self.identifier as int) + seq![0u8];
        proof {
            assert(out@ =~= head);
        }
        let n = self.topics.len();
        let mut i: usize = 0;
        while i < n
            invariant
                i <= n,
                n == self.topics@.len(),
                self.wf(),
                out@ == head + filters_payload(self.topics@.subrange(0, i as int)),
            decreases n - i,
        {
            slice_index_get(self.topics.as_slice(), i).write_to(out);
            proof {
                assert(self.topics@.subrange(0, (i + 1) as int).drop_last() =~= self.topics@
                    .subrange(0, i as int));
                assert(self.topics@.subrange(0, (i + 1) as int).last() == self.topics@[i as int]);
                assert(out@ =~= head + filters_payload(self.topics@.subrange(0, (i + 1) as int)));
            }
            i = i + 1;
        }
        proof {
            assert(self.topics@.subrange(0, n as int) =~= self.topics@);
            assert(final(out)@ =~= old(out)@ + subscribe_body(*self));
        }
    }

    /// The whole packet, fixed header included, as it goes on the wire.
    pub fn to_bytes(&self) -> (r: Result<Vec<u8>, VariableByteIntegerOverflow>)
        requires
            self.wf(),
        ensures
            match r {
                Ok(v) => self.encodable() && v@ == subscribe_packet_bytes(*self),
                Err(_) => !self.encodable(),
            },
    {
        let mut body: Vec<u8> = Vec::new();
        self.write_to(&mut body);
        frame_packet(8, 0b0010, body)
    }
}

/// Spec-level parse of a SUBACK: a fixed header of type 9, then within
/// the remaining length: the packet identifier, the property block,
/// and the per-filter reason codes, which fill the rest. The contents
/// are consumed but not surfaced.
pub open spec fn suback_parse(s: Seq<u8>) -> SpecParse<()> {
    match header_parse(s) {
        Ok((hlen, (ty, flags, rem))) => if ty != 9 {
            Err(ParseFailure::Malformed)
        } else if s.len() < hlen + rem {
            Err(ParseFailure::TooShort)
        } else {
            let w = s.subrange(hlen, hlen + rem);
            if w.len() < 2 {
                Err(ParseFailure::Malformed)
            } else {
                match vbi_parse(w.subrange(2, w.len() as int)) {
                    Ok((pused, plen)) => if 2 + pused + plen <= w.len() {
                        Ok((hlen + rem, ()))
                    } else {
                        Err(ParseFailure::Malformed)
                    },
                    Err(_) => Err(ParseFailure::Malformed),
                }
            }
        },
        Err(f) => Err(f),
    }
}

/// A SUBACK response. The identifier and the per-filter reason codes
/// are parsed but not yet surfaced.
#[derive(Debug, Clone, Copy)]
pub struct SubAck {}

impl SubAck {
    /// Parses a SUBACK from the front of a slice.
    pub fn parse(data: &[u8]) -> (r: Result<(usize, Self), ParseError<PacketError>>)
        ensures
            match r {
                Ok((used, p)) => {
                    &&& suback_parse(data@) == Ok::<(int, ()), ParseFailure>((used as int, ()))
                    &&& used <= data@.len()
                },
                Err(ParseError::NotEnoughData) => suback_parse(data@) == Err::<
                    (int, ()),
                    ParseFailure,
                >(ParseFailure::TooShort),
                Err(ParseError::Error(_)) => suback_parse(data@) == Err::<(int, ()), ParseFailure>(
                    ParseFailure::Malformed,
                ),
            },
    {
        let mut cursor = Cursor::new(data);
        proof {
            assert(cursor.rem_spec() =~= data@);
        }
        let header = match cursor.read_fixed_header(9) {
            Ok(h) => h,
            Err(e) => {
                return Err(e);
            },
        };
        let rem = header.length().as_u32() as usize;
        let start = cursor.position();
        if data.len() - start < rem {
            return Err(ParseError::NotEnoughData);
        }
        let window = vstd::slice::slice_subrange(data, start, start + rem);
        if window.len() < 2 {
            return Err(ParseError::Error(PacketError::ProtocolError));
        }
        let rest = vstd::slice::slice_subrange(window, 2, window.len());
        proof {
            assert(rest@ =~= window@.subrange(2, window@.len() as int));
        }
        let (pused, plen_v) = match crate::protocol::types::VariableByteInteger::parse(rest) {
            Ok(x) => x,
            Err(_) => {
                return Err(ParseError::Error(PacketError::ProtocolError));
            },
        };
        let plen = plen_v.as_u32() as usize;
        if plen > window.len() - 2 - pused {
            return Err(ParseError::Error(PacketError::ProtocolError));
        }
        Ok((start + rem, SubAck {}))
    }
}


/// Spec-level parse of a DISCONNECT: a fixed header of type 14 whose
/// remaining length holds at least the reason-code byte.
pub open spec fn disconnect_parse(s: Seq<u8>) -> SpecParse<()> {
    match header_parse(s) {
        Ok((hlen, (ty, flags, rem))) => if ty != 14 {
            Err(ParseFailure::Malformed)
        } else if s.len() < hlen + rem {
            Err(ParseFailure::TooShort)
        } else if rem < 1 {
            Err(ParseFailure::Malformed)
        } else {
            Ok((hlen + rem, ()))
        },
        Err(f) => Err(f),
    }
}

/// Law (round trip): the serialized DISCONNECT parses back, consuming
/// exactly its own bytes, whatever follows it.
pub proof fn lemma_disconnect_round_trip(tail: Seq<u8>)
    ensures
        disconnect_parse(disconnect_packet_bytes() + tail) == Ok::<(int, ()), ParseFailure>(
            (disconnect_packet_bytes().len() as int, ()),
        ),
{
    let s = disconnect_packet_bytes() + tail;
    assert(s[0] == header_start_byte(14, 0));
    assert(s[0] / 0x10 == 14 && s[0] % 0x10 == 0);
    assert(s.drop_first() =~= vbi_bytes(1) + (disconnect_body() + tail));
    lemma_vbi_parse_extension(1, disconnect_body() + tail);
    assert(disconnect_packet_bytes().len() == 3);
}

/// The abstract value of a topic filter, with its name as a byte
/// sequence.
pub struct TopicFilterView {
    pub name: Seq<u8>,
    pub qos: QoS,
    pub no_local: bool,
    pub retain_as_published: bool,
    pub retain: RetainHandling,
}

/// A filter's abstract value.
pub open spec fn filter_view(f: TopicFilter) -> TopicFilterView {
    TopicFilterView {
        name: f.name@,
        qos: f.qos,
        no_local: f.no_local,
        retain_as_published: f.retain_as_published,
        retain: f.retain,
    }
}

/// The abstract values of a list of filters, in order.
pub open spec fn filter_views(fs: Seq<TopicFilter>) -> Seq<TopicFilterView>
    decreases fs.len(),
{
    if fs.len() == 0 {
        Seq::empty()
    } else {
        seq![filter_view(fs.first())] + filter_views(fs.drop_first())
    }
}

/// The retain-handling option a value denotes, defined for 0, 1 and 2.
pub open spec fn retain_handling_from(v: int) -> Option<RetainHandling> {
    if v == 0 {
        Some(RetainHandling::SendRetained)
    } else if v == 1 {
        Some(RetainHandling::SendRetainedOnNewSubscription)
    } else if v == 2 {
        Some(RetainHandling::DoNotSendRetained)
    } else {
        None
    }
}

/// Spec-level parse of the SUBSCRIBE payload: one or more topic
/// filters, each a name and an options byte, filling the sequence
/// exactly. The options byte's two reserved high bits must be clear.
pub open spec fn filters_parse(w: Seq<u8>) -> Option<Seq<TopicFilterView>>
    decreases w.len(),
{
    if w.len() == 0 {
        Some(Seq::empty())
    } else {
        match str_parse(w) {
            Ok((used, name)) => if 0 <= used < w.len() {
                let ob = w[used];
                match (qos_from_byte((ob % 4) as u8), retain_handling_from((ob / 16 % 4) as int)) {
                    (Ok(q), Some(rh)) => if ob / 64 == 0 {
                        match filters_parse(w.subrange(used + 1, w.len() as int)) {
                            Some(rest) => Some(
                                seq![
                                    TopicFilterView {
                                        name,
                                        qos: q,
                                        no_local: ob / 4 % 2 == 1,
                                        retain_as_published: ob / 8 % 2 == 1,
                                        retain: rh,
                                    },
                                ] + rest,
                            ),
                            None => None,
                        }
                    } else {
                        None
                    },
                    _ => None,
                }
            } else {
                None
            },
            Err(_) => None,
        }
    }
}

/// Spec-level parse of a SUBSCRIBE: a fixed header of type 8 whose
/// flags must be 0b0010; then, within the remaining length: the packet
/// identifier, the property block, and the topic filters.
pub open spec fn subscribe_parse(s: Seq<u8>) -> SpecParse<(int, Seq<TopicFilterView>)> {
    match header_parse(s) {
        Ok((hlen, (ty, flags, rem))) => if ty != 8 || flags != 2 {
            Err(ParseFailure::Malformed)
        } else if s.len() < hlen + rem {
            Err(ParseFailure::TooShort)
        } else {
            let w = s.subrange(hlen, hlen + rem);
            if w.len() < 2 {
                Err(ParseFailure::Malformed)
            } else {
                match vbi_parse(w.subrange(2, w.len() as int)) {
                    Ok((pused, plen)) => if 2 + pused + plen <= w.len() {
                        match filters_parse(w.subrange(2 + pused + plen, w.len() as int)) {
                            Some(fs) => Ok(
                                (hlen + rem, (0x100 * (w[0] as int) + (w[1] as int), fs)),
                            ),
                            None => Err(ParseFailure::Malformed),
                        }
                    } else {
                        Err(ParseFailure::Malformed)
                    },
                    Err(_) => Err(ParseFailure::Malformed),
                }
            }
        },
        Err(f) => Err(f),
    }
}

/// The filters payload taken apart from the front: the first filter's
/// bytes, then the rest.
proof fn lemma_filters_payload_first(fs: Seq<TopicFilter>)
    requires
        fs.len() > 0,
    ensures
        filters_payload(fs) == filter_bytes(fs.first()) + filters_payload(fs.drop_first()),
    decreases fs.len(),
{
    if fs.len() == 1 {
        assert(fs.drop_last() =~= Seq::<TopicFilter>::empty());
        assert(fs.drop_first() =~= Seq::<TopicFilter>::empty());
        assert(filters_payload(fs) == filters_payload(fs.drop_last()) + filter_bytes(fs.last()));
        assert(Seq::<u8>::empty() + filter_bytes(fs.first()) =~= filter_bytes(fs.first()));
        assert(filter_bytes(fs.first()) + Seq::<u8>::empty() =~= filter_bytes(fs.first()));
    } else {
        let head = fs.drop_last();
        lemma_filters_payload_first(head);
        assert(head.first() == fs.first());
        assert(head.drop_first() =~= fs.drop_first().drop_last());
        assert(fs.drop_first().last() == fs.last());
        assert(filters_payload(fs.drop_first()) == filters_payload(fs.drop_first().drop_last())
            + filter_bytes(fs.drop_first().last()));
        assert(filters_payload(fs) == filters_payload(head) + filter_bytes(fs.last()));
        assert((filter_bytes(fs.first()) + filters_payload(fs.drop_first().drop_last()))
            + filter_bytes(fs.last()) =~= filter_bytes(fs.first()) + (filters_payload(
            fs.drop_first().drop_last(),
        ) + filter_bytes(fs.last())));
    }
}

/// Parsing the payload of a list of well-formed filters yields their
/// values back.
/// The options byte decodes back to the filter's fields.
proof fn lemma_filter_options_decode(f: TopicFilter)
    ensures
        filter_options_byte(f) as int % 4 == qos_value(f.qos),
        filter_options_byte(f) as int / 4 % 2 == (if f.no_local {
            1int
        } else {
            0
        }),
        filter_options_byte(f) as int / 8 % 2 == (if f.retain_as_published {
            1int
        } else {
            0
        }),
        filter_options_byte(f) as int / 16 % 4 == retain_handling_value(f.retain),
        filter_options_byte(f) as int / 64 == 0,
{
    let ob = filter_options_byte(f) as int;
    assert(ob == 16 * retain_handling_value(f.retain) + (if f.retain_as_published {
        8int
    } else {
        0
    }) + (if f.no_local {
        4int
    } else {
        0
    }) + qos_value(f.qos));
}

#[verifier::rlimit(100)]
proof fn lemma_filters_parse_of_payload(fs: Seq<TopicFilter>)
    requires
        forall|i: int| 0 <= i < fs.len() ==> (#[trigger] fs[i]).wf(),
    ensures
        filters_parse(filters_payload(fs)) == Some(filter_views(fs)),
    decreases fs.len(),
{
    let w = filters_payload(fs);
    if fs.len() == 0 {
        assert(w =~= Seq::<u8>::empty());
        assert(filter_views(fs) =~= Seq::<TopicFilterView>::empty());
    } else {
        let f0 = fs.first();
        assert(f0.wf());
        lemma_filters_payload_first(fs);
        let rest_payload = filters_payload(fs.drop_first());
        assert(w =~= data_bytes(f0.name@) + (seq![filter_options_byte(f0)] + rest_payload));
        lemma_str_parse_extension(f0.name@, seq![filter_options_byte(f0)] + rest_payload);
        let used = 2 + f0.name@.len() as int;
        assert(w.len() == used + 1 + rest_payload.len());
        let ob = w[used];
        assert(ob == filter_options_byte(f0));
        lemma_filter_options_decode(f0);
        assert(qos_from_byte((ob % 4) as u8) == Ok::<QoS, crate::protocol::qos::InvalidQoS>(
            f0.qos,
        ));
        assert(retain_handling_from((ob / 16 % 4) as int) == Some(f0.retain));
        assert(w.subrange(used + 1, w.len() as int) =~= rest_payload);
        assert(forall|i: int|
            0 <= i < fs.drop_first().len() ==> (#[trigger] fs.drop_first()[i]).wf());
        lemma_filters_parse_of_payload(fs.drop_first());
    }
}

/// Law (round trip): parsing the serialized form of any well-formed,
/// encodable SUBSCRIBE — whatever bytes follow it — consumes exactly
/// the packet's bytes and yields its identifier and filters back.
#[verifier::rlimit(100)]
pub proof fn lemma_subscribe_round_trip(sub: Subscribe, tail: Seq<u8>)
    requires
        sub.wf(),
        sub.encodable(),
    ensures
        subscribe_parse(subscribe_packet_bytes(sub) + tail) == Ok::<
            (int, (int, Seq<TopicFilterView>)),
            ParseFailure,
        >(
            (
                subscribe_packet_bytes(sub).len() as int,
                (sub.identifier as int, filter_views(sub.topics@)),
            ),
        ),
{
    let body = subscribe_body(sub);
    let bl = body.len() as int;
    let s = subscribe_packet_bytes(sub) + tail;
    lemma_vbi_bytes_shape(bl);
    let hlen = 1 + vbi_len(bl);

    assert(s[0] == header_start_byte(8, 2));
    assert(s[0] / 0x10 == 8 && s[0] % 0x10 == 2);
    assert(s.drop_first() =~= vbi_bytes(bl) + (body + tail));
    lemma_vbi_parse_extension(bl, body + tail);
    assert(crate::protocol::wire::header_parse(s) == Ok::<(int, (int, int, int)), ParseFailure>(
        (hlen, (8, 2, bl)),
    ));

    assert(s.len() == hlen + bl + tail.len());
    let w = s.subrange(hlen, hlen + bl);
    assert(w =~= body);

    // The identifier reads back.
    let id = sub.identifier as int;
    assert(w[0] == (id / 0x100) as u8 && w[1] == (id % 0x100) as u8);
    assert(0x100 * (w[0] as int) + (w[1] as int) == id);

    // The empty property block: one byte, length zero.
    let rest = w.subrange(2, w.len() as int);
    assert(rest =~= seq![0u8] + filters_payload(sub.topics@));
    lemma_first_low_found(rest, 0);
    assert(rest.subrange(0, 1) =~= seq![0u8]);
    lemma_vbi_value_upto4(rest.subrange(0, 1));
    assert(vbi_parse(rest) == Ok::<(int, int), ParseFailure>((1, 0)));

    // The filters fill the remainder.
    assert(w.subrange(3, w.len() as int) =~= filters_payload(sub.topics@));
    lemma_filters_parse_of_payload(sub.topics@);
    assert(subscribe_packet_bytes(sub).len() == hlen + bl);
}

} // verus!
