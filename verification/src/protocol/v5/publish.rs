//! The PUBLISH packet: the only server-to-client packet the core both
//! parses and encodes.

use vstd::prelude::*;
use vstd::slice::{slice_index_get, slice_subrange, slice_to_vec};

use crate::protocol::qos::{qos_from_byte, qos_value, QoS};
use crate::protocol::types::{
    frame_packet, write_u16_be, EncodedStr, VariableByteIntegerOverflow, VariableByteInteger,
};
use crate::protocol::wire::{
    be16_bytes, data_bytes, header_parse, header_start_byte, lemma_first_low_all_high,
    lemma_first_low_found, lemma_str_parse_extension, lemma_vbi_bytes_shape,
    lemma_vbi_parse_extension, lemma_vbi_value_upto4, str_parse, vbi_bytes, vbi_len, vbi_parse,
    ParseFailure, SpecParse,
};
use crate::protocol::{PacketError, ParseError};
use crate::utils::Cursor;

verus! {

/// The abstract value of a PUBLISH packet, with its topic and payload
/// as byte sequences.
pub struct PublishView {
    pub dup: bool,
    pub qos: QoS,
    pub retain: bool,
    pub identifier: Option<u16>,
    pub topic: Seq<u8>,
    pub payload: Seq<u8>,
}

/// A PUBLISH packet: an application message on a topic.
#[derive(Debug, Clone)]
pub struct Publish {
    /// Whether this is a re-delivery.
    pub dup: bool,
    pub qos: QoS,
    pub retain: bool,
    /// The packet identifier; present exactly when the QoS is above 0.
    pub identifier: Option<u16>,
    pub topic: EncodedStr,
    pub payload: Vec<u8>,
}

impl View for Publish {
    type V = PublishView;

    open spec fn view(&self) -> PublishView {
        PublishView {
            dup: self.dup,
            qos: self.qos,
            retain: self.retain,
            identifier: self.identifier,
            topic: self.topic@,
            payload: self.payload@,
        }
    }
}

/// The PUBLISH flags nibble: dup, the QoS and retain, each in its
/// documented bit position.
pub open spec fn publish_flags(dup: bool, q: QoS, retain: bool) -> int {
    (if dup {
        8int
    } else {
        0
    }) + 2 * qos_value(q) + (if retain {
        1int
    } else {
        0
    })
}

/// The PUBLISH body: the topic, the packet identifier when the QoS is
/// above 0, an empty property block, then the payload, which extends
/// to the end of the remaining length.
pub open spec fn publish_body(p: Publish) -> Seq<u8> {
    data_bytes(p.topic@) + (match p.identifier {
        Some(i) => be16_bytes(i as int),
        None => Seq::empty(),
    }) + seq![0u8] + p.payload@
}

/// The whole PUBLISH packet as it goes on the wire.
pub open spec fn publish_packet_bytes(p: Publish) -> Seq<u8> {
    crate::protocol::wire::packet_bytes(3, publish_flags(p.dup, p.qos, p.retain), publish_body(p))
}

/// Spec-level parse of a PUBLISH: a fixed header of type 3 whose flags
/// carry dup, QoS and retain — a QoS of 3 is rejected as soon as the
/// header is read; then, within the remaining length: the topic, the
/// packet identifier when the QoS is above 0, the property block
/// (consumed but not interpreted), and the payload, which is whatever
/// remains.
pub open spec fn publish_parse(s: Seq<u8>) -> SpecParse<PublishView> {
    match header_parse(s) {
        Ok((hlen, (ty, flags, rem))) => if ty != 3 {
            Err(ParseFailure::Malformed)
        } else {
            let dup = flags / 8 % 2 == 1;
            let retain = flags % 2 == 1;
            match qos_from_byte((flags / 2 % 4) as u8) {
                Err(_) => Err(ParseFailure::Malformed),
                Ok(q) => if s.len() < hlen + rem {
                    Err(ParseFailure::TooShort)
                } else {
                    let w = s.subrange(hlen, hlen + rem);
                    match str_parse(w) {
                    Ok((tused, topic)) => if q != QoS::AtMostOnce && w.len() < tused + 2 {
                        Err(ParseFailure::Malformed)
                    } else {
                        let off = if q == QoS::AtMostOnce {
                            tused
                        } else {
                            tused + 2
                        };
                        let ident = if q == QoS::AtMostOnce {
                            None
                        } else {
                            Some(((0x100 * (w[tused] as int) + (w[tused + 1] as int))) as u16)
                        };
                        match vbi_parse(w.subrange(off, w.len() as int)) {
                            Ok((pused, plen)) => if off + pused + plen <= w.len() {
                                Ok(
                                    (
                                        hlen + rem,
                                        PublishView {
                                            dup,
                                            qos: q,
                                            retain,
                                            identifier: ident,
                                            topic,
                                            payload: w.subrange(
                                                off + pused + plen,
                                                w.len() as int,
                                            ),
                                        },
                                    ),
                                )
                            } else {
                                Err(ParseFailure::Malformed)
                            },
                            Err(_) => Err(ParseFailure::Malformed),
                        }
                    },
                        Err(_) => Err(ParseFailure::Malformed),
                    }
                },
            }
        },
        Err(f) => Err(f),
    }
}

impl Publish {
    /// The topic is sound and the identifier is present exactly when
    /// the QoS asks for one.
    pub open spec fn wf(self) -> bool {
        &&& self.topic.wf()
        &&& (self.identifier is Some <==> self.qos != QoS::AtMostOnce)
    }

    pub open spec fn encodable(self) -> bool {
        publish_body(self).len() <= 0x0FFF_FFFF
    }

    /// The fixed-header flags nibble.
    pub fn flags(&self) -> (r: u8)
        ensures
            r as int == publish_flags(self.dup, self.qos, self.retain),
    {
        let q: u8 = match self.qos {
            QoS::AtMostOnce => 0,
            QoS::AtLeastOnce => 1,
            QoS::ExactlyOnce => 2,
        };
        let mut f: u8 = 2 * q;
        if self.dup {
            f = f + 8;
        }
        if self.retain {
            f = f + 1;
        }
        f
    }

    /// Appends the PUBLISH body.
    pub fn write_to(&self, out: &mut Vec<u8>)
        requires
            self.wf(),
        ensures
            final(out)@ == old(out)@ + publish_body(*self),
    {
        self.topic.write_to(out);
        match &self.identifier {
            Some(i) => write_u16_be(*i, out),
            None => {},
        }
        out.push(0);
        let mut payload = slice_to_vec(self.payload.as_slice());
        out.append(&mut payload);
        proof {
            assert(final(out)@ =~= old(out)@ + publish_body(*self));
        }
    }

    /// The whole packet, fixed header included, as it goes on the wire.
    pub fn to_bytes(&self) -> (r: Result<Vec<u8>, VariableByteIntegerOverflow>)
        requires
            self.wf(),
        ensures
            match r {
                Ok(v) => self.encodable() && v@ == publish_packet_bytes(*self),
                Err(_) => !self.encodable(),
            },
    {
        let mut body: Vec<u8> = Vec::new();
        self.write_to(&mut body);
        let f = self.flags();
        frame_packet(3, f, body)
    }

    /// Parses a PUBLISH from the front of a slice.
    pub fn parse(data: &[u8]) -> (r: Result<(usize, Self), ParseError<PacketError>>)
        ensures
            match r {
                Ok((used, p)) => {
                    &&& publish_parse(data@) matches Ok((u, v)) && u == used as int && v == p@
                    &&& p.wf()
                    &&& used <= data@.len()
                },
                Err(ParseError::NotEnoughData) => publish_parse(data@) == Err::<
                    (int, PublishView),
                    ParseFailure,
                >(ParseFailure::TooShort),
                Err(ParseError::Error(_)) => publish_parse(data@) == Err::<
                    (int, PublishView),
                    ParseFailure,
                >(ParseFailure::Malformed),
            },
    {
        let mut cursor = Cursor::new(data);
        proof {
            assert(cursor.rem_spec() =~= data@);
        }
        let header = match cursor.read_fixed_header(3) {
            Ok(h) => h,
            Err(e) => {
                return Err(e);
            },
        };
        let hflags = header.flags();
        let dup = hflags / 8 % 2 == 1;
        let retain = hflags % 2 == 1;
        let qos = match QoS::try_from(hflags / 2 % 4) {
            Ok(q) => q,
            Err(_) => {
                return Err(ParseError::Error(PacketError::ProtocolError));
            },
        };
        let rem = header.length().as_u32() as usize;
        let start = cursor.position();
        if data.len() - start < rem {
            return Err(ParseError::NotEnoughData);
        }
        let window = slice_subrange(data, start, start + rem);
        let (tused, topic) = match EncodedStr::parse(window) {
            Ok(x) => x,
            Err(_) => {
                return Err(ParseError::Error(PacketError::ProtocolError));
            },
        };
        let identifier: Option<u16>;
        let off: usize;
        match qos {
            QoS::AtMostOnce => {
                identifier = None;
                off = tused;
            },
            _ => {
                if window.len() < 2 || tused > window.len() - 2 {
                    return Err(ParseError::Error(PacketError::ProtocolError));
                }
                let hi = *slice_index_get(window, tused);
                let lo = *slice_index_get(window, tused + 1);
                identifier = Some(0x100 * (hi as u16) + (lo as u16));
                off = tused + 2;
            },
        }
        let rest = slice_subrange(window, off, window.len());
        proof {
            assert(rest@ =~= window@.subrange(off as int, window@.len() as int));
        }
        let (pused, plen_v) = match VariableByteInteger::parse(rest) {
            Ok(x) => x,
            Err(_) => {
                return Err(ParseError::Error(PacketError::ProtocolError));
            },
        };
        let plen = plen_v.as_u32() as usize;
        if plen > window.len() - off - pused {
            return Err(ParseError::Error(PacketError::ProtocolError));
        }
        let payload = slice_to_vec(slice_subrange(window, off + pused + plen, window.len()));
        Ok(
            (
                start + rem,
                Publish { dup, qos, retain, identifier, topic, payload },
            ),
        )
    }
}


/// Law (round trip): parsing the serialized form of any well-formed,
/// encodable PUBLISH — whatever bytes follow it — consumes exactly the
/// packet's bytes and yields the packet's value back.
#[verifier::rlimit(100)]
pub proof fn lemma_publish_round_trip(p: Publish, tail: Seq<u8>)
    requires
        p.wf(),
        p.encodable(),
    ensures
        publish_parse(publish_packet_bytes(p) + tail) == Ok::<(int, PublishView), ParseFailure>(
            (publish_packet_bytes(p).len() as int, p@),
        ),
{
    let body = publish_body(p);
    let flags = publish_flags(p.dup, p.qos, p.retain);
    let bl = body.len() as int;
    let s = publish_packet_bytes(p) + tail;
    lemma_vbi_bytes_shape(bl);
    let hlen = 1 + vbi_len(bl);

    // The fixed header parses: type 3, the flags, and the body length.
    assert(0 <= flags < 0x10);
    assert(s[0] == header_start_byte(3, flags));
    assert(s[0] / 0x10 == 3 && s[0] % 0x10 == flags);
    assert(s.drop_first() =~= vbi_bytes(bl) + (body + tail));
    lemma_vbi_parse_extension(bl, body + tail);
    assert(crate::protocol::wire::header_parse(s) == Ok::<(int, (int, int, int)), ParseFailure>(
        (hlen, (3, flags, bl)),
    ));

    // The whole body is present, and the window is exactly the body.
    assert(s.len() == hlen + bl + tail.len());
    let w = s.subrange(hlen, hlen + bl);
    assert(w =~= body);

    // The flags decode to the packet's dup, QoS and retain.
    let q = crate::protocol::qos::qos_value(p.qos);
    assert(flags == 8 * (if p.dup { 1int } else { 0 }) + 2 * q + (if p.retain { 1int } else { 0 }));
    assert(flags / 8 % 2 == (if p.dup { 1int } else { 0 }));
    assert(flags % 2 == (if p.retain { 1int } else { 0 }));
    assert(flags / 2 % 4 == q);
    assert(qos_from_byte((flags / 2 % 4) as u8) == Ok::<QoS, crate::protocol::qos::InvalidQoS>(
        p.qos,
    ));

    // The topic parses off the front of the window.
    let idpart = match p.identifier {
        Some(i) => be16_bytes(i as int),
        None => Seq::<u8>::empty(),
    };
    let rest1 = idpart + seq![0u8] + p.payload@;
    assert(w =~= data_bytes(p.topic@) + rest1);
    lemma_str_parse_extension(p.topic@, rest1);
    let tused = 2 + p.topic@.len() as int;

    // The identifier, when present, reads back as itself.
    let off = if p.qos == QoS::AtMostOnce { tused } else { tused + 2 };
    if p.qos != QoS::AtMostOnce {
        let i = p.identifier.unwrap() as int;
        assert(w[tused] == (i / 0x100) as u8);
        assert(w[tused + 1] == (i % 0x100) as u8);
        assert(0x100 * (w[tused] as int) + (w[tused + 1] as int) == i);
        assert(w.len() >= tused + 2);
    }

    // The empty property block parses: one byte, length zero.
    let rest2 = w.subrange(off, w.len() as int);
    assert(rest2 =~= seq![0u8] + p.payload@);
    assert(rest2[0] == 0u8);
    lemma_first_low_found(rest2, 0);
    assert(rest2.subrange(0, 1) =~= seq![0u8]);
    lemma_vbi_value_upto4(rest2.subrange(0, 1));
    assert(crate::protocol::wire::vbi_parse(rest2) == Ok::<(int, int), ParseFailure>((1, 0)));

    // The payload is the rest of the window.
    assert(w.subrange(off + 1, w.len() as int) =~= p.payload@);
    assert(publish_packet_bytes(p).len() == hlen + bl);
}

/// Law (incrementality): every strict prefix of the serialized form of
/// a well-formed, encodable PUBLISH parses as "not enough data" — never
/// as a packet and never as an error — and, with
/// [`lemma_publish_round_trip`], the full form parses as the packet.
pub proof fn lemma_publish_parse_prefix(p: Publish, k: int)
    requires
        p.wf(),
        p.encodable(),
        0 <= k < publish_packet_bytes(p).len(),
    ensures
        publish_parse(publish_packet_bytes(p).subrange(0, k)) == Err::<
            (int, PublishView),
            ParseFailure,
        >(ParseFailure::TooShort),
{
    let body = publish_body(p);
    let flags = publish_flags(p.dup, p.qos, p.retain);
    let bl = body.len() as int;
    let s = publish_packet_bytes(p);
    lemma_vbi_bytes_shape(bl);
    let hlen = 1 + vbi_len(bl);
    let q = s.subrange(0, k);
    if k == 0 {
        assert(q.len() < 1);
    } else if k - 1 < vbi_len(bl) {
        // The remaining-length integer is cut: all its bytes so far
        // carry the continuation bit.
        assert(q.drop_first() =~= vbi_bytes(bl).subrange(0, k - 1));
        assert(forall|j: int|
            0 <= j < k - 1 ==> q.drop_first()[j] == vbi_bytes(bl)[j] && vbi_bytes(bl)[j] >= 0x80);
        lemma_first_low_all_high(q.drop_first());
    } else {
        // The header is whole but the body is cut.
        assert(q[0] == header_start_byte(3, flags));
        assert(0 <= flags < 0x10);
        assert(q[0] / 0x10 == 3 && q[0] % 0x10 == flags);
        assert(q.drop_first() =~= vbi_bytes(bl) + s.subrange(hlen, k));
        lemma_vbi_parse_extension(bl, s.subrange(hlen, k));
        assert(crate::protocol::wire::header_parse(q) == Ok::<
            (int, (int, int, int)),
            ParseFailure,
        >((hlen, (3, flags, bl))));
        assert(s.len() == hlen + bl);
        assert(q.len() < hlen + bl);
    }
}

} // verus!
