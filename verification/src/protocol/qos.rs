//! Quality of Service levels.

use vstd::prelude::*;

verus! {

/// Quality of Service levels.
///
/// On the wire a QoS is one of the byte values 0, 1 and 2; the value 3
/// is a protocol error.
#[derive(Copy, Clone, Debug, PartialEq, Eq, Structural, PartialOrd, Ord)]
pub enum QoS {
    /// QoS 0: at most once delivery.
    AtMostOnce,
    /// QoS 1: at least once delivery.
    AtLeastOnce,
    /// QoS 2: exactly once delivery.
    ExactlyOnce,
}

/// The numeric value of a Quality of Service level.
pub open spec fn qos_value(q: QoS) -> int {
    match q {
        QoS::AtMostOnce => 0,
        QoS::AtLeastOnce => 1,
        QoS::ExactlyOnce => 2,
    }
}

/// The Quality of Service level a byte denotes: defined exactly for
/// the values 0, 1 and 2.
pub open spec fn qos_from_byte(v: u8) -> Result<QoS, InvalidQoS> {
    if v == 0 {
        Ok(QoS::AtMostOnce)
    } else if v == 1 {
        Ok(QoS::AtLeastOnce)
    } else if v == 2 {
        Ok(QoS::ExactlyOnce)
    } else {
        Err(InvalidQoS(v))
    }
}

impl From<QoS> for u8 {
    /// The level's numeric value.
    fn from(value: QoS) -> u8 {
        match value {
            QoS::AtMostOnce => 0,
            QoS::AtLeastOnce => 1,
            QoS::ExactlyOnce => 2,
        }
    }
}

impl vstd::std_specs::convert::FromSpecImpl<QoS> for u8 {
    open spec fn obeys_from_spec() -> bool {
        true
    }

    open spec fn from_spec(v: QoS) -> u8 {
        qos_value(v) as u8
    }
}

impl TryFrom<u8> for QoS {
    type Error = InvalidQoS;

    /// Parses a byte as a level; succeeds exactly for 0, 1 and 2.
    fn try_from(value: u8) -> Result<Self, Self::Error> {
        match value {
            0 => Ok(Self::AtMostOnce),
            1 => Ok(Self::AtLeastOnce),
            2 => Ok(Self::ExactlyOnce),
            v => Err(InvalidQoS(v)),
        }
    }
}

impl vstd::std_specs::convert::TryFromSpecImpl<u8> for QoS {
    open spec fn obeys_try_from_spec() -> bool {
        true
    }

    open spec fn try_from_spec(v: u8) -> Result<Self, Self::Error> {
        qos_from_byte(v)
    }
}

/// Error when attempting to create an invalid [`QoS`] level, carrying
/// the rejected byte.
#[derive(Debug, PartialEq, Eq, Structural)]
pub struct InvalidQoS(pub u8);

/// Law: a byte parses as a Quality of Service level exactly when it is
/// at most 2, the parsed level's value is that byte, and every level's
/// value parses back to the level.
pub proof fn lemma_qos_byte_round_trip(v: u8, q: QoS)
    ensures
        qos_from_byte(v) matches Ok(p) <==> v <= 2,
        qos_from_byte(v) matches Ok(p) ==> qos_value(p) == v as int,
        qos_from_byte(v) matches Err(e) ==> e == InvalidQoS(v),
        qos_from_byte(qos_value(q) as u8) == Ok::<QoS, InvalidQoS>(q),
{
}

} // verus!
