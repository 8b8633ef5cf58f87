//! Primitive wire types: the variable byte integer and the fixed header.

use vstd::prelude::*;
use vstd::slice::{slice_index_get, slice_subrange, slice_to_vec};
use vstd::string::StringSliceAdditionalSpecFns;

use crate::protocol::wire::{
    data_bytes, data_parse, header_parse, lemma_first_low_all_high, lemma_first_low_found,
    lemma_vbi_bytes_shape, lemma_vbi_value_of_padded, lemma_vbi_value_upto4, str_parse, vbi_bytes,
    vbi_len, vbi_padded, vbi_parse, vbi_value, ParseFailure, SpecParse,
};
use crate::protocol::{PacketError, ParseError};

verus! {

/// Error when encoding a value larger than `0x0FFF_FFFF`, which no
/// variable byte integer can represent.
#[derive(Debug)]
pub struct VariableByteIntegerOverflow;

/// Error when a parsed variable byte integer runs past four bytes: the
/// fourth byte still carries the continuation bit.
#[derive(Debug, PartialEq, Eq, Structural)]
pub struct VariableByteIntegerInvalid;

/// A variable byte integer: MQTT's 1–4 byte self-delimiting encoding of
/// the values `0..=0x0FFF_FFFF`. Each byte carries seven payload bits;
/// the high bit of every byte but the last is a continuation flag.
///
/// The integer is stored in its encoded form, zero-padded to four
/// bytes; the padding keeps the `size` operation unambiguous.
#[derive(Clone, Copy, Debug, PartialEq, Eq)]
pub struct VariableByteInteger {
    bytes: [u8; 4],
}

impl VariableByteInteger {
    /// The value this variable byte integer denotes.
    pub closed spec fn value(self) -> int {
        vbi_value(self.bytes@)
    }

    /// Well-formed: the stored bytes are the canonical (shortest)
    /// encoding of the value, zero-padded to four bytes.
    pub closed spec fn wf(self) -> bool {
        &&& self.value() <= 0x0FFF_FFFF
        &&& self.bytes@ == vbi_padded(self.value())
    }

    /// The range of a well-formed variable byte integer's value,
    /// spelled out for callers of the closed predicates.
    pub proof fn lemma_wf_bounds(self)
        requires
            self.wf(),
        ensures
            0 <= self.value() <= 0x0FFF_FFFF,
    {
        crate::protocol::wire::lemma_vbi_value_nonneg(self.bytes@);
    }

    /// Encodes `num`, which must fit, into its canonical stored form.
    fn from_value(num: u32) -> (r: Self)
        requires
            num <= 0x0FFF_FFFF,
        ensures
            r.wf(),
            r.value() == num as int,
    {
        let n1 = num / 0x80;
        let n2 = n1 / 0x80;
        let n3 = n2 / 0x80;
        let b0: u8 = if n1 > 0 {
            (num % 0x80 + 0x80) as u8
        } else {
            (num % 0x80) as u8
        };
        let b1: u8 = if n1 == 0 {
            0
        } else if n2 > 0 {
            (n1 % 0x80 + 0x80) as u8
        } else {
            (n1 % 0x80) as u8
        };
        let b2: u8 = if n2 == 0 {
            0
        } else if n3 > 0 {
            (n2 % 0x80 + 0x80) as u8
        } else {
            (n2 % 0x80) as u8
        };
        let b3: u8 = (n3 % 0x80) as u8;
        let bytes: [u8; 4] = [b0, b1, b2, b3];
        proof {
            let n = num as int;
            assert(bytes@ =~= seq![b0, b1, b2, b3]);
            if n < 0x80 {
                assert(vbi_bytes(n) =~= seq![b0]);
            } else if n < 0x4000 {
                assert(vbi_bytes(n / 0x80) =~= seq![b1]);
                assert(vbi_bytes(n) =~= seq![b0] + vbi_bytes(n / 0x80));
            } else if n < 0x20_0000 {
                assert(vbi_bytes(n / 0x80 / 0x80) =~= seq![b2]);
                assert(vbi_bytes(n / 0x80) =~= seq![b1] + vbi_bytes(n / 0x80 / 0x80));
                assert(vbi_bytes(n) =~= seq![b0] + vbi_bytes(n / 0x80));
            } else {
                assert(n / 0x80 / 0x80 / 0x80 < 0x80);
                assert(vbi_bytes(n / 0x80 / 0x80 / 0x80) =~= seq![b3]);
                assert(vbi_bytes(n / 0x80 / 0x80) =~= seq![b2] + vbi_bytes(n / 0x80 / 0x80 / 0x80));
                assert(vbi_bytes(n / 0x80) =~= seq![b1] + vbi_bytes(n / 0x80 / 0x80));
                assert(vbi_bytes(n) =~= seq![b0] + vbi_bytes(n / 0x80));
            }
            assert(bytes@ =~= vbi_padded(n));
            lemma_vbi_value_of_padded(n);
        }
        VariableByteInteger { bytes }
    }

    /// Encodes a value, rejecting those above `0x0FFF_FFFF`.
    pub fn encode(num: u32) -> (r: Result<Self, VariableByteIntegerOverflow>)
        ensures
            match r {
                Ok(v) => num <= 0x0FFF_FFFF && v.wf() && v.value() == num as int,
                Err(_) => num > 0x0FFF_FFFF,
            },
    {
        if num > 0x0FFF_FFFF {
            Err(VariableByteIntegerOverflow)
        } else {
            Ok(Self::from_value(num))
        }
    }

    /// Parses a variable byte integer from the front of a slice.
    ///
    /// Returns `ParseError::NotEnoughData` while the integer is still
    /// open-ended: parsing can be re-attempted with more data. A fourth
    /// byte with the continuation bit still set is an error.
    pub fn parse(data: &[u8]) -> (r: Result<(usize, Self), ParseError<VariableByteIntegerInvalid>>)
        ensures
            match r {
                Ok((used, v)) => {
                    &&& vbi_parse(data@) == Ok::<(int, int), ParseFailure>(
                        (used as int, v.value()),
                    )
                    &&& v.wf()
                    &&& 1 <= used <= 4
                    &&& used <= data@.len()
                },
                Err(ParseError::NotEnoughData) => vbi_parse(data@) == Err::<(int, int), ParseFailure>(
                    ParseFailure::TooShort,
                ),
                Err(ParseError::Error(_)) => vbi_parse(data@) == Err::<(int, int), ParseFailure>(
                    ParseFailure::Malformed,
                ),
            },
    {
        if data.len() == 0 {
            return Err(ParseError::NotEnoughData);
        }
        let b0 = *slice_index_get(data, 0);
        if b0 < 0x80 {
            proof {
                lemma_first_low_found(data@, 0);
                lemma_vbi_value_upto4(data@.subrange(0, 1));
            }
            return Ok((1, Self::from_value(b0 as u32)));
        }
        if data.len() == 1 {
            proof {
                lemma_first_low_all_high(data@);
            }
            return Err(ParseError::NotEnoughData);
        }
        let b1 = *slice_index_get(data, 1);
        if b1 < 0x80 {
            let value = (b0 - 0x80) as u32 + 0x80 * (b1 as u32);
            proof {
                lemma_first_low_found(data@, 1);
                lemma_vbi_value_upto4(data@.subrange(0, 2));
            }
            return Ok((2, Self::from_value(value)));
        }
        if data.len() == 2 {
            proof {
                lemma_first_low_all_high(data@);
            }
            return Err(ParseError::NotEnoughData);
        }
        let b2 = *slice_index_get(data, 2);
        if b2 < 0x80 {
            let value = (b0 - 0x80) as u32 + 0x80 * ((b1 - 0x80) as u32) + 0x4000 * (b2 as u32);
            proof {
                lemma_first_low_found(data@, 2);
                lemma_vbi_value_upto4(data@.subrange(0, 3));
            }
            return Ok((3, Self::from_value(value)));
        }
        if data.len() == 3 {
            proof {
                lemma_first_low_all_high(data@);
            }
            return Err(ParseError::NotEnoughData);
        }
        let b3 = *slice_index_get(data, 3);
        if b3 < 0x80 {
            let value = (b0 - 0x80) as u32 + 0x80 * ((b1 - 0x80) as u32) + 0x4000 * ((b2
                - 0x80) as u32) + 0x20_0000 * (b3 as u32);
            proof {
                lemma_first_low_found(data@, 3);
                lemma_vbi_value_upto4(data@.subrange(0, 4));
            }
            return Ok((4, Self::from_value(value)));
        }
        proof {
            crate::protocol::wire::lemma_first_low_min(data@, 4);
        }
        Err(ParseError::Error(VariableByteIntegerInvalid))
    }

    /// The value as a `u8`, if it can be represented as one.
    pub fn as_u8(&self) -> (r: Option<u8>)
        requires
            self.wf(),
        ensures
            r == (if self.value() < 0x80 {
                Some(self.value() as u8)
            } else {
                None::<u8>
            }),
    {
        proof {
            self.lemma_stored_bytes();
        }
        let b0 = *vstd::array::array_index_get(&self.bytes, 0);
        if b0 < 0x80 {
            Some(b0)
        } else {
            None
        }
    }

    /// The value as a `u16`, if it can be represented as one.
    pub fn as_u16(&self) -> (r: Option<u16>)
        requires
            self.wf(),
        ensures
            r == (if self.value() < 0x4000 {
                Some(self.value() as u16)
            } else {
                None::<u16>
            }),
    {
        proof {
            self.lemma_stored_bytes();
        }
        let b0 = *vstd::array::array_index_get(&self.bytes, 0);
        if b0 < 0x80 {
            Some(b0 as u16)
        } else {
            let b1 = *vstd::array::array_index_get(&self.bytes, 1);
            if b1 < 0x80 {
                Some((b0 - 0x80) as u16 + 0x80 * (b1 as u16))
            } else {
                None
            }
        }
    }

    /// The value as a `u32`.
    pub fn as_u32(&self) -> (r: u32)
        ensures
            r as int == self.value(),
    {
        proof {
            lemma_vbi_value_upto4(self.bytes@);
        }
        let b0 = *vstd::array::array_index_get(&self.bytes, 0);
        let b1 = *vstd::array::array_index_get(&self.bytes, 1);
        let b2 = *vstd::array::array_index_get(&self.bytes, 2);
        let b3 = *vstd::array::array_index_get(&self.bytes, 3);
        (b0 % 0x80) as u32 + 0x80 * ((b1 % 0x80) as u32) + 0x4000 * ((b2 % 0x80) as u32) + 0x20_0000
            * ((b3 % 0x80) as u32)
    }

    /// The number of bytes of the encoding: the smallest that fits.
    pub fn size(&self) -> (r: usize)
        requires
            self.wf(),
        ensures
            r as int == vbi_len(self.value()),
            1 <= r <= 4,
    {
        proof {
            self.lemma_stored_bytes();
        }
        let b1 = *vstd::array::array_index_get(&self.bytes, 1);
        let b2 = *vstd::array::array_index_get(&self.bytes, 2);
        let b3 = *vstd::array::array_index_get(&self.bytes, 3);
        if b1 == 0 {
            1
        } else if b2 == 0 {
            2
        } else if b3 == 0 {
            3
        } else {
            4
        }
    }

    /// The encoded bytes, without the zero padding.
    pub fn as_slice(&self) -> (r: Vec<u8>)
        requires
            self.wf(),
        ensures
            r@ == vbi_bytes(self.value()),
    {
        proof {
            self.lemma_stored_bytes();
        }
        let n = self.size();
        let sub = slice_subrange(self.bytes.as_slice(), 0, n);
        proof {
            assert(self.bytes@.subrange(0, vbi_len(self.value())) =~= vbi_bytes(self.value()));
        }
        slice_to_vec(sub)
    }

    /// Appends the encoded bytes to `out`.
    pub fn write_to(&self, out: &mut Vec<u8>)
        requires
            self.wf(),
        ensures
            final(out)@ == old(out)@ + vbi_bytes(self.value()),
    {
        let mut encoded = self.as_slice();
        out.append(&mut encoded);
    }

    /// Facts about the stored, padded encoding that the accessors need.
    proof fn lemma_stored_bytes(self)
        requires
            self.wf(),
        ensures
            self.bytes@.len() == 4,
            self.bytes@.subrange(0, vbi_len(self.value())) == vbi_bytes(self.value()),
            forall|i: int| vbi_len(self.value()) <= i < 4 ==> self.bytes@[i] == 0,
            forall|i: int| 0 <= i < vbi_len(self.value()) - 1 ==> self.bytes@[i] >= 0x80,
            self.bytes@[vbi_len(self.value()) - 1] < 0x80,
            vbi_len(self.value()) > 1 ==> self.bytes@[vbi_len(self.value()) - 1] >= 1,
            self.value() < 0x80 ==> self.bytes@[0] == self.value(),
            0x80 <= self.value() < 0x4000 ==> self.bytes@[0] == self.value() % 0x80 + 0x80
                && self.bytes@[1] == self.value() / 0x80,
    {
        let v = self.value();
        crate::protocol::wire::lemma_vbi_value_nonneg(self.bytes@);
        lemma_vbi_bytes_shape(v);
        assert(self.bytes@.subrange(0, vbi_len(v)) =~= vbi_bytes(v));
        if 0x80 <= v < 0x4000 {
            assert(vbi_bytes(v) == seq![(v % 0x80 + 0x80) as u8] + vbi_bytes(v / 0x80));
            assert(vbi_bytes(v / 0x80) =~= seq![(v / 0x80) as u8]);
        }
    }
}

impl TryFrom<u32> for VariableByteInteger {
    type Error = VariableByteIntegerOverflow;

    /// Encodes a value, rejecting those above `0x0FFF_FFFF`. The exact
    /// contract is on [`VariableByteInteger::encode`], which this calls.
    fn try_from(value: u32) -> Result<Self, Self::Error> {
        Self::encode(value)
    }
}

impl vstd::std_specs::convert::TryFromSpecImpl<u32> for VariableByteInteger {
    /// The result of `try_from` is a stored byte array that spec code
    /// cannot build, so the conversion is not specified through this
    /// trait; callers go by the contract of `encode`.
    open spec fn obeys_try_from_spec() -> bool {
        false
    }

    open spec fn try_from_spec(v: u32) -> Result<Self, Self::Error> {
        Err(VariableByteIntegerOverflow)
    }
}

impl From<VariableByteInteger> for u32 {
    /// The denoted value, as [`VariableByteInteger::as_u32`] computes it.
    fn from(value: VariableByteInteger) -> u32 {
        value.as_u32()
    }
}

impl vstd::std_specs::convert::FromSpecImpl<VariableByteInteger> for u32 {
    open spec fn obeys_from_spec() -> bool {
        true
    }

    open spec fn from_spec(v: VariableByteInteger) -> u32 {
        v.value() as u32
    }
}

/// The number of bytes of the UTF-8 scalar encoding that starts at
/// offset `i`, or `None` when no well-formed scalar starts there.
#[verifier::rlimit(60)]
fn utf8_step(bytes: &[u8], i: usize) -> (r: Option<usize>)
    requires
        i < bytes@.len(),
    ensures
        ({
            let suffix = bytes@.subrange(i as int, bytes@.len() as int);
            match r {
                Some(k) => {
                    &&& vstd::utf8::valid_first_scalar(suffix)
                    &&& vstd::utf8::length_of_first_scalar(suffix) == k as int
                    &&& 1 <= k <= 4
                    &&& i + k <= bytes@.len()
                },
                None => !vstd::utf8::valid_first_scalar(suffix),
            }
        }),
{
    let ghost suffix = bytes@.subrange(i as int, bytes@.len() as int);
    let n = bytes.len();
    let b1 = *slice_index_get(bytes, i);
    proof {
        assert(suffix[0] == b1);
    }
    if b1 < 0x80 {
        // One byte: 0xxxxxxx. A one-byte codepoint is never overlong
        // and lies far below the surrogate range.
        proof {
            let cp = vstd::utf8::codepoint_width_1(b1);
            assert(cp == (b1 & 0x7f) as u32);
            assert(b1 < 0x80 ==> ((b1 & 0x7f) as u32) < 0xd800) by (bit_vector);
        }
        return Some(1);
    }
    if b1 < 0xc0 {
        // A continuation byte cannot lead.
        return None;
    }
    if b1 < 0xe0 {
        // Two bytes: 110xxxxx 10xxxxxx.
        if n - i < 2 {
            return None;
        }
        let b2 = *slice_index_get(bytes, i + 1);
        proof {
            assert(suffix[1] == b2);
        }
        if !(0x80 <= b2 && b2 <= 0xbf) {
            return None;
        }
        proof {
            let cp = vstd::utf8::codepoint_width_2(b1, b2);
            assert(cp == ((((b1 & 0x1f) as u32) << 6) | ((b2 & 0x3f) as u32)));
            assert((0xc0 <= b1 <= 0xdf && 0x80 <= b2 <= 0xbf) ==> (((((b1 & 0x1f) as u32) << 6) | (
            (b2 & 0x3f) as u32)) >= 0x80) == (b1 >= 0xc2)) by (bit_vector);
            assert((0xc0 <= b1 <= 0xdf && 0x80 <= b2 <= 0xbf) ==> ((((b1 & 0x1f) as u32) << 6) | ((
            b2 & 0x3f) as u32)) < 0xd800) by (bit_vector);
        }
        if b1 < 0xc2 {
            // Overlong: the value fits one byte.
            return None;
        }
        return Some(2);
    }
    if b1 < 0xf0 {
        // Three bytes: 1110xxxx 10xxxxxx 10xxxxxx.
        if n - i < 3 {
            return None;
        }
        let b2 = *slice_index_get(bytes, i + 1);
        let b3 = *slice_index_get(bytes, i + 2);
        proof {
            assert(suffix[1] == b2);
            assert(suffix[2] == b3);
        }
        if !(0x80 <= b2 && b2 <= 0xbf) || !(0x80 <= b3 && b3 <= 0xbf) {
            return None;
        }
        proof {
            let cp = vstd::utf8::codepoint_width_3(b1, b2, b3);
            assert(cp == ((((b1 & 0x0f) as u32) << 12) | (((b2 & 0x3f) as u32) << 6) | ((b3
                & 0x3f) as u32)));
            assert((0xe0 <= b1 <= 0xef && 0x80 <= b2 <= 0xbf && 0x80 <= b3 <= 0xbf) ==> (((((b1
                & 0x0f) as u32) << 12) | (((b2 & 0x3f) as u32) << 6) | ((b3 & 0x3f) as u32))
                >= 0x800) == (b1 != 0xe0 || b2 >= 0xa0)) by (bit_vector);
            assert((0xe0 <= b1 <= 0xef && 0x80 <= b2 <= 0xbf && 0x80 <= b3 <= 0xbf) ==> ((0xd800
                <= ((((b1 & 0x0f) as u32) << 12) | (((b2 & 0x3f) as u32) << 6) | ((b3
                & 0x3f) as u32)) <= 0xdfff)) == (b1 == 0xed && b2 >= 0xa0)) by (bit_vector);
        }
        if b1 == 0xe0 && b2 < 0xa0 {
            // Overlong: the value fits two bytes.
            return None;
        }
        if b1 == 0xed && b2 >= 0xa0 {
            // The surrogate range is not valid UTF-8.
            return None;
        }
        return Some(3);
    }
    if b1 < 0xf8 {
        // Four bytes: 11110xxx 10xxxxxx 10xxxxxx 10xxxxxx.
        if n - i < 4 {
            return None;
        }
        let b2 = *slice_index_get(bytes, i + 1);
        let b3 = *slice_index_get(bytes, i + 2);
        let b4 = *slice_index_get(bytes, i + 3);
        proof {
            assert(suffix[1] == b2);
            assert(suffix[2] == b3);
            assert(suffix[3] == b4);
        }
        if !(0x80 <= b2 && b2 <= 0xbf) || !(0x80 <= b3 && b3 <= 0xbf) || !(0x80 <= b4 && b4
            <= 0xbf) {
            return None;
        }
        proof {
            let cp = vstd::utf8::codepoint_width_4(b1, b2, b3, b4);
            assert(cp == ((((b1 & 0x07) as u32) << 18) | (((b2 & 0x3f) as u32) << 12) | (((b3
                & 0x3f) as u32) << 6) | ((b4 & 0x3f) as u32)));
            assert((0xf0 <= b1 <= 0xf7 && 0x80 <= b2 <= 0xbf && 0x80 <= b3 <= 0xbf && 0x80 <= b4
                <= 0xbf) ==> (((((b1 & 0x07) as u32) << 18) | (((b2 & 0x3f) as u32) << 12) | (((b3
                & 0x3f) as u32) << 6) | ((b4 & 0x3f) as u32)) >= 0x10000) == (b1 != 0xf0 || b2
                >= 0x90)) by (bit_vector);
            assert((0xf0 <= b1 <= 0xf7 && 0x80 <= b2 <= 0xbf && 0x80 <= b3 <= 0xbf && 0x80 <= b4
                <= 0xbf) ==> (((((b1 & 0x07) as u32) << 18) | (((b2 & 0x3f) as u32) << 12) | (((b3
                & 0x3f) as u32) << 6) | ((b4 & 0x3f) as u32)) <= 0x10ffff) == (b1 < 0xf4 || (b1
                == 0xf4 && b2 < 0x90))) by (bit_vector);
        }
        if b1 == 0xf0 && b2 < 0x90 {
            // Overlong: the value fits three bytes.
            return None;
        }
        if b1 > 0xf4 || (b1 == 0xf4 && b2 >= 0x90) {
            // Beyond the last Unicode scalar.
            return None;
        }
        return Some(4);
    }
    // 11111xxx can lead no encoding.
    None
}

/// Whether the bytes are a well-formed UTF-8 encoding, by vstd's
/// definition: each position starts a well-formed scalar encoding
/// that is neither overlong nor in the surrogate range.
fn check_utf8(bytes: &[u8]) -> (r: bool)
    ensures
        r == vstd::utf8::valid_utf8(bytes@),
{
    let n = bytes.len();
    let mut i: usize = 0;
    proof {
        assert(bytes@.subrange(0, 0) =~= Seq::<u8>::empty());
    }
    while i < n
        invariant
            i <= n,
            n == bytes@.len(),
            vstd::utf8::valid_utf8(bytes@.subrange(0, i as int)),
        decreases n - i,
    {
        match utf8_step(bytes, i) {
            Some(k) => {
                proof {
                    vstd::utf8::partial_valid_utf8_extend(bytes@, i as int);
                }
                i = i + k;
            },
            None => {
                proof {
                    vstd::utf8::partial_valid_partial_invalid_utf8(bytes@, i as int);
                }
                return false;
            },
        }
    }
    proof {
        assert(bytes@.subrange(0, n as int) =~= bytes@);
    }
    true
}

/// Raw binary data as framed by MQTT: at most 65 535 bytes, preceded
/// on the wire by a two-byte big-endian length.
#[derive(Debug, Clone)]
pub struct BinaryData {
    bytes: Vec<u8>,
}

impl View for BinaryData {
    type V = Seq<u8>;

    closed spec fn view(&self) -> Seq<u8> {
        self.bytes@
    }
}

impl BinaryData {
    /// Well-formed: the data fits the two-byte length prefix.
    pub open spec fn wf(self) -> bool {
        self@.len() <= 0xFFFF
    }

    /// Wraps bytes as binary data; rejects more than 65 535 bytes.
    pub fn new(bytes: Vec<u8>) -> (r: Option<Self>)
        ensures
            match r {
                Some(b) => b@ == bytes@ && b.wf(),
                None => bytes@.len() > 0xFFFF,
            },
    {
        if bytes.len() > 0xFFFF {
            None
        } else {
            Some(BinaryData { bytes })
        }
    }

    /// The wrapped bytes.
    pub fn as_bytes(&self) -> (r: &Vec<u8>)
        ensures
            r@ == self@,
    {
        &self.bytes
    }

    /// The number of bytes the wire form takes: the two length bytes
    /// plus the data.
    pub fn size(&self) -> (r: usize)
        requires
            self.wf(),
        ensures
            r as int == 2 + self@.len(),
    {
        2 + self.bytes.len()
    }

    /// Appends the wire form: big-endian length, then the bytes.
    pub fn write_to(&self, out: &mut Vec<u8>)
        requires
            self.wf(),
        ensures
            final(out)@ == old(out)@ + data_bytes(self@),
    {
        let len = self.bytes.len();
        out.push((len / 0x100) as u8);
        out.push((len % 0x100) as u8);
        let mut payload = slice_to_vec(self.bytes.as_slice());
        out.append(&mut payload);
        proof {
            assert(final(out)@ =~= old(out)@ + data_bytes(self@));
        }
    }

    /// Parses length-prefixed binary data from the front of a slice.
    pub fn parse(data: &[u8]) -> (r: Result<(usize, Self), ParseError<PacketError>>)
        ensures
            match r {
                Ok((used, b)) => {
                    &&& data_parse(data@) == Ok::<(int, Seq<u8>), ParseFailure>(
                        (used as int, b@),
                    )
                    &&& b.wf()
                    &&& 2 <= used <= data@.len()
                },
                Err(e) => {
                    &&& e == ParseError::<PacketError>::NotEnoughData
                    &&& data_parse(data@) == Err::<(int, Seq<u8>), ParseFailure>(
                        ParseFailure::TooShort,
                    )
                },
            },
    {
        if data.len() < 2 {
            return Err(ParseError::NotEnoughData);
        }
        let hi = *slice_index_get(data, 0);
        let lo = *slice_index_get(data, 1);
        let n: usize = 0x100 * (hi as usize) + (lo as usize);
        if data.len() < 2 + n {
            return Err(ParseError::NotEnoughData);
        }
        let payload = slice_to_vec(slice_subrange(data, 2, 2 + n));
        Ok((2 + n, BinaryData { bytes: payload }))
    }
}

/// A UTF-8 encoded string as framed by MQTT: at most 65 535 bytes of
/// valid UTF-8, preceded on the wire by a two-byte big-endian length.
///
/// The string is held as its byte sequence; well-formedness ties the
/// bytes to vstd's definition of valid UTF-8.
#[derive(Debug, Clone)]
pub struct EncodedStr {
    bytes: Vec<u8>,
}

impl View for EncodedStr {
    type V = Seq<u8>;

    closed spec fn view(&self) -> Seq<u8> {
        self.bytes@
    }
}

impl EncodedStr {
    /// Well-formed: valid UTF-8 that fits the two-byte length prefix.
    pub open spec fn wf(self) -> bool {
        self@.len() <= 0xFFFF && vstd::utf8::valid_utf8(self@)
    }

    /// Wraps bytes as a string; rejects malformed UTF-8 and more than
    /// 65 535 bytes.
    pub fn new(bytes: Vec<u8>) -> (r: Option<Self>)
        ensures
            match r {
                Some(s) => s@ == bytes@ && s.wf(),
                None => bytes@.len() > 0xFFFF || !vstd::utf8::valid_utf8(bytes@),
            },
    {
        if bytes.len() > 0xFFFF {
            None
        } else if !check_utf8(bytes.as_slice()) {
            None
        } else {
            Some(EncodedStr { bytes })
        }
    }

    /// Wraps a `str`'s bytes; rejects more than 65 535 bytes.
    pub fn from_str(s: &str) -> (r: Option<Self>)
        ensures
            match r {
                Some(e) => e@ == s.spec_bytes() && e.wf(),
                None => s.spec_bytes().len() > 0xFFFF || !vstd::utf8::valid_utf8(s.spec_bytes()),
            },
    {
        Self::new(slice_to_vec(s.as_bytes()))
    }

    /// The string's UTF-8 bytes.
    pub fn as_bytes(&self) -> (r: &Vec<u8>)
        ensures
            r@ == self@,
    {
        &self.bytes
    }

    /// The number of bytes the wire form takes: the two length bytes
    /// plus the data.
    pub fn size(&self) -> (r: usize)
        requires
            self.wf(),
        ensures
            r as int == 2 + self@.len(),
    {
        2 + self.bytes.len()
    }

    /// Appends the wire form: big-endian length, then the bytes.
    pub fn write_to(&self, out: &mut Vec<u8>)
        requires
            self.wf(),
        ensures
            final(out)@ == old(out)@ + data_bytes(self@),
    {
        let len = self.bytes.len();
        out.push((len / 0x100) as u8);
        out.push((len % 0x100) as u8);
        let mut payload = slice_to_vec(self.bytes.as_slice());
        out.append(&mut payload);
        proof {
            assert(final(out)@ =~= old(out)@ + data_bytes(self@));
        }
    }

    /// Parses a length-prefixed UTF-8 string from the front of a
    /// slice. Bytes that are not valid UTF-8 are a protocol error.
    pub fn parse(data: &[u8]) -> (r: Result<(usize, Self), ParseError<PacketError>>)
        ensures
            match r {
                Ok((used, s)) => {
                    &&& str_parse(data@) == Ok::<(int, Seq<u8>), ParseFailure>((used as int, s@))
                    &&& s.wf()
                    &&& 2 <= used <= data@.len()
                },
                Err(ParseError::NotEnoughData) => str_parse(data@) == Err::<
                    (int, Seq<u8>),
                    ParseFailure,
                >(ParseFailure::TooShort),
                Err(ParseError::Error(e)) => {
                    &&& str_parse(data@) == Err::<(int, Seq<u8>), ParseFailure>(
                        ParseFailure::Malformed,
                    )
                    &&& e == PacketError::ProtocolError
                },
            },
    {
        match BinaryData::parse(data) {
            Ok((used, b)) => {
                if check_utf8(b.bytes.as_slice()) {
                    Ok((used, EncodedStr { bytes: b.bytes }))
                } else {
                    Err(ParseError::Error(PacketError::ProtocolError))
                }
            },
            Err(_) => Err(ParseError::NotEnoughData),
        }
    }
}

/// Appends the two-byte big-endian form of `v`.
pub fn write_u16_be(v: u16, out: &mut Vec<u8>)
    ensures
        final(out)@ == old(out)@ + crate::protocol::wire::be16_bytes(v as int),
{
    out.push((v / 0x100) as u8);
    out.push((v % 0x100) as u8);
    proof {
        assert(final(out)@ =~= old(out)@ + crate::protocol::wire::be16_bytes(v as int));
    }
}

/// Appends the four-byte big-endian form of `v`.
pub fn write_u32_be(v: u32, out: &mut Vec<u8>)
    ensures
        final(out)@ == old(out)@ + crate::protocol::wire::be32_bytes(v as int),
{
    out.push((v / 0x100_0000) as u8);
    out.push((v / 0x1_0000 % 0x100) as u8);
    out.push((v / 0x100 % 0x100) as u8);
    out.push((v % 0x100) as u8);
    proof {
        assert(v / 0x100_0000 % 0x100 == v / 0x100_0000);
        assert(final(out)@ =~= old(out)@ + crate::protocol::wire::be32_bytes(v as int));
    }
}

/// The fixed header: the first bytes of every MQTT packet, carrying the
/// packet type (high nibble of the start byte), the packet-specific
/// flags (low nibble), and the remaining length of the body.
#[derive(Clone, Copy, Debug)]
pub struct FixedHeader {
    start: u8,
    length: VariableByteInteger,
}

impl FixedHeader {
    /// The packet type nibble.
    pub closed spec fn ty_spec(self) -> int {
        (self.start / 0x10) as int
    }

    /// The flags nibble.
    pub closed spec fn flags_spec(self) -> int {
        (self.start % 0x10) as int
    }

    /// The remaining length: the number of body bytes after the header.
    pub closed spec fn remaining(self) -> int {
        self.length.value()
    }

    pub closed spec fn wf(self) -> bool {
        self.length.wf()
    }

    /// The range of a well-formed header's remaining length, spelled
    /// out for callers of the closed predicates.
    pub proof fn lemma_wf_bounds(self)
        requires
            self.wf(),
        ensures
            0 <= self.remaining() <= 0x0FFF_FFFF,
            0 <= self.ty_spec() <= 0xF,
            0 <= self.flags_spec() <= 0xF,
    {
        self.length.lemma_wf_bounds();
    }

    /// Builds a header for a packet of type `packet` (at most 14) with
    /// the given flags nibble and body size.
    pub fn new(packet: u8, flags: u8, size: usize) -> (r: Self)
        requires
            packet <= 0xF,
            size <= 0x0FFF_FFFF,
        ensures
            r.wf(),
            r.ty_spec() == packet as int,
            r.flags_spec() == (flags % 0x10) as int,
            r.remaining() == size as int,
    {
        FixedHeader {
            start: packet * 0x10 + flags % 0x10,
            length: VariableByteInteger::from_value(size as u32),
        }
    }

    /// The type of the packet.
    pub fn ty(&self) -> (r: u8)
        ensures
            r as int == self.ty_spec(),
    {
        self.start / 0x10
    }

    /// The flags associated with this packet.
    pub fn flags(&self) -> (r: u8)
        ensures
            r as int == self.flags_spec(),
    {
        self.start % 0x10
    }

    /// The length in bytes of the packet body following the fixed header.
    pub fn length(&self) -> (r: VariableByteInteger)
        ensures
            r.value() == self.remaining(),
            self.wf() ==> r.wf(),
    {
        self.length
    }

    /// Parses a fixed header from the front of a slice.
    pub fn parse(data: &[u8]) -> (r: Result<(usize, Self), ParseError<PacketError>>)
        ensures
            match r {
                Ok((used, h)) => {
                    &&& header_parse(data@) == Ok::<(int, (int, int, int)), ParseFailure>(
                        (used as int, (h.ty_spec(), h.flags_spec(), h.remaining())),
                    )
                    &&& h.wf()
                    &&& 2 <= used <= data@.len()
                },
                Err(ParseError::NotEnoughData) => header_parse(data@) == Err::<
                    (int, (int, int, int)),
                    ParseFailure,
                >(ParseFailure::TooShort),
                Err(ParseError::Error(_)) => header_parse(data@) == Err::<
                    (int, (int, int, int)),
                    ParseFailure,
                >(ParseFailure::Malformed),
            },
    {
        if data.len() == 0 {
            return Err(ParseError::NotEnoughData);
        }
        let start = *slice_index_get(data, 0);
        let rest = slice_subrange(data, 1, data.len());
        proof {
            assert(rest@ =~= data@.drop_first());
        }
        match VariableByteInteger::parse(rest) {
            Ok((used, length)) => Ok((1 + used, FixedHeader { start, length })),
            Err(ParseError::NotEnoughData) => Err(ParseError::NotEnoughData),
            Err(ParseError::Error(_)) => Err(ParseError::Error(PacketError::ProtocolError)),
        }
    }

    /// Appends the header bytes: the start byte, then the remaining length.
    pub fn write_to(&self, out: &mut Vec<u8>)
        requires
            self.wf(),
        ensures
            final(out)@ == old(out)@ + seq![
                crate::protocol::wire::header_start_byte(self.ty_spec(), self.flags_spec()),
            ] + vbi_bytes(self.remaining()),
    {
        proof {
            assert(self.start == crate::protocol::wire::header_start_byte(
                self.ty_spec(),
                self.flags_spec(),
            ));
        }
        out.push(self.start);
        self.length.write_to(out);
    }
}


/// Frames a packet body: the fixed header built from the packet's type,
/// flags and body length, then the body. Fails when the body outgrows
/// the remaining-length encoding.
pub fn frame_packet(ty: u8, flags: u8, body: Vec<u8>) -> (r: Result<
    Vec<u8>,
    VariableByteIntegerOverflow,
>)
    requires
        ty <= 0xF,
    ensures
        match r {
            Ok(v) => body@.len() <= 0x0FFF_FFFF && v@ == crate::protocol::wire::packet_bytes(
                ty as int,
                (flags % 0x10) as int,
                body@,
            ),
            Err(_) => body@.len() > 0x0FFF_FFFF,
        },
{
    if body.len() > 0x0FFF_FFFF {
        return Err(VariableByteIntegerOverflow);
    }
    let header = FixedHeader::new(ty, flags, body.len());
    let mut out: Vec<u8> = Vec::new();
    header.write_to(&mut out);
    let mut b = body;
    let ghost body_view = b@;
    out.append(&mut b);
    proof {
        assert(out@ =~= crate::protocol::wire::packet_bytes(
            ty as int,
            (flags % 0x10) as int,
            body_view,
        ));
    }
    Ok(out)
}

} // verus!
