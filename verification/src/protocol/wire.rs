//! The mathematical model of the MQTT v5 byte format.
//!
//! Every encoder and parser in the crate is specified against the spec
//! functions in this module: encoders produce exactly these byte
//! sequences, and parsers are pinned to the spec-level parse functions.

use vstd::prelude::*;

verus! {

/// How a parse attempt can fail at the specification level.
#[derive(PartialEq, Eq, Structural, Clone, Copy, Debug)]
pub enum ParseFailure {
    /// The input ends before the value does; more bytes may help.
    TooShort,
    /// The input violates the protocol; more bytes cannot help.
    Malformed,
}

/// A spec-level parse returns the number of bytes consumed and the
/// parsed value, or says why it failed.
pub type SpecParse<T> = Result<(int, T), ParseFailure>;

/// The variable byte integer encoding of `n`, for `0 <= n <= 0x0FFF_FFFF`:
/// seven payload bits per byte, least significant group first, the high
/// bit of every byte but the last set as a continuation flag.
pub open spec fn vbi_bytes(n: int) -> Seq<u8>
    decreases n,
{
    if n < 0x80 {
        seq![(if n < 0 { 0 } else { n }) as u8]
    } else {
        seq![(n % 0x80 + 0x80) as u8] + vbi_bytes(n / 0x80)
    }
}

/// The number of bytes in the variable byte integer encoding of `n`.
pub open spec fn vbi_len(n: int) -> int {
    if n < 0x80 {
        1
    } else if n < 0x4000 {
        2
    } else if n < 0x20_0000 {
        3
    } else {
        4
    }
}

/// The value denoted by a sequence of variable-byte-integer bytes:
/// the low seven bits of each byte, weighted by 128 to the position.
pub open spec fn vbi_value(s: Seq<u8>) -> int
    decreases s.len(),
{
    if s.len() == 0 {
        0
    } else {
        (s[0] % 0x80) + 0x80 * vbi_value(s.drop_first())
    }
}

/// The index of the first byte without the continuation bit, or the
/// length of the sequence when every byte has it set.
pub open spec fn first_low(s: Seq<u8>) -> int
    decreases s.len(),
{
    if s.len() == 0 {
        0
    } else if s[0] < 0x80 {
        0
    } else {
        1 + first_low(s.drop_first())
    }
}

/// Spec-level parse of a variable byte integer: up to four bytes are
/// read, stopping at the first byte with a clear continuation bit; a
/// fourth byte with the bit still set is a protocol error.
pub open spec fn vbi_parse(s: Seq<u8>) -> SpecParse<int> {
    let t = first_low(s);
    if t <= 3 && t < s.len() {
        Ok((t + 1, vbi_value(s.subrange(0, t + 1))))
    } else if t >= 4 {
        Err(ParseFailure::Malformed)
    } else {
        Err(ParseFailure::TooShort)
    }
}

/// The two-byte big-endian encoding of `n`, for `0 <= n <= 0xFFFF`.
pub open spec fn be16_bytes(n: int) -> Seq<u8> {
    seq![(n / 0x100) as u8, (n % 0x100) as u8]
}

/// The four-byte big-endian encoding of `n`, for `0 <= n <= 0xFFFF_FFFF`.
pub open spec fn be32_bytes(n: int) -> Seq<u8> {
    seq![
        (n / 0x100_0000 % 0x100) as u8,
        (n / 0x1_0000 % 0x100) as u8,
        (n / 0x100 % 0x100) as u8,
        (n % 0x100) as u8,
    ]
}

/// Length-prefixed data: a two-byte big-endian length, then the bytes.
/// Used for both UTF-8 strings and raw binary data.
pub open spec fn data_bytes(b: Seq<u8>) -> Seq<u8> {
    be16_bytes(b.len() as int) + b
}

/// Spec-level parse of length-prefixed data.
pub open spec fn data_parse(s: Seq<u8>) -> SpecParse<Seq<u8>> {
    if s.len() < 2 {
        Err(ParseFailure::TooShort)
    } else {
        let n = 0x100 * (s[0] as int) + (s[1] as int);
        if s.len() < 2 + n {
            Err(ParseFailure::TooShort)
        } else {
            Ok((2 + n, s.subrange(2, 2 + n)))
        }
    }
}

/// Spec-level parse of a length-prefixed UTF-8 string: length-prefixed
/// data whose bytes must be valid UTF-8.
pub open spec fn str_parse(s: Seq<u8>) -> SpecParse<Seq<u8>> {
    match data_parse(s) {
        Ok((n, b)) => if vstd::utf8::valid_utf8(b) {
            Ok((n, b))
        } else {
            Err(ParseFailure::Malformed)
        },
        Err(f) => Err(f),
    }
}

/// The first byte of a fixed header: packet type in the high nibble,
/// packet-specific flags in the low nibble.
pub open spec fn header_start_byte(ty: int, flags: int) -> u8 {
    (0x10 * ty + flags % 0x10) as u8
}

/// A whole packet: the fixed header (start byte and remaining length)
/// followed by the body, whose length is the remaining length.
pub open spec fn packet_bytes(ty: int, flags: int, body: Seq<u8>) -> Seq<u8> {
    seq![header_start_byte(ty, flags)] + vbi_bytes(body.len() as int) + body
}

/// A body can only be framed when its length fits a variable byte integer.
pub open spec fn body_fits(body: Seq<u8>) -> bool {
    body.len() <= 0x0FFF_FFFF
}

/// A sequence of `k` zero bytes.
pub open spec fn zero_bytes(k: int) -> Seq<u8> {
    Seq::new(if k < 0 { 0 } else { k as nat }, |i: int| 0u8)
}

/// A variable byte integer encoding padded with zeros to four bytes,
/// the stored form used by `VariableByteInteger`.
pub open spec fn vbi_padded(n: int) -> Seq<u8> {
    vbi_bytes(n) + zero_bytes(4 - vbi_bytes(n).len())
}

/// Spec-level parse of a fixed header: the start byte split into type
/// and flags nibbles, then the remaining length as a variable byte
/// integer. Yields `(used, (type, flags, remaining_length))`.
pub open spec fn header_parse(s: Seq<u8>) -> SpecParse<(int, int, int)> {
    if s.len() < 1 {
        Err(ParseFailure::TooShort)
    } else {
        match vbi_parse(s.drop_first()) {
            Ok((used, n)) => Ok((1 + used, ((s[0] / 0x10) as int, (s[0] % 0x10) as int, n))),
            Err(f) => Err(f),
        }
    }
}

/// The shape of a canonical variable byte integer encoding: its length
/// matches `vbi_len`, every byte but the last carries the continuation
/// bit, and the last does not; when more than one byte is used the last
/// byte is not zero.
pub proof fn lemma_vbi_bytes_shape(n: int)
    requires
        0 <= n <= 0x0FFF_FFFF,
    ensures
        vbi_bytes(n).len() == vbi_len(n),
        forall|i: int| 0 <= i < vbi_len(n) - 1 ==> vbi_bytes(n)[i] >= 0x80,
        vbi_bytes(n)[vbi_len(n) - 1] < 0x80,
        vbi_len(n) > 1 ==> vbi_bytes(n)[vbi_len(n) - 1] >= 1,
    decreases n,
{
    if n < 0x80 {
    } else {
        let m = n / 0x80;
        assert(0 <= m <= 0x0FFF_FFFF);
        assert(m < 0x80 <==> n < 0x4000);
        assert(m < 0x4000 <==> n < 0x20_0000);
        assert(m >= 0x80 ==> vbi_len(n) == vbi_len(m) + 1);
        lemma_vbi_bytes_shape(m);
        assert(vbi_len(m) == vbi_len(n) - 1);
        let s = vbi_bytes(n);
        assert(s == seq![(n % 0x80 + 0x80) as u8] + vbi_bytes(m));
        assert(s[0] >= 0x80);
        assert(forall|i: int| 1 <= i < s.len() ==> s[i] == vbi_bytes(m)[i - 1]);
    }
}

/// Decoding the canonical encoding of `n`, followed by any bytes that
/// denote zero, yields `n` again.
pub proof fn lemma_vbi_value_of_bytes(n: int, tail: Seq<u8>)
    requires
        0 <= n,
        vbi_value(tail) == 0,
    ensures
        vbi_value(vbi_bytes(n) + tail) == n,
    decreases n,
{
    if n < 0x80 {
        let s = seq![n as u8] + tail;
        assert(s.drop_first() =~= tail);
        assert(s[0] == n as u8);
    } else {
        lemma_vbi_value_of_bytes(n / 0x80, tail);
        let s = vbi_bytes(n) + tail;
        assert(s =~= seq![(n % 0x80 + 0x80) as u8] + (vbi_bytes(n / 0x80) + tail));
        assert(s.drop_first() =~= vbi_bytes(n / 0x80) + tail);
        assert(s[0] == (n % 0x80 + 0x80) as u8);
        assert((s[0] % 0x80) as int == n % 0x80);
        assert(vbi_value(s) == n % 0x80 + 0x80 * (n / 0x80));
    }
}

/// A sequence of zero bytes denotes zero.
pub proof fn lemma_vbi_value_zero_bytes(k: int)
    ensures
        vbi_value(zero_bytes(k)) == 0,
    decreases k,
{
    if k > 0 {
        lemma_vbi_value_zero_bytes(k - 1);
        assert(zero_bytes(k).drop_first() =~= zero_bytes(k - 1));
    }
}

/// The padded stored form of `n` also denotes `n`.
pub proof fn lemma_vbi_value_of_padded(n: int)
    requires
        0 <= n <= 0x0FFF_FFFF,
    ensures
        vbi_value(vbi_padded(n)) == n,
        vbi_padded(n).len() == 4,
{
    lemma_vbi_bytes_shape(n);
    lemma_vbi_value_zero_bytes(4 - vbi_bytes(n).len());
    lemma_vbi_value_of_bytes(n, zero_bytes(4 - vbi_bytes(n).len()));
}

/// A sequence of variable-byte-integer bytes never denotes a negative value.
pub proof fn lemma_vbi_value_nonneg(s: Seq<u8>)
    ensures
        vbi_value(s) >= 0,
    decreases s.len(),
{
    if s.len() > 0 {
        lemma_vbi_value_nonneg(s.drop_first());
    }
}

/// The scan for the first byte without the continuation bit stays
/// within the sequence.
pub proof fn lemma_first_low_bounds(s: Seq<u8>)
    ensures
        0 <= first_low(s) <= s.len(),
    decreases s.len(),
{
    if s.len() > 0 && s[0] >= 0x80 {
        lemma_first_low_bounds(s.drop_first());
    }
}

/// When the first `k` bytes all carry the continuation bit, the scan
/// does not stop before index `k`.
pub proof fn lemma_first_low_min(s: Seq<u8>, k: int)
    requires
        0 <= k <= s.len(),
        forall|j: int| 0 <= j < k ==> s[j] >= 0x80,
    ensures
        first_low(s) >= k,
    decreases k,
{
    lemma_first_low_bounds(s);
    if k > 0 {
        lemma_first_low_min(s.drop_first(), k - 1);
    }
}

/// When every byte before index `k` carries the continuation bit and
/// the byte at `k` does not, `k` is where the scan stops.
pub proof fn lemma_first_low_found(s: Seq<u8>, k: int)
    requires
        0 <= k < s.len(),
        forall|j: int| 0 <= j < k ==> s[j] >= 0x80,
        s[k] < 0x80,
    ensures
        first_low(s) == k,
    decreases k,
{
    if k > 0 {
        lemma_first_low_found(s.drop_first(), k - 1);
    }
}

/// When every byte carries the continuation bit the scan runs off the end.
pub proof fn lemma_first_low_all_high(s: Seq<u8>)
    requires
        forall|j: int| 0 <= j < s.len() ==> s[j] >= 0x80,
    ensures
        first_low(s) == s.len(),
    decreases s.len(),
{
    if s.len() > 0 {
        lemma_first_low_all_high(s.drop_first());
    }
}

/// The value of a sequence of at most four variable-byte-integer bytes,
/// written as a closed sum.
pub proof fn lemma_vbi_value_upto4(s: Seq<u8>)
    requires
        s.len() <= 4,
    ensures
        vbi_value(s) == (if s.len() >= 1 { (s[0] % 0x80) as int } else { 0 })
            + 0x80 * (if s.len() >= 2 { (s[1] % 0x80) as int } else { 0 })
            + 0x4000 * (if s.len() >= 3 { (s[2] % 0x80) as int } else { 0 })
            + 0x20_0000 * (if s.len() >= 4 { (s[3] % 0x80) as int } else { 0 }),
{
    if s.len() == 0 {
        assert(vbi_value(s) == 0);
    } else {
        let s1 = s.drop_first();
        assert(vbi_value(s) == (s[0] % 0x80) + 0x80 * vbi_value(s1));
        if s1.len() == 0 {
            assert(vbi_value(s1) == 0);
        } else {
            let s2 = s1.drop_first();
            assert(s1[0] == s[1]);
            assert(vbi_value(s1) == (s1[0] % 0x80) + 0x80 * vbi_value(s2));
            if s2.len() == 0 {
                assert(vbi_value(s2) == 0);
            } else {
                let s3 = s2.drop_first();
                assert(s2[0] == s[2]);
                assert(vbi_value(s2) == (s2[0] % 0x80) + 0x80 * vbi_value(s3));
                if s3.len() == 0 {
                    assert(vbi_value(s3) == 0);
                } else {
                    assert(s3[0] == s[3]);
                    assert(s3.len() == 1);
                    assert(vbi_value(s3.drop_first()) == 0);
                    assert(vbi_value(s3) == (s3[0] % 0x80) + 0x80 * vbi_value(s3.drop_first()));
                }
            }
        }
    }
}

/// Parsing any extension of the wire form of length-prefixed data
/// consumes exactly the prefix and the data and yields the data.
pub proof fn lemma_data_parse_extension(b: Seq<u8>, tail: Seq<u8>)
    requires
        b.len() <= 0xFFFF,
    ensures
        data_parse(data_bytes(b) + tail) == Ok::<(int, Seq<u8>), ParseFailure>((2 + b.len() as int, b)),
{
    let s = data_bytes(b) + tail;
    assert(s[0] == (b.len() as int / 0x100) as u8);
    assert(s[1] == (b.len() as int % 0x100) as u8);
    assert(0x100 * (s[0] as int) + (s[1] as int) == b.len() as int);
    assert(s.subrange(2, 2 + b.len() as int) =~= b);
}

/// The same, for a string: valid UTF-8 parses back to itself.
pub proof fn lemma_str_parse_extension(b: Seq<u8>, tail: Seq<u8>)
    requires
        b.len() <= 0xFFFF,
        vstd::utf8::valid_utf8(b),
    ensures
        str_parse(data_bytes(b) + tail) == Ok::<(int, Seq<u8>), ParseFailure>((2 + b.len() as int, b)),
{
    lemma_data_parse_extension(b, tail);
}

/// A strict prefix of the wire form of length-prefixed data is too
/// short, never malformed.
pub proof fn lemma_data_parse_prefix(b: Seq<u8>, k: int)
    requires
        b.len() <= 0xFFFF,
        0 <= k < data_bytes(b).len(),
    ensures
        data_parse(data_bytes(b).subrange(0, k)) == Err::<(int, Seq<u8>), ParseFailure>(
            ParseFailure::TooShort,
        ),
        str_parse(data_bytes(b).subrange(0, k)) == Err::<(int, Seq<u8>), ParseFailure>(
            ParseFailure::TooShort,
        ),
{
    let q = data_bytes(b).subrange(0, k);
    if k >= 2 {
        assert(q[0] == (b.len() as int / 0x100) as u8);
        assert(q[1] == (b.len() as int % 0x100) as u8);
        assert(0x100 * (q[0] as int) + (q[1] as int) == b.len() as int);
    }
}

/// Round trip for the variable byte integer: parsing the canonical
/// encoding of `n` consumes exactly its bytes and yields `n`, and the
/// encoded length is 1, 2, 3 or 4 according to the documented thresholds.
pub proof fn lemma_vbi_round_trip(n: int)
    requires
        0 <= n <= 0x0FFF_FFFF,
    ensures
        vbi_parse(vbi_bytes(n)) == Ok::<(int, int), ParseFailure>((vbi_len(n), n)),
        vbi_bytes(n).len() == vbi_len(n),
        n < 0x80 ==> vbi_bytes(n).len() == 1,
        0x80 <= n < 0x4000 ==> vbi_bytes(n).len() == 2,
        0x4000 <= n < 0x20_0000 ==> vbi_bytes(n).len() == 3,
        0x20_0000 <= n ==> vbi_bytes(n).len() == 4,
{
    lemma_vbi_bytes_shape(n);
    let s = vbi_bytes(n);
    lemma_first_low_found(s, vbi_len(n) - 1);
    assert(s.subrange(0, vbi_len(n)) =~= s);
    assert(s + Seq::<u8>::empty() =~= s);
    lemma_vbi_value_of_bytes(n, Seq::<u8>::empty());
}

/// Parsing any extension of the canonical encoding of `n` stops after
/// exactly the encoding's bytes and yields `n`.
pub proof fn lemma_vbi_parse_extension(n: int, tail: Seq<u8>)
    requires
        0 <= n <= 0x0FFF_FFFF,
    ensures
        vbi_parse(vbi_bytes(n) + tail) == Ok::<(int, int), ParseFailure>((vbi_len(n), n)),
{
    lemma_vbi_bytes_shape(n);
    let s = vbi_bytes(n) + tail;
    lemma_first_low_found(s, vbi_len(n) - 1);
    assert(s.subrange(0, vbi_len(n)) =~= vbi_bytes(n));
    assert(vbi_bytes(n) + Seq::<u8>::empty() =~= vbi_bytes(n));
    lemma_vbi_value_of_bytes(n, Seq::<u8>::empty());
}

/// A strict prefix of a variable byte integer encoding is too short,
/// never malformed: the continuation bits promise more data.
pub proof fn lemma_vbi_parse_prefix(n: int, k: int)
    requires
        0 <= n <= 0x0FFF_FFFF,
        0 <= k < vbi_bytes(n).len(),
    ensures
        vbi_parse(vbi_bytes(n).subrange(0, k)) == Err::<(int, int), ParseFailure>(
            ParseFailure::TooShort,
        ),
{
    lemma_vbi_bytes_shape(n);
    let p = vbi_bytes(n).subrange(0, k);
    lemma_first_low_all_high(p);
}

} // verus!
