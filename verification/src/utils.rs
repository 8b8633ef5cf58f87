//! A parsing cursor over a byte slice.

use vstd::prelude::*;
use vstd::slice::{slice_index_get, slice_subrange};

use crate::protocol::types::{FixedHeader, VariableByteInteger};
use crate::protocol::wire::{header_parse, ParseFailure};
use crate::protocol::{PacketError, ParseError};

verus! {

/// A cursor over a byte slice: a position that the read operations
/// advance. Every read fails with `NotEnoughData` when fewer bytes
/// remain than it needs, and leaves the position unchanged then.
pub struct Cursor<'a> {
    buf: &'a [u8],
    position: usize,
}

impl<'a> Cursor<'a> {
    /// The bytes the cursor runs over.
    pub closed spec fn data(self) -> Seq<u8> {
        self.buf@
    }

    /// The byte offset of the next unread byte.
    pub closed spec fn pos(self) -> int {
        self.position as int
    }

    /// The position never runs past the data.
    pub closed spec fn wf(self) -> bool {
        self.position <= self.buf@.len()
    }

    /// The bytes not yet read.
    pub open spec fn rem_spec(self) -> Seq<u8> {
        self.data().subrange(self.pos(), self.data().len() as int)
    }

    pub fn new(buf: &'a [u8]) -> (r: Self)
        ensures
            r.data() == buf@,
            r.pos() == 0,
            r.wf(),
    {
        Cursor { buf, position: 0 }
    }

    /// Reads one byte.
    pub fn read_u8<T>(&mut self) -> (r: Result<u8, ParseError<T>>)
        requires
            old(self).wf(),
        ensures
            final(self).wf(),
            final(self).data() == old(self).data(),
            match r {
                Ok(b) => {
                    &&& old(self).pos() + 1 <= old(self).data().len()
                    &&& b == old(self).data()[old(self).pos()]
                    &&& final(self).pos() == old(self).pos() + 1
                },
                Err(e) => {
                    &&& e == ParseError::<T>::NotEnoughData
                    &&& old(self).pos() == old(self).data().len()
                    &&& final(self).pos() == old(self).pos()
                },
            },
    {
        if self.position < self.buf.len() {
            let b = *slice_index_get(self.buf, self.position);
            self.position = self.position + 1;
            Ok(b)
        } else {
            Err(ParseError::NotEnoughData)
        }
    }

    /// Reads a big-endian two-byte integer.
    pub fn read_u16_be<T>(&mut self) -> (r: Result<u16, ParseError<T>>)
        requires
            old(self).wf(),
        ensures
            final(self).wf(),
            final(self).data() == old(self).data(),
            match r {
                Ok(v) => {
                    &&& old(self).pos() + 2 <= old(self).data().len()
                    &&& v as int == 0x100 * (old(self).data()[old(self).pos()] as int) + (old(
                        self,
                    ).data()[old(self).pos() + 1] as int)
                    &&& final(self).pos() == old(self).pos() + 2
                },
                Err(e) => {
                    &&& e == ParseError::<T>::NotEnoughData
                    &&& old(self).pos() + 2 > old(self).data().len()
                    &&& final(self).pos() == old(self).pos()
                },
            },
    {
        if self.buf.len() - self.position >= 2 {
            let hi = *slice_index_get(self.buf, self.position);
            let lo = *slice_index_get(self.buf, self.position + 1);
            self.position = self.position + 2;
            Ok(0x100 * (hi as u16) + (lo as u16))
        } else {
            Err(ParseError::NotEnoughData)
        }
    }

    /// Reads `amount` bytes and hands them out as a borrowed slice.
    pub fn read_slice<T>(&mut self, amount: usize) -> (r: Result<&'a [u8], ParseError<T>>)
        requires
            old(self).wf(),
        ensures
            final(self).wf(),
            final(self).data() == old(self).data(),
            match r {
                Ok(s) => {
                    &&& old(self).pos() + amount <= old(self).data().len()
                    &&& s@ == old(self).data().subrange(
                        old(self).pos(),
                        old(self).pos() + amount,
                    )
                    &&& final(self).pos() == old(self).pos() + amount
                },
                Err(e) => {
                    &&& e == ParseError::<T>::NotEnoughData
                    &&& old(self).pos() + amount > old(self).data().len()
                    &&& final(self).pos() == old(self).pos()
                },
            },
    {
        if amount <= self.buf.len() - self.position {
            let s = slice_subrange(self.buf, self.position, self.position + amount);
            self.position = self.position + amount;
            Ok(s)
        } else {
            Err(ParseError::NotEnoughData)
        }
    }

    /// The byte offset of the next unread byte, used to compute
    /// consumed lengths.
    pub fn position(&self) -> (r: usize)
        ensures
            r as int == self.pos(),
    {
        self.position
    }

    /// The bytes not yet read.
    fn rem(&self) -> (r: &'a [u8])
        requires
            self.wf(),
        ensures
            r@ == self.rem_spec(),
    {
        slice_subrange(self.buf, self.position, self.buf.len())
    }

    /// Reads a variable byte integer; its malformation is a protocol error.
    pub fn read_variable_byte_integer(&mut self) -> (r: Result<
        VariableByteInteger,
        ParseError<PacketError>,
    >)
        requires
            old(self).wf(),
        ensures
            final(self).wf(),
            final(self).data() == old(self).data(),
            match r {
                Ok(v) => {
                    &&& crate::protocol::wire::vbi_parse(old(self).rem_spec()) == Ok::<
                        (int, int),
                        ParseFailure,
                    >((final(self).pos() - old(self).pos(), v.value()))
                    &&& v.wf()
                    &&& old(self).pos() < final(self).pos() <= old(self).data().len()
                },
                Err(ParseError::NotEnoughData) => {
                    &&& crate::protocol::wire::vbi_parse(old(self).rem_spec()) == Err::<
                        (int, int),
                        ParseFailure,
                    >(ParseFailure::TooShort)
                    &&& final(self).pos() == old(self).pos()
                },
                Err(ParseError::Error(e)) => {
                    &&& crate::protocol::wire::vbi_parse(old(self).rem_spec()) == Err::<
                        (int, int),
                        ParseFailure,
                    >(ParseFailure::Malformed)
                    &&& e == PacketError::ProtocolError
                    &&& final(self).pos() == old(self).pos()
                },
            },
    {
        let total = self.buf.len();
        match VariableByteInteger::parse(self.rem()) {
            Ok((used, v)) => {
                proof {
                    assert(self.position + used <= total);
                }
                self.position = self.position + used;
                Ok(v)
            },
            Err(ParseError::NotEnoughData) => Err(ParseError::NotEnoughData),
            Err(ParseError::Error(_)) => Err(ParseError::Error(PacketError::ProtocolError)),
        }
    }

    /// Reads a fixed header and checks that it announces a packet of
    /// the expected type. On a type mismatch the header has still been
    /// read, and the position stands past it; the other failures leave
    /// the position unchanged.
    pub fn read_fixed_header(&mut self, expected: u8) -> (r: Result<
        FixedHeader,
        ParseError<PacketError>,
    >)
        requires
            old(self).wf(),
        ensures
            final(self).wf(),
            final(self).data() == old(self).data(),
            match r {
                Ok(h) => {
                    &&& header_parse(old(self).rem_spec()) == Ok::<
                        (int, (int, int, int)),
                        ParseFailure,
                    >(
                        (
                            final(self).pos() - old(self).pos(),
                            (h.ty_spec(), h.flags_spec(), h.remaining()),
                        ),
                    )
                    &&& h.ty_spec() == expected as int
                    &&& h.wf()
                    &&& old(self).pos() + 2 <= final(self).pos() <= old(self).data().len()
                },
                Err(ParseError::NotEnoughData) => {
                    &&& header_parse(old(self).rem_spec()) == Err::<
                        (int, (int, int, int)),
                        ParseFailure,
                    >(ParseFailure::TooShort)
                    &&& final(self).pos() == old(self).pos()
                },
                Err(ParseError::Error(e)) => match e {
                    // On a type mismatch the header has been read: the
                    // cursor stands past it.
                    PacketError::InvalidType { expected: x, actual: a } => {
                        &&& x == expected
                        &&& header_parse(old(self).rem_spec()) matches Ok((used, h)) && h.0
                            == a as int && a != expected && final(self).pos() == old(self).pos()
                            + used
                        &&& old(self).pos() <= final(self).pos() <= old(self).data().len()
                    },
                    PacketError::ProtocolError => {
                        &&& header_parse(old(self).rem_spec()) == Err::<
                            (int, (int, int, int)),
                            ParseFailure,
                        >(ParseFailure::Malformed)
                        &&& final(self).pos() == old(self).pos()
                    },
                },
            },
    {
        let total = self.buf.len();
        match FixedHeader::parse(self.rem()) {
            Ok((used, header)) => {
                proof {
                    assert(self.position + used <= total);
                }
                self.position = self.position + used;
                let ty = header.ty();
                if ty != expected {
                    return Err(ParseError::Error(PacketError::InvalidType {
                        expected,
                        actual: ty,
                    }));
                }
                Ok(header)
            },
            Err(ParseError::NotEnoughData) => Err(ParseError::NotEnoughData),
            Err(ParseError::Error(_)) => Err(ParseError::Error(PacketError::ProtocolError)),
        }
    }
}

} // verus!
