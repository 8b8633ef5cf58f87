//! The MQTT v5 property system: tagged properties written as a
//! length-prefixed list.

use vstd::prelude::*;
use vstd::slice::slice_index_get;

use crate::protocol::types::{VariableByteInteger, VariableByteIntegerOverflow};
use crate::protocol::wire::vbi_bytes;

verus! {

/// A typed MQTT v5 property: one identifier byte, then a typed payload.
pub trait Property {
    /// The property's wire form: its identifier byte, then its payload.
    spec fn prop_bytes(&self) -> Seq<u8>;

    /// Structural validity of the property's strings and blobs.
    spec fn prop_wf(&self) -> bool;

    /// Appends the property's wire form to `out`.
    fn write_to(&self, out: &mut Vec<u8>)
        requires
            self.prop_wf(),
        ensures
            final(out)@ == old(out)@ + self.prop_bytes(),
    ;
}

/// The concatenated wire forms of a list of properties, in order.
pub open spec fn props_payload<T: Property>(ps: Seq<T>) -> Seq<u8>
    decreases ps.len(),
{
    if ps.len() == 0 {
        Seq::empty()
    } else {
        props_payload(ps.drop_last()) + ps.last().prop_bytes()
    }
}

/// Every property in the list is structurally valid.
pub open spec fn props_wf<T: Property>(ps: Seq<T>) -> bool {
    forall|i: int| 0 <= i < ps.len() ==> #[trigger] ps[i].prop_wf()
}

/// The list's payload must fit the variable byte integer that
/// prefixes it on the wire.
pub open spec fn props_encodable<T: Property>(ps: Seq<T>) -> bool {
    props_payload(ps).len() <= 0x0FFF_FFFF
}

/// A property list's wire form: the payload's byte count as a variable
/// byte integer, then the payload. The count counts bytes, not
/// properties.
pub open spec fn props_block<T: Property>(ps: Seq<T>) -> Seq<u8> {
    vbi_bytes(props_payload(ps).len() as int) + props_payload(ps)
}

/// A list of properties, written as a length-prefixed block.
pub struct Properties<'a, T>(pub &'a [T]);

impl<'a, T: Property> Properties<'a, T> {
    /// Appends the length-prefixed property block to `out`; fails,
    /// writing nothing, when the payload outgrows the length prefix.
    pub fn write_to(&self, out: &mut Vec<u8>) -> (r: Result<(), VariableByteIntegerOverflow>)
        requires
            props_wf(self.0@),
        ensures
            match r {
                Ok(()) => props_encodable(self.0@) && final(out)@ == old(out)@ + props_block(
                    self.0@,
                ),
                Err(_) => !props_encodable(self.0@) && final(out)@ == old(out)@,
            },
    {
        let mut payload: Vec<u8> = Vec::new();
        let n = self.0.len();
        let mut i: usize = 0;
        while i < n
            invariant
                i <= n,
                n == self.0@.len(),
                props_wf(self.0@),
                payload@ == props_payload(self.0@.subrange(0, i as int)),
            decreases n - i,
        {
            slice_index_get(self.0, i).write_to(&mut payload);
            proof {
                assert(self.0@.subrange(0, (i + 1) as int).drop_last() =~= self.0@.subrange(
                    0,
                    i as int,
                ));
                assert(self.0@.subrange(0, (i + 1) as int).last() == self.0@[i as int]);
            }
            i = i + 1;
        }
        proof {
            assert(self.0@.subrange(0, n as int) =~= self.0@);
        }
        if payload.len() > 0x0FFF_FFFF {
            return Err(VariableByteIntegerOverflow);
        }
        let length = match VariableByteInteger::encode(payload.len() as u32) {
            Ok(l) => l,
            Err(e) => {
                return Err(e);
            },
        };
        length.write_to(out);
        out.append(&mut payload);
        Ok(())
    }
}

} // verus!
