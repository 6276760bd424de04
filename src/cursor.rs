//! A forward-only cursor over bytes, with big-endian reads.
use vstd::prelude::*;

use crate::layout::{be16, be32};

verus! {

/// A forward-only position in a byte slice.
pub struct ByteCursor<'a> {
    bytes: &'a [u8],
    pos: usize,
}

impl<'a> ByteCursor<'a> {
    #[verifier::type_invariant]
    spec fn inv(&self) -> bool {
        self.pos <= self.bytes@.len()
    }

    /// The bytes not yet consumed.
    pub closed spec fn rest(&self) -> Seq<u8> {
        self.bytes@.subrange(self.pos as int, self.bytes@.len() as int)
    }

    /// A cursor at the start of `bytes`.
    pub fn new(bytes: &'a [u8]) -> (c: Self)
        ensures
            c.rest() == bytes@,
    {
        let c = ByteCursor { bytes, pos: 0 };
        assert(c.rest() =~= bytes@);
        c
    }

    /// How many bytes are not yet consumed.
    pub fn remaining(&self) -> (n: usize)
        ensures
            n == self.rest().len(),
    {
        proof {
            use_type_invariant(self);
        }
        self.bytes.len() - self.pos
    }
}

/// Reads one big-endian 16-bit value, the first byte being the more
/// significant. Fails when fewer than two bytes are left; the cursor is then
/// left at the end of its input.
pub fn read_u16(cursor: &mut ByteCursor) -> (r: Result<u16, ()>)
    ensures
        r is Ok <==> old(cursor).rest().len() >= 2,
        r is Ok ==> r->Ok_0 == be16(old(cursor).rest(), 0) && final(cursor).rest()
            == old(cursor).rest().skip(2),
        r is Err ==> final(cursor).rest().len() == 0,
{
    proof {
        use_type_invariant(&*cursor);
    }
    let len = cursor.bytes.len();
    if len - cursor.pos < 2 {
        cursor.pos = len;
        assert(cursor.rest() =~= Seq::<u8>::empty());
        return Err(());
    }
    let left = cursor.bytes[cursor.pos];
    let right = cursor.bytes[cursor.pos + 1];
    cursor.pos = cursor.pos + 2;
    assert(cursor.rest() =~= old(cursor).rest().skip(2));
    let v = ((left as u16) << 8) | (right as u16);
    assert(v == (left as int * 256 + right as int) as u16) by (bit_vector)
        requires
            v == ((left as u16) << 8) | (right as u16),
    ;
    Ok(v)
}

/// Reads one big-endian 32-bit value as two 16-bit reads, the first giving
/// the high half. Fails when fewer than four bytes are left; the cursor is
/// then left at the end of its input.
pub fn read_u32(cursor: &mut ByteCursor) -> (r: Result<u32, ()>)
    ensures
        r is Ok <==> old(cursor).rest().len() >= 4,
        r is Ok ==> r->Ok_0 == be32(old(cursor).rest(), 0) && final(cursor).rest()
            == old(cursor).rest().skip(4),
        r is Err ==> final(cursor).rest().len() == 0,
{
    let ghost b = cursor.rest();
    let left = read_u16(cursor)?;
    let right = read_u16(cursor)?;
    assert(cursor.rest() =~= b.skip(4));
    let v = ((left as u32) << 16) | (right as u32);
    assert(v == (left as int * 65536 + right as int) as u32) by (bit_vector)
        requires
            v == ((left as u32) << 16) | (right as u32),
    ;
    Ok(v)
}

} // verus!
