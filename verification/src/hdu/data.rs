//! The data unit of an HDU: raw bytes, null-padded to whole FITS blocks.
use vstd::prelude::*;

use crate::endian::{i16_to_be_bytes, i16s_be, i32_to_be_bytes, i32s_be, i64_to_be_bytes, i64s_be};
use crate::{fill_to_2880, spec_fill_to_2880};

verus! {

/// The byte that pads a data unit.
pub const NULL_BYTE: u8 = 0;

/// `n` null bytes.
pub open spec fn nulls(n: int) -> Seq<u8> {
    Seq::new(n as nat, |i: int| NULL_BYTE)
}

/// `bytes` followed by the null bytes that `fill_to_2880` asks for, the
/// length being taken as an `i32` as the padding computation does.
pub open spec fn null_padded(bytes: Seq<u8>) -> Seq<u8> {
    bytes + nulls(spec_fill_to_2880((bytes.len() as i32) as int))
}

/// What `FITSData::add` stores of `bytes` starts with `bytes`, continues with
/// fewer than 2880 null bytes, and fills whole 2880-byte blocks (for a
/// length that `i32` holds, as the padding computation takes it).
pub proof fn law_add_fills_whole_blocks(bytes: Seq<u8>)
    requires
        bytes.len() <= i32::MAX,
    ensures
        null_padded(bytes).len() % 2880 == 0,
        null_padded(bytes).len() - bytes.len() < 2880,
        null_padded(bytes).take(bytes.len() as int) == bytes,
        forall|i: int|
            bytes.len() <= i < null_padded(bytes).len() ==> #[trigger] null_padded(bytes)[i] == NULL_BYTE,
        bytes.len() % 2880 == 0 ==> null_padded(bytes) == bytes,
{
    let n = bytes.len() as int;
    assert((n as i32) as int == n);
    crate::lemma_fill_aligns(n);
    assert(null_padded(bytes).take(n) =~= bytes);
    if n % 2880 == 0 {
        assert(null_padded(bytes) =~= bytes);
    }
}

#[derive(Debug)]
pub struct FITSData {
    pub data: Vec<u8>,
}

impl FITSData {
    pub fn new() -> (d: FITSData)
        ensures
            d.data@ == Seq::<u8>::empty(),
    {
        FITSData { data: Vec::new() }
    }

    /// Store raw pixel bytes and pad to the next 2880-byte boundary with null bytes.
    pub fn add(&mut self, data: Vec<u8>)
        ensures
            final(self).data@ == null_padded(data@),
    {
        let mut data = data;
        let ghost given = data@;
        let bytes_to_add = fill_to_2880(data.len() as i32);
        let mut i: i32 = 0;
        while i < bytes_to_add
            invariant
                0 <= i <= bytes_to_add || (i == 0 && bytes_to_add <= 0),
                bytes_to_add == spec_fill_to_2880((given.len() as i32) as int),
                data@ == given + nulls(i as int),
            decreases bytes_to_add - i,
        {
            data.push(NULL_BYTE);
            assert(nulls(i + 1) =~= nulls(i as int).push(NULL_BYTE));
            i = i + 1;
        }
        proof {
            if bytes_to_add <= 0 {
                assert(nulls(bytes_to_add as int) =~= nulls(0));
            }
        }
        assert(data@ =~= null_padded(given));
        self.data = data;
    }

    /// Store `u8` pixels (BITPIX = 8).  No byte-swapping needed for single bytes.
    pub fn add_u8(&mut self, values: &[u8])
        ensures
            final(self).data@ == null_padded(values@),
    {
        self.add(vstd::slice::slice_to_vec(values));
    }

    /// Store `i16` pixels (BITPIX = 16) in FITS big-endian byte order.
    pub fn add_i16(&mut self, values: &[i16])
        ensures
            final(self).data@ == null_padded(i16s_be(values@)),
    {
        self.add(i16_to_be_bytes(values));
    }

    /// Store `i32` pixels (BITPIX = 32) in FITS big-endian byte order.
    pub fn add_i32(&mut self, values: &[i32])
        ensures
            final(self).data@ == null_padded(i32s_be(values@)),
    {
        self.add(i32_to_be_bytes(values));
    }

    /// Store `i64` pixels (BITPIX = 64) in FITS big-endian byte order.
    pub fn add_i64(&mut self, values: &[i64])
        ensures
            final(self).data@ == null_padded(i64s_be(values@)),
    {
        self.add(i64_to_be_bytes(values));
    }
}

} // verus!
