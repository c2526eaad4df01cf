//! Reading and writing FITS files: Header Data Units made of 80-byte header
//! records and a data unit, both laid out in 2880-byte blocks.
use vstd::prelude::*;

pub mod endian;
pub mod hdu;
pub mod headers;
pub mod inspect;
pub mod parsing;
pub mod text;

pub use hdu::HDU;
use hdu::records_bytes;

verus! {

/// The size in bytes of a FITS block.
pub const BLOCK_LEN: i32 = 2880;

/// Remainder of `n` divided by `d` as Rust's `%` computes it on signed integers:
/// truncated toward zero, so it carries the sign of `n`.
pub open spec fn trunc_rem(n: int, d: int) -> int {
    if n >= 0 {
        n % d
    } else {
        -((-n) % d)
    }
}

/// Number of padding bytes that `fill_to_2880` gives for `n`.
pub open spec fn spec_fill_to_2880(n: int) -> int {
    let m = trunc_rem(n, 2880);
    if m == 0 {
        0
    } else {
        2880 - m
    }
}

/// Return how many padding bytes are needed to align `n` to the next
/// 2880-byte FITS block boundary.  Returns 0 if `n` is already aligned.
pub fn fill_to_2880(n: i32) -> (r: i32)
    ensures
        r == spec_fill_to_2880(n as int),
        0 <= r < 5760,
        n >= 0 ==> r < 2880 && (n + r) % 2880 == 0,
{
    let m = n % BLOCK_LEN;
    if m == 0 {
        0
    } else {
        BLOCK_LEN - m
    }
}

/// For a length that is not negative, the padding is less than a block and
/// ends the length on a block boundary.
pub proof fn lemma_fill_aligns(n: int)
    requires
        n >= 0,
    ensures
        0 <= spec_fill_to_2880(n) < 2880,
        (n + spec_fill_to_2880(n)) % 2880 == 0,
        n % 2880 == 0 ==> spec_fill_to_2880(n) == 0,
{
}

/// A complete FITS file: an ordered collection of Header Data Units (HDUs).
///
/// The first HDU is the primary HDU and must begin with the `SIMPLE` keyword.
/// Additional HDUs are extensions (IMAGE, BINTABLE, TABLE).
#[derive(Debug)]
pub struct FITSFile {
    pub hdus: Vec<HDU>,
}

/// The bytes of the HDUs, one after another.
pub open spec fn hdus_bytes(hdus: Seq<HDU>) -> Seq<u8>
    decreases hdus.len(),
{
    if hdus.len() == 0 {
        Seq::empty()
    } else {
        hdus_bytes(hdus.drop_last()) + hdus.last().spec_bytes()
    }
}

/// Adding an HDU to a file appends that HDU's bytes to what the file writes,
/// and leaves what was written before unchanged.
pub proof fn law_add_hdu_appends(f: FITSFile, h: HDU)
    ensures
        hdus_bytes(f.hdus@.push(h)) == hdus_bytes(f.hdus@) + h.spec_bytes(),
{
    assert(f.hdus@.push(h).drop_last() =~= f.hdus@);
}

/// The bytes of HDUs that are each written as whole blocks are whole blocks.
pub proof fn lemma_hdus_whole_blocks(hdus: Seq<HDU>)
    requires
        forall|i: int| 0 <= i < hdus.len() ==> (#[trigger] hdus[i]).spec_bytes().len() % 2880 == 0,
    ensures
        hdus_bytes(hdus).len() % 2880 == 0,
    decreases hdus.len(),
{
    if hdus.len() > 0 {
        let init = hdus.drop_last();
        assert forall|i: int| 0 <= i < init.len() implies (#[trigger] init[i]).spec_bytes().len() % 2880
            == 0 by {
            assert(init[i] == hdus[i]);
        }
        lemma_hdus_whole_blocks(init);
        assert(hdus.last() == hdus[hdus.len() - 1]);
    }
}

/// What `FITSFile::to_bytes` writes is a whole number of 2880-byte blocks
/// when every HDU's data unit is (as `FITSData::add` leaves it), for header
/// sections whose length `i32` holds.
pub proof fn law_file_bytes_whole_blocks(f: FITSFile)
    requires
        forall|i: int|
            0 <= i < f.hdus@.len() ==> records_bytes((#[trigger] f.hdus@[i]).headers@).len() <= i32::MAX
                && f.hdus@[i].data.data@.len() % 2880 == 0,
    ensures
        hdus_bytes(f.hdus@).len() % 2880 == 0,
{
    assert forall|i: int| 0 <= i < f.hdus@.len() implies (#[trigger] f.hdus@[i]).spec_bytes().len() % 2880
        == 0 by {
        crate::hdu::law_hdu_bytes_whole_blocks(f.hdus@[i]);
    }
    lemma_hdus_whole_blocks(f.hdus@);
}

impl FITSFile {
    pub fn new() -> (f: FITSFile)
        ensures
            f.hdus@ == Seq::<HDU>::empty(),
    {
        FITSFile { hdus: Vec::new() }
    }

    pub fn add_hdu(&mut self, hdu: HDU)
        ensures
            final(self).hdus@ == old(self).hdus@.push(hdu),
    {
        self.hdus.push(hdu);
    }

    /// Serialize the entire file to a byte vector.
    pub fn to_bytes(&self) -> (out: Vec<u8>)
        ensures
            out@ == hdus_bytes(self.hdus@),
    {
        let mut out: Vec<u8> = Vec::new();
        let mut i: usize = 0;
        while i < self.hdus.len()
            invariant
                i <= self.hdus@.len(),
                out@ == hdus_bytes(self.hdus@.take(i as int)),
            decreases self.hdus@.len() - i,
        {
            let b = self.hdus[i].to_bytes();
            crate::text::extend_bytes(&mut out, b.as_slice());
            assert(self.hdus@.take(i + 1).drop_last() =~= self.hdus@.take(i as int));
            i = i + 1;
        }
        assert(self.hdus@.take(self.hdus@.len() as int) =~= self.hdus@);
        out
    }
}

} // verus!
