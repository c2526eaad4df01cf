//! Header Data Units: a list of header records and a data unit.
use vstd::prelude::*;
use vstd::utf8::{decode_utf8, valid_utf8};

pub mod bintable;
pub mod data;
pub mod headers;

use crate::hdu::data::FITSData;
use crate::hdu::headers::{
    encode_utf8_of, fit70, key_field, spaces, valid_keyword, value_field, value_fits,
    FITSHeader, FITSValue,
};
use crate::text::{chars_of, decode_bytes, extend_bytes, push_repeat, string_of};
use crate::{fill_to_2880, spec_fill_to_2880};

verus! {

#[derive(Debug)]
pub struct HDU {
    pub headers: Vec<FITSHeader>,
    pub data: FITSData,
}

/// The header records, 80 bytes each, one after another.
pub open spec fn records_bytes(hs: Seq<FITSHeader>) -> Seq<u8>
    decreases hs.len(),
{
    if hs.len() == 0 {
        Seq::empty()
    } else {
        records_bytes(hs.drop_last()) + hs.last().record()
    }
}

/// The keyword `SIMPLE` as its 8 columns: `SIMPLE` and two spaces.
pub open spec fn simple_bytes() -> Seq<u8> {
    seq![83u8, 73, 77, 80, 76, 69, 32, 32]
}

/// The keyword `BITPIX` as its 8 columns: `BITPIX` and two spaces.
pub open spec fn bitpix_bytes() -> Seq<u8> {
    seq![66u8, 73, 84, 80, 73, 88, 32, 32]
}

/// The keyword `NAXIS` as its 8 columns: `NAXIS` and three spaces.
pub open spec fn naxis_bytes() -> Seq<u8> {
    seq![78u8, 65, 88, 73, 83, 32, 32, 32]
}

/// The keyword `END` as its 8 columns: `END` and five spaces.
pub open spec fn end_bytes() -> Seq<u8> {
    seq![69u8, 78, 68, 32, 32, 32, 32, 32]
}

/// Whether the key field `k` starts with the bytes `w`.
pub open spec fn key_starts(k: Seq<u8>, w: Seq<u8>) -> bool {
    k.take(w.len() as int) == w
}

/// The error message of a primary HDU whose first keyword is not `SIMPLE`:
/// it quotes the first six bytes of that key field, or `?` where they are not
/// valid UTF-8.
pub open spec fn not_simple_message(k: Seq<u8>) -> Seq<char> {
    let found = k.take(6);
    "first keyword must be SIMPLE, found: "@ + (if valid_utf8(found) {
        decode_utf8(found)
    } else {
        "?"@
    })
}

/// What `validate_primary` answers for the header records `hs`: each
/// keyword is compared whole, over the 8 keyword columns of its key field,
/// so that `ENDTIME` is not `END` and `NAXIS1` is not `NAXIS`.
pub open spec fn primary_verdict(hs: Seq<FITSHeader>) -> Result<(), Seq<char>> {
    if hs.len() == 0 {
        Err("primary HDU has no headers"@)
    } else if !key_starts(hs[0].key@, simple_bytes()) {
        Err(not_simple_message(hs[0].key@))
    } else if !(exists|i: int| 0 <= i < hs.len() && key_starts(#[trigger] hs[i].key@, bitpix_bytes())) {
        Err("BITPIX keyword is required in the primary HDU"@)
    } else if !(exists|i: int| 0 <= i < hs.len() && key_starts(#[trigger] hs[i].key@, naxis_bytes())) {
        Err("NAXIS keyword is required in the primary HDU"@)
    } else if !key_starts(hs.last().key@, end_bytes()) {
        Err("last keyword must be END"@)
    } else {
        Ok(())
    }
}

/// Whether the key field `k` starts with the bytes `w`.
fn key_starts_with(k: &[u8; 10], w: &[u8]) -> (r: bool)
    requires
        w@.len() <= 10,
    ensures
        r == key_starts(k@, w@),
{
    let mut i: usize = 0;
    while i < w.len()
        invariant
            w@.len() <= 10,
            i <= w@.len(),
            forall|j: int| 0 <= j < i ==> k@[j] == w@[j],
        decreases w@.len() - i,
    {
        if k[i] != w[i] {
            return false;
        }
        i = i + 1;
    }
    assert(k@.take(w@.len() as int) =~= w@);
    true
}

/// What `HDU::to_bytes` writes starts with the header records, pads them with
/// spaces to a whole number of 2880-byte blocks (fewer than 2880 of them),
/// and ends with the data unit; an HDU whose data unit fills whole blocks
/// is written as whole blocks.  Stated for a header section whose length
/// `i32` holds, as the padding computation takes it.
pub proof fn law_hdu_bytes_whole_blocks(h: HDU)
    requires
        records_bytes(h.headers@).len() <= i32::MAX,
    ensures
        ({
            let r = records_bytes(h.headers@);
            let pad = h.spec_bytes().len() - r.len() - h.data.data@.len();
            &&& 0 <= pad < 2880
            &&& (r.len() + pad) % 2880 == 0
            &&& h.spec_bytes().take(r.len() as int) == r
            &&& forall|i: int| r.len() <= i < r.len() + pad ==> #[trigger] h.spec_bytes()[i] == 32u8
            &&& h.spec_bytes().skip(r.len() + pad) == h.data.data@
            &&& h.data.data@.len() % 2880 == 0 ==> h.spec_bytes().len() % 2880 == 0
        }),
{
    let r = records_bytes(h.headers@);
    let n = r.len() as int;
    assert((n as i32) as int == n);
    crate::lemma_fill_aligns(n);
    let pad = spec_fill_to_2880(n);
    let b = h.spec_bytes();
    assert(b == r + spaces(pad) + h.data.data@);
    assert(b.take(n) =~= r);
    assert(b.skip(n + pad) =~= h.data.data@);
    assert forall|i: int| n <= i < n + pad implies #[trigger] b[i] == 32u8 by {
        assert(b[i] == spaces(pad)[i - n]);
    }
    if h.data.data@.len() % 2880 == 0 {
        assert(b.len() == (n + pad) + h.data.data@.len());
    }
}

impl HDU {
    /// The bytes that `to_bytes` writes: the header records, spaces up to
    /// the next block boundary, then the data unit as stored.
    pub open spec fn spec_bytes(&self) -> Seq<u8> {
        let r = records_bytes(self.headers@);
        r + spaces(spec_fill_to_2880((r.len() as i32) as int)) + self.data.data@
    }

    pub fn init() -> (h: HDU)
        ensures
            h.headers@ == Seq::<FITSHeader>::empty(),
            h.data.data@ == Seq::<u8>::empty(),
    {
        HDU { headers: Vec::new(), data: FITSData::new() }
    }

    pub fn raw_data(&self) -> (d: &Vec<u8>)
        ensures
            d@ == self.data.data@,
    {
        &self.data.data
    }

    pub fn add_data(&mut self, data: Vec<u8>)
        ensures
            final(self).data.data@ == crate::hdu::data::null_padded(data@),
            final(self).headers@ == old(self).headers@,
    {
        self.data.add(data);
    }

    pub fn add_header(&mut self, key: &str, value: FITSValue)
        requires
            valid_keyword(key@),
            value_fits(value),
        ensures
            final(self).headers@.len() == old(self).headers@.len() + 1,
            final(self).headers@.drop_last() == old(self).headers@,
            final(self).headers@.last().key@ == key_field(key@),
            final(self).headers@.last().value@ == value_field(value, None),
            final(self).data == old(self).data,
    {
        self.headers.push(FITSHeader::new(key, value));
        assert(self.headers@.drop_last() =~= old(self).headers@);
    }

    pub fn add_header_with_comment(&mut self, key: &str, value: FITSValue, comment: &str)
        requires
            valid_keyword(key@),
            value_fits(value),
        ensures
            final(self).headers@.len() == old(self).headers@.len() + 1,
            final(self).headers@.drop_last() == old(self).headers@,
            final(self).headers@.last().key@ == key_field(key@),
            final(self).headers@.last().value@ == value_field(value, Some(comment@)),
            final(self).data == old(self).data,
    {
        self.headers.push(FITSHeader::new_with_comment(key, value, comment));
        assert(self.headers@.drop_last() =~= old(self).headers@);
    }

    pub fn add_comment(&mut self, text: &str)
        ensures
            final(self).headers@.len() == old(self).headers@.len() + 1,
            final(self).headers@.drop_last() == old(self).headers@,
            final(self).headers@.last().key@ == crate::hdu::headers::comment_key(),
            final(self).headers@.last().value@ == fit70(encode_utf8_of(text@)),
            final(self).data == old(self).data,
    {
        self.headers.push(FITSHeader::comment(text));
        assert(self.headers@.drop_last() =~= old(self).headers@);
    }

    pub fn add_history(&mut self, text: &str)
        ensures
            final(self).headers@.len() == old(self).headers@.len() + 1,
            final(self).headers@.drop_last() == old(self).headers@,
            final(self).headers@.last().key@ == crate::hdu::headers::history_key(),
            final(self).headers@.last().value@ == fit70(encode_utf8_of(text@)),
            final(self).data == old(self).data,
    {
        self.headers.push(FITSHeader::history(text));
        assert(self.headers@.drop_last() =~= old(self).headers@);
    }

    /// Validate this HDU as a primary HDU (the first HDU in a FITS file).
    ///
    /// In the FITS standard the primary HDU must have:
    /// - `SIMPLE` as the first keyword
    /// - `BITPIX` present
    /// - `NAXIS` present
    /// - `END` as the last keyword
    ///
    /// A keyword is its whole 8 columns: `ENDTIME` is not `END`, and
    /// `NAXIS1` is not `NAXIS`.
    pub fn validate_primary(&self) -> (r: Result<(), String>)
        ensures
            match (r, primary_verdict(self.headers@)) {
                (Ok(()), Ok(())) => true,
                (Err(m), Err(e)) => m@ == e,
                _ => false,
            },
    {
        let hs = &self.headers;
        if hs.len() == 0 {
            return Err("primary HDU has no headers".to_owned());
        }
        let simple: [u8; 8] = [83, 73, 77, 80, 76, 69, 32, 32];
        let bitpix: [u8; 8] = [66, 73, 84, 80, 73, 88, 32, 32];
        let naxis: [u8; 8] = [78, 65, 88, 73, 83, 32, 32, 32];
        let end: [u8; 8] = [69, 78, 68, 32, 32, 32, 32, 32];
        assert(simple@ =~= simple_bytes());
        assert(bitpix@ =~= bitpix_bytes());
        assert(naxis@ =~= naxis_bytes());
        assert(end@ =~= end_bytes());
        if !key_starts_with(&hs[0].key, simple.as_slice()) {
            let mut msg = chars_of("first keyword must be SIMPLE, found: ");
            let first6: [u8; 6] = [
                hs[0].key[0],
                hs[0].key[1],
                hs[0].key[2],
                hs[0].key[3],
                hs[0].key[4],
                hs[0].key[5],
            ];
            assert(first6@ =~= hs@[0].key@.take(6));
            let mut found = match decode_bytes(first6.as_slice()) {
                Some(v) => v,
                None => chars_of("?"),
            };
            msg.append(&mut found);
            return Err(string_of(msg.as_slice()));
        }
        let mut has_bitpix = false;
        let mut i: usize = 0;
        while i < hs.len()
            invariant
                i <= hs@.len(),
                bitpix@ == bitpix_bytes(),
                has_bitpix == exists|j: int| 0 <= j < i && key_starts(#[trigger] hs@[j].key@, bitpix_bytes()),
            decreases hs@.len() - i,
        {
            if key_starts_with(&hs[i].key, bitpix.as_slice()) {
                has_bitpix = true;
            }
            i = i + 1;
        }
        if !has_bitpix {
            return Err("BITPIX keyword is required in the primary HDU".to_owned());
        }
        let mut has_naxis = false;
        let mut i: usize = 0;
        while i < hs.len()
            invariant
                i <= hs@.len(),
                naxis@ == naxis_bytes(),
                has_naxis == exists|j: int| 0 <= j < i && key_starts(#[trigger] hs@[j].key@, naxis_bytes()),
            decreases hs@.len() - i,
        {
            if key_starts_with(&hs[i].key, naxis.as_slice()) {
                has_naxis = true;
            }
            i = i + 1;
        }
        if !has_naxis {
            return Err("NAXIS keyword is required in the primary HDU".to_owned());
        }
        if !key_starts_with(&hs[hs.len() - 1].key, end.as_slice()) {
            return Err("last keyword must be END".to_owned());
        }
        Ok(())
    }

    /// Serialize this HDU to a byte vector suitable for writing to a FITS file.
    ///
    /// - Header records are written as 80-byte blocks, then padded with spaces
    ///   to the next 2880-byte boundary.
    /// - Data bytes follow (already padded with null bytes by `FITSData::add`).
    pub fn to_bytes(&self) -> (out: Vec<u8>)
        ensures
            out@ == self.spec_bytes(),
    {
        let mut bytes: Vec<u8> = Vec::new();
        let mut i: usize = 0;
        while i < self.headers.len()
            invariant
                i <= self.headers@.len(),
                bytes@ == records_bytes(self.headers@.take(i as int)),
            decreases self.headers@.len() - i,
        {
            extend_bytes(&mut bytes, self.headers[i].key.as_slice());
            extend_bytes(&mut bytes, self.headers[i].value.as_slice());
            assert(self.headers@.take(i + 1).drop_last() =~= self.headers@.take(i as int));
            assert(bytes@ =~= records_bytes(self.headers@.take(i + 1)));
            i = i + 1;
        }
        assert(self.headers@.take(self.headers@.len() as int) =~= self.headers@);
        let header_padding = fill_to_2880(bytes.len() as i32) as usize;
        push_repeat(&mut bytes, 32u8, header_padding);
        extend_bytes(&mut bytes, self.data.data.as_slice());
        assert(bytes@ =~= self.spec_bytes());
        bytes
    }
}

} // verus!
