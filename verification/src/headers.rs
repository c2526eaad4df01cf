//! Header records built from plain strings: the key is written as given and
//! the value field holds the value's bytes.
use vstd::prelude::*;
use vstd::utf8::{decode_utf8, encode_utf8, valid_utf8};

use crate::text::{decode_bytes, str_from_utf8, string_of};

verus! {

/// The byte that pads the fields.
pub const PADDING: u8 = 32;

/// The value indicator.
pub const EQUAL_SIGN: u8 = 61;

pub struct FITSHeader {
    pub key: [u8; 10],
    pub value: [u8; 70],
}

/// The key field for the key bytes `k`: the key, spaces, `=` in column 9.
pub open spec fn simple_key_field(k: Seq<u8>) -> Seq<u8> {
    Seq::new(
        10,
        |i: int|
            if i == 8 {
                EQUAL_SIGN
            } else if i < k.len() {
                k[i]
            } else {
                PADDING
            },
    )
}

/// The value field for the value bytes `v` beside a key of `klen` bytes: the
/// padding runs from column `klen` on, over the value too; below `klen`, the
/// value's bytes, then null bytes.
pub open spec fn simple_value_field(klen: int, v: Seq<u8>) -> Seq<u8> {
    Seq::new(
        70,
        |i: int|
            if i >= klen {
                PADDING
            } else if i < v.len() {
                v[i]
            } else {
                0u8
            },
    )
}

impl FITSHeader {
    /// Builds a record from a key of 1–8 bytes and a value of 1–70 bytes.
    pub fn new(key: &str, value: &str) -> (h: FITSHeader)
        requires
            1 <= encode_utf8(key@).len() <= 8,
            1 <= encode_utf8(value@).len() <= 70,
        ensures
            h.key@ == simple_key_field(encode_utf8(key@)),
            h.value@ == simple_value_field(encode_utf8(key@).len() as int, encode_utf8(value@)),
    {
        let kb = key.as_bytes();
        let vb = value.as_bytes();
        let mut header_key = [0u8; 10];
        let mut header_value = [0u8; 70];
        let mut i: usize = 0;
        while i < kb.len()
            invariant
                kb@.len() <= 8,
                i <= kb@.len(),
                forall|j: int| 0 <= j < i ==> header_key@[j] == kb@[j],
            decreases kb@.len() - i,
        {
            header_key[i] = kb[i];
            i = i + 1;
        }
        let mut i: usize = kb.len();
        while i < 10
            invariant
                kb@.len() <= 8,
                kb@.len() <= i <= 10,
                forall|j: int| 0 <= j < kb@.len() ==> header_key@[j] == kb@[j],
                forall|j: int| kb@.len() <= j < i ==> header_key@[j] == PADDING,
            decreases 10 - i,
        {
            header_key[i] = PADDING;
            i = i + 1;
        }
        header_key[8] = EQUAL_SIGN;
        let mut i: usize = 0;
        while i < vb.len()
            invariant
                vb@.len() <= 70,
                i <= vb@.len(),
                forall|j: int| 0 <= j < i ==> header_value@[j] == vb@[j],
                forall|j: int| i <= j < 70 ==> header_value@[j] == 0u8,
            decreases vb@.len() - i,
        {
            header_value[i] = vb[i];
            i = i + 1;
        }
        let mut i: usize = kb.len();
        while i < 70
            invariant
                kb@.len() <= 8,
                vb@.len() <= 70,
                kb@.len() <= i <= 70,
                forall|j: int| 0 <= j < kb@.len() ==> header_value@[j] == (if j < vb@.len() {
                    vb@[j]
                } else {
                    0u8
                }),
                forall|j: int| kb@.len() <= j < i ==> header_value@[j] == PADDING,
            decreases 70 - i,
        {
            header_value[i] = PADDING;
            i = i + 1;
        }
        assert(header_key@ =~= simple_key_field(kb@));
        assert(header_value@ =~= simple_value_field(kb@.len() as int, vb@));
        FITSHeader { key: header_key, value: header_value }
    }

    /// The key field as text; it must be valid UTF-8.
    pub fn key_as_str(&self) -> (s: &str)
        requires
            valid_utf8(self.key@),
        ensures
            s@ == decode_utf8(self.key@),
    {
        match str_from_utf8(self.key.as_slice()) {
            Some(s) => s,
            None => {
                assert(false);
                ""
            },
        }
    }

    /// The value field as text; it must be valid UTF-8.
    pub fn value_as_str(&self) -> (s: &str)
        requires
            valid_utf8(self.value@),
        ensures
            s@ == decode_utf8(self.value@),
    {
        match str_from_utf8(self.value.as_slice()) {
            Some(s) => s,
            None => {
                assert(false);
                ""
            },
        }
    }

    /// The record as text: key field then value field.
    pub fn as_str(&self) -> (s: String)
        requires
            valid_utf8(self.key@),
            valid_utf8(self.value@),
        ensures
            s@ == decode_utf8(self.key@) + decode_utf8(self.value@),
    {
        let k = decode_bytes(self.key.as_slice());
        let v = decode_bytes(self.value.as_slice());
        match (k, v) {
            (Some(mut k), Some(mut v)) => {
                k.append(&mut v);
                string_of(k.as_slice())
            },
            _ => {
                assert(false);
                String::new()
            },
        }
    }
}

} // verus!
