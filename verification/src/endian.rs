//! Conversion between native integers and the big-endian byte order that
//! FITS mandates for every multi-byte value.
use vstd::prelude::*;

verus! {

// ───────────────────────── single values ─────────────────────────

/// `v.to_be_bytes()` for an `i16`.
pub open spec fn i16_be(v: i16) -> Seq<u8> {
    let u = v as u16;
    seq![(u >> 8u16) as u8, u as u8]
}

/// `i16::from_be_bytes([b0, b1])`.
pub open spec fn i16_from_be(b0: u8, b1: u8) -> i16 {
    (((b0 as u16) << 8u16) | (b1 as u16)) as i16
}

/// `v.to_be_bytes()` for an `i32`.
pub open spec fn i32_be(v: i32) -> Seq<u8> {
    let u = v as u32;
    seq![(u >> 24u32) as u8, (u >> 16u32) as u8, (u >> 8u32) as u8, u as u8]
}

/// `i32::from_be_bytes([b0, b1, b2, b3])`.
pub open spec fn i32_from_be(b0: u8, b1: u8, b2: u8, b3: u8) -> i32 {
    (((b0 as u32) << 24u32) | ((b1 as u32) << 16u32) | ((b2 as u32) << 8u32) | (b3 as u32)) as i32
}

/// `v.to_be_bytes()` for an `i64`.
pub open spec fn i64_be(v: i64) -> Seq<u8> {
    let u = v as u64;
    seq![
        (u >> 56u64) as u8,
        (u >> 48u64) as u8,
        (u >> 40u64) as u8,
        (u >> 32u64) as u8,
        (u >> 24u64) as u8,
        (u >> 16u64) as u8,
        (u >> 8u64) as u8,
        u as u8,
    ]
}

/// `i64::from_be_bytes(b)` for the eight bytes `b`.
pub open spec fn i64_from_be(b: Seq<u8>) -> i64 {
    (((b[0] as u64) << 56u64) | ((b[1] as u64) << 48u64) | ((b[2] as u64) << 40u64) | ((
    b[3] as u64) << 32u64) | ((b[4] as u64) << 24u64) | ((b[5] as u64) << 16u64) | ((b[6] as u64)
        << 8u64) | (b[7] as u64)) as i64
}

/// Decoding the encoding of an `i16` gives it back.
pub proof fn lemma_i16_roundtrip(v: i16)
    ensures
        i16_from_be(i16_be(v)[0], i16_be(v)[1]) == v,
{
    let u = v as u16;
    assert(((((u >> 8u16) as u8) as u16) << 8u16 | ((u as u8) as u16)) == u) by (bit_vector);
    assert((u as i16) == v) by (bit_vector)
        requires
            u == v as u16,
    ;
}

/// Encoding the decoding of two bytes gives them back.
pub proof fn lemma_i16_bytes_roundtrip(b0: u8, b1: u8)
    ensures
        i16_be(i16_from_be(b0, b1)) == seq![b0, b1],
{
    let w = ((b0 as u16) << 8u16) | (b1 as u16);
    assert(((w as i16) as u16) == w) by (bit_vector);
    assert((w >> 8u16) as u8 == b0 && w as u8 == b1) by (bit_vector)
        requires
            w == ((b0 as u16) << 8u16) | (b1 as u16),
    ;
    assert(i16_be(i16_from_be(b0, b1)) =~= seq![b0, b1]);
}

/// Decoding the encoding of an `i32` gives it back.
pub proof fn lemma_i32_roundtrip(v: i32)
    ensures
        i32_from_be(i32_be(v)[0], i32_be(v)[1], i32_be(v)[2], i32_be(v)[3]) == v,
{
    let u = v as u32;
    assert((((((u >> 24u32) as u8) as u32) << 24u32) | ((((u >> 16u32) as u8) as u32) << 16u32)
        | ((((u >> 8u32) as u8) as u32) << 8u32) | ((u as u8) as u32)) == u) by (bit_vector);
    assert((u as i32) == v) by (bit_vector)
        requires
            u == v as u32,
    ;
}

/// Encoding the decoding of four bytes gives them back.
pub proof fn lemma_i32_bytes_roundtrip(b0: u8, b1: u8, b2: u8, b3: u8)
    ensures
        i32_be(i32_from_be(b0, b1, b2, b3)) == seq![b0, b1, b2, b3],
{
    let w = ((b0 as u32) << 24u32) | ((b1 as u32) << 16u32) | ((b2 as u32) << 8u32) | (b3 as u32);
    assert(((w as i32) as u32) == w) by (bit_vector);
    assert((w >> 24u32) as u8 == b0 && (w >> 16u32) as u8 == b1 && (w >> 8u32) as u8 == b2 && w
        as u8 == b3) by (bit_vector)
        requires
            w == ((b0 as u32) << 24u32) | ((b1 as u32) << 16u32) | ((b2 as u32) << 8u32) | (
            b3 as u32),
    ;
    assert(i32_be(i32_from_be(b0, b1, b2, b3)) =~= seq![b0, b1, b2, b3]);
}

/// Decoding the encoding of an `i64` gives it back.
pub proof fn lemma_i64_roundtrip(v: i64)
    ensures
        i64_from_be(i64_be(v)) == v,
{
    let u = v as u64;
    assert((((((u >> 56u64) as u8) as u64) << 56u64) | ((((u >> 48u64) as u8) as u64) << 48u64)
        | ((((u >> 40u64) as u8) as u64) << 40u64) | ((((u >> 32u64) as u8) as u64) << 32u64) | ((
    ((u >> 24u64) as u8) as u64) << 24u64) | ((((u >> 16u64) as u8) as u64) << 16u64) | ((((u
        >> 8u64) as u8) as u64) << 8u64) | ((u as u8) as u64)) == u) by (bit_vector);
    assert((u as i64) == v) by (bit_vector)
        requires
            u == v as u64,
    ;
}

/// Encoding the decoding of eight bytes gives them back.
pub proof fn lemma_i64_bytes_roundtrip(b: Seq<u8>)
    requires
        b.len() == 8,
    ensures
        i64_be(i64_from_be(b)) == b,
{
    let (b0, b1, b2, b3, b4, b5, b6, b7) = (b[0], b[1], b[2], b[3], b[4], b[5], b[6], b[7]);
    let w = ((b0 as u64) << 56u64) | ((b1 as u64) << 48u64) | ((b2 as u64) << 40u64) | ((
    b3 as u64) << 32u64) | ((b4 as u64) << 24u64) | ((b5 as u64) << 16u64) | ((b6 as u64)
        << 8u64) | (b7 as u64);
    assert(((w as i64) as u64) == w) by (bit_vector);
    assert((w >> 56u64) as u8 == b0 && (w >> 48u64) as u8 == b1 && (w >> 40u64) as u8 == b2 && (w
        >> 32u64) as u8 == b3 && (w >> 24u64) as u8 == b4 && (w >> 16u64) as u8 == b5 && (w
        >> 8u64) as u8 == b6 && w as u8 == b7) by (bit_vector)
        requires
            w == ((b0 as u64) << 56u64) | ((b1 as u64) << 48u64) | ((b2 as u64) << 40u64) | ((
            b3 as u64) << 32u64) | ((b4 as u64) << 24u64) | ((b5 as u64) << 16u64) | ((
            b6 as u64) << 8u64) | (b7 as u64),
    ;
    assert(i64_be(i64_from_be(b)) =~= b);
}

// ───────────────────────── sequences ─────────────────────────

/// The big-endian bytes of each value, one after another.
pub open spec fn i16s_be(vs: Seq<i16>) -> Seq<u8>
    decreases vs.len(),
{
    if vs.len() == 0 {
        Seq::empty()
    } else {
        i16s_be(vs.drop_last()) + i16_be(vs.last())
    }
}

/// The big-endian bytes of each value, one after another.
pub open spec fn i32s_be(vs: Seq<i32>) -> Seq<u8>
    decreases vs.len(),
{
    if vs.len() == 0 {
        Seq::empty()
    } else {
        i32s_be(vs.drop_last()) + i32_be(vs.last())
    }
}

/// The big-endian bytes of each value, one after another.
pub open spec fn i64s_be(vs: Seq<i64>) -> Seq<u8>
    decreases vs.len(),
{
    if vs.len() == 0 {
        Seq::empty()
    } else {
        i64s_be(vs.drop_last()) + i64_be(vs.last())
    }
}

/// One `i16` for each whole 2-byte chunk of `b`; a trailing odd byte is ignored.
pub open spec fn be_i16s(b: Seq<u8>) -> Seq<i16> {
    Seq::new(b.len() / 2, |k: int| i16_from_be(b[2 * k], b[2 * k + 1]))
}

/// One `i32` for each whole 4-byte chunk of `b`; trailing bytes are ignored.
pub open spec fn be_i32s(b: Seq<u8>) -> Seq<i32> {
    Seq::new(b.len() / 4, |k: int| i32_from_be(b[4 * k], b[4 * k + 1], b[4 * k + 2], b[4 * k + 3]))
}

/// One `i64` for each whole 8-byte chunk of `b`; trailing bytes are ignored.
pub open spec fn be_i64s(b: Seq<u8>) -> Seq<i64> {
    Seq::new(b.len() / 8, |k: int| i64_from_be(b.subrange(8 * k, 8 * k + 8)))
}

/// Where each value's bytes stand in the encoding of a sequence.
pub proof fn lemma_i16s_be_layout(vs: Seq<i16>)
    ensures
        i16s_be(vs).len() == 2 * vs.len(),
        forall|k: int, j: int|
            0 <= k < vs.len() && 0 <= j < 2 ==> #[trigger] i16s_be(vs)[2 * k + j] == i16_be(
                vs[k],
            )[j],
    decreases vs.len(),
{
    if vs.len() > 0 {
        lemma_i16s_be_layout(vs.drop_last());
    }
}

/// Where each value's bytes stand in the encoding of a sequence.
pub proof fn lemma_i32s_be_layout(vs: Seq<i32>)
    ensures
        i32s_be(vs).len() == 4 * vs.len(),
        forall|k: int, j: int|
            0 <= k < vs.len() && 0 <= j < 4 ==> #[trigger] i32s_be(vs)[4 * k + j] == i32_be(
                vs[k],
            )[j],
    decreases vs.len(),
{
    if vs.len() > 0 {
        lemma_i32s_be_layout(vs.drop_last());
    }
}

/// Where each value's bytes stand in the encoding of a sequence.
pub proof fn lemma_i64s_be_layout(vs: Seq<i64>)
    ensures
        i64s_be(vs).len() == 8 * vs.len(),
        forall|k: int, j: int|
            0 <= k < vs.len() && 0 <= j < 8 ==> #[trigger] i64s_be(vs)[8 * k + j] == i64_be(
                vs[k],
            )[j],
    decreases vs.len(),
{
    if vs.len() > 0 {
        lemma_i64s_be_layout(vs.drop_last());
    }
}

/// Decoding what `i16_to_be_bytes` wrote gives the values back.
pub proof fn law_i16_encode_decode(vs: Seq<i16>)
    ensures
        be_i16s(i16s_be(vs)) == vs,
{
    lemma_i16s_be_layout(vs);
    let b = i16s_be(vs);
    assert forall|k: int| 0 <= k < vs.len() implies be_i16s(b)[k] == vs[k] by {
        assert(b[2 * k + 0] == i16_be(vs[k])[0]);
        assert(b[2 * k + 1] == i16_be(vs[k])[1]);
        lemma_i16_roundtrip(vs[k]);
    }
    assert(be_i16s(b) =~= vs);
}

/// Encoding what `be_bytes_to_i16` read gives back every whole 2-byte chunk.
pub proof fn law_i16_decode_encode(b: Seq<u8>)
    ensures
        i16s_be(be_i16s(b)) == b.take(2 * (b.len() as int / 2)),
{
    let vs = be_i16s(b);
    lemma_i16s_be_layout(vs);
    let e = i16s_be(vs);
    assert forall|i: int| 0 <= i < e.len() implies e[i] == b[i] by {
        let k = i / 2;
        let j = i % 2;
        assert(i == 2 * k + j);
        lemma_i16_bytes_roundtrip(b[2 * k], b[2 * k + 1]);
        assert(e[2 * k + j] == i16_be(vs[k])[j]);
    }
    assert(e =~= b.take(2 * (b.len() as int / 2)));
}

/// Decoding what `i32_to_be_bytes` wrote gives the values back.
pub proof fn law_i32_encode_decode(vs: Seq<i32>)
    ensures
        be_i32s(i32s_be(vs)) == vs,
{
    lemma_i32s_be_layout(vs);
    let b = i32s_be(vs);
    assert forall|k: int| 0 <= k < vs.len() implies be_i32s(b)[k] == vs[k] by {
        assert(b[4 * k + 0] == i32_be(vs[k])[0]);
        assert(b[4 * k + 1] == i32_be(vs[k])[1]);
        assert(b[4 * k + 2] == i32_be(vs[k])[2]);
        assert(b[4 * k + 3] == i32_be(vs[k])[3]);
        lemma_i32_roundtrip(vs[k]);
    }
    assert(be_i32s(b) =~= vs);
}

/// Encoding what `be_bytes_to_i32` read gives back every whole 4-byte chunk.
pub proof fn law_i32_decode_encode(b: Seq<u8>)
    ensures
        i32s_be(be_i32s(b)) == b.take(4 * (b.len() as int / 4)),
{
    let vs = be_i32s(b);
    lemma_i32s_be_layout(vs);
    let e = i32s_be(vs);
    assert forall|i: int| 0 <= i < e.len() implies e[i] == b[i] by {
        let k = i / 4;
        let j = i % 4;
        assert(i == 4 * k + j);
        lemma_i32_bytes_roundtrip(b[4 * k], b[4 * k + 1], b[4 * k + 2], b[4 * k + 3]);
        assert(e[4 * k + j] == i32_be(vs[k])[j]);
    }
    assert(e =~= b.take(4 * (b.len() as int / 4)));
}

/// Decoding what `i64_to_be_bytes` wrote gives the values back.
pub proof fn law_i64_encode_decode(vs: Seq<i64>)
    ensures
        be_i64s(i64s_be(vs)) == vs,
{
    lemma_i64s_be_layout(vs);
    let b = i64s_be(vs);
    assert forall|k: int| 0 <= k < vs.len() implies be_i64s(b)[k] == vs[k] by {
        assert forall|j: int| 0 <= j < 8 implies b.subrange(8 * k, 8 * k + 8)[j] == i64_be(
            vs[k],
        )[j] by {
            assert(b[8 * k + j] == i64_be(vs[k])[j]);
        }
        assert(b.subrange(8 * k, 8 * k + 8) =~= i64_be(vs[k]));
        lemma_i64_roundtrip(vs[k]);
    }
    assert(be_i64s(b) =~= vs);
}

/// Encoding what `be_bytes_to_i64` read gives back every whole 8-byte chunk.
pub proof fn law_i64_decode_encode(b: Seq<u8>)
    ensures
        i64s_be(be_i64s(b)) == b.take(8 * (b.len() as int / 8)),
{
    let vs = be_i64s(b);
    lemma_i64s_be_layout(vs);
    let e = i64s_be(vs);
    assert forall|i: int| 0 <= i < e.len() implies e[i] == b[i] by {
        let k = i / 8;
        let j = i % 8;
        assert(i == 8 * k + j);
        lemma_i64_bytes_roundtrip(b.subrange(8 * k, 8 * k + 8));
        assert(e[8 * k + j] == i64_be(vs[k])[j]);
    }
    assert(e =~= b.take(8 * (b.len() as int / 8)));
}

// ───────────────────────── executable ─────────────────────────

/// Encode `i16` values as big-endian bytes (BITPIX = 16).
pub fn i16_to_be_bytes(values: &[i16]) -> (out: Vec<u8>)
    ensures
        out@ == i16s_be(values@),
{
    let mut out: Vec<u8> = Vec::new();
    let mut i: usize = 0;
    while i < values.len()
        invariant
            i <= values@.len(),
            out@ == i16s_be(values@.take(i as int)),
        decreases values@.len() - i,
    {
        let u = values[i] as u16;
        out.push((u >> 8u16) as u8);
        out.push(u as u8);
        assert(values@.take(i + 1).drop_last() =~= values@.take(i as int));
        assert(out@ =~= i16s_be(values@.take(i + 1)));
        i = i + 1;
    }
    assert(values@.take(values@.len() as int) =~= values@);
    out
}

/// Encode `i32` values as big-endian bytes (BITPIX = 32).
pub fn i32_to_be_bytes(values: &[i32]) -> (out: Vec<u8>)
    ensures
        out@ == i32s_be(values@),
{
    let mut out: Vec<u8> = Vec::new();
    let mut i: usize = 0;
    while i < values.len()
        invariant
            i <= values@.len(),
            out@ == i32s_be(values@.take(i as int)),
        decreases values@.len() - i,
    {
        let u = values[i] as u32;
        out.push((u >> 24u32) as u8);
        out.push((u >> 16u32) as u8);
        out.push((u >> 8u32) as u8);
        out.push(u as u8);
        assert(values@.take(i + 1).drop_last() =~= values@.take(i as int));
        assert(out@ =~= i32s_be(values@.take(i + 1)));
        i = i + 1;
    }
    assert(values@.take(values@.len() as int) =~= values@);
    out
}

/// Encode `i64` values as big-endian bytes (BITPIX = 64).
pub fn i64_to_be_bytes(values: &[i64]) -> (out: Vec<u8>)
    ensures
        out@ == i64s_be(values@),
{
    let mut out: Vec<u8> = Vec::new();
    let mut i: usize = 0;
    while i < values.len()
        invariant
            i <= values@.len(),
            out@ == i64s_be(values@.take(i as int)),
        decreases values@.len() - i,
    {
        let u = values[i] as u64;
        out.push((u >> 56u64) as u8);
        out.push((u >> 48u64) as u8);
        out.push((u >> 40u64) as u8);
        out.push((u >> 32u64) as u8);
        out.push((u >> 24u64) as u8);
        out.push((u >> 16u64) as u8);
        out.push((u >> 8u64) as u8);
        out.push(u as u8);
        assert(values@.take(i + 1).drop_last() =~= values@.take(i as int));
        assert(out@ =~= i64s_be(values@.take(i + 1)));
        i = i + 1;
    }
    assert(values@.take(values@.len() as int) =~= values@);
    out
}

/// Decode big-endian bytes into `i16` values (BITPIX = 16).
pub fn be_bytes_to_i16(bytes: &[u8]) -> (out: Vec<i16>)
    ensures
        out@ == be_i16s(bytes@),
{
    let len = bytes.len();
    let n = len / 2;
    let mut out: Vec<i16> = Vec::new();
    let mut k: usize = 0;
    while k < n
        invariant
            len == bytes@.len(),
            n == bytes@.len() / 2,
            k <= n,
            out@ =~= be_i16s(bytes@).take(k as int),
        decreases n - k,
    {
        assert(2 * k + 1 < bytes@.len());
        let j = 2 * k;
        let v = (((bytes[j] as u16) << 8u16) | (bytes[j + 1] as u16)) as i16;
        out.push(v);
        k = k + 1;
    }
    out
}

/// Decode big-endian bytes into `i32` values (BITPIX = 32).
pub fn be_bytes_to_i32(bytes: &[u8]) -> (out: Vec<i32>)
    ensures
        out@ == be_i32s(bytes@),
{
    let len = bytes.len();
    let n = len / 4;
    let mut out: Vec<i32> = Vec::new();
    let mut k: usize = 0;
    while k < n
        invariant
            len == bytes@.len(),
            n == bytes@.len() / 4,
            k <= n,
            out@ =~= be_i32s(bytes@).take(k as int),
        decreases n - k,
    {
        assert(4 * k + 3 < bytes@.len());
        let j = 4 * k;
        let v = (((bytes[j] as u32) << 24u32) | ((bytes[j + 1] as u32) << 16u32) | ((bytes[j
            + 2] as u32) << 8u32) | (bytes[j + 3] as u32)) as i32;
        out.push(v);
        k = k + 1;
    }
    out
}

/// Decode big-endian bytes into `i64` values (BITPIX = 64).
pub fn be_bytes_to_i64(bytes: &[u8]) -> (out: Vec<i64>)
    ensures
        out@ == be_i64s(bytes@),
{
    let len = bytes.len();
    let n = len / 8;
    let mut out: Vec<i64> = Vec::new();
    let mut k: usize = 0;
    while k < n
        invariant
            len == bytes@.len(),
            n == bytes@.len() / 8,
            k <= n,
            out@ =~= be_i64s(bytes@).take(k as int),
        decreases n - k,
    {
        assert(8 * k + 7 < bytes@.len());
        let j = 8 * k;
        let v = (((bytes[j] as u64) << 56u64) | ((bytes[j + 1] as u64) << 48u64) | ((bytes[j
            + 2] as u64) << 40u64) | ((bytes[j + 3] as u64) << 32u64) | ((bytes[j + 4] as u64)
            << 24u64) | ((bytes[j + 5] as u64) << 16u64) | ((bytes[j + 6] as u64) << 8u64) | (
        bytes[j + 7] as u64)) as i64;
        assert(bytes@.subrange(j as int, j + 8)[0] == bytes@[j as int]);
        out.push(v);
        k = k + 1;
    }
    out
}

} // verus!
