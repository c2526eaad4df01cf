//! Reading a FITS byte stream into HDUs.
//!
//! Header records are read in 80-byte chunks until the `END` keyword; the
//! reader then skips to the next 2880-byte boundary, reads the data unit,
//! whose size the header's `BITPIX`, `NAXIS`, `NAXISn`, `PCOUNT` and `GCOUNT`
//! give as `GCOUNT × (PCOUNT + NAXIS1 × … × NAXISn) × |BITPIX|/8`, skips to the
//! next boundary again, and goes on with the next HDU while bytes remain.
use vstd::prelude::*;
use vstd::utf8::{decode_utf8, valid_utf8};

use crate::hdu::data::FITSData;
use crate::hdu::headers::FITSHeader;
use crate::hdu::HDU;
use crate::text::{
    before_slash, before_slash_chars, chars_eq, chars_eq_str, chars_of, decode_or_empty,
    digits_value, parse_i32, parse_signed, parse_unsigned, parse_usize, text_or_empty, trim,
    trim_chars, trim_end, trim_end_chars,
};
use crate::hdu::headers::spaces;
use crate::hdu::records_bytes;
use crate::{fill_to_2880, hdus_bytes, spec_fill_to_2880, FITSFile};

verus! {

broadcast use vstd::utf8::group_utf8_lib;

/// Why a byte stream could not be read.
#[derive(Debug, PartialEq, Eq, Structural)]
pub enum ParseError {
    /// The stream ended inside a data unit.
    UnexpectedEof,
}

/// What the reader keeps, while it reads a header, of the keywords that size
/// the data unit.  `axes[i]` is `NAXIS{i+1}`; a new `NAXIS` clears them.
pub struct SizeKeys {
    pub bitpix: int,
    pub naxis: int,
    pub pcount: int,
    pub gcount: int,
    pub axes: Seq<int>,
}

/// An HDU as the reader gives it: its 80-byte records and its data unit.
pub struct HduModel {
    pub records: Seq<Seq<u8>>,
    pub data: Seq<u8>,
}

/// The keyword values before any record is read.
pub open spec fn initial_keys() -> SizeKeys {
    SizeKeys { bitpix: 0, naxis: 0, pcount: 0, gcount: 1, axes: Seq::empty() }
}

/// The keyword of a record: its first 8 bytes as text (none where they are
/// not valid UTF-8), without trailing whitespace.
pub open spec fn record_keyword(rec: Seq<u8>) -> Seq<char> {
    trim_end(text_or_empty(rec.subrange(0, 8)))
}

/// The value of a record: bytes 10–79 as text (none where they are not valid
/// UTF-8), cut at the first `/`, trimmed.
pub open spec fn record_value(rec: Seq<u8>) -> Seq<char> {
    trim(before_slash(text_or_empty(rec.subrange(10, 80))))
}

/// `o` or, where it is `None`, `d`.
pub open spec fn or_default(o: Option<int>, d: int) -> int {
    match o {
        Some(v) => v,
        None => d,
    }
}

/// The `usize` that the text `s` spells, if any.
pub open spec fn usize_of(s: Seq<char>) -> Option<int> {
    parse_unsigned(s, usize::MAX as int)
}

/// The keyword values after one more record.
pub open spec fn apply_record(st: SizeKeys, rec: Seq<u8>) -> SizeKeys {
    if rec[8] != 61u8 {
        st
    } else {
        let k = record_keyword(rec);
        let v = record_value(rec);
        if k == "BITPIX"@ {
            SizeKeys { bitpix: or_default(parse_signed(v, i32::MIN as int, i32::MAX as int), 0), ..st }
        } else if k == "NAXIS"@ {
            let n = or_default(usize_of(v), 0);
            SizeKeys { naxis: n, axes: Seq::new(n as nat, |i: int| 0int), ..st }
        } else if k == "PCOUNT"@ {
            SizeKeys { pcount: or_default(usize_of(v), 0), ..st }
        } else if k == "GCOUNT"@ {
            SizeKeys { gcount: or_default(usize_of(v), 1), ..st }
        } else if k.len() >= 5 && k.take(5) == "NAXIS"@ {
            match usize_of(k.skip(5)) {
                Some(idx) => if 1 <= idx <= st.naxis {
                    SizeKeys { axes: st.axes.update(idx - 1, or_default(usize_of(v), 0)), ..st }
                } else {
                    st
                },
                None => st,
            }
        } else {
            st
        }
    }
}

/// A valued `BITPIX` record whose value is the decimal text of `b`, for any
/// `i32` `b` (the negative float codes included), sets `BITPIX` to `b` and
/// leaves the other keyword values as they were.
pub proof fn law_bitpix_record_sets_bitpix(st: SizeKeys, rec: Seq<u8>, b: i32)
    requires
        rec.len() == 80,
        rec[8] == 61u8,
        record_keyword(rec) == "BITPIX"@,
        record_value(rec) == crate::text::signed_decimal_chars(b as int),
    ensures
        apply_record(st, rec).bitpix == b,
        apply_record(st, rec).naxis == st.naxis,
        apply_record(st, rec).axes == st.axes,
        apply_record(st, rec).pcount == st.pcount,
        apply_record(st, rec).gcount == st.gcount,
{
    crate::text::lemma_parse_signed_decimal(b as int, i32::MIN as int, i32::MAX as int);
}

/// Valued `NAXIS`, `NAXISi`, `PCOUNT` and `GCOUNT` records whose value is
/// the decimal text of `n` set that keyword to `n`: `NAXIS = n` gives `n`
/// axes, all 0 until set; `NAXISi = n` sets axis `i` (counted from 1) where
/// `i` is at most `NAXIS`; `PCOUNT` and `GCOUNT` are set as given.
pub proof fn law_size_records_set_keys(st: SizeKeys, rec: Seq<u8>, n: usize, i: usize)
    requires
        rec.len() == 80,
        rec[8] == 61u8,
        record_value(rec) == crate::text::decimal_chars(n as nat),
    ensures
        record_keyword(rec) == "NAXIS"@ ==> apply_record(st, rec).naxis == n && apply_record(
            st,
            rec,
        ).axes == Seq::new(n as nat, |j: int| 0int),
        record_keyword(rec) == "PCOUNT"@ ==> apply_record(st, rec).pcount == n && apply_record(
            st,
            rec,
        ).gcount == st.gcount,
        record_keyword(rec) == "GCOUNT"@ ==> apply_record(st, rec).gcount == n && apply_record(
            st,
            rec,
        ).pcount == st.pcount,
        record_keyword(rec) == "NAXIS"@ + crate::text::decimal_chars(i as nat) && 1 <= i
            <= st.naxis ==> apply_record(st, rec).axes == st.axes.update(i - 1, n as int)
            && apply_record(st, rec).naxis == st.naxis,
{
    crate::text::lemma_parse_unsigned_decimal(n as nat, usize::MAX as int);
    crate::text::lemma_parse_unsigned_decimal(i as nat, usize::MAX as int);
    let k = record_keyword(rec);
    reveal_strlit("NAXIS");
    reveal_strlit("BITPIX");
    reveal_strlit("PCOUNT");
    reveal_strlit("GCOUNT");
    assert("BITPIX"@[0] == 'B');
    assert("PCOUNT"@[0] == 'P');
    assert("GCOUNT"@[0] == 'G');
    assert("NAXIS"@[0] == 'N');
    if k == "NAXIS"@ + crate::text::decimal_chars(i as nat) {
        reveal_strlit("NAXIS");
        reveal_strlit("BITPIX");
        reveal_strlit("PCOUNT");
        reveal_strlit("GCOUNT");
        crate::text::lemma_decimal_chars_value(i as nat);
        assert(k.len() >= 6);
        assert(k[0] == 'N');
        assert(k != "BITPIX"@ && k != "PCOUNT"@ && k != "GCOUNT"@ && k != "NAXIS"@) by {
            assert("BITPIX"@[0] == 'B');
            assert("PCOUNT"@[0] == 'P');
            assert("GCOUNT"@[0] == 'G');
        }
        assert(k.take(5) =~= "NAXIS"@);
        assert(k.skip(5) =~= crate::text::decimal_chars(i as nat));
    }
}

/// The data unit holds `GCOUNT × (PCOUNT + NAXIS1 × … × NAXISn)` values of
/// 1, 2, 4 or 8 bytes: 1 for `BITPIX = 8`, 2 for 16, 4 for 32 and −32, 8 for
/// 64 and −64; none when `NAXIS = 0`.
pub proof fn law_data_size_of_fits_bitpix(st: SizeKeys)
    requires
        st.axes.len() == st.naxis,
        st.bitpix == 8 || st.bitpix == 16 || st.bitpix == 32 || st.bitpix == 64 || st.bitpix == -32
            || st.bitpix == -64,
    ensures
        st.naxis == 0 ==> data_size(st) == 0,
        st.naxis != 0 ==> data_size(st) == st.gcount * (st.pcount + product(st.axes)) * (if st.bitpix
            == 8 {
            1int
        } else if st.bitpix == 16 {
            2int
        } else if st.bitpix == 32 || st.bitpix == -32 {
            4int
        } else {
            8int
        }),
{
}

/// Whether a record is the `END` record.
pub open spec fn is_end_record(rec: Seq<u8>) -> bool {
    record_keyword(rec) == "END"@
}

/// Reading header records from `pos`: the records read, where the reader
/// stands afterwards, and the keyword values.  Reading stops after the `END`
/// record, or where fewer than 80 bytes are left (those are consumed).
pub open spec fn scan_headers(b: Seq<u8>, pos: int, st: SizeKeys) -> (Seq<Seq<u8>>, int, SizeKeys)
    decreases b.len() - pos,
{
    if pos < 0 || pos + 80 > b.len() {
        (Seq::empty(), if pos < b.len() { b.len() as int } else { pos }, st)
    } else {
        let rec = b.subrange(pos, pos + 80);
        let st2 = apply_record(st, rec);
        if is_end_record(rec) {
            (seq![rec], pos + 80, st2)
        } else {
            let r = scan_headers(b, pos + 80, st2);
            (seq![rec] + r.0, r.1, r.2)
        }
    }
}

/// The product of the axis lengths.
pub open spec fn product(s: Seq<int>) -> int
    decreases s.len(),
{
    if s.len() == 0 {
        1
    } else {
        product(s.drop_last()) * s.last()
    }
}

/// `|x|`
pub open spec fn abs(x: int) -> int {
    if x < 0 {
        -x
    } else {
        x
    }
}

/// The size in bytes of the data unit that the keyword values describe:
/// `GCOUNT × (PCOUNT + NAXIS1 × … × NAXISn) × |BITPIX|/8`, none for `NAXIS = 0`.
pub open spec fn data_size(st: SizeKeys) -> int {
    if st.naxis == 0 || st.axes.len() == 0 {
        0
    } else {
        st.gcount * (st.pcount + product(st.axes)) * (abs(st.bitpix) / 8)
    }
}

/// Where the reader stands after the header section that started at
/// `start` and whose records end at `hend`: skipped to the next block
/// boundary, the section's length taken as an `i32`.
pub open spec fn after_header_padding(start: int, hend: int) -> int {
    hend + spec_fill_to_2880(((hend - start) as i32) as int)
}

/// Reading HDUs from `pos` to the end of `b`.
pub open spec fn parse_from(b: Seq<u8>, pos: int) -> Result<Seq<HduModel>, ParseError>
    decreases b.len() - pos,
{
    if pos < 0 || pos > b.len() {
        Ok(Seq::empty())
    } else {
        let sc = scan_headers(b, pos, initial_keys());
        let recs = sc.0;
        let hend = sc.1;
        if recs.len() == 0 {
            Ok(Seq::empty())
        } else {
            let p1 = after_header_padding(pos, hend);
            let size = data_size(sc.2);
            if size > 0 && p1 + size > b.len() {
                Err(ParseError::UnexpectedEof)
            } else {
                let data = if size > 0 {
                    b.subrange(p1, p1 + size)
                } else {
                    Seq::empty()
                };
                let p2 = if size > 0 {
                    p1 + size + spec_fill_to_2880((size as i32) as int)
                } else {
                    p1
                };
                let hdu = HduModel { records: recs, data };
                if p2 < b.len() {
                    proof {
                        lemma_scan_advances(b, pos, initial_keys());
                        lemma_fill_bounds(((hend - pos) as i32) as int);
                        lemma_fill_bounds((size as i32) as int);
                    }
                    match parse_from(b, p2) {
                        Ok(rest) => Ok(seq![hdu] + rest),
                        Err(e) => Err(e),
                    }
                } else {
                    Ok(seq![hdu])
                }
            }
        }
    }
}

/// What `parse_bytes` gives for the whole stream `b`.
pub open spec fn parse_spec(b: Seq<u8>) -> Result<Seq<HduModel>, ParseError> {
    parse_from(b, 0)
}

/// The records and data of an HDU.
pub open spec fn hdu_model(h: HDU) -> HduModel {
    HduModel { records: h.headers@.map_values(|r: FITSHeader| r.record()), data: h.data.data@ }
}

/// The records and data of each HDU of a file.
pub open spec fn file_model(f: FITSFile) -> Seq<HduModel> {
    f.hdus@.map_values(|h: HDU| hdu_model(h))
}

// ───────────────────────── lemmas ─────────────────────────

/// The padding is between 0 and 5759 bytes, whatever `n` is.
pub proof fn lemma_fill_bounds(n: int)
    ensures
        0 <= spec_fill_to_2880(n) < 5760,
{
}

/// A scan that read records moved the reader at least 80 bytes, and never
/// beyond the end of the stream when it started inside it.
pub proof fn lemma_scan_advances(b: Seq<u8>, pos: int, st: SizeKeys)
    requires
        0 <= pos <= b.len(),
    ensures
        pos <= scan_headers(b, pos, st).1 <= b.len(),
        scan_headers(b, pos, st).0.len() > 0 ==> scan_headers(b, pos, st).1 >= pos + 80,
    decreases b.len() - pos,
{
    if pos + 80 <= b.len() {
        let rec = b.subrange(pos, pos + 80);
        if !is_end_record(rec) {
            lemma_scan_advances(b, pos + 80, apply_record(st, rec));
        }
    }
}


/// `10^n`
pub open spec fn pow10(n: nat) -> nat
    decreases n,
{
    if n == 0 {
        1
    } else {
        10 * pow10((n - 1) as nat)
    }
}

/// A digit string of length `n` spells less than `10^n`.
pub proof fn lemma_digits_value_bound(s: Seq<char>)
    requires
        crate::text::all_digits(s),
    ensures
        digits_value(s) < pow10(s.len()),
    decreases s.len(),
{
    if s.len() > 0 {
        let t = s.drop_last();
        assert(crate::text::all_digits(t));
        lemma_digits_value_bound(t);
        assert(crate::text::is_digit(s[s.len() - 1]));
        let d = (s.last() as int) - ('0' as int);
        assert(0 <= d <= 9);
        let p = pow10(t.len());
        assert(digits_value(t) * 10 + d < 10 * p) by (nonlinear_arith)
            requires
                digits_value(t) < p,
                0 <= d <= 9,
        ;
    }
}

/// Decoding never gives more characters than there are bytes.
pub proof fn lemma_text_len(b: Seq<u8>)
    ensures
        text_or_empty(b).len() <= b.len(),
{
    if valid_utf8(b) {
        crate::hdu::headers::lemma_encode_len(decode_utf8(b));
    }
}

/// Trimming never lengthens.
pub proof fn lemma_trim_end_len(s: Seq<char>)
    ensures
        trim_end(s).len() <= s.len(),
    decreases s.len(),
{
    if s.len() > 0 && crate::text::is_space(s.last()) {
        lemma_trim_end_len(s.drop_last());
    }
}

/// An axis number read from a keyword's last three characters is at most 999.
pub proof fn lemma_axis_index_bound(rec: Seq<u8>)
    requires
        rec.len() == 80,
        record_keyword(rec).len() >= 5,
    ensures
        usize_of(record_keyword(rec).skip(5)) matches Some(v) ==> v <= 999,
{
    let k = record_keyword(rec);
    lemma_text_len(rec.subrange(0, 8));
    lemma_trim_end_len(text_or_empty(rec.subrange(0, 8)));
    let t = k.skip(5);
    assert(t.len() <= 3);
    if t.len() > 0 && t[0] == '+' {
        if crate::text::magnitude(t.drop_first(), usize::MAX as int) is Some {
            lemma_digits_value_bound(t.drop_first());
            assert(pow10(0) == 1);
            assert(pow10(1) == 10);
            assert(pow10(2) == 100);
        }
    } else {
        if crate::text::magnitude(t, usize::MAX as int) is Some {
            lemma_digits_value_bound(t);
            assert(pow10(0) == 1);
            assert(pow10(1) == 10);
            assert(pow10(2) == 100);
            assert(pow10(3) == 1000);
        }
    }
}

/// A product with a zero factor is zero.
pub proof fn lemma_product_zero(s: Seq<int>, i: int)
    requires
        0 <= i < s.len(),
        s[i] == 0,
    ensures
        product(s) == 0,
    decreases s.len(),
{
    if i < s.len() - 1 {
        lemma_product_zero(s.drop_last(), i);
    }
}

// ───────────────────────── executable ─────────────────────────

/// The most axes whose lengths a header can set: an axis number is read from
/// the at most three characters that follow `NAXIS` in an 8-byte keyword.
pub const MAX_AXES: usize = 999;

/// The executable form of `SizeKeys`.  Only the first `MAX_AXES` axis lengths
/// are held: no record can set a later one.
struct Keys {
    bitpix: i32,
    naxis: usize,
    pcount: usize,
    gcount: usize,
    axes: Vec<usize>,
}

/// `k` holds the keyword values `s`.
spec fn keys_match(k: Keys, s: SizeKeys) -> bool {
    &&& k.bitpix == s.bitpix
    &&& k.naxis == s.naxis
    &&& k.pcount == s.pcount
    &&& k.gcount == s.gcount
    &&& s.axes.len() == s.naxis
    &&& k.axes@.len() == (if s.naxis < 999 {
        s.naxis
    } else {
        999
    })
    &&& forall|i: int| 0 <= i < k.axes@.len() ==> k.axes@[i] == #[trigger] s.axes[i]
    &&& forall|i: int| 999 <= i < s.naxis ==> #[trigger] s.axes[i] == 0
}

fn initial_keys_exec() -> (k: Keys)
    ensures
        keys_match(k, initial_keys()),
{
    Keys { bitpix: 0, naxis: 0, pcount: 0, gcount: 1, axes: Vec::new() }
}

/// The `usize` that the characters spell, or `d`.
fn usize_or(s: &[char], d: usize) -> (r: usize)
    ensures
        r == or_default(usize_of(s@), d as int),
{
    match parse_usize(s) {
        Some(v) => v,
        None => d,
    }
}

/// Applies one record to the keyword values; tells whether it is the `END` record.
fn apply_record_exec(k: &mut Keys, rec: &[u8], Ghost(s): Ghost<SizeKeys>) -> (is_end: bool)
    requires
        rec@.len() == 80,
        keys_match(*old(k), s),
    ensures
        keys_match(*final(k), apply_record(s, rec@)),
        is_end == is_end_record(rec@),
{
    let key_text = decode_or_empty(vstd::slice::slice_subrange(rec, 0, 8));
    let kw = trim_end_chars(key_text.as_slice());
    assert(kw@ == record_keyword(rec@));
    let is_end = chars_eq_str(kw.as_slice(), "END");
    if rec[8] != 61u8 {
        return is_end;
    }
    let val_text = decode_or_empty(vstd::slice::slice_subrange(rec, 10, 80));
    let cut = before_slash_chars(val_text.as_slice());
    let v = trim_chars(cut.as_slice());
    assert(v@ == record_value(rec@));
    if chars_eq_str(kw.as_slice(), "BITPIX") {
        k.bitpix = match parse_i32(v.as_slice()) {
            Some(x) => x,
            None => 0,
        };
    } else if chars_eq_str(kw.as_slice(), "NAXIS") {
        let n = usize_or(v.as_slice(), 0);
        let m = if n < MAX_AXES {
            n
        } else {
            MAX_AXES
        };
        let mut axes: Vec<usize> = Vec::new();
        let mut i: usize = 0;
        while i < m
            invariant
                i <= m,
                axes@.len() == i,
                forall|j: int| 0 <= j < i ==> axes@[j] == 0,
            decreases m - i,
        {
            axes.push(0);
            i = i + 1;
        }
        k.naxis = n;
        k.axes = axes;
    } else if chars_eq_str(kw.as_slice(), "PCOUNT") {
        k.pcount = usize_or(v.as_slice(), 0);
    } else if chars_eq_str(kw.as_slice(), "GCOUNT") {
        k.gcount = usize_or(v.as_slice(), 1);
    } else if kw.len() >= 5 {
        let head = crate::text::sub_vec(kw.as_slice(), 0, 5);
        let naxis_word = chars_of("NAXIS");
        if chars_eq(head.as_slice(), naxis_word.as_slice()) {
            assert(head@ == kw@.take(5));
            let tail = crate::text::sub_vec(kw.as_slice(), 5, kw.len());
            assert(tail@ == kw@.skip(5));
            proof {
                lemma_axis_index_bound(rec@);
            }
            match parse_usize(tail.as_slice()) {
                Some(idx) => {
                    if 1 <= idx && idx <= k.naxis {
                        let x = usize_or(v.as_slice(), 0);
                        k.axes.set(idx - 1, x);
                    }
                },
                None => {},
            }
        }
    }
    is_end
}


/// `r` is `x` where `x` fits a `usize`, and `None` where it does not.
spec fn capped(r: Option<usize>, x: int) -> bool {
    match r {
        Some(v) => v == x,
        None => x > usize::MAX,
    }
}

fn capped_mul(a: Option<usize>, b: Option<usize>, Ghost(x): Ghost<int>, Ghost(y): Ghost<int>) -> (r:
    Option<usize>)
    requires
        capped(a, x),
        capped(b, y),
        x >= 0,
        y >= 0,
    ensures
        capped(r, x * y),
{
    match (a, b) {
        (Some(0), _) => {
            assert(x * y == 0) by (nonlinear_arith)
                requires
                    x == 0,
            ;
            Some(0)
        },
        (_, Some(0)) => {
            assert(x * y == 0) by (nonlinear_arith)
                requires
                    y == 0,
            ;
            Some(0)
        },
        (Some(u), Some(v)) => match u.checked_mul(v) {
            Some(w) => Some(w),
            None => None,
        },
        _ => {
            assert(x * y > usize::MAX) by (nonlinear_arith)
                requires
                    x >= 1,
                    y >= 1,
                    x > usize::MAX || y > usize::MAX,
            ;
            None
        },
    }
}

fn capped_add(a: Option<usize>, b: Option<usize>, Ghost(x): Ghost<int>, Ghost(y): Ghost<int>) -> (r:
    Option<usize>)
    requires
        capped(a, x),
        capped(b, y),
        x >= 0,
        y >= 0,
    ensures
        capped(r, x + y),
{
    match (a, b) {
        (Some(u), Some(v)) => u.checked_add(v),
        _ => None,
    }
}

/// Products of nonnegative factors are nonnegative.
proof fn lemma_product_nonneg(s: Seq<int>)
    requires
        forall|i: int| 0 <= i < s.len() ==> s[i] >= 0,
    ensures
        product(s) >= 0,
    decreases s.len(),
{
    if s.len() > 0 {
        lemma_product_nonneg(s.drop_last());
        let p = product(s.drop_last());
        let l = s.last();
        assert(p * l >= 0) by (nonlinear_arith)
            requires
                p >= 0,
                l >= 0,
        ;
    }
}

/// The data unit size that the keyword values give, `None` where it exceeds
/// `usize::MAX`.
fn data_size_exec(k: &Keys, Ghost(s): Ghost<SizeKeys>) -> (r: Option<usize>)
    requires
        keys_match(*k, s),
        forall|i: int| 0 <= i < s.axes.len() ==> s.axes[i] >= 0,
        s.pcount >= 0,
        s.gcount >= 0,
    ensures
        capped(r, data_size(s)),
{
    if k.naxis == 0 {
        return Some(0);
    }
    proof {
        lemma_product_nonneg(s.axes);
    }
    let prod: Option<usize> = if k.naxis > MAX_AXES {
        proof {
            lemma_product_zero(s.axes, 999);
        }
        Some(0)
    } else {
        assert(s.axes =~= s.axes.take(k.axes@.len() as int));
        let mut acc: Option<usize> = Some(1);
        let mut i: usize = 0;
        assert(product(s.axes.take(0)) == 1);
        while i < k.axes.len()
            invariant
                keys_match(*k, s),
                forall|j: int| 0 <= j < s.axes.len() ==> s.axes[j] >= 0,
                i <= k.axes@.len(),
                capped(acc, product(s.axes.take(i as int))),
            decreases k.axes@.len() - i,
        {
            proof {
                lemma_product_nonneg(s.axes.take(i as int));
                assert(s.axes.take(i + 1).drop_last() =~= s.axes.take(i as int));
            }
            acc = capped_mul(
                acc,
                Some(k.axes[i]),
                Ghost(product(s.axes.take(i as int))),
                Ghost(s.axes[i as int]),
            );
            i = i + 1;
        }
        acc
    };
    let ab: u32 = if k.bitpix < 0 {
        (0i64 - k.bitpix as i64) as u32
    } else {
        k.bitpix as u32
    };
    let bpp: usize = (ab / 8) as usize;
    let per_group = capped_add(Some(k.pcount), prod, Ghost(s.pcount), Ghost(product(s.axes)));
    let elements = capped_mul(
        Some(k.gcount),
        per_group,
        Ghost(s.gcount),
        Ghost(s.pcount + product(s.axes)),
    );
    proof {
        let g = s.gcount;
        let e = s.pcount + product(s.axes);
        assert(g * e >= 0) by (nonlinear_arith)
            requires
                g >= 0,
                e >= 0,
        ;
    }
    capped_mul(
        elements,
        Some(bpp),
        Ghost(s.gcount * (s.pcount + product(s.axes))),
        Ghost(abs(s.bitpix) / 8),
    )
}


/// The records of the headers, in order.
pub open spec fn records_of(hs: Seq<FITSHeader>) -> Seq<Seq<u8>> {
    hs.map_values(|r: FITSHeader| r.record())
}

/// Reads header records from `pos` as `scan_headers` describes.
fn scan_headers_exec(b: &[u8], pos: usize) -> (res: (Vec<FITSHeader>, usize, Keys))
    requires
        pos <= b@.len(),
    ensures
        records_of(res.0@) == scan_headers(b@, pos as int, initial_keys()).0,
        res.1 == scan_headers(b@, pos as int, initial_keys()).1,
        keys_match(res.2, scan_headers(b@, pos as int, initial_keys()).2),
{
    let len = b.len();
    let mut p = pos;
    let mut recs: Vec<FITSHeader> = Vec::new();
    let mut keys = initial_keys_exec();
    let ghost mut ks = initial_keys();
    let ghost whole = scan_headers(b@, pos as int, initial_keys());
    assert(records_of(recs@) =~= Seq::<Seq<u8>>::empty());
    assert(whole.0 =~= records_of(recs@) + scan_headers(b@, p as int, ks).0);
    loop
        invariant
            len == b@.len(),
            pos <= p <= len,
            keys_match(keys, ks),
            whole == scan_headers(b@, pos as int, initial_keys()),
            whole.0 == records_of(recs@) + scan_headers(b@, p as int, ks).0,
            whole.1 == scan_headers(b@, p as int, ks).1,
            whole.2 == scan_headers(b@, p as int, ks).2,
        decreases len - p,
    {
        if len < 80 || p > len - 80 {
            let end = if p < len {
                len
            } else {
                p
            };
            assert(records_of(recs@) + Seq::<Seq<u8>>::empty() =~= records_of(recs@));
            return (recs, end, keys);
        }
        let rec = vstd::slice::slice_subrange(b, p, p + 80);
        let is_end = apply_record_exec(&mut keys, rec, Ghost(ks));
        let h = FITSHeader::new_raw(
            vstd::slice::slice_subrange(rec, 0, 10),
            vstd::slice::slice_subrange(rec, 10, 80),
        );
        let ghost old_recs = recs@;
        recs.push(h);
        proof {
            assert(h.record() =~= rec@);
            assert(records_of(recs@) =~= records_of(old_recs).push(rec@));
            let st2 = apply_record(ks, rec@);
            if is_end {
                assert(whole.0 =~= records_of(recs@));
            } else {
                let r = scan_headers(b@, p + 80, st2);
                assert(whole.0 =~= records_of(recs@) + r.0);
            }
            ks = st2;
        }
        if is_end {
            return (recs, p + 80, keys);
        }
        p = p + 80;
    }
}

/// Whether `done` followed by what reading from some point gives is `all`.
pub open spec fn continues(
    all: Result<Seq<HduModel>, ParseError>,
    done: Seq<HduModel>,
    rest: Result<Seq<HduModel>, ParseError>,
) -> bool {
    match rest {
        Ok(r) => all == Ok::<Seq<HduModel>, ParseError>(done + r),
        Err(e) => all == Err::<Seq<HduModel>, ParseError>(e),
    }
}

/// Parse a FITS byte stream and return a `FITSFile` containing all HDUs.
///
/// - Header records are read in 80-byte chunks until the `END` keyword is found.
/// - After the last header record the reader is advanced to the next 2880-byte
///   boundary before the data unit begins.
/// - The data unit size is computed as `GCOUNT × (PCOUNT + NAXIS1 × … × NAXISn) × |BITPIX|/8`,
///   covering both image and binary-table (BINTABLE) extensions.
/// - After the data unit the reader is again aligned to the next 2880-byte
///   boundary for the following HDU.
/// - All HDUs in the stream are read (not just the first one).
/// - The data unit is stored as read, without its padding.
///
/// Fails with `UnexpectedEof` where the stream ends inside a data unit.
pub fn parse_bytes(bytes: &[u8]) -> (r: Result<FITSFile, ParseError>)
    requires
        bytes@.len() <= isize::MAX,
    ensures
        match (r, parse_spec(bytes@)) {
            (Ok(f), Ok(m)) => file_model(f) == m,
            (Err(e), Err(e2)) => e == e2,
            _ => false,
        },
{
    let len = bytes.len();
    let mut fits_file = FITSFile::new();
    let mut pos: usize = 0;
    let ghost all = parse_spec(bytes@);
    assert(file_model(fits_file) =~= Seq::<HduModel>::empty());
    assert(continues(all, file_model(fits_file), parse_from(bytes@, 0))) by {
        if let Ok(r) = parse_from(bytes@, 0) {
            assert(Seq::<HduModel>::empty() + r =~= r);
        }
    }
    loop
        invariant
            len == bytes@.len(),
            len <= isize::MAX,
            pos <= len,
            all == parse_spec(bytes@),
            continues(all, file_model(fits_file), parse_from(bytes@, pos as int)),
        decreases len - pos,
    {
        let ghost done = file_model(fits_file);
        let (headers, hend, keys) = scan_headers_exec(bytes, pos);
        let ghost sc = scan_headers(bytes@, pos as int, initial_keys());
        proof {
            lemma_scan_advances(bytes@, pos as int, initial_keys());
        }
        if headers.len() == 0 {
            assert(records_of(headers@).len() == 0);
            assert(done + Seq::<HduModel>::empty() =~= done);
            return Ok(fits_file);
        }
        let header_padding = fill_to_2880((hend - pos) as i32) as usize;
        let p1 = hend + header_padding;
        let size = data_size_exec(&keys, Ghost(sc.2));
        let ghost size_s = data_size(sc.2);
        let data: Vec<u8>;
        let p2: usize;
        match size {
            None => {
                return Err(ParseError::UnexpectedEof);
            },
            Some(n) => {
                if n > 0 {
                    if p1 > len || n > len - p1 {
                        return Err(ParseError::UnexpectedEof);
                    }
                    data = vstd::slice::slice_to_vec(vstd::slice::slice_subrange(bytes, p1, p1 + n));
                    let data_padding = fill_to_2880(n as i32) as usize;
                    p2 = p1 + n + data_padding;
                } else {
                    data = Vec::new();
                    p2 = p1;
                }
            },
        }
        let mut hdu = HDU::init();
        hdu.headers = headers;
        hdu.data = FITSData { data };
        let ghost hm = hdu_model(hdu);
        assert(hm.records =~= sc.0);
        fits_file.add_hdu(hdu);
        assert(file_model(fits_file) =~= done.push(hm));
        if p2 >= len {
            assert(done + seq![hm] =~= done.push(hm));
            return Ok(fits_file);
        }
        proof {
            match parse_from(bytes@, p2 as int) {
                Ok(rest) => {
                    assert(done + (seq![hm] + rest) =~= done.push(hm) + rest);
                },
                Err(e) => {},
            }
        }
        pos = p2;
    }
}


// ───────────────────────── reading back what was written ─────────────────────────

/// The keyword values after reading the records `rs` in order from `st`.
pub open spec fn keys_after(st: SizeKeys, rs: Seq<Seq<u8>>) -> SizeKeys
    decreases rs.len(),
{
    if rs.len() == 0 {
        st
    } else {
        keys_after(apply_record(st, rs[0]), rs.drop_first())
    }
}

/// Keyword values that no record can make negative.
pub open spec fn keys_nonneg(st: SizeKeys) -> bool {
    &&& st.naxis >= 0
    &&& st.axes.len() == st.naxis
    &&& st.pcount >= 0
    &&& st.gcount >= 0
    &&& forall|i: int| 0 <= i < st.axes.len() ==> st.axes[i] >= 0
}

/// A parsed `usize` is not negative.
pub proof fn lemma_usize_of_nonneg(s: Seq<char>)
    ensures
        usize_of(s) matches Some(v) ==> v >= 0,
{
    if s.len() > 0 && s[0] == '+' {
        if crate::text::magnitude(s.drop_first(), usize::MAX as int) is Some {
            crate::text::lemma_digits_value_nonneg(s.drop_first());
        }
    } else if crate::text::magnitude(s, usize::MAX as int) is Some {
        crate::text::lemma_digits_value_nonneg(s);
    }
}

/// Reading records keeps the keyword values nonnegative.
pub proof fn lemma_keys_after_nonneg(st: SizeKeys, rs: Seq<Seq<u8>>)
    requires
        keys_nonneg(st),
    ensures
        keys_nonneg(keys_after(st, rs)),
    decreases rs.len(),
{
    if rs.len() > 0 {
        let st2 = apply_record(st, rs[0]);
        lemma_usize_of_nonneg(record_value(rs[0]));
        let k = record_keyword(rs[0]);
        if k.len() >= 5 {
            lemma_usize_of_nonneg(k.skip(5));
        }
        let rec = rs[0];
        let v = record_value(rec);
        assert forall|i: int| 0 <= i < st2.axes.len() implies st2.axes[i] >= 0 by {
            if rec[8] == 61u8 && k != "BITPIX"@ && k == "NAXIS"@ {
                let n = or_default(usize_of(v), 0);
                assert(st2.axes == Seq::new(n as nat, |j: int| 0int));
                assert(st2.axes[i] == 0);
            } else if rec[8] == 61u8 && k != "BITPIX"@ && k != "NAXIS"@ && k != "PCOUNT"@ && k
                != "GCOUNT"@ && k.len() >= 5 && k.take(5) == "NAXIS"@ {
                if let Some(idx) = usize_of(k.skip(5)) {
                    if 1 <= idx <= st.naxis {
                        assert(st2.axes == st.axes.update(idx - 1, or_default(usize_of(v), 0)));
                        if i != idx - 1 {
                            assert(st.axes[i] >= 0);
                        }
                    } else {
                        assert(st.axes[i] >= 0);
                    }
                } else {
                    assert(st.axes[i] >= 0);
                }
            } else {
                assert(st2.axes == st.axes);
                assert(st.axes[i] >= 0);
            }
        }
        assert(keys_nonneg(st2));
        lemma_keys_after_nonneg(st2, rs.drop_first());
    }
}

/// The declared size is never negative.
pub proof fn lemma_data_size_nonneg(st: SizeKeys)
    requires
        keys_nonneg(st),
    ensures
        data_size(st) >= 0,
{
    if !(st.naxis == 0 || st.axes.len() == 0) {
        lemma_product_nonneg(st.axes);
        let p = product(st.axes);
        let q = abs(st.bitpix) / 8;
        assert(st.gcount * (st.pcount + p) * q >= 0) by (nonlinear_arith)
            requires
                p >= 0,
                q >= 0,
                st.pcount >= 0,
                st.gcount >= 0,
        ;
    }
}

/// The size of the data unit that an HDU's records declare.
pub open spec fn declared_size(h: HDU) -> int {
    data_size(keys_after(initial_keys(), records_of(h.headers@)))
}

/// An HDU that a reader reads back as written: it has records, the last is
/// the `END` record and no earlier one is, and its data unit is exactly the
/// declared size padded to the block boundary (empty where the size is 0).
pub open spec fn readable_hdu(h: HDU) -> bool {
    let rs = records_of(h.headers@);
    let size = declared_size(h);
    &&& rs.len() > 0
    &&& is_end_record(rs.last())
    &&& forall|i: int| 0 <= i < rs.len() - 1 ==> !is_end_record(#[trigger] rs[i])
    &&& if size > 0 {
        h.data.data@.len() == size + spec_fill_to_2880((size as i32) as int)
    } else {
        h.data.data@.len() == 0
    }
}

/// What a reader gives back of a written HDU: its records, and its data unit
/// without the padding.
pub open spec fn read_back(h: HDU) -> HduModel {
    HduModel { records: records_of(h.headers@), data: h.data.data@.take(declared_size(h)) }
}

/// The records of the headers sit one after another, 80 bytes each.
pub proof fn lemma_records_bytes_layout(hs: Seq<FITSHeader>)
    ensures
        records_bytes(hs).len() == 80 * hs.len(),
        forall|i: int|
            0 <= i < hs.len() ==> #[trigger] records_bytes(hs).subrange(80 * i, 80 * i + 80)
                == hs[i].record(),
    decreases hs.len(),
{
    if hs.len() > 0 {
        let init = hs.drop_last();
        lemma_records_bytes_layout(init);
        let r = records_bytes(hs);
        assert forall|i: int| 0 <= i < hs.len() implies #[trigger] r.subrange(80 * i, 80 * i + 80)
            == hs[i].record() by {
            if i < hs.len() - 1 {
                assert(r.subrange(80 * i, 80 * i + 80) =~= records_bytes(init).subrange(
                    80 * i,
                    80 * i + 80,
                ));
            } else {
                assert(r.subrange(80 * i, 80 * i + 80) =~= hs.last().record());
            }
        }
    }
}

/// Reading records laid out one after another reads exactly them, up to and
/// including the first `END` record.
pub proof fn lemma_scan_records(b: Seq<u8>, pos: int, st: SizeKeys, rs: Seq<Seq<u8>>)
    requires
        rs.len() > 0,
        0 <= pos,
        pos + 80 * rs.len() <= b.len(),
        forall|i: int| 0 <= i < rs.len() ==> b.subrange(pos + 80 * i, pos + 80 * i + 80) == #[trigger] rs[i],
        is_end_record(rs.last()),
        forall|i: int| 0 <= i < rs.len() - 1 ==> !is_end_record(#[trigger] rs[i]),
    ensures
        scan_headers(b, pos, st) == (rs, pos + 80 * rs.len(), keys_after(st, rs)),
    decreases rs.len(),
{
    assert(b.subrange(pos + 80 * 0, pos + 80 * 0 + 80) == rs[0]);
    let rec = b.subrange(pos, pos + 80);
    if rs.len() == 1 {
        assert(keys_after(apply_record(st, rs[0]), rs.drop_first()) == apply_record(st, rs[0]));
        assert(seq![rec] =~= rs);
    } else {
        assert(!is_end_record(rs[0]));
        let tail = rs.drop_first();
        assert forall|i: int| 0 <= i < tail.len() implies b.subrange(
            (pos + 80) + 80 * i,
            (pos + 80) + 80 * i + 80,
        ) == #[trigger] tail[i] by {
            assert(b.subrange(pos + 80 * (i + 1), pos + 80 * (i + 1) + 80) == rs[i + 1]);
        }
        assert forall|i: int| 0 <= i < tail.len() - 1 implies !is_end_record(#[trigger] tail[i]) by {
            assert(!is_end_record(rs[i + 1]));
        }
        lemma_scan_records(b, pos + 80, apply_record(st, rec), tail);
        assert(seq![rec] + tail =~= rs);
    }
}

/// The bytes of a nonempty list of HDUs: the first one's, then the rest's.
pub proof fn lemma_hdus_bytes_first(hs: Seq<HDU>)
    requires
        hs.len() > 0,
    ensures
        hdus_bytes(hs) == hs[0].spec_bytes() + hdus_bytes(hs.drop_first()),
    decreases hs.len(),
{
    if hs.len() == 1 {
        assert(hs.drop_last() =~= Seq::<HDU>::empty());
        assert(hs.drop_first() =~= Seq::<HDU>::empty());
        assert(hdus_bytes(hs) =~= hs[0].spec_bytes() + hdus_bytes(hs.drop_first()));
    } else {
        lemma_hdus_bytes_first(hs.drop_last());
        assert(hs.drop_last().drop_first() =~= hs.drop_first().drop_last());
        assert(hs.drop_first().last() == hs.last());
        assert(hdus_bytes(hs) =~= hs[0].spec_bytes() + hdus_bytes(hs.drop_first()));
    }
}

/// A stretch of `b` that starts with `x` then `y` holds `x`'s pieces, then `y`.
pub proof fn lemma_subrange_concat(b: Seq<u8>, pos: int, x: Seq<u8>, y: Seq<u8>, i: int, j: int)
    requires
        0 <= pos <= b.len(),
        b.subrange(pos, b.len() as int) == x + y,
        0 <= i <= j <= x.len(),
    ensures
        b.subrange(pos + i, pos + j) == x.subrange(i, j),
        b.subrange(pos + x.len(), b.len() as int) == y,
{
    let t = b.subrange(pos, b.len() as int);
    assert(t.len() == x.len() + y.len());
    assert forall|k: int| 0 <= k < j - i implies #[trigger] b.subrange(pos + i, pos + j)[k] == x.subrange(i, j)[k] by {
        assert(t[i + k] == b[pos + i + k]);
        assert((x + y)[i + k] == x[i + k]);
    }
    assert(b.subrange(pos + i, pos + j) =~= x.subrange(i, j));
    assert forall|k: int| 0 <= k < y.len() implies #[trigger] b.subrange(pos + x.len(), b.len() as int)[k] == y[k] by {
        assert(t[x.len() + k] == b[pos + x.len() + k]);
        assert((x + y)[x.len() + k] == y[k]);
    }
    assert(b.subrange(pos + x.len(), b.len() as int) =~= y);
}

/// Reading the records of a readable HDU written at `pos`.
pub proof fn lemma_read_records(b: Seq<u8>, pos: int, h: HDU)
    requires
        0 <= pos <= b.len(),
        readable_hdu(h),
        pos + records_bytes(h.headers@).len() <= b.len(),
        b.subrange(pos, pos + records_bytes(h.headers@).len()) == records_bytes(h.headers@),
    ensures
        scan_headers(b, pos, initial_keys()) == (
            records_of(h.headers@),
            pos + records_bytes(h.headers@).len(),
            keys_after(initial_keys(), records_of(h.headers@)),
        ),
{
    let rs = records_of(h.headers@);
    let rb = records_bytes(h.headers@);
    lemma_records_bytes_layout(h.headers@);
    assert forall|i: int| 0 <= i < rs.len() implies b.subrange(pos + 80 * i, pos + 80 * i + 80)
        == #[trigger] rs[i] by {
        let w = b.subrange(pos, pos + rb.len());
        assert(rb.subrange(80 * i, 80 * i + 80) == h.headers@[i].record());
        assert(b.subrange(pos + 80 * i, pos + 80 * i + 80) =~= w.subrange(80 * i, 80 * i + 80));
    }
    lemma_scan_records(b, pos, initial_keys(), rs);
}

/// Reading the first of the readable HDUs written at `pos`: its records, its
/// data unit, and where the next one begins.
pub proof fn lemma_parse_first(b: Seq<u8>, pos: int, hs: Seq<HDU>)
    requires
        0 <= pos <= b.len(),
        hs.len() > 0,
        b.subrange(pos, b.len() as int) == hdus_bytes(hs),
        readable_hdu(hs[0]),
    ensures
        ({
            let sc = scan_headers(b, pos, initial_keys());
            let p1 = after_header_padding(pos, sc.1);
            let size = data_size(sc.2);
            let d = hs[0].data.data@;
            &&& sc.0 == records_of(hs[0].headers@)
            &&& sc.0.len() > 0
            &&& pos <= p1
            &&& HduModel {
                records: sc.0,
                data: if size > 0 { b.subrange(p1, p1 + size) } else { Seq::empty() },
            } == read_back(hs[0])
            &&& size == declared_size(hs[0])
            &&& !(size > 0 && p1 + size > b.len())
            &&& size > 0 ==> b.subrange(p1, p1 + size) == d.take(size)
            &&& size <= 0 ==> d.take(size) == Seq::<u8>::empty()
            &&& p1 + d.len() == (if size > 0 {
                p1 + size + spec_fill_to_2880((size as i32) as int)
            } else {
                p1
            })
            &&& p1 + d.len() <= b.len()
            &&& b.subrange(p1 + d.len(), b.len() as int) == hdus_bytes(hs.drop_first())
        }),
{
    let h = hs[0];
    lemma_hdus_bytes_first(hs);
    let rest = hs.drop_first();
    let rb = records_bytes(h.headers@);
    lemma_records_bytes_layout(h.headers@);
    let pad = spec_fill_to_2880((rb.len() as i32) as int);
    lemma_fill_bounds((rb.len() as i32) as int);
    let d = h.data.data@;
    let hb = h.spec_bytes();
    let head = rb + spaces(pad);
    assert(hb == head + d);
    assert(h.spec_bytes() + hdus_bytes(rest) =~= rb + (spaces(pad) + d + hdus_bytes(rest)));
    assert(b.subrange(pos, b.len() as int) == rb + (spaces(pad) + d + hdus_bytes(rest)));
    lemma_subrange_concat(b, pos, rb, spaces(pad) + d + hdus_bytes(rest), 0, rb.len() as int);
    assert(rb.subrange(0, rb.len() as int) =~= rb);
    lemma_read_records(b, pos, h);
    let sc = scan_headers(b, pos, initial_keys());
    let p1 = after_header_padding(pos, sc.1);
    assert(p1 == pos + head.len());
    let size = declared_size(h);
    assert(size == data_size(sc.2));
    lemma_fill_bounds((size as i32) as int);
    assert(h.spec_bytes() + hdus_bytes(rest) =~= head + (d + hdus_bytes(rest)));
    lemma_subrange_concat(b, pos, head, d + hdus_bytes(rest), 0, 0);
    assert(b.subrange(p1, b.len() as int) == d + hdus_bytes(rest));
    if size > 0 {
        lemma_subrange_concat(b, p1, d, hdus_bytes(rest), 0, size);
        assert(d.subrange(0, size) =~= d.take(size));
    } else {
        lemma_keys_after_nonneg(initial_keys(), records_of(h.headers@));
        lemma_data_size_nonneg(sc.2);
        assert(d.take(size) =~= Seq::<u8>::empty());
    }
    lemma_subrange_concat(b, p1, d, hdus_bytes(rest), 0, 0);
}

/// Reading from where the bytes of readable HDUs begin reads them back.
pub proof fn lemma_parse_hdus(b: Seq<u8>, pos: int, hs: Seq<HDU>)
    requires
        0 <= pos <= b.len(),
        b.subrange(pos, b.len() as int) == hdus_bytes(hs),
        forall|i: int| 0 <= i < hs.len() ==> readable_hdu(#[trigger] hs[i]),
    ensures
        parse_from(b, pos) == Ok::<Seq<HduModel>, ParseError>(hs.map_values(|h: HDU| read_back(h))),
    decreases hs.len(),
{
    if hs.len() == 0 {
        assert(hs.map_values(|h: HDU| read_back(h)) =~= Seq::<HduModel>::empty());
        assert(b.subrange(pos, b.len() as int).len() == 0);
    } else {
        let h = hs[0];
        assert(readable_hdu(h));
        lemma_parse_first(b, pos, hs);
        let rest = hs.drop_first();
        let sc = scan_headers(b, pos, initial_keys());
        let p1 = after_header_padding(pos, sc.1);
        let p2 = p1 + h.data.data@.len();
        let hm = read_back(h);
        assert(0 <= p2 <= b.len());
        if p2 < b.len() {
            assert forall|i: int| 0 <= i < rest.len() implies readable_hdu(#[trigger] rest[i]) by {
                assert(readable_hdu(hs[i + 1]));
            }
            lemma_parse_hdus(b, p2, rest);
            assert(hs.map_values(|h: HDU| read_back(h)) =~= seq![hm] + rest.map_values(
                |h: HDU| read_back(h),
            ));
        } else {
            assert(hdus_bytes(rest).len() == 0);
            if rest.len() > 0 {
                assert(readable_hdu(hs[1]));
                lemma_hdus_bytes_first(rest);
                lemma_records_bytes_layout(rest[0].headers@);
                assert(false);
            }
            assert(hs.map_values(|h: HDU| read_back(h)) =~= seq![hm]);
        }
    }
}

/// Reading what `FITSFile::to_bytes` wrote gives back every HDU's records
/// and its data unit without padding, for HDUs that end in an `END` record
/// and hold the data that their keywords declare.
pub proof fn law_parse_reads_back_to_bytes(f: FITSFile)
    requires
        forall|i: int| 0 <= i < f.hdus@.len() ==> readable_hdu(#[trigger] f.hdus@[i]),
    ensures
        parse_spec(hdus_bytes(f.hdus@)) == Ok::<Seq<HduModel>, ParseError>(
            f.hdus@.map_values(|h: HDU| read_back(h)),
        ),
{
    let b = hdus_bytes(f.hdus@);
    assert(b.subrange(0, b.len() as int) =~= b);
    lemma_parse_hdus(b, 0, f.hdus@);
}

} // verus!
