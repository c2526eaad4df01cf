//! Binary table extensions (`XTENSION = 'BINTABLE'`): column formats, the
//! table layout that the header declares, and decoding of column fields.
use vstd::prelude::*;

use vstd::utf8::{decode_utf8, valid_utf8};

use crate::endian::{
    be_bytes_to_i16, be_bytes_to_i32, be_bytes_to_i64, be_i16s, be_i32s, be_i64s, i16s_be, i32_be,
    i32_from_be, i32s_be, i64_be, i64_from_be, i64s_be, lemma_i32_roundtrip, lemma_i64_roundtrip,
};
use crate::hdu::headers::FITSHeader;
use crate::hdu::HDU;
use crate::text::{
    ascii_upper_all, ascii_upper_chars, before_slash, before_slash_chars, chars_eq, chars_eq_str,
    chars_of, decimal_chars, decimal_chars_of_u64, decode_bytes, decode_or_empty, parse_i64, parse_signed,
    parse_unsigned, parse_usize, string_of, strip_char, strip_char_chars, strip_char_end, strip_char_end_chars,
    text_or_empty, trim, trim_chars,
};

verus! {

/// FITS binary table column type codes (TFORM).
#[derive(Debug, Clone, Copy, PartialEq, Eq, Structural)]
pub enum TFormType {
    Logical,  // L - boolean (T/F)
    Bit,  // X - packed bits
    UInt8,  // B - unsigned byte
    Int16,  // I - 16-bit integer
    Int32,  // J - 32-bit integer
    Int64,  // K - 64-bit integer
    Char,  // A - ASCII character(s)
    Float32,  // E - single-precision float
    Float64,  // D - double-precision float
    ComplexFloat32,  // C - complex (2×f32)
    ComplexFloat64,  // M - complex (2×f64)
    VarArrayInt32,  // P - variable-length array descriptor (2×i32 in data unit)
    VarArrayInt64,  // Q - variable-length array descriptor (2×i64 in data unit)
}

/// Parsed TFORM descriptor: repeat count + type code.
///
/// Format: `rT` where `r` is the optional repeat count (defaults to 1) and `T` is the type code.
/// For `X`, `r` is the number of bits. For `P`/`Q`, `r` is the maximum heap element count (a
/// hint only — the data unit always stores exactly one 8- or 16-byte descriptor per field).
#[derive(Debug, Clone, Copy, PartialEq, Eq, Structural)]
pub struct TForm {
    pub repeat: usize,
    pub type_code: TFormType,
}

/// The type that a TFORM letter names, in either case.
pub open spec fn type_code_of(c: char) -> Option<TFormType> {
    if c == 'L' || c == 'l' {
        Some(TFormType::Logical)
    } else if c == 'X' || c == 'x' {
        Some(TFormType::Bit)
    } else if c == 'B' || c == 'b' {
        Some(TFormType::UInt8)
    } else if c == 'I' || c == 'i' {
        Some(TFormType::Int16)
    } else if c == 'J' || c == 'j' {
        Some(TFormType::Int32)
    } else if c == 'K' || c == 'k' {
        Some(TFormType::Int64)
    } else if c == 'A' || c == 'a' {
        Some(TFormType::Char)
    } else if c == 'E' || c == 'e' {
        Some(TFormType::Float32)
    } else if c == 'D' || c == 'd' {
        Some(TFormType::Float64)
    } else if c == 'C' || c == 'c' {
        Some(TFormType::ComplexFloat32)
    } else if c == 'M' || c == 'm' {
        Some(TFormType::ComplexFloat64)
    } else if c == 'P' || c == 'p' {
        Some(TFormType::VarArrayInt32)
    } else if c == 'Q' || c == 'q' {
        Some(TFormType::VarArrayInt64)
    } else {
        None
    }
}

/// What `TForm::parse` gives for the text `s`: trimmed, it is a type letter
/// after an optional repeat count that `usize::from_str` reads (1 where there
/// is none).
///
/// This is the same as taking the first alphabetic character as the type
/// letter: the characters of a repeat count (`+` and ASCII digits) are not
/// alphabetic, and a type letter is.
pub open spec fn tform_spec(s: Seq<char>) -> Option<TForm> {
    let t = trim(s);
    if t.len() == 0 {
        None
    } else {
        match type_code_of(t.last()) {
            None => None,
            Some(code) => {
                let p = t.drop_last();
                if p.len() == 0 {
                    Some(TForm { repeat: 1, type_code: code })
                } else {
                    match parse_unsigned(p, usize::MAX as int) {
                        Some(r) => Some(TForm { repeat: r as usize, type_code: code }),
                        None => None,
                    }
                }
            },
        }
    }
}

/// Bytes occupied by one field of a column of format `t`.
pub open spec fn field_bytes(t: TForm) -> int {
    let r = t.repeat as int;
    match t.type_code {
        TFormType::Logical => r,
        TFormType::Bit => (r + 7) / 8,
        TFormType::UInt8 => r,
        TFormType::Int16 => r * 2,
        TFormType::Int32 => r * 4,
        TFormType::Int64 => r * 8,
        TFormType::Char => r,
        TFormType::Float32 => r * 4,
        TFormType::Float64 => r * 8,
        TFormType::ComplexFloat32 => r * 8,
        TFormType::ComplexFloat64 => r * 16,
        TFormType::VarArrayInt32 => 8,
        TFormType::VarArrayInt64 => 16,
    }
}

/// Whether `bytes_per_field` computes without overflow for `t`.
pub open spec fn field_bytes_fit(t: TForm) -> bool {
    match t.type_code {
        TFormType::Bit => t.repeat + 7 <= usize::MAX,
        _ => field_bytes(t) <= usize::MAX,
    }
}

/// The type that a TFORM letter names.
fn type_code_exec(c: char) -> (r: Option<TFormType>)
    ensures
        r == type_code_of(c),
{
    if c == 'L' || c == 'l' {
        Some(TFormType::Logical)
    } else if c == 'X' || c == 'x' {
        Some(TFormType::Bit)
    } else if c == 'B' || c == 'b' {
        Some(TFormType::UInt8)
    } else if c == 'I' || c == 'i' {
        Some(TFormType::Int16)
    } else if c == 'J' || c == 'j' {
        Some(TFormType::Int32)
    } else if c == 'K' || c == 'k' {
        Some(TFormType::Int64)
    } else if c == 'A' || c == 'a' {
        Some(TFormType::Char)
    } else if c == 'E' || c == 'e' {
        Some(TFormType::Float32)
    } else if c == 'D' || c == 'd' {
        Some(TFormType::Float64)
    } else if c == 'C' || c == 'c' {
        Some(TFormType::ComplexFloat32)
    } else if c == 'M' || c == 'm' {
        Some(TFormType::ComplexFloat64)
    } else if c == 'P' || c == 'p' {
        Some(TFormType::VarArrayInt32)
    } else if c == 'Q' || c == 'q' {
        Some(TFormType::VarArrayInt64)
    } else {
        None
    }
}

impl TForm {
    /// Parse a TFORM string such as `"1E"`, `"4J"`, `"16A"`, `"8X"`.
    pub fn parse(s: &str) -> (r: Option<TForm>)
        ensures
            r == tform_spec(s@),
    {
        let cs = chars_of(s);
        Self::parse_chars(cs.as_slice())
    }

    /// `parse` on characters.
    fn parse_chars(s: &[char]) -> (r: Option<TForm>)
        ensures
            r == tform_spec(s@),
    {
        let t = trim_chars(s);
        if t.len() == 0 {
            return None;
        }
        let code = match type_code_exec(t[t.len() - 1]) {
            Some(c) => c,
            None => {
                return None;
            },
        };
        assert(t@.last() == t@[t@.len() - 1]);
        let p = crate::text::sub_vec(t.as_slice(), 0, t.len() - 1);
        assert(p@ =~= t@.drop_last());
        if p.len() == 0 {
            return Some(TForm { repeat: 1, type_code: code });
        }
        match parse_usize(p.as_slice()) {
            Some(r) => Some(TForm { repeat: r, type_code: code }),
            None => None,
        }
    }

    /// Bytes occupied by one field (one row, this column) in the data unit.
    pub fn bytes_per_field(&self) -> (n: usize)
        requires
            field_bytes_fit(*self),
        ensures
            n == field_bytes(*self),
    {
        match self.type_code {
            TFormType::Logical => self.repeat,
            TFormType::Bit => (self.repeat + 7) / 8,
            TFormType::UInt8 => self.repeat,
            TFormType::Int16 => self.repeat * 2,
            TFormType::Int32 => self.repeat * 4,
            TFormType::Int64 => self.repeat * 8,
            TFormType::Char => self.repeat,
            TFormType::Float32 => self.repeat * 4,
            TFormType::Float64 => self.repeat * 8,
            TFormType::ComplexFloat32 => self.repeat * 8,
            TFormType::ComplexFloat64 => self.repeat * 16,
            // P/Q always store exactly one (length, offset) descriptor per field,
            // regardless of repeat (which is only a heap-size hint).
            TFormType::VarArrayInt32 => 8,
            TFormType::VarArrayInt64 => 16,
        }
    }
}


// ───────────────────────── header lookup ─────────────────────────

/// `key` padded with spaces to 8 characters (`format!("{:<8}", key)`).
pub open spec fn padded8(key: Seq<char>) -> Seq<char> {
    if key.len() < 8 {
        key + Seq::new((8 - key.len()) as nat, |i: int| ' ')
    } else {
        key
    }
}

/// Whether the first 8 bytes of a record's key field spell `key` padded to 8.
pub open spec fn key_names(h: FITSHeader, key: Seq<char>) -> bool {
    valid_utf8(h.key@.take(8)) && decode_utf8(h.key@.take(8)) == padded8(key)
}

/// The first record from `i` on whose keyword is `key`.
pub open spec fn find_from(hs: Seq<FITSHeader>, key: Seq<char>, i: int) -> Option<int>
    decreases hs.len() - i,
{
    if i < 0 || i >= hs.len() {
        None
    } else if key_names(hs[i], key) {
        Some(i)
    } else {
        find_from(hs, key, i + 1)
    }
}

/// The first record whose keyword is `key`.
pub open spec fn find_key(hs: Seq<FITSHeader>, key: Seq<char>) -> Option<int> {
    find_from(hs, key, 0)
}

/// Whether looking `key` up reads a value field that is valid UTF-8 (or
/// finds nothing): reading that field as text fails otherwise.
pub open spec fn lookup_defined(hs: Seq<FITSHeader>, key: Seq<char>) -> bool {
    match find_key(hs, key) {
        Some(i) => valid_utf8(hs[i].value@),
        None => true,
    }
}

/// The value text of a record: trimmed, cut at the first `/`, trimmed again.
pub open spec fn raw_value(t: Seq<char>) -> Seq<char> {
    trim(before_slash(trim(t)))
}

/// A string value: where it starts with a quote, without its surrounding
/// quotes and the spaces inside them.
pub open spec fn unquote(raw: Seq<char>) -> Seq<char> {
    if raw.len() > 0 && raw[0] == '\'' {
        trim(strip_char(raw, '\''))
    } else {
        raw
    }
}

/// The string value of the first record named `key`.
pub open spec fn header_str_spec(hs: Seq<FITSHeader>, key: Seq<char>) -> Option<Seq<char>> {
    match find_key(hs, key) {
        Some(i) => Some(unquote(raw_value(decode_utf8(hs[i].value@)))),
        None => None,
    }
}

/// The integer value of the first record named `key`, where it reads as an `i64`.
pub open spec fn header_int_spec(hs: Seq<FITSHeader>, key: Seq<char>) -> Option<int> {
    match find_key(hs, key) {
        Some(i) => parse_signed(
            raw_value(decode_utf8(hs[i].value@)),
            i64::MIN as int,
            i64::MAX as int,
        ),
        None => None,
    }
}

/// `key` padded with spaces to 8 characters.
fn pad8(key: &[char]) -> (r: Vec<char>)
    ensures
        r@ == padded8(key@),
{
    let mut r = crate::text::sub_vec(key, 0, key.len());
    let mut n = key.len();
    while n < 8
        invariant
            key@.len() <= n <= 8 || (n == key@.len() && n >= 8),
            n < 8 ==> r@ == key@ + Seq::new((n - key@.len()) as nat, |i: int| ' '),
            n >= 8 ==> r@ == padded8(key@),
            r@.len() == n || n >= 8,
        decreases 8 - n,
    {
        r.push(' ');
        assert(key@ + Seq::new((n + 1 - key@.len()) as nat, |i: int| ' ') =~= (key@ + Seq::new(
            (n - key@.len()) as nat,
            |i: int| ' ',
        )).push(' '));
        n = n + 1;
    }
    if key.len() >= 8 {
        assert(r@ =~= padded8(key@));
    }
    r
}

/// The index of the first record named `key`.
fn find_header(hs: &Vec<FITSHeader>, key: &[char]) -> (r: Option<usize>)
    ensures
        r matches Some(j) ==> find_key(hs@, key@) == Some(j as int) && j < hs@.len(),
        r is None ==> find_key(hs@, key@) is None,
{
    let padded = pad8(key);
    let mut i: usize = 0;
    while i < hs.len()
        invariant
            padded@ == padded8(key@),
            i <= hs@.len(),
            find_key(hs@, key@) == find_from(hs@, key@, i as int),
        decreases hs@.len() - i,
    {
        let k = &hs[i].key;
        let first8: [u8; 8] = [k[0], k[1], k[2], k[3], k[4], k[5], k[6], k[7]];
        assert(first8@ =~= hs@[i as int].key@.take(8));
        match decode_bytes(first8.as_slice()) {
            Some(v) => {
                if chars_eq(v.as_slice(), padded.as_slice()) {
                    return Some(i);
                }
            },
            None => {},
        }
        i = i + 1;
    }
    None
}

/// The value text of the record at `i`.
fn raw_value_at(hs: &Vec<FITSHeader>, i: usize) -> (r: Vec<char>)
    requires
        i < hs@.len(),
        valid_utf8(hs@[i as int].value@),
    ensures
        r@ == raw_value(decode_utf8(hs@[i as int].value@)),
{
    let text = match decode_bytes(hs[i].value.as_slice()) {
        Some(v) => v,
        None => {
            assert(false);
            Vec::new()
        },
    };
    let t1 = trim_chars(text.as_slice());
    let t2 = before_slash_chars(t1.as_slice());
    trim_chars(t2.as_slice())
}

/// Extract and trim a string value from a named header keyword: the first
/// record whose keyword is `key`, its value cut at `/`, without the quotes
/// around a string.
pub fn header_str(hdu: &HDU, key: &str) -> (r: Option<String>)
    requires
        lookup_defined(hdu.headers@, key@),
    ensures
        match header_str_spec(hdu.headers@, key@) {
            Some(s) => r matches Some(v) && v@ == s,
            None => r is None,
        },
{
    let k = chars_of(key);
    match find_header(&hdu.headers, k.as_slice()) {
        Some(i) => {
            let raw = raw_value_at(&hdu.headers, i);
            if raw.len() > 0 && raw[0] == '\'' {
                let inner = strip_char_chars(raw.as_slice(), '\'');
                let t = trim_chars(inner.as_slice());
                Some(string_of(t.as_slice()))
            } else {
                Some(string_of(raw.as_slice()))
            }
        },
        None => None,
    }
}

/// Extract an integer value from a named header keyword: the value of the
/// first record whose keyword is `key`, where it reads as an `i64`.
pub fn header_int(hdu: &HDU, key: &str) -> (r: Option<i64>)
    requires
        lookup_defined(hdu.headers@, key@),
    ensures
        match header_int_spec(hdu.headers@, key@) {
            Some(v) => r == Some(v as i64),
            None => r is None,
        },
{
    let k = chars_of(key);
    match find_header(&hdu.headers, k.as_slice()) {
        Some(i) => {
            let raw = raw_value_at(&hdu.headers, i);
            parse_i64(raw.as_slice())
        },
        None => None,
    }
}


// ───────────────────────── table layout ─────────────────────────

/// Metadata for one column in a binary table.
#[derive(Debug)]
pub struct ColumnDescriptor {
    pub name: String,
    pub unit: String,
    pub tform: TForm,
    /// Where the column's field starts within a row.
    pub row_offset: usize,
}

/// A column as the header describes it.
pub struct ColumnModel {
    pub name: Seq<char>,
    pub unit: Seq<char>,
    pub tform: TForm,
    pub row_offset: int,
}

impl ColumnDescriptor {
    pub open spec fn model(&self) -> ColumnModel {
        ColumnModel {
            name: self.name@,
            unit: self.unit@,
            tform: self.tform,
            row_offset: self.row_offset as int,
        }
    }
}

/// The keyword `prefix` followed by the decimal number `i` (`TFORM3`, ...).
pub open spec fn indexed_key(prefix: Seq<char>, i: int) -> Seq<char> {
    prefix + decimal_chars(i as nat)
}

/// `o`, or no characters.
pub open spec fn or_empty(o: Option<Seq<char>>) -> Seq<char> {
    match o {
        Some(v) => v,
        None => Seq::empty(),
    }
}

/// The columns numbered `i + 1` to `n`, the first at byte `off` of a row;
/// `None` where a `TFORMn` is missing or unreadable.
pub open spec fn columns_spec(hs: Seq<FITSHeader>, i: int, n: int, off: int) -> Option<Seq<ColumnModel>>
    decreases n - i,
{
    if i >= n {
        Some(Seq::empty())
    } else {
        match header_str_spec(hs, indexed_key("TFORM"@, i + 1)) {
            None => None,
            Some(ts) => match tform_spec(ts) {
                None => None,
                Some(tf) => {
                    let col = ColumnModel {
                        name: or_empty(header_str_spec(hs, indexed_key("TTYPE"@, i + 1))),
                        unit: or_empty(header_str_spec(hs, indexed_key("TUNIT"@, i + 1))),
                        tform: tf,
                        row_offset: off,
                    };
                    match columns_spec(hs, i + 1, n, off + field_bytes(tf)) {
                        None => None,
                        Some(rest) => Some(seq![col] + rest),
                    }
                },
            },
        }
    }
}

/// Whether reading the columns numbered `i + 1` to `n` reads only value
/// fields that are valid UTF-8 and computes field sizes and offsets without
/// overflow.
pub open spec fn columns_defined(hs: Seq<FITSHeader>, i: int, n: int, off: int) -> bool
    decreases n - i,
{
    if i >= n {
        true
    } else {
        &&& lookup_defined(hs, indexed_key("TFORM"@, i + 1))
        &&& match header_str_spec(hs, indexed_key("TFORM"@, i + 1)) {
            None => true,
            Some(ts) => match tform_spec(ts) {
                None => true,
                Some(tf) => {
                    &&& lookup_defined(hs, indexed_key("TTYPE"@, i + 1))
                    &&& lookup_defined(hs, indexed_key("TUNIT"@, i + 1))
                    &&& field_bytes_fit(tf)
                    &&& off + field_bytes(tf) <= usize::MAX
                    &&& columns_defined(hs, i + 1, n, off + field_bytes(tf))
                },
            },
        }
    }
}

/// A binary table's row length, row count and columns.
pub struct TableModel {
    pub row_bytes: int,
    pub nrows: int,
    pub columns: Seq<ColumnModel>,
}

/// What `BinaryTable::from_hdu` reads from the records `hs`: `None` unless
/// `XTENSION` is `BINTABLE` (in any letter case) and `NAXIS1`, `NAXIS2`,
/// `TFIELDS` and each `TFORMn` are there and readable.  The integers are
/// taken as `usize` as a cast from `i64` gives them.
pub open spec fn table_spec(hs: Seq<FITSHeader>) -> Option<TableModel> {
    match header_str_spec(hs, "XTENSION"@) {
        None => None,
        Some(x) => if ascii_upper_all(x) != "BINTABLE"@ {
            None
        } else {
            match header_int_spec(hs, "NAXIS1"@) {
                None => None,
                Some(a) => match header_int_spec(hs, "NAXIS2"@) {
                    None => None,
                    Some(b) => match header_int_spec(hs, "TFIELDS"@) {
                        None => None,
                        Some(t) => match columns_spec(hs, 0, ((t as i64) as usize) as int, 0) {
                            None => None,
                            Some(cols) => Some(
                                TableModel {
                                    row_bytes: ((a as i64) as usize) as int,
                                    nrows: ((b as i64) as usize) as int,
                                    columns: cols,
                                },
                            ),
                        },
                    },
                },
            }
        },
    }
}

/// Whether `from_hdu` reads only value fields that are valid UTF-8 and
/// computes column sizes and offsets without overflow, on the records `hs`.
pub open spec fn table_defined(hs: Seq<FITSHeader>) -> bool {
    &&& lookup_defined(hs, "XTENSION"@)
    &&& match header_str_spec(hs, "XTENSION"@) {
        None => true,
        Some(x) => ascii_upper_all(x) != "BINTABLE"@ || {
            &&& lookup_defined(hs, "NAXIS1"@)
            &&& match header_int_spec(hs, "NAXIS1"@) {
                None => true,
                Some(a) => {
                    &&& lookup_defined(hs, "NAXIS2"@)
                    &&& match header_int_spec(hs, "NAXIS2"@) {
                        None => true,
                        Some(b) => {
                            &&& lookup_defined(hs, "TFIELDS"@)
                            &&& match header_int_spec(hs, "TFIELDS"@) {
                                None => true,
                                Some(t) => columns_defined(hs, 0, ((t as i64) as usize) as int, 0),
                            }
                        },
                    }
                },
            }
        },
    }
}

/// The keyword `prefix` followed by the decimal number `i`.
fn make_indexed_key(prefix: &str, i: usize) -> (r: Vec<char>)
    ensures
        r@ == indexed_key(prefix@, i as int),
{
    let mut r = chars_of(prefix);
    let mut d = decimal_chars_of_u64(i as u64);
    r.append(&mut d);
    r
}

/// A view over a binary table HDU (XTENSION = 'BINTABLE').
///
/// Constructed via `BinaryTable::from_hdu`. Borrows the HDU for its lifetime.
#[derive(Debug)]
pub struct BinaryTable<'a> {
    hdu: &'a HDU,
    /// Number of rows (NAXIS2).
    pub nrows: usize,
    /// Bytes per row (NAXIS1).
    pub row_bytes: usize,
    columns: Vec<ColumnDescriptor>,
}

impl<'a> BinaryTable<'a> {
    /// The HDU that the table reads.
    pub closed spec fn spec_hdu(&self) -> HDU {
        *self.hdu
    }

    /// Every column's field size and end offset fit a `usize`.
    #[verifier::type_invariant]
    spec fn columns_fit(&self) -> bool {
        forall|j: int|
            0 <= j < self.columns@.len() ==> field_bytes_fit(#[trigger] self.columns@[j].tform)
                && self.columns@[j].row_offset + field_bytes(self.columns@[j].tform) <= usize::MAX
    }

    /// Bytes per row.
    pub closed spec fn spec_row_bytes(&self) -> int {
        self.row_bytes as int
    }

    /// Number of rows.
    pub closed spec fn spec_nrows(&self) -> int {
        self.nrows as int
    }

    /// The table's columns.
    pub closed spec fn spec_columns(&self) -> Seq<ColumnModel> {
        self.columns@.map_values(|c: ColumnDescriptor| c.model())
    }

    /// Build a `BinaryTable` view from an HDU.
    /// Returns `None` if the HDU is not a BINTABLE extension or is missing required keywords.
    pub fn from_hdu(hdu: &'a HDU) -> (r: Option<Self>)
        requires
            table_defined(hdu.headers@),
        ensures
            match table_spec(hdu.headers@) {
                Some(m) => r matches Some(t) && t.spec_hdu() == *hdu && t.spec_row_bytes() == m.row_bytes
                    && t.spec_nrows() == m.nrows && t.spec_columns() == m.columns,
                None => r is None,
            },
    {
        let ghost hs = hdu.headers@;
        let xtension = match header_str(hdu, "XTENSION") {
            Some(x) => chars_of(x.as_str()),
            None => {
                return None;
            },
        };
        let upper = ascii_upper_chars(xtension.as_slice());
        if !chars_eq_str(upper.as_slice(), "BINTABLE") {
            return None;
        }
        let row_bytes = match header_int(hdu, "NAXIS1") {
            Some(v) => v as usize,
            None => {
                return None;
            },
        };
        let nrows = match header_int(hdu, "NAXIS2") {
            Some(v) => v as usize,
            None => {
                return None;
            },
        };
        let tfields = match header_int(hdu, "TFIELDS") {
            Some(v) => v as usize,
            None => {
                return None;
            },
        };
        let ghost whole = columns_spec(hs, 0, tfields as int, 0);
        let mut columns: Vec<ColumnDescriptor> = Vec::new();
        let mut offset: usize = 0;
        let mut i: usize = 0;
        assert(columns@.map_values(|c: ColumnDescriptor| c.model()) =~= Seq::<ColumnModel>::empty());
        while i < tfields
            invariant
                hs == hdu.headers@,
                i <= tfields,
                whole == columns_spec(hs, 0, tfields as int, 0),
                whole is None ==> table_spec(hs) is None,
                forall|j: int|
                    0 <= j < columns@.len() ==> field_bytes_fit(#[trigger] columns@[j].tform)
                        && columns@[j].row_offset + field_bytes(columns@[j].tform) <= usize::MAX,
                whole matches Some(cols) ==> table_spec(hs) == Some(
                    TableModel { row_bytes: row_bytes as int, nrows: nrows as int, columns: cols },
                ),
                columns_defined(hs, i as int, tfields as int, offset as int),
                match columns_spec(hs, i as int, tfields as int, offset as int) {
                    Some(rest) => whole == Some(columns@.map_values(|c: ColumnDescriptor| c.model()) + rest),
                    None => whole is None,
                },
            decreases tfields - i,
        {
            let ghost done = columns@.map_values(|c: ColumnDescriptor| c.model());
            let c = i + 1;
            let form_key = string_of(make_indexed_key("TFORM", c).as_slice());
            let tform_str = match header_str(hdu, form_key.as_str()) {
                Some(t) => chars_of(t.as_str()),
                None => {
                    assert(columns_spec(hs, i as int, tfields as int, offset as int) is None);
                    return None;
                },
            };
            let tform = match TForm::parse_chars(tform_str.as_slice()) {
                Some(t) => t,
                None => {
                    assert(columns_spec(hs, i as int, tfields as int, offset as int) is None);
                    return None;
                },
            };
            let type_key = string_of(make_indexed_key("TTYPE", c).as_slice());
            let name = match header_str(hdu, type_key.as_str()) {
                Some(v) => v,
                None => String::new(),
            };
            let unit_key = string_of(make_indexed_key("TUNIT", c).as_slice());
            let unit = match header_str(hdu, unit_key.as_str()) {
                Some(v) => v,
                None => String::new(),
            };
            let field_bytes = tform.bytes_per_field();
            let col = ColumnDescriptor { name, unit, tform, row_offset: offset };
            columns.push(col);
            proof {
                let ghost cm = col.model();
                assert(columns@.map_values(|c: ColumnDescriptor| c.model()) =~= done.push(cm));
                if let Some(rest) = columns_spec(hs, i + 1, tfields as int, offset + field_bytes) {
                    assert(done + (seq![cm] + rest) =~= done.push(cm) + rest);
                }
            }
            offset = offset + field_bytes;
            i = i + 1;
        }
        assert(columns@.map_values(|c: ColumnDescriptor| c.model()) + Seq::<ColumnModel>::empty()
            =~= columns@.map_values(|c: ColumnDescriptor| c.model()));
        Some(BinaryTable { hdu, nrows, row_bytes, columns })
    }

    pub fn columns(&self) -> (r: &[ColumnDescriptor])
        ensures
            r@.map_values(|c: ColumnDescriptor| c.model()) == self.spec_columns(),
    {
        self.columns.as_slice()
    }
}


// ───────────────────────── decoding ─────────────────────────

/// A decoded field value for one row in a binary table column.
///
/// Floating-point fields are given as their IEEE 754 bit patterns
/// (`f32::from_bits` / `f64::from_bits` turn them into numbers).
#[derive(Debug)]
pub enum ColumnValue {
    Logical(Vec<bool>),
    Bits(Vec<u8>),
    UInt8(Vec<u8>),
    Int16(Vec<i16>),
    Int32(Vec<i32>),
    Int64(Vec<i64>),
    Chars(String),
    Float32(Vec<u32>),
    Float64(Vec<u64>),
    ComplexFloat32(Vec<(u32, u32)>),
    ComplexFloat64(Vec<(u64, u64)>),
    /// (length, heap_offset) — actual data lives in the heap area after the main data unit.
    VarArrayInt32(i32, i32),
    /// (length, heap_offset) — actual data lives in the heap area after the main data unit.
    VarArrayInt64(i64, i64),
}

/// `u32::from_be_bytes` of the four bytes of `b` at `i`.
pub open spec fn u32_at(b: Seq<u8>, i: int) -> u32 {
    (((b[i] as u32) << 24u32) | ((b[i + 1] as u32) << 16u32) | ((b[i + 2] as u32) << 8u32) | (b[i
        + 3] as u32))
}

/// `u64::from_be_bytes` of the eight bytes of `b` at `i`.
pub open spec fn u64_at(b: Seq<u8>, i: int) -> u64 {
    (((b[i] as u64) << 56u64) | ((b[i + 1] as u64) << 48u64) | ((b[i + 2] as u64) << 40u64) | ((
    b[i + 3] as u64) << 32u64) | ((b[i + 4] as u64) << 24u64) | ((b[i + 5] as u64) << 16u64) | ((
    b[i + 6] as u64) << 8u64) | (b[i + 7] as u64))
}

/// Whether `v` is the field bytes `b` decoded as a column of type `t`.
pub open spec fn decoded_as(v: ColumnValue, b: Seq<u8>, t: TFormType) -> bool {
    match t {
        TFormType::Logical => v matches ColumnValue::Logical(xs) && xs@ == b.map_values(
            |x: u8| x == 84u8,
        ),
        TFormType::Bit => v matches ColumnValue::Bits(xs) && xs@ == b,
        TFormType::UInt8 => v matches ColumnValue::UInt8(xs) && xs@ == b,
        TFormType::Int16 => v matches ColumnValue::Int16(xs) && xs@ == be_i16s(b),
        TFormType::Int32 => v matches ColumnValue::Int32(xs) && xs@ == be_i32s(b),
        TFormType::Int64 => v matches ColumnValue::Int64(xs) && xs@ == be_i64s(b),
        TFormType::Char => v matches ColumnValue::Chars(s) && s@ == strip_char_end(
            text_or_empty(b),
            '\0',
        ),
        TFormType::Float32 => v matches ColumnValue::Float32(xs) && xs@ == Seq::new(
            b.len() / 4,
            |k: int| u32_at(b, 4 * k),
        ),
        TFormType::Float64 => v matches ColumnValue::Float64(xs) && xs@ == Seq::new(
            b.len() / 8,
            |k: int| u64_at(b, 8 * k),
        ),
        TFormType::ComplexFloat32 => v matches ColumnValue::ComplexFloat32(xs) && xs@ == Seq::new(
            b.len() / 8,
            |k: int| (u32_at(b, 8 * k), u32_at(b, 8 * k + 4)),
        ),
        TFormType::ComplexFloat64 => v matches ColumnValue::ComplexFloat64(xs) && xs@ == Seq::new(
            b.len() / 16,
            |k: int| (u64_at(b, 16 * k), u64_at(b, 16 * k + 8)),
        ),
        TFormType::VarArrayInt32 => v matches ColumnValue::VarArrayInt32(n, o) && n
            == i32_from_be(b[0], b[1], b[2], b[3]) && o == i32_from_be(b[4], b[5], b[6], b[7]),
        TFormType::VarArrayInt64 => v matches ColumnValue::VarArrayInt64(n, o) && n
            == i64_from_be(b.subrange(0, 8)) && o == i64_from_be(b.subrange(8, 16)),
    }
}

/// `repeat` digits then a type letter read as that repeat count and type.
proof fn lemma_tform_of_letter(r: usize, c: char)
    requires
        !crate::text::is_space(c),
    ensures
        tform_spec(crate::text::decimal_chars(r as nat).push(c)) == match type_code_of(c) {
            Some(code) => Some(TForm { repeat: r, type_code: code }),
            None => None,
        },
        tform_spec(seq![c]) == match type_code_of(c) {
            Some(code) => Some(TForm { repeat: 1, type_code: code }),
            None => None,
        },
{
    let d = crate::text::decimal_chars(r as nat);
    crate::text::lemma_parse_unsigned_decimal(r as nat, usize::MAX as int);
    crate::text::lemma_decimal_chars_value(r as nat);
    let t = d.push(c);
    assert(crate::text::is_digit(t[0]));
    assert(crate::text::trim_end(t) == t);
    assert(crate::text::trim_start(t) == t);
    assert(t.drop_last() =~= d);
    let u = seq![c];
    assert(crate::text::trim_end(u) == u);
    assert(crate::text::trim_start(u) == u);
    assert(u.drop_last() =~= Seq::<char>::empty());
}

/// The TFORM letters of the FITS standard and their types: `L` logical,
/// `X` bits, `B` unsigned byte, `I` 16-bit, `J` 32-bit and `K` 64-bit
/// integers, `A` characters, `E` and `D` single and double floats, `C` and
/// `M` single and double complex, `P` and `Q` 32- and 64-bit array
/// descriptors; a repeat count written before the letter is read as given,
/// and none means 1.
pub proof fn law_tform_letters(r: usize)
    ensures
        tform_spec(crate::text::decimal_chars(r as nat).push('L')) == Some(TForm { repeat: r, type_code: TFormType::Logical }),
        tform_spec(seq!['L']) == Some(TForm { repeat: 1, type_code: TFormType::Logical }),
        tform_spec(crate::text::decimal_chars(r as nat).push('X')) == Some(TForm { repeat: r, type_code: TFormType::Bit }),
        tform_spec(seq!['X']) == Some(TForm { repeat: 1, type_code: TFormType::Bit }),
        tform_spec(crate::text::decimal_chars(r as nat).push('B')) == Some(TForm { repeat: r, type_code: TFormType::UInt8 }),
        tform_spec(seq!['B']) == Some(TForm { repeat: 1, type_code: TFormType::UInt8 }),
        tform_spec(crate::text::decimal_chars(r as nat).push('I')) == Some(TForm { repeat: r, type_code: TFormType::Int16 }),
        tform_spec(seq!['I']) == Some(TForm { repeat: 1, type_code: TFormType::Int16 }),
        tform_spec(crate::text::decimal_chars(r as nat).push('J')) == Some(TForm { repeat: r, type_code: TFormType::Int32 }),
        tform_spec(seq!['J']) == Some(TForm { repeat: 1, type_code: TFormType::Int32 }),
        tform_spec(crate::text::decimal_chars(r as nat).push('K')) == Some(TForm { repeat: r, type_code: TFormType::Int64 }),
        tform_spec(seq!['K']) == Some(TForm { repeat: 1, type_code: TFormType::Int64 }),
        tform_spec(crate::text::decimal_chars(r as nat).push('A')) == Some(TForm { repeat: r, type_code: TFormType::Char }),
        tform_spec(seq!['A']) == Some(TForm { repeat: 1, type_code: TFormType::Char }),
        tform_spec(crate::text::decimal_chars(r as nat).push('E')) == Some(TForm { repeat: r, type_code: TFormType::Float32 }),
        tform_spec(seq!['E']) == Some(TForm { repeat: 1, type_code: TFormType::Float32 }),
        tform_spec(crate::text::decimal_chars(r as nat).push('D')) == Some(TForm { repeat: r, type_code: TFormType::Float64 }),
        tform_spec(seq!['D']) == Some(TForm { repeat: 1, type_code: TFormType::Float64 }),
        tform_spec(crate::text::decimal_chars(r as nat).push('C')) == Some(TForm { repeat: r, type_code: TFormType::ComplexFloat32 }),
        tform_spec(seq!['C']) == Some(TForm { repeat: 1, type_code: TFormType::ComplexFloat32 }),
        tform_spec(crate::text::decimal_chars(r as nat).push('M')) == Some(TForm { repeat: r, type_code: TFormType::ComplexFloat64 }),
        tform_spec(seq!['M']) == Some(TForm { repeat: 1, type_code: TFormType::ComplexFloat64 }),
        tform_spec(crate::text::decimal_chars(r as nat).push('P')) == Some(TForm { repeat: r, type_code: TFormType::VarArrayInt32 }),
        tform_spec(seq!['P']) == Some(TForm { repeat: 1, type_code: TFormType::VarArrayInt32 }),
        tform_spec(crate::text::decimal_chars(r as nat).push('Q')) == Some(TForm { repeat: r, type_code: TFormType::VarArrayInt64 }),
        tform_spec(seq!['Q']) == Some(TForm { repeat: 1, type_code: TFormType::VarArrayInt64 }),
{
    lemma_tform_of_letter(r, 'L');
    lemma_tform_of_letter(r, 'X');
    lemma_tform_of_letter(r, 'B');
    lemma_tform_of_letter(r, 'I');
    lemma_tform_of_letter(r, 'J');
    lemma_tform_of_letter(r, 'K');
    lemma_tform_of_letter(r, 'A');
    lemma_tform_of_letter(r, 'E');
    lemma_tform_of_letter(r, 'D');
    lemma_tform_of_letter(r, 'C');
    lemma_tform_of_letter(r, 'M');
    lemma_tform_of_letter(r, 'P');
    lemma_tform_of_letter(r, 'Q');
}

/// The width of each TFORM type: a field of `r` elements takes `r` bytes for
/// `L`, `B` and `A`, `2r` for `I`, `4r` for `J` and `E`, `8r` for `K`, `D`
/// and `C`, `16r` for `M`, `⌈r/8⌉` for `X`, and one 8-byte (`P`) or 16-byte
/// (`Q`) descriptor whatever `r` is.
pub proof fn law_field_widths(r: usize)
    ensures
        field_bytes(TForm { repeat: r, type_code: TFormType::Logical }) == r,
        field_bytes(TForm { repeat: r, type_code: TFormType::UInt8 }) == r,
        field_bytes(TForm { repeat: r, type_code: TFormType::Char }) == r,
        field_bytes(TForm { repeat: r, type_code: TFormType::Int16 }) == 2 * r,
        field_bytes(TForm { repeat: r, type_code: TFormType::Int32 }) == 4 * r,
        field_bytes(TForm { repeat: r, type_code: TFormType::Float32 }) == 4 * r,
        field_bytes(TForm { repeat: r, type_code: TFormType::Int64 }) == 8 * r,
        field_bytes(TForm { repeat: r, type_code: TFormType::Float64 }) == 8 * r,
        field_bytes(TForm { repeat: r, type_code: TFormType::ComplexFloat32 }) == 8 * r,
        field_bytes(TForm { repeat: r, type_code: TFormType::ComplexFloat64 }) == 16 * r,
        8 * field_bytes(TForm { repeat: r, type_code: TFormType::Bit }) >= r,
        8 * field_bytes(TForm { repeat: r, type_code: TFormType::Bit }) < r + 8,
        field_bytes(TForm { repeat: r, type_code: TFormType::VarArrayInt32 }) == 8,
        field_bytes(TForm { repeat: r, type_code: TFormType::VarArrayInt64 }) == 16,
{
}

/// A `P` descriptor field holds the element count then the heap offset,
/// each a big-endian `i32`: the field written from `(n, o)` decodes to
/// exactly `VarArrayInt32(n, o)`.
pub proof fn law_var_array_int32_descriptor(n: i32, o: i32, v: ColumnValue)
    ensures
        decoded_as(v, i32_be(n) + i32_be(o), TFormType::VarArrayInt32) <==> v
            == ColumnValue::VarArrayInt32(n, o),
{
    let b = i32_be(n) + i32_be(o);
    lemma_i32_roundtrip(n);
    lemma_i32_roundtrip(o);
    assert(b[0] == i32_be(n)[0] && b[1] == i32_be(n)[1] && b[2] == i32_be(n)[2] && b[3] == i32_be(
        n,
    )[3]);
    assert(b[4] == i32_be(o)[0] && b[5] == i32_be(o)[1] && b[6] == i32_be(o)[2] && b[7] == i32_be(
        o,
    )[3]);
}

/// A `Q` descriptor field holds the element count then the heap offset,
/// each a big-endian `i64`: the field written from `(n, o)` decodes to
/// exactly `VarArrayInt64(n, o)`.
pub proof fn law_var_array_int64_descriptor(n: i64, o: i64, v: ColumnValue)
    ensures
        decoded_as(v, i64_be(n) + i64_be(o), TFormType::VarArrayInt64) <==> v
            == ColumnValue::VarArrayInt64(n, o),
{
    let b = i64_be(n) + i64_be(o);
    lemma_i64_roundtrip(n);
    lemma_i64_roundtrip(o);
    assert(b.subrange(0, 8) =~= i64_be(n));
    assert(b.subrange(8, 16) =~= i64_be(o));
}

/// Integer fields hold their elements as big-endian values: the field
/// written from the elements `xs` decodes to exactly those elements.
pub proof fn law_int_fields_decode_to_written(
    xs16: Seq<i16>,
    xs32: Seq<i32>,
    xs64: Seq<i64>,
    v: ColumnValue,
)
    ensures
        decoded_as(v, i16s_be(xs16), TFormType::Int16) <==> (v matches ColumnValue::Int16(ys)
            && ys@ == xs16),
        decoded_as(v, i32s_be(xs32), TFormType::Int32) <==> (v matches ColumnValue::Int32(ys)
            && ys@ == xs32),
        decoded_as(v, i64s_be(xs64), TFormType::Int64) <==> (v matches ColumnValue::Int64(ys)
            && ys@ == xs64),
{
    crate::endian::law_i16_encode_decode(xs16);
    crate::endian::law_i32_encode_decode(xs32);
    crate::endian::law_i64_encode_decode(xs64);
}

/// The big-endian 32-bit words of `b`.
fn u32_words(b: &[u8]) -> (out: Vec<u32>)
    ensures
        out@ == Seq::new(b@.len() / 4, |k: int| u32_at(b@, 4 * k)),
{
    let len = b.len();
    let n = len / 4;
    let mut out: Vec<u32> = Vec::new();
    let mut k: usize = 0;
    while k < n
        invariant
            len == b@.len(),
            n == b@.len() / 4,
            k <= n,
            out@ =~= Seq::new(b@.len() / 4, |k: int| u32_at(b@, 4 * k)).take(k as int),
        decreases n - k,
    {
        assert(4 * k + 3 < b@.len());
        let j = 4 * k;
        out.push(
            ((b[j] as u32) << 24u32) | ((b[j + 1] as u32) << 16u32) | ((b[j + 2] as u32) << 8u32) | (
            b[j + 3] as u32),
        );
        k = k + 1;
    }
    out
}

/// The big-endian 64-bit words of `b`.
fn u64_words(b: &[u8]) -> (out: Vec<u64>)
    ensures
        out@ == Seq::new(b@.len() / 8, |k: int| u64_at(b@, 8 * k)),
{
    let len = b.len();
    let n = len / 8;
    let mut out: Vec<u64> = Vec::new();
    let mut k: usize = 0;
    while k < n
        invariant
            len == b@.len(),
            n == b@.len() / 8,
            k <= n,
            out@ =~= Seq::new(b@.len() / 8, |k: int| u64_at(b@, 8 * k)).take(k as int),
        decreases n - k,
    {
        assert(8 * k + 7 < b@.len());
        let j = 8 * k;
        out.push(
            ((b[j] as u64) << 56u64) | ((b[j + 1] as u64) << 48u64) | ((b[j + 2] as u64) << 40u64)
                | ((b[j + 3] as u64) << 32u64) | ((b[j + 4] as u64) << 24u64) | ((b[j + 5] as u64)
                << 16u64) | ((b[j + 6] as u64) << 8u64) | (b[j + 7] as u64),
        );
        k = k + 1;
    }
    out
}

/// Decodes the bytes of one field.
fn decode_field(bytes: &[u8], tform: &TForm) -> (v: ColumnValue)
    requires
        bytes@.len() == field_bytes(*tform),
    ensures
        decoded_as(v, bytes@, tform.type_code),
{
    match tform.type_code {
        TFormType::Logical => {
            let mut xs: Vec<bool> = Vec::new();
            let mut i: usize = 0;
            while i < bytes.len()
                invariant
                    i <= bytes@.len(),
                    xs@ =~= bytes@.take(i as int).map_values(|x: u8| x == 84u8),
                decreases bytes@.len() - i,
            {
                xs.push(bytes[i] == 84u8);
                assert(bytes@.take(i + 1).map_values(|x: u8| x == 84u8) =~= bytes@.take(
                    i as int,
                ).map_values(|x: u8| x == 84u8).push(bytes@[i as int] == 84u8));
                i = i + 1;
            }
            assert(bytes@.take(bytes@.len() as int) =~= bytes@);
            assert(xs@ =~= bytes@.map_values(|x: u8| x == 84u8));
            let v = ColumnValue::Logical(xs);
            assert(decoded_as(v, bytes@, tform.type_code));
            v
        },
        TFormType::Bit => {
            let v = ColumnValue::Bits(vstd::slice::slice_to_vec(bytes));
            assert(decoded_as(v, bytes@, tform.type_code));
            v
        },
        TFormType::UInt8 => {
            let v = ColumnValue::UInt8(vstd::slice::slice_to_vec(bytes));
            assert(decoded_as(v, bytes@, tform.type_code));
            v
        },
        TFormType::Int16 => {
            let v = ColumnValue::Int16(be_bytes_to_i16(bytes));
            assert(decoded_as(v, bytes@, tform.type_code));
            v
        },
        TFormType::Int32 => {
            let v = ColumnValue::Int32(be_bytes_to_i32(bytes));
            assert(decoded_as(v, bytes@, tform.type_code));
            v
        },
        TFormType::Int64 => {
            let v = ColumnValue::Int64(be_bytes_to_i64(bytes));
            assert(decoded_as(v, bytes@, tform.type_code));
            v
        },
        TFormType::Char => {
            let text = decode_or_empty(bytes);
            let kept = strip_char_end_chars(text.as_slice(), '\0');
            let v = ColumnValue::Chars(string_of(kept.as_slice()));
            assert(decoded_as(v, bytes@, tform.type_code));
            v
        },
        TFormType::Float32 => {
            let v = ColumnValue::Float32(u32_words(bytes));
            assert(decoded_as(v, bytes@, tform.type_code));
            v
        },
        TFormType::Float64 => {
            let v = ColumnValue::Float64(u64_words(bytes));
            assert(decoded_as(v, bytes@, tform.type_code));
            v
        },
        TFormType::ComplexFloat32 => {
            let w = u32_words(bytes);
            let wl = w.len();
            let n = bytes.len() / 8;
            let mut xs: Vec<(u32, u32)> = Vec::new();
            let mut k: usize = 0;
            while k < n
                invariant
                    n == bytes@.len() / 8,
                    wl == w@.len(),
                    w@ == Seq::new(bytes@.len() / 4, |k: int| u32_at(bytes@, 4 * k)),
                    k <= n,
                    xs@ =~= Seq::new(
                        bytes@.len() / 8,
                        |k: int| (u32_at(bytes@, 8 * k), u32_at(bytes@, 8 * k + 4)),
                    ).take(k as int),
                decreases n - k,
            {
                assert(2 * k + 1 < wl);
                assert(w@[2 * k] == u32_at(bytes@, 8 * k));
                assert(w@[2 * k + 1] == u32_at(bytes@, 4 * (2 * k + 1)));
                assert(4 * (2 * k + 1) == 8 * k + 4);
                xs.push((w[2 * k], w[2 * k + 1]));
                k = k + 1;
            }
            let ghost full = Seq::new(
                bytes@.len() / 8,
                |k: int| (u32_at(bytes@, 8 * k), u32_at(bytes@, 8 * k + 4)),
            );
            assert(full.take(n as int) =~= full);
            let v = ColumnValue::ComplexFloat32(xs);
            assert(decoded_as(v, bytes@, tform.type_code));
            v
        },
        TFormType::ComplexFloat64 => {
            let w = u64_words(bytes);
            let wl = w.len();
            let n = bytes.len() / 16;
            let mut xs: Vec<(u64, u64)> = Vec::new();
            let mut k: usize = 0;
            while k < n
                invariant
                    n == bytes@.len() / 16,
                    wl == w@.len(),
                    w@ == Seq::new(bytes@.len() / 8, |k: int| u64_at(bytes@, 8 * k)),
                    k <= n,
                    xs@ =~= Seq::new(
                        bytes@.len() / 16,
                        |k: int| (u64_at(bytes@, 16 * k), u64_at(bytes@, 16 * k + 8)),
                    ).take(k as int),
                decreases n - k,
            {
                assert(2 * k + 1 < wl);
                assert(w@[2 * k] == u64_at(bytes@, 16 * k));
                assert(w@[2 * k + 1] == u64_at(bytes@, 8 * (2 * k + 1)));
                assert(8 * (2 * k + 1) == 16 * k + 8);
                xs.push((w[2 * k], w[2 * k + 1]));
                k = k + 1;
            }
            let ghost full = Seq::new(
                bytes@.len() / 16,
                |k: int| (u64_at(bytes@, 16 * k), u64_at(bytes@, 16 * k + 8)),
            );
            assert(full.take(n as int) =~= full);
            let v = ColumnValue::ComplexFloat64(xs);
            assert(decoded_as(v, bytes@, tform.type_code));
            v
        },
        TFormType::VarArrayInt32 => {
            let n = (((bytes[0] as u32) << 24u32) | ((bytes[1] as u32) << 16u32) | ((bytes[2] as u32)
                << 8u32) | (bytes[3] as u32)) as i32;
            let o = (((bytes[4] as u32) << 24u32) | ((bytes[5] as u32) << 16u32) | ((bytes[6] as u32)
                << 8u32) | (bytes[7] as u32)) as i32;
            let v = ColumnValue::VarArrayInt32(n, o);
            assert(decoded_as(v, bytes@, tform.type_code));
            v
        },
        TFormType::VarArrayInt64 => {
            let w = u64_words(bytes);
            assert(w@[0] == u64_at(bytes@, 0));
            assert(w@[1] == u64_at(bytes@, 8));
            let n = w[0] as i64;
            let o = w[1] as i64;
            assert(bytes@.subrange(0, 8)[0] == bytes@[0]);
            assert(bytes@.subrange(8, 16)[0] == bytes@[8]);
            let v = ColumnValue::VarArrayInt64(n, o);
            assert(decoded_as(v, bytes@, tform.type_code));
            v
        },
    }
}

/// The number of leading rows, counted from `r`, whose field lies within
/// `len` bytes: decoding stops at the first row that does not.
pub open spec fn rows_read(nrows: int, rb: int, off: int, fb: int, len: int, r: int) -> int
    decreases nrows - r,
{
    if r >= nrows || r * rb + off + fb > len {
        r
    } else {
        rows_read(nrows, rb, off, fb, len, r + 1)
    }
}

/// Decoding from row `r` reads at least up to row `r`.
pub proof fn lemma_rows_read_from(nrows: int, rb: int, off: int, fb: int, len: int, r: int)
    ensures
        rows_read(nrows, rb, off, fb, len, r) >= r,
        rows_read(nrows, rb, off, fb, len, r) <= nrows || rows_read(nrows, rb, off, fb, len, r) == r,
    decreases nrows - r,
{
    if !(r >= nrows || r * rb + off + fb > len) {
        lemma_rows_read_from(nrows, rb, off, fb, len, r + 1);
    }
}

impl<'a> BinaryTable<'a> {
    /// The number of rows that decoding the column `c` reads.
    pub open spec fn rows_of(&self, c: ColumnModel) -> int {
        rows_read(
            self.spec_nrows(),
            self.spec_row_bytes(),
            c.row_offset,
            field_bytes(c.tform),
            self.spec_hdu().data.data@.len() as int,
            0,
        )
    }

    /// Whether decoding the column `c` computes the position of the row at
    /// which it stops without overflow.
    pub open spec fn column_defined(&self, c: ColumnModel) -> bool {
        let k = self.rows_of(c);
        k == self.spec_nrows() || k * self.spec_row_bytes() + c.row_offset + field_bytes(c.tform)
            <= usize::MAX
    }

    /// Whether `vs` is the column `c` decoded row by row.
    pub open spec fn decodes_column(&self, c: ColumnModel, vs: Seq<ColumnValue>) -> bool {
        let rb = self.spec_row_bytes();
        let fb = field_bytes(c.tform);
        let data = self.spec_hdu().data.data@;
        &&& vs.len() == self.rows_of(c)
        &&& forall|j: int|
            0 <= j < vs.len() ==> decoded_as(
                #[trigger] vs[j],
                data.subrange(j * rb + c.row_offset, j * rb + c.row_offset + fb),
                c.tform.type_code,
            )
    }

    /// Decode all rows of the column at position `idx`.
    fn decode_column(&self, idx: usize) -> (vs: Vec<ColumnValue>)
        requires
            idx < self.spec_columns().len(),
            self.column_defined(self.spec_columns()[idx as int]),
        ensures
            self.decodes_column(self.spec_columns()[idx as int], vs@),
    {
        proof {
            use_type_invariant(self);
        }
        let col = &self.columns[idx];
        let ghost cm = col.model();
        assert(cm == self.spec_columns()[idx as int]);
        let data = &self.hdu.data.data;
        let dlen = data.len();
        let fb = col.tform.bytes_per_field();
        let mut values: Vec<ColumnValue> = Vec::new();
        let mut row: usize = 0;
        let ghost k = self.rows_of(cm);
        proof {
            lemma_rows_read_from(
                self.nrows as int,
                self.row_bytes as int,
                cm.row_offset,
                fb as int,
                data@.len() as int,
                0,
            );
        }
        while row < self.nrows
            invariant
                self.column_defined(cm),
                k == self.rows_of(cm),
                k == rows_read(
                    self.nrows as int,
                    self.row_bytes as int,
                    cm.row_offset,
                    fb as int,
                    data@.len() as int,
                    row as int,
                ),
                cm == col.model(),
                fb == field_bytes(cm.tform),
                data@ == self.spec_hdu().data.data@,
                dlen == data@.len(),
                self.spec_nrows() == self.nrows,
                self.spec_row_bytes() == self.row_bytes,
                row <= k,
                values@.len() == row,
                forall|j: int|
                    0 <= j < row ==> decoded_as(
                        #[trigger] values@[j],
                        data@.subrange(
                            j * self.row_bytes + cm.row_offset,
                            j * self.row_bytes + cm.row_offset + fb,
                        ),
                        cm.tform.type_code,
                    ),
            ensures
                row == k,
                values@.len() == row,
                forall|j: int|
                    0 <= j < row ==> decoded_as(
                        #[trigger] values@[j],
                        data@.subrange(
                            j * self.row_bytes + cm.row_offset,
                            j * self.row_bytes + cm.row_offset + fb,
                        ),
                        cm.tform.type_code,
                    ),
            decreases self.nrows - row,
        {
            assert(row * self.row_bytes + col.row_offset + fb <= usize::MAX) by {
                if row as int == k {
                } else {
                    assert(row * self.row_bytes + col.row_offset + fb <= data@.len());
                }
            }
            let start = row * self.row_bytes + col.row_offset;
            let end = start + fb;
            if end > dlen {
                break;
            }
            let v = decode_field(vstd::slice::slice_subrange(data.as_slice(), start, end), &col.tform);
            values.push(v);
            proof {
                lemma_rows_read_from(
                    self.nrows as int,
                    self.row_bytes as int,
                    cm.row_offset,
                    fb as int,
                    data@.len() as int,
                    row + 1,
                );
            }
            row = row + 1;
        }
        values
    }

    /// The position of the first column named `name`.
    pub open spec fn first_named(&self, name: Seq<char>, i: int) -> bool {
        &&& 0 <= i < self.spec_columns().len()
        &&& self.spec_columns()[i].name == name
        &&& forall|j: int| 0 <= j < i ==> self.spec_columns()[j].name != name
    }

    /// The index of the first column named `name`.
    fn find_column(&self, name: &str) -> (r: Option<usize>)
        ensures
            r matches Some(i) ==> self.first_named(name@, i as int),
            r is None ==> forall|j: int|
                0 <= j < self.spec_columns().len() ==> self.spec_columns()[j].name != name@,
    {
        let want = chars_of(name);
        let mut i: usize = 0;
        while i < self.columns.len()
            invariant
                want@ == name@,
                i <= self.columns@.len(),
                self.spec_columns().len() == self.columns@.len(),
                forall|j: int| 0 <= j < i ==> self.spec_columns()[j].name != name@,
            decreases self.columns@.len() - i,
        {
            let nm = chars_of(self.columns[i].name.as_str());
            assert(self.spec_columns()[i as int] == self.columns@[i as int].model());
            if chars_eq(nm.as_slice(), want.as_slice()) {
                return Some(i);
            }
            i = i + 1;
        }
        None
    }

    /// Decode all rows for the named column. Returns `None` if the name is not found.
    pub fn column(&self, name: &str) -> (r: Option<Vec<ColumnValue>>)
        requires
            forall|i: int|
                #![trigger self.first_named(name@, i)]
                self.first_named(name@, i) ==> self.column_defined(self.spec_columns()[i]),
        ensures
            (exists|i: int| 0 <= i < self.spec_columns().len() && #[trigger] self.spec_columns()[i].name
                == name@) <==> r is Some,
            r matches Some(vs) ==> exists|i: int|
                #![trigger self.first_named(name@, i)]
                self.first_named(name@, i) && self.decodes_column(self.spec_columns()[i], vs@),
    {
        match self.find_column(name) {
            Some(i) => {
                assert(self.first_named(name@, i as int));
                let vs = self.decode_column(i);
                Some(vs)
            },
            None => None,
        }
    }

    /// Decode all rows for the column at the given zero-based index.
    pub fn column_at(&self, index: usize) -> (r: Option<Vec<ColumnValue>>)
        requires
            index < self.spec_columns().len() ==> self.column_defined(
                self.spec_columns()[index as int],
            ),
        ensures
            index < self.spec_columns().len() <==> r is Some,
            r matches Some(vs) ==> self.decodes_column(self.spec_columns()[index as int], vs@),
    {
        if index < self.columns.len() {
            Some(self.decode_column(index))
        } else {
            None
        }
    }
}

} // verus!
