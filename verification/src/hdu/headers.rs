//! Header records of an HDU: 80-byte card images made of a 10-byte key
//! field and a 70-byte value field.
use vstd::prelude::*;
use vstd::utf8::*;

use crate::text::{
    chars_eq_str, chars_of, decode_bytes, string_of, decimal_of_i64, decimal_text, encode_chars, extend_bytes, push_repeat,
};

verus! {

broadcast use vstd::utf8::group_utf8_lib;

/// The byte that pads key and value fields.
pub const PADDING: u8 = 32;

/// The value indicator that follows a keyword in columns 9.
pub const EQUAL_SIGN: u8 = 61;

/// The UTF-8 bytes of `s`.
pub open spec fn encode_utf8_of(s: Seq<char>) -> Seq<u8> {
    encode_utf8(s)
}

/// `n` padding spaces.
pub open spec fn spaces(n: int) -> Seq<u8> {
    Seq::new(n as nat, |i: int| PADDING)
}

/// Typed FITS header value.
///
/// FITS encodes values with strict formatting rules:
/// - `Logical` → `T` or `F`, right-justified in columns 11–30.
/// - `Integer`  → right-justified in columns 11–30.
/// - `Float`    → the number's text in scientific notation, right-justified
///   in columns 11–30.  The library holds it as text: rendering a float is
///   left to the caller.
/// - `Text`     → enclosed in single quotes, padded to a minimum of 8 chars.
#[derive(Debug)]
pub enum FITSValue {
    Logical(bool),
    Integer(i64),
    Float(String),
    Text(String),
}

/// The representation of a FITS header record (80 bytes total):
/// - `key`   : 10 bytes — 8-char keyword + `=` + space (or all spaces for COMMENT/HISTORY/END)
/// - `value` : 70 bytes — encoded value and optional inline comment
#[derive(Debug, Clone, Copy)]
pub struct FITSHeader {
    pub key: [u8; 10],
    pub value: [u8; 70],
}

impl FITSHeader {
    /// The 80 bytes of the record: key field then value field.
    pub open spec fn record(&self) -> Seq<u8> {
        self.key@ + self.value@
    }
}

// ───────────────────────── keywords ─────────────────────────

/// A character that a keyword may hold: `A`–`Z`, `0`–`9`, `-`, `_`.
pub open spec fn keyword_char(c: char) -> bool {
    ('A' <= c <= 'Z') || ('0' <= c <= '9') || c == '-' || c == '_'
}

/// A keyword that `FITSHeader::new` accepts: 1–8 characters, each of them
/// `A`–`Z`, `0`–`9`, `-` or `_`, and none of the reserved `END`, `COMMENT`,
/// `HISTORY`.  (Its characters are ASCII, so its length in bytes is the same.)
pub open spec fn valid_keyword(key: Seq<char>) -> bool {
    &&& 1 <= key.len() <= 8
    &&& key != "END"@
    &&& key != "COMMENT"@
    &&& key != "HISTORY"@
    &&& forall|i: int| 0 <= i < key.len() ==> keyword_char(#[trigger] key[i])
}

/// Whether `key` is a keyword that `FITSHeader::new` accepts.
pub fn validate_keyword(key: &str) -> (ok: bool)
    ensures
        ok == valid_keyword(key@),
{
    let cs = chars_of(key);
    if cs.len() < 1 || cs.len() > 8 {
        return false;
    }
    if chars_eq_str(cs.as_slice(), "END") || chars_eq_str(cs.as_slice(), "COMMENT")
        || chars_eq_str(cs.as_slice(), "HISTORY") {
        return false;
    }
    let mut i: usize = 0;
    while i < cs.len()
        invariant
            cs@ == key@,
            i <= cs@.len(),
            forall|j: int| 0 <= j < i ==> keyword_char(#[trigger] cs@[j]),
        decreases cs@.len() - i,
    {
        let c = cs[i];
        if !(('A' <= c && c <= 'Z') || ('0' <= c && c <= '9') || c == '-' || c == '_') {
            return false;
        }
        i = i + 1;
    }
    true
}

/// The key field of a valued keyword: the keyword, spaces up to column 8,
/// `=` in column 9 and a space in column 10.
pub open spec fn key_field(key: Seq<char>) -> Seq<u8> {
    Seq::new(
        10,
        |i: int|
            if i == 8 {
                EQUAL_SIGN
            } else if i < key.len() {
                key[i] as u8
            } else {
                PADDING
            },
    )
}

/// Builds the key field of a valid keyword.
fn make_key_field(key: &str) -> (k: [u8; 10])
    requires
        valid_keyword(key@),
    ensures
        k@ == key_field(key@),
{
    let mut k = [PADDING; 10];
    let b = key.as_bytes();
    proof {
        assert(is_ascii_chars(key@));
        is_ascii_chars_encode_utf8(key@);
    }
    let mut i: usize = 0;
    while i < b.len()
        invariant
            b@ == encode_utf8(key@),
            b@.len() == key@.len() <= 8,
            forall|j: int| 0 <= j < key@.len() ==> key@[j] as u8 == b@[j],
            i <= b@.len(),
            forall|j: int|
                0 <= j < 10 ==> k@[j] == (if j < i {
                    key@[j] as u8
                } else {
                    PADDING
                }),
        decreases b@.len() - i,
    {
        k[i] = b[i];
        i = i + 1;
    }
    k[8] = EQUAL_SIGN;
    assert(k@ =~= key_field(key@));
    k
}


// ───────────────────────── values ─────────────────────────

/// `text` right-justified in 20 columns, `width` being the number of
/// characters it holds (`{:>20}`); text longer than that is left as it is.
pub open spec fn justify20(text: Seq<u8>, width: int) -> Seq<u8> {
    if width < 20 {
        spaces(20 - width) + text
    } else {
        text
    }
}

/// `s` with each single quote doubled.
pub open spec fn escape_quotes(s: Seq<char>) -> Seq<char>
    decreases s.len(),
{
    if s.len() == 0 {
        Seq::empty()
    } else if s[0] == '\'' {
        seq!['\'', '\''] + escape_quotes(s.drop_first())
    } else {
        seq![s[0]] + escape_quotes(s.drop_first())
    }
}

/// The quoted form of a string value: `'`, the string with its quotes
/// doubled, spaces up to a width of at least 8, `'`.  As in `{:<width$}`, the
/// width is the larger of 8 and the escaped string's length in bytes, and the
/// padding fills it up from the escaped string's length in characters.
pub open spec fn quoted_text(s: Seq<char>) -> Seq<u8> {
    let e = escape_quotes(s);
    let eb = encode_utf8(e);
    let width: int = if eb.len() > 8 {
        eb.len() as int
    } else {
        8
    };
    seq![39u8] + eb + spaces(width - e.len()) + seq![39u8]
}

/// Whether a value can be written: a string value is at most 68 bytes long.
pub open spec fn value_fits(value: FITSValue) -> bool {
    match value {
        FITSValue::Text(s) => encode_utf8(s@).len() <= 68,
        _ => true,
    }
}

/// The encoded value before any comment.
pub open spec fn value_text(value: FITSValue) -> Seq<u8> {
    match value {
        FITSValue::Logical(b) => spaces(19) + seq![if b { 84u8 } else { 70u8 }],
        FITSValue::Integer(n) => justify20(decimal_text(n as int), decimal_text(n as int).len() as int),
        FITSValue::Float(s) => justify20(encode_utf8(s@), s@.len() as int),
        FITSValue::Text(s) => quoted_text(s@),
    }
}

/// The encoded value followed, for a nonempty comment, by ` / ` and the comment.
pub open spec fn value_with_comment(value: FITSValue, comment: Option<Seq<char>>) -> Seq<u8> {
    match comment {
        Some(c) => if c.len() > 0 {
            value_text(value) + seq![32u8, 47u8, 32u8] + encode_utf8(c)
        } else {
            value_text(value)
        },
        None => value_text(value),
    }
}

/// The first 70 bytes of `b`, padded with spaces to 70.
pub open spec fn fit70(b: Seq<u8>) -> Seq<u8> {
    if b.len() >= 70 {
        b.take(70)
    } else {
        b + spaces(70 - b.len())
    }
}

/// The 70-byte value field for `value` and an optional inline comment.
pub open spec fn value_field(value: FITSValue, comment: Option<Seq<char>>) -> Seq<u8> {
    fit70(value_with_comment(value, comment))
}

/// The first 70 bytes of `b`, padded with spaces.
fn fit_bytes(b: &[u8]) -> (r: [u8; 70])
    ensures
        r@ == fit70(b@),
{
    let mut r = [PADDING; 70];
    let n: usize = if b.len() < 70 {
        b.len()
    } else {
        70
    };
    let mut i: usize = 0;
    while i < n
        invariant
            n <= 70,
            n <= b@.len(),
            n == (if b@.len() < 70 {
                b@.len()
            } else {
                70
            }),
            i <= n,
            forall|j: int|
                0 <= j < 70 ==> r@[j] == (if j < i {
                    b@[j]
                } else {
                    PADDING
                }),
        decreases n - i,
    {
        r[i] = b[i];
        i = i + 1;
    }
    assert(r@ =~= fit70(b@));
    r
}

/// `text` right-justified in 20 columns.
fn push_justified(out: &mut Vec<u8>, text: &[u8], width: usize)
    ensures
        final(out)@ == old(out)@ + justify20(text@, width as int),
{
    if width < 20 {
        push_repeat(out, PADDING, 20 - width);
    }
    extend_bytes(out, text);
    assert(final(out)@ =~= old(out)@ + justify20(text@, width as int));
}

/// The encoded value before any comment.
fn encode_value_text(value: &FITSValue) -> (out: Vec<u8>)
    requires
        value_fits(*value),
    ensures
        out@ == value_text(*value),
{
    let mut out: Vec<u8> = Vec::new();
    match value {
        FITSValue::Logical(b) => {
            push_repeat(&mut out, PADDING, 19);
            out.push(if *b { 84u8 } else { 70u8 });
        },
        FITSValue::Integer(n) => {
            let d = decimal_of_i64(*n);
            push_justified(&mut out, d.as_slice(), d.len());
        },
        FITSValue::Float(s) => {
            let cs = chars_of(s.as_str());
            push_justified(&mut out, s.as_str().as_bytes(), cs.len());
        },
        FITSValue::Text(s) => {
            let cs = chars_of(s.as_str());
            let mut esc: Vec<char> = Vec::new();
            let mut i: usize = 0;
            assert(cs@.skip(0) =~= cs@);
            assert(esc@ + escape_quotes(cs@) =~= escape_quotes(cs@));
            while i < cs.len()
                invariant
                    i <= cs@.len(),
                    escape_quotes(cs@) == esc@ + escape_quotes(cs@.skip(i as int)),
                decreases cs@.len() - i,
            {
                assert(cs@.skip(i as int).drop_first() =~= cs@.skip(i + 1));
                assert(cs@.skip(i as int)[0] == cs@[i as int]);
                let c = cs[i];
                if c == '\'' {
                    esc.push('\'');
                    esc.push('\'');
                } else {
                    esc.push(c);
                }
                proof {
                    let ghost rest = escape_quotes(cs@.skip(i + 1));
                    if c == '\'' {
                        assert(escape_quotes(cs@.skip(i as int)) =~= seq!['\'', '\''] + rest);
                    } else {
                        assert(escape_quotes(cs@.skip(i as int)) =~= seq![c] + rest);
                    }
                }
                i = i + 1;
            }
            assert(cs@.skip(cs@.len() as int) =~= Seq::<char>::empty());
            assert(esc@ =~= escape_quotes(cs@));
            let eb = encode_chars(esc.as_slice());
            proof {
                lemma_escape_quotes_len(cs@);
            }
            let width: usize = if eb.len() > 8 {
                eb.len()
            } else {
                8
            };
            out.push(39u8);
            extend_bytes(&mut out, eb.as_slice());
            push_repeat(&mut out, PADDING, width - esc.len());
            out.push(39u8);
        },
    }
    assert(out@ =~= value_text(*value));
    out
}

/// Escaping at most doubles a string, and never makes its encoding shorter
/// than its length in characters.
pub proof fn lemma_escape_quotes_len(s: Seq<char>)
    ensures
        escape_quotes(s).len() <= encode_utf8(escape_quotes(s)).len(),
        escape_quotes(s).len() <= 2 * s.len(),
{
    lemma_encode_len(escape_quotes(s));
    lemma_escape_len_bound(s);
}

proof fn lemma_escape_len_bound(s: Seq<char>)
    ensures
        escape_quotes(s).len() <= 2 * s.len(),
    decreases s.len(),
{
    if s.len() > 0 {
        lemma_escape_len_bound(s.drop_first());
    }
}

/// A sequence of characters takes at least one byte per character.
pub proof fn lemma_encode_len(s: Seq<char>)
    ensures
        s.len() <= encode_utf8(s).len(),
    decreases s.len(),
{
    if s.len() > 0 {
        lemma_encode_len(s.drop_first());
    }
}

/// Encode a `FITSValue` (and optional inline comment) into the 70-byte value field.
///
/// Value field layout (FITS standard, section 4.2):
/// - Logical / Integer / Float: right-justified in the first 20 bytes (columns 11–30).
/// - Text: `'<string>'` left-aligned, string padded to at least 8 chars inside quotes.
/// - Optional comment: ` / <text>` appended after the value, space-padded to 70 bytes.
pub fn encode_value(value: FITSValue, comment: Option<&str>) -> (field: [u8; 70])
    requires
        value_fits(value),
    ensures
        field@ == value_field(
            value,
            match comment {
                Some(c) => Some(c@),
                None => None,
            },
        ),
{
    let mut full = encode_value_text(&value);
    let ghost cm = match comment {
        Some(c) => Some(c@),
        None => None::<Seq<char>>,
    };
    match comment {
        Some(c) => {
            proof {
                lemma_encode_len(c@);
                if c@.len() == 0 {
                    assert(encode_utf8(c@) =~= Seq::<u8>::empty());
                }
            }
            if c.as_bytes().len() > 0 {
                full.push(32u8);
                full.push(47u8);
                full.push(32u8);
                extend_bytes(&mut full, c.as_bytes());
                assert(full@ =~= value_with_comment(value, cm));
            } else {
                assert(c@.len() == 0);
                assert(full@ == value_text(value));
                assert(full@ =~= value_with_comment(value, cm));
            }
        },
        None => {},
    }
    fit_bytes(full.as_slice())
}


// ───────────────────────── records ─────────────────────────

/// The key field of a `COMMENT` record: `COMMENT` and three spaces.
pub open spec fn comment_key() -> Seq<u8> {
    seq![67u8, 79, 77, 77, 69, 78, 84, 32, 32, 32]
}

/// The key field of a `HISTORY` record: `HISTORY` and three spaces.
pub open spec fn history_key() -> Seq<u8> {
    seq![72u8, 73, 83, 84, 79, 82, 89, 32, 32, 32]
}

/// The key field of the `END` record: `END` and seven spaces.
pub open spec fn end_key() -> Seq<u8> {
    seq![69u8, 78, 68, 32, 32, 32, 32, 32, 32, 32]
}

/// The key field of the `END` record.
pub const END_HEADER_KEY: [u8; 10] = [69, 78, 68, 32, 32, 32, 32, 32, 32, 32];

impl FITSHeader {
    /// Fast path for reading existing FITS files. The incoming slices must be
    /// exactly 10 bytes (key field) and 70 bytes (value field) respectively.
    pub fn new_raw(key: &[u8], value: &[u8]) -> (h: FITSHeader)
        requires
            key@.len() == 10,
            value@.len() == 70,
        ensures
            h.key@ == key@,
            h.value@ == value@,
    {
        let mut header_key = [0u8; 10];
        let mut header_value = [0u8; 70];
        let mut i: usize = 0;
        while i < 10
            invariant
                key@.len() == 10,
                i <= 10,
                forall|j: int| 0 <= j < i ==> header_key@[j] == key@[j],
            decreases 10 - i,
        {
            header_key[i] = key[i];
            i = i + 1;
        }
        let mut i: usize = 0;
        while i < 70
            invariant
                value@.len() == 70,
                i <= 70,
                forall|j: int| 0 <= j < i ==> header_value@[j] == value@[j],
            decreases 70 - i,
        {
            header_value[i] = value[i];
            i = i + 1;
        }
        assert(header_key@ =~= key@);
        assert(header_value@ =~= value@);
        FITSHeader { key: header_key, value: header_value }
    }

    /// Create a valued FITS header keyword.
    ///
    /// `key` must be 1–8 uppercase characters (A–Z, 0–9, `-`, `_`).
    /// The value is encoded according to the FITS standard's formatting rules.
    pub fn new(key: &str, value: FITSValue) -> (h: FITSHeader)
        requires
            valid_keyword(key@),
            value_fits(value),
        ensures
            h.key@ == key_field(key@),
            h.value@ == value_field(value, None),
    {
        let header_key = make_key_field(key);
        FITSHeader { key: header_key, value: encode_value(value, None) }
    }

    /// Create a valued FITS header keyword with an inline comment.
    pub fn new_with_comment(key: &str, value: FITSValue, comment: &str) -> (h: FITSHeader)
        requires
            valid_keyword(key@),
            value_fits(value),
        ensures
            h.key@ == key_field(key@),
            h.value@ == value_field(value, Some(comment@)),
    {
        let header_key = make_key_field(key);
        FITSHeader { key: header_key, value: encode_value(value, Some(comment)) }
    }

    /// Create a `COMMENT` record. COMMENT records have no `=` indicator;
    /// up to 70 bytes of free-form text fill the value field.
    pub fn comment(text: &str) -> (h: FITSHeader)
        ensures
            h.key@ == comment_key(),
            h.value@ == fit70(encode_utf8(text@)),
    {
        let key: [u8; 10] = [67, 79, 77, 77, 69, 78, 84, 32, 32, 32];
        assert(key@ =~= comment_key());
        FITSHeader { key, value: fit_bytes(text.as_bytes()) }
    }

    /// Create a `HISTORY` record. Like COMMENT, no `=` indicator is used.
    pub fn history(text: &str) -> (h: FITSHeader)
        ensures
            h.key@ == history_key(),
            h.value@ == fit70(encode_utf8(text@)),
    {
        let key: [u8; 10] = [72, 73, 83, 84, 79, 82, 89, 32, 32, 32];
        assert(key@ =~= history_key());
        FITSHeader { key, value: fit_bytes(text.as_bytes()) }
    }

    /// Create the mandatory `END` keyword that terminates a header section.
    /// In the FITS standard, END has no `=` and is padded with spaces to 80 bytes.
    pub fn end_hdu() -> (h: FITSHeader)
        ensures
            h.key@ == end_key(),
            h.value@ == spaces(70),
    {
        let key = END_HEADER_KEY;
        let value = [PADDING; 70];
        assert(key@ =~= end_key());
        assert(value@ =~= spaces(70));
        FITSHeader { key, value }
    }

    /// The key field as text.  The field must hold valid UTF-8, as every
    /// key field that this library builds does.
    pub fn key_as_str(&self) -> (s: &str)
        requires
            valid_utf8(self.key@),
        ensures
            s@ == decode_utf8(self.key@),
    {
        match crate::text::str_from_utf8(self.key.as_slice()) {
            Some(s) => s,
            None => {
                assert(false);
                ""
            },
        }
    }

    /// The value field as text.  The field must hold valid UTF-8.
    pub fn value_as_str(&self) -> (s: &str)
        requires
            valid_utf8(self.value@),
        ensures
            s@ == decode_utf8(self.value@),
    {
        match crate::text::str_from_utf8(self.value.as_slice()) {
            Some(s) => s,
            None => {
                assert(false);
                ""
            },
        }
    }

    /// The whole record as text: key field then value field.
    pub fn as_str(&self) -> (s: String)
        requires
            valid_utf8(self.key@),
            valid_utf8(self.value@),
        ensures
            s@ == decode_utf8(self.key@) + decode_utf8(self.value@),
    {
        let k = decode_bytes(self.key.as_slice());
        let v = decode_bytes(self.value.as_slice());
        match (k, v) {
            (Some(mut k), Some(mut v)) => {
                k.append(&mut v);
                string_of(k.as_slice())
            },
            _ => {
                assert(false);
                String::new()
            },
        }
    }
}

} // verus!
