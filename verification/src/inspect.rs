//! What a viewer reads from an HDU's header: the image geometry, a Bayer
//! colour-filter pattern, and a short list of descriptive keywords.
use vstd::prelude::*;

use crate::hdu::headers::FITSHeader;
use crate::hdu::HDU;
use crate::parsing::{or_default, usize_of};
use crate::text::{
    before_slash, before_slash_chars, chars_eq, chars_eq_str, decode_or_empty, parse_i32,
    parse_signed, parse_usize, string_of, strip_char, strip_char_chars, text_or_empty, trim,
    trim_chars, trim_end, trim_end_chars,
};

verus! {

// ───────────────────────── header entries ─────────────────────────

/// Whether the record has a value indicator (`=` in column 9).
pub open spec fn has_value(h: FITSHeader) -> bool {
    h.key@[8] == 61u8
}

/// The keyword of a record: its first 8 bytes as text, without trailing whitespace.
pub open spec fn entry_keyword(h: FITSHeader) -> Seq<char> {
    trim_end(text_or_empty(h.key@.take(8)))
}

/// The value of a record: its value field as text, cut at the first `/`, trimmed.
pub open spec fn entry_text(h: FITSHeader) -> Seq<char> {
    trim(before_slash(text_or_empty(h.value@)))
}

/// The value of a record without the quotes around a string and the spaces inside them.
pub open spec fn entry_unquoted(h: FITSHeader) -> Seq<char> {
    trim(strip_char(entry_text(h), '\''))
}

/// The keyword of a record.
fn keyword_of(h: &FITSHeader) -> (k: Vec<char>)
    ensures
        k@ == entry_keyword(*h),
{
    let first8: [u8; 8] = [h.key[0], h.key[1], h.key[2], h.key[3], h.key[4], h.key[5], h.key[6], h.key[7]];
    assert(first8@ =~= h.key@.take(8));
    let t = decode_or_empty(first8.as_slice());
    trim_end_chars(t.as_slice())
}

/// The value of a record.
fn text_of(h: &FITSHeader) -> (v: Vec<char>)
    ensures
        v@ == entry_text(*h),
{
    let t = decode_or_empty(h.value.as_slice());
    let cut = before_slash_chars(t.as_slice());
    trim_chars(cut.as_slice())
}

/// The value of a record without quotes.
fn unquoted_of(h: &FITSHeader) -> (v: Vec<char>)
    ensures
        v@ == entry_unquoted(*h),
{
    let t = text_of(h);
    let s = strip_char_chars(t.as_slice(), '\'');
    trim_chars(s.as_slice())
}

// ───────────────────────── Bayer pattern ─────────────────────────

/// Unicode upper-casing of `s`, as `str::to_uppercase` does it.
pub uninterp spec fn unicode_uppercase(s: Seq<char>) -> Seq<char>;

/// Calls `str::to_uppercase`.  The contract names its result: it depends on
/// the string alone (Unicode's case mapping tables), and takes pages to state.
#[verifier::external_body]
fn str_to_uppercase(s: &str) -> (r: String)
    ensures
        r@ == unicode_uppercase(s@),
{
    s.to_uppercase()
}

/// The Bayer pattern of the first `BAYERPAT` record from `i` on whose upper-cased
/// value is not empty.
pub open spec fn bayer_from(hs: Seq<FITSHeader>, i: int) -> Option<Seq<char>>
    decreases hs.len() - i,
{
    if i < 0 || i >= hs.len() {
        None
    } else {
        let h = hs[i];
        if has_value(h) && entry_keyword(h) == "BAYERPAT"@ && unicode_uppercase(entry_unquoted(h)).len()
            > 0 {
            Some(unicode_uppercase(entry_unquoted(h)))
        } else {
            bayer_from(hs, i + 1)
        }
    }
}

/// Whether `h` is a valued `BAYERPAT` record whose upper-cased value is not empty.
pub open spec fn is_bayer_record(h: FITSHeader) -> bool {
    has_value(h) && entry_keyword(h) == "BAYERPAT"@ && unicode_uppercase(entry_unquoted(h)).len() > 0
}

/// Reading from `k` on finds the first Bayer record at or after `k`.
proof fn lemma_bayer_from_first(hs: Seq<FITSHeader>, i: int, k: int)
    requires
        0 <= k <= i < hs.len(),
        is_bayer_record(hs[i]),
        forall|j: int| k <= j < i ==> !is_bayer_record(#[trigger] hs[j]),
    ensures
        bayer_from(hs, k) == Some(unicode_uppercase(entry_unquoted(hs[i]))),
    decreases i - k,
{
    if k < i {
        lemma_bayer_from_first(hs, i, k + 1);
    }
}

/// The Bayer pattern is the upper-cased value of the first valued
/// `BAYERPAT` record that has a nonempty one, and there is none where no
/// record is such.
pub proof fn law_bayer_pattern_is_first_bayerpat(hs: Seq<FITSHeader>, i: int)
    ensures
        0 <= i < hs.len() && is_bayer_record(hs[i]) && (forall|j: int|
            0 <= j < i ==> !is_bayer_record(#[trigger] hs[j])) ==> bayer_from(hs, 0) == Some(
            unicode_uppercase(entry_unquoted(hs[i])),
        ),
        (forall|j: int| 0 <= j < hs.len() ==> !is_bayer_record(#[trigger] hs[j])) ==> bayer_from(
            hs,
            0,
        ) is None,
{
    if 0 <= i < hs.len() && is_bayer_record(hs[i]) && (forall|j: int|
        0 <= j < i ==> !is_bayer_record(#[trigger] hs[j])) {
        lemma_bayer_from_first(hs, i, 0);
    }
    if forall|j: int| 0 <= j < hs.len() ==> !is_bayer_record(#[trigger] hs[j]) {
        lemma_bayer_from_none(hs, 0);
    }
}

/// Where no record from `k` on is a Bayer record, there is no pattern.
proof fn lemma_bayer_from_none(hs: Seq<FITSHeader>, k: int)
    requires
        0 <= k,
        forall|j: int| 0 <= j < hs.len() ==> !is_bayer_record(#[trigger] hs[j]),
    ensures
        bayer_from(hs, k) is None,
    decreases hs.len() - k,
{
    if k < hs.len() {
        assert(!is_bayer_record(hs[k]));
        lemma_bayer_from_none(hs, k + 1);
    }
}

/// A cell takes red from an `R`, blue from a `B`, and green from any other
/// letter or where the pattern has no letter for it.
pub proof fn law_bayer_cell_letters(p: Seq<char>, i: int)
    requires
        0 <= i < 4,
    ensures
        i < p.len() && p[i] == 'R' ==> cell_channel(p, i) == 0,
        i < p.len() && p[i] == 'B' ==> cell_channel(p, i) == 2,
        i < p.len() && p[i] != 'R' && p[i] != 'B' ==> cell_channel(p, i) == 1,
        i >= p.len() ==> cell_channel(p, i) == 1,
{
}

/// Return the Bayer pattern string (e.g. "RGGB") if the HDU contains a BAYERPAT keyword.
pub fn extract_bayer_pattern(hdu: &HDU) -> (r: Option<String>)
    ensures
        match bayer_from(hdu.headers@, 0) {
            Some(p) => r matches Some(s) && s@ == p,
            None => r is None,
        },
{
    let hs = &hdu.headers;
    let mut i: usize = 0;
    while i < hs.len()
        invariant
            hs@ == hdu.headers@,
            i <= hs@.len(),
            bayer_from(hs@, 0) == bayer_from(hs@, i as int),
        decreases hs@.len() - i,
    {
        let h = &hs[i];
        if h.key[8] == 61u8 {
            let k = keyword_of(h);
            if chars_eq_str(k.as_slice(), "BAYERPAT") {
                let v = unquoted_of(h);
                let vs = string_of(v.as_slice());
                let up = str_to_uppercase(vs.as_str());
                let upc = crate::text::chars_of(up.as_str());
                if upc.len() > 0 {
                    assert(up@ == unicode_uppercase(entry_unquoted(*h)));
                    return Some(up);
                }
            }
        }
        i = i + 1;
    }
    None
}

/// The colour channel that a Bayer pattern letter names: 0 for `R`, 2 for
/// `B`, and 1 (green) for any other letter.
pub open spec fn channel_of(c: char) -> usize {
    if c == 'R' {
        0
    } else if c == 'B' {
        2
    } else {
        1
    }
}

/// The channel of cell `i` of a 2×2 Bayer cell (reading order: top-left,
/// top-right, bottom-left, bottom-right) under the pattern `p`; a cell past
/// the end of the pattern is green.
pub open spec fn cell_channel(p: Seq<char>, i: int) -> usize {
    if i < p.len() {
        channel_of(p[i])
    } else {
        1
    }
}

/// The channels of the four cells of a 2×2 Bayer cell, read from the first
/// four letters of `pattern`.
pub fn bayer_cell_channels(pattern: &str) -> (ch: [usize; 4])
    ensures
        forall|i: int| 0 <= i < 4 ==> #[trigger] ch@[i] == cell_channel(pattern@, i),
{
    let cs = crate::text::chars_of(pattern);
    let mut ch: [usize; 4] = [1, 1, 1, 1];
    let mut i: usize = 0;
    while i < 4 && i < cs.len()
        invariant
            cs@ == pattern@,
            i <= 4,
            forall|j: int| 0 <= j < i ==> #[trigger] ch@[j] == cell_channel(pattern@, j),
            forall|j: int| i <= j < 4 ==> #[trigger] ch@[j] == 1,
        decreases 4 - i,
    {
        let c = cs[i];
        let v: usize = if c == 'R' {
            0
        } else if c == 'B' {
            2
        } else {
            1
        };
        ch[i] = v;
        i = i + 1;
    }
    ch
}

/// Where, in a row-major image `width` pixels wide and `height` high, cell
/// `cell` (reading order) of the 2×2 Bayer cell behind output pixel
/// (`ox`, `oy`) of the half-size image lies.
pub fn bayer_source_index(width: usize, height: usize, ox: usize, oy: usize, cell: usize) -> (i: usize)
    requires
        ox < width / 2,
        oy < height / 2,
        cell < 4,
        width * height <= usize::MAX,
    ensures
        i == (2 * oy + cell / 2) * width + 2 * ox + cell % 2,
        i < width * height,
{
    let dr: usize = cell / 2;
    let dc: usize = cell % 2;
    let row: usize = oy * 2 + dr;
    let col: usize = ox * 2 + dc;
    assert(row < height && col < width);
    assert(row * width + col < width * height) by (nonlinear_arith)
        requires
            row < height,
            col < width,
    {
        assert(row * width <= (height - 1) * width);
        assert((height - 1) * width == height * width - width);
    }
    assert(row * width <= usize::MAX) by (nonlinear_arith)
        requires
            row < height,
            width * height <= usize::MAX,
    ;
    row * width + col
}


// ───────────────────────── descriptive keywords ─────────────────────────

/// The keywords shown, each with its label, in the order shown.  Where two
/// keywords share a label, the first one present is shown.
pub open spec fn wanted() -> Seq<(Seq<char>, Seq<char>)> {
    seq![
        ("OBJECT"@, "Object"@),
        ("TARGNAME"@, "Target"@),
        ("DATE-OBS"@, "Date (obs)"@),
        ("DATE-BEG"@, "Date (begin)"@),
        ("EXPTIME"@, "Exposure"@),
        ("EXPOSURE"@, "Exposure"@),
        ("TELESCOP"@, "Telescope"@),
        ("INSTRUME"@, "Instrument"@),
        ("FILTER"@, "Filter"@),
        ("FILTER1"@, "Filter 1"@),
        ("FILTER2"@, "Filter 2"@),
        ("OBSERVER"@, "Observer"@),
        ("ORIGIN"@, "Origin"@),
        ("RA"@, "RA"@),
        ("DEC"@, "Dec"@),
        ("EQUINOX"@, "Equinox"@),
        ("BITPIX"@, "Bit depth"@),
        ("NAXIS1"@, "Width (px)"@),
        ("NAXIS2"@, "Height (px)"@),
        ("BSCALE"@, "BScale"@),
        ("BZERO"@, "BZero"@),
    ]
}

/// The keywords shown with their labels.
fn wanted_fields() -> (r: Vec<(&'static str, &'static str)>)
    ensures
        r@.map_values(|p: (&str, &str)| (p.0@, p.1@)) == wanted(),
{
    let mut r: Vec<(&'static str, &'static str)> = Vec::new();
    r.push(("OBJECT", "Object"));
    r.push(("TARGNAME", "Target"));
    r.push(("DATE-OBS", "Date (obs)"));
    r.push(("DATE-BEG", "Date (begin)"));
    r.push(("EXPTIME", "Exposure"));
    r.push(("EXPOSURE", "Exposure"));
    r.push(("TELESCOP", "Telescope"));
    r.push(("INSTRUME", "Instrument"));
    r.push(("FILTER", "Filter"));
    r.push(("FILTER1", "Filter 1"));
    r.push(("FILTER2", "Filter 2"));
    r.push(("OBSERVER", "Observer"));
    r.push(("ORIGIN", "Origin"));
    r.push(("RA", "RA"));
    r.push(("DEC", "Dec"));
    r.push(("EQUINOX", "Equinox"));
    r.push(("BITPIX", "Bit depth"));
    r.push(("NAXIS1", "Width (px)"));
    r.push(("NAXIS2", "Height (px)"));
    r.push(("BSCALE", "BScale"));
    r.push(("BZERO", "BZero"));
    assert(r@.map_values(|p: (&str, &str)| (p.0@, p.1@)) =~= wanted());
    r
}

/// The nonempty value of the last valued record named `key` among `hs`
/// (a later record replaces an earlier one).
pub open spec fn last_value(hs: Seq<FITSHeader>, key: Seq<char>) -> Option<Seq<char>>
    decreases hs.len(),
{
    if hs.len() == 0 {
        None
    } else {
        let h = hs.last();
        if has_value(h) && entry_keyword(h) == key && entry_unquoted(h).len() > 0 {
            Some(entry_unquoted(h))
        } else {
            last_value(hs.drop_last(), key)
        }
    }
}

/// Whether a row with the label `label` is among `rows`.
pub open spec fn has_label(rows: Seq<(Seq<char>, Seq<char>)>, label: Seq<char>) -> bool {
    exists|i: int| 0 <= i < rows.len() && (#[trigger] rows[i]).0 == label
}

/// The rows shown for the wanted keywords `ws`: for each, in order, its
/// label and value where it has a value and its label is not shown yet.
pub open spec fn info_rows(hs: Seq<FITSHeader>, ws: Seq<(Seq<char>, Seq<char>)>) -> Seq<(Seq<char>, Seq<char>)>
    decreases ws.len(),
{
    if ws.len() == 0 {
        Seq::empty()
    } else {
        let prev = info_rows(hs, ws.drop_last());
        let (key, label) = ws.last();
        if has_label(prev, label) {
            prev
        } else {
            match last_value(hs, key) {
                Some(v) => prev.push((label, v)),
                None => prev,
            }
        }
    }
}

/// The value of the last valued record named `key`, if not empty.
fn last_value_exec(hs: &Vec<FITSHeader>, key: &str) -> (r: Option<Vec<char>>)
    ensures
        match last_value(hs@, key@) {
            Some(v) => r matches Some(x) && x@ == v,
            None => r is None,
        },
{
    let mut i: usize = hs.len();
    assert(hs@.take(hs@.len() as int) =~= hs@);
    while i > 0
        invariant
            i <= hs@.len(),
            last_value(hs@, key@) == last_value(hs@.take(i as int), key@),
        decreases i,
    {
        let h = &hs[i - 1];
        assert(hs@.take(i as int).last() == *h);
        assert(hs@.take(i as int).drop_last() =~= hs@.take(i - 1));
        if h.key[8] == 61u8 {
            let k = keyword_of(h);
            if chars_eq_str(k.as_slice(), key) {
                let v = unquoted_of(h);
                if v.len() > 0 {
                    return Some(v);
                }
            }
        }
        i = i - 1;
    }
    None
}

/// Whether `rows` holds the row `(label, v)`.
pub open spec fn has_row(rows: Seq<(Seq<char>, Seq<char>)>, label: Seq<char>, v: Seq<char>) -> bool {
    exists|i: int| 0 <= i < rows.len() && rows[i] == (label, v)
}

/// Every row shown carries the label of a wanted keyword that has a value.
pub proof fn lemma_info_row_labels(hs: Seq<FITSHeader>, ws: Seq<(Seq<char>, Seq<char>)>, l: Seq<char>)
    requires
        has_label(info_rows(hs, ws), l),
    ensures
        exists|j: int| 0 <= j < ws.len() && (#[trigger] ws[j]).1 == l && last_value(hs, ws[j].0) is Some,
    decreases ws.len(),
{
    let init = ws.drop_last();
    let prev = info_rows(hs, init);
    let (key, label) = ws.last();
    let rows = info_rows(hs, ws);
    let i = choose|i: int| 0 <= i < rows.len() && (#[trigger] rows[i]).0 == l;
    if i < prev.len() && (rows == prev || rows == prev.push((label, last_value(hs, key)->0))) {
        assert(rows[i] == prev[i]);
        assert(has_label(prev, l));
        lemma_info_row_labels(hs, init, l);
        let j = choose|j: int| 0 <= j < init.len() && (#[trigger] init[j]).1 == l && last_value(hs, init[j].0) is Some;
        assert(ws[j] == init[j]);
    } else {
        assert(ws[ws.len() - 1] == ws.last());
    }
}

/// The wanted keyword `ws[j]` with the value `v` is shown as the row
/// `(label, v)` when no earlier wanted keyword with that label has a value.
pub proof fn lemma_info_rows_has(hs: Seq<FITSHeader>, ws: Seq<(Seq<char>, Seq<char>)>, j: int, v: Seq<char>)
    requires
        0 <= j < ws.len(),
        last_value(hs, ws[j].0) == Some(v),
        forall|j2: int| 0 <= j2 < j && (#[trigger] ws[j2]).1 == ws[j].1 ==> last_value(hs, ws[j2].0) is None,
    ensures
        has_row(info_rows(hs, ws), ws[j].1, v),
    decreases ws.len(),
{
    let init = ws.drop_last();
    let prev = info_rows(hs, init);
    let rows = info_rows(hs, ws);
    if j < ws.len() - 1 {
        assert(init[j] == ws[j]);
        assert forall|j2: int| 0 <= j2 < j && (#[trigger] init[j2]).1 == init[j].1 implies last_value(
            hs,
            init[j2].0,
        ) is None by {
            assert(init[j2] == ws[j2]);
        }
        lemma_info_rows_has(hs, init, j, v);
        let i = choose|i: int| 0 <= i < prev.len() && prev[i] == (ws[j].1, v);
        if rows != prev {
            assert(rows[i] == prev[i]);
        }
        assert(rows[i] == (ws[j].1, v));
    } else {
        assert(ws.last() == ws[j]);
        if has_label(prev, ws[j].1) {
            lemma_info_row_labels(hs, init, ws[j].1);
            let j2 = choose|j2: int| 0 <= j2 < init.len() && (#[trigger] init[j2]).1 == ws[j].1 && last_value(hs, init[j2].0) is Some;
            assert(init[j2] == ws[j2]);
            assert(false);
        }
        assert(rows == prev.push((ws[j].1, v)));
        assert(rows[prev.len() as int] == (ws[j].1, v));
    }
}

/// Whether no wanted keyword before position `k` has the label of `ws[j]`.
pub open spec fn label_unseen(ws: Seq<(Seq<char>, Seq<char>)>, j: int, k: int) -> bool
    decreases k,
{
    if k <= 0 {
        true
    } else {
        ws[k - 1].1 != ws[j].1 && label_unseen(ws, j, k - 1)
    }
}

/// `label_unseen` holds of every earlier position.
pub proof fn lemma_label_unseen(ws: Seq<(Seq<char>, Seq<char>)>, j: int, k: int)
    requires
        label_unseen(ws, j, k),
    ensures
        forall|j2: int| 0 <= j2 < k ==> (#[trigger] ws[j2]).1 != ws[j].1,
    decreases k,
{
    if k > 0 {
        lemma_label_unseen(ws, j, k - 1);
    }
}

/// The labels of the wanted keywords: each is new at its position, but
/// for `EXPOSURE`, which shares `EXPTIME`'s.
proof fn lemma_wanted_labels()
    ensures
        wanted()[0] == ("OBJECT"@, "Object"@),
        wanted()[1] == ("TARGNAME"@, "Target"@),
        wanted()[2] == ("DATE-OBS"@, "Date (obs)"@),
        wanted()[3] == ("DATE-BEG"@, "Date (begin)"@),
        wanted()[4] == ("EXPTIME"@, "Exposure"@),
        wanted()[5] == ("EXPOSURE"@, "Exposure"@),
        wanted()[6] == ("TELESCOP"@, "Telescope"@),
        wanted()[7] == ("INSTRUME"@, "Instrument"@),
        wanted()[8] == ("FILTER"@, "Filter"@),
        wanted()[9] == ("FILTER1"@, "Filter 1"@),
        wanted()[10] == ("FILTER2"@, "Filter 2"@),
        wanted()[11] == ("OBSERVER"@, "Observer"@),
        wanted()[12] == ("ORIGIN"@, "Origin"@),
        wanted()[13] == ("RA"@, "RA"@),
        wanted()[14] == ("DEC"@, "Dec"@),
        wanted()[15] == ("EQUINOX"@, "Equinox"@),
        wanted()[16] == ("BITPIX"@, "Bit depth"@),
        wanted()[17] == ("NAXIS1"@, "Width (px)"@),
        wanted()[18] == ("NAXIS2"@, "Height (px)"@),
        wanted()[19] == ("BSCALE"@, "BScale"@),
        wanted()[20] == ("BZERO"@, "BZero"@),
        label_unseen(wanted(), 0, 0),
        label_unseen(wanted(), 1, 1),
        label_unseen(wanted(), 2, 2),
        label_unseen(wanted(), 3, 3),
        label_unseen(wanted(), 4, 4),
        label_unseen(wanted(), 5, 4),
        label_unseen(wanted(), 6, 6),
        label_unseen(wanted(), 7, 7),
        label_unseen(wanted(), 8, 8),
        label_unseen(wanted(), 9, 9),
        label_unseen(wanted(), 10, 10),
        label_unseen(wanted(), 11, 11),
        label_unseen(wanted(), 12, 12),
        label_unseen(wanted(), 13, 13),
        label_unseen(wanted(), 14, 14),
        label_unseen(wanted(), 15, 15),
        label_unseen(wanted(), 16, 16),
        label_unseen(wanted(), 17, 17),
        label_unseen(wanted(), 18, 18),
        label_unseen(wanted(), 19, 19),
        label_unseen(wanted(), 20, 20),
{
    reveal_strlit("BScale");
    reveal_strlit("BZero");
    reveal_strlit("Bit depth");
    reveal_strlit("Date (begin)");
    reveal_strlit("Date (obs)");
    reveal_strlit("Dec");
    reveal_strlit("Equinox");
    reveal_strlit("Exposure");
    reveal_strlit("Filter");
    reveal_strlit("Filter 1");
    reveal_strlit("Filter 2");
    reveal_strlit("Height (px)");
    reveal_strlit("Instrument");
    reveal_strlit("Object");
    reveal_strlit("Observer");
    reveal_strlit("Origin");
    reveal_strlit("RA");
    reveal_strlit("Target");
    reveal_strlit("Telescope");
    reveal_strlit("Width (px)");
    assert("Target"@[0] != "Object"@[0]);
    assert("Instrument"@[0] != "Date (obs)"@[0]);
    assert("Filter"@[0] != "Object"@[0]);
    assert("Filter"@[0] != "Target"@[0]);
    assert("Filter 1"@[0] != "Exposure"@[0]);
    assert("Filter 1"@[0] != "Exposure"@[0]);
    assert("Filter 2"@[0] != "Exposure"@[0]);
    assert("Filter 2"@[0] != "Exposure"@[0]);
    assert("Filter 2"@[7] != "Filter 1"@[7]);
    assert("Observer"@[0] != "Exposure"@[0]);
    assert("Observer"@[0] != "Exposure"@[0]);
    assert("Observer"@[0] != "Filter 1"@[0]);
    assert("Observer"@[0] != "Filter 2"@[0]);
    assert("Origin"@[1] != "Object"@[1]);
    assert("Origin"@[0] != "Target"@[0]);
    assert("Origin"@[0] != "Filter"@[0]);
    assert("Bit depth"@[0] != "Telescope"@[0]);
    assert("Width (px)"@[0] != "Date (obs)"@[0]);
    assert("Width (px)"@[0] != "Instrument"@[0]);
    assert("BScale"@[0] != "Object"@[0]);
    assert("BScale"@[0] != "Target"@[0]);
    assert("BScale"@[0] != "Filter"@[0]);
    assert("BScale"@[0] != "Origin"@[0]);
    assert("BScale"@.len() == 6);
    assert("BZero"@.len() == 5);
    assert("Bit depth"@.len() == 9);
    assert("Date (begin)"@.len() == 12);
    assert("Date (obs)"@.len() == 10);
    assert("Dec"@.len() == 3);
    assert("Equinox"@.len() == 7);
    assert("Exposure"@.len() == 8);
    assert("Filter"@.len() == 6);
    assert("Filter 1"@.len() == 8);
    assert("Filter 2"@.len() == 8);
    assert("Height (px)"@.len() == 11);
    assert("Instrument"@.len() == 10);
    assert("Object"@.len() == 6);
    assert("Observer"@.len() == 8);
    assert("Origin"@.len() == 6);
    assert("RA"@.len() == 2);
    assert("Target"@.len() == 6);
    assert("Telescope"@.len() == 9);
    assert("Width (px)"@.len() == 10);
    assert(wanted()[0] == ("OBJECT"@, "Object"@));
    assert(wanted()[1] == ("TARGNAME"@, "Target"@));
    assert(wanted()[2] == ("DATE-OBS"@, "Date (obs)"@));
    assert(wanted()[3] == ("DATE-BEG"@, "Date (begin)"@));
    assert(wanted()[4] == ("EXPTIME"@, "Exposure"@));
    assert(wanted()[5] == ("EXPOSURE"@, "Exposure"@));
    assert(wanted()[6] == ("TELESCOP"@, "Telescope"@));
    assert(wanted()[7] == ("INSTRUME"@, "Instrument"@));
    assert(wanted()[8] == ("FILTER"@, "Filter"@));
    assert(wanted()[9] == ("FILTER1"@, "Filter 1"@));
    assert(wanted()[10] == ("FILTER2"@, "Filter 2"@));
    assert(wanted()[11] == ("OBSERVER"@, "Observer"@));
    assert(wanted()[12] == ("ORIGIN"@, "Origin"@));
    assert(wanted()[13] == ("RA"@, "RA"@));
    assert(wanted()[14] == ("DEC"@, "Dec"@));
    assert(wanted()[15] == ("EQUINOX"@, "Equinox"@));
    assert(wanted()[16] == ("BITPIX"@, "Bit depth"@));
    assert(wanted()[17] == ("NAXIS1"@, "Width (px)"@));
    assert(wanted()[18] == ("NAXIS2"@, "Height (px)"@));
    assert(wanted()[19] == ("BSCALE"@, "BScale"@));
    assert(wanted()[20] == ("BZERO"@, "BZero"@));
    assert(label_unseen(wanted(), 0, 0)) by {
        reveal_with_fuel(label_unseen, 1);
    }
    assert(label_unseen(wanted(), 1, 1)) by {
        assert(wanted()[0].1 != wanted()[1].1);
        reveal_with_fuel(label_unseen, 2);
    }
    assert(label_unseen(wanted(), 2, 2)) by {
        assert(wanted()[0].1 != wanted()[2].1);
        assert(wanted()[1].1 != wanted()[2].1);
        reveal_with_fuel(label_unseen, 3);
    }
    assert(label_unseen(wanted(), 3, 3)) by {
        assert(wanted()[0].1 != wanted()[3].1);
        assert(wanted()[1].1 != wanted()[3].1);
        assert(wanted()[2].1 != wanted()[3].1);
        reveal_with_fuel(label_unseen, 4);
    }
    assert(label_unseen(wanted(), 4, 4)) by {
        assert(wanted()[0].1 != wanted()[4].1);
        assert(wanted()[1].1 != wanted()[4].1);
        assert(wanted()[2].1 != wanted()[4].1);
        assert(wanted()[3].1 != wanted()[4].1);
        reveal_with_fuel(label_unseen, 5);
    }
    assert(label_unseen(wanted(), 5, 4)) by {
        assert(wanted()[0].1 != wanted()[5].1);
        assert(wanted()[1].1 != wanted()[5].1);
        assert(wanted()[2].1 != wanted()[5].1);
        assert(wanted()[3].1 != wanted()[5].1);
        reveal_with_fuel(label_unseen, 5);
    }
    assert(label_unseen(wanted(), 6, 6)) by {
        assert(wanted()[0].1 != wanted()[6].1);
        assert(wanted()[1].1 != wanted()[6].1);
        assert(wanted()[2].1 != wanted()[6].1);
        assert(wanted()[3].1 != wanted()[6].1);
        assert(wanted()[4].1 != wanted()[6].1);
        assert(wanted()[5].1 != wanted()[6].1);
        reveal_with_fuel(label_unseen, 7);
    }
    assert(label_unseen(wanted(), 7, 7)) by {
        assert(wanted()[0].1 != wanted()[7].1);
        assert(wanted()[1].1 != wanted()[7].1);
        assert(wanted()[2].1 != wanted()[7].1);
        assert(wanted()[3].1 != wanted()[7].1);
        assert(wanted()[4].1 != wanted()[7].1);
        assert(wanted()[5].1 != wanted()[7].1);
        assert(wanted()[6].1 != wanted()[7].1);
        reveal_with_fuel(label_unseen, 8);
    }
    assert(label_unseen(wanted(), 8, 8)) by {
        assert(wanted()[0].1 != wanted()[8].1);
        assert(wanted()[1].1 != wanted()[8].1);
        assert(wanted()[2].1 != wanted()[8].1);
        assert(wanted()[3].1 != wanted()[8].1);
        assert(wanted()[4].1 != wanted()[8].1);
        assert(wanted()[5].1 != wanted()[8].1);
        assert(wanted()[6].1 != wanted()[8].1);
        assert(wanted()[7].1 != wanted()[8].1);
        reveal_with_fuel(label_unseen, 9);
    }
    assert(label_unseen(wanted(), 9, 9)) by {
        assert(wanted()[0].1 != wanted()[9].1);
        assert(wanted()[1].1 != wanted()[9].1);
        assert(wanted()[2].1 != wanted()[9].1);
        assert(wanted()[3].1 != wanted()[9].1);
        assert(wanted()[4].1 != wanted()[9].1);
        assert(wanted()[5].1 != wanted()[9].1);
        assert(wanted()[6].1 != wanted()[9].1);
        assert(wanted()[7].1 != wanted()[9].1);
        assert(wanted()[8].1 != wanted()[9].1);
        reveal_with_fuel(label_unseen, 10);
    }
    assert(label_unseen(wanted(), 10, 10)) by {
        assert(wanted()[0].1 != wanted()[10].1);
        assert(wanted()[1].1 != wanted()[10].1);
        assert(wanted()[2].1 != wanted()[10].1);
        assert(wanted()[3].1 != wanted()[10].1);
        assert(wanted()[4].1 != wanted()[10].1);
        assert(wanted()[5].1 != wanted()[10].1);
        assert(wanted()[6].1 != wanted()[10].1);
        assert(wanted()[7].1 != wanted()[10].1);
        assert(wanted()[8].1 != wanted()[10].1);
        assert(wanted()[9].1 != wanted()[10].1);
        reveal_with_fuel(label_unseen, 11);
    }
    assert(label_unseen(wanted(), 11, 11)) by {
        assert(wanted()[0].1 != wanted()[11].1);
        assert(wanted()[1].1 != wanted()[11].1);
        assert(wanted()[2].1 != wanted()[11].1);
        assert(wanted()[3].1 != wanted()[11].1);
        assert(wanted()[4].1 != wanted()[11].1);
        assert(wanted()[5].1 != wanted()[11].1);
        assert(wanted()[6].1 != wanted()[11].1);
        assert(wanted()[7].1 != wanted()[11].1);
        assert(wanted()[8].1 != wanted()[11].1);
        assert(wanted()[9].1 != wanted()[11].1);
        assert(wanted()[10].1 != wanted()[11].1);
        reveal_with_fuel(label_unseen, 12);
    }
    assert(label_unseen(wanted(), 12, 12)) by {
        assert(wanted()[0].1 != wanted()[12].1);
        assert(wanted()[1].1 != wanted()[12].1);
        assert(wanted()[2].1 != wanted()[12].1);
        assert(wanted()[3].1 != wanted()[12].1);
        assert(wanted()[4].1 != wanted()[12].1);
        assert(wanted()[5].1 != wanted()[12].1);
        assert(wanted()[6].1 != wanted()[12].1);
        assert(wanted()[7].1 != wanted()[12].1);
        assert(wanted()[8].1 != wanted()[12].1);
        assert(wanted()[9].1 != wanted()[12].1);
        assert(wanted()[10].1 != wanted()[12].1);
        assert(wanted()[11].1 != wanted()[12].1);
        reveal_with_fuel(label_unseen, 13);
    }
    assert(label_unseen(wanted(), 13, 13)) by {
        assert(wanted()[0].1 != wanted()[13].1);
        assert(wanted()[1].1 != wanted()[13].1);
        assert(wanted()[2].1 != wanted()[13].1);
        assert(wanted()[3].1 != wanted()[13].1);
        assert(wanted()[4].1 != wanted()[13].1);
        assert(wanted()[5].1 != wanted()[13].1);
        assert(wanted()[6].1 != wanted()[13].1);
        assert(wanted()[7].1 != wanted()[13].1);
        assert(wanted()[8].1 != wanted()[13].1);
        assert(wanted()[9].1 != wanted()[13].1);
        assert(wanted()[10].1 != wanted()[13].1);
        assert(wanted()[11].1 != wanted()[13].1);
        assert(wanted()[12].1 != wanted()[13].1);
        reveal_with_fuel(label_unseen, 14);
    }
    assert(label_unseen(wanted(), 14, 14)) by {
        assert(wanted()[0].1 != wanted()[14].1);
        assert(wanted()[1].1 != wanted()[14].1);
        assert(wanted()[2].1 != wanted()[14].1);
        assert(wanted()[3].1 != wanted()[14].1);
        assert(wanted()[4].1 != wanted()[14].1);
        assert(wanted()[5].1 != wanted()[14].1);
        assert(wanted()[6].1 != wanted()[14].1);
        assert(wanted()[7].1 != wanted()[14].1);
        assert(wanted()[8].1 != wanted()[14].1);
        assert(wanted()[9].1 != wanted()[14].1);
        assert(wanted()[10].1 != wanted()[14].1);
        assert(wanted()[11].1 != wanted()[14].1);
        assert(wanted()[12].1 != wanted()[14].1);
        assert(wanted()[13].1 != wanted()[14].1);
        reveal_with_fuel(label_unseen, 15);
    }
    assert(label_unseen(wanted(), 15, 15)) by {
        assert(wanted()[0].1 != wanted()[15].1);
        assert(wanted()[1].1 != wanted()[15].1);
        assert(wanted()[2].1 != wanted()[15].1);
        assert(wanted()[3].1 != wanted()[15].1);
        assert(wanted()[4].1 != wanted()[15].1);
        assert(wanted()[5].1 != wanted()[15].1);
        assert(wanted()[6].1 != wanted()[15].1);
        assert(wanted()[7].1 != wanted()[15].1);
        assert(wanted()[8].1 != wanted()[15].1);
        assert(wanted()[9].1 != wanted()[15].1);
        assert(wanted()[10].1 != wanted()[15].1);
        assert(wanted()[11].1 != wanted()[15].1);
        assert(wanted()[12].1 != wanted()[15].1);
        assert(wanted()[13].1 != wanted()[15].1);
        assert(wanted()[14].1 != wanted()[15].1);
        reveal_with_fuel(label_unseen, 16);
    }
    assert(label_unseen(wanted(), 16, 16)) by {
        assert(wanted()[0].1 != wanted()[16].1);
        assert(wanted()[1].1 != wanted()[16].1);
        assert(wanted()[2].1 != wanted()[16].1);
        assert(wanted()[3].1 != wanted()[16].1);
        assert(wanted()[4].1 != wanted()[16].1);
        assert(wanted()[5].1 != wanted()[16].1);
        assert(wanted()[6].1 != wanted()[16].1);
        assert(wanted()[7].1 != wanted()[16].1);
        assert(wanted()[8].1 != wanted()[16].1);
        assert(wanted()[9].1 != wanted()[16].1);
        assert(wanted()[10].1 != wanted()[16].1);
        assert(wanted()[11].1 != wanted()[16].1);
        assert(wanted()[12].1 != wanted()[16].1);
        assert(wanted()[13].1 != wanted()[16].1);
        assert(wanted()[14].1 != wanted()[16].1);
        assert(wanted()[15].1 != wanted()[16].1);
        reveal_with_fuel(label_unseen, 17);
    }
    assert(label_unseen(wanted(), 17, 17)) by {
        assert(wanted()[0].1 != wanted()[17].1);
        assert(wanted()[1].1 != wanted()[17].1);
        assert(wanted()[2].1 != wanted()[17].1);
        assert(wanted()[3].1 != wanted()[17].1);
        assert(wanted()[4].1 != wanted()[17].1);
        assert(wanted()[5].1 != wanted()[17].1);
        assert(wanted()[6].1 != wanted()[17].1);
        assert(wanted()[7].1 != wanted()[17].1);
        assert(wanted()[8].1 != wanted()[17].1);
        assert(wanted()[9].1 != wanted()[17].1);
        assert(wanted()[10].1 != wanted()[17].1);
        assert(wanted()[11].1 != wanted()[17].1);
        assert(wanted()[12].1 != wanted()[17].1);
        assert(wanted()[13].1 != wanted()[17].1);
        assert(wanted()[14].1 != wanted()[17].1);
        assert(wanted()[15].1 != wanted()[17].1);
        assert(wanted()[16].1 != wanted()[17].1);
        reveal_with_fuel(label_unseen, 18);
    }
    assert(label_unseen(wanted(), 18, 18)) by {
        assert(wanted()[0].1 != wanted()[18].1);
        assert(wanted()[1].1 != wanted()[18].1);
        assert(wanted()[2].1 != wanted()[18].1);
        assert(wanted()[3].1 != wanted()[18].1);
        assert(wanted()[4].1 != wanted()[18].1);
        assert(wanted()[5].1 != wanted()[18].1);
        assert(wanted()[6].1 != wanted()[18].1);
        assert(wanted()[7].1 != wanted()[18].1);
        assert(wanted()[8].1 != wanted()[18].1);
        assert(wanted()[9].1 != wanted()[18].1);
        assert(wanted()[10].1 != wanted()[18].1);
        assert(wanted()[11].1 != wanted()[18].1);
        assert(wanted()[12].1 != wanted()[18].1);
        assert(wanted()[13].1 != wanted()[18].1);
        assert(wanted()[14].1 != wanted()[18].1);
        assert(wanted()[15].1 != wanted()[18].1);
        assert(wanted()[16].1 != wanted()[18].1);
        assert(wanted()[17].1 != wanted()[18].1);
        reveal_with_fuel(label_unseen, 19);
    }
    assert(label_unseen(wanted(), 19, 19)) by {
        assert(wanted()[0].1 != wanted()[19].1);
        assert(wanted()[1].1 != wanted()[19].1);
        assert(wanted()[2].1 != wanted()[19].1);
        assert(wanted()[3].1 != wanted()[19].1);
        assert(wanted()[4].1 != wanted()[19].1);
        assert(wanted()[5].1 != wanted()[19].1);
        assert(wanted()[6].1 != wanted()[19].1);
        assert(wanted()[7].1 != wanted()[19].1);
        assert(wanted()[8].1 != wanted()[19].1);
        assert(wanted()[9].1 != wanted()[19].1);
        assert(wanted()[10].1 != wanted()[19].1);
        assert(wanted()[11].1 != wanted()[19].1);
        assert(wanted()[12].1 != wanted()[19].1);
        assert(wanted()[13].1 != wanted()[19].1);
        assert(wanted()[14].1 != wanted()[19].1);
        assert(wanted()[15].1 != wanted()[19].1);
        assert(wanted()[16].1 != wanted()[19].1);
        assert(wanted()[17].1 != wanted()[19].1);
        assert(wanted()[18].1 != wanted()[19].1);
        reveal_with_fuel(label_unseen, 20);
    }
    assert(label_unseen(wanted(), 20, 20)) by {
        assert(wanted()[0].1 != wanted()[20].1);
        assert(wanted()[1].1 != wanted()[20].1);
        assert(wanted()[2].1 != wanted()[20].1);
        assert(wanted()[3].1 != wanted()[20].1);
        assert(wanted()[4].1 != wanted()[20].1);
        assert(wanted()[5].1 != wanted()[20].1);
        assert(wanted()[6].1 != wanted()[20].1);
        assert(wanted()[7].1 != wanted()[20].1);
        assert(wanted()[8].1 != wanted()[20].1);
        assert(wanted()[9].1 != wanted()[20].1);
        assert(wanted()[10].1 != wanted()[20].1);
        assert(wanted()[11].1 != wanted()[20].1);
        assert(wanted()[12].1 != wanted()[20].1);
        assert(wanted()[13].1 != wanted()[20].1);
        assert(wanted()[14].1 != wanted()[20].1);
        assert(wanted()[15].1 != wanted()[20].1);
        assert(wanted()[16].1 != wanted()[20].1);
        assert(wanted()[17].1 != wanted()[20].1);
        assert(wanted()[18].1 != wanted()[20].1);
        assert(wanted()[19].1 != wanted()[20].1);
        reveal_with_fuel(label_unseen, 21);
    }
}

/// The descriptive keywords of the FITS standard are shown under their
/// labels: where a header gives `OBJECT`, `TARGNAME`, `DATE-OBS`, `DATE-BEG`,
/// `TELESCOP`, `INSTRUME`, `FILTER`, `FILTER1`, `FILTER2`, `OBSERVER`,
/// `ORIGIN`, `RA`, `DEC`, `EQUINOX`, `BITPIX`, `NAXIS1`, `NAXIS2`, `BSCALE` or
/// `BZERO` a nonempty value, its row holds that value; `Exposure` shows
/// `EXPTIME`, or `EXPOSURE` where there is no `EXPTIME`.
pub proof fn law_fits_info_shows_keywords(hs: Seq<FITSHeader>)
    ensures
        last_value(hs, "OBJECT"@) matches Some(v) ==> has_row(info_rows(hs, wanted()), "Object"@, v),
        last_value(hs, "TARGNAME"@) matches Some(v) ==> has_row(info_rows(hs, wanted()), "Target"@, v),
        last_value(hs, "DATE-OBS"@) matches Some(v) ==> has_row(info_rows(hs, wanted()), "Date (obs)"@, v),
        last_value(hs, "DATE-BEG"@) matches Some(v) ==> has_row(info_rows(hs, wanted()), "Date (begin)"@, v),
        last_value(hs, "EXPTIME"@) matches Some(v) ==> has_row(info_rows(hs, wanted()), "Exposure"@, v),
        last_value(hs, "EXPTIME"@) is None ==> (last_value(hs, "EXPOSURE"@) matches Some(v)
            ==> has_row(info_rows(hs, wanted()), "Exposure"@, v)),
        last_value(hs, "TELESCOP"@) matches Some(v) ==> has_row(info_rows(hs, wanted()), "Telescope"@, v),
        last_value(hs, "INSTRUME"@) matches Some(v) ==> has_row(info_rows(hs, wanted()), "Instrument"@, v),
        last_value(hs, "FILTER"@) matches Some(v) ==> has_row(info_rows(hs, wanted()), "Filter"@, v),
        last_value(hs, "FILTER1"@) matches Some(v) ==> has_row(info_rows(hs, wanted()), "Filter 1"@, v),
        last_value(hs, "FILTER2"@) matches Some(v) ==> has_row(info_rows(hs, wanted()), "Filter 2"@, v),
        last_value(hs, "OBSERVER"@) matches Some(v) ==> has_row(info_rows(hs, wanted()), "Observer"@, v),
        last_value(hs, "ORIGIN"@) matches Some(v) ==> has_row(info_rows(hs, wanted()), "Origin"@, v),
        last_value(hs, "RA"@) matches Some(v) ==> has_row(info_rows(hs, wanted()), "RA"@, v),
        last_value(hs, "DEC"@) matches Some(v) ==> has_row(info_rows(hs, wanted()), "Dec"@, v),
        last_value(hs, "EQUINOX"@) matches Some(v) ==> has_row(info_rows(hs, wanted()), "Equinox"@, v),
        last_value(hs, "BITPIX"@) matches Some(v) ==> has_row(info_rows(hs, wanted()), "Bit depth"@, v),
        last_value(hs, "NAXIS1"@) matches Some(v) ==> has_row(info_rows(hs, wanted()), "Width (px)"@, v),
        last_value(hs, "NAXIS2"@) matches Some(v) ==> has_row(info_rows(hs, wanted()), "Height (px)"@, v),
        last_value(hs, "BSCALE"@) matches Some(v) ==> has_row(info_rows(hs, wanted()), "BScale"@, v),
        last_value(hs, "BZERO"@) matches Some(v) ==> has_row(info_rows(hs, wanted()), "BZero"@, v),
{
    lemma_wanted_labels();
    let w = wanted();
    if let Some(v) = last_value(hs, "OBJECT"@) {
        lemma_label_unseen(w, 0, 0);
        lemma_info_rows_has(hs, w, 0, v);
    }
    if let Some(v) = last_value(hs, "TARGNAME"@) {
        lemma_label_unseen(w, 1, 1);
        lemma_info_rows_has(hs, w, 1, v);
    }
    if let Some(v) = last_value(hs, "DATE-OBS"@) {
        lemma_label_unseen(w, 2, 2);
        lemma_info_rows_has(hs, w, 2, v);
    }
    if let Some(v) = last_value(hs, "DATE-BEG"@) {
        lemma_label_unseen(w, 3, 3);
        lemma_info_rows_has(hs, w, 3, v);
    }
    if let Some(v) = last_value(hs, "EXPTIME"@) {
        lemma_label_unseen(w, 4, 4);
        lemma_info_rows_has(hs, w, 4, v);
    }
    if let Some(v) = last_value(hs, "EXPOSURE"@) {
        if last_value(hs, "EXPTIME"@) is None {
            lemma_label_unseen(w, 5, 4);
            lemma_info_rows_has(hs, w, 5, v);
        }
    }
    if let Some(v) = last_value(hs, "TELESCOP"@) {
        lemma_label_unseen(w, 6, 6);
        lemma_info_rows_has(hs, w, 6, v);
    }
    if let Some(v) = last_value(hs, "INSTRUME"@) {
        lemma_label_unseen(w, 7, 7);
        lemma_info_rows_has(hs, w, 7, v);
    }
    if let Some(v) = last_value(hs, "FILTER"@) {
        lemma_label_unseen(w, 8, 8);
        lemma_info_rows_has(hs, w, 8, v);
    }
    if let Some(v) = last_value(hs, "FILTER1"@) {
        lemma_label_unseen(w, 9, 9);
        lemma_info_rows_has(hs, w, 9, v);
    }
    if let Some(v) = last_value(hs, "FILTER2"@) {
        lemma_label_unseen(w, 10, 10);
        lemma_info_rows_has(hs, w, 10, v);
    }
    if let Some(v) = last_value(hs, "OBSERVER"@) {
        lemma_label_unseen(w, 11, 11);
        lemma_info_rows_has(hs, w, 11, v);
    }
    if let Some(v) = last_value(hs, "ORIGIN"@) {
        lemma_label_unseen(w, 12, 12);
        lemma_info_rows_has(hs, w, 12, v);
    }
    if let Some(v) = last_value(hs, "RA"@) {
        lemma_label_unseen(w, 13, 13);
        lemma_info_rows_has(hs, w, 13, v);
    }
    if let Some(v) = last_value(hs, "DEC"@) {
        lemma_label_unseen(w, 14, 14);
        lemma_info_rows_has(hs, w, 14, v);
    }
    if let Some(v) = last_value(hs, "EQUINOX"@) {
        lemma_label_unseen(w, 15, 15);
        lemma_info_rows_has(hs, w, 15, v);
    }
    if let Some(v) = last_value(hs, "BITPIX"@) {
        lemma_label_unseen(w, 16, 16);
        lemma_info_rows_has(hs, w, 16, v);
    }
    if let Some(v) = last_value(hs, "NAXIS1"@) {
        lemma_label_unseen(w, 17, 17);
        lemma_info_rows_has(hs, w, 17, v);
    }
    if let Some(v) = last_value(hs, "NAXIS2"@) {
        lemma_label_unseen(w, 18, 18);
        lemma_info_rows_has(hs, w, 18, v);
    }
    if let Some(v) = last_value(hs, "BSCALE"@) {
        lemma_label_unseen(w, 19, 19);
        lemma_info_rows_has(hs, w, 19, v);
    }
    if let Some(v) = last_value(hs, "BZERO"@) {
        lemma_label_unseen(w, 20, 20);
        lemma_info_rows_has(hs, w, 20, v);
    }
}

/// Extract human-readable metadata rows from an HDU's headers.
pub fn extract_fits_info(hdu: &HDU) -> (rows: Vec<(String, String)>)
    ensures
        rows@.map_values(|p: (String, String)| (p.0@, p.1@)) == info_rows(hdu.headers@, wanted()),
{
    let ws = wanted_fields();
    let ghost wv = ws@.map_values(|p: (&str, &str)| (p.0@, p.1@));
    let mut rows: Vec<(String, String)> = Vec::new();
    let mut n: usize = 0;
    assert(wv.take(0) =~= Seq::<(Seq<char>, Seq<char>)>::empty());
    assert(rows@.map_values(|p: (String, String)| (p.0@, p.1@)) =~= Seq::<(Seq<char>, Seq<char>)>::empty());
    while n < ws.len()
        invariant
            wv == ws@.map_values(|p: (&str, &str)| (p.0@, p.1@)),
            wv == wanted(),
            n <= ws@.len(),
            rows@.map_values(|p: (String, String)| (p.0@, p.1@)) == info_rows(hdu.headers@, wv.take(n as int)),
        decreases ws@.len() - n,
    {
        let (key, label) = ws[n];
        let ghost prev = rows@.map_values(|p: (String, String)| (p.0@, p.1@));
        assert(wv.take(n + 1).drop_last() =~= wv.take(n as int));
        assert(wv.take(n + 1).last() == (key@, label@));
        // Is the label shown already?
        let lc = crate::text::chars_of(label);
        let mut seen = false;
        let mut j: usize = 0;
        while j < rows.len()
            invariant
                j <= rows@.len(),
                lc@ == label@,
                prev == rows@.map_values(|p: (String, String)| (p.0@, p.1@)),
                seen == exists|t: int| 0 <= t < j && (#[trigger] prev[t]).0 == label@,
            decreases rows@.len() - j,
        {
            let rc = crate::text::chars_of(rows[j].0.as_str());
            if chars_eq(rc.as_slice(), lc.as_slice()) {
                seen = true;
            }
            assert(prev[j as int] == (rows@[j as int].0@, rows@[j as int].1@));
            j = j + 1;
        }
        assert(seen == has_label(prev, label@));
        if !seen {
            match last_value_exec(&hdu.headers, key) {
                Some(v) => {
                    let pair = (label.to_owned(), string_of(v.as_slice()));
                    rows.push(pair);
                    assert(rows@.map_values(|p: (String, String)| (p.0@, p.1@)) =~= prev.push(
                        (label@, v@),
                    ));
                },
                None => {},
            }
        }
        n = n + 1;
    }
    assert(wv.take(ws@.len() as int) =~= wv);
    rows
}


// ───────────────────────── image geometry ─────────────────────────

/// The integer keywords that place an image in a data unit.
pub struct ImageKeys {
    pub bitpix: int,
    pub naxis: int,
    pub naxis1: int,
    pub naxis2: int,
    pub naxis3: int,
}

/// The image keywords after the records `hs`; a later record replaces an
/// earlier one, and a value that does not read as an integer counts as 0.
pub open spec fn image_keys(hs: Seq<FITSHeader>) -> ImageKeys
    decreases hs.len(),
{
    if hs.len() == 0 {
        ImageKeys { bitpix: 0, naxis: 0, naxis1: 0, naxis2: 0, naxis3: 0 }
    } else {
        let k = image_keys(hs.drop_last());
        let h = hs.last();
        if !has_value(h) {
            k
        } else {
            let w = entry_keyword(h);
            let v = entry_text(h);
            if w == "BITPIX"@ {
                ImageKeys { bitpix: or_default(parse_signed(v, i32::MIN as int, i32::MAX as int), 0), ..k }
            } else if w == "NAXIS"@ {
                ImageKeys { naxis: or_default(usize_of(v), 0), ..k }
            } else if w == "NAXIS1"@ {
                ImageKeys { naxis1: or_default(usize_of(v), 0), ..k }
            } else if w == "NAXIS2"@ {
                ImageKeys { naxis2: or_default(usize_of(v), 0), ..k }
            } else if w == "NAXIS3"@ {
                ImageKeys { naxis3: or_default(usize_of(v), 0), ..k }
            } else {
                k
            }
        }
    }
}

/// The value text of the last valued record named `key` among `hs`, empty or not.
pub open spec fn last_text(hs: Seq<FITSHeader>, key: Seq<char>) -> Option<Seq<char>>
    decreases hs.len(),
{
    if hs.len() == 0 {
        None
    } else {
        let h = hs.last();
        if has_value(h) && entry_keyword(h) == key {
            Some(entry_text(h))
        } else {
            last_text(hs.drop_last(), key)
        }
    }
}

/// The value text of the last valued record named `key` (such as `BZERO`
/// or `BSCALE`, which a viewer reads as numbers), cut at `/` and trimmed.
pub fn last_entry_text(hdu: &HDU, key: &str) -> (r: Option<String>)
    ensures
        match last_text(hdu.headers@, key@) {
            Some(t) => r matches Some(s) && s@ == t,
            None => r is None,
        },
{
    let hs = &hdu.headers;
    let mut i: usize = hs.len();
    assert(hs@.take(i as int) =~= hs@);
    while i > 0
        invariant
            hs@ == hdu.headers@,
            i <= hs@.len(),
            last_text(hs@, key@) == last_text(hs@.take(i as int), key@),
        decreases i,
    {
        let h = &hs[i - 1];
        assert(hs@.take(i as int).last() == *h);
        assert(hs@.take(i as int).drop_last() =~= hs@.take(i - 1));
        if h.key[8] == 61u8 {
            let k = keyword_of(h);
            if chars_eq_str(k.as_slice(), key) {
                let v = text_of(h);
                return Some(string_of(v.as_slice()));
            }
        }
        i = i - 1;
    }
    None
}

/// A valued `BITPIX` record whose value is the decimal text of `b`, for any
/// `i32` `b` (the negative float codes included), sets the image's `BITPIX`
/// to `b`, whatever came before it.
pub proof fn law_bitpix_entry_sets_bitpix(hs: Seq<FITSHeader>, h: FITSHeader, b: i32)
    requires
        has_value(h),
        entry_keyword(h) == "BITPIX"@,
        entry_text(h) == crate::text::signed_decimal_chars(b as int),
    ensures
        image_keys(hs.push(h)).bitpix == b,
{
    crate::text::lemma_parse_signed_decimal(b as int, i32::MIN as int, i32::MAX as int);
    assert(hs.push(h).drop_last() =~= hs);
}

/// Valued `NAXIS`, `NAXIS1`, `NAXIS2` and `NAXIS3` records whose value is the
/// decimal text of `n` set that keyword of the image to `n`, whatever came
/// before them.
pub proof fn law_axis_entries_set_axes(hs: Seq<FITSHeader>, h: FITSHeader, n: usize)
    requires
        has_value(h),
        entry_text(h) == crate::text::decimal_chars(n as nat),
    ensures
        entry_keyword(h) == "NAXIS"@ ==> image_keys(hs.push(h)).naxis == n,
        entry_keyword(h) == "NAXIS1"@ ==> image_keys(hs.push(h)).naxis1 == n,
        entry_keyword(h) == "NAXIS2"@ ==> image_keys(hs.push(h)).naxis2 == n,
        entry_keyword(h) == "NAXIS3"@ ==> image_keys(hs.push(h)).naxis3 == n,
{
    crate::text::lemma_parse_unsigned_decimal(n as nat, usize::MAX as int);
    assert(hs.push(h).drop_last() =~= hs);
    reveal_strlit("BITPIX");
    reveal_strlit("NAXIS");
    reveal_strlit("NAXIS1");
    reveal_strlit("NAXIS2");
    reveal_strlit("NAXIS3");
    assert("BITPIX"@[0] != "NAXIS1"@[0]);
    assert("BITPIX"@[0] != "NAXIS2"@[0]);
    assert("BITPIX"@[0] != "NAXIS3"@[0]);
    assert("NAXIS"@.len() == 5 && "NAXIS1"@.len() == 6 && "NAXIS2"@.len() == 6 && "NAXIS3"@.len() == 6);
    assert("NAXIS1"@[5] != "NAXIS2"@[5]);
    assert("NAXIS1"@[5] != "NAXIS3"@[5]);
    assert("NAXIS2"@[5] != "NAXIS3"@[5]);
}

/// Where an image lies in a data unit: `width × height` pixels in
/// `nplanes` planes of `BITPIX` pixels, `byte_count` bytes in all.
#[derive(Debug, Clone, Copy, PartialEq, Eq, Structural)]
pub struct ImageLayout {
    pub width: usize,
    pub height: usize,
    pub nplanes: usize,
    pub bitpix: i32,
    pub byte_count: usize,
}

/// A `BITPIX` that an image can be decoded with.
pub open spec fn known_bitpix(b: int) -> bool {
    b == 8 || b == 16 || b == 32 || b == 64 || b == -32 || b == -64
}

/// The image that the header of `hs` describes in a data unit of `data_len`
/// bytes: `None` for fewer than two axes, an empty axis, a data unit too
/// short, or an unknown `BITPIX`.  Three planes where `NAXIS3 = 3`, else one.
pub open spec fn layout_spec(hs: Seq<FITSHeader>, data_len: int) -> Option<ImageLayout> {
    let k = image_keys(hs);
    if k.naxis < 2 || k.naxis1 == 0 || k.naxis2 == 0 {
        None
    } else {
        let nplanes: int = if k.naxis >= 3 && k.naxis3 == 3 {
            3
        } else {
            1
        };
        let bpp = crate::parsing::abs(k.bitpix) / 8;
        let byte_count = k.naxis1 * k.naxis2 * nplanes * bpp;
        if data_len < byte_count || !known_bitpix(k.bitpix) {
            None
        } else {
            Some(
                ImageLayout {
                    width: k.naxis1 as usize,
                    height: k.naxis2 as usize,
                    nplanes: nplanes as usize,
                    bitpix: k.bitpix as i32,
                    byte_count: byte_count as usize,
                },
            )
        }
    }
}

/// The axis keywords read from a header are `usize` values.
pub proof fn lemma_image_keys_range(hs: Seq<FITSHeader>)
    ensures
        0 <= image_keys(hs).naxis <= usize::MAX,
        0 <= image_keys(hs).naxis1 <= usize::MAX,
        0 <= image_keys(hs).naxis2 <= usize::MAX,
        0 <= image_keys(hs).naxis3 <= usize::MAX,
    decreases hs.len(),
{
    if hs.len() > 0 {
        lemma_image_keys_range(hs.drop_last());
        crate::parsing::lemma_usize_of_nonneg(entry_text(hs.last()));
    }
}

/// Every image with a `BITPIX` of the FITS set (8, 16, 32, 64, −32, −64), at
/// least two axes, nonzero `NAXIS1` and `NAXIS2`, and a data unit that holds
/// `NAXIS1 × NAXIS2 × planes` samples of 1, 2, 4 or 8 bytes is laid out:
/// `NAXIS1` wide, `NAXIS2` high, three planes exactly when `NAXIS3 = 3` on a
/// cube, with that `BITPIX` and that byte count.
pub proof fn law_image_layout_of_fits_images(hs: Seq<FITSHeader>, data_len: int)
    requires
        0 <= data_len <= usize::MAX,
        ({
            let k = image_keys(hs);
            let b = k.bitpix;
            let width: int = if b == 8 {
                1
            } else if b == 16 {
                2
            } else if b == 32 || b == -32 {
                4
            } else {
                8
            };
            let planes: int = if k.naxis >= 3 && k.naxis3 == 3 {
                3
            } else {
                1
            };
            &&& b == 8 || b == 16 || b == 32 || b == 64 || b == -32 || b == -64
            &&& k.naxis >= 2
            &&& k.naxis1 != 0
            &&& k.naxis2 != 0
            &&& data_len >= k.naxis1 * k.naxis2 * planes * width
        }),
    ensures
        ({
            let k = image_keys(hs);
            let b = k.bitpix;
            let width: int = if b == 8 {
                1
            } else if b == 16 {
                2
            } else if b == 32 || b == -32 {
                4
            } else {
                8
            };
            let planes: int = if k.naxis >= 3 && k.naxis3 == 3 {
                3
            } else {
                1
            };
            layout_spec(hs, data_len) matches Some(l) && l.width == k.naxis1 && l.height
                == k.naxis2 && l.nplanes == planes && l.bitpix == b && l.byte_count == k.naxis1
                * k.naxis2 * planes * width
        }),
{
    let k = image_keys(hs);
    lemma_image_keys_range(hs);
    let b = k.bitpix;
    let width: int = if b == 8 {
        1
    } else if b == 16 {
        2
    } else if b == 32 || b == -32 {
        4
    } else {
        8
    };
    assert(crate::parsing::abs(b) / 8 == width);
    let planes: int = if k.naxis >= 3 && k.naxis3 == 3 {
        3
    } else {
        1
    };
    let n1 = k.naxis1;
    let n2 = k.naxis2;
    assert(n1 * n2 * planes * width >= 0) by (nonlinear_arith)
        requires
            n1 >= 0,
            n2 >= 0,
            planes >= 1,
            width >= 1,
    ;
}

/// The image layout of a 2-D (or 3-plane) image HDU, where its header
/// describes one that its data unit holds.
pub fn image_layout(hdu: &HDU) -> (r: Option<ImageLayout>)
    ensures
        r == layout_spec(hdu.headers@, hdu.data.data@.len() as int),
{
    let hs = &hdu.headers;
    let mut bitpix: i32 = 0;
    let mut naxis: usize = 0;
    let mut naxis1: usize = 0;
    let mut naxis2: usize = 0;
    let mut naxis3: usize = 0;
    let mut i: usize = 0;
    assert(hs@.take(0) =~= Seq::<FITSHeader>::empty());
    while i < hs.len()
        invariant
            hs@ == hdu.headers@,
            i <= hs@.len(),
            image_keys(hs@.take(i as int)) == (ImageKeys {
                bitpix: bitpix as int,
                naxis: naxis as int,
                naxis1: naxis1 as int,
                naxis2: naxis2 as int,
                naxis3: naxis3 as int,
            }),
        decreases hs@.len() - i,
    {
        let h = &hs[i];
        assert(hs@.take(i + 1).drop_last() =~= hs@.take(i as int));
        assert(hs@.take(i + 1).last() == *h);
        if h.key[8] == 61u8 {
            let w = keyword_of(h);
            let v = text_of(h);
            if chars_eq_str(w.as_slice(), "BITPIX") {
                bitpix = match parse_i32(v.as_slice()) {
                    Some(x) => x,
                    None => 0,
                };
            } else if chars_eq_str(w.as_slice(), "NAXIS") {
                naxis = match parse_usize(v.as_slice()) {
                    Some(x) => x,
                    None => 0,
                };
            } else if chars_eq_str(w.as_slice(), "NAXIS1") {
                naxis1 = match parse_usize(v.as_slice()) {
                    Some(x) => x,
                    None => 0,
                };
            } else if chars_eq_str(w.as_slice(), "NAXIS2") {
                naxis2 = match parse_usize(v.as_slice()) {
                    Some(x) => x,
                    None => 0,
                };
            } else if chars_eq_str(w.as_slice(), "NAXIS3") {
                naxis3 = match parse_usize(v.as_slice()) {
                    Some(x) => x,
                    None => 0,
                };
            }
        }
        i = i + 1;
    }
    assert(hs@.take(hs@.len() as int) =~= hs@);
    if naxis < 2 || naxis1 == 0 || naxis2 == 0 {
        return None;
    }
    let nplanes: usize = if naxis >= 3 && naxis3 == 3 {
        3
    } else {
        1
    };
    let ab: u32 = if bitpix < 0 {
        (0i64 - bitpix as i64) as u32
    } else {
        bitpix as u32
    };
    let bpp: usize = (ab / 8) as usize;
    let dlen = hdu.data.data.len();
    let ghost exact = naxis1 * naxis2 * nplanes * bpp;
    let byte_count: usize = match naxis1.checked_mul(naxis2) {
        Some(a) => match a.checked_mul(nplanes) {
            Some(b) => match b.checked_mul(bpp) {
                Some(c) => c,
                None => {
                    return None;
                },
            },
            None => {
                proof {
                    assert(a * nplanes * bpp > usize::MAX || bpp == 0) by (nonlinear_arith)
                        requires
                            a * nplanes > usize::MAX,
                            bpp >= 0,
                    ;
                }
                if bpp == 0 {
                    0
                } else {
                    return None;
                }
            },
        },
        None => {
            proof {
                assert(naxis1 * naxis2 * nplanes * bpp > usize::MAX || bpp == 0) by (nonlinear_arith)
                    requires
                        naxis1 * naxis2 > usize::MAX,
                        nplanes >= 1,
                        bpp >= 0,
                ;
            }
            if bpp == 0 {
                0
            } else {
                return None;
            }
        },
    };
    proof {
        if bpp == 0 {
            assert(naxis1 * naxis2 * nplanes * bpp == 0) by (nonlinear_arith)
                requires
                    bpp == 0,
            ;
        }
    }
    if dlen < byte_count {
        return None;
    }
    if !(bitpix == 8 || bitpix == 16 || bitpix == 32 || bitpix == 64 || bitpix == -32 || bitpix
        == -64) {
        return None;
    }
    Some(ImageLayout { width: naxis1, height: naxis2, nplanes, bitpix, byte_count })
}

} // verus!
