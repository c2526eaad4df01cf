//! Character-level text handling for header records: decoding of record
//! bytes, Unicode whitespace trimming, comment stripping and the decimal
//! integer grammar that header values are read with.
use vstd::prelude::*;
use vstd::utf8::*;

verus! {

broadcast use vstd::utf8::group_utf8_lib;

// ───────────────────────── decoding ─────────────────────────

/// Calls `std::str::from_utf8`.  The contract claims what its documentation
/// says: it succeeds exactly on valid UTF-8, and the string it gives back
/// holds the characters that the bytes encode.
#[verifier::external_body]
pub(crate) fn str_from_utf8(b: &[u8]) -> (res: Option<&str>)
    ensures
        res is Some <==> valid_utf8(b@),
        res matches Some(s) ==> s@ == decode_utf8(b@),
{
    std::str::from_utf8(b).ok()
}

/// The characters of `s`, in order.
pub fn chars_of(s: &str) -> (v: Vec<char>)
    ensures
        v@ == s@,
{
    let mut v: Vec<char> = Vec::new();
    for c in it: s.chars()
        invariant
            v@ == it.seq().take(it.index() as int),
    {
        v.push(c);
    }
    v
}

/// What `std::str::from_utf8(b).unwrap_or("")` holds: the decoded text, or
/// nothing when the bytes are not valid UTF-8.
pub open spec fn text_or_empty(b: Seq<u8>) -> Seq<char> {
    if valid_utf8(b) {
        decode_utf8(b)
    } else {
        Seq::empty()
    }
}

/// Decodes `b` as UTF-8, or `None` where it is not valid UTF-8.
pub fn decode_bytes(b: &[u8]) -> (res: Option<Vec<char>>)
    ensures
        res is Some <==> valid_utf8(b@),
        res matches Some(v) ==> v@ == decode_utf8(b@),
{
    match str_from_utf8(b) {
        Some(s) => Some(chars_of(s)),
        None => None,
    }
}

/// Decodes `b` as UTF-8, giving no characters where it is not valid UTF-8.
pub fn decode_or_empty(b: &[u8]) -> (v: Vec<char>)
    ensures
        v@ == text_or_empty(b@),
{
    match decode_bytes(b) {
        Some(v) => v,
        None => Vec::new(),
    }
}

// ───────────────────────── encoding ─────────────────────────

/// UTF-8 encoding distributes over concatenation.
pub proof fn lemma_encode_utf8_concat(a: Seq<char>, b: Seq<char>)
    ensures
        encode_utf8(a + b) == encode_utf8(a) + encode_utf8(b),
    decreases a.len(),
{
    if a.len() == 0 {
        assert(a + b =~= b);
    } else {
        assert((a + b).drop_first() =~= a.drop_first() + b);
        lemma_encode_utf8_concat(a.drop_first(), b);
        assert(encode_utf8(a + b) =~= encode_utf8(a) + encode_utf8(b));
    }
}

/// Appends the UTF-8 encoding of `c` to `out`.
pub fn push_char_utf8(out: &mut Vec<u8>, c: char)
    ensures
        final(out)@ == old(out)@ + encode_scalar(c as u32),
{
    let v = c as u32;
    proof {
        char_is_scalar(c);
    }
    if v <= 0x7f {
        out.push((v & 0x7f) as u8);
    } else if v <= 0x7ff {
        out.push(0xC0u8 | ((v >> 6) & 0x1F) as u8);
        out.push(0x80u8 | (v & 0x3F) as u8);
    } else if v <= 0xffff {
        out.push(0xE0u8 | ((v >> 12) & 0x0F) as u8);
        out.push(0x80u8 | ((v >> 6) & 0x3F) as u8);
        out.push(0x80u8 | (v & 0x3F) as u8);
    } else {
        out.push(0xF0u8 | ((v >> 18) & 0x7) as u8);
        out.push(0x80u8 | ((v >> 12) & 0x3F) as u8);
        out.push(0x80u8 | ((v >> 6) & 0x3F) as u8);
        out.push(0x80u8 | (v & 0x3F) as u8);
    }
    assert(final(out)@ =~= old(out)@ + encode_scalar(c as u32));
}

/// The UTF-8 encoding of `cs`.
pub fn encode_chars(cs: &[char]) -> (out: Vec<u8>)
    ensures
        out@ == encode_utf8(cs@),
{
    let mut out: Vec<u8> = Vec::new();
    let mut i: usize = 0;
    while i < cs.len()
        invariant
            i <= cs@.len(),
            out@ == encode_utf8(cs@.take(i as int)),
        decreases cs@.len() - i,
    {
        let c = cs[i];
        push_char_utf8(&mut out, c);
        proof {
            let t = cs@.take(i as int);
            lemma_encode_utf8_concat(t, seq![c]);
            assert(seq![c].drop_first() =~= Seq::<char>::empty());
            assert(encode_utf8(Seq::<char>::empty()) =~= Seq::<u8>::empty());
            assert(seq![c][0] == c);
            assert(encode_utf8(seq![c]) =~= encode_scalar(c as u32) + encode_utf8(seq![c].drop_first()));
            assert(cs@.take(i + 1) =~= t + seq![c]);
        }
        i = i + 1;
    }
    assert(cs@.take(cs@.len() as int) =~= cs@);
    out
}

/// A `String` holding the characters `cs`.
pub fn string_of(cs: &[char]) -> (s: String)
    ensures
        s@ == cs@,
{
    let bytes = encode_chars(cs);
    match str_from_utf8(bytes.as_slice()) {
        Some(t) => t.to_owned(),
        None => {
            assert(false);
            String::new()
        },
    }
}


/// Appends the bytes `b` to `out`.
pub fn extend_bytes(out: &mut Vec<u8>, b: &[u8])
    ensures
        final(out)@ == old(out)@ + b@,
{
    let mut i: usize = 0;
    while i < b.len()
        invariant
            i <= b@.len(),
            out@ == old(out)@ + b@.take(i as int),
        decreases b@.len() - i,
    {
        out.push(b[i]);
        assert(b@.take(i + 1) =~= b@.take(i as int).push(b@[i as int]));
        i = i + 1;
    }
    assert(b@.take(b@.len() as int) =~= b@);
}

/// Appends `n` copies of `byte` to `out`.
pub fn push_repeat(out: &mut Vec<u8>, byte: u8, n: usize)
    ensures
        final(out)@ == old(out)@ + Seq::new(n as nat, |i: int| byte),
{
    let mut i: usize = 0;
    while i < n
        invariant
            i <= n,
            out@ == old(out)@ + Seq::new(i as nat, |j: int| byte),
        decreases n - i,
    {
        out.push(byte);
        assert(Seq::new((i + 1) as nat, |j: int| byte) =~= Seq::new(i as nat, |j: int| byte).push(
            byte,
        ));
        i = i + 1;
    }
}

// ───────────────────────── whitespace ─────────────────────────

/// Unicode `White_Space`, the property that `char::is_whitespace` tests.
pub open spec fn is_space(c: char) -> bool {
    ||| '\u{9}' <= c <= '\u{d}'
    ||| c == ' '
    ||| c == '\u{85}'
    ||| c == '\u{a0}'
    ||| c == '\u{1680}'
    ||| '\u{2000}' <= c <= '\u{200a}'
    ||| c == '\u{2028}'
    ||| c == '\u{2029}'
    ||| c == '\u{202f}'
    ||| c == '\u{205f}'
    ||| c == '\u{3000}'
}

/// Tests `is_space`.
pub fn char_is_space(c: char) -> (b: bool)
    ensures
        b == is_space(c),
{
    ('\u{9}' <= c && c <= '\u{d}') || c == ' ' || c == '\u{85}' || c == '\u{a0}' || c
        == '\u{1680}' || ('\u{2000}' <= c && c <= '\u{200a}') || c == '\u{2028}' || c
        == '\u{2029}' || c == '\u{202f}' || c == '\u{205f}' || c == '\u{3000}'
}

/// `s` without its trailing whitespace (`str::trim_end`).
pub open spec fn trim_end(s: Seq<char>) -> Seq<char>
    decreases s.len(),
{
    if s.len() > 0 && is_space(s.last()) {
        trim_end(s.drop_last())
    } else {
        s
    }
}

/// `s` without its leading whitespace (`str::trim_start`).
pub open spec fn trim_start(s: Seq<char>) -> Seq<char>
    decreases s.len(),
{
    if s.len() > 0 && is_space(s[0]) {
        trim_start(s.drop_first())
    } else {
        s
    }
}

/// `s` without leading and trailing whitespace (`str::trim`).
pub open spec fn trim(s: Seq<char>) -> Seq<char> {
    trim_start(trim_end(s))
}

/// The characters of `s` before its first `/` (all of `s` if it has none),
/// which is what `s.split('/').next()` gives.
pub open spec fn before_slash(s: Seq<char>) -> Seq<char>
    decreases s.len(),
{
    if s.len() == 0 || s[0] == '/' {
        Seq::empty()
    } else {
        seq![s[0]] + before_slash(s.drop_first())
    }
}

/// Copies `s[lo..hi]`.
pub fn sub_vec<T: Copy>(s: &[T], lo: usize, hi: usize) -> (r: Vec<T>)
    requires
        lo <= hi <= s@.len(),
    ensures
        r@ == s@.subrange(lo as int, hi as int),
{
    vstd::slice::slice_to_vec(vstd::slice::slice_subrange(s, lo, hi))
}

/// `trim_end` on a vector of characters.
pub fn trim_end_chars(s: &[char]) -> (r: Vec<char>)
    ensures
        r@ == trim_end(s@),
{
    let mut k: usize = s.len();
    assert(s@.take(s@.len() as int) =~= s@);
    while k > 0 && char_is_space(s[k - 1])
        invariant
            k <= s@.len(),
            trim_end(s@.take(k as int)) == trim_end(s@),
        decreases k,
    {
        assert(s@.take(k as int).drop_last() =~= s@.take(k - 1));
        k = k - 1;
    }
    assert(s@.take(s@.len() as int) =~= s@);
    sub_vec(s, 0, k)
}

/// `trim_start` on a vector of characters.
pub fn trim_start_chars(s: &[char]) -> (r: Vec<char>)
    ensures
        r@ == trim_start(s@),
{
    let mut k: usize = 0;
    assert(s@.skip(0) =~= s@);
    while k < s.len() && char_is_space(s[k])
        invariant
            k <= s@.len(),
            trim_start(s@.skip(k as int)) == trim_start(s@),
        decreases s@.len() - k,
    {
        assert(s@.skip(k as int).drop_first() =~= s@.skip(k + 1));
        k = k + 1;
    }
    assert(s@.skip(0) =~= s@);
    assert(s@.skip(k as int) =~= s@.subrange(k as int, s@.len() as int));
    sub_vec(s, k, s.len())
}

/// `trim` on a vector of characters.
pub fn trim_chars(s: &[char]) -> (r: Vec<char>)
    ensures
        r@ == trim(s@),
{
    let e = trim_end_chars(s);
    trim_start_chars(e.as_slice())
}

/// `before_slash` on a vector of characters.
pub fn before_slash_chars(s: &[char]) -> (r: Vec<char>)
    ensures
        r@ == before_slash(s@),
{
    let mut k: usize = 0;
    while k < s.len() && s[k] != '/'
        invariant
            k <= s@.len(),
            forall|j: int| 0 <= j < k ==> s@[j] != '/',
        decreases s@.len() - k,
    {
        k = k + 1;
    }
    proof {
        lemma_before_slash_prefix(s@, k as int);
    }
    sub_vec(s, 0, k)
}

/// Where `s` has no `/` before `k`, and `k` is its end or a `/`, the text before
/// the first slash is `s[..k]`.
pub proof fn lemma_before_slash_prefix(s: Seq<char>, k: int)
    requires
        0 <= k <= s.len(),
        forall|j: int| 0 <= j < k ==> s[j] != '/',
        k == s.len() || s[k] == '/',
    ensures
        before_slash(s) == s.take(k),
    decreases k,
{
    if k == 0 {
        assert(s.take(0) =~= Seq::<char>::empty());
    } else {
        lemma_before_slash_prefix(s.drop_first(), k - 1);
        assert(s.take(k) =~= seq![s[0]] + s.drop_first().take(k - 1));
    }
}

/// Whether `a` and `b` hold the same characters.
pub fn chars_eq(a: &[char], b: &[char]) -> (r: bool)
    ensures
        r == (a@ == b@),
{
    if a.len() != b.len() {
        return false;
    }
    let mut i: usize = 0;
    while i < a.len()
        invariant
            a@.len() == b@.len(),
            i <= a@.len(),
            forall|j: int| 0 <= j < i ==> a@[j] == b@[j],
        decreases a@.len() - i,
    {
        if a[i] != b[i] {
            return false;
        }
        i = i + 1;
    }
    assert(a@ =~= b@);
    true
}

/// Whether the characters `a` spell the string `b`.
pub fn chars_eq_str(a: &[char], b: &str) -> (r: bool)
    ensures
        r == (a@ == b@),
{
    let bc = chars_of(b);
    chars_eq(a, bc.as_slice())
}


/// `s` without the leading and trailing copies of `c` (`str::trim_matches(c)`).
pub open spec fn strip_char(s: Seq<char>, c: char) -> Seq<char> {
    strip_char_start(strip_char_end(s, c), c)
}

/// `s` without the trailing copies of `c` (`str::trim_end_matches(c)`).
pub open spec fn strip_char_end(s: Seq<char>, c: char) -> Seq<char>
    decreases s.len(),
{
    if s.len() > 0 && s.last() == c {
        strip_char_end(s.drop_last(), c)
    } else {
        s
    }
}

/// `s` without the leading copies of `c` (`str::trim_start_matches(c)`).
pub open spec fn strip_char_start(s: Seq<char>, c: char) -> Seq<char>
    decreases s.len(),
{
    if s.len() > 0 && s[0] == c {
        strip_char_start(s.drop_first(), c)
    } else {
        s
    }
}

/// `strip_char_end` on a vector of characters.
pub fn strip_char_end_chars(s: &[char], c: char) -> (r: Vec<char>)
    ensures
        r@ == strip_char_end(s@, c),
{
    let mut k: usize = s.len();
    assert(s@.take(s@.len() as int) =~= s@);
    while k > 0 && s[k - 1] == c
        invariant
            k <= s@.len(),
            strip_char_end(s@.take(k as int), c) == strip_char_end(s@, c),
        decreases k,
    {
        assert(s@.take(k as int).drop_last() =~= s@.take(k - 1));
        k = k - 1;
    }
    sub_vec(s, 0, k)
}

/// `strip_char` on a vector of characters.
pub fn strip_char_chars(s: &[char], c: char) -> (r: Vec<char>)
    ensures
        r@ == strip_char(s@, c),
{
    let e = strip_char_end_chars(s, c);
    let mut k: usize = 0;
    assert(e@.skip(0) =~= e@);
    while k < e.len() && e[k] == c
        invariant
            k <= e@.len(),
            strip_char_start(e@.skip(k as int), c) == strip_char_start(e@, c),
        decreases e@.len() - k,
    {
        assert(e@.skip(k as int).drop_first() =~= e@.skip(k + 1));
        k = k + 1;
    }
    assert(e@.skip(k as int) =~= e@.subrange(k as int, e@.len() as int));
    sub_vec(e.as_slice(), k, e.len())
}

/// `c` with an ASCII lowercase letter made uppercase (`char::to_ascii_uppercase`).
pub open spec fn ascii_upper(c: char) -> char {
    if 'a' <= c <= 'z' {
        (((c as u32) - 32) as u8) as char
    } else {
        c
    }
}

/// `ascii_upper` on each character (`str::to_ascii_uppercase`).
pub open spec fn ascii_upper_all(s: Seq<char>) -> Seq<char> {
    s.map_values(|c: char| ascii_upper(c))
}

/// `ascii_upper` on a character.
pub fn char_ascii_upper(c: char) -> (r: char)
    ensures
        r == ascii_upper(c),
{
    if 'a' <= c && c <= 'z' {
        (((c as u32) - 32) as u8) as char
    } else {
        c
    }
}

/// `ascii_upper_all` on a vector of characters.
pub fn ascii_upper_chars(s: &[char]) -> (r: Vec<char>)
    ensures
        r@ == ascii_upper_all(s@),
{
    let mut r: Vec<char> = Vec::new();
    let mut i: usize = 0;
    while i < s.len()
        invariant
            i <= s@.len(),
            r@ == ascii_upper_all(s@.take(i as int)),
        decreases s@.len() - i,
    {
        r.push(char_ascii_upper(s[i]));
        assert(ascii_upper_all(s@.take(i + 1)) =~= ascii_upper_all(s@.take(i as int)).push(
            ascii_upper(s@[i as int]),
        ));
        i = i + 1;
    }
    assert(s@.take(s@.len() as int) =~= s@);
    r
}

// ───────────────────────── integers ─────────────────────────

/// An ASCII decimal digit.
pub open spec fn is_digit(c: char) -> bool {
    '0' <= c <= '9'
}

/// Whether every character of `s` is an ASCII decimal digit.
pub open spec fn all_digits(s: Seq<char>) -> bool {
    forall|i: int| 0 <= i < s.len() ==> is_digit(#[trigger] s[i])
}

/// The number that the decimal digits `s` spell.
pub open spec fn digits_value(s: Seq<char>) -> int
    decreases s.len(),
{
    if s.len() == 0 {
        0
    } else {
        digits_value(s.drop_last()) * 10 + ((s.last() as int) - ('0' as int))
    }
}

/// The magnitude that a nonempty digit string spells, if it is at most `limit`.
pub open spec fn magnitude(s: Seq<char>, limit: int) -> Option<int> {
    if s.len() > 0 && all_digits(s) && digits_value(s) <= limit {
        Some(digits_value(s))
    } else {
        None
    }
}

/// What `<uN>::from_str` gives for the text `s` in a type whose largest value
/// is `max`: an optional `+`, then one or more ASCII digits, the value at most
/// `max`.
pub open spec fn parse_unsigned(s: Seq<char>, max: int) -> Option<int> {
    if s.len() > 0 && s[0] == '+' {
        magnitude(s.drop_first(), max)
    } else {
        magnitude(s, max)
    }
}

/// What `<iN>::from_str` gives for the text `s` in a type with the range
/// `min..=max`: an optional `+` or `-`, then one or more ASCII digits, the
/// signed value within the range.
pub open spec fn parse_signed(s: Seq<char>, min: int, max: int) -> Option<int> {
    if s.len() > 0 && s[0] == '-' {
        match magnitude(s.drop_first(), -min) {
            Some(m) => Some(-m),
            None => None,
        }
    } else {
        parse_unsigned(s, max)
    }
}

/// Digit strings only grow as digits are appended.
pub proof fn lemma_digits_value_prefix(s: Seq<char>, i: int)
    requires
        all_digits(s),
        0 <= i <= s.len(),
    ensures
        0 <= digits_value(s.take(i)) <= digits_value(s),
    decreases s.len(),
{
    if i == s.len() {
        assert(s.take(i) =~= s);
        lemma_digits_value_nonneg(s);
    } else {
        assert(all_digits(s.drop_last()));
        lemma_digits_value_prefix(s.drop_last(), i);
        assert(s.drop_last().take(i) =~= s.take(i));
        lemma_digits_value_nonneg(s.drop_last());
    }
}

/// The value of a digit string is not negative.
pub proof fn lemma_digits_value_nonneg(s: Seq<char>)
    requires
        all_digits(s),
    ensures
        digits_value(s) >= 0,
    decreases s.len(),
{
    if s.len() > 0 {
        assert(all_digits(s.drop_last()));
        lemma_digits_value_nonneg(s.drop_last());
    }
}

/// Reads the digits `s[lo..]` as a number no greater than `limit`.
fn parse_magnitude(s: &[char], lo: usize, limit: u64) -> (r: Option<u64>)
    requires
        lo <= s@.len(),
    ensures
        r matches Some(v) ==> magnitude(s@.skip(lo as int), limit as int) == Some(v as int),
        r is None ==> magnitude(s@.skip(lo as int), limit as int) is None,
{
    let ghost d = s@.skip(lo as int);
    if lo >= s.len() {
        return None;
    }
    let mut v: u64 = 0;
    let mut i: usize = lo;
    assert(d.take(0) =~= Seq::<char>::empty());
    while i < s.len()
        invariant
            lo <= i <= s@.len(),
            d == s@.skip(lo as int),
            all_digits(d.take(i - lo)),
            v as int == digits_value(d.take(i - lo)),
            v <= limit,
        decreases s@.len() - i,
    {
        let c = s[i];
        if !('0' <= c && c <= '9') {
            assert(d[i - lo] == c);
            assert(!all_digits(d));
            return None;
        }
        let digit = (c as u32 - '0' as u32) as u64;
        assert(d.take(i + 1 - lo).drop_last() =~= d.take(i - lo));
        assert(d.take(i + 1 - lo).last() == c);
        assert(all_digits(d.take(i + 1 - lo)));
        if digit > limit || v > (limit - digit) / 10 {
            proof {
                if digit <= limit {
                    assert(v * 10 + digit > limit) by (nonlinear_arith)
                        requires
                            v > (limit - digit) / 10,
                            digit <= limit,
                    ;
                }
                assert(digits_value(d.take(i + 1 - lo)) > limit);
                if all_digits(d) {
                    lemma_digits_value_prefix(d, i + 1 - lo);
                }
            }
            return None;
        }
        v = v * 10 + digit;
        i = i + 1;
    }
    assert(d.take(i - lo) =~= d);
    Some(v)
}

/// `usize::from_str` on the characters `s`.
pub fn parse_usize(s: &[char]) -> (r: Option<usize>)
    ensures
        r matches Some(v) ==> parse_unsigned(s@, usize::MAX as int) == Some(v as int),
        r is None ==> parse_unsigned(s@, usize::MAX as int) is None,
{
    let lo: usize = if s.len() > 0 && s[0] == '+' { 1 } else { 0 };
    assert(s@.skip(0) =~= s@);
    assert(s@.skip(1) =~= s@.drop_first());
    match parse_magnitude(s, lo, usize::MAX as u64) {
        Some(v) => Some(v as usize),
        None => None,
    }
}

/// `i64::from_str` on the characters `s`.
pub fn parse_i64(s: &[char]) -> (r: Option<i64>)
    ensures
        r matches Some(v) ==> parse_signed(s@, i64::MIN as int, i64::MAX as int) == Some(
            v as int,
        ),
        r is None ==> parse_signed(s@, i64::MIN as int, i64::MAX as int) is None,
{
    assert(s@.skip(0) =~= s@);
    assert(s@.skip(1) =~= s@.drop_first());
    if s.len() > 0 && s[0] == '-' {
        match parse_magnitude(s, 1, 0x8000_0000_0000_0000u64) {
            Some(m) => Some((0i128 - m as i128) as i64),
            None => None,
        }
    } else {
        let lo: usize = if s.len() > 0 && s[0] == '+' { 1 } else { 0 };
        match parse_magnitude(s, lo, i64::MAX as u64) {
            Some(v) => Some(v as i64),
            None => None,
        }
    }
}

/// `i32::from_str` on the characters `s`.
pub fn parse_i32(s: &[char]) -> (r: Option<i32>)
    ensures
        r matches Some(v) ==> parse_signed(s@, i32::MIN as int, i32::MAX as int) == Some(
            v as int,
        ),
        r is None ==> parse_signed(s@, i32::MIN as int, i32::MAX as int) is None,
{
    assert(s@.skip(0) =~= s@);
    assert(s@.skip(1) =~= s@.drop_first());
    if s.len() > 0 && s[0] == '-' {
        match parse_magnitude(s, 1, 0x8000_0000u64) {
            Some(m) => Some((0i64 - m as i64) as i32),
            None => None,
        }
    } else {
        let lo: usize = if s.len() > 0 && s[0] == '+' { 1 } else { 0 };
        match parse_magnitude(s, lo, i32::MAX as u64) {
            Some(v) => Some(v as i32),
            None => None,
        }
    }
}

/// The decimal digits of `m`, most significant first, without leading zeros.
pub open spec fn decimal_digits(m: nat) -> Seq<u8>
    decreases m,
{
    if m < 10 {
        seq![(('0' as nat) + m) as u8]
    } else {
        decimal_digits(m / 10) + seq![(('0' as nat) + m % 10) as u8]
    }
}

/// The decimal text of `n` as `{}` formats an integer: a `-` before negative
/// values, then the digits of its magnitude.
pub open spec fn decimal_text(n: int) -> Seq<u8> {
    if n < 0 {
        seq!['-' as u8] + decimal_digits((-n) as nat)
    } else {
        decimal_digits(n as nat)
    }
}

/// Appends the decimal digits of `m`.
fn push_decimal_digits(out: &mut Vec<u8>, m: u64)
    ensures
        final(out)@ == old(out)@ + decimal_digits(m as nat),
    decreases m,
{
    if m >= 10 {
        push_decimal_digits(out, m / 10);
    }
    let d = (m % 10) as u8;
    out.push(48u8 + d);
    assert(final(out)@ =~= old(out)@ + decimal_digits(m as nat));
}

/// The decimal digits of `m` as characters.
pub open spec fn decimal_chars(m: nat) -> Seq<char> {
    decimal_digits(m).map_values(|b: u8| b as char)
}

/// `decimal_chars` of `m`.
pub fn decimal_chars_of_u64(m: u64) -> (r: Vec<char>)
    ensures
        r@ == decimal_chars(m as nat),
{
    let mut b: Vec<u8> = Vec::new();
    push_decimal_digits(&mut b, m);
    assert(b@ =~= decimal_digits(m as nat));
    let mut r: Vec<char> = Vec::new();
    let mut i: usize = 0;
    while i < b.len()
        invariant
            i <= b@.len(),
            r@ == b@.take(i as int).map_values(|x: u8| x as char),
        decreases b@.len() - i,
    {
        r.push(b[i] as char);
        assert(b@.take(i + 1).map_values(|x: u8| x as char) =~= b@.take(i as int).map_values(
            |x: u8| x as char,
        ).push(b@[i as int] as char));
        i = i + 1;
    }
    assert(b@.take(b@.len() as int) =~= b@);
    r
}

/// The decimal text of `n` as characters, as `{}` formats an integer.
pub open spec fn signed_decimal_chars(n: int) -> Seq<char> {
    decimal_text(n).map_values(|b: u8| b as char)
}

/// The decimal digits of `m` are one or more ASCII digits that spell `m`.
pub proof fn lemma_decimal_chars_value(m: nat)
    ensures
        decimal_chars(m).len() > 0,
        all_digits(decimal_chars(m)),
        digits_value(decimal_chars(m)) == m,
    decreases m,
{
    let c = decimal_chars(m);
    if m < 10 {
        assert(c.len() == 1);
        let d = ((('0' as nat) + m) as u8) as char;
        assert(c[0] == d);
        assert((d as int) == 48 + m);
        assert(c.last() == d);
        assert(c.drop_last() =~= Seq::<char>::empty());
        assert(digits_value(c) == digits_value(c.drop_last()) * 10 + ((c.last() as int) - ('0' as int)));
    } else {
        lemma_decimal_chars_value(m / 10);
        let p = decimal_chars(m / 10);
        let d = ((('0' as nat) + m % 10) as u8) as char;
        assert(c =~= p.push(d));
        assert((d as int) == 48 + m % 10);
        assert(c.drop_last() =~= p);
        assert(c.last() == d);
        assert forall|i: int| 0 <= i < c.len() implies is_digit(#[trigger] c[i]) by {
            if i < p.len() {
                assert(c[i] == p[i]);
            }
        }
    }
}

/// Reading the decimal digits of a number in range gives it back: what
/// `<uN>::from_str` gives for the text that `{}` writes.
pub proof fn lemma_parse_unsigned_decimal(n: nat, max: int)
    requires
        n <= max,
    ensures
        parse_unsigned(decimal_chars(n), max) == Some(n as int),
        signed_decimal_chars(n as int) == decimal_chars(n),
{
    lemma_decimal_chars_value(n);
    assert(is_digit(decimal_chars(n)[0]));
    assert(signed_decimal_chars(n as int) =~= decimal_chars(n));
}

/// Reading the decimal text of an integer in range gives it back: what
/// `<iN>::from_str` gives for the text that `{}` writes.
pub proof fn lemma_parse_signed_decimal(n: int, min: int, max: int)
    requires
        min <= 0 <= max,
        min <= n <= max,
    ensures
        parse_signed(signed_decimal_chars(n), min, max) == Some(n),
{
    let s = signed_decimal_chars(n);
    if n < 0 {
        let m = (-n) as nat;
        lemma_decimal_chars_value(m);
        assert(s =~= seq!['-'] + decimal_chars(m));
        assert(s.drop_first() =~= decimal_chars(m));
    } else {
        let m = n as nat;
        lemma_decimal_chars_value(m);
        assert(s =~= decimal_chars(m));
        assert(is_digit(s[0]));
    }
}

/// The decimal text of `n`.
pub fn decimal_of_i64(n: i64) -> (out: Vec<u8>)
    ensures
        out@ == decimal_text(n as int),
{
    let mut out: Vec<u8> = Vec::new();
    if n < 0 {
        out.push(45u8);
        let m: u64 = (0i128 - n as i128) as u64;
        push_decimal_digits(&mut out, m);
    } else {
        push_decimal_digits(&mut out, n as u64);
    }
    assert(out@ =~= decimal_text(n as int));
    out
}

} // verus!
