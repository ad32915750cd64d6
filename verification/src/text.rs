//! Text as a sequence of characters: scanning, trimming, searching and the
//! decimal and hexadecimal forms of numbers.
//!
//! A string is modelled by the sequence of its characters. The functions here
//! work on character slices; offsets into the UTF-8 form are the lengths of
//! `encode_utf8` of a prefix.

use vstd::prelude::*;
use vstd::slice::slice_subrange;
use vstd::utf8::{
    encode_scalar, encode_utf8, encode_utf8_decode_utf8, encode_utf8_first_scalar, encode_utf8_valid_utf8,
    is_ascii_chars, is_char_boundary, length_of_first_scalar, pop_first_scalar, valid_utf8,
    decode_utf8,
};

verus! {

// ── Outside functions ───────────────────────────────────────────────

/// `String::push`: appends one character.
pub assume_specification[ String::push ](s: &mut String, c: char)
    ensures
        final(s)@ == old(s)@.push(c),
;

/// `String::push_str`: appends a whole string.
pub assume_specification[ String::push_str ](s: &mut String, t: &str)
    ensures
        final(s)@ == old(s)@ + t@,
;

/// What `str::to_uppercase` makes of a text.
pub uninterp spec fn uppercase(s: Seq<char>) -> Seq<char>;

/// What `str::to_lowercase` makes of a text.
pub uninterp spec fn lowercase(s: Seq<char>) -> Seq<char>;

/// Whether `char::is_alphabetic` holds of a character.
pub uninterp spec fn alphabetic(c: char) -> bool;

/// Whether `char::is_alphanumeric` holds of a character.
pub uninterp spec fn alphanumeric(c: char) -> bool;

/// What `String::from_utf8_lossy` makes of a byte string.
pub uninterp spec fn utf8_lossy(b: Seq<u8>) -> Seq<char>;

/// `str::to_uppercase`: the uppercase form by Unicode's tables. On a text of
/// ASCII characters it changes `a` to `z` and nothing else.
#[verifier::external_body]
pub(crate) fn to_uppercase(s: &str) -> (r: String)
    ensures
        r@ == uppercase(s@),
        is_ascii_chars(s@) ==> r@ == ascii_uppercase(s@),
{
    s.to_uppercase()
}

/// `str::to_lowercase`: the lowercase form by Unicode's tables. On a text of
/// ASCII characters it changes `A` to `Z` and nothing else.
#[verifier::external_body]
pub(crate) fn to_lowercase(s: &str) -> (r: String)
    ensures
        r@ == lowercase(s@),
        is_ascii_chars(s@) ==> r@ == ascii_lowercase(s@),
{
    s.to_lowercase()
}

/// `char::is_alphabetic`: the Alphabetic property of Unicode, which among the
/// ASCII characters the letters have and no other.
#[verifier::external_body]
pub(crate) fn is_alphabetic(c: char) -> (r: bool)
    ensures
        r == alphabetic(c),
        (c as u32) < 128 ==> r == is_ascii_letter(c),
{
    c.is_alphabetic()
}

/// `char::is_alphanumeric`: alphabetic or numeric by Unicode's tables, which
/// among the ASCII characters are the letters and the ten digits.
#[verifier::external_body]
pub(crate) fn is_alphanumeric(c: char) -> (r: bool)
    ensures
        r == alphanumeric(c),
        (c as u32) < 128 ==> r == (is_ascii_letter(c) || is_digit(c)),
{
    c.is_alphanumeric()
}

/// `str::from_utf8`: succeeds exactly on valid UTF-8, with the text that the
/// bytes encode.
#[verifier::external_body]
pub(crate) fn from_utf8(b: &[u8]) -> (r: Option<String>)
    ensures
        r is Some <==> valid_utf8(b@),
        r is Some ==> r->0@ == decode_utf8(b@),
{
    std::str::from_utf8(b).ok().map(|s| s.to_owned())
}

/// `String::from_utf8_lossy`: on valid UTF-8 the text that the bytes encode.
/// What it puts in place of invalid bytes is left unsaid.
#[verifier::external_body]
pub(crate) fn from_utf8_lossy(b: &[u8]) -> (r: String)
    ensures
        r@ == utf8_lossy(b@),
        valid_utf8(b@) ==> r@ == decode_utf8(b@),
{
    String::from_utf8_lossy(b).into_owned()
}

/// Whether a character is a letter.
pub open spec fn is_letter(c: char) -> bool {
    if (c as u32) < 128 {
        is_ascii_letter(c)
    } else {
        alphabetic(c)
    }
}

/// Whether a character is a letter or a number.
pub open spec fn is_letter_or_number(c: char) -> bool {
    if (c as u32) < 128 {
        is_ascii_letter(c) || is_digit(c)
    } else {
        alphanumeric(c)
    }
}

/// Whether a character can stand in a word: a letter, a number or `_`.
pub open spec fn is_word_char(c: char) -> bool {
    is_letter_or_number(c) || c == '_'
}

pub fn char_is_letter(c: char) -> (r: bool)
    ensures
        r == is_letter(c),
{
    is_alphabetic(c)
}

pub fn char_is_letter_or_number(c: char) -> (r: bool)
    ensures
        r == is_letter_or_number(c),
{
    is_alphanumeric(c)
}

pub fn char_is_word_char(c: char) -> (r: bool)
    ensures
        r == is_word_char(c),
{
    char_is_letter_or_number(c) || c == '_'
}

/// A text in upper case.
pub open spec fn upper(s: Seq<char>) -> Seq<char> {
    if is_ascii_chars(s) {
        ascii_uppercase(s)
    } else {
        uppercase(s)
    }
}

/// A text in lower case.
pub open spec fn lower(s: Seq<char>) -> Seq<char> {
    if is_ascii_chars(s) {
        ascii_lowercase(s)
    } else {
        lowercase(s)
    }
}

/// A string in upper case.
pub fn upper_string(s: &str) -> (r: String)
    ensures
        r@ == upper(s@),
{
    to_uppercase(s)
}

/// A string in lower case.
pub fn lower_string(s: &str) -> (r: String)
    ensures
        r@ == lower(s@),
{
    to_lowercase(s)
}

/// The text of bytes that should be UTF-8.
pub open spec fn lossy(b: Seq<u8>) -> Seq<char> {
    if valid_utf8(b) {
        decode_utf8(b)
    } else {
        utf8_lossy(b)
    }
}

/// The text of bytes that should be UTF-8.
pub fn lossy_string(b: &[u8]) -> (r: String)
    ensures
        r@ == lossy(b@),
{
    from_utf8_lossy(b)
}

// ── Characters ──────────────────────────────────────────────────────

/// One of `a` to `z` and `A` to `Z`.
pub open spec fn is_ascii_letter(c: char) -> bool {
    ('a' <= c && c <= 'z') || ('A' <= c && c <= 'Z')
}

/// One of `0` to `9`.
pub open spec fn is_digit(c: char) -> bool {
    '0' <= c && c <= '9'
}

/// A character with Unicode's White_Space property.
pub open spec fn is_space(c: char) -> bool {
    let u = c as u32;
    ||| 9 <= u <= 13
    ||| u == 0x20
    ||| u == 0x85
    ||| u == 0xa0
    ||| u == 0x1680
    ||| 0x2000 <= u <= 0x200a
    ||| u == 0x2028
    ||| u == 0x2029
    ||| u == 0x202f
    ||| u == 0x205f
    ||| u == 0x3000
}

/// Space, tab, line feed, form feed or carriage return.
pub open spec fn is_ascii_space(c: char) -> bool {
    c == ' ' || c == '\t' || c == '\n' || c == '\x0c' || c == '\r'
}

/// `a` to `z` changed to `A` to `Z`, every other character kept.
pub open spec fn ascii_upper(c: char) -> char {
    if 'a' <= c && c <= 'z' {
        ((c as u32) - 32) as char
    } else {
        c
    }
}

/// `A` to `Z` changed to `a` to `z`, every other character kept.
pub open spec fn ascii_lower(c: char) -> char {
    if 'A' <= c && c <= 'Z' {
        ((c as u32) + 32) as char
    } else {
        c
    }
}

/// A text with `ascii_upper` applied to each character.
pub open spec fn ascii_uppercase(s: Seq<char>) -> Seq<char> {
    Seq::new(s.len(), |i: int| ascii_upper(s[i]))
}

/// A text with `ascii_lower` applied to each character.
pub open spec fn ascii_lowercase(s: Seq<char>) -> Seq<char> {
    Seq::new(s.len(), |i: int| ascii_lower(s[i]))
}

pub fn char_is_digit(c: char) -> (r: bool)
    ensures
        r == is_digit(c),
{
    '0' <= c && c <= '9'
}

pub fn char_is_ascii_letter(c: char) -> (r: bool)
    ensures
        r == is_ascii_letter(c),
{
    ('a' <= c && c <= 'z') || ('A' <= c && c <= 'Z')
}

pub fn char_is_space(c: char) -> (r: bool)
    ensures
        r == is_space(c),
{
    let u: u32 = c as u32;
    (9 <= u && u <= 13) || u == 0x20 || u == 0x85 || u == 0xa0 || u == 0x1680 || (0x2000 <= u && u
        <= 0x200a) || u == 0x2028 || u == 0x2029 || u == 0x202f || u == 0x205f || u == 0x3000
}

pub fn char_is_ascii_space(c: char) -> (r: bool)
    ensures
        r == is_ascii_space(c),
{
    c == ' ' || c == '\t' || c == '\n' || c == '\x0c' || c == '\r'
}

pub fn char_ascii_upper(c: char) -> (r: char)
    ensures
        r == ascii_upper(c),
{
    if 'a' <= c && c <= 'z' {
        let u: u8 = (c as u8) - 32;
        u as char
    } else {
        c
    }
}

// ── Strings and character vectors ───────────────────────────────────

/// The characters of a string, in order.
pub fn to_chars(s: &str) -> (r: Vec<char>)
    ensures
        r@ == s@,
{
    let mut out: Vec<char> = Vec::new();
    for c in it: s.chars()
        invariant
            out@ == it.seq().take(it.index() as int),
            it.seq() == s@,
    {
        out.push(c);
    }
    out
}

/// The string made of the given characters.
pub fn from_chars(v: &[char]) -> (r: String)
    ensures
        r@ == v@,
{
    let mut out = String::new();
    for i in 0..v.len()
        invariant
            out@ == v@.take(i as int),
    {
        out.push(v[i]);
        proof {
            assert(v@.take(i + 1) =~= v@.take(i as int).push(v@[i as int]));
        }
    }
    proof {
        assert(v@.take(v@.len() as int) =~= v@);
    }
    out
}

/// Appends the characters of a slice.
pub fn push_chars(out: &mut String, v: &[char])
    ensures
        final(out)@ == old(out)@ + v@,
{
    let ghost before = out@;
    for i in 0..v.len()
        invariant
            out@ == before + v@.take(i as int),
    {
        out.push(v[i]);
        proof {
            assert(v@.take(i + 1) =~= v@.take(i as int).push(v@[i as int]));
            assert(before + v@.take(i + 1) =~= (before + v@.take(i as int)).push(v@[i as int]));
        }
    }
    proof {
        assert(v@.take(v@.len() as int) =~= v@);
    }
}

/// A copy of a slice of characters.
pub fn copy_chars(v: &[char]) -> (r: Vec<char>)
    ensures
        r@ == v@,
{
    let mut out: Vec<char> = Vec::new();
    for i in 0..v.len()
        invariant
            out@ == v@.take(i as int),
    {
        out.push(v[i]);
        proof {
            assert(v@.take(i + 1) =~= v@.take(i as int).push(v@[i as int]));
        }
    }
    proof {
        assert(v@.take(v@.len() as int) =~= v@);
    }
    out
}

/// Whether two character slices are equal.
pub fn chars_eq(a: &[char], b: &[char]) -> (r: bool)
    ensures
        r == (a@ == b@),
{
    if a.len() != b.len() {
        return false;
    }
    for i in 0..a.len()
        invariant
            a@.len() == b@.len(),
            forall|k: int| 0 <= k < i ==> a@[k] == b@[k],
    {
        if a[i] != b[i] {
            return false;
        }
    }
    proof {
        assert(a@ =~= b@);
    }
    true
}

/// Whether two strings are equal.
pub fn str_eq(a: &str, b: &str) -> (r: bool)
    ensures
        r == (a@ == b@),
{
    let x = to_chars(a);
    let y = to_chars(b);
    chars_eq(&x, &y)
}

/// Whether a character slice holds the text of a string.
pub fn chars_are(a: &[char], b: &str) -> (r: bool)
    ensures
        r == (a@ == b@),
{
    let y = to_chars(b);
    chars_eq(a, &y)
}

/// Whether a text comes before another: at the first place where they differ
/// it has the smaller character, or it ends there.
pub open spec fn text_less(a: Seq<char>, b: Seq<char>) -> bool
    decreases a.len(),
{
    if b.len() == 0 {
        false
    } else if a.len() == 0 {
        true
    } else if a[0] != b[0] {
        a[0] < b[0]
    } else {
        text_less(a.skip(1), b.skip(1))
    }
}

/// Whether a string comes before another.
pub fn str_less(a: &str, b: &str) -> (r: bool)
    ensures
        r == text_less(a@, b@),
{
    let x = to_chars(a);
    let y = to_chars(b);
    let mut i: usize = 0;
    proof {
        assert(a@.skip(0) =~= a@);
        assert(b@.skip(0) =~= b@);
    }
    while i < x.len() && i < y.len()
        invariant
            x@ == a@,
            y@ == b@,
            i <= a@.len(),
            i <= b@.len(),
            text_less(a@.skip(i as int), b@.skip(i as int)) == text_less(a@, b@),
        decreases a@.len() - i,
    {
        if x[i] != y[i] {
            return x[i] < y[i];
        }
        proof {
            assert(a@.skip(i as int).skip(1) =~= a@.skip(i + 1));
            assert(b@.skip(i as int).skip(1) =~= b@.skip(i + 1));
        }
        i = i + 1;
    }
    i < y.len()
}

/// A text in ASCII upper case.
pub fn to_ascii_uppercase(v: &[char]) -> (r: Vec<char>)
    ensures
        r@ == ascii_uppercase(v@),
{
    let mut out: Vec<char> = Vec::new();
    for i in 0..v.len()
        invariant
            out@ == ascii_uppercase(v@).take(i as int),
    {
        out.push(char_ascii_upper(v[i]));
        proof {
            assert(ascii_uppercase(v@).take(i + 1) =~= ascii_uppercase(v@).take(i as int).push(
                ascii_upper(v@[i as int]),
            ));
        }
    }
    proof {
        assert(ascii_uppercase(v@).take(v@.len() as int) =~= ascii_uppercase(v@));
    }
    out
}

// ── Trimming ────────────────────────────────────────────────────────

/// A text without its leading white space.
pub open spec fn trim_start(s: Seq<char>) -> Seq<char>
    decreases s.len(),
{
    if s.len() > 0 && is_space(s[0]) {
        trim_start(s.skip(1))
    } else {
        s
    }
}

/// A text without its trailing white space.
pub open spec fn trim_end(s: Seq<char>) -> Seq<char>
    decreases s.len(),
{
    if s.len() > 0 && is_space(s.last()) {
        trim_end(s.drop_last())
    } else {
        s
    }
}

/// A text without its leading and trailing white space.
pub open spec fn trim(s: Seq<char>) -> Seq<char> {
    trim_end(trim_start(s))
}

/// Whether a text holds nothing but white space.
pub open spec fn is_blank(s: Seq<char>) -> bool {
    forall|k: int| 0 <= k < s.len() ==> is_space(#[trigger] s[k])
}

proof fn lemma_trim_start_blank(s: Seq<char>)
    ensures
        is_blank(s) ==> trim_start(s).len() == 0,
        !is_blank(s) ==> trim_start(s).len() > 0 && !is_space(trim_start(s)[0]),
    decreases s.len(),
{
    if s.len() > 0 && is_space(s[0]) {
        let rest = s.skip(1);
        lemma_trim_start_blank(rest);
        assert forall|k: int| is_blank(rest) && 0 <= k < s.len() implies is_space(#[trigger] s[k]) by {
            if k > 0 {
                assert(rest[k - 1] == s[k]);
            }
        }
    }
}

proof fn lemma_trim_end_blank(s: Seq<char>)
    ensures
        trim_end(s).len() == 0 <==> is_blank(s),
    decreases s.len(),
{
    if s.len() > 0 && is_space(s.last()) {
        let rest = s.drop_last();
        lemma_trim_end_blank(rest);
        assert forall|k: int| is_blank(rest) && 0 <= k < s.len() implies is_space(#[trigger] s[k]) by {
            if k < rest.len() {
                assert(rest[k] == s[k]);
            }
        }
        assert forall|k: int| is_blank(s) && 0 <= k < rest.len() implies is_space(#[trigger] rest[k]) by {
            assert(rest[k] == s[k]);
        }
    } else if s.len() > 0 {
        assert(!is_space(s[s.len() - 1]));
    }
}

/// Trimming leaves nothing just where there was nothing but white space.
pub proof fn law_trim_of_blank(s: Seq<char>)
    ensures
        trim(s).len() == 0 <==> is_blank(s),
{
    lemma_trim_start_blank(s);
    lemma_trim_end_blank(trim_start(s));
}

/// The number of leading characters that `trim_start` removes.
pub fn trim_start_len(v: &[char]) -> (r: usize)
    ensures
        r <= v@.len(),
        v@.skip(r as int) == trim_start(v@),
        forall|k: int| 0 <= k < r ==> is_space(v@[k]),
{
    let mut i: usize = 0;
    proof {
        assert(v@.skip(0) =~= v@);
    }
    while i < v.len() && char_is_space(v[i])
        invariant
            i <= v@.len(),
            trim_start(v@.skip(i as int)) == trim_start(v@),
            forall|k: int| 0 <= k < i ==> is_space(v@[k]),
        decreases v@.len() - i,
    {
        proof {
            assert(v@.skip(i as int).skip(1) =~= v@.skip(i + 1));
        }
        i = i + 1;
    }
    i
}

/// The length of what `trim_end` keeps.
pub fn trim_end_len(v: &[char]) -> (r: usize)
    ensures
        r <= v@.len(),
        v@.take(r as int) == trim_end(v@),
{
    let mut i: usize = v.len();
    proof {
        assert(v@.take(i as int) =~= v@);
    }
    while i > 0 && char_is_space(v[i - 1])
        invariant
            i <= v@.len(),
            trim_end(v@.take(i as int)) == trim_end(v@),
        decreases i,
    {
        proof {
            assert(v@.take(i as int).drop_last() =~= v@.take(i - 1));
        }
        i = i - 1;
    }
    i
}

/// The slice of `v` that `trim_start` leaves.
pub fn trim_start_slice(v: &[char]) -> (r: &[char])
    ensures
        r@ == trim_start(v@),
{
    let i = trim_start_len(v);
    let r = slice_subrange(v, i, v.len());
    proof {
        assert(r@ =~= v@.skip(i as int));
    }
    r
}

/// The slice of `v` that `trim_end` leaves.
pub fn trim_end_slice(v: &[char]) -> (r: &[char])
    ensures
        r@ == trim_end(v@),
{
    let i = trim_end_len(v);
    let r = slice_subrange(v, 0, i);
    proof {
        assert(r@ =~= v@.take(i as int));
    }
    r
}

/// The slice of `v` that `trim` leaves.
pub fn trim_slice(v: &[char]) -> (r: &[char])
    ensures
        r@ == trim(v@),
{
    trim_end_slice(trim_start_slice(v))
}

/// A slice without its first characters.
pub fn skip_chars(v: &[char], n: usize) -> (r: &[char])
    requires
        n <= v@.len(),
    ensures
        r@ == v@.skip(n as int),
{
    let r = slice_subrange(v, n, v.len());
    proof {
        assert(r@ =~= v@.skip(n as int));
    }
    r
}

/// The first characters of a slice.
pub fn take_chars(v: &[char], n: usize) -> (r: &[char])
    requires
        n <= v@.len(),
    ensures
        r@ == v@.take(n as int),
{
    let r = slice_subrange(v, 0, n);
    proof {
        assert(r@ =~= v@.take(n as int));
    }
    r
}

// ── Searching ───────────────────────────────────────────────────────

/// Whether the pattern stands in the text at position `i`.
pub open spec fn match_at(s: Seq<char>, p: Seq<char>, i: int) -> bool {
    0 <= i && i + p.len() <= s.len() && s.subrange(i, i + p.len()) == p
}

/// The first position from `from` on at which the pattern stands.
pub open spec fn find_from(s: Seq<char>, p: Seq<char>, from: int) -> Option<int>
    decreases s.len() + 1 - from,
{
    if from < 0 || from + p.len() > s.len() {
        None
    } else if match_at(s, p, from) {
        Some(from)
    } else {
        find_from(s, p, from + 1)
    }
}

/// The last position below `below` at which the pattern stands.
pub open spec fn rfind_below(s: Seq<char>, p: Seq<char>, below: int) -> Option<int>
    decreases below,
{
    if below <= 0 {
        None
    } else if match_at(s, p, below - 1) {
        Some(below - 1)
    } else {
        rfind_below(s, p, below - 1)
    }
}

/// Whether the text begins with the pattern.
pub open spec fn starts_with(s: Seq<char>, p: Seq<char>) -> bool {
    match_at(s, p, 0)
}

/// Whether the text ends with the pattern.
pub open spec fn ends_with(s: Seq<char>, p: Seq<char>) -> bool {
    match_at(s, p, s.len() - p.len())
}

/// Whether the pattern stands anywhere in the text.
pub open spec fn contains(s: Seq<char>, p: Seq<char>) -> bool {
    exists|i: int| match_at(s, p, i)
}

/// What `find_from` finds is the first match, and it finds one if there is one.
pub proof fn lemma_find_from(s: Seq<char>, p: Seq<char>, from: int)
    requires
        from >= 0,
    ensures
        find_from(s, p, from) matches Some(i) ==> from <= i && match_at(s, p, i) && forall|k: int|
            from <= k < i ==> !match_at(s, p, k),
        find_from(s, p, from) is None ==> forall|k: int| from <= k ==> !match_at(s, p, k),
    decreases s.len() + 1 - from,
{
    if from + p.len() > s.len() {
    } else if match_at(s, p, from) {
    } else {
        lemma_find_from(s, p, from + 1);
    }
}

/// What `rfind_below` finds is the last match, and it finds one if there is one.
pub proof fn lemma_rfind_below(s: Seq<char>, p: Seq<char>, below: int)
    ensures
        rfind_below(s, p, below) matches Some(i) ==> 0 <= i < below && match_at(s, p, i)
            && forall|k: int| i < k < below ==> !match_at(s, p, k),
        rfind_below(s, p, below) is None ==> forall|k: int| k < below ==> !match_at(s, p, k),
    decreases below,
{
    if below <= 0 {
    } else if match_at(s, p, below - 1) {
    } else {
        lemma_rfind_below(s, p, below - 1);
    }
}

pub fn is_match_at(s: &[char], p: &[char], i: usize) -> (r: bool)
    ensures
        r == match_at(s@, p@, i as int),
{
    if i > s.len() || p.len() > s.len() - i {
        return false;
    }
    chars_eq(slice_subrange(s, i, i + p.len()), p)
}

pub fn find_chars_from(s: &[char], p: &[char], from: usize) -> (r: Option<usize>)
    ensures
        r is Some <==> find_from(s@, p@, from as int) is Some,
        r matches Some(i) ==> find_from(s@, p@, from as int) == Some(i as int) && i + p@.len()
            <= s@.len() && i >= from,
{
    let mut i: usize = from;
    while i <= s.len() && p.len() <= s.len() - i
        invariant
            from <= i,
            find_from(s@, p@, i as int) == find_from(s@, p@, from as int),
        decreases s@.len() + 1 - i,
    {
        if is_match_at(s, p, i) {
            return Some(i);
        }
        proof {
            assert(p@.len() == 0 ==> s@.subrange(i as int, i as int) =~= p@);
        }
        i = i + 1;
    }
    None
}

pub fn rfind_chars_below(s: &[char], p: &[char], below: usize) -> (r: Option<usize>)
    ensures
        r is Some <==> rfind_below(s@, p@, below as int) is Some,
        r matches Some(i) ==> rfind_below(s@, p@, below as int) == Some(i as int) && i < below
            && i + p@.len() <= s@.len(),
{
    let mut i: usize = below;
    while i > 0
        invariant
            i <= below,
            rfind_below(s@, p@, i as int) == rfind_below(s@, p@, below as int),
        decreases i,
    {
        i = i - 1;
        if is_match_at(s, p, i) {
            return Some(i);
        }
    }
    None
}

pub fn chars_start_with(s: &[char], p: &[char]) -> (r: bool)
    ensures
        r == starts_with(s@, p@),
{
    is_match_at(s, p, 0)
}

pub fn chars_end_with(s: &[char], p: &[char]) -> (r: bool)
    ensures
        r == ends_with(s@, p@),
{
    p.len() <= s.len() && is_match_at(s, p, s.len() - p.len())
}

pub fn chars_contain(s: &[char], p: &[char]) -> (r: bool)
    ensures
        r == contains(s@, p@),
{
    proof {
        lemma_find_from(s@, p@, 0);
    }
    find_chars_from(s, p, 0).is_some()
}

/// A copy of a string.
pub fn copy_string(s: &str) -> (r: String)
    ensures
        r@ == s@,
{
    s.to_owned()
}

/// Whether the string begins with the literal pattern.
pub fn str_starts_with(s: &str, p: &str) -> (r: bool)
    ensures
        r == starts_with(s@, p@),
{
    let a = to_chars(s);
    let b = to_chars(p);
    chars_start_with(&a, &b)
}

/// Whether the literal pattern stands in the string.
pub fn str_contains(s: &str, p: &str) -> (r: bool)
    ensures
        r == contains(s@, p@),
{
    let a = to_chars(s);
    let b = to_chars(p);
    chars_contain(&a, &b)
}

// ── Offsets into the UTF-8 form ─────────────────────────────────────

/// The number of bytes that the UTF-8 form of a text takes.
pub open spec fn utf8_len(s: Seq<char>) -> nat {
    encode_utf8(s).len()
}

/// The UTF-8 form of a concatenation is the concatenation of the UTF-8 forms.
pub proof fn lemma_encode_concat(a: Seq<char>, b: Seq<char>)
    ensures
        encode_utf8(a + b) == encode_utf8(a) + encode_utf8(b),
    decreases a.len(),
{
    if a.len() == 0 {
        assert(a + b =~= b);
        assert(encode_utf8(a) + encode_utf8(b) =~= encode_utf8(b));
    } else {
        assert((a + b).drop_first() =~= a.drop_first() + b);
        lemma_encode_concat(a.drop_first(), b);
        assert(encode_utf8(a + b) =~= encode_utf8(a) + encode_utf8(b));
    }
}

/// The end of the UTF-8 form of a prefix is a character boundary of the whole.
proof fn lemma_prefix_boundary(a: Seq<char>, b: Seq<char>)
    ensures
        is_char_boundary(encode_utf8(a + b), utf8_len(a) as int),
    decreases a.len(),
{
    encode_utf8_valid_utf8(a + b);
    if a.len() > 0 {
        let whole = encode_utf8(a + b);
        encode_utf8_first_scalar(a + b);
        assert((a + b).drop_first() =~= a.drop_first() + b);
        assert(pop_first_scalar(whole) =~= encode_utf8(a.drop_first() + b));
        lemma_prefix_boundary(a.drop_first(), b);
        lemma_encode_concat(a, b);
        assert(length_of_first_scalar(whole) == encode_scalar(a[0] as u32).len());
    }
}

/// A text of characters has at least as many bytes as characters.
pub proof fn lemma_utf8_len_at_least(s: Seq<char>)
    ensures
        utf8_len(s) >= s.len(),
    decreases s.len(),
{
    if s.len() > 0 {
        lemma_utf8_len_at_least(s.drop_first());
    }
}

/// The number of bytes that one character takes.
pub fn char_utf8_len(c: char) -> (r: usize)
    ensures
        r == encode_scalar(c as u32).len(),
        1 <= r <= 4,
{
    let u: u32 = c as u32;
    if u < 0x80 {
        1
    } else if u < 0x800 {
        2
    } else if u < 0x10000 {
        3
    } else {
        4
    }
}

/// The number of bytes of the first `k` characters of a string.
pub(crate) fn prefix_utf8_len(s: &str, v: &[char], from: usize, to: usize) -> (r: usize)
    requires
        v@ == s@,
        from <= to <= v@.len(),
    ensures
        r == utf8_len(v@.subrange(from as int, to as int)),
{
    let mut n: usize = 0;
    let limit: usize = s.as_bytes().len();
    let mut i: usize = from;
    proof {
        assert(v@.subrange(from as int, from as int) =~= Seq::<char>::empty());
    }
    while i < to
        invariant
            from <= i <= to <= v@.len(),
            n == utf8_len(v@.subrange(from as int, i as int)),
            limit == utf8_len(v@),
        decreases to - i,
    {
        let k = char_utf8_len(v[i]);
        proof {
            let done = v@.subrange(from as int, i as int);
            let one = seq![v@[i as int]];
            assert(v@.subrange(from as int, i + 1) =~= done + one);
            lemma_encode_concat(done, one);
            assert(one.drop_first() =~= Seq::<char>::empty());
            reveal_with_fuel(encode_utf8, 2);
            assert(encode_utf8(one) =~= encode_scalar(v@[i as int] as u32));
            assert(v@ =~= v@.take(from as int) + (v@.subrange(from as int, i + 1) + v@.skip(i + 1)));
            lemma_encode_concat(v@.take(from as int), v@.subrange(from as int, i + 1) + v@.skip(i + 1));
            lemma_encode_concat(v@.subrange(from as int, i + 1), v@.skip(i + 1));
        }
        n = n + k;
        i = i + 1;
    }
    n
}

/// Splits a string after its first `k` characters, which take `n` bytes.
pub(crate) fn split_after<'a>(s: &'a str, n: usize, Ghost(k): Ghost<int>) -> (r: (&'a str, &'a str))
    requires
        0 <= k <= s@.len(),
        n == utf8_len(s@.take(k)),
    ensures
        r.0@ == s@.take(k),
        r.1@ == s@.skip(k),
{
    proof {
        let a = s@.take(k);
        let b = s@.skip(k);
        assert(a + b =~= s@);
        lemma_prefix_boundary(a, b);
        lemma_encode_concat(a, b);
        assert(encode_utf8(s@).subrange(0, n as int) =~= encode_utf8(a));
        assert(encode_utf8(s@).subrange(n as int, encode_utf8(s@).len() as int) =~= encode_utf8(b));
        encode_utf8_decode_utf8(a);
        encode_utf8_decode_utf8(b);
    }
    let r = s.split_at(n);
    proof {
        encode_utf8_decode_utf8(r.0@);
        encode_utf8_decode_utf8(r.1@);
    }
    r
}

// ── Joining and replacing ───────────────────────────────────────────

/// The parts with the separator between each two.
pub open spec fn join(parts: Seq<Seq<char>>, sep: Seq<char>) -> Seq<char>
    decreases parts.len(),
{
    if parts.len() == 0 {
        Seq::empty()
    } else if parts.len() == 1 {
        parts[0]
    } else {
        join(parts.drop_last(), sep) + sep + parts.last()
    }
}

/// The views of a sequence of strings.
pub open spec fn views(v: Seq<String>) -> Seq<Seq<char>> {
    Seq::new(v.len(), |i: int| v[i]@)
}

/// Joins strings with a separator between each two.
pub fn join_strings(parts: &[String], sep: &str) -> (r: String)
    ensures
        r@ == join(views(parts@), sep@),
{
    let mut out = String::new();
    for i in 0..parts.len()
        invariant
            out@ == join(views(parts@).take(i as int), sep@),
    {
        let ghost before = views(parts@).take(i as int);
        let ghost after = views(parts@).take(i + 1);
        proof {
            assert(after.drop_last() =~= before);
            assert(after.last() == parts@[i as int]@);
        }
        if i > 0 {
            out.push_str(sep);
            out.push_str(parts[i].as_str());
        } else {
            out.push_str(parts[i].as_str());
            proof {
                assert(Seq::<char>::empty() + parts@[0]@ =~= parts@[0]@);
            }
        }
    }
    proof {
        assert(views(parts@).take(parts@.len() as int) =~= views(parts@));
    }
    out
}

/// The text with every occurrence of the pattern replaced, found from left to
/// right without overlap. `p` is not empty.
pub open spec fn replace_from(s: Seq<char>, p: Seq<char>, with: Seq<char>, from: int) -> Seq<char>
    decreases s.len() - from,
{
    if p.len() == 0 || from < 0 || from >= s.len() {
        if 0 <= from <= s.len() { s.skip(from) } else { Seq::empty() }
    } else if match_at(s, p, from) {
        with + replace_from(s, p, with, from + p.len())
    } else {
        seq![s[from]] + replace_from(s, p, with, from + 1)
    }
}

/// The text with every occurrence of the pattern replaced.
pub open spec fn replace(s: Seq<char>, p: Seq<char>, with: Seq<char>) -> Seq<char> {
    replace_from(s, p, with, 0)
}

pub fn replace_chars(s: &[char], p: &[char], with: &[char]) -> (r: Vec<char>)
    requires
        p@.len() > 0,
    ensures
        r@ == replace(s@, p@, with@),
{
    let mut out: Vec<char> = Vec::new();
    let mut i: usize = 0;
    proof {
        assert(out@ + replace_from(s@, p@, with@, 0) =~= replace_from(s@, p@, with@, 0));
    }
    while i < s.len()
        invariant
            p@.len() > 0,
            i <= s@.len(),
            out@ + replace_from(s@, p@, with@, i as int) == replace(s@, p@, with@),
        decreases s@.len() - i,
    {
        if is_match_at(s, p, i) {
            let ghost before = out@;
            for k in 0..with.len()
                invariant
                    out@ == before + with@.take(k as int),
            {
                out.push(with[k]);
                proof {
                    assert(before + with@.take(k + 1) =~= (before + with@.take(k as int)).push(with@[k as int]));
                }
            }
            proof {
                assert(with@.take(with@.len() as int) =~= with@);
                assert((before + with@) + replace_from(s@, p@, with@, i + p@.len()) =~= before + (with@
                    + replace_from(s@, p@, with@, i + p@.len())));
            }
            i = i + p.len();
        } else {
            let ghost before = out@;
            out.push(s[i]);
            proof {
                assert(out@ + replace_from(s@, p@, with@, i + 1) =~= before + (seq![s@[i as int]]
                    + replace_from(s@, p@, with@, i + 1)));
            }
            i = i + 1;
        }
    }
    proof {
        assert(s@.skip(s@.len() as int) =~= Seq::<char>::empty());
        assert(out@ + Seq::<char>::empty() =~= out@);
    }
    out
}

// ── Lines ───────────────────────────────────────────────────────────

/// A line without a carriage return at its end.
pub open spec fn without_return(s: Seq<char>) -> Seq<char> {
    if s.len() > 0 && s.last() == '\r' {
        s.drop_last()
    } else {
        s
    }
}

/// The lines of a text from `start` on; no line ends from `start` to `i`.
pub open spec fn lines_from(s: Seq<char>, start: int, i: int) -> Seq<Seq<char>>
    decreases s.len() - i,
{
    if i >= s.len() {
        if start < s.len() {
            seq![s.subrange(start, s.len() as int)]
        } else {
            Seq::empty()
        }
    } else if s[i] == '\n' {
        seq![without_return(s.subrange(start, i))] + lines_from(s, i + 1, i + 1)
    } else {
        lines_from(s, start, i + 1)
    }
}

/// The lines of a text. A line ends with a line feed, before which a carriage
/// return may stand; the last one may have no end.
pub open spec fn lines(s: Seq<char>) -> Seq<Seq<char>> {
    lines_from(s, 0, 0)
}

/// Splits a text into lines.
pub fn split_lines(text: &str) -> (r: Vec<String>)
    ensures
        views(r@) == lines(text@),
{
    let s = to_chars(text);
    let ghost whole = lines(s@);
    let mut out: Vec<String> = Vec::new();
    let mut start: usize = 0;
    let mut i: usize = 0;
    proof {
        assert(views(out@) + lines_from(s@, 0, 0) =~= whole);
    }
    while i < s.len()
        invariant
            start <= i <= s@.len(),
            views(out@) + lines_from(s@, start as int, i as int) == whole,
        decreases s@.len() - i,
    {
        if s[i] == '\n' {
            let end: usize = if i > start && s[i - 1] == '\r' { i - 1 } else { i };
            let ghost before = views(out@);
            let line = slice_subrange(s.as_slice(), start, end);
            proof {
                let full = s@.subrange(start as int, i as int);
                assert(line@ =~= without_return(full));
            }
            let text = from_chars(line);
            out.push(text);
            proof {
                let part = without_return(s@.subrange(start as int, i as int));
                assert(views(out@) =~= before.push(part));
                assert(before + (seq![part] + lines_from(s@, i + 1, i + 1)) =~= before.push(part)
                    + lines_from(s@, i + 1, i + 1));
            }
            start = i + 1;
        }
        i = i + 1;
    }
    if start < s.len() {
        let ghost before = views(out@);
        let text = from_chars(slice_subrange(s.as_slice(), start, s.len()));
        out.push(text);
        proof {
            assert(views(out@) =~= before.push(s@.subrange(start as int, s@.len() as int)));
            assert(views(out@) =~= whole);
        }
    } else {
        proof {
            assert(views(out@) =~= whole);
        }
    }
    out
}

} // verus!
