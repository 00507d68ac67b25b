//! Characters and strings: the classes of characters that the scanner tells
//! apart, runs of characters of one class, and the few string operations the
//! rest of the crate is built on.

use vstd::prelude::*;

verus! {

/// Whether a code point beyond ASCII has Unicode's `Alphabetic` property.
pub uninterp spec fn unicode_alphabetic(c: char) -> bool;

/// Whether a code point beyond ASCII belongs to one of Unicode's general
/// categories for numbers.
pub uninterp spec fn unicode_numeric(c: char) -> bool;

/// Whether `c` is a character of ASCII.
pub open spec fn is_ascii(c: char) -> bool {
    c <= '\x7f'
}

/// Whether `c` is one of the digits `0` to `9`.
pub open spec fn is_digit(c: char) -> bool {
    '0' <= c <= '9'
}

/// Whether `c` is one of the letters `a` to `z` and `A` to `Z`.
pub open spec fn is_ascii_letter(c: char) -> bool {
    'a' <= c <= 'z' || 'A' <= c <= 'Z'
}

/// A letter: an ASCII letter, or a code point beyond ASCII that Unicode calls
/// alphabetic.
pub open spec fn is_letter(c: char) -> bool {
    is_ascii_letter(c) || (!is_ascii(c) && unicode_alphabetic(c))
}

/// A letter or a digit, of ASCII or of Unicode beyond it.
pub open spec fn is_letter_or_digit(c: char) -> bool {
    is_ascii_letter(c) || is_digit(c) || (!is_ascii(c) && (unicode_alphabetic(c)
        || unicode_numeric(c)))
}

/// A character that may begin an identifier.
pub open spec fn is_identifier_start(c: char) -> bool {
    c == '_' || is_letter(c)
}

/// A character that may continue an identifier.
pub open spec fn is_identifier_part(c: char) -> bool {
    c == '_' || is_letter_or_digit(c)
}

/// `char::is_alphabetic` of std. Within ASCII the alphabetic characters are the
/// letters `a` to `z` and `A` to `Z`; beyond ASCII the answer is that of the
/// Unicode tables, which stands here under the name `unicode_alphabetic`.
pub assume_specification[ char::is_alphabetic ](c: char) -> (r: bool)
    ensures
        r == (is_ascii_letter(c) || (!is_ascii(c) && unicode_alphabetic(c))),
;

/// `char::is_alphanumeric` of std, which is documented to hold of the
/// characters that are alphabetic or numeric. Within ASCII those are the
/// letters and the digits `0` to `9`; beyond ASCII the answer is that of the
/// Unicode tables, under the names `unicode_alphabetic` and `unicode_numeric`.
pub assume_specification[ char::is_alphanumeric ](c: char) -> (r: bool)
    ensures
        r == (is_ascii_letter(c) || is_digit(c) || (!is_ascii(c) && (unicode_alphabetic(c)
            || unicode_numeric(c)))),
;

/// `String::push` of std appends one character to the end of the string.
pub assume_specification[ std::string::String::push ](s: &mut std::string::String, c: char)
    ensures
        final(s)@ == old(s)@.push(c),
;

/// Equality of string slices in std compares the two texts character by
/// character.
pub assume_specification[ <str as PartialEq>::eq ](a: &str, b: &str) -> (r: bool)
    ensures
        r == (a@ == b@),
;

/// Whether `c` is one of the digits `0` to `9`.
pub fn is_ascii_digit(c: char) -> (r: bool)
    ensures
        r == is_digit(c),
{
    '0' <= c && c <= '9'
}

/// Whether `c` may begin an identifier.
pub fn is_identifier_start_char(c: char) -> (r: bool)
    ensures
        r == is_identifier_start(c),
{
    c == '_' || c.is_alphabetic()
}

/// Whether `c` may continue an identifier.
pub fn is_identifier_part_char(c: char) -> (r: bool)
    ensures
        r == is_identifier_part(c),
{
    c == '_' || c.is_alphanumeric()
}

/// Whether two string slices hold the same text.
pub fn same_text(a: &str, b: &str) -> (r: bool)
    ensures
        r == (a@ == b@),
{
    *a == *b
}

/// The characters of `s`, in order.
pub fn chars_of(s: &str) -> (v: Vec<char>)
    ensures
        v@ == s@,
{
    let mut v: Vec<char> = Vec::new();
    for c in it: s.chars()
        invariant
            v@ == it.seq().take(it.index()),
    {
        v.push(c);
    }
    v
}

/// Appends `chars[from..to]` to `s`.
pub fn push_chars(s: &mut String, chars: &Vec<char>, from: usize, to: usize)
    requires
        from <= to <= chars.len(),
    ensures
        final(s)@ == old(s)@ + chars@.subrange(from as int, to as int),
{
    let mut i: usize = from;
    while i < to
        invariant
            from <= i <= to <= chars.len(),
            s@ == old(s)@ + chars@.subrange(from as int, i as int),
        decreases to - i,
    {
        s.push(chars[i]);
        i += 1;
    }
}

/// The text `chars[from..to]` as a string.
pub fn text_of(chars: &Vec<char>, from: usize, to: usize) -> (s: String)
    requires
        from <= to <= chars.len(),
    ensures
        s@ == chars@.subrange(from as int, to as int),
{
    let mut s = String::new();
    push_chars(&mut s, chars, from, to);
    s
}

/// The character classes as predicates, for `run_end`.
pub open spec fn digits() -> spec_fn(char) -> bool {
    |c: char| is_digit(c)
}

/// The characters that may continue an identifier.
pub open spec fn identifier_parts() -> spec_fn(char) -> bool {
    |c: char| is_identifier_part(c)
}

/// The characters other than the line break.
pub open spec fn not_newline() -> spec_fn(char) -> bool {
    |c: char| c != '\n'
}

/// The characters other than the double quote.
pub open spec fn not_quote() -> spec_fn(char) -> bool {
    |c: char| c != '"'
}

/// Where the longest run of characters with property `p` that begins at
/// `from` ends: the first position at or after `from` that holds a character
/// without `p`, or the length of `s` if there is none.
pub open spec fn run_end(s: Seq<char>, from: int, p: spec_fn(char) -> bool) -> int
    decreases s.len() - from,
{
    if 0 <= from < s.len() && p(s[from]) {
        run_end(s, from + 1, p)
    } else {
        from
    }
}

/// A run ends at or after its start, within the text, on a character without
/// the property (or at the end), and holds only characters with it.
pub proof fn lemma_run_end(s: Seq<char>, from: int, p: spec_fn(char) -> bool)
    requires
        0 <= from <= s.len(),
    ensures
        from <= run_end(s, from, p) <= s.len(),
        run_end(s, from, p) < s.len() ==> !p(s[run_end(s, from, p)]),
        forall|i: int| from <= i < run_end(s, from, p) ==> p(#[trigger] s[i]),
    decreases s.len() - from,
{
    if from < s.len() && p(s[from]) {
        lemma_run_end(s, from + 1, p);
    }
}

/// A position that every character since `from` leads up to with the
/// property, and that itself lacks it or is the end, is where the run ends.
pub proof fn lemma_run_end_is(s: Seq<char>, from: int, p: spec_fn(char) -> bool, end: int)
    requires
        0 <= from <= end <= s.len(),
        forall|i: int| from <= i < end ==> p(#[trigger] s[i]),
        end < s.len() ==> !p(s[end]),
    ensures
        run_end(s, from, p) == end,
    decreases end - from,
{
    if from < end {
        lemma_run_end_is(s, from + 1, p, end);
    }
}

/// The number of line breaks in `s[from..to]`.
pub open spec fn newlines(s: Seq<char>, from: int, to: int) -> nat
    decreases to - from,
{
    if 0 <= from < to <= s.len() {
        newlines(s, from, to - 1) + if s[to - 1] == '\n' {
            1nat
        } else {
            0nat
        }
    } else {
        0
    }
}

/// A text has no more line breaks than characters.
pub proof fn lemma_newlines_bound(s: Seq<char>, from: int, to: int)
    requires
        0 <= from <= to <= s.len(),
    ensures
        newlines(s, from, to) <= to - from,
    decreases to - from,
{
    if from < to {
        lemma_newlines_bound(s, from, to - 1);
    }
}

/// The character that stands for the digit `d`.
pub open spec fn digit_char(d: nat) -> char {
    (d + 0x30) as char
}

/// `n` written in decimal, without leading zeros.
pub open spec fn decimal_text(n: nat) -> Seq<char>
    decreases n,
{
    if n < 10 {
        seq![digit_char(n)]
    } else {
        decimal_text(n / 10).push(digit_char(n % 10))
    }
}

/// Appends `n`, written in decimal, to `s`.
pub fn push_decimal(s: &mut String, n: usize)
    ensures
        final(s)@ == old(s)@ + decimal_text(n as nat),
    decreases n,
{
    if n >= 10 {
        push_decimal(s, n / 10);
    }
    let d: u8 = (n % 10) as u8;
    let c: char = (d + 0x30u8) as char;
    s.push(c);
}

} // verus!
