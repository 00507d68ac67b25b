//! Number literals, held exactly: a number is the decimal numeral that denotes
//! it, in its shortest form.

use vstd::prelude::*;
use crate::text::{
    chars_of, digits, is_ascii_digit, is_digit, lemma_run_end_is, push_chars, run_end,
};

verus! {

/// `s` without its leading zeros, the last digit excepted.
pub open spec fn trim_leading_zeros(s: Seq<char>) -> Seq<char>
    decreases s.len(),
{
    if s.len() > 1 && s[0] == '0' {
        trim_leading_zeros(s.drop_first())
    } else {
        s
    }
}

/// `s` without its trailing zeros.
pub open spec fn trim_trailing_zeros(s: Seq<char>) -> Seq<char>
    decreases s.len(),
{
    if s.len() > 0 && s.last() == '0' {
        trim_trailing_zeros(s.drop_last())
    } else {
        s
    }
}

/// The shortest numeral for the number whose integer part is written `whole`
/// and whose fractional part is written `fraction`: no leading zeros, no
/// trailing zeros, and no decimal point where no fractional digit is left.
pub open spec fn shortest(whole: Seq<char>, fraction: Seq<char>) -> Seq<char> {
    let w = trim_leading_zeros(whole);
    let f = trim_trailing_zeros(fraction);
    if f.len() == 0 {
        w
    } else {
        w + seq!['.'] + f
    }
}

/// Whether `s` holds digits alone.
pub open spec fn all_digits(s: Seq<char>) -> bool {
    forall|i: int| 0 <= i < s.len() ==> is_digit(#[trigger] s[i])
}

/// Where the integer part of a numeral ends.
pub open spec fn whole_end(s: Seq<char>) -> int {
    run_end(s, 0, digits())
}

/// A numeral: digits, then optionally a decimal point and digits; at least one
/// digit in each place.
pub open spec fn is_numeral(s: Seq<char>) -> bool {
    let w = whole_end(s);
    &&& 0 < w
    &&& w < s.len() ==> {
        &&& s[w] == '.'
        &&& w + 1 < s.len()
        &&& run_end(s, w + 1, digits()) == s.len()
    }
}

/// The digits of a numeral before its decimal point.
pub open spec fn whole_digits(s: Seq<char>) -> Seq<char> {
    s.subrange(0, whole_end(s))
}

/// The digits of a numeral after its decimal point; none where it has no point.
pub open spec fn fraction_digits(s: Seq<char>) -> Seq<char> {
    if whole_end(s) < s.len() {
        s.subrange(whole_end(s) + 1, s.len() as int)
    } else {
        Seq::empty()
    }
}

/// What a numeral denotes.
pub open spec fn numeral_value(s: Seq<char>) -> Seq<char> {
    shortest(whole_digits(s), fraction_digits(s))
}

/// A numeral that is the shortest for what it denotes.
pub open spec fn is_shortest(s: Seq<char>) -> bool {
    is_numeral(s) && numeral_value(s) == s
}

/// Digits without their leading zeros are digits still, at least one, with no
/// zero to take from the front.
pub proof fn lemma_trim_leading_zeros(s: Seq<char>)
    requires
        all_digits(s),
        s.len() > 0,
    ensures
        all_digits(trim_leading_zeros(s)),
        trim_leading_zeros(s).len() > 0,
        trim_leading_zeros(s).len() == 1 || trim_leading_zeros(s)[0] != '0',
        trim_leading_zeros(trim_leading_zeros(s)) == trim_leading_zeros(s),
    decreases s.len(),
{
    if s.len() > 1 && s[0] == '0' {
        let rest = s.drop_first();
        assert forall|i: int| 0 <= i < rest.len() implies is_digit(#[trigger] rest[i]) by {}
        lemma_trim_leading_zeros(rest);
    }
}

/// Digits without their trailing zeros are digits still, with no zero to take
/// from the back.
pub proof fn lemma_trim_trailing_zeros(s: Seq<char>)
    requires
        all_digits(s),
    ensures
        all_digits(trim_trailing_zeros(s)),
        trim_trailing_zeros(s).len() == 0 || trim_trailing_zeros(s).last() != '0',
        trim_trailing_zeros(trim_trailing_zeros(s)) == trim_trailing_zeros(s),
    decreases s.len(),
{
    if s.len() > 0 && s.last() == '0' {
        let rest = s.drop_last();
        assert forall|i: int| 0 <= i < rest.len() implies is_digit(#[trigger] rest[i]) by {}
        lemma_trim_trailing_zeros(rest);
    }
}

/// The parts of a numeral that is written as digits, or as digits, a decimal
/// point and more digits.
pub proof fn lemma_numeral_parts(whole: Seq<char>, fraction: Seq<char>)
    requires
        all_digits(whole),
        whole.len() > 0,
        all_digits(fraction),
    ensures
        ({
            let s = if fraction.len() == 0 {
                whole
            } else {
                whole + seq!['.'] + fraction
            };
            &&& is_numeral(s)
            &&& whole_digits(s) == whole
            &&& fraction_digits(s) == fraction
        }),
{
    let s = if fraction.len() == 0 {
        whole
    } else {
        whole + seq!['.'] + fraction
    };
    let w = whole.len() as int;
    assert forall|i: int| 0 <= i < w implies digits()(#[trigger] s[i]) by {}
    lemma_run_end_is(s, 0, digits(), w);
    if fraction.len() > 0 {
        assert forall|i: int| w + 1 <= i < s.len() implies digits()(#[trigger] s[i]) by {}
        lemma_run_end_is(s, w + 1, digits(), s.len() as int);
    }
}

/// The shortest numeral of a number is a numeral, and none is shorter.
pub proof fn lemma_shortest(whole: Seq<char>, fraction: Seq<char>)
    requires
        all_digits(whole),
        whole.len() > 0,
        all_digits(fraction),
    ensures
        is_shortest(shortest(whole, fraction)),
{
    lemma_trim_leading_zeros(whole);
    lemma_trim_trailing_zeros(fraction);
    lemma_numeral_parts(trim_leading_zeros(whole), trim_trailing_zeros(fraction));
}

/// A number, as the shortest decimal numeral that denotes it.
#[derive(Debug)]
pub struct Number {
    text: String,
}

impl View for Number {
    type V = Seq<char>;

    closed spec fn view(&self) -> Seq<char> {
        self.text@
    }
}

impl PartialEq for Number {
    fn eq(&self, other: &Self) -> (r: bool) {
        self.text == other.text
    }
}

impl vstd::std_specs::cmp::PartialEqSpecImpl for Number {
    open spec fn obeys_eq_spec() -> bool {
        true
    }

    /// Two numbers are equal where their numerals are.
    open spec fn eq_spec(&self, other: &Self) -> bool {
        self@ == other@
    }
}

impl Clone for Number {
    fn clone(&self) -> (r: Self)
        ensures
            r@ == self@,
    {
        Number { text: self.text.clone() }
    }
}

impl Number {
    /// The number written `chars[start..end]`, where the integer part ends at
    /// `point`: either `point == end`, or a decimal point stands at `point` and
    /// fractional digits follow it.
    pub fn from_digits(chars: &Vec<char>, start: usize, point: usize, end: usize) -> (n: Number)
        requires
            start < point <= end <= chars.len(),
            point < end ==> point + 1 < end,
            forall|i: int| start <= i < point ==> is_digit(#[trigger] chars@[i]),
            forall|i: int| point < i < end ==> is_digit(#[trigger] chars@[i]),
        ensures
            is_shortest(n@),
            n@ == shortest(
                chars@.subrange(start as int, point as int),
                if point < end {
                    chars@.subrange(point + 1, end as int)
                } else {
                    Seq::empty()
                },
            ),
    {
        let ghost whole = chars@.subrange(start as int, point as int);
        let ghost fraction = if point < end {
            chars@.subrange(point + 1, end as int)
        } else {
            Seq::empty()
        };
        let mut first: usize = start;
        while first + 1 < point && chars[first] == '0'
            invariant
                start <= first < point <= chars.len(),
                trim_leading_zeros(whole) == trim_leading_zeros(
                    chars@.subrange(first as int, point as int),
                ),
            decreases point - first,
        {
            assert(chars@.subrange(first as int, point as int).drop_first() == chars@.subrange(
                first + 1,
                point as int,
            ));
            first += 1;
        }
        let mut text = String::new();
        push_chars(&mut text, chars, first, point);
        if point < end {
            let mut last: usize = end;
            while point + 1 < last && chars[last - 1] == '0'
                invariant
                    point + 1 <= last <= end <= chars.len(),
                    trim_trailing_zeros(fraction) == trim_trailing_zeros(
                        chars@.subrange(point + 1, last as int),
                    ),
                decreases last,
            {
                assert(chars@.subrange(point + 1, last as int).drop_last() == chars@.subrange(
                    point + 1,
                    last - 1,
                ));
                last -= 1;
            }
            if point + 1 < last {
                text.push('.');
                push_chars(&mut text, chars, point + 1, last);
            }
        }
        proof {
            assert forall|i: int| 0 <= i < whole.len() implies is_digit(#[trigger] whole[i]) by {}
            assert forall|i: int| 0 <= i < fraction.len() implies is_digit(
                #[trigger] fraction[i],
            ) by {}
            lemma_shortest(whole, fraction);
            assert(text@ == shortest(whole, fraction));
        }
        Number { text }
    }

    /// Reads a numeral. Text that is no numeral denotes no number.
    pub fn parse(text: &str) -> (r: Option<Number>)
        ensures
            r is Some <==> is_numeral(text@),
            r matches Some(n) ==> n@ == numeral_value(text@) && is_shortest(n@),
    {
        let chars = chars_of(text);
        let n: usize = chars.len();
        let mut point: usize = 0;
        while point < n && is_ascii_digit(chars[point])
            invariant
                point <= n == chars.len(),
                forall|i: int| 0 <= i < point ==> is_digit(#[trigger] chars@[i]),
            decreases n - point,
        {
            point += 1;
        }
        proof {
            assert forall|i: int| 0 <= i < point implies digits()(#[trigger] chars@[i]) by {}
            lemma_run_end_is(chars@, 0, digits(), point as int);
        }
        if point == 0 {
            return None;
        }
        if point == n {
            return Some(Number::from_digits(&chars, 0, point, n));
        }
        if chars[point] != '.' || point + 1 >= n {
            return None;
        }
        let mut end: usize = point + 1;
        while end < n && is_ascii_digit(chars[end])
            invariant
                point < end <= n == chars.len(),
                forall|i: int| point < i < end ==> is_digit(#[trigger] chars@[i]),
            decreases n - end,
        {
            end += 1;
        }
        proof {
            assert forall|i: int| point + 1 <= i < end implies digits()(#[trigger] chars@[i]) by {}
            lemma_run_end_is(chars@, point + 1, digits(), end as int);
        }
        if end < n {
            return None;
        }
        Some(Number::from_digits(&chars, 0, point, n))
    }

    /// The numeral, as text.
    pub fn text(&self) -> (r: &str)
        ensures
            r@ == self@,
    {
        self.text.as_str()
    }
}

} // verus!
