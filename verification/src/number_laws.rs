//! The number that a numeral denotes: numerals have one value where, and only
//! where, they denote one number.

use vstd::prelude::*;
use crate::number::{
    all_digits, fraction_digits, is_numeral, is_shortest, lemma_numeral_parts,
    lemma_trim_leading_zeros, lemma_trim_trailing_zeros, numeral_value, shortest,
    trim_leading_zeros, trim_trailing_zeros, whole_digits,
};
use crate::text::{digits, is_digit, lemma_run_end};

verus! {

/// The digit that `c` stands for.
pub open spec fn digit_value(c: char) -> nat {
    (c as int - 0x30) as nat
}

/// The natural number that the digits `s` write.
pub open spec fn digits_value(s: Seq<char>) -> nat
    decreases s.len(),
{
    if s.len() == 0 {
        0
    } else {
        digits_value(s.drop_last()) * 10 + digit_value(s.last())
    }
}

/// Ten to the power of `k`.
pub open spec fn pow10(k: nat) -> nat
    decreases k,
{
    if k == 0 {
        1
    } else {
        10 * pow10((k - 1) as nat)
    }
}

/// Whether the digits `w1`, with `f1` behind the decimal point, and the digits
/// `w2`, with `f2` behind the point, write one number: the number that digits
/// `w` and `f` write is that of the digits `w` and `f` together, divided by
/// ten to the power of the length of `f`.
pub open spec fn same_number(w1: Seq<char>, f1: Seq<char>, w2: Seq<char>, f2: Seq<char>) -> bool {
    digits_value(w1 + f1) * pow10(f2.len()) == digits_value(w2 + f2) * pow10(f1.len())
}

/// Whether two numerals denote one number.
pub open spec fn denote_one(s: Seq<char>, t: Seq<char>) -> bool {
    same_number(whole_digits(s), fraction_digits(s), whole_digits(t), fraction_digits(t))
}

/// A power of ten is positive.
proof fn lemma_pow10_positive(k: nat)
    ensures
        pow10(k) > 0,
    decreases k,
{
    if k > 0 {
        lemma_pow10_positive((k - 1) as nat);
    }
}

/// The power of a sum is the product of the powers.
proof fn lemma_pow10_adds(a: nat, b: nat)
    ensures
        pow10(a + b) == pow10(a) * pow10(b),
    decreases a,
{
    if a > 0 {
        lemma_pow10_adds((a - 1) as nat, b);
        assert(10 * (pow10((a - 1) as nat) * pow10(b)) == (10 * pow10((a - 1) as nat)) * pow10(b))
            by (nonlinear_arith);
    } else {
        assert(1 * pow10(b) == pow10(b)) by (nonlinear_arith);
    }
}

/// The powers of ten grow with the exponent.
proof fn lemma_pow10_grows(a: nat, b: nat)
    requires
        a <= b,
    ensures
        pow10(a) <= pow10(b),
    decreases b,
{
    if a < b {
        lemma_pow10_grows(a, (b - 1) as nat);
    }
}

/// The value of digits with one more digit behind them.
proof fn lemma_value_push(s: Seq<char>, c: char)
    ensures
        digits_value(s + seq![c]) == digits_value(s) * 10 + digit_value(c),
{
    assert((s + seq![c]).drop_last() == s);
}

/// A zero before digits does not change their value.
proof fn lemma_value_leading_zero(s: Seq<char>)
    ensures
        digits_value(seq!['0'] + s) == digits_value(s),
    decreases s.len(),
{
    let t = seq!['0'] + s;
    if s.len() == 0 {
        assert(t.drop_last() == Seq::<char>::empty());
        assert(t.last() == '0');
        assert(digits_value(t.drop_last()) == 0);
    } else {
        assert(t.drop_last() == seq!['0'] + s.drop_last());
        assert(t.last() == s.last());
        lemma_value_leading_zero(s.drop_last());
    }
}

/// Taking the leading zeros from the digits before the point does not change
/// the value.
proof fn lemma_value_trim_leading(w: Seq<char>, f: Seq<char>)
    ensures
        digits_value(trim_leading_zeros(w) + f) == digits_value(w + f),
    decreases w.len(),
{
    if w.len() > 1 && w[0] == '0' {
        assert(w + f == seq!['0'] + (w.drop_first() + f));
        lemma_value_leading_zero(w.drop_first() + f);
        lemma_value_trim_leading(w.drop_first(), f);
    }
}

/// Taking the trailing zeros from the digits behind the point does not change
/// the number.
proof fn lemma_value_trim_trailing(w: Seq<char>, f: Seq<char>)
    ensures
        same_number(w, f, w, trim_trailing_zeros(f)),
    decreases f.len(),
{
    if f.len() > 0 && f.last() == '0' {
        let g = f.drop_last();
        let t = trim_trailing_zeros(g);
        lemma_value_trim_trailing(w, g);
        assert(w + f == (w + g) + seq!['0']);
        lemma_value_push(w + g, '0');
        let m = digits_value(w + g);
        let n = digits_value(w + t);
        let p = pow10(t.len());
        let q = pow10(g.len());
        assert(pow10(f.len()) == 10 * q);
        assert(digits_value(w + f) == m * 10);
        assert((m * 10) * p == n * (10 * q)) by (nonlinear_arith)
            requires
                m * p == n * q,
        ;
    }
}

/// The digits of a number and the digits of its shortest numeral write one
/// number.
pub proof fn lemma_shortest_same_number(w: Seq<char>, f: Seq<char>)
    ensures
        same_number(w, f, trim_leading_zeros(w), trim_trailing_zeros(f)),
{
    lemma_value_trim_trailing(w, f);
    lemma_value_trim_leading(w, trim_trailing_zeros(f));
}

/// Writing one number is transitive.
proof fn lemma_same_number_chain(
    w1: Seq<char>,
    f1: Seq<char>,
    w2: Seq<char>,
    f2: Seq<char>,
    w3: Seq<char>,
    f3: Seq<char>,
)
    requires
        same_number(w1, f1, w2, f2),
        same_number(w2, f2, w3, f3),
    ensures
        same_number(w1, f1, w3, f3),
{
    let m1 = digits_value(w1 + f1);
    let m2 = digits_value(w2 + f2);
    let m3 = digits_value(w3 + f3);
    let p1 = pow10(f1.len());
    let p2 = pow10(f2.len());
    let p3 = pow10(f3.len());
    lemma_pow10_positive(f2.len());
    assert(m1 * p3 == m3 * p1) by (nonlinear_arith)
        requires
            m1 * p2 == m2 * p1,
            m2 * p3 == m3 * p2,
            p2 > 0,
    {
        assert((m1 * p3) * p2 == (m1 * p2) * p3);
        assert((m2 * p1) * p3 == (m2 * p3) * p1);
        assert((m3 * p2) * p1 == (m3 * p1) * p2);
    }
}

/// Digits write a number below the power of ten of their length.
proof fn lemma_value_below(s: Seq<char>)
    requires
        all_digits(s),
    ensures
        digits_value(s) < pow10(s.len()),
    decreases s.len(),
{
    if s.len() > 0 {
        let r = s.drop_last();
        assert forall|i: int| 0 <= i < r.len() implies is_digit(#[trigger] r[i]) by {
            assert(r[i] == s[i]);
        }
        lemma_value_below(r);
        assert(is_digit(s[s.len() - 1]));
    }
}

/// Digits that do not begin with a zero write a number that is at least the
/// power of ten of their length less one.
proof fn lemma_value_above(s: Seq<char>)
    requires
        all_digits(s),
        s.len() > 0,
        s[0] != '0',
    ensures
        digits_value(s) >= pow10((s.len() - 1) as nat),
    decreases s.len(),
{
    let r = s.drop_last();
    assert(is_digit(s[s.len() - 1]));
    assert(is_digit(s[0]));
    if s.len() == 1 {
        assert(r.len() == 0);
    } else {
        assert forall|i: int| 0 <= i < r.len() implies is_digit(#[trigger] r[i]) by {
            assert(r[i] == s[i]);
        }
        assert(r[0] == s[0]);
        lemma_value_above(r);
    }
}

/// Digits of one length behind other digits: where the two write one number,
/// the digits behind are the same, and the digits before write one number.
proof fn lemma_value_suffix(a: Seq<char>, f1: Seq<char>, b: Seq<char>, f2: Seq<char>)
    requires
        all_digits(f1),
        all_digits(f2),
        f1.len() == f2.len(),
        digits_value(a + f1) == digits_value(b + f2),
    ensures
        f1 == f2,
        digits_value(a) == digits_value(b),
    decreases f1.len(),
{
    if f1.len() == 0 {
        assert(a + f1 == a);
        assert(b + f2 == b);
        assert(f1 == f2);
    } else {
        let g1 = f1.drop_last();
        let g2 = f2.drop_last();
        assert(a + f1 == (a + g1) + seq![f1.last()]);
        assert(b + f2 == (b + g2) + seq![f2.last()]);
        lemma_value_push(a + g1, f1.last());
        lemma_value_push(b + g2, f2.last());
        assert(is_digit(f1[f1.len() - 1]));
        assert(is_digit(f2[f2.len() - 1]));
        assert forall|i: int| 0 <= i < g1.len() implies is_digit(#[trigger] g1[i]) by {
            assert(g1[i] == f1[i]);
        }
        assert forall|i: int| 0 <= i < g2.len() implies is_digit(#[trigger] g2[i]) by {
            assert(g2[i] == f2[i]);
        }
        assert(f1.last() == f2.last());
        lemma_value_suffix(a, g1, b, g2);
        assert(f1 == g1.push(f1.last()));
        assert(f2 == g2.push(f2.last()));
    }
}

/// Whether digits are those of a shortest numeral before its point: at least
/// one, and no zero first but the one that stands alone.
pub open spec fn trimmed_whole(w: Seq<char>) -> bool {
    all_digits(w) && w.len() > 0 && (w.len() == 1 || w[0] != '0')
}

/// Whether digits are those of a shortest numeral behind its point: no zero
/// last.
pub open spec fn trimmed_fraction(f: Seq<char>) -> bool {
    all_digits(f) && (f.len() == 0 || f.last() != '0')
}

/// Digits without needless zeros that write one number are the same digits.
proof fn lemma_whole_unique(w1: Seq<char>, w2: Seq<char>)
    requires
        trimmed_whole(w1),
        trimmed_whole(w2),
        digits_value(w1) == digits_value(w2),
    ensures
        w1 == w2,
{
    let e = Seq::<char>::empty();
    assert(is_digit(w1[0]) && is_digit(w2[0]));
    lemma_value_below(w1);
    lemma_value_below(w2);
    if w1[0] == '0' {
        assert(w1.drop_last() == e);
        assert(w1.last() == '0');
        assert(digits_value(e) == 0);
        assert(digits_value(w1) == 0);
        if w2[0] != '0' {
            lemma_value_above(w2);
            lemma_pow10_positive((w2.len() - 1) as nat);
        } else {
            assert(w1 =~= w2);
        }
    } else if w2[0] == '0' {
        assert(w2.drop_last() == e);
        assert(w2.last() == '0');
        assert(digits_value(e) == 0);
        assert(digits_value(w2) == 0);
        lemma_value_above(w1);
        lemma_pow10_positive((w1.len() - 1) as nat);
    } else {
        lemma_value_above(w1);
        lemma_value_above(w2);
        if w1.len() < w2.len() {
            lemma_pow10_grows(w1.len(), (w2.len() - 1) as nat);
        } else if w2.len() < w1.len() {
            lemma_pow10_grows(w2.len(), (w1.len() - 1) as nat);
        } else {
            assert(e + w1 == w1);
            assert(e + w2 == w2);
            lemma_value_suffix(e, w1, e, w2);
        }
    }
}

/// Digits behind the point, without needless zeros: where two numerals write
/// one number, neither has more of them than the other.
proof fn lemma_scale_unique(w1: Seq<char>, f1: Seq<char>, w2: Seq<char>, f2: Seq<char>)
    requires
        trimmed_fraction(f1),
        same_number(w1, f1, w2, f2),
    ensures
        f1.len() <= f2.len(),
{
    if f1.len() > f2.len() {
        let d = (f1.len() - f2.len()) as nat;
        let m1 = digits_value(w1 + f1);
        let m2 = digits_value(w2 + f2);
        let p2 = pow10(f2.len());
        lemma_pow10_adds(f2.len(), d);
        lemma_pow10_positive(f2.len());
        let r = pow10((d - 1) as nat);
        assert(pow10(d) == 10 * r);
        assert(m1 == m2 * (10 * r)) by (nonlinear_arith)
            requires
                m1 * p2 == m2 * (p2 * (10 * r)),
                p2 > 0,
        {
            assert(m2 * (p2 * (10 * r)) == (m2 * (10 * r)) * p2);
        }
        assert(m1 == (m2 * r) * 10) by (nonlinear_arith)
            requires
                m1 == m2 * (10 * r),
        ;
        assert(w1 + f1 == (w1 + f1.drop_last()) + seq![f1.last()]);
        lemma_value_push(w1 + f1.drop_last(), f1.last());
        assert(is_digit(f1[f1.len() - 1]));
        let k = digits_value(w1 + f1.drop_last());
        let c = digit_value(f1.last());
        assert(1 <= c <= 9);
        assert(false) by (nonlinear_arith)
            requires
                k * 10 + c == (m2 * r) * 10,
                1 <= c <= 9,
        ;
    }
}

/// Digits without needless zeros that write one number are the same digits,
/// before the point and behind it.
pub proof fn lemma_trimmed_unique(w1: Seq<char>, f1: Seq<char>, w2: Seq<char>, f2: Seq<char>)
    requires
        trimmed_whole(w1),
        trimmed_fraction(f1),
        trimmed_whole(w2),
        trimmed_fraction(f2),
        same_number(w1, f1, w2, f2),
    ensures
        w1 == w2,
        f1 == f2,
{
    lemma_scale_unique(w1, f1, w2, f2);
    lemma_scale_unique(w2, f2, w1, f1);
    let p = pow10(f1.len());
    lemma_pow10_positive(f1.len());
    let m1 = digits_value(w1 + f1);
    let m2 = digits_value(w2 + f2);
    assert(m1 == m2) by (nonlinear_arith)
        requires
            m1 * p == m2 * p,
            p > 0,
    ;
    lemma_value_suffix(w1, f1, w2, f2);
    lemma_whole_unique(w1, w2);
}

/// The parts of a numeral are digits, at least one before the point.
pub proof fn lemma_numeral_digits(s: Seq<char>)
    requires
        is_numeral(s),
    ensures
        all_digits(whole_digits(s)),
        whole_digits(s).len() > 0,
        all_digits(fraction_digits(s)),
{
    lemma_run_end(s, 0, digits());
    let w = whole_digits(s);
    assert forall|i: int| 0 <= i < w.len() implies is_digit(#[trigger] w[i]) by {
        assert(digits()(s[i]));
    }
    let f = fraction_digits(s);
    if w.len() < s.len() {
        lemma_run_end(s, w.len() as int + 1, digits());
        assert forall|i: int| 0 <= i < f.len() implies is_digit(#[trigger] f[i]) by {
            assert(digits()(s[w.len() + 1 + i]));
        }
    }
}

/// The parts of the value of a numeral: the digits of the numeral without the
/// zeros that it has no need of.
proof fn lemma_value_parts(s: Seq<char>)
    requires
        is_numeral(s),
    ensures
        is_shortest(numeral_value(s)),
        whole_digits(numeral_value(s)) == trim_leading_zeros(whole_digits(s)),
        fraction_digits(numeral_value(s)) == trim_trailing_zeros(fraction_digits(s)),
        trimmed_whole(whole_digits(numeral_value(s))),
        trimmed_fraction(fraction_digits(numeral_value(s))),
{
    lemma_numeral_digits(s);
    lemma_trim_leading_zeros(whole_digits(s));
    lemma_trim_trailing_zeros(fraction_digits(s));
    lemma_numeral_parts(
        trim_leading_zeros(whole_digits(s)),
        trim_trailing_zeros(fraction_digits(s)),
    );
}

/// A numeral and its value denote one number.
pub proof fn lemma_value_denotes(s: Seq<char>)
    requires
        is_numeral(s),
    ensures
        denote_one(s, numeral_value(s)),
{
    lemma_value_parts(s);
    lemma_shortest_same_number(whole_digits(s), fraction_digits(s));
}

/// Two numerals have one value where, and only where, they denote one
/// number.
pub proof fn lemma_value_is_number(s: Seq<char>, t: Seq<char>)
    requires
        is_numeral(s),
        is_numeral(t),
    ensures
        numeral_value(s) == numeral_value(t) <==> denote_one(s, t),
{
    let u = numeral_value(s);
    let v = numeral_value(t);
    lemma_value_parts(s);
    lemma_value_parts(t);
    lemma_value_denotes(s);
    lemma_value_denotes(t);
    let (ws, fs) = (whole_digits(s), fraction_digits(s));
    let (wt, ft) = (whole_digits(t), fraction_digits(t));
    let (wu, fu) = (whole_digits(u), fraction_digits(u));
    let (wv, fv) = (whole_digits(v), fraction_digits(v));
    if u == v {
        lemma_same_number_chain(ws, fs, wu, fu, wt, ft);
    }
    if denote_one(s, t) {
        lemma_same_number_chain(wu, fu, ws, fs, wt, ft);
        lemma_same_number_chain(wu, fu, wt, ft, wv, fv);
        lemma_trimmed_unique(wu, fu, wv, fv);
        assert(u == shortest(wu, fu));
        assert(v == shortest(wv, fv));
    }
}

} // verus!
