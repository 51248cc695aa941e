//! Laws of decimal notation.

use vstd::prelude::*;
use crate::number;

verus! {

/// A digit stands for its distance from `0`.
pub proof fn digits_have_their_value(c: char)
    ensures
        number::decimal_value(seq![c]) == c as int - 48,
        number::is_digit(c) <==> 48 <= c as int <= 57,
{
    let s = seq![c];
    assert(s.drop_last() =~= Seq::<char>::empty());
    assert(number::decimal_value(s.drop_last()) == 0);
}

/// Each further place is worth ten times as much: a row of digits is worth what its beginning is
/// worth, moved by the places that follow, and what these are worth.
pub proof fn places_are_worth_ten_times_as_much(a: Seq<char>, b: Seq<char>)
    ensures
        number::decimal_value(a + b) == number::decimal_value(a) * vstd::arithmetic::power::pow(
            10,
            b.len(),
        ) + number::decimal_value(b),
    decreases b.len(),
{
    let s = a + b;
    if b.len() == 0 {
        assert(s =~= a);
        vstd::arithmetic::power::lemma_pow0(10);
    } else {
        let shorter = b.drop_last();
        places_are_worth_ten_times_as_much(a, shorter);
        assert(s.drop_last() =~= a + shorter);
        assert(s.last() == b.last());
        let v = number::decimal_value(a);
        let p = vstd::arithmetic::power::pow(10, shorter.len());
        reveal(vstd::arithmetic::power::pow);
        assert(vstd::arithmetic::power::pow(10, b.len()) == 10 * p);
        assert(10 * (v * p) == v * (10 * p)) by (nonlinear_arith);
    }
}

/// A text stands for a natural number just when it is made of digits, and of at least one.
pub proof fn naturals_are_rows_of_digits(s: Seq<char>)
    ensures
        number::natural(s) is Some <==> s.len() > 0 && forall|i: int|
            0 <= i < s.len() ==> 48 <= (#[trigger] s[i]) as int <= 57,
        number::natural(s) matches Some(v) ==> v == number::decimal_value(s) && v >= 0,
{
    if number::all_digits(s) {
        assert forall|i: int| 0 <= i < s.len() implies 48 <= (#[trigger] s[i]) as int <= 57 by {
            assert(number::is_digit(s[i]));
        }
        number::decimal_value_grows(s, 0);
        assert(s.take(0) =~= Seq::<char>::empty());
    }
    if s.len() > 0 && forall|i: int| 0 <= i < s.len() ==> 48 <= (#[trigger] s[i]) as int <= 57 {
        assert forall|i: int| 0 <= i < s.len() implies number::is_digit(#[trigger] s[i]) by {
            assert(48 <= s[i] as int <= 57);
        }
    }
}

/// A number that lies between two bounds is kept, and any other is not.
pub proof fn bounds_of_numbers(v: int, low: int, high: int)
    ensures
        low <= v <= high ==> number::within(Some(v), low, high) == Some(v),
        v < low || high < v ==> number::within(Some(v), low, high) is None,
        number::within(None, low, high) is None,
{
}

/// A minus sign turns a number round, a plus sign makes no difference, and no other sign counts.
pub proof fn signs_of_numbers(s: Seq<char>)
    ensures
        number::integer(seq!['-'] + s) == match number::natural(s) {
            Some(v) => Some(-v),
            None => None,
        },
        number::integer(seq!['+'] + s) == number::natural(s),
        s.len() == 0 || (s[0] != '-' && s[0] != '+') ==> number::integer(s) == number::natural(s),
{
    assert((seq!['-'] + s).drop_first() =~= s);
    assert((seq!['+'] + s).drop_first() =~= s);
}

/// A number above 0 is written without a zero in front.
pub proof fn no_zero_in_front(n: nat)
    requires
        n > 0,
    ensures
        number::decimal(n).len() > 0,
        number::decimal(n)[0] != '0',
    decreases n,
{
    if n >= 10 {
        no_zero_in_front(n / 10);
        assert(number::decimal(n)[0] == number::decimal(n / 10)[0]);
    }
}

/// Whether `s` writes `n` as it is usually written: with digits, without zeros in front, and with
/// a minus sign where it is negative.
pub open spec fn writes(s: Seq<char>, n: int) -> bool {
    let digits = if n < 0 {
        s.drop_first()
    } else {
        s
    };
    &&& n < 0 ==> s.len() > 0 && s[0] == '-'
    &&& digits.len() > 0
    &&& forall|i: int| 0 <= i < digits.len() ==> 48 <= (#[trigger] digits[i]) as int <= 57
    &&& digits[0] == '0' ==> digits.len() == 1
    &&& number::integer(s) == Some(n)
}

/// Numbers are written as usual.
pub proof fn numbers_are_written_as_usual(n: int)
    ensures
        writes(number::decimal_int(n), n),
        n >= 0 ==> number::decimal_int(n) == number::decimal(n as nat),
{
    let s = number::decimal_int(n);
    let v: nat = if n < 0 {
        (-n) as nat
    } else {
        n as nat
    };
    let digits = number::decimal(v);
    number::decimal_int_reads_back(n);
    number::decimal_reads_back(v);
    naturals_are_rows_of_digits(digits);
    if v > 0 {
        no_zero_in_front(v);
    } else {
        assert(digits.len() == 1);
    }
    if n < 0 {
        assert(s.drop_first() =~= digits);
    }
}

} // verus!
