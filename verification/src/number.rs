//! Whole numbers in decimal notation.

use vstd::prelude::*;
use vstd::slice::slice_subrange;

verus! {

/// Whether `c` is one of the ten ASCII digits.
pub open spec fn is_digit(c: char) -> bool {
    '0' <= c && c <= '9'
}

/// Whether every character of `s` is a digit.
pub open spec fn all_digits(s: Seq<char>) -> bool {
    forall|i: int| 0 <= i < s.len() ==> is_digit(#[trigger] s[i])
}

/// The number that a row of digits stands for.
pub open spec fn decimal_value(s: Seq<char>) -> int
    decreases s.len(),
{
    if s.len() == 0 {
        0
    } else {
        10 * decimal_value(s.drop_last()) + (s.last() as int - '0' as int)
    }
}

/// The number that `s` stands for: at least one digit, and nothing else.
pub open spec fn natural(s: Seq<char>) -> Option<int> {
    if s.len() > 0 && all_digits(s) {
        Some(decimal_value(s))
    } else {
        None
    }
}

/// The number that `s` stands for: at least one digit, with at most one sign before it, and
/// nothing else.
pub open spec fn integer(s: Seq<char>) -> Option<int> {
    if s.len() > 0 && s[0] == '-' {
        match natural(s.drop_first()) {
            Some(v) => Some(-v),
            None => None,
        }
    } else if s.len() > 0 && s[0] == '+' {
        natural(s.drop_first())
    } else {
        natural(s)
    }
}

/// `n` where it lies between `low` and `high`.
pub open spec fn within(n: Option<int>, low: int, high: int) -> Option<int> {
    match n {
        Some(v) => if low <= v <= high {
            Some(v)
        } else {
            None
        },
        None => None,
    }
}

/// More digits never make a number smaller.
pub proof fn decimal_value_grows(s: Seq<char>, n: int)
    requires
        0 <= n <= s.len(),
        all_digits(s),
    ensures
        0 <= decimal_value(s.take(n)) <= decimal_value(s),
    decreases s.len(),
{
    if s.len() == 0 {
        assert(s.take(n) =~= s);
    } else {
        let head = s.drop_last();
        assert forall|i: int| 0 <= i < head.len() implies is_digit(#[trigger] head[i]) by {
            assert(head[i] == s[i]);
        }
        assert(is_digit(s[s.len() - 1]));
        if n == s.len() {
            assert(s.take(n) =~= s);
            decimal_value_grows(head, 0);
            assert(head.take(0) =~= Seq::<char>::empty());
        } else {
            assert(s.take(n) =~= head.take(n));
            decimal_value_grows(head, n);
        }
    }
}

/// The number that `s` stands for, where it has one that is no more than `limit`.
pub fn natural_up_to(s: &[char], limit: u64) -> (r: Option<u64>)
    ensures
        match r {
            Some(v) => within(natural(s@), 0, limit as int) == Some(v as int),
            None => within(natural(s@), 0, limit as int) is None,
        },
{
    if s.len() == 0 {
        return None;
    }
    let mut i: usize = 0;
    while i < s.len()
        invariant
            i <= s@.len(),
            forall|j: int| 0 <= j < i ==> is_digit(#[trigger] s@[j]),
        decreases s@.len() - i,
    {
        if !('0' <= s[i] && s[i] <= '9') {
            assert(!is_digit(s@[i as int]));
            return None;
        }
        i = i + 1;
    }
    let mut value: u64 = 0;
    let mut k: usize = 0;
    assert(s@.take(0) =~= Seq::<char>::empty());
    while k < s.len()
        invariant
            k <= s@.len(),
            s@.len() > 0,
            all_digits(s@),
            value == decimal_value(s@.take(k as int)),
            value <= limit,
        decreases s@.len() - k,
    {
        assert(is_digit(s@[k as int]));
        let d: u64 = (s[k] as u32 - '0' as u32) as u64;
        proof {
            assert(s@.take(k + 1).drop_last() =~= s@.take(k as int));
            assert(s@.take(k + 1).last() == s@[k as int]);
            decimal_value_grows(s@, k + 1);
        }
        if d > limit || value > (limit - d) / 10 {
            return None;
        }
        value = 10 * value + d;
        k = k + 1;
    }
    assert(s@.take(k as int) =~= s@);
    Some(value)
}

/// The number that `s` stands for, with or without a sign, where it fits an `i32`.
pub fn parse_i32(s: &[char]) -> (r: Option<i32>)
    ensures
        match r {
            Some(v) => within(integer(s@), i32::MIN as int, i32::MAX as int) == Some(v as int),
            None => within(integer(s@), i32::MIN as int, i32::MAX as int) is None,
        },
{
    if s.len() > 0 && (s[0] == '-' || s[0] == '+') {
        let digits = slice_subrange(s, 1, s.len());
        proof {
            assert(digits@ =~= s@.drop_first());
            if all_digits(digits@) {
                decimal_value_grows(digits@, 0);
                assert(digits@.take(0) =~= Seq::<char>::empty());
            }
        }
        if s[0] == '-' {
            match natural_up_to(digits, 2147483648) {
                Some(v) => Some((-(v as i64)) as i32),
                None => None,
            }
        } else {
            match natural_up_to(digits, 2147483647) {
                Some(v) => Some(v as i32),
                None => None,
            }
        }
    } else {
        proof {
            if all_digits(s@) {
                decimal_value_grows(s@, 0);
                assert(s@.take(0) =~= Seq::<char>::empty());
            }
        }
        match natural_up_to(s, 2147483647) {
            Some(v) => Some(v as i32),
            None => None,
        }
    }
}

/// The digit for a number below ten.
pub open spec fn digit_char(d: nat) -> char {
    ('0' as u32 + d) as char
}

/// `n` in decimal notation, without leading zeros.
pub open spec fn decimal(n: nat) -> Seq<char>
    decreases n,
{
    if n < 10 {
        seq![digit_char(n)]
    } else {
        decimal(n / 10).push(digit_char(n % 10))
    }
}

/// `n` in decimal notation, with a minus sign where it is negative.
pub open spec fn decimal_int(n: int) -> Seq<char> {
    if n < 0 {
        seq!['-'] + decimal((-n) as nat)
    } else {
        decimal(n as nat)
    }
}

/// `n` in decimal notation.
pub fn decimal_of(n: u64) -> (r: Vec<char>)
    ensures
        r@ == decimal(n as nat),
    decreases n,
{
    let last = ('0' as u8 + (n % 10) as u8) as char;
    if n < 10 {
        let mut out: Vec<char> = Vec::new();
        out.push(last);
        out
    } else {
        let mut out = decimal_of(n / 10);
        out.push(last);
        out
    }
}

/// `n` in decimal notation, with a minus sign where it is negative.
pub fn decimal_of_i32(n: i32) -> (r: Vec<char>)
    ensures
        r@ == decimal_int(n as int),
{
    if n < 0 {
        let mut digits = decimal_of((-(n as i64)) as u64);
        let mut out: Vec<char> = Vec::new();
        out.push('-');
        out.append(&mut digits);
        out
    } else {
        decimal_of(n as u64)
    }
}

/// Reading back a number written in decimal notation gives the number.
pub proof fn decimal_reads_back(n: nat)
    ensures
        decimal(n).len() > 0,
        all_digits(decimal(n)),
        decimal_value(decimal(n)) == n,
        natural(decimal(n)) == Some(n as int),
        integer(decimal(n)) == Some(n as int),
    decreases n,
{
    let s = decimal(n);
    if n < 10 {
        assert(s.drop_last() =~= Seq::<char>::empty());
        assert(decimal_value(s.drop_last()) == 0);
    } else {
        decimal_reads_back(n / 10);
        let head = decimal(n / 10);
        assert(s.drop_last() =~= head);
        assert forall|i: int| 0 <= i < s.len() implies is_digit(#[trigger] s[i]) by {
            if i < head.len() {
                assert(s[i] == head[i]);
            }
        }
    }
    assert(is_digit(s[0]));
}

/// Reading back an integer written in decimal notation gives the integer.
pub proof fn decimal_int_reads_back(n: int)
    ensures
        integer(decimal_int(n)) == Some(n),
{
    if n < 0 {
        decimal_reads_back((-n) as nat);
        assert(decimal_int(n).drop_first() =~= decimal((-n) as nat));
    } else {
        decimal_reads_back(n as nat);
    }
}

} // verus!
