//! Reading numbers from text: the cursors and ids of requests.

use vstd::prelude::*;

verus! {

/// The value of the digit `c` in the base `base`, where it is one.
pub open spec fn digit_of(c: char, base: int) -> Option<int> {
    let v = c as int;
    let d = if 48 <= v <= 57 {
        v - 48
    } else if 97 <= v <= 102 {
        v - 87
    } else if 65 <= v <= 70 {
        v - 55
    } else {
        -1
    };
    if 0 <= d < base {
        Some(d)
    } else {
        None
    }
}

/// The number that the digits `s` write in the base `base`, where `s` is
/// one digit or more and holds nothing else.
pub open spec fn number_of(s: Seq<char>, base: int) -> Option<int>
    decreases s.len(),
{
    if s.len() == 0 {
        None
    } else {
        match digit_of(s.last(), base) {
            None => None,
            Some(d) => if s.len() == 1 {
                Some(d)
            } else {
                match number_of(s.drop_last(), base) {
                    None => None,
                    Some(v) => Some(v * base + d),
                }
            },
        }
    }
}

/// The number that the digits `s` write, where it is at most `max`.
pub open spec fn bounded_number(s: Seq<char>, base: int, max: int) -> Option<int> {
    match number_of(s, base) {
        Some(v) => if v <= max {
            Some(v)
        } else {
            None
        },
        None => None,
    }
}

/// A number is not negative.
pub proof fn lemma_number_not_negative(s: Seq<char>, base: int)
    requires
        base >= 1,
    ensures
        number_of(s, base) matches Some(v) ==> v >= 0,
    decreases s.len(),
{
    if s.len() > 1 {
        lemma_number_not_negative(s.drop_last(), base);
        match (digit_of(s.last(), base), number_of(s.drop_last(), base)) {
            (Some(d), Some(v)) => {
                assert(v * base + d >= 0) by (nonlinear_arith)
                    requires
                        v >= 0,
                        base >= 1,
                        d >= 0,
                ;
            },
            _ => {},
        }
    }
}

/// Digits written after a number do not make it smaller, and digits after
/// what is no number do not make it one.
pub proof fn lemma_number_grows(s: Seq<char>, base: int, i: int)
    requires
        base >= 1,
        0 < i <= s.len(),
    ensures
        number_of(s.subrange(0, i), base).is_none() ==> number_of(s, base).is_none(),
        number_of(s, base) matches Some(w) ==> number_of(s.subrange(0, i), base)->0 <= w,
    decreases s.len() - i,
{
    if i < s.len() {
        lemma_number_grows(s, base, i + 1);
        let longer = s.subrange(0, i + 1);
        assert(longer.drop_last() =~= s.subrange(0, i));
        lemma_number_not_negative(s.subrange(0, i), base);
        match (digit_of(longer.last(), base), number_of(s.subrange(0, i), base)) {
            (Some(d), Some(v)) => {
                assert(v * base + d >= v) by (nonlinear_arith)
                    requires
                        v >= 0,
                        base >= 1,
                        d >= 0,
                ;
            },
            _ => {},
        }
    } else {
        assert(s.subrange(0, i) =~= s);
    }
}

/// Returns the value of the digit `c` in the base `base`, where it is one.
pub fn read_digit(c: char, base: u128) -> (r: Option<u128>)
    ensures
        match r {
            Some(d) => digit_of(c, base as int) == Some(d as int),
            None => digit_of(c, base as int).is_none(),
        },
{
    let v: u32 = c as u32;
    let d: u32 = if 48 <= v && v <= 57 {
        v - 48
    } else if 97 <= v && v <= 102 {
        v - 87
    } else if 65 <= v && v <= 70 {
        v - 55
    } else {
        return None;
    };
    if (d as u128) < base {
        Some(d as u128)
    } else {
        None
    }
}

/// Reads the number that `s` writes in the base `base`, where `s` is one
/// digit or more, holds nothing else, and writes a number of at most `max`.
pub fn read_number(s: &str, base: u128, max: u128) -> (r: Option<u128>)
    requires
        base == 10 || base == 16,
    ensures
        match r {
            Some(v) => bounded_number(s@, base as int, max as int) == Some(v as int),
            None => bounded_number(s@, base as int, max as int).is_none(),
        },
{
    let n: usize = s.unicode_len();
    if n == 0 {
        return None;
    }
    let mut acc: u128 = 0;
    let mut i: usize = 0;
    while i < n
        invariant
            0 <= i <= n,
            n == s@.len(),
            base == 10 || base == 16,
            acc <= max,
            i > 0 ==> number_of(s@.subrange(0, i as int), base as int) == Some(acc as int),
            i == 0 ==> acc == 0,
        decreases n - i,
    {
        let ghost prefix = s@.subrange(0, i as int);
        let ghost longer = s@.subrange(0, i + 1);
        proof {
            assert(longer.drop_last() =~= prefix);
            assert(longer.last() == s@[i as int]);
        }
        let d = match read_digit(s.get_char(i), base) {
            Some(d) => d,
            None => {
                proof {
                    assert(number_of(longer, base as int).is_none());
                    lemma_number_grows(s@, base as int, i + 1);
                }
                return None;
            },
        };
        if d > max || acc > (max - d) / base {
            proof {
                let v = acc as int * base as int + d as int;
                if i == 0 {
                    assert(number_of(longer, base as int) == Some(d as int));
                } else {
                    assert(number_of(longer, base as int) == Some(v));
                }
                lemma_number_grows(s@, base as int, i + 1);
            }
            return None;
        }
        proof {
            if i == 0 {
                assert(number_of(longer, base as int) == Some(d as int));
            } else {
                assert(number_of(longer, base as int) == Some(acc as int * base as int + d as int));
            }
        }
        acc = acc * base + d;
        i = i + 1;
    }
    assert(s@.subrange(0, n as int) =~= s@);
    Some(acc)
}

/// Reads a message cursor: decimal digits that write a number of 32 bits.
pub fn parse_cursor(s: &str) -> (r: Option<u32>)
    ensures
        match r {
            Some(v) => bounded_number(s@, 10, u32::MAX as int) == Some(v as int),
            None => bounded_number(s@, 10, u32::MAX as int).is_none(),
        },
{
    match read_number(s, 10, 0xffff_ffff) {
        Some(v) => Some(v as u32),
        None => None,
    }
}

/// Reads an instance id: hexadecimal digits that write a number of 128
/// bits.
pub fn parse_id(s: &str) -> (r: Option<u128>)
    ensures
        match r {
            Some(v) => bounded_number(s@, 16, u128::MAX as int) == Some(v as int),
            None => bounded_number(s@, 16, u128::MAX as int).is_none(),
        },
{
    read_number(s, 16, u128::MAX)
}

} // verus!
