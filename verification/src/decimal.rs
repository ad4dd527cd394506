//! Unsigned integers in decimal notation, written and read.

use vstd::prelude::*;

verus! {

/// The character of the digit `d`.
pub open spec fn digit(d: int) -> char {
    if d == 0 {
        '0'
    } else if d == 1 {
        '1'
    } else if d == 2 {
        '2'
    } else if d == 3 {
        '3'
    } else if d == 4 {
        '4'
    } else if d == 5 {
        '5'
    } else if d == 6 {
        '6'
    } else if d == 7 {
        '7'
    } else if d == 8 {
        '8'
    } else {
        '9'
    }
}

/// Whether `c` is one of the ten decimal digits.
pub open spec fn is_digit(c: char) -> bool {
    '0' <= c <= '9'
}

/// The value of the digit `c`.
pub open spec fn digit_value(c: char) -> int {
    c as u32 - '0' as u32
}

/// The decimal notation of `n`, without leading zeros.
pub open spec fn decimal(n: nat) -> Seq<char>
    decreases n,
{
    if n < 10 {
        seq![digit(n as int)]
    } else {
        decimal(n / 10).push(digit((n % 10) as int))
    }
}

/// Whether every character of `s` is a decimal digit.
pub open spec fn all_digits(s: Seq<char>) -> bool {
    forall|i: int| 0 <= i < s.len() ==> is_digit(#[trigger] s[i])
}

/// The number that the digits of `s` denote; 0 for the empty sequence.
pub open spec fn digits_value(s: Seq<char>) -> nat
    decreases s.len(),
{
    if s.len() == 0 {
        0
    } else {
        (digits_value(s.drop_last()) * 10 + digit_value(s.last())) as nat
    }
}

/// What reading `s` as an unsigned integer of at most `max` gives: the
/// value of its digits, which an optional `+` may precede, and nothing
/// where there is no digit, another character, or a value above `max`.
pub open spec fn parse_unsigned(s: Seq<char>, max: nat) -> Option<nat> {
    let body = if s.len() > 0 && s[0] == '+' {
        s.skip(1)
    } else {
        s
    };
    if body.len() > 0 && all_digits(body) && digits_value(body) <= max {
        Some(digits_value(body))
    } else {
        None
    }
}

/// The character of the digit `d`.
pub fn digit_of(d: u8) -> (c: char)
    requires
        d < 10,
    ensures
        c == digit(d as int),
{
    if d == 0 {
        '0'
    } else if d == 1 {
        '1'
    } else if d == 2 {
        '2'
    } else if d == 3 {
        '3'
    } else if d == 4 {
        '4'
    } else if d == 5 {
        '5'
    } else if d == 6 {
        '6'
    } else if d == 7 {
        '7'
    } else if d == 8 {
        '8'
    } else {
        '9'
    }
}

/// The decimal notation of `n`.
pub fn decimal_of(n: usize) -> (v: Vec<char>)
    ensures
        v@ == decimal(n as nat),
    decreases n,
{
    if n < 10 {
        let mut v: Vec<char> = Vec::new();
        v.push(digit_of(n as u8));
        assert(v@ =~= decimal(n as nat));
        v
    } else {
        let mut v = decimal_of(n / 10);
        v.push(digit_of((n % 10) as u8));
        v
    }
}

/// Reads `v` as an unsigned integer of at most `max`.
pub fn read_unsigned(v: &Vec<char>, max: u64) -> (r: Option<u64>)
    ensures
        match parse_unsigned(v@, max as nat) {
            Some(n) => r == Some(n as u64),
            None => r is None,
        },
{
    let start: usize = if v.len() > 0 && v[0] == '+' {
        1
    } else {
        0
    };
    let ghost body = if v@.len() > 0 && v@[0] == '+' {
        v@.skip(1)
    } else {
        v@
    };
    assert(body =~= v@.skip(start as int));
    if start == v.len() {
        return None;
    }
    let mut value: u64 = 0;
    let mut i: usize = start;
    proof {
        assert(body.take(0) =~= Seq::<char>::empty());
    }
    while i < v.len()
        invariant
            start <= i <= v.len(),
            body == v@.skip(start as int),
            body == if v@.len() > 0 && v@[0] == '+' {
                v@.skip(1)
            } else {
                v@
            },
            all_digits(body.take(i - start)),
            value == digits_value(body.take(i - start)),
            value <= max,
        decreases v.len() - i,
    {
        let c = v[i];
        let ghost prefix = body.take(i - start + 1);
        proof {
            assert(prefix.drop_last() =~= body.take(i - start));
            assert(prefix.last() == c);
        }
        if !(c >= '0' && c <= '9') {
            proof {
                assert(!is_digit(body[i - start]));
            }
            return None;
        }
        let d: u64 = (c as u32 - '0' as u32) as u64;
        let ghost next = value as int * 10 + d;
        proof {
            assert(digits_value(prefix) == next);
            assert forall|k: int| 0 <= k < prefix.len() implies is_digit(
                #[trigger] prefix[k],
            ) by {
                if k < prefix.len() - 1 {
                    assert(prefix[k] == body.take(i - start)[k]);
                }
            }
        }
        if d > max || value > (max - d) / 10 {
            proof {
                assert(next > max) by (nonlinear_arith)
                    requires
                        d > max || value > (max - d) / 10,
                        next == value * 10 + d,
                        0 <= value,
                        0 <= d < 10,
                        0 <= max,
                {
                }
                if all_digits(body) {
                    lemma_digits_value_grows(body, i - start + 1);
                }
            }
            return None;
        }
        assert(next <= max) by (nonlinear_arith)
            requires
                value <= (max - d) / 10,
                d <= max,
                next == value * 10 + d,
        {
        }
        value = value * 10 + d;
        i += 1;
    }
    proof {
        assert(body.take(i - start) =~= body);
    }
    Some(value)
}

/// The value of a run of digits is at least that of each of its prefixes.
pub proof fn lemma_digits_value_grows(s: Seq<char>, k: int)
    requires
        0 <= k <= s.len(),
        all_digits(s),
    ensures
        digits_value(s.take(k)) <= digits_value(s),
    decreases s.len() - k,
{
    if k == s.len() {
        assert(s.take(k) =~= s);
    } else {
        lemma_digits_value_grows(s, k + 1);
        let longer = s.take(k + 1);
        assert(longer.drop_last() =~= s.take(k));
        assert(is_digit(longer.last())) by {
            assert(longer.last() == s[k]);
        }
    }
}

} // verus!
