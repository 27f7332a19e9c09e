//! Decimal integers as text: `to_string` of non-negative integers and the
//! integer `FromStr` grammar used for the home-screen inputs.

use vstd::prelude::*;

use crate::text::{is_digit, string_push, to_chars};

verus! {

/// The value of the decimal digit `c`.
pub open spec fn digit_value(c: char) -> nat {
    (c as int - '0' as int) as nat
}

/// The natural number written by the decimal digits `s` (0 for no digits).
pub open spec fn digits_value(s: Seq<char>) -> nat
    decreases s.len(),
{
    if s.len() == 0 {
        0
    } else {
        digits_value(s.drop_last()) * 10 + digit_value(s.last())
    }
}

pub open spec fn all_digits(s: Seq<char>) -> bool {
    forall|i: int| 0 <= i < s.len() ==> is_digit(#[trigger] s[i])
}


/// The decimal digits of `n` (no sign, no leading zeros; "0" for zero).
pub open spec fn decimal(n: nat) -> Seq<char>
    decreases n,
{
    if n < 10 {
        seq![digit_char(n)]
    } else {
        decimal(n / 10).push(digit_char(n % 10))
    }
}

pub open spec fn digit_char(d: nat) -> char {
    ((d + 48) as u32) as char
}

fn digit_char_exec(d: u64) -> (c: char)
    requires
        d < 10,
    ensures
        c == digit_char(d as nat),
{
    if d == 0 {
        '0'
    } else if d == 1 {
        '1'
    } else if d == 2 {
        '2'
    } else if d == 3 {
        '3'
    } else if d == 4 {
        '4'
    } else if d == 5 {
        '5'
    } else if d == 6 {
        '6'
    } else if d == 7 {
        '7'
    } else if d == 8 {
        '8'
    } else {
        '9'
    }
}

/// `n.to_string()` for an unsigned integer.
pub fn decimal_string(n: u64) -> (r: String)
    ensures
        r@ == decimal(n as nat),
    decreases n,
{
    if n < 10 {
        let mut s = String::new();
        string_push(&mut s, digit_char_exec(n));
        assert(s@ =~= seq![digit_char(n as nat)]);
        s
    } else {
        let mut s = decimal_string(n / 10);
        string_push(&mut s, digit_char_exec(n % 10));
        s
    }
}

/// The value written by an optional `+` and one or more decimal digits, as the
/// unsigned `FromStr` impls read it (before the range check).
pub open spec fn unsigned_literal(s: Seq<char>) -> Option<nat> {
    let body = if s.len() > 0 && s[0] == '+' {
        s.drop_first()
    } else {
        s
    };
    if body.len() > 0 && all_digits(body) {
        Some(digits_value(body))
    } else {
        None
    }
}

/// The value written by an optional sign and one or more decimal digits, as the
/// signed `FromStr` impls read it (before the range check).
pub open spec fn signed_literal(s: Seq<char>) -> Option<int> {
    if s.len() > 0 && s[0] == '-' {
        let body = s.drop_first();
        if body.len() > 0 && all_digits(body) {
            Some(-(digits_value(body) as int))
        } else {
            None
        }
    } else {
        match unsigned_literal(s) {
            Some(v) => Some(v as int),
            None => None,
        }
    }
}

/// `str::parse::<T>()` for an unsigned `T` whose largest value is `max`.
pub open spec fn parse_unsigned(s: Seq<char>, max: nat) -> Option<nat> {
    match unsigned_literal(s) {
        Some(v) => if v <= max {
            Some(v)
        } else {
            None
        },
        None => None,
    }
}

/// `str::parse::<i64>()`.
pub open spec fn parse_i64(s: Seq<char>) -> Option<i64> {
    match signed_literal(s) {
        Some(v) => if i64::MIN <= v <= i64::MAX {
            Some(v as i64)
        } else {
            None
        },
        None => None,
    }
}

/// The value of the digits `v[from..]` if they are all digits, there is at
/// least one, and the value does not exceed `max`.
fn digits_up_to(v: &[char], from: usize, max: u64) -> (r: Option<u64>)
    requires
        from <= v.len(),
    ensures
        ({
            let body = v@.subrange(from as int, v@.len() as int);
            match r {
                Some(x) => body.len() > 0 && all_digits(body) && x == digits_value(body) && x <= max,
                None => !(body.len() > 0 && all_digits(body) && digits_value(body) <= max),
            }
        }),
{
    let ghost body = v@.subrange(from as int, v@.len() as int);
    if from == v.len() {
        return None;
    }
    let mut acc: u64 = 0;
    let mut over = false;
    let mut i: usize = from;
    while i < v.len()
        invariant
            from <= i <= v.len(),
            body == v@.subrange(from as int, v@.len() as int),
            all_digits(v@.subrange(from as int, i as int)),
            !over ==> acc == digits_value(v@.subrange(from as int, i as int)) && acc <= max,
            over ==> digits_value(v@.subrange(from as int, i as int)) > max,
        decreases v.len() - i,
    {
        let c = v[i];
        let ghost pre = v@.subrange(from as int, i as int);
        let ghost post = v@.subrange(from as int, i + 1);
        assert(post.drop_last() =~= pre);
        assert(post.last() == c);
        if !('0' <= c && c <= '9') {
            proof {
                assert(!is_digit(body[i - from]));
            }
            return None;
        }
        assert forall|k: int| 0 <= k < post.len() implies is_digit(#[trigger] post[k]) by {
            if k < pre.len() {
                assert(post[k] == pre[k]);
            }
        }
        if !over {
            let d: u64 = (c as u64) - ('0' as u64);
            assert(d == digit_value(c));
            let next: u128 = (acc as u128) * 10 + (d as u128);
            if next > max as u128 {
                over = true;
            } else {
                acc = next as u64;
            }
        } else {
            proof {
                assert(digits_value(post) == digits_value(pre) * 10 + digit_value(c));
                assert(digits_value(pre) * 10 >= digits_value(pre)) by (nonlinear_arith);
            }
        }
        i += 1;
    }
    assert(v@.subrange(from as int, i as int) =~= body);
    if over {
        None
    } else {
        Some(acc)
    }
}

/// `s.parse::<T>().ok()` for an unsigned `T` with largest value `max`.
pub fn parse_unsigned_exec(s: &str, max: u64) -> (r: Option<u64>)
    ensures
        match r {
            Some(x) => parse_unsigned(s@, max as nat) == Some(x as nat),
            None => parse_unsigned(s@, max as nat) is None,
        },
{
    let v = to_chars(s);
    let from: usize = if v.len() > 0 && v[0] == '+' {
        1
    } else {
        0
    };
    proof {
        if v.len() > 0 && v@[0] == '+' {
            assert(s@.drop_first() =~= v@.subrange(1, v@.len() as int));
        } else {
            assert(s@ =~= v@.subrange(0, v@.len() as int));
        }
    }
    digits_up_to(&v, from, max)
}

/// `s.parse::<i64>().ok()`.
pub fn parse_i64_exec(s: &str) -> (r: Option<i64>)
    ensures
        r == parse_i64(s@),
{
    let v = to_chars(s);
    if v.len() > 0 && v[0] == '-' {
        assert(s@.drop_first() =~= v@.subrange(1, v@.len() as int));
        // magnitude up to 2^63
        match digits_up_to(&v, 1, 9_223_372_036_854_775_808u64) {
            Some(m) => {
                let neg: i128 = -(m as i128);
                Some(neg as i64)
            },
            None => None,
        }
    } else {
        let from: usize = if v.len() > 0 && v[0] == '+' {
            1
        } else {
            0
        };
        proof {
            if v.len() > 0 && v@[0] == '+' {
                assert(s@.drop_first() =~= v@.subrange(1, v@.len() as int));
            } else {
                assert(s@ =~= v@.subrange(0, v@.len() as int));
            }
        }
        match digits_up_to(&v, from, 9_223_372_036_854_775_807u64) {
            Some(m) => Some(m as i64),
            None => None,
        }
    }
}

} // verus!
