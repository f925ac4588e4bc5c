//! Decimal rendering of integers, used for native ids and timestamps.
use vstd::prelude::*;

use crate::hash::hex_digit;

verus! {

/// The decimal rendering of a non-negative number, most significant digit
/// first.  Decimal digits coincide with the low hex digits.
pub open spec fn dec_u64(n: int) -> Seq<char>
    decreases n,
{
    if n < 10 {
        seq![hex_digit(if n < 0 {
            0
        } else {
            n
        })]
    } else {
        dec_u64(n / 10).push(hex_digit(n % 10))
    }
}

/// The decimal rendering of a signed number: a minus sign for negatives.
pub open spec fn dec_i64(n: int) -> Seq<char> {
    if n < 0 {
        seq!['-'] + dec_u64(-n)
    } else {
        dec_u64(n)
    }
}

fn append_dec_u64(r: &mut String, n: u64)
    ensures
        final(r)@ == old(r)@ + dec_u64(n as int),
    decreases n,
{
    if n < 10 {
        append_digit(r, n);
        proof {
            assert(r@ =~= old(r)@ + dec_u64(n as int));
        }
        return ;
    }
    append_dec_u64(r, n / 10);
    append_digit(r, n % 10);
    proof {
        assert(r@ =~= old(r)@ + dec_u64(n as int));
    }
}

pub(crate) fn append_digit(r: &mut String, d: u64)
    requires
        d < 10,
    ensures
        final(r)@ == old(r)@.push(hex_digit(d as int)),
{
    let ghost expected = old(r)@.push(hex_digit(d as int));
    if d == 0 {
        r.append("0");
        proof { reveal_strlit("0"); }
    } else if d == 1 {
        r.append("1");
        proof { reveal_strlit("1"); }
    } else if d == 2 {
        r.append("2");
        proof { reveal_strlit("2"); }
    } else if d == 3 {
        r.append("3");
        proof { reveal_strlit("3"); }
    } else if d == 4 {
        r.append("4");
        proof { reveal_strlit("4"); }
    } else if d == 5 {
        r.append("5");
        proof { reveal_strlit("5"); }
    } else if d == 6 {
        r.append("6");
        proof { reveal_strlit("6"); }
    } else if d == 7 {
        r.append("7");
        proof { reveal_strlit("7"); }
    } else if d == 8 {
        r.append("8");
        proof { reveal_strlit("8"); }
    } else {
        r.append("9");
        proof { reveal_strlit("9"); }
    }
    proof {
        assert(r@ =~= expected);
    }
}

/// Renders a non-negative number in decimal.
pub fn u64_to_string(n: u64) -> (r: String)
    ensures
        r@ == dec_u64(n as int),
{
    let mut r = String::new();
    append_dec_u64(&mut r, n);
    proof {
        assert(r@ =~= dec_u64(n as int));
    }
    r
}

/// Renders a signed number in decimal, with a minus sign when negative.
pub fn i64_to_string(n: i64) -> (r: String)
    ensures
        r@ == dec_i64(n as int),
{
    if n >= 0 {
        u64_to_string(n as u64)
    } else {
        // avoid overflow at the smallest value: negate via n + 1
        let mag: u64 = ((-(n + 1)) as u64) + 1;
        proof {
            assert(mag as int == -(n as int));
        }
        let mut r = String::new();
        r.append("-");
        append_dec_u64(&mut r, mag);
        proof {
            reveal_strlit("-");
            assert("-"@.len() == 1);
            assert(r@ =~= dec_i64(n as int));
        }
        r
    }
}

} // verus!
