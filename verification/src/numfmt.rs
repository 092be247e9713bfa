//! Decimal rendering of unsigned integers, for the nanosecond timestamp.

use vstd::prelude::*;
use vstd::string::StringExecFns;

verus! {

pub open spec fn dec_digit(d: nat) -> char {
    if d == 0 {
        '0'
    } else if d == 1 {
        '1'
    } else if d == 2 {
        '2'
    } else if d == 3 {
        '3'
    } else if d == 4 {
        '4'
    } else if d == 5 {
        '5'
    } else if d == 6 {
        '6'
    } else if d == 7 {
        '7'
    } else if d == 8 {
        '8'
    } else {
        '9'
    }
}

/// The decimal text of `n`: most significant digit first, no leading zero
/// except for zero itself.
pub open spec fn dec_str(n: nat) -> Seq<char>
    decreases n,
{
    if n < 10 {
        seq![dec_digit(n)]
    } else {
        dec_str(n / 10).push(dec_digit(n % 10))
    }
}

/// The digit characters of `ds` read back to front.
spec fn rev_digit_chars(ds: Seq<u8>) -> Seq<char> {
    Seq::new(ds.len(), |i: int| dec_digit(ds[ds.len() - 1 - i] as nat))
}

fn digit_str(d: u8) -> (r: &'static str)
    requires
        d <= 9,
    ensures
        r@ =~= seq![dec_digit(d as nat)],
{
    proof {
        reveal_strlit("0");
        reveal_strlit("1");
        reveal_strlit("2");
        reveal_strlit("3");
        reveal_strlit("4");
        reveal_strlit("5");
        reveal_strlit("6");
        reveal_strlit("7");
        reveal_strlit("8");
        reveal_strlit("9");
    }
    match d {
        0 => "0",
        1 => "1",
        2 => "2",
        3 => "3",
        4 => "4",
        5 => "5",
        6 => "6",
        7 => "7",
        8 => "8",
        _ => "9",
    }
}

/// Renders `n` in decimal.
pub fn u128_to_decimal(n: u128) -> (s: String)
    ensures
        s@ == dec_str(n as nat),
{
    let mut digits: Vec<u8> = Vec::new();
    let mut m = n;
    proof {
        assert(dec_str(n as nat) =~= dec_str(n as nat) + rev_digit_chars(digits@));
    }
    while m >= 10
        invariant
            dec_str(n as nat) =~= dec_str(m as nat) + rev_digit_chars(digits@),
            forall|k: int| 0 <= k < digits@.len() ==> digits@[k] <= 9,
        decreases m,
    {
        let ghost old_digits = digits@;
        let ghost old_m = m as nat;
        let d = (m % 10) as u8;
        digits.push(d);
        m = m / 10;
        proof {
            assert(rev_digit_chars(digits@) =~= seq![dec_digit(d as nat)] + rev_digit_chars(
                old_digits,
            ));
            assert(dec_str(old_m) == dec_str(old_m / 10).push(dec_digit(old_m % 10)));
            assert(dec_str(old_m) =~= dec_str(old_m / 10) + seq![dec_digit(d as nat)]);
        }
    }
    let ghost pre_digits = digits@;
    digits.push(m as u8);
    proof {
        assert(rev_digit_chars(digits@) =~= seq![dec_digit(m as nat)] + rev_digit_chars(
            pre_digits,
        ));
        assert(dec_str(m as nat) =~= seq![dec_digit(m as nat)]);
        assert(dec_str(n as nat) =~= rev_digit_chars(digits@));
    }
    let mut s = String::new();
    let mut i = digits.len();
    proof {
        assert(s@ =~= rev_digit_chars(digits@).take(0));
    }
    while i > 0
        invariant
            i <= digits@.len(),
            forall|k: int| 0 <= k < digits@.len() ==> digits@[k] <= 9,
            s@ =~= rev_digit_chars(digits@).take(digits@.len() - i),
        decreases i,
    {
        i = i - 1;
        let ghost before = s@;
        s.append(digit_str(digits[i]));
        proof {
            let len = digits@.len();
            assert(rev_digit_chars(digits@)[len - 1 - i] == dec_digit(digits@[i as int] as nat));
            assert(s@ =~= rev_digit_chars(digits@).take(len - i));
        }
    }
    proof {
        assert(s@ =~= rev_digit_chars(digits@));
    }
    s
}

} // verus!
