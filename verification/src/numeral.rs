//! Decimal rendering of integers, used by the value renderer and by
//! error messages that name an expected argument count.

use vstd::prelude::*;

verus! {

/// The decimal digit character for a value below ten.
pub open spec fn digit_char(d: nat) -> char {
    if d == 0 {
        '0'
    } else if d == 1 {
        '1'
    } else if d == 2 {
        '2'
    } else if d == 3 {
        '3'
    } else if d == 4 {
        '4'
    } else if d == 5 {
        '5'
    } else if d == 6 {
        '6'
    } else if d == 7 {
        '7'
    } else if d == 8 {
        '8'
    } else {
        '9'
    }
}

/// The usual decimal numeral of a natural number, most significant digit
/// first, with no leading zeros (zero itself is the single digit `0`).
pub open spec fn dec_digits(n: nat) -> Seq<char>
    decreases n,
{
    if n < 10 {
        seq![digit_char(n)]
    } else {
        dec_digits(n / 10) + seq![digit_char(n % 10)]
    }
}

/// The decimal numeral of an integer: a `-` sign for negatives, then the
/// numeral of the magnitude.
pub open spec fn int_str(n: int) -> Seq<char> {
    if n < 0 {
        seq!['-'] + dec_digits((-n) as nat)
    } else {
        dec_digits(n as nat)
    }
}

/// The characters of a digit sequence that was collected least significant
/// first, read back most significant first.
spec fn rev_digit_chars(ds: Seq<u64>) -> Seq<char> {
    Seq::new(ds.len(), |i: int| digit_char(ds[ds.len() - 1 - i] as nat))
}

/// A one-character string slice for a single decimal digit.
fn digit_str(d: u64) -> (s: &'static str)
    requires
        d < 10,
    ensures
        s@ == seq![digit_char(d as nat)],
{
    proof {
        reveal_strlit("0");
        reveal_strlit("1");
        reveal_strlit("2");
        reveal_strlit("3");
        reveal_strlit("4");
        reveal_strlit("5");
        reveal_strlit("6");
        reveal_strlit("7");
        reveal_strlit("8");
        reveal_strlit("9");
    }
    let s: &'static str = if d == 0 {
        "0"
    } else if d == 1 {
        "1"
    } else if d == 2 {
        "2"
    } else if d == 3 {
        "3"
    } else if d == 4 {
        "4"
    } else if d == 5 {
        "5"
    } else if d == 6 {
        "6"
    } else if d == 7 {
        "7"
    } else if d == 8 {
        "8"
    } else {
        "9"
    };
    proof {
        assert(s@ =~= seq![digit_char(d as nat)]);
    }
    s
}

/// Renders an unsigned integer as its decimal numeral.
pub fn u64_to_string(n: u64) -> (s: String)
    ensures
        s@ == dec_digits(n as nat),
{
    if n == 0 {
        let z = String::from_str(digit_str(0));
        proof {
            assert(z@ =~= dec_digits(0));
        }
        return z;
    }
    let mut digits: Vec<u64> = Vec::new();
    let mut m: u64 = n;
    while m > 0
        invariant
            forall|i: int| 0 <= i < digits@.len() ==> digits@[i] < 10,
            m > 0 ==> dec_digits(n as nat) == dec_digits(m as nat) + rev_digit_chars(digits@),
            m == 0 ==> digits@.len() > 0 && dec_digits(n as nat) == rev_digit_chars(digits@),
        decreases m,
    {
        let ghost old_m = m as nat;
        let ghost old_ds = digits@;
        let d: u64 = m % 10;
        digits.push(d);
        m = m / 10;
        proof {
            assert(rev_digit_chars(digits@) =~= seq![digit_char(old_m % 10)] + rev_digit_chars(
                old_ds,
            ));
            if old_m < 10 {
                assert(dec_digits(old_m) =~= seq![digit_char(old_m)]);
                assert(dec_digits(n as nat) =~= rev_digit_chars(digits@));
            } else {
                assert(dec_digits(old_m) == dec_digits(old_m / 10) + seq![digit_char(old_m % 10)]);
                assert(dec_digits(n as nat) =~= dec_digits(m as nat) + rev_digit_chars(digits@));
            }
        }
    }
    let mut s = String::new();
    let mut i: usize = digits.len();
    while i > 0
        invariant
            i <= digits@.len(),
            forall|k: int| 0 <= k < digits@.len() ==> digits@[k] < 10,
            s@ == rev_digit_chars(digits@).subrange(0, digits@.len() - i),
        decreases i,
    {
        i = i - 1;
        s.append(digit_str(digits[i]));
        proof {
            assert(s@ =~= rev_digit_chars(digits@).subrange(0, digits@.len() - i));
        }
    }
    proof {
        assert(s@ =~= rev_digit_chars(digits@));
    }
    s
}

/// Renders a signed integer as its decimal numeral.
pub fn i64_to_string(n: i64) -> (s: String)
    ensures
        s@ == int_str(n as int),
{
    if n >= 0 {
        u64_to_string(n as u64)
    } else {
        proof {
            reveal_strlit("-");
        }
        let mut s = String::from_str("-");
        let wide: i128 = n as i128;
        let mag: u64 = (-wide) as u64;
        let tail = u64_to_string(mag);
        s.append(tail.as_str());
        proof {
            assert(s@ =~= int_str(n as int));
        }
        s
    }
}

} // verus!
