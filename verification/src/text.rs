//! Rendering integers as decimal text, verified against a recursive
//! specification, and the synthesized title of a placeholder season.

use vstd::prelude::*;
use vstd::string::StringExecFns;

verus! {

/// The character of one decimal digit.
pub open spec fn digit_char(d: int) -> char {
    if d == 0 {
        '0'
    } else if d == 1 {
        '1'
    } else if d == 2 {
        '2'
    } else if d == 3 {
        '3'
    } else if d == 4 {
        '4'
    } else if d == 5 {
        '5'
    } else if d == 6 {
        '6'
    } else if d == 7 {
        '7'
    } else {
        if d == 8 {
            '8'
        } else {
            '9'
        }
    }
}

/// The decimal digits of a non-negative integer, most significant
/// first.
pub open spec fn spec_digits(n: int) -> Seq<char>
    recommends
        n >= 0,
    decreases n,
{
    if n < 10 {
        seq![digit_char(n)]
    } else {
        spec_digits(n / 10).push(digit_char(n % 10))
    }
}

/// The decimal rendering of an integer: a minus sign for negatives,
/// then the digits.
pub open spec fn spec_decimal(n: int) -> Seq<char> {
    if n < 0 {
        seq!['-'] + spec_digits(-n)
    } else {
        spec_digits(n)
    }
}

/// The synthesized title of a placeholder season with a given number.
pub open spec fn spec_season_title(number: i32) -> Seq<char> {
    ("Season ")@ + spec_decimal(number as int)
}

/// One decimal digit as a string slice.
fn digit_str(d: u64) -> (r: &'static str)
    requires
        d < 10,
    ensures
        r@ == seq![digit_char(d as int)],
{
    proof {
        reveal_strlit("0");
        reveal_strlit("1");
        reveal_strlit("2");
        reveal_strlit("3");
        reveal_strlit("4");
        reveal_strlit("5");
        reveal_strlit("6");
        reveal_strlit("7");
        reveal_strlit("8");
        reveal_strlit("9");
    }
    if d == 0 {
        "0"
    } else if d == 1 {
        "1"
    } else if d == 2 {
        "2"
    } else if d == 3 {
        "3"
    } else if d == 4 {
        "4"
    } else if d == 5 {
        "5"
    } else if d == 6 {
        "6"
    } else if d == 7 {
        "7"
    } else if d == 8 {
        "8"
    } else {
        "9"
    }
}

/// Renders an integer in decimal, proved equal to `spec_decimal`.
pub fn i32_to_decimal(n: i32) -> (r: String)
    ensures
        r@ == spec_decimal(n as int),
{
    let neg = n < 0;
    let wide: i64 = n as i64;
    let mut v: u64 = if neg {
        (-wide) as u64
    } else {
        wide as u64
    };
    let ghost n0 = v as int;
    let mut result = String::new();
    if v == 0 {
        proof {
            reveal_strlit("0");
        }
        result = String::from_str("0");
        proof {
            assert(("0")@ =~= seq![digit_char(0)]);
            assert(result@ =~= spec_digits(n0));
        }
    } else {
        proof {
            assert(spec_digits(n0) =~= spec_digits(v as int) + result@);
        }
        while v > 0
            invariant
                v as int > 0 ==> spec_digits(n0) =~= spec_digits(v as int) + result@,
                v as int == 0 ==> spec_digits(n0) =~= result@,
            decreases v,
        {
            let d = v % 10;
            let ds = digit_str(d);
            let mut next = String::from_str(ds);
            next.append(result.as_str());
            let ghost prev_v = v as int;
            let ghost prev_result = result@;
            result = next;
            v = v / 10;
            proof {
                assert(result@ =~= seq![digit_char(prev_v % 10)] + prev_result);
                if prev_v >= 10 {
                    assert(spec_digits(prev_v) == spec_digits(prev_v / 10).push(
                        digit_char(prev_v % 10),
                    ));
                    assert(spec_digits(prev_v) =~= spec_digits(prev_v / 10) + seq![
                        digit_char(prev_v % 10),
                    ]);
                    assert(spec_digits(n0) =~= (spec_digits(v as int) + seq![
                        digit_char(prev_v % 10),
                    ]) + prev_result);
                    assert(spec_digits(n0) =~= spec_digits(v as int) + result@);
                } else {
                    assert(spec_digits(prev_v) =~= seq![digit_char(prev_v)]);
                    assert(v == 0);
                    assert(spec_digits(n0) =~= result@);
                }
            }
        }
    }
    proof {
        assert(spec_digits(n0) =~= result@);
    }
    if neg {
        proof {
            reveal_strlit("-");
        }
        let mut signed = String::from_str("-");
        signed.append(result.as_str());
        proof {
            assert(("-")@ =~= seq!['-']);
        }
        signed
    } else {
        result
    }
}

/// The title given to a placeholder season created during
/// reconciliation: the word Season, a space, and the number.
pub fn season_title(number: i32) -> (r: String)
    ensures
        r@ == spec_season_title(number),
{
    proof {
        reveal_strlit("Season ");
    }
    let mut title = String::from_str("Season ");
    let digits = i32_to_decimal(number);
    title.append(digits.as_str());
    title
}

} // verus!
