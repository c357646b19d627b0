//! Decimal formatting of integers, and of fixed-point values with four
//! decimal places.

use vstd::prelude::*;

verus! {

pub open spec fn digit_char(d: nat) -> char {
    if d == 0 {
        '0'
    } else if d == 1 {
        '1'
    } else if d == 2 {
        '2'
    } else if d == 3 {
        '3'
    } else if d == 4 {
        '4'
    } else if d == 5 {
        '5'
    } else if d == 6 {
        '6'
    } else if d == 7 {
        '7'
    } else if d == 8 {
        '8'
    } else {
        '9'
    }
}

/// The decimal digits of `n`, without leading zeros.
pub open spec fn decimal(n: nat) -> Seq<char>
    decreases n,
{
    if n < 10 {
        seq![digit_char(n)]
    } else {
        decimal(n / 10).push(digit_char(n % 10))
    }
}

/// The four digits of `f` (below 10000), zeros included.
pub open spec fn four_digits(f: nat) -> Seq<char> {
    seq![
        digit_char(f / 1000),
        digit_char((f / 100) % 10),
        digit_char((f / 10) % 10),
        digit_char(f % 10),
    ]
}

/// `x` ten-thousandths written with exactly four decimal places, as
/// `{:.4}` writes the same value.
pub open spec fn fixed4(x: int) -> Seq<char> {
    let a: nat = if x < 0 {
        (-x) as nat
    } else {
        x as nat
    };
    (if x < 0 {
        seq!['-']
    } else {
        Seq::empty()
    }) + decimal(a / 10000) + seq!['.'] + four_digits(a % 10000)
}

fn digit_str(d: u64) -> (r: &'static str)
    requires
        d < 10,
    ensures
        r@ == seq![digit_char(d as nat)],
{
    proof {
        reveal_strlit("0");
        reveal_strlit("1");
        reveal_strlit("2");
        reveal_strlit("3");
        reveal_strlit("4");
        reveal_strlit("5");
        reveal_strlit("6");
        reveal_strlit("7");
        reveal_strlit("8");
        reveal_strlit("9");
    }
    let r = if d == 0 {
        "0"
    } else if d == 1 {
        "1"
    } else if d == 2 {
        "2"
    } else if d == 3 {
        "3"
    } else if d == 4 {
        "4"
    } else if d == 5 {
        "5"
    } else if d == 6 {
        "6"
    } else if d == 7 {
        "7"
    } else if d == 8 {
        "8"
    } else {
        "9"
    };
    assert(r@ =~= seq![digit_char(d as nat)]);
    r
}

/// `n` in decimal, as `to_string` writes it.
pub fn decimal_string(n: u64) -> (r: String)
    ensures
        r@ == decimal(n as nat),
    decreases n,
{
    if n < 10 {
        digit_str(n).to_owned()
    } else {
        let mut r = decimal_string(n / 10);
        r.append(digit_str(n % 10));
        r
    }
}

/// `x` ten-thousandths with four decimal places.
pub fn fixed4_string(x: i64) -> (r: String)
    ensures
        r@ == fixed4(x as int),
{
    let a: u64 = if x < 0 {
        ((-(x + 1)) as u64) + 1
    } else {
        x as u64
    };
    let mut r = if x < 0 {
        proof {
            reveal_strlit("-");
        }
        "-".to_owned()
    } else {
        String::new()
    };
    let ghost sign = r@;
    let int_part = decimal_string(a / 10000);
    r.append(int_part.as_str());
    proof {
        reveal_strlit(".");
    }
    r.append(".");
    let f = a % 10000;
    r.append(digit_str(f / 1000));
    r.append(digit_str((f / 100) % 10));
    r.append(digit_str((f / 10) % 10));
    r.append(digit_str(f % 10));
    assert(r@ =~= fixed4(x as int));
    r
}

} // verus!
