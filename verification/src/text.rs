//! Numbers as text.
use vstd::prelude::*;
use vstd::string::*;

verus! {

/// The character of a decimal digit.
pub open spec fn digit(d: nat) -> char {
    if d == 0 {
        '0'
    } else if d == 1 {
        '1'
    } else if d == 2 {
        '2'
    } else if d == 3 {
        '3'
    } else if d == 4 {
        '4'
    } else if d == 5 {
        '5'
    } else if d == 6 {
        '6'
    } else if d == 7 {
        '7'
    } else if d == 8 {
        '8'
    } else {
        '9'
    }
}

/// A number in decimal digits, without leading zeros.
pub open spec fn decimal(n: nat) -> Seq<char>
    decreases n,
{
    if n < 10 {
        seq![digit(n)]
    } else {
        decimal(n / 10).push(digit(n % 10))
    }
}

/// A number of thousandths in decimal digits: the whole part, and behind a
/// point the thousandths without trailing zeros, where there are any.
pub open spec fn fixed_decimal(v: nat) -> Seq<char> {
    let whole = decimal(v / 1000);
    let rest = v % 1000;
    if rest == 0 {
        whole
    } else if rest % 100 == 0 {
        whole + seq!['.', digit(rest / 100)]
    } else if rest % 10 == 0 {
        whole + seq!['.', digit(rest / 100), digit(rest / 10 % 10)]
    } else {
        whole + seq!['.', digit(rest / 100), digit(rest / 10 % 10), digit(rest % 10)]
    }
}

fn digit_str(d: u64) -> (s: &'static str)
    requires
        d < 10,
    ensures
        s@ == seq![digit(d as nat)],
{
    proof {
        reveal_strlit("0");
        reveal_strlit("1");
        reveal_strlit("2");
        reveal_strlit("3");
        reveal_strlit("4");
        reveal_strlit("5");
        reveal_strlit("6");
        reveal_strlit("7");
        reveal_strlit("8");
        reveal_strlit("9");
    }
    if d == 0 {
        "0"
    } else if d == 1 {
        "1"
    } else if d == 2 {
        "2"
    } else if d == 3 {
        "3"
    } else if d == 4 {
        "4"
    } else if d == 5 {
        "5"
    } else if d == 6 {
        "6"
    } else if d == 7 {
        "7"
    } else if d == 8 {
        "8"
    } else {
        "9"
    }
}

/// Appends `n` in decimal digits.
pub fn push_decimal(out: &mut String, n: u64)
    ensures
        final(out)@ == old(out)@ + decimal(n as nat),
    decreases n,
{
    if n >= 10 {
        push_decimal(out, n / 10);
    }
    out.append(digit_str(n % 10));
}

/// Appends `v` thousandths as a decimal number.
pub fn push_fixed(out: &mut String, v: u64)
    ensures
        final(out)@ == old(out)@ + fixed_decimal(v as nat),
{
    push_decimal(out, v / 1000);
    let rest: u64 = v % 1000;
    if rest != 0 {
        proof {
            reveal_strlit(".");
        }
        out.append(".");
        out.append(digit_str(rest / 100));
        if rest % 100 != 0 {
            out.append(digit_str(rest / 10 % 10));
            if rest % 10 != 0 {
                out.append(digit_str(rest % 10));
            }
        }
    }
}

/// `n` in decimal digits.
pub fn decimal_text(n: u64) -> (text: String)
    ensures
        text@ == decimal(n as nat),
{
    let mut text = String::new();
    push_decimal(&mut text, n);
    text
}

/// `v` thousandths as a decimal number.
pub fn fixed_text(v: u64) -> (text: String)
    ensures
        text@ == fixed_decimal(v as nat),
{
    let mut text = String::new();
    push_fixed(&mut text, v);
    text
}

} // verus!
