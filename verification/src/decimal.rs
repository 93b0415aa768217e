//! Decimal notation for the numbers that name a place in a corpus: an error's
//! identifier, written in full, and a complexity, written with four decimals.

use vstd::prelude::*;
use vstd::string::StringExecFns;

verus! {

/// The number of complexity units in one: a complexity is counted in
/// ten-thousandths.
pub const COMPLEXITY_SCALE: u64 = 10_000;

/// The character for the digit `d`.
pub open spec fn digit_char(d: nat) -> char {
    if d == 0 {
        '0'
    } else if d == 1 {
        '1'
    } else if d == 2 {
        '2'
    } else if d == 3 {
        '3'
    } else if d == 4 {
        '4'
    } else if d == 5 {
        '5'
    } else if d == 6 {
        '6'
    } else if d == 7 {
        '7'
    } else if d == 8 {
        '8'
    } else {
        '9'
    }
}

/// The decimal notation of `n`, without leading zeros.
pub open spec fn decimal(n: nat) -> Seq<char>
    decreases n,
{
    if n < 10 {
        seq![digit_char(n)]
    } else {
        decimal(n / 10).push(digit_char(n % 10))
    }
}

/// The notation of a complexity of `c` ten-thousandths: the whole part, a
/// point, and four decimals.
pub open spec fn fixed_point(c: nat) -> Seq<char> {
    decimal(c / 10_000) + seq![
        '.',
        digit_char(c / 1000 % 10),
        digit_char(c / 100 % 10),
        digit_char(c / 10 % 10),
        digit_char(c % 10),
    ]
}

/// The text of one digit.
fn digit_str(d: u64) -> (s: &'static str)
    requires
        d < 10,
    ensures
        s@ == seq![digit_char(d as nat)],
{
    proof {
        reveal_strlit("0");
        reveal_strlit("1");
        reveal_strlit("2");
        reveal_strlit("3");
        reveal_strlit("4");
        reveal_strlit("5");
        reveal_strlit("6");
        reveal_strlit("7");
        reveal_strlit("8");
        reveal_strlit("9");
    }
    let s: &'static str = if d == 0 {
        "0"
    } else if d == 1 {
        "1"
    } else if d == 2 {
        "2"
    } else if d == 3 {
        "3"
    } else if d == 4 {
        "4"
    } else if d == 5 {
        "5"
    } else if d == 6 {
        "6"
    } else if d == 7 {
        "7"
    } else if d == 8 {
        "8"
    } else {
        "9"
    };
    assert(s@ =~= seq![digit_char(d as nat)]);
    s
}

/// Appends the decimal notation of `n` to `out`.
pub fn push_decimal(out: &mut String, n: u64)
    ensures
        final(out)@ == old(out)@ + decimal(n as nat),
    decreases n,
{
    if n >= 10 {
        push_decimal(out, n / 10);
    }
    out.append(digit_str(n % 10));
    assert(out@ =~= old(out)@ + decimal(n as nat));
}

/// The decimal notation of `n`.
pub fn format_decimal(n: u64) -> (text: String)
    ensures
        text@ == decimal(n as nat),
{
    let mut text = String::new();
    push_decimal(&mut text, n);
    assert(text@ =~= decimal(n as nat));
    text
}

/// The notation of a complexity of `c` ten-thousandths, with four decimals.
pub fn format_complexity(c: u64) -> (text: String)
    ensures
        text@ == fixed_point(c as nat),
{
    let mut text = String::new();
    push_decimal(&mut text, c / COMPLEXITY_SCALE);
    proof {
        reveal_strlit(".");
    }
    text.append(".");
    text.append(digit_str(c / 1000 % 10));
    text.append(digit_str(c / 100 % 10));
    text.append(digit_str(c / 10 % 10));
    text.append(digit_str(c % 10));
    assert(text@ =~= fixed_point(c as nat));
    text
}

} // verus!
