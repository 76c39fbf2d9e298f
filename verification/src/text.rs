//! Numbers written out as text.

use vstd::prelude::*;

verus! {

/// The digit `d`, from zero to fifteen, in upper-case hexadecimal; `F` for
/// any other number.
pub open spec fn digit_text(d: int) -> Seq<char> {
    if d == 0 {
        "0"@
    } else if d == 1 {
        "1"@
    } else if d == 2 {
        "2"@
    } else if d == 3 {
        "3"@
    } else if d == 4 {
        "4"@
    } else if d == 5 {
        "5"@
    } else if d == 6 {
        "6"@
    } else if d == 7 {
        "7"@
    } else if d == 8 {
        "8"@
    } else if d == 9 {
        "9"@
    } else if d == 10 {
        "A"@
    } else if d == 11 {
        "B"@
    } else if d == 12 {
        "C"@
    } else if d == 13 {
        "D"@
    } else if d == 14 {
        "E"@
    } else {
        "F"@
    }
}

/// `n` in decimal, most significant digit first, without leading zeros;
/// zero is the single digit `0`.
pub open spec fn decimal_text(n: nat) -> Seq<char>
    decreases n,
{
    if n < 10 {
        digit_text(n as int)
    } else {
        decimal_text(n / 10) + digit_text((n % 10) as int)
    }
}

/// `n` in upper-case hexadecimal, most significant digit first, without
/// leading zeros; zero is the single digit `0`.
pub open spec fn hex_text(n: nat) -> Seq<char>
    decreases n,
{
    if n < 16 {
        digit_text(n as int)
    } else {
        hex_text(n / 16) + digit_text((n % 16) as int)
    }
}

/// `n` in upper-case hexadecimal, with a leading zero when it is a single digit.
pub open spec fn hex_text_padded(n: nat) -> Seq<char> {
    if n < 16 {
        "0"@ + hex_text(n)
    } else {
        hex_text(n)
    }
}

/// The text of one digit below sixteen; `F` for any greater number.
pub fn digit_str(d: usize) -> (text: &'static str)
    ensures
        text@ == digit_text(d as int),
{
    if d == 0 {
        "0"
    } else if d == 1 {
        "1"
    } else if d == 2 {
        "2"
    } else if d == 3 {
        "3"
    } else if d == 4 {
        "4"
    } else if d == 5 {
        "5"
    } else if d == 6 {
        "6"
    } else if d == 7 {
        "7"
    } else if d == 8 {
        "8"
    } else if d == 9 {
        "9"
    } else if d == 10 {
        "A"
    } else if d == 11 {
        "B"
    } else if d == 12 {
        "C"
    } else if d == 13 {
        "D"
    } else if d == 14 {
        "E"
    } else {
        "F"
    }
}

/// Writes `n` out in decimal.
pub fn decimal_string(n: usize) -> (text: String)
    ensures
        text@ == decimal_text(n as nat),
    decreases n,
{
    if n < 10 {
        String::from_str(digit_str(n))
    } else {
        let mut text = decimal_string(n / 10);
        text.append(digit_str(n % 10));
        text
    }
}

/// Writes `n` out in upper-case hexadecimal.
pub fn hex_string(n: usize) -> (text: String)
    ensures
        text@ == hex_text(n as nat),
    decreases n,
{
    if n < 16 {
        String::from_str(digit_str(n))
    } else {
        let mut text = hex_string(n / 16);
        text.append(digit_str(n % 16));
        text
    }
}

/// Writes `n` out in upper-case hexadecimal, two digits wide at least.
pub fn hex_string_padded(n: usize) -> (text: String)
    ensures
        text@ == hex_text_padded(n as nat),
{
    if n < 16 {
        let mut text = String::from_str("0");
        text.append(digit_str(n));
        text
    } else {
        hex_string(n)
    }
}

} // verus!
