//! Integers written as text, and integers printed as text.

use vstd::prelude::*;

verus! {

/// The value of `c` as a digit: `0`-`9`, then `a`-`z` and `A`-`Z` from ten
/// on; 36 for any other character, which is a digit in no radix.
pub open spec fn digit_value(c: char) -> int {
    let u = c as int;
    if 48 <= u <= 57 {
        u - 48
    } else if 97 <= u <= 122 {
        u - 97 + 10
    } else if 65 <= u <= 90 {
        u - 65 + 10
    } else {
        36
    }
}

/// Whether `s` is a non-empty run of digits of `radix`.
pub open spec fn all_digits(s: Seq<char>, radix: int) -> bool {
    s.len() > 0 && forall|i: int| 0 <= i < s.len() ==> #[trigger] digit_value(s[i]) < radix
}

/// The number that the digits `s` write in `radix`, most significant first.
pub open spec fn digits_number(s: Seq<char>, radix: int) -> int
    decreases s.len(),
{
    if s.len() == 0 {
        0
    } else {
        digits_number(s.drop_last(), radix) * radix + digit_value(s.last())
    }
}

/// The integer that `s` writes in `radix`: an optional `+` or `-` sign
/// followed by one or more digits, and nothing else.
pub open spec fn radix_number(s: Seq<char>, radix: int) -> Option<int> {
    let (negative, digits) = if s.len() > 0 && s[0] == '+' {
        (false, s.drop_first())
    } else if s.len() > 0 && s[0] == '-' {
        (true, s.drop_first())
    } else {
        (false, s)
    };
    if all_digits(digits, radix) {
        Some(if negative { -digits_number(digits, radix) } else { digits_number(digits, radix) })
    } else {
        None
    }
}

/// The `i32` that `s` writes in `radix`, if it writes one in range.
pub open spec fn radix_i32(s: Seq<char>, radix: int) -> Option<i32> {
    match radix_number(s, radix) {
        Some(v) => if i32::MIN <= v <= i32::MAX {
            Some(v as i32)
        } else {
            None
        },
        None => None,
    }
}

/// The text of the error that `i32::from_str_radix(s, 16)` reports on `s`.
pub uninterp spec fn hex_error_text(s: Seq<char>) -> Seq<char>;

/// The text of the error that `str::parse::<i32>` reports on `s`.
pub uninterp spec fn decimal_error_text(s: Seq<char>) -> Seq<char>;

/// Calls `i32::from_str_radix(s, 16)`. As its documentation says, it accepts
/// an optional sign and one or more hexadecimal digits, and fails on anything
/// else or on a value out of range. The error, printed, is named
/// [`hex_error_text`]: which message std chooses is not stated.
#[verifier::external_body]
pub(crate) fn hex_i32(s: &str) -> (r: Result<i32, String>)
    ensures
        match r {
            Ok(v) => radix_i32(s@, 16) == Some(v),
            Err(m) => radix_i32(s@, 16) is None && m@ == hex_error_text(s@),
        },
{
    match i32::from_str_radix(s, 16) {
        Ok(v) => Ok(v),
        Err(e) => Err(e.to_string()),
    }
}

/// Calls `str::parse::<i32>` on `s`, which reads an optional sign and one or
/// more decimal digits, and fails on anything else or on a value out of
/// range. The error, printed, is named [`decimal_error_text`].
#[verifier::external_body]
pub(crate) fn decimal_i32(s: &str) -> (r: Result<i32, String>)
    ensures
        match r {
            Ok(v) => radix_i32(s@, 10) == Some(v),
            Err(m) => radix_i32(s@, 10) is None && m@ == decimal_error_text(s@),
        },
{
    match s.parse::<i32>() {
        Ok(v) => Ok(v),
        Err(e) => Err(e.to_string()),
    }
}

/// The decimal digit character for `d`.
pub open spec fn digit_char(d: int) -> char {
    (48 + d) as char
}

/// The decimal text of `n`, without leading zeros.
pub open spec fn decimal_text(n: nat) -> Seq<char>
    decreases n,
{
    if n < 10 {
        seq![digit_char(n as int)]
    } else {
        decimal_text(n / 10).push(digit_char((n % 10) as int))
    }
}

/// Calls `usize::to_string`, which prints `n` in decimal.
#[verifier::external_body]
pub(crate) fn usize_text(n: usize) -> (s: String)
    ensures
        s@ == decimal_text(n as nat),
{
    n.to_string()
}

} // verus!
