//! Utility functions

use crate::text::{decimal, decimal_string};
use std::borrow::Cow;
use vstd::prelude::*;

verus! {

/// The divisor by which a time fraction is reduced to a pseudo-random
/// number.
pub const RAND_MODULUS: u32 = 65537;

/// The pseudo-random number that a time fraction is reduced to.
pub open spec fn rand_of(nanos: u32) -> u32 {
    nanos % RAND_MODULUS
}

/// Generate a pseudo-random number from the sub-second part of the system
/// time, given in nanoseconds. This is low-quality randomness: it is
/// neither uniform nor independent between calls that are close in time.
pub fn rand(nanos: u32) -> (result: u32)
    ensures
        result == rand_of(nanos),
        result < RAND_MODULUS,
{
    nanos % RAND_MODULUS
}

/// The ending given to a number from 14 up, by its last digit alone.
pub open spec fn ordinal_suffix(last_digit: nat) -> Seq<char> {
    if last_digit == 1 {
        "st"@
    } else if last_digit == 2 {
        "nd"@
    } else if last_digit == 3 {
        "rd"@
    } else {
        "th"@
    }
}

/// The ordinal form of `n`: a fixed word or form up to 13, and from 14 up
/// the number in base ten with the ending that its last digit calls for.
/// Numbers such as 111 therefore end in "st", "nd" or "rd" like any other.
pub open spec fn ordinal(n: nat) -> Seq<char> {
    if n == 0 {
        "zeroth"@
    } else if n == 1 {
        "first"@
    } else if n == 2 {
        "second"@
    } else if n == 3 {
        "third"@
    } else if n == 4 {
        "fourth"@
    } else if n == 5 {
        "fifth"@
    } else if n == 6 {
        "sixth"@
    } else if n == 7 {
        "seventh"@
    } else if n == 8 {
        "eighth"@
    } else if n == 9 {
        "ninth"@
    } else if n == 10 {
        "10th"@
    } else if n == 11 {
        "11th"@
    } else if n == 12 {
        "12th"@
    } else if n == 13 {
        "13th"@
    } else {
        decimal(n) + ordinal_suffix(n % 10)
    }
}

/// Convert a number to its ordinal form (1st, 2nd, 3rd, etc.)
pub fn nth(n: u32) -> (result: Cow<'static, str>)
    ensures
        result@ == ordinal(n as nat),
{
    if n <= 13 {
        let word = match n {
            0 => "zeroth",
            1 => "first",
            2 => "second",
            3 => "third",
            4 => "fourth",
            5 => "fifth",
            6 => "sixth",
            7 => "seventh",
            8 => "eighth",
            9 => "ninth",
            10 => "10th",
            11 => "11th",
            12 => "12th",
            _ => "13th",
        };
        Cow::Borrowed(word)
    } else {
        let suffix = match n % 10 {
            1 => "st",
            2 => "nd",
            3 => "rd",
            _ => "th",
        };
        let mut result = decimal_string(n);
        result.append(suffix);
        Cow::Owned(result)
    }
}

/// The text that `ordinal` holds, borrowed or owned.
pub fn as_text<'a>(ordinal: &'a Cow<'static, str>) -> (text: &'a str)
    ensures
        text@ == ordinal@,
{
    match ordinal {
        Cow::Borrowed(word) => word,
        Cow::Owned(word) => word.as_str(),
    }
}

} // verus!
