//! The time of day as the prompt shows it.

use vstd::prelude::*;

verus! {

/// The number that two decimal digits write, or `None` where one of the
/// characters is no decimal digit.
pub open spec fn two_digits(tens: char, ones: char) -> Option<int> {
    let t = tens as u32;
    let o = ones as u32;
    if 0x30 <= t <= 0x39 && 0x30 <= o <= 0x39 {
        Some(10 * (t - 0x30) + (o - 0x30))
    } else {
        None
    }
}

/// Whether `s` is a time of day written as `HH:MM:SS`: hours of the 24-hour
/// clock, minutes, and seconds (60 in a leap second), each in two digits.
pub open spec fn is_clock_text(s: Seq<char>) -> bool {
    &&& s.len() == 8
    &&& s[2] == ':'
    &&& s[5] == ':'
    &&& two_digits(s[0], s[1]) matches Some(h) && h <= 23
    &&& two_digits(s[3], s[4]) matches Some(m) && m <= 59
    &&& two_digits(s[6], s[7]) matches Some(sec) && sec <= 60
}

/// The local time of day, now.
///
/// Calls `chrono::Local::now`, formats the result with the pattern
/// `%H:%M:%S` and collects it into a string. The contract is not proved; it
/// says what chrono writes for that pattern at any time: hour, minute and
/// second, each padded with a zero to two digits, with a colon between them.
/// The call panics while the system clock stands before 1970.
#[verifier::external_body]
pub(crate) fn local_time_text() -> (s: String)
    ensures
        is_clock_text(s@),
{
    chrono::Local::now().format("%H:%M:%S").to_string()
}

} // verus!
