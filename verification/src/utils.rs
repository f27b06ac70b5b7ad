//! Durations as text: reading the clock form and writing it.
//!
//! A duration is written as minutes and seconds with a colon between them,
//! each with at least two digits. It is read from the same form; there the
//! seconds may exceed 59.

use crate::model::{Duration, TrackView, Tracklist};
use crate::text::{first_colon, parse_unsigned, parsed_unsigned, split_at_colon};
use vstd::prelude::*;
use vstd::string::StringExecFns;

verus! {

/// The milliseconds in a second.
pub const MILLIS_PER_SECOND: u64 = 1000;

/// The seconds in a minute.
pub const SECONDS_PER_MINUTE: u64 = 60;

/// The character of a digit below ten.
pub open spec fn digit_char(d: nat) -> char {
    ((d + 48) as u32) as char
}

/// The digits of `n` in base ten, without leading zeros.
pub open spec fn decimal_text(n: nat) -> Seq<char>
    decreases n,
{
    if n < 10 {
        seq![digit_char(n)]
    } else {
        decimal_text(n / 10).push(digit_char(n % 10))
    }
}

/// The digits of `n` in base ten, with a zero before a single digit.
pub open spec fn two_digits(n: nat) -> Seq<char> {
    if n < 10 {
        seq!['0', digit_char(n)]
    } else {
        decimal_text(n)
    }
}

/// Minutes and seconds in the clock form.
pub open spec fn clock_text(minutes: nat, seconds: nat) -> Seq<char> {
    two_digits(minutes) + seq![':'] + two_digits(seconds)
}

/// A number of milliseconds rounded to whole seconds, a half upwards.
pub open spec fn rounded_seconds(millis: nat) -> nat {
    (millis + 500) / 1000
}

/// A duration in the clock form: rounded to whole seconds, then the minutes
/// and the seconds that are left.
pub open spec fn duration_text(millis: nat) -> Seq<char> {
    clock_text(rounded_seconds(millis) / 60, rounded_seconds(millis) % 60)
}

/// The duration that `s` gives in the clock form, in milliseconds: `s` is
/// split at its first colon, and both parts are unsigned numbers of 32 bits,
/// the minutes and the seconds.
pub open spec fn clock_duration(s: Seq<char>) -> Option<nat> {
    let at = first_colon(s);
    if at < s.len() {
        match (
            parsed_unsigned(s.take(at), u32::MAX as nat),
            parsed_unsigned(s.skip(at + 1), u32::MAX as nat),
        ) {
            (Some(minutes), Some(seconds)) => Some(((minutes * 60 + seconds) * 1000) as nat),
            _ => None,
        }
    } else {
        None
    }
}

/// The playing time of a sequence of tracks.
pub open spec fn total_of(tracks: Seq<TrackView>) -> nat
    decreases tracks.len(),
{
    if tracks.len() == 0 {
        0
    } else {
        total_of(tracks.drop_last()) + tracks.last().duration
    }
}

/// The number of bytes of the longest title among `tracks`, or `least` if
/// no title is longer than that.
pub open spec fn widest_title(tracks: Seq<TrackView>, least: nat) -> nat
    decreases tracks.len(),
{
    if tracks.len() == 0 {
        least
    } else {
        let before = widest_title(tracks.drop_last(), least);
        let last = vstd::utf8::encode_utf8(tracks.last().title).len();
        if last > before {
            last
        } else {
            before
        }
    }
}

/// The text of a digit below ten.
fn digit_text(d: u128) -> (r: &'static str)
    requires
        d < 10,
    ensures
        r@ == seq![digit_char(d as nat)],
{
    proof {
        reveal_strlit("0");
        reveal_strlit("1");
        reveal_strlit("2");
        reveal_strlit("3");
        reveal_strlit("4");
        reveal_strlit("5");
        reveal_strlit("6");
        reveal_strlit("7");
        reveal_strlit("8");
        reveal_strlit("9");
    }
    let r = if d == 0 {
        "0"
    } else if d == 1 {
        "1"
    } else if d == 2 {
        "2"
    } else if d == 3 {
        "3"
    } else if d == 4 {
        "4"
    } else if d == 5 {
        "5"
    } else if d == 6 {
        "6"
    } else if d == 7 {
        "7"
    } else if d == 8 {
        "8"
    } else {
        "9"
    };
    r
}

/// Writes a number in base ten.
pub fn decimal_string(n: u128) -> (r: String)
    ensures
        r@ == decimal_text(n as nat),
    decreases n,
{
    if n < 10 {
        String::from_str(digit_text(n))
    } else {
        let r = decimal_string(n / 10).concat(digit_text(n % 10));
        r
    }
}

/// Writes a number in base ten with at least two digits.
pub fn two_digit_string(n: u128) -> (r: String)
    ensures
        r@ == two_digits(n as nat),
{
    if n < 10 {
        proof {
            reveal_strlit("0");
        }
        let r = String::from_str("0").concat(digit_text(n));
        r
    } else {
        decimal_string(n)
    }
}

/// Writes minutes and seconds in the clock form.
pub fn clock_string(minutes: u128, seconds: u128) -> (r: String)
    ensures
        r@ == clock_text(minutes as nat, seconds as nat),
{
    proof {
        reveal_strlit(":");
    }
    let r = two_digit_string(minutes).concat(":").concat(two_digit_string(seconds).as_str());
    r
}

/// Writes a number of milliseconds in the clock form, rounded to whole
/// seconds.
pub fn format_milliseconds(millis: u128) -> (r: String)
    ensures
        r@ == duration_text(millis as nat),
{
    let whole = millis / 1000;
    let seconds = if millis % 1000 >= 500 {
        whole + 1
    } else {
        whole
    };
    clock_string(seconds / 60, seconds % 60)
}

/// Writes a duration in the clock form, rounded to whole seconds.
pub fn format_duration(duration: Duration) -> (r: String)
    ensures
        r@ == duration_text(duration as nat),
{
    format_milliseconds(duration as u128)
}

/// Reads a duration in the clock form. The result is `None` if and only if
/// `s` is not in that form.
pub fn parse_clock_duration(s: &str) -> (r: Option<Duration>)
    ensures
        r == match clock_duration(s@) {
            Some(millis) => Some(millis as Duration),
            None => None,
        },
{
    match split_at_colon(s) {
        Some((head, tail)) => {
            match (parse_unsigned(head, u32::MAX as u64), parse_unsigned(tail, u32::MAX as u64)) {
                (Some(minutes), Some(seconds)) => Some(
                    (minutes * SECONDS_PER_MINUTE + seconds) * MILLIS_PER_SECOND,
                ),
                _ => None,
            }
        },
        None => None,
    }
}

/// The playing time of `tracklist`.
pub fn total_duration(tracklist: &Tracklist) -> (r: u128)
    ensures
        r == total_of(tracklist@),
{
    let ghost tracks = tracklist@;
    let mut total: u128 = 0;
    let mut i: usize = 0;
    while i < tracklist.0.len()
        invariant
            i <= tracklist.0.len(),
            tracks == tracklist@,
            total == total_of(tracks.take(i as int)),
            total <= i * 0xffff_ffff_ffff_ffff,
        decreases tracklist.0.len() - i,
    {
        proof {
            assert(tracks.take(i + 1).drop_last() =~= tracks.take(i as int));
        }
        total = total + tracklist.0[i].duration as u128;
        i = i + 1;
    }
    assert(tracks.take(i as int) =~= tracks);
    total
}

/// The width of the title column of a table of `tracklist`: the number of
/// bytes of its longest title, and at least `least`.
pub fn title_width(tracklist: &Tracklist, least: usize) -> (r: usize)
    ensures
        r == widest_title(tracklist@, least as nat),
{
    let ghost tracks = tracklist@;
    let mut width: usize = least;
    let mut i: usize = 0;
    while i < tracklist.0.len()
        invariant
            i <= tracklist.0.len(),
            tracks == tracklist@,
            width == widest_title(tracks.take(i as int), least as nat),
        decreases tracklist.0.len() - i,
    {
        proof {
            assert(tracks.take(i + 1).drop_last() =~= tracks.take(i as int));
        }
        let len = tracklist.0[i].title.as_str().as_bytes().len();
        if len > width {
            width = len;
        }
        i = i + 1;
    }
    assert(tracks.take(i as int) =~= tracks);
    width
}

} // verus!
