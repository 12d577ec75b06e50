//! Times of day written as `hh:mm`.
use crate::text::{chars_of, parse_unsigned, unsigned_of};
use vstd::prelude::*;
use vstd::slice::slice_subrange;

verus! {

/// A time of day, to the minute.
#[derive(Clone, Copy, Debug, PartialEq, Eq, Structural)]
pub struct WallTime {
    pub hour: u32,
    pub minute: u32,
}

impl WallTime {
    /// The hour is one of a day's twenty-four, the minute one of an hour's
    /// sixty.
    pub open spec fn wf(self) -> bool {
        self.hour < 24 && self.minute < 60
    }

    /// The time of day with the given hour and minute, if there is one.
    pub fn new(hour: u32, minute: u32) -> (r: Option<WallTime>)
        ensures
            r == (if hour < 24 && minute < 60 {
                Some((WallTime { hour, minute }))
            } else {
                None
            }),
    {
        if hour < 24 && minute < 60 {
            Some(WallTime { hour, minute })
        } else {
            None
        }
    }
}

/// The hour and the minute that a time text writes. The text has exactly five
/// characters, the third a colon; the two before it and the two after it are
/// unsigned numerals. Neither number is held to a range.
pub open spec fn hour_and_minute(text: Seq<char>) -> Option<(u32, u32)> {
    let hour = unsigned_of(text.subrange(0, 2), u32::MAX as nat);
    let minute = unsigned_of(text.subrange(3, 5), u32::MAX as nat);
    if text.len() == 5 && text[2] == ':' && hour is Some && minute is Some {
        Some((hour->0 as u32, minute->0 as u32))
    } else {
        None
    }
}

/// A time text read twice reads the same both times.
pub proof fn lemma_time_read_alike(
    text: Seq<char>,
    first: Option<(u32, u32)>,
    second: Option<(u32, u32)>,
)
    requires
        first == hour_and_minute(text),
        second == hour_and_minute(text),
    ensures
        first == second,
{
}

/// Reads a time of day.
pub fn parse_time(text: &str) -> (r: Option<(u32, u32)>)
    ensures
        r == hour_and_minute(text@),
{
    let chars = chars_of(text);
    if chars.len() != 5 || chars[2] != ':' {
        return None;
    }
    let hour = parse_unsigned(slice_subrange(chars.as_slice(), 0, 2), u32::MAX as u64);
    let minute = parse_unsigned(slice_subrange(chars.as_slice(), 3, 5), u32::MAX as u64);
    match (hour, minute) {
        (Some(h), Some(m)) => Some((h as u32, m as u32)),
        _ => None,
    }
}

} // verus!
