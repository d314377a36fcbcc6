//! Times as text: reading the time strings of DeerTier, and writing a number
//! of seconds for display.

use vstd::prelude::*;
use vstd::string::*;
use crate::error::Error;
use crate::record::Record;
use crate::text::{
    all_digits, chars_of, decimal_text, digit_char, lemma_digits_value_nonnegative, parse_digits,
    text_of, unsigned_value,
};

verus! {

/// The fields of `s`: what stands between its separators, so one field more
/// than `s` has separators. Read from the left, a separator opens a new, empty
/// field and any other character goes to the end of the last field.
pub open spec fn fields(s: Seq<char>, sep: char) -> Seq<Seq<char>>
    decreases s.len(),
{
    if s.len() == 0 {
        seq![Seq::empty()]
    } else {
        let before = fields(s.drop_last(), sep);
        if s.last() == sep {
            before.push(Seq::empty())
        } else {
            before.update(before.len() - 1, before.last().push(s.last()))
        }
    }
}

/// The seconds that a time string stands for: `minutes:seconds` or
/// `hours:minutes:seconds`, each part one or more decimal digits.
pub open spec fn time_seconds(s: Seq<char>) -> Option<int> {
    let parts = fields(s, ':');
    if parts.len() == 2 {
        match (unsigned_value(parts[0]), unsigned_value(parts[1])) {
            (Some(m), Some(sec)) => Some(m * 60 + sec),
            _ => None,
        }
    } else if parts.len() == 3 {
        match (unsigned_value(parts[0]), unsigned_value(parts[1]), unsigned_value(parts[2])) {
            (Some(h), Some(m), Some(sec)) => Some(h * 3600 + m * 60 + sec),
            _ => None,
        }
    } else {
        None
    }
}

/// The seconds that an optional time string of DeerTier stands for: 0 where
/// there is none, and `InvalidData` where the string is no time or the time
/// does not fit.
pub open spec fn dt_time_value(dt_time: Option<Seq<char>>) -> Result<i32, Error> {
    match dt_time {
        None => Ok(0i32),
        Some(s) => match time_seconds(s) {
            Some(v) => if v <= i32::MAX {
                Ok(v as i32)
            } else {
                Err(Error::InvalidData)
            },
            None => Err(Error::InvalidData),
        },
    }
}

/// The views of a sequence of fields.
pub open spec fn field_views(parts: Seq<Vec<char>>) -> Seq<Seq<char>> {
    parts.map_values(|f: Vec<char>| f@)
}

/// Splits `chars` at each `sep`.
pub fn split_fields(chars: &Vec<char>, sep: char) -> (parts: Vec<Vec<char>>)
    ensures
        field_views(parts@) == fields(chars@, sep),
{
    let mut parts: Vec<Vec<char>> = Vec::new();
    let mut current: Vec<char> = Vec::new();
    let mut i: usize = 0;
    assert(chars@.take(0) =~= Seq::<char>::empty());
    assert(field_views(parts@).push(current@) =~= fields(chars@.take(0), sep));
    while i < chars.len()
        invariant
            i <= chars.len(),
            field_views(parts@).push(current@) == fields(chars@.take(i as int), sep),
        decreases chars.len() - i,
    {
        let c = chars[i];
        let ghost before = fields(chars@.take(i as int), sep);
        proof {
            let longer = chars@.take(i + 1);
            assert(longer.drop_last() =~= chars@.take(i as int));
            assert(longer.last() == c);
        }
        if c == sep {
            parts.push(current);
            current = Vec::new();
            assert(field_views(parts@).push(current@) =~= before.push(Seq::empty()));
        } else {
            let ghost last = current@;
            current.push(c);
            assert(before.last() == last);
            assert(field_views(parts@).push(current@) =~= before.update(
                before.len() - 1,
                last.push(c),
            ));
        }
        i += 1;
    }
    assert(chars@.take(i as int) =~= chars@);
    let ghost done = field_views(parts@);
    let ghost last = current@;
    parts.push(current);
    assert(field_views(parts@) =~= done.push(last));
    parts
}

fn field_number(field: &Vec<char>) -> (value: Option<i64>)
    ensures
        value == match unsigned_value(field@) {
            Some(v) => if v <= i32::MAX {
                Some(v as i64)
            } else {
                None
            },
            None => None,
        },
        unsigned_value(field@) matches Some(v) ==> v >= 0,
{
    proof {
        assert(field@.skip(0) =~= field@);
        if all_digits(field@) {
            lemma_digits_value_nonnegative(field@);
        }
    }
    parse_digits(field, 0, 0x7fff_ffff)
}

impl Record {
    /// Reads an optional time string of DeerTier as a number of seconds.
    pub fn convert_dt_time(dt_time: &Option<String>) -> (outcome: Result<i32, Error>)
        ensures
            outcome == dt_time_value(text_of(*dt_time)),
            outcome matches Ok(seconds) ==> seconds >= 0,
    {
        let text = match dt_time {
            Some(text) => text,
            None => {
                return Ok(0);
            },
        };
        let chars = chars_of(text.as_str());
        let parts = split_fields(&chars, ':');
        proof {
            assert forall|k: int| 0 <= k < parts.len() implies #[trigger] parts[k]@ == fields(
                text@,
                ':',
            )[k] by {
                assert(field_views(parts@)[k] == parts[k]@);
            }
        }
        let mut total: i64 = 0;
        if parts.len() == 2 {
            match (field_number(&parts[0]), field_number(&parts[1])) {
                (Some(m), Some(sec)) => {
                    total = m * 60 + sec;
                },
                _ => {
                    return Err(Error::InvalidData);
                },
            }
        } else if parts.len() == 3 {
            match (field_number(&parts[0]), field_number(&parts[1]), field_number(&parts[2])) {
                (Some(h), Some(m), Some(sec)) => {
                    total = h * 3600 + m * 60 + sec;
                },
                _ => {
                    return Err(Error::InvalidData);
                },
            }
        } else {
            return Err(Error::InvalidData);
        }
        if total > 0x7fff_ffff {
            return Err(Error::InvalidData);
        }
        Ok(total as i32)
    }
}

/// Two decimal digits for a number below 100, the first a 0 where the number
/// is below 10.
pub open spec fn two_digits(n: int) -> Seq<char> {
    seq![digit_char((n / 10) as nat), digit_char((n % 10) as nat)]
}

/// The hour of the day at `seconds` seconds after a midnight.
pub open spec fn hour_of(seconds: int) -> int {
    (seconds / 3600) % 24
}

/// The minute of the hour at `seconds` seconds after a midnight.
pub open spec fn minute_of(seconds: int) -> int {
    (seconds / 60) % 60
}

/// The second of the minute at `seconds` seconds after a midnight.
pub open spec fn second_of(seconds: int) -> int {
    seconds % 60
}

/// Minutes and seconds, two digits each, with a colon between.
pub open spec fn minutes_text(seconds: int) -> Seq<char> {
    two_digits(minute_of(seconds)) + seq![':'] + two_digits(second_of(seconds))
}

/// Hours, minutes and seconds with colons between, the hours in two places
/// with a blank before a single digit.
pub open spec fn padded_hours_text(seconds: int) -> Seq<char> {
    let hour = hour_of(seconds);
    let hours = if hour < 10 {
        seq![' ', digit_char(hour as nat)]
    } else {
        two_digits(hour)
    };
    hours + seq![':'] + minutes_text(seconds)
}

/// Formats a moment with the `time` crate: `Timespec::new` and `at_utc` turn
/// `seconds`, counted from the start of 1970, into a calendar time in UTC,
/// and `strftime` writes it as `format` says.
///
/// Claims, for the two formats that this library uses: the time of day in
/// UTC is `seconds` taken modulo a day, `%M` and `%S` write minute and second
/// in two digits, and `%k` writes the hour in two places, padded with a
/// blank. `seconds` is not negative and stays within `i32`: there the
/// conversion cannot fail, and every platform that the crate knows counts
/// the time of day alike.
#[verifier::external_body]
fn strftime_utc(format: &str, seconds: i64) -> (text: String)
    requires
        0 <= seconds <= i32::MAX,
        format@ == "%M:%S"@ || format@ == "%k:%M:%S"@,
    ensures
        format@ == "%M:%S"@ ==> text@ == minutes_text(seconds as int),
        format@ == "%k:%M:%S"@ ==> text@ == padded_hours_text(seconds as int),
{
    time::strftime(format, &time::at_utc(time::Timespec::new(seconds, 0))).unwrap_or(String::new())
}

/// A number of seconds as shown to people: minutes and seconds below an
/// hour; hours, minutes and seconds from an hour on, the hours without
/// padding. The hours start again at 0 after a full day, as on a clock.
pub open spec fn clock_text(seconds: int) -> Seq<char> {
    if seconds >= 3600 {
        decimal_text(hour_of(seconds) as nat) + seq![':'] + minutes_text(seconds)
    } else {
        minutes_text(seconds)
    }
}

/// An hour of the day below 10 is written with one digit and from 10 on
/// with two, and no digit is a blank.
proof fn lemma_hours_unpadded(hour: int)
    requires
        0 <= hour < 24,
    ensures
        hour < 10 ==> decimal_text(hour as nat) == seq![digit_char(hour as nat)],
        hour >= 10 ==> decimal_text(hour as nat) == two_digits(hour),
        digit_char((hour / 10) as nat) != ' ',
{
    if hour >= 10 {
        assert(decimal_text((hour / 10) as nat) == seq![digit_char((hour / 10) as nat)]);
        assert(decimal_text(hour as nat) =~= two_digits(hour));
    }
}

impl Record {
    fn from_seconds(seconds: i64) -> (text: String)
        requires
            0 <= seconds <= i32::MAX,
        ensures
            text@ == clock_text(seconds as int),
    {
        if seconds >= 3600 {
            let padded = strftime_utc("%k:%M:%S", seconds);
            let shown = padded.as_str();
            let ghost hour = hour_of(seconds as int);
            let ghost rest = seq![':'] + minutes_text(seconds as int);
            proof {
                assert(0 <= hour < 24);
                assert(shown@.len() == 8);
                lemma_hours_unpadded(hour);
            }
            if shown.get_char(0) == ' ' {
                let unpadded = shown.substring_char(1, 8);
                assert(unpadded@ =~= seq![digit_char(hour as nat)] + rest);
                String::from_str(unpadded)
            } else {
                assert(shown@ =~= two_digits(hour) + rest);
                padded
            }
        } else {
            strftime_utc("%M:%S", seconds)
        }
    }

    /// The real time of the run, for display. Times are never negative.
    pub fn realtime_str(&self) -> (text: String)
        requires
            self.realtime >= 0,
        ensures
            text@ == clock_text(self.realtime as int),
    {
        Record::from_seconds(self.realtime as i64)
    }

    /// The game time of the run, for display. Times are never negative.
    pub fn gametime_str(&self) -> (text: String)
        requires
            self.gametime >= 0,
        ensures
            text@ == clock_text(self.gametime as int),
    {
        Record::from_seconds(self.gametime as i64)
    }
}

} // verus!
