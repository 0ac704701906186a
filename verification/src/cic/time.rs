//! Timestamps of flows, held as plain integers, and the calendar work that
//! is handed to `chrono`.

use vstd::prelude::*;

verus! {

/// The pattern in which a timestamp is written on an output line, for example
/// `2023-12-31 23:59:59.123`.
pub open spec fn line_pattern() -> Seq<char> {
    "%Y-%m-%d %H:%M:%S%.3f"@
}

/// Twelve hours, in seconds.
pub const TWELVE_HOURS: i64 = 43_200;

/// A second, in nanoseconds. The nanoseconds of a timestamp reach this number
/// within a leap second only.
pub const NANOS_PER_SECOND: u32 = 1_000_000_000;

/// A date and time without a time zone: the seconds since 1970-01-01 00:00:00,
/// leap seconds not counted, and the nanoseconds since the last whole second.
/// Within a leap second `nanos` runs from 1,000,000,000 on.
#[derive(Clone, Copy, Debug, PartialEq, Eq, Structural, PartialOrd, Ord, Hash)]
pub struct FlowTimeStamp {
    pub secs: i64,
    pub nanos: u32,
}

/// What `chrono` reads from `text` under the strftime pattern `pattern`: the
/// seconds and nanoseconds of the date and time, or `None` where the text
/// does not match the pattern.
pub uninterp spec fn datetime_read(text: Seq<char>, pattern: Seq<char>) -> Option<(int, int)>;

/// The date and time that `chrono` gives for the one at `secs` and `nanos`
/// moved by `by` seconds, or `None` where either is out of its range.
pub uninterp spec fn datetime_moved(secs: int, nanos: int, by: int) -> Option<(int, int)>;

/// The text that `chrono` writes for the date and time at `secs` and `nanos`
/// under the strftime pattern `pattern`, or `None` where the date is out of
/// range or the pattern cannot be written.
pub uninterp spec fn datetime_text(secs: int, nanos: int, pattern: Seq<char>) -> Option<Seq<char>>;

/// Calls `chrono::NaiveDateTime::parse_from_str`. The contract only names the
/// outcome: the same text and pattern always give the same date and time,
/// handed back as seconds and nanoseconds.
#[verifier::external_body]
pub(crate) fn read_datetime(text: &str, pattern: &str) -> (out: Option<FlowTimeStamp>)
    ensures
        match out {
            Some(t) => datetime_read(text@, pattern@) == Some((t.secs as int, t.nanos as int)),
            None => datetime_read(text@, pattern@) is None,
        },
{
    match chrono::NaiveDateTime::parse_from_str(text, pattern) {
        Ok(t) => Some(
            FlowTimeStamp {
                secs: t.and_utc().timestamp(),
                nanos: t.and_utc().timestamp_subsec_nanos(),
            },
        ),
        Err(_) => None,
    }
}

/// Calls `chrono::NaiveDateTime::checked_add_signed` with a span of `by`
/// seconds. The contract names the outcome, which depends on nothing but the
/// three numbers, and says of it what `chrono` documents of a time that lies
/// in no leap second: a span of whole seconds adds to the seconds and leaves
/// the nanoseconds as they are. When there is an outcome is not said.
#[verifier::external_body]
pub(crate) fn move_datetime(t: FlowTimeStamp, by: i64) -> (out: Option<FlowTimeStamp>)
    ensures
        match out {
            Some(m) => datetime_moved(t.secs as int, t.nanos as int, by as int) == Some(
                (m.secs as int, m.nanos as int),
            ),
            None => datetime_moved(t.secs as int, t.nanos as int, by as int) is None,
        },
        out matches Some(m) ==> (t.nanos < NANOS_PER_SECOND ==> m.secs == t.secs + by && m.nanos
            == t.nanos),
{
    let base = chrono::DateTime::from_timestamp(t.secs, t.nanos)?.naive_utc();
    let moved = base.checked_add_signed(chrono::TimeDelta::try_seconds(by)?)?;
    Some(
        FlowTimeStamp {
            secs: moved.and_utc().timestamp(),
            nanos: moved.and_utc().timestamp_subsec_nanos(),
        },
    )
}

/// Calls `chrono::NaiveDateTime::format` and writes the outcome to a string.
/// The contract only names that string, which depends on nothing but the two
/// numbers and the pattern.
#[verifier::external_body]
pub(crate) fn write_datetime(t: FlowTimeStamp, pattern: &str) -> (out: Option<String>)
    ensures
        match out {
            Some(s) => datetime_text(t.secs as int, t.nanos as int, pattern@) == Some(s@),
            None => datetime_text(t.secs as int, t.nanos as int, pattern@) is None,
        },
{
    let base = chrono::DateTime::from_timestamp(t.secs, t.nanos)?.naive_utc();
    let mut out = String::new();
    base.format(pattern).write_to(&mut out).ok()?;
    Some(out)
}

impl FlowTimeStamp {
    /// The timestamp at `secs` seconds and `nanos` nanoseconds.
    pub fn new(secs: i64, nanos: u32) -> (t: Self)
        ensures
            t.secs == secs,
            t.nanos == nanos,
    {
        FlowTimeStamp { secs, nanos }
    }

    /// The hour of the day, from 0 to 23.
    pub open spec fn spec_hour(self) -> int {
        (self.secs as int % 86_400) / 3_600
    }

    /// The hour of the day, from 0 to 23.
    pub fn hour(self) -> (h: u32)
        ensures
            h == self.spec_hour(),
            h < 24,
    {
        let r: i64 = self.secs % 86_400;
        let of_day: i64 = if r < 0 {
            r + 86_400
        } else {
            r
        };
        (of_day / 3_600) as u32
    }

    /// Whether `self` comes strictly before `other`.
    pub open spec fn spec_precedes(self, other: Self) -> bool {
        self.secs < other.secs || (self.secs == other.secs && self.nanos < other.nanos)
    }

    /// Whether `self` comes strictly before `other`.
    #[verifier::when_used_as_spec(spec_precedes)]
    pub fn precedes(self, other: Self) -> (r: bool)
        ensures
            r == self.spec_precedes(other),
    {
        self.secs < other.secs || (self.secs == other.secs && self.nanos < other.nanos)
    }

    /// The timestamp moved by `by` seconds, or `None` where `chrono` cannot
    /// hold the timestamp or the outcome. Outside a leap second the seconds
    /// move by `by` and the nanoseconds stay.
    pub fn moved(self, by: i64) -> (out: Option<Self>)
        ensures
            match out {
                Some(m) => datetime_moved(self.secs as int, self.nanos as int, by as int) == Some(
                    (m.secs as int, m.nanos as int),
                ),
                None => datetime_moved(self.secs as int, self.nanos as int, by as int) is None,
            },
            out matches Some(m) ==> (self.nanos < NANOS_PER_SECOND ==> m.secs == self.secs + by
                && m.nanos == self.nanos),
    {
        move_datetime(self, by)
    }

    /// The timestamp as it stands on an output line, with milliseconds, or
    /// `None` where `chrono` cannot hold the timestamp.
    pub fn to_text(self) -> (out: Option<String>)
        ensures
            match out {
                Some(s) => datetime_text(self.secs as int, self.nanos as int, line_pattern())
                    == Some(s@),
                None => datetime_text(self.secs as int, self.nanos as int, line_pattern()) is None,
            },
    {
        write_datetime(self, "%Y-%m-%d %H:%M:%S%.3f")
    }
}

/// Why a text gives no timestamp.
#[derive(Clone, Copy, Debug, PartialEq, Eq, Structural)]
pub enum TimestampError {
    /// The text matches no pattern that is known for it.
    UnknownFormat,
    /// The text matches no known pattern, and the caller gave no hint on the
    /// half of the day that it lies in.
    MissingHint,
    /// The timestamp cannot be moved by twelve hours.
    OutOfRange,
}

/// The timestamp with the given seconds and nanoseconds.
pub open spec fn stamp_of(v: (int, int)) -> FlowTimeStamp {
    FlowTimeStamp { secs: v.0 as i64, nanos: v.1 as u32 }
}

/// How many patterns are known for a timestamp that says on which half of
/// the day it lies, or that counts its hours up to 24.
pub const N_TIME_FORMATS: usize = 5;

/// The known patterns, by index: day, month, year and a twelve-hour time with
/// `am` or `pm` in either case, with and without seconds, and last a date
/// with a 24-hour time and microseconds.
pub open spec fn time_format(i: int) -> Seq<char> {
    if i == 0 {
        "%e/%m/%Y %l:%M %p"@
    } else if i == 1 {
        "%e/%m/%Y %l:%M:%S %p"@
    } else if i == 2 {
        "%e/%m/%Y %l:%M %P"@
    } else if i == 3 {
        "%e/%m/%Y %l:%M:%S %P"@
    } else {
        "%Y-%m-%d %H:%M:%S%.6f"@
    }
}

/// The pattern with index `i`.
pub fn time_format_at(i: usize) -> (out: &'static str)
    requires
        i < N_TIME_FORMATS,
    ensures
        out@ == time_format(i as int),
{
    if i == 0 {
        "%e/%m/%Y %l:%M %p"
    } else if i == 1 {
        "%e/%m/%Y %l:%M:%S %p"
    } else if i == 2 {
        "%e/%m/%Y %l:%M %P"
    } else if i == 3 {
        "%e/%m/%Y %l:%M:%S %P"
    } else {
        "%Y-%m-%d %H:%M:%S%.6f"
    }
}

/// The text of a timestamp with the caller's hint put behind it: ` am` for
/// the morning, ` pm` for the evening, nothing where there is no hint.
pub open spec fn hinted(text: Seq<char>, is_am: Option<bool>) -> Seq<char> {
    match is_am {
        Some(true) => text + " am"@,
        Some(false) => text + " pm"@,
        None => text,
    }
}

/// The index of the first known pattern from `from` on that `text` matches.
pub open spec fn first_match_from(text: Seq<char>, from: int) -> Option<int>
    decreases N_TIME_FORMATS - from,
{
    if from >= N_TIME_FORMATS {
        None
    } else if datetime_read(text, time_format(from)) is Some {
        Some(from)
    } else {
        first_match_from(text, from + 1)
    }
}

/// The index of the pattern under which `text` is read: the guessed one where
/// `text` matches it, otherwise the first one that `text` matches.
pub open spec fn matching_format(text: Seq<char>, guess: int) -> Option<int> {
    if 0 <= guess < N_TIME_FORMATS && datetime_read(text, time_format(guess)) is Some {
        Some(guess)
    } else {
        first_match_from(text, 0)
    }
}

/// Reads a timestamp that says on which half of the day it lies, or that
/// counts its hours up to 24. The caller's hint is put behind the text, then
/// the guessed pattern is tried, then every known pattern in order. The
/// index of the pattern that matched comes back with the timestamp and is the
/// guess to make for the next row.
pub fn str_to_timestamp(
    cic_timestamp_str: &str,
    is_am: &Option<bool>,
    guessed_time_format_index: usize,
) -> (out: Result<(FlowTimeStamp, usize), TimestampError>)
    ensures
        match out {
            Ok((t, i)) => {
                &&& matching_format(
                    hinted(cic_timestamp_str@, *is_am),
                    guessed_time_format_index as int,
                ) == Some(i as int)
                &&& datetime_read(hinted(cic_timestamp_str@, *is_am), time_format(i as int))
                    == Some((t.secs as int, t.nanos as int))
            },
            Err(e) => {
                &&& matching_format(
                    hinted(cic_timestamp_str@, *is_am),
                    guessed_time_format_index as int,
                ) is None
                &&& e == if *is_am is None {
                    TimestampError::MissingHint
                } else {
                    TimestampError::UnknownFormat
                }
            },
        },
{
    let guess = guessed_time_format_index;
    let mut time_str: String = cic_timestamp_str.to_owned();
    match is_am {
        Some(true) => {
            time_str = time_str.concat(" am");
        },
        Some(false) => {
            time_str = time_str.concat(" pm");
        },
        None => {},
    }
    let ghost text = hinted(cic_timestamp_str@, *is_am);
    assert(time_str@ == text);
    if guess < N_TIME_FORMATS {
        match read_datetime(time_str.as_str(), time_format_at(guess)) {
            Some(t) => {
                return Ok((t, guess));
            },
            None => {},
        }
    }
    let mut i: usize = 0;
    while i < N_TIME_FORMATS
        invariant
            i <= N_TIME_FORMATS,
            time_str@ == text,
            text == hinted(cic_timestamp_str@, *is_am),
            guess == guessed_time_format_index,
            first_match_from(text, 0) == first_match_from(text, i as int),
            matching_format(text, guess as int) == first_match_from(text, 0),
            guess < N_TIME_FORMATS ==> datetime_read(text, time_format(guess as int)) is None,
        decreases N_TIME_FORMATS - i,
    {
        if i != guess {
            match read_datetime(time_str.as_str(), time_format_at(i)) {
                Some(t) => {
                    return Ok((t, i));
                },
                None => {},
            }
        }
        i += 1;
    }
    if is_am.is_none() {
        Err(TimestampError::MissingHint)
    } else {
        Err(TimestampError::UnknownFormat)
    }
}

} // verus!
