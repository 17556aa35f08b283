//! What the query tool computes: windows of time, paths and the text of
//! durations.

use vstd::prelude::*;
use vstd::string::*;
use chrono::Datelike;
use crate::database::fits_i64;
use crate::text::{decimal, push_decimal, push_signed_decimal, signed_decimal};

verus! {

/// Seconds of a day.
pub const SECONDS_PER_DAY: i64 = 86_400;

/// Unit after a number of seconds.
pub const SECONDS_UNIT: &'static str = " sec";

/// Unit after a number of minutes.
pub const MINUTES_UNIT: &'static str = " min";

// ---------------------------------------------------------------------------
// Durations.
// ---------------------------------------------------------------------------

/// The text of a duration: seconds alone below a minute, else minutes and,
/// where they are not zero, the seconds that remain.
pub open spec fn duration_text(seconds: int) -> Seq<char> {
    if seconds < 60 {
        signed_decimal(seconds) + SECONDS_UNIT@
    } else if seconds % 60 == 0 {
        decimal((seconds / 60) as nat) + MINUTES_UNIT@
    } else {
        decimal((seconds / 60) as nat) + MINUTES_UNIT@ + seq![' '] + decimal(
            (seconds % 60) as nat,
        ) + SECONDS_UNIT@
    }
}

/// The text of a duration of `seconds` seconds.
pub fn format_duration(seconds: i64) -> (r: String)
    ensures
        r@ == duration_text(seconds as int),
{
    let mut out = String::new();
    if seconds < 60 {
        push_signed_decimal(&mut out, seconds);
        out.append(SECONDS_UNIT);
        assert(out@ =~= duration_text(seconds as int));
    } else {
        let minutes: u64 = (seconds / 60) as u64;
        let remaining: u64 = (seconds % 60) as u64;
        push_decimal(&mut out, minutes);
        out.append(MINUTES_UNIT);
        if remaining != 0 {
            proof {
                reveal_strlit(" ");
            }
            out.append(" ");
            push_decimal(&mut out, remaining);
            out.append(SECONDS_UNIT);
        }
        assert(out@ =~= duration_text(seconds as int));
    }
    out
}

// ---------------------------------------------------------------------------
// Paths.
// ---------------------------------------------------------------------------

/// Why a path could not be expanded.
#[derive(Debug, Clone, Copy, PartialEq, Eq, Structural)]
pub enum PathError {
    /// The path begins with a tilde and no home directory is known.
    HomeNotSet,
}

/// Whether a path begins with a tilde.
pub open spec fn starts_at_home(path: Seq<char>) -> bool {
    path.len() > 0 && path[0] == '~'
}

/// The path with its leading tilde replaced by the home directory.
pub open spec fn expanded(path: Seq<char>, home: Seq<char>) -> Seq<char> {
    home + path.subrange(1, path.len() as int)
}

/// Expands a path: a leading tilde stands for `home`. Any other path is
/// returned as it is. Refused where the path begins with a tilde and
/// `home` is absent.
pub fn expand_path(path: &str, home: Option<&str>) -> (r: Result<String, PathError>)
    ensures
        r is Err <==> starts_at_home(path@) && home is None,
        r matches Ok(text) ==> text@ == if starts_at_home(path@) {
            expanded(path@, home->0@)
        } else {
            path@
        },
{
    let len = path.unicode_len();
    if len > 0 && path.get_char(0) == '~' {
        match home {
            Some(h) => {
                let mut out = String::from_str(h);
                out.append(path.substring_char(1, len));
                Ok(out)
            },
            None => Err(PathError::HomeNotSet),
        }
    } else {
        Ok(String::from_str(path))
    }
}

// ---------------------------------------------------------------------------
// Windows of time.
// ---------------------------------------------------------------------------

/// A period of time that statistics can be asked for.
#[derive(Debug, Clone, Copy, PartialEq, Eq, Structural)]
pub enum TimePeriod {
    Today,
    Week,
    Month,
    Year,
    AllTime,
    Custom,
}

/// Why a period could not be turned into a window.
#[derive(Debug, Clone, Copy, PartialEq, Eq, Structural)]
pub enum PeriodError {
    /// A date is not written as year, month and day.
    InvalidDate,
    /// The start of the window does not fit in 64 bits.
    Overflow,
}

/// A day of the calendar.
#[derive(Debug, Clone, Copy, PartialEq, Eq, Structural)]
pub struct CalendarDate {
    pub year: i32,
    pub month: u32,
    pub day: u32,
}

/// Days that a period reaches back from now; none for a period that does
/// not go by days.
pub open spec fn days_back(period: TimePeriod) -> Option<int> {
    match period {
        TimePeriod::Week => Some(7),
        TimePeriod::Month => Some(30),
        TimePeriod::Year => Some(365),
        _ => None,
    }
}

/// The window of a period: its start and its end, each absent where the
/// window is open on that side.
pub open spec fn window_of(
    period: TimePeriod,
    now: i64,
    start_of_today: i64,
    custom_start: Option<i64>,
    custom_end: Option<i64>,
) -> (Option<i64>, Option<i64>) {
    match period {
        TimePeriod::Today => (Some(start_of_today), None),
        TimePeriod::Week => (Some((now - 7 * SECONDS_PER_DAY) as i64), None),
        TimePeriod::Month => (Some((now - 30 * SECONDS_PER_DAY) as i64), None),
        TimePeriod::Year => (Some((now - 365 * SECONDS_PER_DAY) as i64), None),
        TimePeriod::AllTime => (None, None),
        TimePeriod::Custom => (custom_start, custom_end),
    }
}

/// Whether the window of a period can be formed: a start that lies days
/// before now fits in 64 bits.
pub open spec fn window_defined(period: TimePeriod, now: i64) -> bool {
    days_back(period) matches Some(days) ==> fits_i64(now - days * SECONDS_PER_DAY)
}

/// The window of `period`, given the present moment, the first moment of
/// today, and the bounds of a custom period. Today reaches from the start
/// of the day, a week, a month and a year from 7, 30 and 365 days before
/// now; all time has no bounds, and a custom period has those given.
pub fn parse_time_period(
    period: TimePeriod,
    now: i64,
    start_of_today: i64,
    custom_start: Option<i64>,
    custom_end: Option<i64>,
) -> (r: Result<(Option<i64>, Option<i64>), PeriodError>)
    ensures
        r is Ok <==> window_defined(period, now),
        r matches Ok(window) ==> window == window_of(
            period,
            now,
            start_of_today,
            custom_start,
            custom_end,
        ),
        r is Err ==> r == Err::<(Option<i64>, Option<i64>), PeriodError>(PeriodError::Overflow),
{
    let days: i64 = match period {
        TimePeriod::Today => {
            return Ok((Some(start_of_today), None));
        },
        TimePeriod::AllTime => {
            return Ok((None, None));
        },
        TimePeriod::Custom => {
            return Ok((custom_start, custom_end));
        },
        TimePeriod::Week => 7,
        TimePeriod::Month => 30,
        TimePeriod::Year => 365,
    };
    match now.checked_sub(days * SECONDS_PER_DAY) {
        Some(start) => Ok((Some(start), None)),
        None => Err(PeriodError::Overflow),
    }
}

/// The day that a text names when it is read as year, month and day with
/// hyphens between them; `None` for a text that names no day.
pub uninterp spec fn parsed_date(text: Seq<char>) -> Option<CalendarDate>;

/// Reads a text as year, month and day.
///
/// This calls `chrono::NaiveDate::parse_from_str` with the format
/// `%Y-%m-%d`, and `year`, `month` and `day` of `chrono::Datelike` on what
/// it returns. It is not verified: the contract gives the result the name
/// `parsed_date`, and claims no more than that the same text is always
/// read as the same day.
#[verifier::external_body]
fn read_date(text: &str) -> (r: Option<CalendarDate>)
    ensures
        r == parsed_date(text@),
{
    match chrono::NaiveDate::parse_from_str(text, "%Y-%m-%d") {
        Ok(date) => Some(CalendarDate { year: date.year(), month: date.month(), day: date.day() }),
        Err(_) => None,
    }
}

/// The date read, or the refusal of a text that names no day.
pub fn date_or_refusal(read: Option<CalendarDate>) -> (r: Result<CalendarDate, PeriodError>)
    ensures
        r == match read {
            Some(date) => Ok::<CalendarDate, PeriodError>(date),
            None => Err::<CalendarDate, PeriodError>(PeriodError::InvalidDate),
        },
{
    match read {
        Some(date) => Ok(date),
        None => Err(PeriodError::InvalidDate),
    }
}

/// Reads a bound of a custom period, written as year, month and day.
/// Refused where the text names no day.
pub fn parse_date(text: &str) -> (r: Result<CalendarDate, PeriodError>)
    ensures
        r == match parsed_date(text@) {
            Some(date) => Ok::<CalendarDate, PeriodError>(date),
            None => Err::<CalendarDate, PeriodError>(PeriodError::InvalidDate),
        },
{
    date_or_refusal(read_date(text))
}

} // verus!
