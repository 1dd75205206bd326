use vstd::prelude::*;
use vstd::string::StringExecFns;

use crate::clock::today_start_timestamp;
use crate::error::Error;

verus! {

/// What chrono's `NaiveDate::parse_from_str` yields on a text with the
/// day.month.year format: the calendar date, or nothing when the text is
/// rejected. The result depends on the text alone.
pub uninterp spec fn parsed_dmy(s: Seq<char>) -> Option<(i32, u32, u32)>;

/// Relies on chrono's `NaiveDate::parse_from_str` with format "%d.%m.%Y",
/// and on the `Datelike` accessors: the parsed text is a valid calendar
/// date, so its month and day are within the calendar ranges.
#[verifier::external_body]
fn parse_date_dmy(s: &str) -> (r: Option<(i32, u32, u32)>)
    ensures
        r == parsed_dmy(s@),
        r matches Some(d) ==> 1 <= d.1 <= 12 && 1 <= d.2 <= 31,
{
    match chrono::NaiveDate::parse_from_str(s, "%d.%m.%Y") {
        Ok(d) => Some(
            (chrono::Datelike::year(&d), chrono::Datelike::month(&d), chrono::Datelike::day(&d)),
        ),
        Err(_) => None,
    }
}

/// Relies on chrono's `NaiveDate::from_ymd_opt`, `NaiveDate::and_hms_opt` and
/// `NaiveDateTime::and_local_timezone` with the `Local` zone: the local-zone
/// instant of the given calendar date and wall-clock time in epoch seconds
/// (the earliest when daylight saving makes it ambiguous), or nothing when a
/// field is out of range or the local zone skips that time. The result
/// depends on the machine's zone, so nothing is promised of it.
#[verifier::external_body]
fn local_timestamp_of(year: i32, month: u32, day: u32, hour: u32, min: u32, sec: u32) -> (r: Option<
    i64,
>) {
    let date = match chrono::NaiveDate::from_ymd_opt(year, month, day) {
        Some(d) => d,
        None => return None,
    };
    let dt = match date.and_hms_opt(hour, min, sec) {
        Some(t) => t,
        None => return None,
    };
    match dt.and_local_timezone(chrono::Local) {
        chrono::LocalResult::Single(x) => Some(x.timestamp()),
        chrono::LocalResult::Ambiguous(x, _) => Some(x.timestamp()),
        chrono::LocalResult::None => None,
    }
}

/// Parses a day.month.year date text and gives the local-zone instant of the
/// given wall-clock time on that date, in epoch seconds.
///
/// A text that the date format rejects fails with a validation error naming
/// it; so does a wall-clock time that is out of range or that the local zone
/// skips.
pub fn get_datetime_from_date_str(date_str: &str, hour: u32, min: u32, sec: u32) -> (r: Result<
    i64,
    Error,
>)
    ensures
        parsed_dmy(date_str@) is None ==> r is Err,
        r is Ok ==> parsed_dmy(date_str@) is Some,
        r matches Err(e) ==> e matches Error::Validation { text } && text@ == date_str@,
{
    let parts = match parse_date_dmy(date_str) {
        Some(t) => t,
        None => {
            return Err(Error::Validation { text: date_str.to_owned() });
        },
    };
    let (y, m, d) = parts;
    match local_timestamp_of(y, m, d, hour, min, sec) {
        Some(ts) => Ok(ts),
        None => Err(Error::Validation { text: date_str.to_owned() }),
    }
}

/// The instant for a textual lower bound on session start times: the keyword
/// "today" means the start of the current day; any other text is read as a
/// day.month.year date, taken at midnight. A text that is neither fails with
/// a validation error naming it.
pub fn parse_from_bound(text: &str) -> (r: Result<i64, Error>)
    ensures
        text@ != "today"@ && parsed_dmy(text@) is None ==> r is Err,
        text@ != "today"@ && r is Ok ==> parsed_dmy(text@) is Some,
        r matches Err(e) ==> e matches Error::Validation { text: t } && t@ == text@,
{
    let owned = text.to_owned();
    if owned == String::from_str("today") {
        match today_start_timestamp() {
            Some(ts) => Ok(ts),
            None => Err(Error::Validation { text: owned }),
        }
    } else {
        get_datetime_from_date_str(text, 0, 0, 0)
    }
}

/// The instant for a textual upper bound on session end times: the given
/// day.month.year date taken at the last second of that day. A text the date
/// format rejects fails with a validation error naming it.
pub fn parse_to_bound(text: &str) -> (r: Result<i64, Error>)
    ensures
        parsed_dmy(text@) is None ==> r is Err,
        r is Ok ==> parsed_dmy(text@) is Some,
        r matches Err(e) ==> e matches Error::Validation { text: t } && t@ == text@,
{
    get_datetime_from_date_str(text, 23, 59, 59)
}

} // verus!
