use vstd::prelude::*;

verus! {

/// Relies on chrono's `Local::now` and `DateTime::timestamp`: the current
/// instant in epoch seconds. The result depends on the wall clock, so nothing
/// is promised of it.
#[verifier::external_body]
pub fn now_timestamp() -> (r: i64) {
    chrono::Local::now().timestamp()
}

/// Relies on chrono's `Local::now` and `DateTime::with_time`: the instant at
/// which the current day began in the local zone (the earliest when daylight
/// saving makes midnight ambiguous), or nothing when the local zone skips
/// midnight. The result depends on the wall clock and the machine's zone, so
/// nothing is promised of it.
#[verifier::external_body]
pub fn today_start_timestamp() -> (r: Option<i64>) {
    let midnight = match chrono::NaiveTime::from_hms_opt(0, 0, 0) {
        Some(t) => t,
        None => return None,
    };
    match chrono::Local::now().with_time(midnight) {
        chrono::LocalResult::Single(x) => Some(x.timestamp()),
        chrono::LocalResult::Ambiguous(x, _) => Some(x.timestamp()),
        chrono::LocalResult::None => None,
    }
}

} // verus!
