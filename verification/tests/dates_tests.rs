use wtt::dates::get_datetime_from_date_str;
use wtt::dates::parse_from_bound;
use wtt::dates::parse_to_bound;
use wtt::error::Error;
use wtt::ids::new_session_id;

#[test]
fn well_formed_date_parses() {
    let r = get_datetime_from_date_str("31.12.2021", 12, 0, 0);
    assert!(r.is_ok());
}

#[test]
fn malformed_date_is_a_validation_error() {
    let r = get_datetime_from_date_str("2021-12-31", 0, 0, 0);
    assert!(matches!(r, Err(Error::Validation { ref text }) if text == "2021-12-31"));
    let r = get_datetime_from_date_str("31.13.2021", 0, 0, 0);
    assert!(r.is_err());
    let r = get_datetime_from_date_str("", 0, 0, 0);
    assert!(r.is_err());
}

#[test]
fn out_of_range_time_is_rejected() {
    let r = get_datetime_from_date_str("15.01.2021", 25, 0, 0);
    assert!(matches!(r, Err(Error::Validation { .. })));
}

#[test]
fn bounds_of_one_day_span_the_day() {
    // Midnight to 23:59:59 of one mid-January day: no daylight-saving
    // transition falls there, so the distance is exactly a day less a second.
    let from = parse_from_bound("15.01.2021").unwrap();
    let to = parse_to_bound("15.01.2021").unwrap();
    assert_eq!(to - from, 86_399);
}

#[test]
fn from_bound_accepts_today_keyword() {
    let r = parse_from_bound("today");
    assert!(r.is_ok());
}

#[test]
fn from_bound_rejects_garbage() {
    let r = parse_from_bound("yesterday");
    assert!(matches!(r, Err(Error::Validation { ref text }) if text == "yesterday"));
}

#[test]
fn consecutive_days_are_a_day_apart() {
    let first = parse_from_bound("15.01.2021").unwrap();
    let second = parse_from_bound("16.01.2021").unwrap();
    assert_eq!(second - first, 86_400);
}

#[test]
fn fresh_identifiers_have_uuid_shape_and_differ() {
    let a = new_session_id();
    let b = new_session_id();
    assert_eq!(a.len(), 36);
    assert_eq!(b.len(), 36);
    assert_ne!(a, b);
    assert_eq!(a.matches('-').count(), 4);
}
