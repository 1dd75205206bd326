use wtt::format::duration_minutes;
use wtt::format::format_duration;
use wtt::format::session_duration_minutes;
use wtt::format::total_duration_minutes;
use wtt::format::u32_to_string;
use wtt::session::Session;

fn session(start_at: i64, end_at: Option<i64>) -> Session {
    Session {
        id: "x".to_string(),
        start_at,
        end_at,
        note: None,
        labels: vec![],
    }
}

#[test]
fn u32_to_string_renders_decimals() {
    assert_eq!(u32_to_string(0), "0");
    assert_eq!(u32_to_string(7), "7");
    assert_eq!(u32_to_string(60), "60");
    assert_eq!(u32_to_string(1234567), "1234567");
    assert_eq!(u32_to_string(u32::MAX), "4294967295");
}

#[test]
fn format_duration_with_hours_and_minutes() {
    assert_eq!(format_duration(125, false, " "), "2 hours 5 minutes");
}

#[test]
fn interval_of_125_minutes_formats_as_hours_and_minutes() {
    let t: i64 = 1_600_000_000;
    let minutes = duration_minutes(t, t + 125 * 60);
    assert_eq!(format_duration(minutes, false, " "), "2 hours 5 minutes");
    let minutes = duration_minutes(t, t + 45 * 60);
    assert_eq!(format_duration(minutes, false, " "), "45 minutes");
}

#[test]
fn format_duration_under_an_hour_omits_hours() {
    assert_eq!(format_duration(45, false, " "), "45 minutes");
}

#[test]
fn format_duration_marks_running_sessions() {
    assert_eq!(format_duration(45, true, " "), "for now 45 minutes");
    assert_eq!(format_duration(125, true, "\n"), "for now\n2 hours\n5 minutes");
}

#[test]
fn format_duration_zero_minutes() {
    assert_eq!(format_duration(0, false, " "), "0 minutes");
}

#[test]
fn session_duration_truncates_to_whole_minutes() {
    // 125 minutes later, plus 59 seconds that are truncated away.
    let s = session(1000, Some(1000 + 125 * 60 + 59));
    assert_eq!(session_duration_minutes(&s, 0), Some(125));
}

#[test]
fn session_duration_of_running_session_uses_now() {
    let s = session(1000, None);
    assert_eq!(session_duration_minutes(&s, 1000 + 45 * 60), Some(45));
}

#[test]
fn session_duration_backwards_interval_is_rejected() {
    let s = session(1000, Some(500));
    assert_eq!(session_duration_minutes(&s, 0), None);
}

#[test]
fn total_duration_sums_all_sessions() {
    let sessions = vec![
        session(0, Some(45 * 60)),
        session(100_000, Some(100_000 + 125 * 60)),
        session(200_000, None),
    ];
    // The running session counts up to `now`: ten minutes.
    let now = 200_000 + 10 * 60;
    assert_eq!(total_duration_minutes(&sessions, now), Some(45 + 125 + 10));
}

#[test]
fn total_duration_rejects_backwards_intervals() {
    let sessions = vec![session(0, Some(60)), session(1000, Some(0))];
    assert_eq!(total_duration_minutes(&sessions, 0), None);
}
