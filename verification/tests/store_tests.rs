use wtt::error::Error;
use wtt::session::Session;
use wtt::store::Store;

fn strings(items: &[&str]) -> Vec<String> {
    items.iter().map(|s| s.to_string()).collect()
}

fn session(id: &str, start_at: i64, end_at: Option<i64>, labels: &[&str]) -> Session {
    Session {
        id: id.to_string(),
        start_at,
        end_at,
        note: None,
        labels: strings(labels),
    }
}

#[test]
fn start_session_ids_are_distinct() {
    let mut store = Store::new();
    let a = store.start_session(vec![]).unwrap();
    let b = store.start_session(vec![]).unwrap();
    let c = store.start_session(vec![]).unwrap();
    assert_ne!(a.id, b.id);
    assert_ne!(a.id, c.id);
    assert_ne!(b.id, c.id);
    assert_eq!(store.sessions.len(), 3);
}

#[test]
fn start_session_records_labels_and_fresh_state() {
    let mut store = Store::new();
    let s = store.start_session(strings(&["work", "deep"])).unwrap();
    assert_eq!(s.id.len(), 36);
    assert_eq!(s.end_at, None);
    assert_eq!(s.note, None);
    assert_eq!(s.labels, strings(&["work", "deep"]));
    assert_eq!(store.sessions[0].id, s.id);
}

#[test]
fn start_session_at_duplicate_id_conflicts() {
    let mut store = Store::new();
    store
        .start_session_at("fixed".to_string(), 100, vec![])
        .unwrap();
    let r = store.start_session_at("fixed".to_string(), 200, vec![]);
    assert!(matches!(r, Err(Error::Conflict { ref id }) if id == "fixed"));
    assert_eq!(store.sessions.len(), 1);
    assert_eq!(store.sessions[0].start_at, 100);
}

#[test]
fn get_session_by_id_finds_first_match() {
    let mut store = Store::new();
    store.start_session_at("a".to_string(), 10, vec![]).unwrap();
    store.start_session_at("b".to_string(), 20, vec![]).unwrap();
    assert_eq!(store.get_session_by_id("b").unwrap(), 1);
    assert_eq!(store.get_session_by_id("a").unwrap(), 0);
    let r = store.get_session_by_id("missing");
    assert!(matches!(r, Err(Error::NotFound { ref id }) if id == "missing"));
}

#[test]
fn end_session_twice_fails_with_conflict_and_changes_nothing() {
    let mut store = Store::new();
    store.start_session_at("s1".to_string(), 100, vec![]).unwrap();
    let first = store
        .end_session_at(Some("s1"), 500, Some("done".to_string()))
        .unwrap();
    assert_eq!(first.end_at, Some(500));
    assert_eq!(first.note, Some("done".to_string()));

    let second = store.end_session_at(Some("s1"), 900, Some("again".to_string()));
    assert!(matches!(second, Err(Error::Conflict { ref id }) if id == "s1"));
    assert_eq!(store.sessions[0].end_at, Some(500));
    assert_eq!(store.sessions[0].note, Some("done".to_string()));
}

#[test]
fn end_session_unknown_id_is_not_found() {
    let mut store = Store::new();
    store.start_session_at("s1".to_string(), 100, vec![]).unwrap();
    let r = store.end_session_at(Some("nope"), 200, None);
    assert!(matches!(r, Err(Error::NotFound { ref id }) if id == "nope"));
    assert_eq!(store.sessions[0].end_at, None);
}

#[test]
fn end_session_default_picks_latest_running_start() {
    let mut store = Store::new();
    store.start_session_at("early".to_string(), 100, vec![]).unwrap();
    store.start_session_at("late".to_string(), 300, vec![]).unwrap();
    let ended = store.end_session_at(None, 400, None).unwrap();
    assert_eq!(ended.id, "late");
    assert_eq!(store.sessions[1].end_at, Some(400));
    assert_eq!(store.sessions[0].end_at, None);
}

#[test]
fn end_session_default_with_nothing_running_fails() {
    let mut store = Store::new();
    store.start_session_at("s1".to_string(), 100, vec![]).unwrap();
    store.end_session_at(None, 200, None).unwrap();
    let r = store.end_session_at(None, 300, None);
    assert!(matches!(r, Err(Error::NoRunningSession)));
}

#[test]
fn end_session_overwrites_note_with_absent_note() {
    let mut store = Store::new();
    store.start_session_at("s1".to_string(), 100, vec![]).unwrap();
    store.update_note("s1", "keep me".to_string()).unwrap();
    let ended = store.end_session_at(Some("s1"), 200, None).unwrap();
    assert_eq!(ended.note, None);
    assert_eq!(store.sessions[0].note, None);
}

#[test]
fn get_newest_running_session_prefers_latest_start() {
    let mut store = Store::new();
    store.start_session_at("a".to_string(), 50, vec![]).unwrap();
    store.start_session_at("b".to_string(), 300, vec![]).unwrap();
    store.start_session_at("c".to_string(), 200, vec![]).unwrap();
    assert_eq!(store.get_newest_running_session().unwrap(), 1);
    store.end_session_at(Some("b"), 400, None).unwrap();
    assert_eq!(store.get_newest_running_session().unwrap(), 2);
}

#[test]
fn update_note_replaces_note_at_any_state() {
    let mut store = Store::new();
    store.start_session_at("s1".to_string(), 100, vec![]).unwrap();
    store.update_note("s1", "first".to_string()).unwrap();
    assert_eq!(store.sessions[0].note, Some("first".to_string()));
    store.end_session_at(Some("s1"), 200, None).unwrap();
    store.update_note("s1", "second".to_string()).unwrap();
    assert_eq!(store.sessions[0].note, Some("second".to_string()));
    let r = store.update_note("ghostly", "x".to_string());
    assert!(matches!(r, Err(Error::NotFound { ref id }) if id == "ghostly"));
}

#[test]
fn get_all_sessions_filters_and_sorts() {
    let sessions = vec![
        session("a", 300, Some(350), &["work"]),
        session("b", 100, None, &["play"]),
        session("c", 200, Some(900), &["work", "play"]),
        session("d", 50, Some(60), &[]),
    ];
    let store = Store::from_sessions(sessions);

    // No filters: everything, ascending by start.
    let all = store.get_all_sessions(None, None, &[]);
    let ids: Vec<&str> = all.iter().map(|s| s.id.as_str()).collect();
    assert_eq!(ids, vec!["d", "b", "c", "a"]);

    // Lower bound is inclusive on start_at.
    let from = store.get_all_sessions(Some(200), None, &[]);
    let ids: Vec<&str> = from.iter().map(|s| s.id.as_str()).collect();
    assert_eq!(ids, vec!["c", "a"]);

    // Upper bound checks end_at only; running sessions always pass it.
    let to = store.get_all_sessions(None, Some(400), &[]);
    let ids: Vec<&str> = to.iter().map(|s| s.id.as_str()).collect();
    assert_eq!(ids, vec!["d", "b", "a"]);

    // Label filter is an intersection test (an OR over requested labels).
    let labelled = store.get_all_sessions(None, None, &strings(&["play", "other"]));
    let ids: Vec<&str> = labelled.iter().map(|s| s.id.as_str()).collect();
    assert_eq!(ids, vec!["b", "c"]);

    // All three axes must pass.
    let combined = store.get_all_sessions(Some(150), Some(400), &strings(&["work"]));
    let ids: Vec<&str> = combined.iter().map(|s| s.id.as_str()).collect();
    assert_eq!(ids, vec!["a"]);
}

#[test]
fn get_all_sessions_empty_store_is_empty() {
    let store = Store::new();
    assert!(store.get_all_sessions(None, None, &[]).is_empty());
}

#[test]
fn get_all_labels_collapses_duplicates() {
    let sessions = vec![
        session("a", 1, None, &["work", "deep"]),
        session("b", 2, None, &["deep", "play"]),
        session("c", 3, None, &[]),
    ];
    let store = Store::from_sessions(sessions);
    let labels = store.get_all_labels();
    assert_eq!(labels.len(), 3);
    assert!(labels.contains(&"work".to_string()));
    assert!(labels.contains(&"deep".to_string()));
    assert!(labels.contains(&"play".to_string()));
}

#[test]
fn remove_label_cascades_and_counts() {
    let sessions = vec![
        session("a", 1, None, &["work", "deep"]),
        session("b", 2, Some(3), &["deep"]),
        session("c", 3, None, &["play"]),
        session("d", 4, None, &["deep", "deep"]),
    ];
    let mut store = Store::from_sessions(sessions);
    let modified = store.remove_label("deep").unwrap();
    // Three sessions carried the label (one of them twice); one did not.
    assert_eq!(modified, 3);
    assert_eq!(store.sessions[0].labels, strings(&["work"]));
    assert_eq!(store.sessions[1].labels, Vec::<String>::new());
    assert_eq!(store.sessions[2].labels, strings(&["play"]));
    assert_eq!(store.sessions[3].labels, Vec::<String>::new());
    // Untouched fields stay as they were.
    assert_eq!(store.sessions[1].end_at, Some(3));
    assert_eq!(store.sessions.len(), 4);
}

#[test]
fn remove_label_absent_everywhere_counts_zero() {
    let sessions = vec![session("a", 1, None, &["work"])];
    let mut store = Store::from_sessions(sessions);
    let modified = store.remove_label("nowhere").unwrap();
    assert_eq!(modified, 0);
    assert_eq!(store.sessions[0].labels, strings(&["work"]));
}
