use showtime::markers::{Marker, MarkerManager, MarkerType};
use showtime::timecode::Timecode;

fn ns(sec: f64) -> i64 {
    (sec * 1e9).round() as i64
}

fn t(sec: f64) -> Timecode {
    // Approximate timecode (the manager tests do no arithmetic on it).
    let f = (sec * 30.0).round() as u32;
    Timecode {
        hours: f / 3600 / 30,
        minutes: (f / 30 / 60) % 60,
        seconds: (f / 30) % 60,
        frames: f % 30,
    }
}

#[test]
fn add_assigns_ids_and_sorts() {
    let mut mgr = MarkerManager::new();
    let id1 = mgr.add("B", ns(5.0), t(5.0), 1, 1, MarkerType::Go);
    let id2 = mgr.add("A", ns(1.0), t(1.0), 2, 1, MarkerType::Pause);
    assert_ne!(id1, id2);
    let markers = mgr.markers();
    assert_eq!(markers.len(), 2);
    assert_eq!(markers[0].name, "A");
    assert_eq!(markers[1].name, "B");
}

#[test]
fn update_and_remove() {
    let mut mgr = MarkerManager::new();
    let id = mgr.add("X", ns(1.0), t(1.0), 1, 1, MarkerType::Go);
    assert!(mgr.update(id, |mut m| {
        m.name = "Y".into();
        m
    }));
    assert_eq!(mgr.get(id).unwrap().name, "Y");
    assert!(mgr.remove(id));
    assert!(mgr.get(id).is_none());
    assert!(!mgr.remove(id));
}

#[test]
fn with_markers_continues_ids() {
    let markers = vec![Marker::new(3, "A", ns(1.0), Timecode::zero(), 1, 1, MarkerType::Go)];
    let mgr = MarkerManager::with_markers(markers);
    assert_eq!(mgr.peek_next_id(), 4);
}

// ---------------------------------------------------------------- own tests

#[test]
fn ids_start_at_zero_and_increase() {
    let mut mgr = MarkerManager::new();
    assert_eq!(mgr.peek_next_id(), 0);
    assert_eq!(mgr.add("a", 0, Timecode::zero(), 1, 1, MarkerType::Go), 0);
    assert_eq!(mgr.add("b", 0, Timecode::zero(), 1, 1, MarkerType::Go), 1);
    assert_eq!(mgr.peek_next_id(), 2);
}

#[test]
fn with_no_markers_starts_at_one() {
    let mgr = MarkerManager::with_markers(Vec::new());
    assert_eq!(mgr.peek_next_id(), 1);
    assert!(mgr.markers().is_empty());
}

#[test]
fn sort_is_stable_for_equal_times() {
    let mut mgr = MarkerManager::new();
    mgr.add("first", ns(2.0), t(2.0), 1, 1, MarkerType::Go);
    mgr.add("second", ns(2.0), t(2.0), 2, 1, MarkerType::Go);
    mgr.add("early", ns(1.0), t(1.0), 3, 1, MarkerType::Go);
    let names: Vec<&str> = mgr.markers().iter().map(|m| m.name.as_str()).collect();
    assert_eq!(names, vec!["early", "first", "second"]);
}

#[test]
fn update_moves_marker_in_time_order() {
    let mut mgr = MarkerManager::new();
    let a = mgr.add("a", ns(1.0), t(1.0), 1, 1, MarkerType::Go);
    mgr.add("b", ns(2.0), t(2.0), 2, 1, MarkerType::Go);
    assert!(mgr.update(a, |mut m| {
        m.time_ns = ns(3.0);
        m
    }));
    assert_eq!(mgr.markers()[0].name, "b");
    assert_eq!(mgr.markers()[1].name, "a");
    assert!(!mgr.update(99, |m| m));
}

#[test]
fn remove_deletes_every_copy_of_an_id() {
    let markers = vec![
        Marker::new(7, "A", 0, Timecode::zero(), 1, 1, MarkerType::Go),
        Marker::new(7, "B", 0, Timecode::zero(), 1, 1, MarkerType::Go),
        Marker::new(8, "C", 0, Timecode::zero(), 1, 1, MarkerType::Go),
    ];
    let mut mgr = MarkerManager::with_markers(markers);
    assert_eq!(mgr.get(7).unwrap().name, "A");
    assert!(mgr.remove(7));
    assert_eq!(mgr.markers().len(), 1);
    assert_eq!(mgr.markers()[0].name, "C");
}

#[test]
fn marker_type_names_are_stable() {
    let names: Vec<&str> = MarkerType::all().iter().map(|t| t.as_str()).collect();
    assert_eq!(names, vec!["go", "pause", "toggle", "goto", "load"]);
}

#[test]
fn new_marker_has_no_color_or_comment() {
    let m = Marker::new(1, "Intro", 5, Timecode::zero(), 2, 3, MarkerType::Load);
    assert_eq!(m.id, 1);
    assert_eq!(m.time_ns, 5);
    assert_eq!(m.cue_number, 2);
    assert_eq!(m.executor, 3);
    assert_eq!(m.marker_type, MarkerType::Load);
    assert!(m.color.is_none());
    assert!(m.comment.is_none());
}

#[test]
fn with_markers_sorts_by_time() {
    let markers = vec![
        Marker::new(1, "late", ns(5.0), Timecode::zero(), 1, 1, MarkerType::Go),
        Marker::new(2, "early", ns(1.0), Timecode::zero(), 2, 1, MarkerType::Go),
        Marker::new(3, "late too", ns(5.0), Timecode::zero(), 3, 1, MarkerType::Go),
    ];
    let mgr = MarkerManager::with_markers(markers);
    let names: Vec<&str> = mgr.markers().iter().map(|m| m.name.as_str()).collect();
    assert_eq!(names, vec!["early", "late", "late too"]);
    assert_eq!(mgr.peek_next_id(), 4);
}

#[test]
fn default_manager_is_empty() {
    let mgr = MarkerManager::default();
    assert!(mgr.markers().is_empty());
    assert_eq!(mgr.peek_next_id(), 0);
}

#[test]
fn ids_stay_distinct_through_edits() {
    let loaded = vec![
        Marker::new(4, "D", ns(4.0), t(4.0), 1, 1, MarkerType::Go),
        Marker::new(2, "B", ns(2.0), t(2.0), 1, 1, MarkerType::Go),
    ];
    let mut mgr = MarkerManager::with_markers(loaded);
    let a = mgr.add("A", ns(1.0), t(1.0), 1, 1, MarkerType::Go);
    let c = mgr.add("C", ns(3.0), t(3.0), 1, 1, MarkerType::Go);
    assert_eq!((a, c), (5, 6));
    assert!(mgr.update(2, |mut m| {
        m.time_ns = ns(9.0);
        m
    }));
    assert!(mgr.remove(4));
    let ids: Vec<u32> = mgr.markers().iter().map(|m| m.id).collect();
    assert_eq!(ids, vec![5, 6, 2]);
    for i in 0..ids.len() {
        for j in (i + 1)..ids.len() {
            assert_ne!(ids[i], ids[j]);
        }
    }
}
