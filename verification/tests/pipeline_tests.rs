use microplatter::action::{Action, MouseButton};
use microplatter::recorder::{RawInput, RecorderService};
use microplatter::store::MemoryStore;

fn fresh_session(store: &mut MemoryStore) -> i64 {
    store
        .create_session("capture run", None, String::from("2024-01-01T00:00:00Z"))
        .unwrap()
}

#[test]
fn one_flush_cycle_accounts_for_every_record() {
    let mut store = MemoryStore::new();
    let sid = fresh_session(&mut store);
    let mut rec = RecorderService::new();
    let n: u64 = 5;
    for i in 0..n {
        let accepted = rec.capture(
            true,
            (i * 10) as u128,
            RawInput::MouseMove { x: i as i32, y: i as i32 },
        );
        assert_eq!(accepted, Some(i + 1));
    }
    assert_eq!(rec.in_flight(), n);
    let flushed = rec.flush_once(&mut store, sid).unwrap();
    assert_eq!(flushed, n);
    assert_eq!(rec.in_flight(), 0);
    assert_eq!(store.get_session(sid).unwrap().unwrap().event_count, n);
}

#[test]
fn a_failed_commit_keeps_the_count_standing() {
    let mut store = MemoryStore::new();
    let mut rec = RecorderService::new();
    rec.capture(true, 0, RawInput::MouseMove { x: 1, y: 1 });
    rec.capture(true, 5, RawInput::MouseMove { x: 2, y: 2 });
    assert_eq!(rec.in_flight(), 2);
    // no such session: the batch is dropped and the counter stays
    assert!(rec.flush_once(&mut store, 99).is_err());
    assert_eq!(rec.in_flight(), 2);
    // the queue was drained, so the next cycle has nothing to commit
    assert_eq!(rec.flush_once(&mut store, 99).unwrap(), 0);
}

#[test]
fn an_empty_cycle_commits_nothing() {
    let mut store = MemoryStore::new();
    let sid = fresh_session(&mut store);
    let mut rec = RecorderService::new();
    assert_eq!(rec.flush_once(&mut store, sid).unwrap(), 0);
    assert_eq!(store.get_session(sid).unwrap().unwrap().event_count, 0);
}

#[test]
fn the_flag_gates_the_capture() {
    let mut rec = RecorderService::new();
    assert_eq!(rec.capture(false, 0, RawInput::MouseMove { x: 1, y: 1 }), None);
    assert_eq!(rec.in_flight(), 0);
    assert_eq!(rec.capture(true, 1, RawInput::MouseMove { x: 1, y: 1 }), Some(1));
    assert_eq!(rec.in_flight(), 1);
}

#[test]
fn button_events_borrow_the_last_cursor_position() {
    let mut store = MemoryStore::new();
    let sid = fresh_session(&mut store);
    let mut rec = RecorderService::new();
    rec.capture(true, 0, RawInput::MouseMove { x: 10, y: 10 });
    rec.capture(true, 50, RawInput::ButtonPress { button: MouseButton::Left });
    rec.capture(true, 120, RawInput::ButtonRelease { button: MouseButton::Left });
    rec.capture(true, 130, RawInput::Wheel { delta_x: 0, delta_y: 2 });
    rec.flush_once(&mut store, sid).unwrap();
    let loaded = store.load_events(sid).unwrap();
    assert_eq!(loaded.len(), 4);
    match &loaded[1].action {
        Action::MouseDown { button: MouseButton::Left, x, y } => {
            assert_eq!((*x, *y), (10, 10));
        }
        other => panic!("expected MouseDown at (10,10), got {:?}", other),
    }
    match &loaded[3].action {
        Action::Wheel { delta_x: 0, delta_y: 2, x, y } => {
            assert_eq!((*x, *y), (10, 10));
        }
        other => panic!("expected Wheel at (10,10), got {:?}", other),
    }
}

#[test]
fn the_queue_keeps_the_capture_order() {
    let mut store = MemoryStore::new();
    let sid = fresh_session(&mut store);
    let mut rec = RecorderService::new();
    for i in 0..4i32 {
        rec.capture(true, i as u128, RawInput::MouseMove { x: i, y: -i });
    }
    rec.flush_once(&mut store, sid).unwrap();
    let loaded = store.load_events(sid).unwrap();
    let xs: Vec<i32> = loaded
        .iter()
        .map(|e| match e.action {
            Action::MouseMove { x, .. } => x,
            _ => panic!("unexpected action"),
        })
        .collect();
    assert_eq!(xs, vec![0, 1, 2, 3]);
    assert_eq!(loaded[2].timestamp_ms, 2);
}

#[test]
fn key_presses_travel_whole() {
    let mut store = MemoryStore::new();
    let sid = fresh_session(&mut store);
    let mut rec = RecorderService::new();
    rec.capture(true, 7, RawInput::KeyPress { key: String::from("KeyQ") });
    rec.flush_once(&mut store, sid).unwrap();
    let loaded = store.load_events(sid).unwrap();
    match &loaded[0].action {
        Action::KeyPress { key } => assert_eq!(key, "KeyQ"),
        other => panic!("expected KeyPress, got {:?}", other),
    }
}
