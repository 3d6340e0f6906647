use microplatter::action::{Action, EventRecord, MouseButton};
use microplatter::error::AppError;
use microplatter::store::MemoryStore;

fn record(ts: u128, action: Action) -> EventRecord {
    EventRecord::new(ts, action)
}

#[test]
fn save_then_load_returns_the_identical_sequence() {
    let mut store = MemoryStore::new();
    let sid = store
        .create_session("take one", Some("first run"), String::from("2024-01-01T00:00:00Z"))
        .unwrap();
    let batch = vec![
        record(0, Action::MouseMove { x: 1, y: 2 }),
        record(10, Action::MouseDown { button: MouseButton::Left, x: 1, y: 2 }),
        record(10, Action::MouseUp { button: MouseButton::Left, x: 1, y: 2 }),
        record(25, Action::Wheel { delta_x: 0, delta_y: -3, x: 1, y: 2 }),
        record(40, Action::KeyPress { key: String::from("KeyA") }),
    ];
    store.save_events(sid, &batch).unwrap();
    let loaded = store.load_events(sid).unwrap();
    assert_eq!(loaded.len(), batch.len());
    for (got, sent) in loaded.iter().zip(batch.iter()) {
        assert_eq!(got.timestamp_ms, sent.timestamp_ms);
        assert_eq!(got.session_id, Some(sid));
        assert!(got.id.is_some());
        assert_eq!(
            microplatter::codec::encode_action(&got.action),
            microplatter::codec::encode_action(&sent.action)
        );
    }
}

#[test]
fn event_count_rises_by_the_batch_length() {
    let mut store = MemoryStore::new();
    let sid = store
        .create_session("counting", None, String::from("2024-01-01T00:00:00Z"))
        .unwrap();
    let first = vec![record(5, Action::MouseMove { x: 0, y: 0 })];
    let second = vec![
        record(6, Action::MouseMove { x: 1, y: 1 }),
        record(7, Action::MouseMove { x: 2, y: 2 }),
    ];
    store.save_events(sid, &first).unwrap();
    assert_eq!(store.get_session(sid).unwrap().unwrap().event_count, 1);
    store.save_events(sid, &second).unwrap();
    assert_eq!(store.get_session(sid).unwrap().unwrap().event_count, 3);
}

#[test]
fn time_cost_is_a_high_water_mark() {
    let mut store = MemoryStore::new();
    let sid = store
        .create_session("timing", None, String::from("2024-01-01T00:00:00Z"))
        .unwrap();
    let early = vec![
        record(1000, Action::MouseMove { x: 0, y: 0 }),
        record(5000, Action::MouseMove { x: 1, y: 1 }),
    ];
    let late = vec![record(3000, Action::MouseMove { x: 2, y: 2 })];
    store.save_events(sid, &early).unwrap();
    assert_eq!(store.get_session(sid).unwrap().unwrap().time_cost_ms, 5000);
    store.save_events(sid, &late).unwrap();
    let row = store.get_session(sid).unwrap().unwrap();
    assert_eq!(row.time_cost_ms, 5000);
    assert_eq!(row.time_cost_ms as f64 / 1000.0, 5.0);
}

#[test]
fn saving_into_an_unknown_session_is_refused() {
    let mut store = MemoryStore::new();
    let batch = vec![record(0, Action::MouseMove { x: 0, y: 0 })];
    match store.save_events(42, &batch) {
        Err(AppError::SessionNotFound(id)) => assert_eq!(id, 42),
        other => panic!("expected SessionNotFound, got {:?}", other),
    }
}

#[test]
fn an_unstorable_key_label_is_a_serialization_error() {
    let mut store = MemoryStore::new();
    let sid = store
        .create_session("bad key", None, String::from("2024-01-01T00:00:00Z"))
        .unwrap();
    let batch = vec![record(0, Action::KeyPress { key: String::from("quo\"te") })];
    match store.save_events(sid, &batch) {
        Err(AppError::Serialization(_)) => {}
        other => panic!("expected Serialization, got {:?}", other),
    }
    assert_eq!(store.get_session(sid).unwrap().unwrap().event_count, 0);
    assert!(store.load_events(sid).unwrap().is_empty());
}

#[test]
fn load_orders_by_timestamp_across_batches() {
    let mut store = MemoryStore::new();
    let sid = store
        .create_session("interleaved", None, String::from("2024-01-01T00:00:00Z"))
        .unwrap();
    let early = vec![
        record(1000, Action::MouseMove { x: 1, y: 1 }),
        record(5000, Action::MouseMove { x: 2, y: 2 }),
    ];
    let late = vec![record(3000, Action::MouseMove { x: 3, y: 3 })];
    store.save_events(sid, &early).unwrap();
    store.save_events(sid, &late).unwrap();
    let loaded = store.load_events(sid).unwrap();
    let ts: Vec<u128> = loaded.iter().map(|e| e.timestamp_ms).collect();
    assert_eq!(ts, vec![1000, 3000, 5000]);
}

#[test]
fn load_keeps_commit_order_among_equal_timestamps() {
    let mut store = MemoryStore::new();
    let sid = store
        .create_session("ties", None, String::from("2024-01-01T00:00:00Z"))
        .unwrap();
    let batch = vec![
        record(10, Action::MouseDown { button: MouseButton::Left, x: 1, y: 1 }),
        record(10, Action::MouseUp { button: MouseButton::Left, x: 1, y: 1 }),
    ];
    store.save_events(sid, &batch).unwrap();
    let loaded = store.load_events(sid).unwrap();
    assert!(matches!(loaded[0].action, Action::MouseDown { .. }));
    assert!(matches!(loaded[1].action, Action::MouseUp { .. }));
}

#[test]
fn loading_an_unknown_session_gives_an_empty_log() {
    let store = MemoryStore::new();
    assert!(store.load_events(7).unwrap().is_empty());
}

#[test]
fn sessions_are_listed_newest_first() {
    let mut store = MemoryStore::new();
    let a = store
        .create_session("first", None, String::from("2024-01-01T00:00:00Z"))
        .unwrap();
    let b = store
        .create_session("second", None, String::from("2024-01-02T00:00:00Z"))
        .unwrap();
    let listed = store.list_sessions().unwrap();
    assert_eq!(listed.len(), 2);
    assert_eq!(listed[0].id, b);
    assert_eq!(listed[0].name, "second");
    assert_eq!(listed[1].id, a);
    assert_eq!(listed[1].name, "first");
}

#[test]
fn update_renames_and_redescribes() {
    let mut store = MemoryStore::new();
    let sid = store
        .create_session("draft", Some("rough"), String::from("2024-01-01T00:00:00Z"))
        .unwrap();
    store.update_session(sid, "final", Some("polished")).unwrap();
    let row = store.get_session(sid).unwrap().unwrap();
    assert_eq!(row.name, "final");
    assert_eq!(row.description.as_deref(), Some("polished"));
    store.update_session(999, "ghost", None).unwrap();
    assert_eq!(store.get_session(sid).unwrap().unwrap().name, "final");
}

#[test]
fn delete_cascades_to_the_events() {
    let mut store = MemoryStore::new();
    let keep = store
        .create_session("keep", None, String::from("2024-01-01T00:00:00Z"))
        .unwrap();
    let drop_ = store
        .create_session("drop", None, String::from("2024-01-02T00:00:00Z"))
        .unwrap();
    store
        .save_events(keep, &vec![record(1, Action::MouseMove { x: 1, y: 1 })])
        .unwrap();
    store
        .save_events(drop_, &vec![record(2, Action::MouseMove { x: 2, y: 2 })])
        .unwrap();
    store.delete_session(drop_).unwrap();
    assert!(store.get_session(drop_).unwrap().is_none());
    assert!(store.load_events(drop_).unwrap().is_empty());
    assert_eq!(store.load_events(keep).unwrap().len(), 1);
    assert_eq!(store.list_sessions().unwrap().len(), 1);
}

#[test]
fn session_ids_start_at_one_and_grow() {
    let mut store = MemoryStore::new();
    let a = store
        .create_session("a", None, String::from("2024-01-01T00:00:00Z"))
        .unwrap();
    let b = store
        .create_session("b", None, String::from("2024-01-01T00:00:01Z"))
        .unwrap();
    assert_eq!(a, 1);
    assert_eq!(b, 2);
}
