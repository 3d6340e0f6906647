use microplatter::action::MouseButton;
use microplatter::controller::{
    get_recording_status, play_recording, saved_message, start_recording, stop_recording,
    RecordingController,
};
use microplatter::error::AppError;
use microplatter::player::PlayerService;
use microplatter::recorder::{RawInput, RecorderService};
use microplatter::store::MemoryStore;

#[test]
fn starting_twice_is_refused_and_creates_no_second_session() {
    let mut ctrl = RecordingController::new();
    let mut store = MemoryStore::new();
    let first = start_recording(&mut ctrl, &mut store, "one", None).unwrap();
    assert_eq!(first, 1);
    match start_recording(&mut ctrl, &mut store, "two", None) {
        Err(AppError::AlreadyRecording) => {}
        other => panic!("expected AlreadyRecording, got {:?}", other),
    }
    assert_eq!(store.list_sessions().unwrap().len(), 1);
}

#[test]
fn stopping_before_any_start_is_refused() {
    let mut ctrl = RecordingController::new();
    let store = MemoryStore::new();
    match stop_recording(&mut ctrl, &store) {
        Err(AppError::NotRecording) => {}
        other => panic!("expected NotRecording, got {:?}", other),
    }
    assert!(!get_recording_status(&ctrl));
}

#[test]
fn playing_an_empty_session_succeeds_with_zero_actions() {
    let mut store = MemoryStore::new();
    let sid = store
        .create_session("empty", None, String::from("2024-01-01T00:00:00Z"))
        .unwrap();
    let (msg, schedule) = play_recording(&store, sid).unwrap();
    assert_eq!(msg, "Playback completed");
    assert_eq!(schedule.len(), 0);
    let records = store.load_events(sid).unwrap();
    assert_eq!(PlayerService::play_session(&records).len(), 0);
}

#[test]
fn a_full_recording_cycle_end_to_end() {
    let mut ctrl = RecordingController::new();
    let mut store = MemoryStore::new();
    let mut rec = RecorderService::new();

    let sid = start_recording(&mut ctrl, &mut store, "demo", None).unwrap();
    assert_eq!(sid, 1);
    assert!(get_recording_status(&ctrl));

    rec.capture(true, 0, RawInput::MouseMove { x: 10, y: 10 });
    rec.capture(true, 50, RawInput::ButtonPress { button: MouseButton::Left });
    rec.capture(true, 120, RawInput::ButtonRelease { button: MouseButton::Left });
    assert_eq!(rec.flush_once(&mut store, sid).unwrap(), 3);

    let row = store.get_session(sid).unwrap().unwrap();
    assert_eq!(row.event_count, 3);
    assert_eq!(row.time_cost_ms, 120);
    assert!((row.time_cost_ms as f64 / 1000.0 - 0.12).abs() < 1e-9);

    let msg = stop_recording(&mut ctrl, &store).unwrap();
    assert_eq!(msg, "Saved 3 events to session 1");

    let (played, schedule) = play_recording(&store, sid).unwrap();
    assert_eq!(played, "Playback completed");
    let waits: Vec<u128> = schedule.iter().map(|s| s.wait_ms).collect();
    assert_eq!(waits, vec![3000, 50, 70]);
    assert!(!get_recording_status(&ctrl));
}

#[test]
fn the_controller_is_reusable_across_cycles() {
    let mut ctrl = RecordingController::new();
    let mut store = MemoryStore::new();
    let a = start_recording(&mut ctrl, &mut store, "first", None).unwrap();
    stop_recording(&mut ctrl, &store).unwrap();
    let b = start_recording(&mut ctrl, &mut store, "second", Some("again")).unwrap();
    stop_recording(&mut ctrl, &store).unwrap();
    assert_eq!(a, 1);
    assert_eq!(b, 2);
    assert!(!get_recording_status(&ctrl));
}

#[test]
fn stop_reports_the_persisted_count() {
    let mut ctrl = RecordingController::new();
    let mut store = MemoryStore::new();
    let mut rec = RecorderService::new();
    let sid = start_recording(&mut ctrl, &mut store, "tally", None).unwrap();
    for i in 0..7i32 {
        rec.capture(true, i as u128, RawInput::MouseMove { x: i, y: i });
    }
    rec.flush_once(&mut store, sid).unwrap();
    let msg = stop_recording(&mut ctrl, &store).unwrap();
    assert_eq!(msg, "Saved 7 events to session 1");
}

#[test]
fn error_messages_read_as_the_interface_shows_them() {
    assert_eq!(AppError::AlreadyRecording.message(), "Already recording");
    assert_eq!(AppError::NotRecording.message(), "Not recording");
    assert_eq!(AppError::NoActiveSession.message(), "No active session");
    assert_eq!(
        AppError::SessionNotFound(42).message(),
        "Session not found: 42"
    );
    assert_eq!(
        AppError::Database(String::from("disk full")).message(),
        "Database error: disk full"
    );
    assert_eq!(
        AppError::RecordingError(String::from("no hook")).message(),
        "Recording error: no hook"
    );
    assert_eq!(
        AppError::PlaybackError(String::from("no backend")).message(),
        "Playback error: no backend"
    );
    assert_eq!(
        AppError::Serialization(String::from("bad label")).message(),
        "Serialization error: bad label"
    );
}

#[test]
fn transitions_guard_their_claims() {
    let mut ctrl = RecordingController::new();
    assert!(ctrl.try_begin().is_ok());
    match ctrl.try_begin() {
        Err(AppError::AlreadyRecording) => {}
        other => panic!("expected AlreadyRecording, got {:?}", other),
    }
    ctrl.attach_session(9);
    assert!(get_recording_status(&ctrl));
    assert_eq!(ctrl.try_finish().unwrap(), 9);
    assert!(!get_recording_status(&ctrl));
    match ctrl.try_finish() {
        Err(AppError::NotRecording) => {}
        other => panic!("expected NotRecording, got {:?}", other),
    }
}

#[test]
fn a_released_claim_can_be_taken_again() {
    let mut ctrl = RecordingController::new();
    ctrl.try_begin().unwrap();
    ctrl.release();
    assert!(!get_recording_status(&ctrl));
    assert!(ctrl.try_begin().is_ok());
}

#[test]
fn the_saved_message_renders_count_and_session() {
    assert_eq!(saved_message(0, 1), "Saved 0 events to session 1");
    assert_eq!(saved_message(12, 345), "Saved 12 events to session 345");
}
