use microplatter::action::{Action, EventRecord};
use microplatter::config::{resolve_db_path, AppConfig, DatabaseConfig};
use microplatter::player::{key_label_char, PlayerService};
use microplatter::session::{CreateSessionRequest, UpdateSessionRequest};

fn move_at(ts: u128) -> EventRecord {
    EventRecord::new(ts, Action::MouseMove { x: 0, y: 0 })
}

#[test]
fn replay_waits_reconstruct_the_original_gaps() {
    let records = vec![move_at(0), move_at(100), move_at(250)];
    let schedule = PlayerService::play_session(&records);
    let waits: Vec<u128> = schedule.iter().map(|s| s.wait_ms).collect();
    assert_eq!(waits, vec![3000, 100, 150]);
}

#[test]
fn an_out_of_order_timestamp_waits_zero() {
    let records = vec![move_at(500), move_at(200)];
    let schedule = PlayerService::play_session(&records);
    assert_eq!(schedule[0].wait_ms, 3000);
    assert_eq!(schedule[1].wait_ms, 0);
}

#[test]
fn the_schedule_carries_the_actions_in_order() {
    let records = vec![
        EventRecord::new(0, Action::MouseMove { x: 3, y: 4 }),
        EventRecord::new(10, Action::KeyPress { key: String::from("KeyB") }),
    ];
    let schedule = PlayerService::play_session(&records);
    assert_eq!(schedule.len(), 2);
    match &schedule[0].action {
        Action::MouseMove { x: 3, y: 4 } => {}
        other => panic!("expected the move, got {:?}", other),
    }
    match &schedule[1].action {
        Action::KeyPress { key } => assert_eq!(key, "KeyB"),
        other => panic!("expected the key press, got {:?}", other),
    }
}

#[test]
fn key_labels_give_single_characters() {
    assert_eq!(key_label_char("KeyA"), Some('a'));
    assert_eq!(key_label_char("KeyZ"), Some('z'));
    assert_eq!(key_label_char("Num0"), Some('0'));
    assert_eq!(key_label_char("Num9"), Some('9'));
    assert_eq!(key_label_char("ShiftLeft"), None);
    assert_eq!(key_label_char("Keya"), None);
    assert_eq!(key_label_char(""), None);
}

#[test]
fn the_db_path_follows_the_environment() {
    assert_eq!(
        resolve_db_path(Some("/tmp/override.db"), Some("/data"), Some("/home/u"), "/cwd"),
        "/tmp/override.db"
    );
    assert_eq!(
        resolve_db_path(None, Some("/data"), Some("/home/u"), "/cwd"),
        "/data/microplatter/recordings.db"
    );
    assert_eq!(
        resolve_db_path(None, None, Some("/home/u"), "/cwd"),
        "/home/u/.local/share/microplatter/recordings.db"
    );
    assert_eq!(resolve_db_path(None, None, None, "/cwd"), "/cwd/recordings.db");
}

#[test]
fn configuration_and_requests_carry_their_fields() {
    let cfg = AppConfig::sqlite(String::from("/tmp/r.db"));
    match cfg.database {
        DatabaseConfig::SQLite { path } => assert_eq!(path, "/tmp/r.db"),
    }
    let c = CreateSessionRequest::new(String::from("demo"), Some(String::from("d")));
    assert_eq!(c.name, "demo");
    assert_eq!(c.description.as_deref(), Some("d"));
    let u = UpdateSessionRequest::new(String::from("renamed"), None);
    assert_eq!(u.name, "renamed");
    assert!(u.description.is_none());
}
