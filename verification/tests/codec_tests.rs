use microplatter::action::{Action, MouseButton};
use microplatter::codec::{action_is_wf, decode_action, encode_action};

fn assert_round_trip(a: &Action) {
    let text = encode_action(a);
    let back = decode_action(text.as_str()).expect("storage text should decode");
    let again = encode_action(&back);
    assert_eq!(text, again);
}

#[test]
fn encode_mouse_move_exact() {
    let a = Action::MouseMove { x: 10, y: 10 };
    assert_eq!(encode_action(&a), "{\"type\":\"mouse_move\",\"x\":10,\"y\":10}");
}

#[test]
fn encode_mouse_down_exact() {
    let a = Action::MouseDown { button: MouseButton::Left, x: 10, y: 10 };
    assert_eq!(
        encode_action(&a),
        "{\"type\":\"mouse_down\",\"button\":\"Left\",\"x\":10,\"y\":10}"
    );
}

#[test]
fn encode_mouse_up_exact() {
    let a = Action::MouseUp { button: MouseButton::Middle, x: -3, y: 7 };
    assert_eq!(
        encode_action(&a),
        "{\"type\":\"mouse_up\",\"button\":\"Middle\",\"x\":-3,\"y\":7}"
    );
}

#[test]
fn encode_wheel_exact() {
    let a = Action::Wheel { delta_x: 0, delta_y: -1, x: 640, y: 480 };
    assert_eq!(
        encode_action(&a),
        "{\"type\":\"wheel\",\"delta_x\":0,\"delta_y\":-1,\"x\":640,\"y\":480}"
    );
}

#[test]
fn encode_key_press_exact() {
    let a = Action::KeyPress { key: String::from("KeyA") };
    assert_eq!(encode_action(&a), "{\"type\":\"key_press\",\"key\":\"KeyA\"}");
}

#[test]
fn decode_returns_the_encoded_action() {
    let a = Action::MouseDown { button: MouseButton::Right, x: -2147483648, y: 2147483647 };
    let text = encode_action(&a);
    match decode_action(text.as_str()) {
        Some(Action::MouseDown { button: MouseButton::Right, x, y }) => {
            assert_eq!(x, -2147483648);
            assert_eq!(y, 2147483647);
        }
        other => panic!("decoded into the wrong shape: {:?}", other),
    }
}

#[test]
fn round_trips_for_every_variant() {
    assert_round_trip(&Action::MouseMove { x: 0, y: 0 });
    assert_round_trip(&Action::MouseMove { x: -1, y: 99999 });
    assert_round_trip(&Action::MouseDown { button: MouseButton::Left, x: 5, y: 6 });
    assert_round_trip(&Action::MouseUp { button: MouseButton::Right, x: -5, y: -6 });
    assert_round_trip(&Action::Wheel { delta_x: 1, delta_y: 2, x: 3, y: 4 });
    assert_round_trip(&Action::KeyPress { key: String::from("ShiftLeft") });
    assert_round_trip(&Action::KeyPress { key: String::new() });
}

#[test]
fn decode_rejects_malformed_text() {
    assert!(decode_action("").is_none());
    assert!(decode_action("{}").is_none());
    assert!(decode_action("{\"type\":\"mouse_move\",\"x\":10,\"y\":10").is_none());
    assert!(decode_action("{\"type\":\"mouse_move\",\"x\":010,\"y\":10}").is_none());
    assert!(decode_action("{\"type\":\"mouse_move\",\"x\":-0,\"y\":10}").is_none());
    assert!(decode_action("{\"type\":\"mouse_move\",\"x\":9999999999,\"y\":1}").is_none());
    assert!(decode_action("{\"type\":\"mouse_move\",\"x\":10,\"y\":10}trailing").is_none());
    assert!(decode_action("{\"type\":\"mouse_down\",\"button\":\"Side\",\"x\":1,\"y\":1}").is_none());
    assert!(decode_action("{\"type\":\"key_press\",\"key\":\"a\\\"b\"}").is_none());
}

#[test]
fn storage_text_is_plain_json() {
    let a = Action::Wheel { delta_x: -7, delta_y: 0, x: 11, y: 12 };
    let text = encode_action(&a);
    let v: serde_json::Value = serde_json::from_str(text.as_str()).expect("valid JSON");
    assert_eq!(v["type"], "wheel");
    assert_eq!(v["delta_x"].as_i64(), Some(-7));
    assert_eq!(v["delta_y"].as_i64(), Some(0));
    assert_eq!(v["x"].as_i64(), Some(11));
    assert_eq!(v["y"].as_i64(), Some(12));

    let k = Action::KeyPress { key: String::from("Num3") };
    let v: serde_json::Value = serde_json::from_str(encode_action(&k).as_str()).expect("valid JSON");
    assert_eq!(v["type"], "key_press");
    assert_eq!(v["key"], "Num3");
}

#[test]
fn well_formedness_follows_the_key_label() {
    assert!(action_is_wf(&Action::MouseMove { x: 1, y: 2 }));
    assert!(action_is_wf(&Action::KeyPress { key: String::from("KeyZ") }));
    assert!(!action_is_wf(&Action::KeyPress { key: String::from("a\"b") }));
    assert!(!action_is_wf(&Action::KeyPress { key: String::from("a\\b") }));
    assert!(!action_is_wf(&Action::KeyPress { key: String::from("tab\there") }));
}

#[test]
fn action_type_names_the_variant() {
    assert_eq!(Action::MouseMove { x: 0, y: 0 }.action_type(), "MouseMove");
    assert_eq!(
        Action::MouseDown { button: MouseButton::Left, x: 0, y: 0 }.action_type(),
        "MouseDown"
    );
    assert_eq!(
        Action::MouseUp { button: MouseButton::Left, x: 0, y: 0 }.action_type(),
        "MouseUp"
    );
    assert_eq!(
        Action::Wheel { delta_x: 0, delta_y: 0, x: 0, y: 0 }.action_type(),
        "Wheel"
    );
    assert_eq!(Action::KeyPress { key: String::from("KeyQ") }.action_type(), "KeyPress");
}
