//! The immutable value model of one captured input occurrence: `Action`
//! (move / click / wheel / key) and `EventRecord`, an `Action` tagged with
//! the milliseconds elapsed since its recording started.

use vstd::prelude::*;

verus! {

/// Which pointer button a click refers to.
#[derive(Clone, Copy, Debug, PartialEq, Eq, Structural)]
pub enum MouseButton {
    Left,
    Right,
    Middle,
}

/// One captured input occurrence. Pointer coordinates are screen positions;
/// a key press stores the textual label of the key.
#[derive(Clone, Debug)]
pub enum Action {
    MouseMove { x: i32, y: i32 },
    MouseDown { button: MouseButton, x: i32, y: i32 },
    MouseUp { button: MouseButton, x: i32, y: i32 },
    Wheel { delta_x: i32, delta_y: i32, x: i32, y: i32 },
    KeyPress { key: String },
}

/// The abstract value of an `Action`: the same shape over mathematical
/// integers, with the key label as a sequence of characters.
pub enum ActionAbs {
    MouseMove { x: int, y: int },
    MouseDown { button: MouseButton, x: int, y: int },
    MouseUp { button: MouseButton, x: int, y: int },
    Wheel { delta_x: int, delta_y: int, x: int, y: int },
    KeyPress { key: Seq<char> },
}

impl View for Action {
    type V = ActionAbs;

    open spec fn view(&self) -> ActionAbs {
        match self {
            Action::MouseMove { x, y } => ActionAbs::MouseMove { x: *x as int, y: *y as int },
            Action::MouseDown { button, x, y } => ActionAbs::MouseDown {
                button: *button,
                x: *x as int,
                y: *y as int,
            },
            Action::MouseUp { button, x, y } => ActionAbs::MouseUp {
                button: *button,
                x: *x as int,
                y: *y as int,
            },
            Action::Wheel { delta_x, delta_y, x, y } => ActionAbs::Wheel {
                delta_x: *delta_x as int,
                delta_y: *delta_y as int,
                x: *x as int,
                y: *y as int,
            },
            Action::KeyPress { key } => ActionAbs::KeyPress { key: key@ },
        }
    }
}

impl Action {
    /// The storage tag naming this action's variant.
    pub fn action_type(&self) -> (r: &'static str)
        ensures
            r@ == spec_action_type(self@),
    {
        match self {
            Action::MouseMove { .. } => "MouseMove",
            Action::MouseDown { .. } => "MouseDown",
            Action::MouseUp { .. } => "MouseUp",
            Action::Wheel { .. } => "Wheel",
            Action::KeyPress { .. } => "KeyPress",
        }
    }
}

/// The variant tag of an abstract action, as the characters of its name.
pub open spec fn spec_action_type(a: ActionAbs) -> Seq<char> {
    match a {
        ActionAbs::MouseMove { .. } => "MouseMove"@,
        ActionAbs::MouseDown { .. } => "MouseDown"@,
        ActionAbs::MouseUp { .. } => "MouseUp"@,
        ActionAbs::Wheel { .. } => "Wheel"@,
        ActionAbs::KeyPress { .. } => "KeyPress"@,
    }
}

/// One action bound to the moment it happened: milliseconds elapsed since
/// the recording started. `id` and `session_id` stay `None` until storage
/// assigns them.
#[derive(Clone, Debug)]
pub struct EventRecord {
    pub id: Option<i64>,
    pub session_id: Option<i64>,
    pub timestamp_ms: u128,
    pub action: Action,
}

/// The abstract value of an `EventRecord`.
pub struct EventRecordAbs {
    pub id: Option<int>,
    pub session_id: Option<int>,
    pub timestamp_ms: int,
    pub action: ActionAbs,
}

impl View for EventRecord {
    type V = EventRecordAbs;

    open spec fn view(&self) -> EventRecordAbs {
        EventRecordAbs {
            id: match self.id {
                Some(v) => Some(v as int),
                None => None,
            },
            session_id: match self.session_id {
                Some(v) => Some(v as int),
                None => None,
            },
            timestamp_ms: self.timestamp_ms as int,
            action: self.action@,
        }
    }
}

impl EventRecord {
    /// A fresh record for a just-captured action, not yet persisted.
    pub fn new(timestamp_ms: u128, action: Action) -> (r: EventRecord)
        ensures
            r.id is None,
            r.session_id is None,
            r.timestamp_ms == timestamp_ms,
            r.action@ == action@,
    {
        EventRecord { id: None, session_id: None, timestamp_ms, action }
    }
}

} // verus!
