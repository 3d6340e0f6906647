//! The playback engine's timing: a loaded, time-ordered event log becomes
//! a schedule of waits and actions that reproduces the original relative
//! delays, after a fixed lead-in that lets the operator switch focus.

use vstd::prelude::*;
use crate::action::{Action, ActionAbs, EventRecord, EventRecordAbs};

verus! {

/// Milliseconds waited before the first replayed action.
pub const LEAD_IN_MS: u128 = 3000;

/// One step of a replay: wait this long, then synthesize this action.
#[derive(Debug)]
pub struct PlaybackStep {
    pub wait_ms: u128,
    pub action: Action,
}

/// The abstract value of a playback step.
pub struct PlaybackStepAbs {
    pub wait_ms: int,
    pub action: ActionAbs,
}

impl View for PlaybackStep {
    type V = PlaybackStepAbs;

    open spec fn view(&self) -> PlaybackStepAbs {
        PlaybackStepAbs { wait_ms: self.wait_ms as int, action: self.action@ }
    }
}

/// The wait before the i-th action: the lead-in for the first, then the
/// gap to the previous record's timestamp, clamped below at zero.
pub open spec fn spec_wait_ms(records: Seq<EventRecordAbs>, i: int) -> int {
    if i == 0 {
        LEAD_IN_MS as int
    } else if records[i].timestamp_ms >= records[i - 1].timestamp_ms {
        records[i].timestamp_ms - records[i - 1].timestamp_ms
    } else {
        0
    }
}

/// The sequential replay engine.
pub struct PlayerService;

impl PlayerService {
    /// Computes the timed schedule for a loaded log: one step per record
    /// in order, each action behind its wait. An empty log gives an empty
    /// schedule — zero work, reported as success by the caller.
    pub fn play_session(records: &Vec<EventRecord>) -> (r: Vec<PlaybackStep>)
        ensures
            r@.len() == records@.len(),
            forall|i: int|
                0 <= i < r@.len() ==> (#[trigger] r@[i])@.wait_ms == spec_wait_ms(
                    records@.map(|t: int, e: EventRecord| e@),
                    i,
                ) && r@[i]@.action == records@[i]@.action,
    {
        let ghost rabs = records@.map(|t: int, e: EventRecord| e@);
        let mut out: Vec<PlaybackStep> = Vec::new();
        let mut i: usize = 0;
        let mut prev_ts: u128 = 0;
        while i < records.len()
            invariant
                i <= records@.len(),
                rabs == records@.map(|t: int, e: EventRecord| e@),
                out@.len() == i,
                i > 0 ==> prev_ts == records@[i - 1].timestamp_ms,
                forall|j: int|
                    0 <= j < i ==> (#[trigger] out@[j])@.wait_ms == spec_wait_ms(rabs, j) && out@[
                        j
                    ]@.action == records@[j]@.action,
            decreases records@.len() - i,
        {
            let rec = &records[i];
            let wait: u128 = if i == 0 {
                LEAD_IN_MS
            } else if rec.timestamp_ms >= prev_ts {
                rec.timestamp_ms - prev_ts
            } else {
                0
            };
            let step = PlaybackStep { wait_ms: wait, action: rec.action.clone_action() };
            out.push(step);
            prev_ts = rec.timestamp_ms;
            i += 1;
        }
        out
    }
}

impl Action {
    /// A field-for-field copy.
    pub fn clone_action(&self) -> (r: Action)
        ensures
            r@ == self@,
    {
        match self {
            Action::MouseMove { x, y } => Action::MouseMove { x: *x, y: *y },
            Action::MouseDown { button, x, y } => Action::MouseDown {
                button: *button,
                x: *x,
                y: *y,
            },
            Action::MouseUp { button, x, y } => Action::MouseUp { button: *button, x: *x, y: *y },
            Action::Wheel { delta_x, delta_y, x, y } => Action::Wheel {
                delta_x: *delta_x,
                delta_y: *delta_y,
                x: *x,
                y: *y,
            },
            Action::KeyPress { key } => Action::KeyPress { key: key.clone() },
        }
    }
}

/// The single character a stored key label stands for, when it names a
/// letter or digit key: the letter lowercased, or the digit itself.
pub open spec fn spec_key_char(label: Seq<char>) -> Option<char> {
    if label.len() == 4 && label[0] == 'K' && label[1] == 'e' && label[2] == 'y' && 'A' <= label[3]
        && label[3] <= 'Z' {
        Some((((label[3] as u8) + 32) as char))
    } else if label.len() == 4 && label[0] == 'N' && label[1] == 'u' && label[2] == 'm' && '0'
        <= label[3] && label[3] <= '9' {
        Some(label[3])
    } else {
        None
    }
}

/// Extracts the single character a key label stands for, for the
/// synthesis of a key press during replay.
pub fn key_label_char(label: &str) -> (r: Option<char>)
    ensures
        r == spec_key_char(label@),
{
    let n = label.unicode_len();
    if n != 4 {
        return None;
    }
    let c0 = label.get_char(0);
    let c1 = label.get_char(1);
    let c2 = label.get_char(2);
    let c3 = label.get_char(3);
    if c0 == 'K' && c1 == 'e' && c2 == 'y' {
        let u = c3 as u32;
        if 65 <= u && u <= 90 {
            let lower = ((c3 as u8) + 32) as char;
            return Some(lower);
        }
        return None;
    }
    if c0 == 'N' && c1 == 'u' && c2 == 'm' {
        let u = c3 as u32;
        if 48 <= u && u <= 57 {
            return Some(c3);
        }
        return None;
    }
    None
}

} // verus!
