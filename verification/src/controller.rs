//! The recording controller: a two-state machine — idle or recording —
//! holding the active session id, and the command layer over it that
//! guards start, stop, playback and status against misuse.

use vstd::prelude::*;
use crate::action::EventRecord;
use crate::codec::{spec_encode, wf_action};
use crate::decimal::{append_decimal_i64, append_decimal_u128, spec_idec, spec_udec};
use crate::error::AppError;
use crate::player::{PlaybackStep, PlayerService, LEAD_IN_MS};
use crate::store::{rows_for, sort_rows, store_wf, MemoryStore};

verus! {

/// The process-wide recording state: whether a recording runs, and which
/// session owns it. Idle is `is_recording == false`; exactly one
/// recording may run at a time.
pub struct RecordingController {
    is_recording: bool,
    current_session_id: Option<i64>,
}

impl RecordingController {
    /// Whether a recording is running.
    pub closed spec fn spec_recording(&self) -> bool {
        self.is_recording
    }

    /// The session the running recording writes into.
    pub closed spec fn spec_session(&self) -> Option<int> {
        match self.current_session_id {
            Some(id) => Some(id as int),
            None => None,
        }
    }

    /// A fresh controller: idle, no active session.
    pub fn new() -> (r: RecordingController)
        ensures
            !r.spec_recording(),
            r.spec_session() is None,
    {
        RecordingController { is_recording: false, current_session_id: None }
    }

    /// Claims the controller for a new run: while one already runs it
    /// refuses with `AlreadyRecording` and changes nothing; otherwise it
    /// raises the recording flag. The session is attached once storage
    /// has created it, or the claim released again if creation fails.
    pub fn try_begin(&mut self) -> (r: Result<(), AppError>)
        ensures
            old(self).spec_recording() ==> (r matches Err(e) && e is AlreadyRecording
                && *final(self) == *old(self)),
            !old(self).spec_recording() ==> (r is Ok && final(self).spec_recording()
                && final(self).spec_session() == old(self).spec_session()),
    {
        if self.is_recording {
            return Err(AppError::AlreadyRecording);
        }
        self.is_recording = true;
        Ok(())
    }

    /// Releases a claim whose session could not be created.
    pub fn release(&mut self)
        ensures
            !final(self).spec_recording(),
            final(self).spec_session() == old(self).spec_session(),
    {
        self.is_recording = false;
    }

    /// Points the running recording at the session storage created for it.
    pub fn attach_session(&mut self, session_id: i64)
        ensures
            final(self).spec_recording() == old(self).spec_recording(),
            final(self).spec_session() == Some(session_id as int),
    {
        self.current_session_id = Some(session_id);
    }

    /// Ends the run, handing its session id back for the final count.
    /// Misuse changes nothing: while idle it refuses with `NotRecording`,
    /// and with no session attached — which the single-writer discipline
    /// rules out — with `NoActiveSession`.
    pub fn try_finish(&mut self) -> (r: Result<i64, AppError>)
        ensures
            !old(self).spec_recording() ==> (r matches Err(e) && e is NotRecording
                && *final(self) == *old(self)),
            old(self).spec_recording() && old(self).spec_session() is None ==> (r matches Err(e)
                && e is NoActiveSession && *final(self) == *old(self)),
            old(self).spec_recording() ==> (match old(self).spec_session() {
                Some(sid) => {
                    &&& r matches Ok(id) && id == sid
                    &&& !final(self).spec_recording()
                    &&& final(self).spec_session() is None
                },
                None => true,
            }),
    {
        if !self.is_recording {
            return Err(AppError::NotRecording);
        }
        let session_id = match self.current_session_id {
            Some(id) => id,
            None => {
                return Err(AppError::NoActiveSession);
            },
        };
        self.is_recording = false;
        self.current_session_id = None;
        Ok(session_id)
    }
}

/// Renders the message a finished recording reports.
pub fn saved_message(count: usize, session_id: i64) -> (r: String)
    ensures
        r@ == spec_saved_message(count as int, session_id as int),
{
    let mut msg = String::new();
    msg.append("Saved ");
    append_decimal_u128(&mut msg, count as u128);
    msg.append(" events to session ");
    append_decimal_i64(&mut msg, session_id);
    msg
}

/// Relies on chrono's `Utc::now` and `DateTime::to_rfc3339`: the moment
/// of the call rendered as RFC 3339 text. The result depends on the
/// clock, so nothing is promised of it.
#[verifier::external_body]
fn session_timestamp() -> String {
    chrono::Utc::now().to_rfc3339()
}

/// Starts a recording: in the idle state it creates a session, points the
/// controller at it, raises the recording flag and hands the fresh id
/// back; while one already runs it fails with `AlreadyRecording` and
/// changes nothing — no second session is created.
pub fn start_recording(
    ctrl: &mut RecordingController,
    store: &mut MemoryStore,
    session_name: &str,
    description: Option<&str>,
) -> (r: Result<i64, AppError>)
    requires
        store_wf(old(store)@),
    ensures
        store_wf(final(store)@),
        old(ctrl).spec_recording() ==> ({
            &&& r matches Err(e) && e is AlreadyRecording
            &&& *final(ctrl) == *old(ctrl)
            &&& final(store)@ == old(store)@
        }),
        !old(ctrl).spec_recording() && old(store)@.next_session_id < i64::MAX ==> ({
            &&& r matches Ok(id) && id == old(store)@.next_session_id
            &&& final(ctrl).spec_recording()
            &&& final(ctrl).spec_session() == Some(old(store)@.next_session_id)
            &&& final(store)@.sessions.len() == old(store)@.sessions.len() + 1
            &&& ({
                let row = final(store)@.sessions.last();
                &&& row.id == old(store)@.next_session_id
                &&& row.name == session_name@
                &&& row.description == match description {
                    Some(d) => Some(d@),
                    None => None::<Seq<char>>,
                }
                &&& row.event_count == 0
                &&& row.time_cost_ms == 0
            })
            &&& forall|i: int|
                0 <= i < old(store)@.sessions.len() ==> final(store)@.sessions[i] == old(
                    store,
                )@.sessions[i]
            &&& final(store)@.events == old(store)@.events
            &&& final(store)@.next_session_id == old(store)@.next_session_id + 1
            &&& final(store)@.next_event_id == old(store)@.next_event_id
        }),
        !old(ctrl).spec_recording() && old(store)@.next_session_id == i64::MAX ==> ({
            &&& r matches Err(e) && e is Database
            &&& *final(ctrl) == *old(ctrl)
            &&& final(store)@ == old(store)@
        }),
{
    if let Err(e) = ctrl.try_begin() {
        return Err(e);
    }
    let created_at = session_timestamp();
    match store.create_session(session_name, description, created_at) {
        Ok(session_id) => {
            ctrl.attach_session(session_id);
            Ok(session_id)
        },
        Err(e) => {
            ctrl.release();
            Err(e)
        },
    }
}

/// The message a finished recording reports: how many events were saved,
/// and into which session.
pub open spec fn spec_saved_message(count: int, session_id: int) -> Seq<char> {
    "Saved "@ + spec_udec(count as nat) + " events to session "@ + spec_idec(session_id)
}

/// Stops the running recording: lowers the flag, reads back how many
/// events stand persisted for the active session, clears the session
/// pointer and reports the count. Misuse changes nothing: stopping while
/// idle fails with `NotRecording`, and a running recording without a
/// session — which the single-writer discipline rules out — fails with
/// `NoActiveSession`, the controller left exactly as it was.
pub fn stop_recording(ctrl: &mut RecordingController, store: &MemoryStore) -> (r: Result<
    String,
    AppError,
>)
    requires
        store_wf(store@),
    ensures
        !old(ctrl).spec_recording() ==> ({
            &&& r matches Err(e) && e is NotRecording
            &&& *final(ctrl) == *old(ctrl)
        }),
        old(ctrl).spec_recording() && old(ctrl).spec_session() is None ==> ({
            &&& r matches Err(e) && e is NoActiveSession
            &&& *final(ctrl) == *old(ctrl)
        }),
        old(ctrl).spec_recording() ==> (match old(ctrl).spec_session() {
            Some(sid) => {
                &&& r matches Ok(msg) && msg@ == spec_saved_message(
                    rows_for(store@.events, sid).len() as int,
                    sid,
                )
                &&& !final(ctrl).spec_recording()
                &&& final(ctrl).spec_session() is None
            },
            None => true,
        }),
{
    let session_id = match ctrl.try_finish() {
        Ok(id) => id,
        Err(e) => {
            return Err(e);
        },
    };
    let count = match crate::recorder::RecorderService::save_recording(session_id, store) {
        Ok(n) => n,
        Err(e) => {
            return Err(e);
        },
    };
    Ok(saved_message(count, session_id))
}

/// Replays a session: loads its records — timestamp order — and computes
/// the timed schedule, handing it back beside the completion message; the
/// caller performs the waits and the synthesis. It succeeds also for a
/// session with zero events, where the schedule is empty and no action is
/// replayed.
pub fn play_recording(store: &MemoryStore, session_id: i64) -> (r: Result<
    (String, Vec<PlaybackStep>),
    AppError,
>)
    requires
        store_wf(store@),
    ensures
        r matches Ok(p) && p.0@ == "Playback completed"@ && ({
            let rows = sort_rows(rows_for(store@.events, session_id as int));
            &&& p.1@.len() == rows.len()
            &&& forall|i: int|
                0 <= i < p.1@.len() ==> {
                    let step = (#[trigger] p.1@[i])@;
                    &&& step.wait_ms == (if i == 0 {
                        LEAD_IN_MS as int
                    } else if rows[i].timestamp_ms >= rows[i - 1].timestamp_ms {
                        rows[i].timestamp_ms - rows[i - 1].timestamp_ms
                    } else {
                        0
                    })
                    &&& wf_action(step.action)
                    &&& spec_encode(step.action) == rows[i].action_data
                }
        }),
{
    let records = match store.load_events(session_id) {
        Ok(v) => v,
        Err(e) => {
            return Err(e);
        },
    };
    let schedule = PlayerService::play_session(&records);
    proof {
        let rows = sort_rows(rows_for(store@.events, session_id as int));
        let rabs = records@.map(|t: int, e: EventRecord| e@);
        assert(forall|i: int| 0 <= i < rabs.len() ==> #[trigger] rabs[i] == records@[i]@);
        assert(forall|i: int|
            0 <= i < rabs.len() ==> (#[trigger] rabs[i]).timestamp_ms == rows[i].timestamp_ms);
    }
    Ok((String::from_str("Playback completed"), schedule))
}

/// Whether a recording is running right now. Never fails, never changes
/// anything.
pub fn get_recording_status(ctrl: &RecordingController) -> (r: bool)
    ensures
        r == ctrl.spec_recording(),
{
    ctrl.is_recording
}

} // verus!
