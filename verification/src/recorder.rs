//! The capture → buffer → batched-persistence pipeline: raw input
//! notifications become timestamped records, pass through an unbounded
//! transfer queue, and are drained in batches into the store, with an
//! in-flight count of records accepted but not yet committed.

use vstd::prelude::*;
use crate::action::{Action, ActionAbs, EventRecord, EventRecordAbs, MouseButton};
use crate::error::AppError;
use crate::store::{
    batch_abs, batch_max_ts, batch_rows, store_wf, MemoryStore, SessionRowAbs, session_index,
};

verus! {

#[verifier::external_type_specification]
#[verifier::external_body]
#[verifier::reject_recursive_types(T)]
pub struct ExSender<T>(crossbeam_channel::Sender<T>);

#[verifier::external_type_specification]
#[verifier::external_body]
#[verifier::reject_recursive_types(T)]
pub struct ExReceiver<T>(crossbeam_channel::Receiver<T>);

/// The transfer queue between the capture side and the flusher: an
/// unbounded channel whose two endpoints are held together, so what goes
/// in single-file comes out single-file.
pub struct TransferQueue {
    tx: crossbeam_channel::Sender<EventRecord>,
    rx: crossbeam_channel::Receiver<EventRecord>,
}

/// What the queue holds, oldest first.
pub uninterp spec fn queue_rep(q: TransferQueue) -> Seq<EventRecord>;

impl TransferQueue {
    /// Relies on crossbeam_channel::unbounded: a fresh channel holds
    /// nothing.
    #[verifier::external_body]
    pub fn new() -> (r: TransferQueue)
        ensures
            queue_rep(r) == Seq::<EventRecord>::empty(),
    {
        let (tx, rx) = crossbeam_channel::unbounded();
        TransferQueue { tx, rx }
    }

    /// Relies on crossbeam_channel::Sender::send: an unbounded channel
    /// accepts every message while its receiver lives — this queue owns
    /// its receiver — and keeps messages in sending order.
    #[verifier::external_body]
    pub fn push(&mut self, ev: EventRecord)
        ensures
            queue_rep(*final(self)) == queue_rep(*old(self)).push(ev),
    {
        let _ = self.tx.send(ev);
    }

    /// Relies on crossbeam_channel::Receiver::try_recv: it hands out the
    /// oldest message, or reports the channel empty without blocking.
    #[verifier::external_body]
    pub fn try_pop(&mut self) -> (r: Option<EventRecord>)
        ensures
            match r {
                Some(ev) => queue_rep(*old(self)).len() > 0 && ev == queue_rep(*old(self))[0]
                    && queue_rep(*final(self)) == queue_rep(*old(self)).drop_first(),
                None => queue_rep(*old(self)).len() == 0 && queue_rep(*final(self)) == queue_rep(
                    *old(self),
                ),
            },
    {
        match self.rx.try_recv() {
            Ok(ev) => Some(ev),
            Err(_) => None,
        }
    }
}

/// One raw notification from the platform input hook, already reduced to
/// plain values at the boundary.
pub enum RawInput {
    MouseMove { x: i32, y: i32 },
    ButtonPress { button: MouseButton },
    ButtonRelease { button: MouseButton },
    Wheel { delta_x: i32, delta_y: i32 },
    KeyPress { key: String },
}

/// The abstract value of a raw notification.
pub enum RawInputAbs {
    MouseMove { x: int, y: int },
    ButtonPress { button: MouseButton },
    ButtonRelease { button: MouseButton },
    Wheel { delta_x: int, delta_y: int },
    KeyPress { key: Seq<char> },
}

impl View for RawInput {
    type V = RawInputAbs;

    open spec fn view(&self) -> RawInputAbs {
        match self {
            RawInput::MouseMove { x, y } => RawInputAbs::MouseMove { x: *x as int, y: *y as int },
            RawInput::ButtonPress { button } => RawInputAbs::ButtonPress { button: *button },
            RawInput::ButtonRelease { button } => RawInputAbs::ButtonRelease { button: *button },
            RawInput::Wheel { delta_x, delta_y } => RawInputAbs::Wheel {
                delta_x: *delta_x as int,
                delta_y: *delta_y as int,
            },
            RawInput::KeyPress { key } => RawInputAbs::KeyPress { key: key@ },
        }
    }
}

/// The action a raw notification turns into: pointer button and wheel
/// events borrow the last known cursor position, since the platform
/// reports them without coordinates.
pub open spec fn spec_capture_action(raw: RawInputAbs, pos: (int, int)) -> ActionAbs {
    match raw {
        RawInputAbs::MouseMove { x, y } => ActionAbs::MouseMove { x, y },
        RawInputAbs::ButtonPress { button } => ActionAbs::MouseDown {
            button,
            x: pos.0,
            y: pos.1,
        },
        RawInputAbs::ButtonRelease { button } => ActionAbs::MouseUp { button, x: pos.0, y: pos.1 },
        RawInputAbs::Wheel { delta_x, delta_y } => ActionAbs::Wheel {
            delta_x,
            delta_y,
            x: pos.0,
            y: pos.1,
        },
        RawInputAbs::KeyPress { key } => ActionAbs::KeyPress { key },
    }
}

/// The cursor position after a raw notification: move events update it,
/// everything else leaves it.
pub open spec fn spec_capture_pos(raw: RawInputAbs, pos: (int, int)) -> (int, int) {
    match raw {
        RawInputAbs::MouseMove { x, y } => (x, y),
        _ => pos,
    }
}

/// The capture side and the flusher side of one recording run: the queue
/// between them, the in-flight count, and the last known cursor position.
pub struct RecorderService {
    queue: TransferQueue,
    in_flight: u64,
    last_pos: (i32, i32),
}

impl RecorderService {
    /// Records accepted by the queue but not yet durably committed. A
    /// batch dropped by a failed commit stays counted, so the count never
    /// falls below what the queue still holds.
    pub closed spec fn spec_in_flight(&self) -> int {
        self.in_flight as int
    }

    /// What the queue holds, oldest first.
    pub closed spec fn spec_queue(&self) -> Seq<EventRecord> {
        queue_rep(self.queue)
    }

    /// The last cursor position a move notification reported.
    pub closed spec fn spec_last_pos(&self) -> (int, int) {
        (self.last_pos.0 as int, self.last_pos.1 as int)
    }

    /// The recorder's own invariant.
    pub open spec fn wf(&self) -> bool {
        self.spec_in_flight() >= self.spec_queue().len()
    }

    /// A fresh recorder: empty queue, nothing in flight, and no cursor
    /// position seen yet.
    pub fn new() -> (r: RecorderService)
        ensures
            r.wf(),
            r.spec_in_flight() == 0,
            r.spec_queue().len() == 0,
            r.spec_last_pos() == ((-1int, -1int)),
    {
        RecorderService { queue: TransferQueue::new(), in_flight: 0, last_pos: (-1, -1) }
    }

    /// The in-flight count, as the telemetry side channel reports it.
    pub fn in_flight(&self) -> (r: u64)
        ensures
            r == self.spec_in_flight(),
    {
        self.in_flight
    }

    /// One raw notification arrives. When the recording flag is off it is
    /// discarded; otherwise it becomes a record stamped with the elapsed
    /// time, joins the queue, and raises the in-flight count, which is
    /// returned for telemetry.
    pub fn capture(&mut self, is_recording: bool, elapsed_ms: u128, raw: RawInput) -> (r: Option<
        u64,
    >)
        requires
            old(self).wf(),
            old(self).spec_in_flight() < u64::MAX,
        ensures
            final(self).wf(),
            !is_recording ==> r is None && *final(self) == *old(self),
            is_recording ==> ({
                &&& r == Some((old(self).spec_in_flight() + 1) as u64)
                &&& final(self).spec_in_flight() == old(self).spec_in_flight() + 1
                &&& final(self).spec_queue().len() == old(self).spec_queue().len() + 1
                &&& final(self).spec_queue() == old(self).spec_queue().push(
                    final(self).spec_queue().last(),
                )
                &&& final(self).spec_queue().last()@ == (EventRecordAbs {
                    id: None,
                    session_id: None,
                    timestamp_ms: elapsed_ms as int,
                    action: spec_capture_action(raw@, old(self).spec_last_pos()),
                })
                &&& final(self).spec_last_pos() == spec_capture_pos(
                    raw@,
                    old(self).spec_last_pos(),
                )
            }),
    {
        if !is_recording {
            return None;
        }
        let (px, py) = self.last_pos;
        let action = match raw {
            RawInput::MouseMove { x, y } => {
                self.last_pos = (x, y);
                Action::MouseMove { x, y }
            },
            RawInput::ButtonPress { button } => Action::MouseDown { button, x: px, y: py },
            RawInput::ButtonRelease { button } => Action::MouseUp { button, x: px, y: py },
            RawInput::Wheel { delta_x, delta_y } => Action::Wheel {
                delta_x,
                delta_y,
                x: px,
                y: py,
            },
            RawInput::KeyPress { key } => Action::KeyPress { key },
        };
        let record = EventRecord::new(elapsed_ms, action);
        self.queue.push(record);
        self.in_flight = self.in_flight + 1;
        Some(self.in_flight)
    }

    /// One flusher cycle: drains everything the queue holds right now
    /// into one batch, commits a non-empty batch to the store, and on
    /// success lowers the in-flight count by exactly the batch length.
    /// A failed commit leaves the count standing and the batch lost, as
    /// the pipeline documents.
    pub fn flush_once(&mut self, store: &mut MemoryStore, session_id: i64) -> (r: Result<
        u64,
        AppError,
    >)
        requires
            old(self).wf(),
            store_wf(old(store)@),
        ensures
            final(self).wf(),
            store_wf(final(store)@),
            final(self).spec_queue().len() == 0,
            final(self).spec_last_pos() == old(self).spec_last_pos(),
            ({
                let drained = old(self).spec_queue();
                let babs = batch_abs(drained);
                let sidx = session_index(old(store)@.sessions, session_id as int);
                let all_wf = forall|i: int|
                    0 <= i < babs.len() ==> crate::codec::wf_action(#[trigger] babs[i].action);
                let fits = old(store)@.next_event_id + drained.len() <= i64::MAX;
                &&& (drained.len() > 0 && sidx < 0 ==> (r matches Err(e)
                    && e matches AppError::SessionNotFound(bad) && bad == session_id))
                &&& (drained.len() > 0 && sidx >= 0 && !all_wf ==> (r matches Err(e)
                    && e is Serialization))
                &&& (drained.len() > 0 && sidx >= 0 && all_wf && !fits ==> (r matches Err(e)
                    && e is Database))
                &&& (drained.len() == 0 ==> r == Ok::<u64, AppError>(0)
                    && final(store)@ == old(store)@
                    && final(self).spec_in_flight() == old(self).spec_in_flight())
                &&& (drained.len() > 0 && r is Ok ==> ({
                    let row = old(store)@.sessions[sidx];
                    let new_tc = if batch_max_ts(babs) > row.time_cost_ms {
                        batch_max_ts(babs)
                    } else {
                        row.time_cost_ms
                    };
                    &&& r == Ok::<u64, AppError>(drained.len() as u64)
                    &&& final(self).spec_in_flight() == old(self).spec_in_flight()
                        - drained.len()
                    &&& sidx >= 0
                    &&& final(store)@.events == old(store)@.events + batch_rows(
                        babs,
                        session_id as int,
                        old(store)@.next_event_id,
                    )
                    &&& final(store)@.sessions == old(store)@.sessions.update(
                        sidx,
                        SessionRowAbs {
                            event_count: row.event_count + drained.len(),
                            time_cost_ms: new_tc,
                            ..row
                        },
                    )
                }))
                &&& (drained.len() > 0 && r is Err ==> final(store)@ == old(store)@
                    && final(self).spec_in_flight() == old(self).spec_in_flight())
                &&& (drained.len() > 0 ==> (r is Ok <==> sidx >= 0 && all_wf && fits))
            }),
    {
        let ghost contents = self.spec_queue();
        let mut batch: Vec<EventRecord> = Vec::new();
        loop
            invariant
                self.wf(),
                batch@.len() <= contents.len(),
                batch@ == contents.take(batch@.len() as int),
                self.spec_queue() == contents.skip(batch@.len() as int),
                self.spec_in_flight() == old(self).spec_in_flight(),
                self.spec_last_pos() == old(self).spec_last_pos(),
            ensures
                self.wf(),
                batch@ == contents,
                self.spec_queue().len() == 0,
                self.spec_in_flight() == old(self).spec_in_flight(),
                self.spec_last_pos() == old(self).spec_last_pos(),
            decreases contents.len() - batch@.len(),
        {
            match self.queue.try_pop() {
                Some(ev) => {
                    proof {
                        let k = batch@.len() as int;
                        assert(contents.skip(k)[0] == contents[k]);
                        assert(contents.skip(k).drop_first() =~= contents.skip(k + 1));
                        assert(contents.take(k).push(contents[k]) =~= contents.take(k + 1));
                    }
                    batch.push(ev);
                },
                None => {
                    proof {
                        assert(contents.skip(batch@.len() as int).len() == 0);
                        assert(batch@ =~= contents);
                    }
                    break;
                },
            }
        }
        if batch.len() == 0 {
            return Ok(0);
        }
        let n = batch.len() as u64;
        match store.save_events(session_id, &batch) {
            Ok(()) => {
                self.in_flight = self.in_flight - n;
                Ok(n)
            },
            Err(e) => Err(e),
        }
    }

    /// Reports how many events stand persisted for a session, as the
    /// stop path does after the last batch drains.
    pub fn save_recording(session_id: i64, store: &MemoryStore) -> (r: Result<usize, AppError>)
        requires
            store_wf(store@),
        ensures
            r matches Ok(n) ==> n == crate::store::rows_for(store@.events, session_id as int).len(),
            r is Ok,
    {
        proof {
            crate::store::lemma_sort_rows_len(
                crate::store::rows_for(store@.events, session_id as int),
            );
        }
        match store.load_events(session_id) {
            Ok(events) => Ok(events.len()),
            Err(e) => Err(e),
        }
    }
}

} // verus!
