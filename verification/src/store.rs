//! An in-core session store with the exact accounting the event pipeline
//! relies on: rows of encoded actions appended in commit order, a per-batch
//! `event_count` increment, and a `time_cost` high-water mark that never
//! recomputes backwards.

use vstd::prelude::*;
use crate::action::{ActionAbs, EventRecord, EventRecordAbs, spec_action_type};
use crate::codec::{action_is_wf, decode_action, encode_action, spec_encode, wf_action};
use crate::error::AppError;

verus! {

/// One persisted event row: the session it belongs to, when it happened,
/// and the action rendered as its storage text.
#[derive(Debug)]
pub struct StoredEvent {
    pub id: i64,
    pub session_id: i64,
    pub timestamp_ms: u128,
    pub action_type: String,
    pub action_data: String,
}

/// The abstract value of a stored event row.
pub struct StoredEventAbs {
    pub id: int,
    pub session_id: int,
    pub timestamp_ms: int,
    pub action_type: Seq<char>,
    pub action_data: Seq<char>,
}

impl View for StoredEvent {
    type V = StoredEventAbs;

    open spec fn view(&self) -> StoredEventAbs {
        StoredEventAbs {
            id: self.id as int,
            session_id: self.session_id as int,
            timestamp_ms: self.timestamp_ms as int,
            action_type: self.action_type@,
            action_data: self.action_data@,
        }
    }
}

/// One persisted session row with its derived statistics: how many events
/// have been committed into it, and the high-water mark of their
/// timestamps in milliseconds.
#[derive(Debug)]
pub struct SessionRow {
    pub id: i64,
    pub name: String,
    pub description: Option<String>,
    pub created_at: String,
    pub event_count: u64,
    pub time_cost_ms: u128,
}

/// The abstract value of a session row.
pub struct SessionRowAbs {
    pub id: int,
    pub name: Seq<char>,
    pub description: Option<Seq<char>>,
    pub created_at: Seq<char>,
    pub event_count: int,
    pub time_cost_ms: int,
}

impl View for SessionRow {
    type V = SessionRowAbs;

    open spec fn view(&self) -> SessionRowAbs {
        SessionRowAbs {
            id: self.id as int,
            name: self.name@,
            description: match self.description {
                Some(ref d) => Some(d@),
                None => None,
            },
            created_at: self.created_at@,
            event_count: self.event_count as int,
            time_cost_ms: self.time_cost_ms as int,
        }
    }
}

/// The abstract state of the store: both tables and the two id counters.
pub struct StoreAbs {
    pub sessions: Seq<SessionRowAbs>,
    pub events: Seq<StoredEventAbs>,
    pub next_session_id: int,
    pub next_event_id: int,
}

/// The event rows of one session, in commit order.
pub open spec fn rows_for(rows: Seq<StoredEventAbs>, sid: int) -> Seq<StoredEventAbs>
    decreases rows.len(),
{
    if rows.len() == 0 {
        Seq::empty()
    } else if rows.last().session_id == sid {
        rows_for(rows.drop_last(), sid).push(rows.last())
    } else {
        rows_for(rows.drop_last(), sid)
    }
}

pub proof fn lemma_rows_for_len(rows: Seq<StoredEventAbs>, sid: int)
    ensures
        rows_for(rows, sid).len() <= rows.len(),
    decreases rows.len(),
{
    if rows.len() > 0 {
        lemma_rows_for_len(rows.drop_last(), sid);
    }
}

/// The position of the session with the given id, or -1 when none holds it.
pub open spec fn session_index(rows: Seq<SessionRowAbs>, sid: int) -> int
    decreases rows.len(),
{
    if rows.len() == 0 {
        -1
    } else if rows[0].id == sid {
        0
    } else {
        let rest = session_index(rows.drop_first(), sid);
        if rest < 0 {
            -1
        } else {
            rest + 1
        }
    }
}

pub proof fn lemma_session_index(rows: Seq<SessionRowAbs>, sid: int)
    ensures
        session_index(rows, sid) < 0 ==> forall|i: int|
            0 <= i < rows.len() ==> (#[trigger] rows[i]).id != sid,
        session_index(rows, sid) >= 0 ==> session_index(rows, sid) < rows.len() && rows[
            session_index(rows, sid)
        ].id == sid,
    decreases rows.len(),
{
    if rows.len() > 0 && rows[0].id != sid {
        lemma_session_index(rows.drop_first(), sid);
        assert(forall|i: int| 1 <= i < rows.len() ==> rows[i] == rows.drop_first()[i - 1]);
    }
}

/// The in-core store.
pub struct MemoryStore {
    sessions: Vec<SessionRow>,
    events: Vec<StoredEvent>,
    next_session_id: i64,
    next_event_id: i64,
}

impl View for MemoryStore {
    type V = StoreAbs;

    closed spec fn view(&self) -> StoreAbs {
        StoreAbs {
            sessions: self.sessions@.map(|i: int, r: SessionRow| r@),
            events: self.events@.map(|i: int, r: StoredEvent| r@),
            next_session_id: self.next_session_id as int,
            next_event_id: self.next_event_id as int,
        }
    }
}

/// What every reachable store satisfies: fresh ids above every stored id,
/// session ids unique, every event row tied to a stored session and
/// holding the storage text of a well-formed action, and each session's
/// statistics agreeing with its rows.
pub open spec fn store_wf(s: StoreAbs) -> bool {
    &&& 1 <= s.next_session_id <= i64::MAX
    &&& 1 <= s.next_event_id <= i64::MAX
    &&& forall|i: int|
        0 <= i < s.sessions.len() ==> 1 <= (#[trigger] s.sessions[i]).id < s.next_session_id
    &&& forall|i: int, j: int|
        0 <= i < j < s.sessions.len() ==> (#[trigger] s.sessions[i]).id != (
        #[trigger] s.sessions[j]).id
    &&& forall|i: int|
        0 <= i < s.events.len() ==> 1 <= (#[trigger] s.events[i]).id < s.next_event_id
    &&& forall|i: int|
        0 <= i < s.events.len() ==> session_index(s.sessions, (#[trigger] s.events[i]).session_id)
            >= 0
    &&& forall|i: int|
        0 <= i < s.events.len() ==> exists|b: ActionAbs|
            wf_action(b) && (#[trigger] s.events[i]).action_data == spec_encode(b)
    &&& forall|i: int|
        0 <= i < s.sessions.len() ==> (#[trigger] s.sessions[i]).event_count == rows_for(
            s.events,
            s.sessions[i].id,
        ).len()
    &&& forall|i: int, j: int|
        0 <= i < s.sessions.len() && 0 <= j < s.events.len() && s.events[j].session_id
            == s.sessions[i].id ==> (#[trigger] s.events[j]).timestamp_ms <= (
        #[trigger] s.sessions[i]).time_cost_ms
}

impl MemoryStore {
    /// A fresh store with no sessions and no events.
    pub fn new() -> (r: MemoryStore)
        ensures
            store_wf(r@),
            r@.sessions.len() == 0,
            r@.events.len() == 0,
            r@.next_session_id == 1,
            r@.next_event_id == 1,
    {
        MemoryStore { sessions: Vec::new(), events: Vec::new(), next_session_id: 1, next_event_id: 1 }
    }

    /// Finds the position of a session row by id.
    fn find_session(&self, session_id: i64) -> (r: Option<usize>)
        ensures
            r matches Some(i) ==> i < self@.sessions.len() && session_index(
                self@.sessions,
                session_id as int,
            ) == i as int,
            r is None ==> session_index(self@.sessions, session_id as int) < 0,
    {
        let mut i: usize = 0;
        while i < self.sessions.len()
            invariant
                i <= self@.sessions.len(),
                forall|j: int| 0 <= j < i ==> (#[trigger] self@.sessions[j]).id != session_id,
            decreases self@.sessions.len() - i,
        {
            if self.sessions[i].id == session_id {
                proof {
                    lemma_session_index_prefix(self@.sessions, session_id as int, i as int);
                }
                return Some(i);
            }
            i += 1;
        }
        proof {
            lemma_session_index_none(self@.sessions, session_id as int);
        }
        None
    }


    /// Commits one batch transactionally: appends each record as a row of
    /// this session in batch order, raises `event_count` by the batch
    /// length, and lifts `time_cost_ms` to the batch's highest timestamp
    /// where that is higher — never lowering it.
    pub fn save_events(&mut self, session_id: i64, events: &Vec<EventRecord>) -> (r: Result<
        (),
        AppError,
    >)
        requires
            store_wf(old(self)@),
        ensures
            store_wf(final(self)@),
            ({
                let sidx = session_index(old(self)@.sessions, session_id as int);
                let babs = batch_abs(events@);
                let all_wf = forall|i: int|
                    0 <= i < babs.len() ==> wf_action(#[trigger] babs[i].action);
                let fits = old(self)@.next_event_id + babs.len() <= i64::MAX;
                &&& (r is Ok <==> sidx >= 0 && all_wf && fits)
                &&& (r is Ok ==> {
                    let row = old(self)@.sessions[sidx];
                    let new_tc = if batch_max_ts(babs) > row.time_cost_ms {
                        batch_max_ts(babs)
                    } else {
                        row.time_cost_ms
                    };
                    &&& final(self)@.events == old(self)@.events + batch_rows(
                        babs,
                        session_id as int,
                        old(self)@.next_event_id,
                    )
                    &&& final(self)@.sessions == old(self)@.sessions.update(
                        sidx,
                        SessionRowAbs {
                            event_count: row.event_count + babs.len(),
                            time_cost_ms: new_tc,
                            ..row
                        },
                    )
                    &&& final(self)@.next_event_id == old(self)@.next_event_id + babs.len()
                    &&& final(self)@.next_session_id == old(self)@.next_session_id
                })
                &&& (sidx < 0 ==> (r matches Err(e) && e matches AppError::SessionNotFound(bad)
                    && bad == session_id && final(self)@ == old(self)@))
                &&& (sidx >= 0 && !all_wf ==> (r matches Err(e) && e is Serialization
                    && final(self)@ == old(self)@))
                &&& (sidx >= 0 && all_wf && !fits ==> (r matches Err(e) && e is Database
                    && final(self)@ == old(self)@))
            }),
    {
        let ghost sold = self@;
        let ghost babs = batch_abs(events@);
        let idx = match self.find_session(session_id) {
            Some(i) => i,
            None => {
                return Err(AppError::SessionNotFound(session_id));
            },
        };
        proof {
            lemma_session_index(sold.sessions, session_id as int);
        }
        let mut k: usize = 0;
        while k < events.len()
            invariant
                k <= events@.len(),
                babs == batch_abs(events@),
                sold == old(self)@,
                self@ == sold,
                store_wf(sold),
                idx < sold.sessions.len(),
                session_index(sold.sessions, session_id as int) == idx as int,
                forall|i: int| 0 <= i < k ==> wf_action(#[trigger] babs[i].action),
            decreases events@.len() - k,
        {
            if !action_is_wf(&events[k].action) {
                proof {
                    assert(babs[k as int].action == events@[k as int].action@);
                }
                return Err(
                    AppError::Serialization(String::from_str("action outside the storage range")),
                );
            }
            proof {
                assert(babs[k as int].action == events@[k as int].action@);
            }
            k += 1;
        }
        if ((i64::MAX - self.next_event_id) as u64) < events.len() as u64 {
            return Err(AppError::Database(String::from_str("event id space exhausted")));
        }
        let ghost first_id = self@.next_event_id;
        let mut max_ts: u128 = 0;
        let mut k: usize = 0;
        while k < events.len()
            invariant
                store_wf(sold),
                k <= events@.len(),
                babs == batch_abs(events@),
                forall|i: int| 0 <= i < babs.len() ==> wf_action(#[trigger] babs[i].action),
                first_id == sold.next_event_id,
                first_id + events@.len() <= i64::MAX,
                sold == old(self)@,
                idx < sold.sessions.len(),
                session_index(sold.sessions, session_id as int) == idx as int,
                self@.next_event_id == first_id + k,
                self@.sessions == sold.sessions,
                self@.next_session_id == sold.next_session_id,
                self@.events == sold.events + batch_rows(babs.take(k as int), session_id as int, first_id),
                max_ts == batch_max_ts(babs.take(k as int)),
            decreases events@.len() - k,
        {
            let ev = &events[k];
            let data = encode_action(&ev.action);
            let tag = String::from_str(ev.action.action_type());
            let row = StoredEvent {
                id: self.next_event_id,
                session_id,
                timestamp_ms: ev.timestamp_ms,
                action_type: tag,
                action_data: data,
            };
            let ghost rabs = row@;
            let ghost prev = self@.events;
            self.events.push(row);
            self.next_event_id = self.next_event_id + 1;
            if ev.timestamp_ms > max_ts {
                max_ts = ev.timestamp_ms;
            }
            proof {
                assert(babs[k as int] == events@[k as int]@);
                assert(self@.events =~= prev.push(rabs));
                assert(batch_rows(babs.take(k + 1), session_id as int, first_id) =~= batch_rows(
                    babs.take(k as int),
                    session_id as int,
                    first_id,
                ).push(rabs));
                assert(sold.events + batch_rows(babs.take(k as int), session_id as int, first_id).push(
                    rabs,
                ) =~= (sold.events + batch_rows(
                    babs.take(k as int),
                    session_id as int,
                    first_id,
                )).push(rabs));
                assert(babs.take(k + 1).drop_last() =~= babs.take(k as int));
                assert(babs.take(k + 1).last() == babs[k as int]);
            }
            k += 1;
        }
        proof {
            assert(babs.take(babs.len() as int) =~= babs);
        }
        let total = self.events.len();
        let srow = &self.sessions[idx];
        proof {
            lemma_rows_for_len(sold.events, session_id as int);
            assert(sold.sessions[idx as int].id == session_id) by {
                lemma_session_index(sold.sessions, session_id as int);
            }
            assert(srow@ == sold.sessions[idx as int]);
            assert(srow.event_count == rows_for(sold.events, session_id as int).len());
            assert(srow.event_count + events@.len() <= total);
        }
        let new_count: u64 = srow.event_count + (events.len() as u64);
        let new_tc: u128 = if max_ts > srow.time_cost_ms {
            max_ts
        } else {
            srow.time_cost_ms
        };
        let updated = SessionRow {
            id: srow.id,
            name: srow.name.clone(),
            description: match &srow.description {
                Some(d) => Some(d.clone()),
                None => None,
            },
            created_at: srow.created_at.clone(),
            event_count: new_count,
            time_cost_ms: new_tc,
        };
        self.sessions[idx] = updated;
        proof {
            let snew = self@;
            let newrows = batch_rows(babs, session_id as int, first_id);
            let oldrow = sold.sessions[idx as int];
            assert(snew.sessions =~= sold.sessions.update(
                idx as int,
                SessionRowAbs {
                    event_count: oldrow.event_count + babs.len(),
                    time_cost_ms: if batch_max_ts(babs) > oldrow.time_cost_ms {
                        batch_max_ts(babs)
                    } else {
                        oldrow.time_cost_ms
                    },
                    ..oldrow
                },
            ));
            assert(forall|i: int| 0 <= i < babs.len() ==> #[trigger] babs[i] == events@[i]@);
            lemma_save_events_wf(sold, snew, babs, session_id as int, idx as int, first_id);
        }
        Ok(())
    }


    /// Reads one session's records back in commit order: ids and session
    /// filled in from the rows, each action read back from its storage
    /// text. A session with no rows — or an unknown id — gives an empty
    /// log, as the storage query would.
    /// Reads one session's records back ordered by timestamp, earliest
    /// first, with commit order kept among equal timestamps: ids and the
    /// session filled in from the rows, each action read back from its
    /// storage text. A session with no rows — or an unknown id — gives an
    /// empty log, as the storage query would.
    pub fn load_events(&self, session_id: i64) -> (r: Result<Vec<EventRecord>, AppError>)
        requires
            store_wf(self@),
        ensures
            r is Ok,
            r matches Ok(out) ==> loaded_records(
                sort_rows(rows_for(self@.events, session_id as int)),
                out@,
                session_id as int,
            ),
    {
        let ghost mine_spec = rows_for(self@.events, session_id as int);
        // collect this session's rows in commit order
        let mut mine: Vec<StoredEvent> = Vec::new();
        let mut i: usize = 0;
        while i < self.events.len()
            invariant
                store_wf(self@),
                i <= self@.events.len(),
                mine@.map(|t: int, r2: StoredEvent| r2@) == rows_for(
                    self@.events.take(i as int),
                    session_id as int,
                ),
            decreases self@.events.len() - i,
        {
            let ghost prior = mine@.map(|t: int, r2: StoredEvent| r2@);
            if self.events[i].session_id == session_id {
                mine.push(self.events[i].clone());
                proof {
                    assert(mine@.map(|t: int, r2: StoredEvent| r2@) =~= prior.push(
                        self@.events[i as int],
                    ));
                }
            }
            proof {
                assert(self@.events.take(i + 1).drop_last() =~= self@.events.take(i as int));
                assert(self@.events.take(i + 1).last() == self@.events[i as int]);
            }
            i += 1;
        }
        proof {
            assert(self@.events.take(self@.events.len() as int) =~= self@.events);
        }
        let ghost mabs = mine@.map(|t: int, r2: StoredEvent| r2@);
        // stable insertion sort by timestamp: each row goes behind every
        // row with an equal or earlier timestamp
        let mut sorted: Vec<StoredEvent> = Vec::new();
        let mut k: usize = 0;
        while k < mine.len()
            invariant
                mabs == mine@.map(|t: int, r2: StoredEvent| r2@),
                k <= mine@.len(),
                sorted@.len() == k,
                sorted@.map(|t: int, r2: StoredEvent| r2@) == sort_rows(mabs.take(k as int)),
                sorted_by_ts(sorted@.map(|t: int, r2: StoredEvent| r2@)),
            decreases mine@.len() - k,
        {
            let item = mine[k].clone();
            let ghost sabs = sorted@.map(|t: int, r2: StoredEvent| r2@);
            let mut p: usize = sorted.len();
            while p > 0 && sorted[p - 1].timestamp_ms > item.timestamp_ms
                invariant
                    p <= sorted@.len(),
                    sabs == sorted@.map(|t: int, r2: StoredEvent| r2@),
                    item@ == mabs[k as int],
                    forall|j: int|
                        p <= j < sabs.len() ==> (#[trigger] sabs[j]).timestamp_ms
                            > item@.timestamp_ms,
                decreases p,
            {
                p -= 1;
            }
            proof {
                assert forall|j2: int|
                    0 <= j2 < p implies (#[trigger] sabs[j2]).timestamp_ms
                    <= item@.timestamp_ms by {
                    assert(sabs[p - 1].timestamp_ms <= item@.timestamp_ms);
                    assert(sabs[j2].timestamp_ms <= sabs[p - 1].timestamp_ms);
                }
                lemma_insert_row_at(sabs, item@, p as int);
                lemma_insert_row_sorted(sabs, item@);
            }
            sorted.insert(p, item);
            proof {
                assert(sorted@.map(|t: int, r2: StoredEvent| r2@) =~= sabs.subrange(
                    0,
                    p as int,
                ) + seq![mabs[k as int]] + sabs.subrange(p as int, sabs.len() as int));
                assert(mabs.take(k + 1).drop_last() =~= mabs.take(k as int));
                assert(mabs.take(k + 1).last() == mabs[k as int]);
            }
            k += 1;
        }
        proof {
            assert(mabs.take(mabs.len() as int) =~= mabs);
            assert(mabs == mine_spec);
        }
        let ghost srows = sort_rows(mine_spec);
        // decode pass over the timestamp-ordered rows
        let mut out: Vec<EventRecord> = Vec::new();
        let mut d: usize = 0;
        while d < sorted.len()
            invariant
                store_wf(self@),
                mine_spec == rows_for(self@.events, session_id as int),
                srows == sort_rows(mine_spec),
                sorted@.map(|t: int, r2: StoredEvent| r2@) == srows,
                d <= sorted@.len(),
                loaded_records(srows.take(d as int), out@, session_id as int),
            decreases sorted@.len() - d,
        {
            let row = &sorted[d];
            proof {
                assert(row@ == srows[d as int]);
            }
            match decode_action(row.action_data.as_str()) {
                Some(a) => {
                    let rec = EventRecord {
                        id: Some(row.id),
                        session_id: Some(session_id),
                        timestamp_ms: row.timestamp_ms,
                        action: a,
                    };
                    out.push(rec);
                },
                None => {
                    proof {
                        lemma_sort_rows_props(mine_spec);
                        let j1 = choose|j1: int|
                            0 <= j1 < mine_spec.len() && srows[d as int] == mine_spec[j1];
                        lemma_rows_for_props(self@.events, session_id as int);
                        let j2 = choose|j2: int|
                            0 <= j2 < self@.events.len() && mine_spec[j1] == self@.events[j2];
                        let b = choose|b: ActionAbs|
                            wf_action(b) && self@.events[j2].action_data == spec_encode(b);
                        assert(wf_action(b) && srows[d as int].action_data == spec_encode(b));
                        assert(false);
                    }
                    return Err(
                        AppError::Serialization(String::from_str("stored action text unreadable")),
                    );
                },
            }
            proof {
                assert(srows.take(d + 1).drop_last() =~= srows.take(d as int));
                assert(srows.take(d + 1).last() == srows[d as int]);
            }
            d += 1;
        }
        proof {
            lemma_sort_rows_len(mine_spec);
            assert(srows.take(srows.len() as int) =~= srows);
        }
        Ok(out)
    }

    /// Hands back a copy of the session row with the given id, or `None`
    /// when the store holds no such session.
    pub fn get_session(&self, session_id: i64) -> (r: Result<Option<SessionRow>, AppError>)
        ensures
            r is Ok,
            r matches Ok(opt) ==> match opt {
                Some(row) => session_index(self@.sessions, session_id as int) >= 0 && row@
                    == self@.sessions[session_index(self@.sessions, session_id as int)],
                None => session_index(self@.sessions, session_id as int) < 0,
            },
    {
        match self.find_session(session_id) {
            Some(i) => Ok(Some(self.sessions[i].clone())),
            None => Ok(None),
        }
    }

    /// Lists every session, most recently created first.
    pub fn list_sessions(&self) -> (r: Result<Vec<SessionRow>, AppError>)
        ensures
            r is Ok,
            r matches Ok(out) ==> out@.len() == self@.sessions.len() && forall|i: int|
                0 <= i < out@.len() ==> (#[trigger] out@[i])@ == self@.sessions[self@.sessions.len()
                    - 1 - i],
    {
        let mut out: Vec<SessionRow> = Vec::new();
        let mut i: usize = self.sessions.len();
        while i > 0
            invariant
                i <= self@.sessions.len(),
                out@.len() == self@.sessions.len() - i,
                forall|j: int|
                    0 <= j < out@.len() ==> (#[trigger] out@[j])@ == self@.sessions[self@.sessions.len() - 1 - j],
            decreases i,
        {
            i -= 1;
            out.push(self.sessions[i].clone());
        }
        Ok(out)
    }

    /// Renames a session and replaces its description. A missing id
    /// changes nothing, as the storage update would affect no row.
    pub fn update_session(&mut self, session_id: i64, name: &str, description: Option<&str>) -> (r:
        Result<(), AppError>)
        requires
            store_wf(old(self)@),
        ensures
            store_wf(final(self)@),
            r is Ok,
            ({
                let sidx = session_index(old(self)@.sessions, session_id as int);
                &&& (sidx < 0 ==> final(self)@ == old(self)@)
                &&& (sidx >= 0 ==> {
                    let row = old(self)@.sessions[sidx];
                    &&& final(self)@.sessions == old(self)@.sessions.update(
                        sidx,
                        SessionRowAbs {
                            name: name@,
                            description: match description {
                                Some(d) => Some(d@),
                                None => None,
                            },
                            ..row
                        },
                    )
                    &&& final(self)@.events == old(self)@.events
                    &&& final(self)@.next_session_id == old(self)@.next_session_id
                    &&& final(self)@.next_event_id == old(self)@.next_event_id
                })
            }),
    {
        let ghost sold = self@;
        let idx = match self.find_session(session_id) {
            Some(i) => i,
            None => {
                return Ok(());
            },
        };
        let srow = &self.sessions[idx];
        let updated = SessionRow {
            id: srow.id,
            name: name.to_owned(),
            description: match description {
                Some(d) => Some(d.to_owned()),
                None => None,
            },
            created_at: srow.created_at.clone(),
            event_count: srow.event_count,
            time_cost_ms: srow.time_cost_ms,
        };
        self.sessions[idx] = updated;
        proof {
            let snew = self@;
            lemma_session_index(sold.sessions, session_id as int);
            assert(snew.sessions =~= sold.sessions.update(
                idx as int,
                SessionRowAbs {
                    name: name@,
                    description: match description {
                        Some(d) => Some(d@),
                        None => None,
                    },
                    ..sold.sessions[idx as int]
                },
            ));
            assert(snew.events =~= sold.events);
            assert forall|x: int|
                session_index(snew.sessions, x) == session_index(sold.sessions, x) by {
                lemma_session_index_same_ids(snew.sessions, sold.sessions, x);
            }
            assert forall|i: int|
                0 <= i < snew.sessions.len() implies (#[trigger] snew.sessions[i]).event_count
                == rows_for(snew.events, snew.sessions[i].id).len() by {
                assert(snew.sessions[i].id == sold.sessions[i].id);
                assert(snew.sessions[i].event_count == sold.sessions[i].event_count);
            }
            assert forall|i: int, j: int|
                0 <= i < snew.sessions.len() && 0 <= j < snew.events.len() && snew.events[
                    j
                ].session_id == snew.sessions[i].id implies (#[trigger] snew.events[
                j
            ]).timestamp_ms <= (#[trigger] snew.sessions[i]).time_cost_ms by {
                assert(snew.sessions[i].id == sold.sessions[i].id);
                assert(snew.sessions[i].time_cost_ms == sold.sessions[i].time_cost_ms);
                assert(snew.events[j] == sold.events[j]);
            }
        }
        Ok(())
    }


    /// Deletes a session and, as the storage schema cascades, every event
    /// row tied to it. A missing id changes nothing.
    pub fn delete_session(&mut self, session_id: i64) -> (r: Result<(), AppError>)
        requires
            store_wf(old(self)@),
        ensures
            store_wf(final(self)@),
            r is Ok,
            ({
                let sidx = session_index(old(self)@.sessions, session_id as int);
                &&& (sidx < 0 ==> final(self)@ == old(self)@)
                &&& (sidx >= 0 ==> {
                    &&& final(self)@.sessions == old(self)@.sessions.remove(sidx)
                    &&& final(self)@.events == rows_excluding(old(self)@.events, session_id as int)
                    &&& final(self)@.next_session_id == old(self)@.next_session_id
                    &&& final(self)@.next_event_id == old(self)@.next_event_id
                })
            }),
    {
        let ghost sold = self@;
        let idx = match self.find_session(session_id) {
            Some(i) => i,
            None => {
                return Ok(());
            },
        };
        self.sessions.remove(idx);
        proof {
            assert(self@.sessions =~= sold.sessions.remove(idx as int));
        }
        let mut kept: Vec<StoredEvent> = Vec::new();
        let mut i: usize = 0;
        while i < self.events.len()
            invariant
                i <= self@.events.len(),
                self@.events == sold.events,
                self@.sessions == sold.sessions.remove(idx as int),
                idx < sold.sessions.len(),
                kept@.map(|t: int, r: StoredEvent| r@) == rows_excluding(
                    sold.events.take(i as int),
                    session_id as int,
                ),
            decreases self@.events.len() - i,
        {
            let ghost prior = kept@.map(|t: int, r: StoredEvent| r@);
            if self.events[i].session_id != session_id {
                kept.push(self.events[i].clone());
            }
            proof {
                assert(sold.events.take(i + 1).drop_last() =~= sold.events.take(i as int));
                assert(sold.events.take(i + 1).last() == sold.events[i as int]);
                if sold.events[i as int].session_id != session_id as int {
                    assert(kept@.map(|t: int, r: StoredEvent| r@) =~= prior.push(
                        sold.events[i as int],
                    ));
                } else {
                    assert(kept@.map(|t: int, r: StoredEvent| r@) =~= prior);
                }
            }
            i += 1;
        }
        self.events = kept;
        proof {
            assert(sold.events.take(sold.events.len() as int) =~= sold.events);
            lemma_session_index(sold.sessions, session_id as int);
            lemma_delete_session_wf(sold, self@, session_id as int, idx as int);
        }
        Ok(())
    }

    /// Creates a session and hands back its fresh id. Fails only when the
    /// id space is exhausted.
    pub fn create_session(&mut self, name: &str, description: Option<&str>, created_at: String) -> (r:
        Result<i64, AppError>)
        requires
            store_wf(old(self)@),
        ensures
            store_wf(final(self)@),
            old(self)@.next_session_id < i64::MAX ==> ({
                &&& r matches Ok(id)
                &&& id == old(self)@.next_session_id
                &&& final(self)@.sessions == old(self)@.sessions.push(
                    SessionRowAbs {
                        id: id as int,
                        name: name@,
                        description: match description {
                            Some(d) => Some(d@),
                            None => None,
                        },
                        created_at: created_at@,
                        event_count: 0,
                        time_cost_ms: 0,
                    },
                )
                &&& final(self)@.events == old(self)@.events
                &&& final(self)@.next_session_id == old(self)@.next_session_id + 1
                &&& final(self)@.next_event_id == old(self)@.next_event_id
            }),
            old(self)@.next_session_id == i64::MAX ==> (r matches Err(e) && e is Database
                && final(self)@ == old(self)@),
    {
        if self.next_session_id == i64::MAX {
            return Err(AppError::Database(String::from_str("session id space exhausted")));
        }
        let id = self.next_session_id;
        let desc: Option<String> = match description {
            Some(d) => Some(d.to_owned()),
            None => None,
        };
        let row = SessionRow {
            id,
            name: name.to_owned(),
            description: desc,
            created_at,
            event_count: 0,
            time_cost_ms: 0,
        };
        self.sessions.push(row);
        self.next_session_id = id + 1;
        proof {
            let snew = self@;
            let sold = old(self)@;
            assert(snew.sessions =~= sold.sessions.push(snew.sessions.last()));
            assert(snew.events =~= sold.events);
            assert forall|i: int|
                0 <= i < snew.events.len() implies (#[trigger] snew.events[i]).session_id
                != id as int by {
                lemma_session_index(sold.sessions, snew.events[i].session_id);
            }
            assert forall|i: int|
                0 <= i < snew.sessions.len() implies (#[trigger] snew.sessions[i]).event_count
                == rows_for(snew.events, snew.sessions[i].id).len() by {
                if i < sold.sessions.len() {
                    assert(snew.sessions[i] == sold.sessions[i]);
                } else {
                    lemma_rows_for_empty_session(snew.events, id as int);
                }
            }
            assert forall|i: int|
                0 <= i < snew.events.len() implies session_index(
                snew.sessions,
                (#[trigger] snew.events[i]).session_id,
            ) >= 0 by {
                lemma_session_index_push(sold.sessions, snew.sessions.last(), snew.events[i].session_id);
            }
        }
        Ok(id)
    }
}

/// A scan that found the id at position `i`, nothing earlier matching,
/// agrees with `session_index`.
proof fn lemma_session_index_prefix(rows: Seq<SessionRowAbs>, sid: int, i: int)
    requires
        0 <= i < rows.len(),
        rows[i].id == sid,
        forall|j: int| 0 <= j < i ==> (#[trigger] rows[j]).id != sid,
    ensures
        session_index(rows, sid) == i,
    decreases i,
{
    if i > 0 {
        assert(rows[0].id != sid);
        lemma_session_index_prefix(rows.drop_first(), sid, i - 1);
        assert(forall|j: int| 0 <= j < rows.len() - 1 ==> rows.drop_first()[j] == rows[j + 1]);
    }
}

/// A scan that matched nothing agrees with `session_index`.
proof fn lemma_session_index_none(rows: Seq<SessionRowAbs>, sid: int)
    requires
        forall|j: int| 0 <= j < rows.len() ==> (#[trigger] rows[j]).id != sid,
    ensures
        session_index(rows, sid) < 0,
    decreases rows.len(),
{
    if rows.len() > 0 {
        lemma_session_index_none(rows.drop_first(), sid);
        assert(forall|j: int| 0 <= j < rows.len() - 1 ==> rows.drop_first()[j] == rows[j + 1]);
    }
}

/// Appending a session leaves every earlier id findable, and the new one
/// findable too.
proof fn lemma_session_index_push(rows: Seq<SessionRowAbs>, row: SessionRowAbs, sid: int)
    requires
        session_index(rows, sid) >= 0 || row.id == sid,
    ensures
        session_index(rows.push(row), sid) >= 0,
    decreases rows.len(),
{
    if rows.len() == 0 {
    } else if rows[0].id == sid {
    } else {
        lemma_session_index_push(rows.drop_first(), row, sid);
        assert(rows.push(row).drop_first() =~= rows.drop_first().push(row));
    }
}

/// A session whose id no event row carries has no rows.
proof fn lemma_rows_for_empty_session(rows: Seq<StoredEventAbs>, sid: int)
    requires
        forall|i: int| 0 <= i < rows.len() ==> (#[trigger] rows[i]).session_id != sid,
    ensures
        rows_for(rows, sid).len() == 0,
    decreases rows.len(),
{
    if rows.len() > 0 {
        lemma_rows_for_empty_session(rows.drop_last(), sid);
    }
}

/// The abstract values of a batch of records.
pub open spec fn batch_abs(batch: Seq<EventRecord>) -> Seq<EventRecordAbs> {
    batch.map(|i: int, e: EventRecord| e@)
}

/// The largest timestamp in a batch, zero when it is empty.
pub open spec fn batch_max_ts(batch: Seq<EventRecordAbs>) -> int
    decreases batch.len(),
{
    if batch.len() == 0 {
        0
    } else {
        let rest = batch_max_ts(batch.drop_last());
        if batch.last().timestamp_ms > rest {
            batch.last().timestamp_ms
        } else {
            rest
        }
    }
}

pub proof fn lemma_batch_max_ts(batch: Seq<EventRecordAbs>)
    ensures
        batch_max_ts(batch) >= 0,
        forall|i: int| 0 <= i < batch.len() ==> (#[trigger] batch[i]).timestamp_ms <= batch_max_ts(
            batch,
        ),
    decreases batch.len(),
{
    if batch.len() > 0 {
        lemma_batch_max_ts(batch.drop_last());
        assert(forall|i: int| 0 <= i < batch.len() - 1 ==> batch[i] == batch.drop_last()[i]);
    }
}

/// The event rows one committed batch adds: ids assigned in order from
/// `first_id`, each action rendered as its storage text.
pub open spec fn batch_rows(batch: Seq<EventRecordAbs>, sid: int, first_id: int) -> Seq<
    StoredEventAbs,
> {
    Seq::new(
        batch.len(),
        |i: int|
            StoredEventAbs {
                id: first_id + i,
                session_id: sid,
                timestamp_ms: batch[i].timestamp_ms,
                action_type: spec_action_type(batch[i].action),
                action_data: spec_encode(batch[i].action),
            },
    )
}

/// Splitting a row sequence splits each session's rows.
pub proof fn lemma_rows_for_append(a: Seq<StoredEventAbs>, b: Seq<StoredEventAbs>, sid: int)
    ensures
        rows_for(a + b, sid) == rows_for(a, sid) + rows_for(b, sid),
    decreases b.len(),
{
    if b.len() == 0 {
        assert(a + b =~= a);
        assert(rows_for(a, sid) + rows_for(b, sid) =~= rows_for(a, sid));
    } else {
        lemma_rows_for_append(a, b.drop_last(), sid);
        assert((a + b).drop_last() =~= a + b.drop_last());
        assert((a + b).last() == b.last());
        if b.last().session_id == sid {
            assert(rows_for(a, sid) + rows_for(b, sid) =~= (rows_for(a, sid) + rows_for(
                b.drop_last(),
                sid,
            )).push(b.last()));
        }
    }
}

/// Rows that all belong to one session are exactly that session's rows.
pub proof fn lemma_rows_for_all(rows: Seq<StoredEventAbs>, sid: int)
    requires
        forall|i: int| 0 <= i < rows.len() ==> (#[trigger] rows[i]).session_id == sid,
    ensures
        rows_for(rows, sid) == rows,
    decreases rows.len(),
{
    if rows.len() > 0 {
        lemma_rows_for_all(rows.drop_last(), sid);
        assert(rows_for(rows, sid) =~= rows);
    }
}

/// Rows that all belong to another session add nothing to this one.
pub proof fn lemma_rows_for_none(rows: Seq<StoredEventAbs>, sid: int)
    requires
        forall|i: int| 0 <= i < rows.len() ==> (#[trigger] rows[i]).session_id != sid,
    ensures
        rows_for(rows, sid) == Seq::<StoredEventAbs>::empty(),
    decreases rows.len(),
{
    if rows.len() > 0 {
        lemma_rows_for_none(rows.drop_last(), sid);
        assert(rows_for(rows, sid) =~= Seq::<StoredEventAbs>::empty());
    }
}

/// `session_index` sees only ids, so an update that keeps the id keeps
/// every lookup.
proof fn lemma_session_index_same_ids(a: Seq<SessionRowAbs>, b: Seq<SessionRowAbs>, sid: int)
    requires
        a.len() == b.len(),
        forall|i: int| 0 <= i < a.len() ==> (#[trigger] a[i]).id == (#[trigger] b[i]).id,
    ensures
        session_index(a, sid) == session_index(b, sid),
    decreases a.len(),
{
    if a.len() > 0 && a[0].id != sid {
        lemma_session_index_same_ids(a.drop_first(), b.drop_first(), sid);
        assert(forall|i: int| 0 <= i < a.len() - 1 ==> a.drop_first()[i] == a[i + 1]);
        assert(forall|i: int| 0 <= i < b.len() - 1 ==> b.drop_first()[i] == b[i + 1]);
    }
}

/// Committing a batch preserves every store invariant.
proof fn lemma_save_events_wf(
    sold: StoreAbs,
    snew: StoreAbs,
    babs: Seq<EventRecordAbs>,
    sid: int,
    sidx: int,
    first_id: int,
)
    requires
        store_wf(sold),
        0 <= sidx < sold.sessions.len(),
        sold.sessions[sidx].id == sid,
        first_id == sold.next_event_id,
        first_id + babs.len() <= i64::MAX,
        forall|i: int| 0 <= i < babs.len() ==> wf_action(#[trigger] babs[i].action),
        forall|i: int| 0 <= i < babs.len() ==> (#[trigger] babs[i]).timestamp_ms >= 0,
        snew.events == sold.events + batch_rows(babs, sid, first_id),
        snew.sessions == sold.sessions.update(
            sidx,
            SessionRowAbs {
                event_count: sold.sessions[sidx].event_count + babs.len(),
                time_cost_ms: if batch_max_ts(babs) > sold.sessions[sidx].time_cost_ms {
                    batch_max_ts(babs)
                } else {
                    sold.sessions[sidx].time_cost_ms
                },
                ..sold.sessions[sidx]
            },
        ),
        snew.next_event_id == first_id + babs.len(),
        snew.next_session_id == sold.next_session_id,
    ensures
        store_wf(snew),
{
    let newrows = batch_rows(babs, sid, first_id);
    lemma_batch_max_ts(babs);
    assert(forall|i: int| 0 <= i < newrows.len() ==> (#[trigger] newrows[i]).session_id == sid);
    assert forall|x: int|
        session_index(snew.sessions, x) == session_index(sold.sessions, x) by {
        lemma_session_index_same_ids(snew.sessions, sold.sessions, x);
    }
    assert forall|i: int|
        0 <= i < snew.events.len() implies session_index(
        snew.sessions,
        (#[trigger] snew.events[i]).session_id,
    ) >= 0 by {
        if i < sold.events.len() {
            assert(snew.events[i] == sold.events[i]);
        } else {
            lemma_session_index(sold.sessions, sid);
            lemma_session_index_prefix_exists(sold.sessions, sid, sidx);
        }
    }
    assert forall|i: int|
        0 <= i < snew.events.len() implies exists|b: ActionAbs|
        wf_action(b) && (#[trigger] snew.events[i]).action_data == spec_encode(b) by {
        if i < sold.events.len() {
            assert(snew.events[i] == sold.events[i]);
        } else {
            let b = babs[i - sold.events.len()].action;
            assert(wf_action(b) && snew.events[i].action_data == spec_encode(b));
        }
    }
    assert forall|i: int|
        0 <= i < snew.sessions.len() implies (#[trigger] snew.sessions[i]).event_count
        == rows_for(snew.events, snew.sessions[i].id).len() by {
        lemma_rows_for_append(sold.events, newrows, snew.sessions[i].id);
        if i == sidx {
            lemma_rows_for_all(newrows, sid);
        } else {
            assert(snew.sessions[i] == sold.sessions[i]);
            assert(sold.sessions[i].id != sid);
            assert(forall|j: int| 0 <= j < newrows.len() ==> (#[trigger] newrows[j]).session_id
                != sold.sessions[i].id);
            lemma_rows_for_none(newrows, sold.sessions[i].id);
        }
    }
    assert forall|i: int, j: int|
        0 <= i < snew.sessions.len() && 0 <= j < snew.events.len() && snew.events[j].session_id
            == snew.sessions[i].id implies (#[trigger] snew.events[j]).timestamp_ms <= (
    #[trigger] snew.sessions[i]).time_cost_ms by {
        if j < sold.events.len() {
            assert(snew.events[j] == sold.events[j]);
            if i != sidx {
                assert(snew.sessions[i] == sold.sessions[i]);
            }
        } else {
            assert(snew.events[j].session_id == sid);
            assert(i == sidx) by {
                if i != sidx {
                    assert(snew.sessions[i] == sold.sessions[i]);
                    assert(sold.sessions[i].id != sid);
                }
            }
            assert(snew.events[j].timestamp_ms == babs[j - sold.events.len()].timestamp_ms);
        }
    }
}

/// A position holding the id witnesses that `session_index` finds it.
proof fn lemma_session_index_prefix_exists(rows: Seq<SessionRowAbs>, sid: int, i: int)
    requires
        0 <= i < rows.len(),
        rows[i].id == sid,
    ensures
        session_index(rows, sid) >= 0,
    decreases i,
{
    if rows[0].id != sid {
        lemma_session_index_prefix_exists(rows.drop_first(), sid, i - 1);
    }
}

/// What loading a session's rows hands back: one record per row in order,
/// ids filled in, and each action the one whose storage text the row holds.
pub open spec fn loaded_records(rows: Seq<StoredEventAbs>, out: Seq<EventRecord>, sid: int) -> bool {
    &&& out.len() == rows.len()
    &&& forall|i: int|
        0 <= i < out.len() ==> {
            let e = (#[trigger] out[i])@;
            &&& e.id == Some(rows[i].id)
            &&& e.session_id == Some(sid)
            &&& e.timestamp_ms == rows[i].timestamp_ms
            &&& wf_action(e.action)
            &&& spec_encode(e.action) == rows[i].action_data
        }
}

impl Clone for SessionRow {
    /// A field-for-field copy.
    fn clone(&self) -> (r: SessionRow)
        ensures
            r@ == self@,
    {
        SessionRow {
            id: self.id,
            name: self.name.clone(),
            description: match &self.description {
                Some(d) => Some(d.clone()),
                None => None,
            },
            created_at: self.created_at.clone(),
            event_count: self.event_count,
            time_cost_ms: self.time_cost_ms,
        }
    }
}

/// One session's rows taken out, every other row kept in order.
pub open spec fn rows_excluding(rows: Seq<StoredEventAbs>, sid: int) -> Seq<StoredEventAbs>
    decreases rows.len(),
{
    if rows.len() == 0 {
        Seq::empty()
    } else if rows.last().session_id != sid {
        rows_excluding(rows.drop_last(), sid).push(rows.last())
    } else {
        rows_excluding(rows.drop_last(), sid)
    }
}

/// Taking one session's rows out leaves every other session's rows as
/// they were.
pub proof fn lemma_rows_excluding_for(rows: Seq<StoredEventAbs>, sid: int, other: int)
    requires
        other != sid,
    ensures
        rows_for(rows_excluding(rows, sid), other) == rows_for(rows, other),
    decreases rows.len(),
{
    if rows.len() > 0 {
        lemma_rows_excluding_for(rows.drop_last(), sid, other);
        if rows.last().session_id != sid {
            assert(rows_excluding(rows, sid).drop_last() =~= rows_excluding(
                rows.drop_last(),
                sid,
            ));
        }
    }
}

/// Every kept row stood in the original table, and none carries the
/// deleted session's id.
pub proof fn lemma_rows_excluding_props(rows: Seq<StoredEventAbs>, sid: int)
    ensures
        forall|i: int|
            0 <= i < rows_excluding(rows, sid).len() ==> (#[trigger] rows_excluding(rows, sid)[
                i
            ]).session_id != sid,
        forall|i: int|
            0 <= i < rows_excluding(rows, sid).len() ==> exists|j: int|
                0 <= j < rows.len() && #[trigger] rows_excluding(rows, sid)[i] == #[trigger] rows[j],
    decreases rows.len(),
{
    if rows.len() > 0 {
        lemma_rows_excluding_props(rows.drop_last(), sid);
        assert(forall|j: int| 0 <= j < rows.len() - 1 ==> rows.drop_last()[j] == rows[j]);
        assert forall|i: int|
            0 <= i < rows_excluding(rows, sid).len() implies exists|j: int|
            0 <= j < rows.len() && #[trigger] rows_excluding(rows, sid)[i] == #[trigger] rows[j] by {
            if rows.last().session_id != sid && i == rows_excluding(rows, sid).len() - 1 {
                assert(rows_excluding(rows, sid)[i] == rows[rows.len() - 1]);
            } else {
                assert(rows_excluding(rows, sid)[i] == rows_excluding(rows.drop_last(), sid)[i]);
            }
        }
    }
}

/// A session that another id still finds is found after one row is
/// removed.
proof fn lemma_session_index_remove(rows: Seq<SessionRowAbs>, sidx: int, x: int)
    requires
        0 <= sidx < rows.len(),
        x != rows[sidx].id,
        session_index(rows, x) >= 0,
    ensures
        session_index(rows.remove(sidx), x) >= 0,
{
    lemma_session_index(rows, x);
    let k = session_index(rows, x);
    assert(rows[k].id == x);
    assert(k != sidx);
    if k < sidx {
        assert(rows.remove(sidx)[k] == rows[k]);
        lemma_session_index_prefix_exists(rows.remove(sidx), x, k);
    } else {
        assert(rows.remove(sidx)[k - 1] == rows[k]);
        lemma_session_index_prefix_exists(rows.remove(sidx), x, k - 1);
    }
}

/// Deleting a session with its rows preserves every store invariant.
proof fn lemma_delete_session_wf(sold: StoreAbs, snew: StoreAbs, sid: int, sidx: int)
    requires
        store_wf(sold),
        0 <= sidx < sold.sessions.len(),
        sold.sessions[sidx].id == sid,
        snew.sessions == sold.sessions.remove(sidx),
        snew.events == rows_excluding(sold.events, sid),
        snew.next_session_id == sold.next_session_id,
        snew.next_event_id == sold.next_event_id,
    ensures
        store_wf(snew),
{
    lemma_rows_excluding_props(sold.events, sid);
    assert(forall|i: int|
        0 <= i < snew.sessions.len() ==> #[trigger] snew.sessions[i] == if i < sidx {
            sold.sessions[i]
        } else {
            sold.sessions[i + 1]
        });
    assert forall|i: int|
        0 <= i < snew.events.len() implies session_index(
        snew.sessions,
        (#[trigger] snew.events[i]).session_id,
    ) >= 0 by {
        let j = choose|j: int| 0 <= j < sold.events.len() && snew.events[i] == sold.events[j];
        assert(session_index(sold.sessions, sold.events[j].session_id) >= 0);
        lemma_session_index_remove(sold.sessions, sidx, snew.events[i].session_id);
    }
    assert forall|i: int|
        0 <= i < snew.events.len() implies 1 <= (#[trigger] snew.events[i]).id
        < snew.next_event_id by {
        let j = choose|j: int| 0 <= j < sold.events.len() && snew.events[i] == sold.events[j];
    }
    assert forall|i: int|
        0 <= i < snew.events.len() implies exists|b: ActionAbs|
        wf_action(b) && (#[trigger] snew.events[i]).action_data == spec_encode(b) by {
        let j = choose|j: int| 0 <= j < sold.events.len() && snew.events[i] == sold.events[j];
        assert(exists|b: ActionAbs|
            wf_action(b) && (#[trigger] sold.events[j]).action_data == spec_encode(b));
    }
    assert forall|i: int|
        0 <= i < snew.sessions.len() implies (#[trigger] snew.sessions[i]).event_count
        == rows_for(snew.events, snew.sessions[i].id).len() by {
        assert(snew.sessions[i].id != sid);
        lemma_rows_excluding_for(sold.events, sid, snew.sessions[i].id);
    }
    assert forall|i: int, j: int|
        0 <= i < snew.sessions.len() && 0 <= j < snew.events.len() && snew.events[j].session_id
            == snew.sessions[i].id implies (#[trigger] snew.events[j]).timestamp_ms <= (
    #[trigger] snew.sessions[i]).time_cost_ms by {
        let j2 = choose|j2: int| 0 <= j2 < sold.events.len() && snew.events[j] == sold.events[j2];
        let i2: int = if i < sidx {
            i
        } else {
            i + 1
        };
        assert(snew.sessions[i] == sold.sessions[i2]);
    }
}

impl Clone for StoredEvent {
    /// A field-for-field copy.
    fn clone(&self) -> (r: StoredEvent)
        ensures
            r@ == self@,
    {
        StoredEvent {
            id: self.id,
            session_id: self.session_id,
            timestamp_ms: self.timestamp_ms,
            action_type: self.action_type.clone(),
            action_data: self.action_data.clone(),
        }
    }
}

/// Round trip: a batch of well-formed actions with non-decreasing
/// timestamps, committed into a session that holds no rows yet, is loaded
/// back as the identical ordered sequence — same variants, same fields,
/// same timestamps.
pub proof fn lemma_save_load_round_trip(
    sold: StoreAbs,
    snew: StoreAbs,
    babs: Seq<EventRecordAbs>,
    sid: int,
    first_id: int,
    out: Seq<EventRecord>,
)
    requires
        rows_for(sold.events, sid).len() == 0,
        forall|i: int| 0 <= i < babs.len() ==> wf_action(#[trigger] babs[i].action),
        forall|i: int, j: int|
            0 <= i <= j < babs.len() ==> (#[trigger] babs[i]).timestamp_ms <= (
            #[trigger] babs[j]).timestamp_ms,
        snew.events == sold.events + batch_rows(babs, sid, first_id),
        loaded_records(sort_rows(rows_for(snew.events, sid)), out, sid),
    ensures
        out.len() == babs.len(),
        forall|i: int|
            0 <= i < out.len() ==> (#[trigger] out[i])@.action == babs[i].action && out[
                i
            ]@.timestamp_ms == babs[i].timestamp_ms,
{
    let newrows = batch_rows(babs, sid, first_id);
    assert(forall|i: int| 0 <= i < newrows.len() ==> (#[trigger] newrows[i]).session_id == sid);
    lemma_rows_for_append(sold.events, newrows, sid);
    lemma_rows_for_all(newrows, sid);
    assert(rows_for(sold.events, sid) =~= Seq::<StoredEventAbs>::empty());
    assert(rows_for(snew.events, sid) =~= newrows);
    // the batch's timestamps never fall, so timestamp order is commit order
    assert(sorted_by_ts(newrows));
    lemma_sort_rows_of_sorted(newrows);
    assert(sort_rows(rows_for(snew.events, sid)) == newrows);
    assert forall|i: int|
        0 <= i < out.len() implies (#[trigger] out[i])@.action == babs[i].action && out[
        i
    ]@.timestamp_ms == babs[i].timestamp_ms by {
        assert(spec_encode(out[i]@.action) == newrows[i].action_data);
        assert(newrows[i].action_data == spec_encode(babs[i].action));
        crate::codec::lemma_encode_injective(out[i]@.action, babs[i].action);
    }
}

/// The high-water mark: a committed batch never lowers a session's
/// `time_cost_ms`, and lifts it at least to the batch's highest timestamp.
pub proof fn lemma_time_cost_high_water(prior: int, babs: Seq<EventRecordAbs>)
    ensures
        ({
            let new_tc = if batch_max_ts(babs) > prior {
                batch_max_ts(babs)
            } else {
                prior
            };
            &&& new_tc >= prior
            &&& new_tc >= batch_max_ts(babs)
            &&& forall|i: int|
                0 <= i < babs.len() ==> (#[trigger] babs[i]).timestamp_ms <= new_tc
        }),
{
    lemma_batch_max_ts(babs);
}

/// Rows in timestamp order, earliest first (ties in any interior order).
pub open spec fn sorted_by_ts(rows: Seq<StoredEventAbs>) -> bool {
    forall|i: int, j: int|
        0 <= i <= j < rows.len() ==> (#[trigger] rows[i]).timestamp_ms <= (
        #[trigger] rows[j]).timestamp_ms
}

/// Inserts a row into a timestamp-ordered sequence, behind every row with
/// an equal or earlier timestamp — the stable position.
pub open spec fn insert_row(sorted: Seq<StoredEventAbs>, x: StoredEventAbs) -> Seq<StoredEventAbs>
    decreases sorted.len(),
{
    if sorted.len() == 0 {
        seq![x]
    } else if sorted.last().timestamp_ms <= x.timestamp_ms {
        sorted.push(x)
    } else {
        insert_row(sorted.drop_last(), x).push(sorted.last())
    }
}

/// The rows stable-sorted by timestamp: commit order kept among equal
/// timestamps.
pub open spec fn sort_rows(rows: Seq<StoredEventAbs>) -> Seq<StoredEventAbs>
    decreases rows.len(),
{
    if rows.len() == 0 {
        Seq::empty()
    } else {
        insert_row(sort_rows(rows.drop_last()), rows.last())
    }
}

pub proof fn lemma_insert_row_len(sorted: Seq<StoredEventAbs>, x: StoredEventAbs)
    ensures
        insert_row(sorted, x).len() == sorted.len() + 1,
    decreases sorted.len(),
{
    if sorted.len() > 0 && sorted.last().timestamp_ms > x.timestamp_ms {
        lemma_insert_row_len(sorted.drop_last(), x);
    }
}

/// Sorting neither adds nor loses rows.
pub proof fn lemma_sort_rows_len(rows: Seq<StoredEventAbs>)
    ensures
        sort_rows(rows).len() == rows.len(),
    decreases rows.len(),
{
    if rows.len() > 0 {
        lemma_sort_rows_len(rows.drop_last());
        lemma_insert_row_len(sort_rows(rows.drop_last()), rows.last());
    }
}

proof fn lemma_insert_row_sorted(sorted: Seq<StoredEventAbs>, x: StoredEventAbs)
    requires
        sorted_by_ts(sorted),
    ensures
        sorted_by_ts(insert_row(sorted, x)),
        forall|i: int| 0 <= i < insert_row(sorted, x).len() ==> (#[trigger] insert_row(sorted, x)[
            i
        ]).timestamp_ms <= (if sorted.len() == 0 || sorted.last().timestamp_ms <= x.timestamp_ms {
            x.timestamp_ms
        } else {
            sorted.last().timestamp_ms
        }),
    decreases sorted.len(),
{
    lemma_insert_row_len(sorted, x);
    if sorted.len() == 0 {
    } else if sorted.last().timestamp_ms <= x.timestamp_ms {
    } else {
        assert(sorted_by_ts(sorted.drop_last())) by {
            assert(forall|i: int| 0 <= i < sorted.len() - 1 ==> sorted.drop_last()[i]
                == sorted[i]);
        }
        lemma_insert_row_sorted(sorted.drop_last(), x);
        let inner = insert_row(sorted.drop_last(), x);
        assert(forall|i: int| 0 <= i < inner.len() ==> insert_row(sorted, x)[i] == inner[i]);
        assert(insert_row(sorted, x).last() == sorted.last());
    }
}

/// The sorted rows are in timestamp order.
pub proof fn lemma_sort_rows_sorted(rows: Seq<StoredEventAbs>)
    ensures
        sorted_by_ts(sort_rows(rows)),
    decreases rows.len(),
{
    if rows.len() > 0 {
        lemma_sort_rows_sorted(rows.drop_last());
        lemma_insert_row_sorted(sort_rows(rows.drop_last()), rows.last());
    }
}

/// Rows already in timestamp order sort to themselves: on a monotone run,
/// timestamp order is commit order.
pub proof fn lemma_sort_rows_of_sorted(rows: Seq<StoredEventAbs>)
    requires
        sorted_by_ts(rows),
    ensures
        sort_rows(rows) == rows,
    decreases rows.len(),
{
    if rows.len() > 0 {
        assert(sorted_by_ts(rows.drop_last())) by {
            assert(forall|i: int| 0 <= i < rows.len() - 1 ==> rows.drop_last()[i] == rows[i]);
        }
        lemma_sort_rows_of_sorted(rows.drop_last());
        if rows.len() == 1 {
            assert(sort_rows(rows) =~= rows);
        } else {
            assert(rows.drop_last().last().timestamp_ms <= rows.last().timestamp_ms);
            assert(sort_rows(rows) =~= rows);
        }
    }
}

/// A row at the stable boundary goes exactly there.
proof fn lemma_insert_row_at(sorted: Seq<StoredEventAbs>, x: StoredEventAbs, p: int)
    requires
        sorted_by_ts(sorted),
        0 <= p <= sorted.len(),
        forall|i: int| 0 <= i < p ==> (#[trigger] sorted[i]).timestamp_ms <= x.timestamp_ms,
        p == sorted.len() || sorted[p].timestamp_ms > x.timestamp_ms,
    ensures
        insert_row(sorted, x) == sorted.subrange(0, p) + seq![x] + sorted.subrange(
            p,
            sorted.len() as int,
        ),
    decreases sorted.len(),
{
    if sorted.len() == 0 {
        assert(insert_row(sorted, x) =~= sorted.subrange(0, p) + seq![x] + sorted.subrange(
            p,
            sorted.len() as int,
        ));
    } else if sorted.last().timestamp_ms <= x.timestamp_ms {
        assert(p == sorted.len()) by {
            if p < sorted.len() {
                assert(sorted[p].timestamp_ms <= sorted.last().timestamp_ms);
            }
        }
        assert(insert_row(sorted, x) =~= sorted.subrange(0, p) + seq![x] + sorted.subrange(
            p,
            sorted.len() as int,
        ));
    } else {
        assert(p < sorted.len()) by {
            if p == sorted.len() {
                assert(sorted[p - 1].timestamp_ms <= x.timestamp_ms);
            }
        }
        let shorter = sorted.drop_last();
        assert(sorted_by_ts(shorter)) by {
            assert(forall|i: int| 0 <= i < shorter.len() ==> shorter[i] == sorted[i]);
        }
        assert(forall|i: int| 0 <= i < p ==> (#[trigger] shorter[i]).timestamp_ms
            <= x.timestamp_ms);
        assert(p == shorter.len() || shorter[p].timestamp_ms > x.timestamp_ms);
        lemma_insert_row_at(shorter, x, p);
        assert(insert_row(sorted, x) =~= sorted.subrange(0, p) + seq![x] + sorted.subrange(
            p,
            sorted.len() as int,
        ));
    }
}

/// Every row a session's commit-order log holds stood in the table.
pub proof fn lemma_rows_for_props(rows: Seq<StoredEventAbs>, sid: int)
    ensures
        forall|i: int|
            0 <= i < rows_for(rows, sid).len() ==> (#[trigger] rows_for(rows, sid)[
                i
            ]).session_id == sid,
        forall|i: int|
            0 <= i < rows_for(rows, sid).len() ==> exists|j: int|
                0 <= j < rows.len() && #[trigger] rows_for(rows, sid)[i] == #[trigger] rows[j],
    decreases rows.len(),
{
    if rows.len() > 0 {
        lemma_rows_for_props(rows.drop_last(), sid);
        assert(forall|j: int| 0 <= j < rows.len() - 1 ==> rows.drop_last()[j] == rows[j]);
        assert forall|i: int|
            0 <= i < rows_for(rows, sid).len() implies exists|j: int|
            0 <= j < rows.len() && #[trigger] rows_for(rows, sid)[i] == #[trigger] rows[j] by {
            if rows.last().session_id == sid && i == rows_for(rows, sid).len() - 1 {
                assert(rows_for(rows, sid)[i] == rows[rows.len() - 1]);
            } else {
                assert(rows_for(rows, sid)[i] == rows_for(rows.drop_last(), sid)[i]);
            }
        }
    }
}

proof fn lemma_insert_row_props(sorted: Seq<StoredEventAbs>, x: StoredEventAbs)
    ensures
        forall|i: int|
            0 <= i < insert_row(sorted, x).len() ==> #[trigger] insert_row(sorted, x)[i] == x
                || exists|j: int| 0 <= j < sorted.len() && insert_row(sorted, x)[i] == #[trigger] sorted[j],
    decreases sorted.len(),
{
    lemma_insert_row_len(sorted, x);
    if sorted.len() > 0 && sorted.last().timestamp_ms > x.timestamp_ms {
        lemma_insert_row_props(sorted.drop_last(), x);
        let inner = insert_row(sorted.drop_last(), x);
        assert(forall|j: int| 0 <= j < sorted.len() - 1 ==> sorted.drop_last()[j] == sorted[j]);
        assert forall|i: int|
            0 <= i < insert_row(sorted, x).len() implies #[trigger] insert_row(sorted, x)[i] == x
            || exists|j: int| 0 <= j < sorted.len() && insert_row(sorted, x)[i] == #[trigger] sorted[j] by {
            if i < inner.len() {
                assert(insert_row(sorted, x)[i] == inner[i]);
            } else {
                assert(insert_row(sorted, x)[i] == sorted[sorted.len() - 1]);
            }
        }
    }
}

/// Every sorted row stood among the rows sorted.
pub proof fn lemma_sort_rows_props(rows: Seq<StoredEventAbs>)
    ensures
        forall|i: int|
            0 <= i < sort_rows(rows).len() ==> exists|j: int|
                0 <= j < rows.len() && #[trigger] sort_rows(rows)[i] == #[trigger] rows[j],
    decreases rows.len(),
{
    if rows.len() > 0 {
        lemma_sort_rows_props(rows.drop_last());
        lemma_insert_row_props(sort_rows(rows.drop_last()), rows.last());
        assert(forall|j: int| 0 <= j < rows.len() - 1 ==> rows.drop_last()[j] == rows[j]);
        assert forall|i: int|
            0 <= i < sort_rows(rows).len() implies exists|j: int|
            0 <= j < rows.len() && #[trigger] sort_rows(rows)[i] == #[trigger] rows[j] by {
            let prev = sort_rows(rows.drop_last());
            if sort_rows(rows)[i] == rows.last() {
                assert(sort_rows(rows)[i] == rows[rows.len() - 1]);
            } else {
                let j0 = choose|j0: int| 0 <= j0 < prev.len() && sort_rows(rows)[i] == prev[j0];
                assert(exists|j: int| 0 <= j < rows.drop_last().len() && prev[j0]
                    == rows.drop_last()[j]);
            }
        }
    }
}

} // verus!
