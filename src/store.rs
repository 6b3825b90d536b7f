use vstd::prelude::*;
use vstd::seq_lib::{to_multiset_build, to_multiset_insert};
use crate::analytics::{all_ordered, is_ordered, newest_first};
use crate::errors::FastingAppError;
use crate::models::{FastingEvent, NewFastingEvent};
use crate::session::is_open_for;
use crate::time::Timestamp;

verus! {

/// At most one open event per user.
pub open spec fn single_open(s: Seq<FastingEvent>) -> bool {
    forall|i: int, j: int|
        0 <= i < s.len() && 0 <= j < s.len() && i != j && s[i].stop_time is None && s[j].stop_time
            is None ==> #[trigger] s[i].user_id != #[trigger] s[j].user_id
}

/// Identifiers are distinct and lie in `[1, next_id)`.
pub open spec fn ids_valid(s: Seq<FastingEvent>, next_id: int) -> bool {
    &&& forall|i: int| 0 <= i < s.len() ==> 1 <= #[trigger] s[i].id < next_id
    &&& forall|i: int, j: int|
        0 <= i < s.len() && 0 <= j < s.len() && i != j ==> #[trigger] s[i].id != #[trigger] s[j].id
}

/// What the store always keeps: valid identifiers, no completed fast that
/// ends before it starts, and at most one open fast per user.
pub open spec fn log_invariant(s: Seq<FastingEvent>, next_id: int) -> bool {
    &&& 1 <= next_id <= i32::MAX
    &&& ids_valid(s, next_id)
    &&& all_ordered(s)
    &&& single_open(s)
}

/// The user has an open fast in `s`.
pub open spec fn has_open(s: Seq<FastingEvent>, user_id: i32) -> bool {
    exists|i: int| 0 <= i < s.len() && is_open_for(#[trigger] s[i], user_id)
}

/// The position of an open fast of the user (the only one, under `single_open`).
pub open spec fn open_index(s: Seq<FastingEvent>, user_id: i32) -> int {
    choose|i: int| 0 <= i < s.len() && is_open_for(#[trigger] s[i], user_id)
}

/// The user's open fast, if any.
pub open spec fn open_event(s: Seq<FastingEvent>, user_id: i32) -> Option<FastingEvent> {
    if has_open(s, user_id) {
        Some(s[open_index(s, user_id)])
    } else {
        None
    }
}

/// Some event of `s` has identifier `id`.
pub open spec fn has_id(s: Seq<FastingEvent>, id: i32) -> bool {
    exists|i: int| 0 <= i < s.len() && #[trigger] s[i].id == id
}

/// The position of the event with identifier `id`.
pub open spec fn id_index(s: Seq<FastingEvent>, id: i32) -> int {
    choose|i: int| 0 <= i < s.len() && #[trigger] s[i].id == id
}

/// The store after an insert of `event` with `next_id` as the next free
/// identifier: the new contents, the next free identifier, and the result.
pub open spec fn inserted(s: Seq<FastingEvent>, next_id: int, event: NewFastingEvent) -> (
    Seq<FastingEvent>,
    int,
    Result<i32, FastingAppError>,
) {
    if event.stop_time is None && has_open(s, event.user_id) {
        (s, next_id, Err(FastingAppError::ExistingSessionError(event.user_id)))
    } else if event.stop_time is Some && event.stop_time.unwrap().seconds < event.start_time.seconds {
        (s, next_id, Err(FastingAppError::InvalidTimestamp))
    } else if next_id >= i32::MAX {
        (s, next_id, Err(FastingAppError::CapacityExceeded))
    } else {
        (s.push(event.with_id(next_id as i32)), next_id + 1, Ok(next_id as i32))
    }
}

/// The store after setting the stop time of event `id`: the new contents and the result.
pub open spec fn stop_time_updated(s: Seq<FastingEvent>, id: i32, stop_time: Timestamp) -> (
    Seq<FastingEvent>,
    Result<(), FastingAppError>,
) {
    if !has_id(s, id) {
        (s, Err(FastingAppError::NotFound))
    } else {
        let e = s[id_index(s, id)];
        if e.stop_time is Some {
            (s, Err(FastingAppError::NoActiveSession(e.user_id)))
        } else if stop_time.seconds < e.start_time.seconds {
            (s, Err(FastingAppError::InvalidTimestamp))
        } else {
            (s.update(id_index(s, id), FastingEvent { stop_time: Some(stop_time), ..e }), Ok(()))
        }
    }
}

/// The store after setting the goal of event `id`: the new contents and the result.
pub open spec fn goal_updated(s: Seq<FastingEvent>, id: i32, goal_id: Option<i32>) -> (
    Seq<FastingEvent>,
    Result<(), FastingAppError>,
) {
    if !has_id(s, id) {
        (s, Err(FastingAppError::NotFound))
    } else {
        let e = s[id_index(s, id)];
        (s.update(id_index(s, id), FastingEvent { goal_id, ..e }), Ok(()))
    }
}

/// Under `single_open`, the open fast of a user sits at one position only.
pub proof fn lemma_open_index_unique(s: Seq<FastingEvent>, user_id: i32, i: int)
    requires
        single_open(s),
        0 <= i < s.len(),
        is_open_for(s[i], user_id),
    ensures
        has_open(s, user_id),
        open_index(s, user_id) == i,
{
    assert(is_open_for(s[i], user_id));
    let k = open_index(s, user_id);
    if k != i {
        assert(s[k].user_id != s[i].user_id);
    }
}

/// With distinct identifiers, the event with a given identifier sits at one position only.
pub proof fn lemma_id_index_unique(s: Seq<FastingEvent>, next_id: int, i: int)
    requires
        ids_valid(s, next_id),
        0 <= i < s.len(),
    ensures
        has_id(s, s[i].id),
        id_index(s, s[i].id) == i,
{
    assert(s[i].id == s[i].id);
    let k = id_index(s, s[i].id);
    if k != i {
        assert(s[k].id != s[i].id);
    }
}

/// The user's events, in the order of `s`.
pub open spec fn events_of(s: Seq<FastingEvent>, user_id: i32) -> Seq<FastingEvent>
    decreases s.len(),
{
    if s.len() == 0 {
        s
    } else if s.last().user_id == user_id {
        events_of(s.drop_last(), user_id).push(s.last())
    } else {
        events_of(s.drop_last(), user_id)
    }
}

/// `events_of` keeps exactly the user's events of `s`, and keeps them ordered.
pub proof fn lemma_events_of(s: Seq<FastingEvent>, user_id: i32)
    ensures
        forall|x: FastingEvent| #[trigger]
            events_of(s, user_id).contains(x) <==> (s.contains(x) && x.user_id == user_id),
        all_ordered(s) ==> all_ordered(events_of(s, user_id)),
    decreases s.len(),
{
    if s.len() > 0 {
        let t = s.drop_last();
        lemma_events_of(t, user_id);
        let f = events_of(s, user_id);
        let g = events_of(t, user_id);
        assert forall|x: FastingEvent| #[trigger]
            f.contains(x) <==> (s.contains(x) && x.user_id == user_id) by {
            if f.contains(x) {
                let k = choose|k: int| 0 <= k < f.len() && f[k] == x;
                if k < g.len() {
                    assert(g[k] == x);
                    assert(g.contains(x));
                    let m = choose|m: int| 0 <= m < t.len() && t[m] == x;
                    assert(s[m] == x);
                } else {
                    assert(x == s.last());
                    assert(s[s.len() - 1] == x);
                }
            }
            if s.contains(x) && x.user_id == user_id {
                let m = choose|m: int| 0 <= m < s.len() && s[m] == x;
                if m < t.len() {
                    assert(t[m] == x);
                    assert(g.contains(x));
                    let k = choose|k: int| 0 <= k < g.len() && g[k] == x;
                    assert(f[k] == x);
                } else {
                    assert(f[f.len() - 1] == x);
                }
            }
        }
        if all_ordered(s) {
            assert(all_ordered(t)) by {
                assert forall|k: int| 0 <= k < t.len() implies is_ordered(#[trigger] t[k]) by {
                    assert(t[k] == s[k]);
                }
            }
            assert forall|k: int| 0 <= k < f.len() implies is_ordered(#[trigger] f[k]) by {
                if k < g.len() {
                    assert(f[k] == g[k]);
                } else {
                    assert(f[k] == s[s.len() - 1]);
                }
            }
        }
    }
}

/// The events sorted by start time, the most recent first.
fn sort_newest_first(v: &Vec<FastingEvent>) -> (r: Vec<FastingEvent>)
    ensures
        newest_first(r@),
        r@.to_multiset() == v@.to_multiset(),
{
    let mut out: Vec<FastingEvent> = Vec::new();
    let mut i: usize = 0;
    assert(v@.subrange(0, 0) =~= out@);
    while i < v.len()
        invariant
            0 <= i <= v@.len(),
            newest_first(out@),
            out@.to_multiset() == v@.subrange(0, i as int).to_multiset(),
        decreases v@.len() - i,
    {
        let x = v[i];
        let mut p: usize = 0;
        while p < out.len() && out[p].start_time.seconds >= x.start_time.seconds
            invariant
                0 <= p <= out@.len(),
                forall|k: int| 0 <= k < p ==> #[trigger] out@[k].start_time.seconds >= x.start_time.seconds,
            decreases out@.len() - p,
        {
            p = p + 1;
        }
        let ghost before = out@;
        out.insert(p, x);
        proof {
            let after = out@;
            before.insert_ensures(p as int, x);
            assert forall|a: int, b: int| 0 <= a < b < after.len() implies #[trigger] after[b].start_time.seconds
                <= #[trigger] after[a].start_time.seconds by {
                if b < p {
                } else if b == p {
                } else if a < p {
                    assert(after[b] == before[b - 1]);
                    if p < before.len() {
                        assert(before[p as int].start_time.seconds < x.start_time.seconds);
                        if b - 1 > p {
                            assert(before[b - 1].start_time.seconds <= before[p as int].start_time.seconds);
                        }
                    }
                } else if a == p {
                    assert(after[b] == before[b - 1]);
                    assert(before[p as int].start_time.seconds < x.start_time.seconds);
                    if b - 1 > p {
                        assert(before[b - 1].start_time.seconds <= before[p as int].start_time.seconds);
                    }
                } else {
                    assert(after[b] == before[b - 1]);
                    assert(after[a] == before[a - 1]);
                }
            }
            to_multiset_insert(before, p as int, x);
            assert(v@.subrange(0, i as int + 1) =~= v@.subrange(0, i as int).push(x));
            to_multiset_build(v@.subrange(0, i as int), x);
        }
        i = i + 1;
    }
    assert(v@.subrange(0, v@.len() as int) =~= v@);
    out
}

/// An in-memory store of fasting events, in the order of insertion.
pub struct EventLog {
    events: Vec<FastingEvent>,
    next_id: i32,
}

impl View for EventLog {
    type V = Seq<FastingEvent>;

    closed spec fn view(&self) -> Seq<FastingEvent> {
        self.events@
    }
}

impl EventLog {
    /// The identifier that the next insert will hand out.
    pub closed spec fn next_id(&self) -> int {
        self.next_id as int
    }

    /// The store's invariant holds.
    pub open spec fn wf(&self) -> bool {
        log_invariant(self@, self.next_id())
    }

    /// An empty store; identifiers start at 1.
    pub fn new() -> (r: EventLog)
        ensures
            r.wf(),
            r@ == Seq::<FastingEvent>::empty(),
            r.next_id() == 1,
    {
        EventLog { events: Vec::new(), next_id: 1 }
    }

    /// Number of events held.
    pub fn len(&self) -> (r: usize)
        ensures
            r == self@.len(),
    {
        self.events.len()
    }

    /// All events, in the order of insertion.
    pub fn events(&self) -> (r: &[FastingEvent])
        ensures
            r@ == self@,
    {
        self.events.as_slice()
    }

    fn open_position(&self, user_id: i32) -> (r: Option<usize>)
        requires
            self.wf(),
        ensures
            match r {
                None => !has_open(self@, user_id),
                Some(i) => i < self@.len() && i == open_index(self@, user_id) && has_open(
                    self@,
                    user_id,
                ),
            },
    {
        let mut i: usize = 0;
        while i < self.events.len()
            invariant
                self.wf(),
                0 <= i <= self@.len(),
                self@ == self.events@,
                forall|k: int| 0 <= k < i ==> !is_open_for(#[trigger] self@[k], user_id),
            decreases self@.len() - i,
        {
            let e = self.events[i];
            if e.user_id == user_id && e.stop_time.is_none() {
                proof {
                    lemma_open_index_unique(self@, user_id, i as int);
                }
                return Some(i);
            }
            i = i + 1;
        }
        None
    }

    fn id_position(&self, id: i32) -> (r: Option<usize>)
        requires
            self.wf(),
        ensures
            match r {
                None => !has_id(self@, id),
                Some(i) => i < self@.len() && i == id_index(self@, id) && has_id(self@, id),
            },
    {
        let mut i: usize = 0;
        while i < self.events.len()
            invariant
                self.wf(),
                0 <= i <= self@.len(),
                self@ == self.events@,
                forall|k: int| 0 <= k < i ==> #[trigger] self@[k].id != id,
            decreases self@.len() - i,
        {
            if self.events[i].id == id {
                proof {
                    lemma_id_index_unique(self@, self.next_id(), i as int);
                }
                return Some(i);
            }
            i = i + 1;
        }
        None
    }


    /// The user's events, in the order of insertion.
    pub fn user_events(&self, user_id: i32) -> (r: Vec<FastingEvent>)
        ensures
            r@ == events_of(self@, user_id),
    {
        let mut out: Vec<FastingEvent> = Vec::new();
        let mut i: usize = 0;
        while i < self.events.len()
            invariant
                0 <= i <= self@.len(),
                self@ == self.events@,
                out@ == events_of(self@.subrange(0, i as int), user_id),
            decreases self@.len() - i,
        {
            let e = self.events[i];
            proof {
                assert(self@.subrange(0, i as int + 1).drop_last() =~= self@.subrange(0, i as int));
                assert(self@.subrange(0, i as int + 1).last() == e);
            }
            if e.user_id == user_id {
                out.push(e);
            }
            i = i + 1;
        }
        assert(self@.subrange(0, self@.len() as int) =~= self@);
        out
    }

    /// The user's events, the most recent start first.
    pub fn list_by_user(&self, user_id: i32) -> (r: Vec<FastingEvent>)
        ensures
            newest_first(r@),
            r@.to_multiset() == events_of(self@, user_id).to_multiset(),
    {
        let mine = self.user_events(user_id);
        sort_newest_first(&mine)
    }

    /// The user's open fast, if any.
    pub fn find_active(&self, user_id: i32) -> (r: Option<FastingEvent>)
        requires
            self.wf(),
        ensures
            r == open_event(self@, user_id),
    {
        match self.open_position(user_id) {
            Some(i) => Some(self.events[i]),
            None => None,
        }
    }

    /// Stores `event` under the next free identifier and returns that
    /// identifier. Refused, with nothing stored, when it is open and the user
    /// already has an open fast (`ExistingSessionError`), when it stops before
    /// it starts (`InvalidTimestamp`), or when no identifier is left
    /// (`CapacityExceeded`).
    pub fn insert(&mut self, event: NewFastingEvent) -> (r: Result<i32, FastingAppError>)
        requires
            old(self).wf(),
        ensures
            final(self).wf(),
            (final(self)@, final(self).next_id(), r) == inserted(old(self)@, old(self).next_id(), event),
    {
        if event.stop_time.is_none() {
            match self.open_position(event.user_id) {
                Some(_) => {
                    return Err(FastingAppError::ExistingSessionError(event.user_id));
                },
                None => {},
            }
        }
        match event.stop_time {
            Some(stop) => {
                if stop.seconds < event.start_time.seconds {
                    return Err(FastingAppError::InvalidTimestamp);
                }
            },
            None => {},
        }
        if self.next_id == i32::MAX {
            return Err(FastingAppError::CapacityExceeded);
        }
        let id = self.next_id;
        let stored = FastingEvent {
            id,
            user_id: event.user_id,
            start_time: event.start_time,
            stop_time: event.stop_time,
            created_at: event.created_at,
            goal_id: event.goal_id,
        };
        let ghost s = self@;
        self.events.push(stored);
        self.next_id = id + 1;
        proof {
            let t = self@;
            assert(t == s.push(stored));
            assert forall|i: int| 0 <= i < t.len() implies is_ordered(#[trigger] t[i]) by {
                if i < s.len() {
                    assert(t[i] == s[i]);
                }
            }
            assert forall|i: int, j: int|
                0 <= i < t.len() && 0 <= j < t.len() && i != j && t[i].stop_time is None
                    && t[j].stop_time is None implies #[trigger] t[i].user_id
                != #[trigger] t[j].user_id by {
                if i == s.len() {
                    assert(t[j] == s[j]);
                    assert(!is_open_for(s[j], event.user_id));
                } else if j == s.len() {
                    assert(t[i] == s[i]);
                    assert(!is_open_for(s[i], event.user_id));
                } else {
                    assert(t[i] == s[i] && t[j] == s[j]);
                }
            }
            assert forall|i: int| 0 <= i < t.len() implies 1 <= #[trigger] t[i].id < self.next_id() by {
                if i < s.len() {
                    assert(t[i] == s[i]);
                }
            }
            assert forall|i: int, j: int|
                0 <= i < t.len() && 0 <= j < t.len() && i != j implies #[trigger] t[i].id
                != #[trigger] t[j].id by {
                if i < s.len() {
                    assert(t[i] == s[i]);
                }
                if j < s.len() {
                    assert(t[j] == s[j]);
                }
            }
        }
        Ok(id)
    }

    /// Sets the stop time of the open event `event_id`. Refused, with nothing
    /// changed, when no event has that identifier (`NotFound`), when the event
    /// is already completed (`NoActiveSession`), or when `stop_time` precedes
    /// its start (`InvalidTimestamp`).
    pub fn update_stop_time(&mut self, event_id: i32, stop_time: Timestamp) -> (r: Result<
        (),
        FastingAppError,
    >)
        requires
            old(self).wf(),
        ensures
            final(self).wf(),
            final(self).next_id() == old(self).next_id(),
            (final(self)@, r) == stop_time_updated(old(self)@, event_id, stop_time),
    {
        let pos = self.id_position(event_id);
        match pos {
            None => Err(FastingAppError::NotFound),
            Some(i) => {
                let e = self.events[i];
                if e.stop_time.is_some() {
                    return Err(FastingAppError::NoActiveSession(e.user_id));
                }
                if stop_time.seconds < e.start_time.seconds {
                    return Err(FastingAppError::InvalidTimestamp);
                }
                let ghost s = self@;
                let updated = FastingEvent { stop_time: Some(stop_time), ..e };
                self.events.set(i, updated);
                proof {
                    let t = self@;
                    assert(t == s.update(i as int, updated));
                    assert forall|k: int| 0 <= k < t.len() implies is_ordered(#[trigger] t[k]) by {
                        if k != i {
                            assert(t[k] == s[k]);
                        }
                    }
                    assert forall|a: int, b: int|
                        0 <= a < t.len() && 0 <= b < t.len() && a != b && t[a].stop_time is None
                            && t[b].stop_time is None implies #[trigger] t[a].user_id
                        != #[trigger] t[b].user_id by {
                        assert(t[a] == s[a] && t[b] == s[b]);
                    }
                    assert forall|k: int| 0 <= k < t.len() implies 1 <= #[trigger] t[k].id
                        < self.next_id() by {
                        assert(t[k].id == s[k].id);
                    }
                    assert forall|a: int, b: int|
                        0 <= a < t.len() && 0 <= b < t.len() && a != b implies #[trigger] t[a].id
                        != #[trigger] t[b].id by {
                        assert(t[a].id == s[a].id && t[b].id == s[b].id);
                    }
                }
                Ok(())
            },
        }
    }

    /// Sets (or, with `None`, clears) the goal of event `event_id`; `NotFound`
    /// when no event has that identifier.
    pub fn update_goal(&mut self, event_id: i32, goal_id: Option<i32>) -> (r: Result<
        (),
        FastingAppError,
    >)
        requires
            old(self).wf(),
        ensures
            final(self).wf(),
            final(self).next_id() == old(self).next_id(),
            (final(self)@, r) == goal_updated(old(self)@, event_id, goal_id),
    {
        let pos = self.id_position(event_id);
        match pos {
            None => Err(FastingAppError::NotFound),
            Some(i) => {
                let e = self.events[i];
                let ghost s = self@;
                let updated = FastingEvent { goal_id, ..e };
                self.events.set(i, updated);
                proof {
                    let t = self@;
                    assert(t == s.update(i as int, updated));
                    assert forall|k: int| 0 <= k < t.len() implies is_ordered(#[trigger] t[k]) by {
                        if k != i {
                            assert(t[k] == s[k]);
                        } else {
                            assert(is_ordered(s[k]));
                        }
                    }
                    assert forall|a: int, b: int|
                        0 <= a < t.len() && 0 <= b < t.len() && a != b && t[a].stop_time is None
                            && t[b].stop_time is None implies #[trigger] t[a].user_id
                        != #[trigger] t[b].user_id by {
                        assert(t[a].stop_time == s[a].stop_time && t[a].user_id == s[a].user_id);
                        assert(t[b].stop_time == s[b].stop_time && t[b].user_id == s[b].user_id);
                    }
                    assert forall|k: int| 0 <= k < t.len() implies 1 <= #[trigger] t[k].id
                        < self.next_id() by {
                        assert(t[k].id == s[k].id);
                    }
                    assert forall|a: int, b: int|
                        0 <= a < t.len() && 0 <= b < t.len() && a != b implies #[trigger] t[a].id
                        != #[trigger] t[b].id by {
                        assert(t[a].id == s[a].id && t[b].id == s[b].id);
                    }
                }
                Ok(())
            },
        }
    }
}

} // verus!
