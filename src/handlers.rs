use vstd::prelude::*;
use vstd::seq_lib::to_multiset_contains;
use crate::analytics::{
    average_duration, checkpoint_thresholds, checkpoints_achieved, completed_count, current_streak,
    has_fast_on_day, newest_first, reaches_hours, strictly_increasing, total_duration, total_minutes,
    validate_events, weekly_summary, window_minutes,
};
use crate::errors::FastingAppError;
use crate::models::FastingEvent;
use crate::session::{is_open_for, plan_goal_update, plan_start, plan_stop};
use crate::store::{
    EventLog, events_of, has_open, lemma_events_of, lemma_id_index_unique, open_event, open_index,
};
use crate::time::{Timestamp, minutes_between};

verus! {

/// A start for `user_id` on store contents `s` with `next_id` free: the new
/// contents, the next free identifier, and the result.
pub open spec fn start_step(
    s: Seq<FastingEvent>,
    next_id: int,
    user_id: i32,
    start_time: Timestamp,
    goal_id: Option<i32>,
    now: Timestamp,
) -> (Seq<FastingEvent>, int, Result<i32, FastingAppError>) {
    if has_open(s, user_id) {
        (s, next_id, Err(FastingAppError::ExistingSessionError(user_id)))
    } else if next_id >= i32::MAX {
        (s, next_id, Err(FastingAppError::CapacityExceeded))
    } else {
        (
            s.push(
                FastingEvent {
                    id: next_id as i32,
                    user_id,
                    start_time,
                    stop_time: None,
                    created_at: Some(now),
                    goal_id,
                },
            ),
            next_id + 1,
            Ok(next_id as i32),
        )
    }
}

/// A stop for `user_id` on store contents `s`: the new contents and the result.
pub open spec fn stop_step(s: Seq<FastingEvent>, user_id: i32, stop_time: Timestamp) -> (
    Seq<FastingEvent>,
    Result<i32, FastingAppError>,
) {
    if !has_open(s, user_id) {
        (s, Err(FastingAppError::NoActiveSession(user_id)))
    } else {
        let i = open_index(s, user_id);
        let e = s[i];
        if stop_time.seconds < e.start_time.seconds {
            (s, Err(FastingAppError::InvalidTimestamp))
        } else {
            (s.update(i, FastingEvent { stop_time: Some(stop_time), ..e }), Ok(e.id))
        }
    }
}

/// A goal change for `user_id`'s open fast on store contents `s`: the new
/// contents and the result.
pub open spec fn goal_step(s: Seq<FastingEvent>, user_id: i32, goal_id: Option<i32>) -> (
    Seq<FastingEvent>,
    Result<(), FastingAppError>,
) {
    if !has_open(s, user_id) {
        (s, Err(FastingAppError::NoActiveSession(user_id)))
    } else {
        let i = open_index(s, user_id);
        (s.update(i, FastingEvent { goal_id, ..s[i] }), Ok(()))
    }
}

/// Starts a fast for `user_id` at `event_start_time`, linked to `goal_id` if
/// given, and returns the new event's identifier. Refused with
/// `ExistingSessionError` while the user has an open fast.
pub fn start_fasting(
    log: &mut EventLog,
    user_id: i32,
    event_start_time: Timestamp,
    goal_id: Option<i32>,
    now: Timestamp,
) -> (r: Result<i32, FastingAppError>)
    requires
        old(log).wf(),
    ensures
        final(log).wf(),
        (final(log)@, final(log).next_id(), r) == start_step(
            old(log)@,
            old(log).next_id(),
            user_id,
            event_start_time,
            goal_id,
            now,
        ),
{
    let active = log.find_active(user_id);
    let new_event = match plan_start(active, user_id, event_start_time, goal_id, now) {
        Ok(e) => e,
        Err(e) => {
            return Err(e);
        },
    };
    log.insert(new_event)
}

/// Ends the user's open fast at `event_end_time` and returns its identifier.
/// Refused with `NoActiveSession` when no fast is open, and with
/// `InvalidTimestamp` when `event_end_time` precedes the fast's start.
pub fn stop_fasting(log: &mut EventLog, user_id: i32, event_end_time: Timestamp) -> (r: Result<
    i32,
    FastingAppError,
>)
    requires
        old(log).wf(),
    ensures
        final(log).wf(),
        final(log).next_id() == old(log).next_id(),
        (final(log)@, r) == stop_step(old(log)@, user_id, event_end_time),
{
    let active = log.find_active(user_id);
    let event = match plan_stop(active, user_id, event_end_time) {
        Ok(e) => e,
        Err(e) => {
            return Err(e);
        },
    };
    proof {
        lemma_id_index_unique(log@, log.next_id(), open_index(log@, user_id));
    }
    match log.update_stop_time(event.id, event_end_time) {
        Ok(()) => Ok(event.id),
        Err(e) => Err(e),
    }
}

/// Links the user's open fast to `new_goal_id`, or unlinks it with `None`,
/// without touching its times. Refused with `NoActiveSession` when no fast is open.
pub fn update_fasting_goal(log: &mut EventLog, user_id: i32, new_goal_id: Option<i32>) -> (r:
    Result<(), FastingAppError>)
    requires
        old(log).wf(),
    ensures
        final(log).wf(),
        final(log).next_id() == old(log).next_id(),
        (final(log)@, r) == goal_step(old(log)@, user_id, new_goal_id),
{
    let active = log.find_active(user_id);
    let event = match plan_goal_update(active, user_id, new_goal_id) {
        Ok(e) => e,
        Err(e) => {
            return Err(e);
        },
    };
    proof {
        lemma_id_index_unique(log@, log.next_id(), open_index(log@, user_id));
    }
    log.update_goal(event.id, new_goal_id)
}

/// Unlinks the goal of the user's open fast without ending it.
pub fn remove_fasting_goal(log: &mut EventLog, user_id: i32) -> (r: Result<(), FastingAppError>)
    requires
        old(log).wf(),
    ensures
        final(log).wf(),
        final(log).next_id() == old(log).next_id(),
        (final(log)@, r) == goal_step(old(log)@, user_id, None),
{
    update_fasting_goal(log, user_id, None)
}

/// The start of the user's open fast and the whole minutes from it to `now`
/// (truncated toward zero), or `None` when no fast is open.
pub fn get_current_fasting_status(log: &EventLog, user_id: i32, now: Timestamp) -> (r: Result<
    Option<(Timestamp, i64)>,
    FastingAppError,
>)
    requires
        log.wf(),
    ensures
        r == Ok::<Option<(Timestamp, i64)>, FastingAppError>(
            match open_event(log@, user_id) {
                None => None,
                Some(e) => Some((e.start_time, minutes_between(e.start_time, now) as i64)),
            },
        ),
{
    match log.find_active(user_id) {
        None => Ok(None),
        Some(e) => {
            let minutes = e.start_time.minutes_until(now);
            Ok(Some((e.start_time, minutes)))
        },
    }
}

/// All of the user's events, the most recent start first.
pub fn get_fasting_history(log: &EventLog, user_id: i32) -> (r: Result<
    Vec<FastingEvent>,
    FastingAppError,
>)
    ensures
        r is Ok,
        newest_first(r.unwrap()@),
        r.unwrap()@.to_multiset() == events_of(log@, user_id).to_multiset(),
{
    Ok(log.list_by_user(user_id))
}

/// The user's events in the order of insertion, once `validate_events` has
/// accepted them. Only the size of the total can make it fail here, since the
/// store keeps every completed fast ordered.
fn checked_user_events(log: &EventLog, user_id: i32) -> (r: Result<
    Vec<FastingEvent>,
    FastingAppError,
>)
    requires
        log.wf(),
    ensures
        match r {
            Ok(v) => v@ == events_of(log@, user_id) && total_minutes(v@) <= i64::MAX,
            Err(e) => e == FastingAppError::DurationOverflow && total_minutes(events_of(log@, user_id))
                > i64::MAX,
        },
        crate::analytics::all_ordered(events_of(log@, user_id)),
{
    proof {
        lemma_events_of(log@, user_id);
    }
    let events = log.user_events(user_id);
    match validate_events(events.as_slice()) {
        Ok(()) => Ok(events),
        Err(e) => Err(e),
    }
}

/// Mean length in minutes of the user's completed fasts, truncated toward
/// zero; `None` when none is completed. `DurationOverflow` when the total
/// does not fit in an `i64`.
pub fn calculate_average_fasting_duration(log: &EventLog, user_id: i32) -> (r: Result<
    Option<i64>,
    FastingAppError,
>)
    requires
        log.wf(),
    ensures
        ({
            let s = events_of(log@, user_id);
            r == if total_minutes(s) > i64::MAX {
                Err(FastingAppError::DurationOverflow)
            } else if completed_count(s) == 0 {
                Ok(None)
            } else {
                Ok(Some((total_minutes(s) / completed_count(s) as int) as i64))
            }
        }),
{
    let events = match checked_user_events(log, user_id) {
        Ok(v) => v,
        Err(e) => {
            return Err(e);
        },
    };
    Ok(average_duration(events.as_slice()))
}

/// Total length in minutes of the user's completed fasts; 0 when none is
/// completed. `DurationOverflow` when it does not fit in an `i64`.
pub fn calculate_total_fasting_time(log: &EventLog, user_id: i32) -> (r: Result<
    i64,
    FastingAppError,
>)
    requires
        log.wf(),
    ensures
        ({
            let s = events_of(log@, user_id);
            r == if total_minutes(s) > i64::MAX {
                Err(FastingAppError::DurationOverflow)
            } else {
                Ok(total_minutes(s) as i64)
            }
        }),
{
    let events = match checked_user_events(log, user_id) {
        Ok(v) => v,
        Err(e) => {
            return Err(e);
        },
    };
    Ok(total_duration(events.as_slice()))
}

/// Total length in minutes of the user's completed fasts that lie wholly in
/// `[range_start, range_end]`. `DurationOverflow` when the user's total over
/// all fasts does not fit in an `i64`.
pub fn calculate_weekly_summary(
    log: &EventLog,
    user_id: i32,
    range_start: Timestamp,
    range_end: Timestamp,
) -> (r: Result<i64, FastingAppError>)
    requires
        log.wf(),
    ensures
        ({
            let s = events_of(log@, user_id);
            r == if total_minutes(s) > i64::MAX {
                Err(FastingAppError::DurationOverflow)
            } else {
                Ok(window_minutes(s, range_start, range_end) as i64)
            }
        }),
{
    let events = match checked_user_events(log, user_id) {
        Ok(v) => v,
        Err(e) => {
            return Err(e);
        },
    };
    Ok(weekly_summary(events.as_slice(), range_start, range_end))
}

/// Two sequences with the same elements have fasts on the same days.
proof fn lemma_same_days(a: Seq<FastingEvent>, b: Seq<FastingEvent>, d: int)
    requires
        a.to_multiset() == b.to_multiset(),
    ensures
        has_fast_on_day(a, d) <==> has_fast_on_day(b, d),
{
    if has_fast_on_day(a, d) {
        let i = choose|i: int| 0 <= i < a.len() && crate::time::day_number(#[trigger] a[i].start_time) == d;
        to_multiset_contains(a, a[i]);
        to_multiset_contains(b, a[i]);
        let j = choose|j: int| 0 <= j < b.len() && b[j] == a[i];
        assert(crate::time::day_number(b[j].start_time) == d);
    }
    if has_fast_on_day(b, d) {
        let i = choose|i: int| 0 <= i < b.len() && crate::time::day_number(#[trigger] b[i].start_time) == d;
        to_multiset_contains(b, b[i]);
        to_multiset_contains(a, b[i]);
        let j = choose|j: int| 0 <= j < a.len() && a[j] == b[i];
        assert(crate::time::day_number(a[j].start_time) == d);
    }
}

/// Number of consecutive calendar days, ending on day `today` (1970-01-01 is
/// day 0), on each of which the user started at least one fast.
pub fn calculate_current_streak(log: &EventLog, user_id: i32, today: i64) -> (r: Result<
    usize,
    FastingAppError,
>)
    ensures
        r is Ok,
        forall|d: int|
            today - r.unwrap() < d <= today ==> #[trigger] has_fast_on_day(events_of(log@, user_id), d),
        !has_fast_on_day(events_of(log@, user_id), today - r.unwrap()),
{
    let history = log.list_by_user(user_id);
    let n = current_streak(history.as_slice(), today);
    proof {
        assert forall|d: int| today - n < d <= today implies #[trigger] has_fast_on_day(
            events_of(log@, user_id),
            d,
        ) by {
            lemma_same_days(history@, events_of(log@, user_id), d);
        }
        lemma_same_days(history@, events_of(log@, user_id), today - n);
    }
    Ok(n)
}

/// The checkpoint thresholds (in hours) that some completed fast of the user
/// reached, ascending and without repeats.
pub fn calculate_checkpoints_achieved(log: &EventLog, user_id: i32) -> (r: Result<
    Vec<u32>,
    FastingAppError,
>)
    ensures
        r is Ok,
        strictly_increasing(r.unwrap()@),
        forall|t: u32| #[trigger]
            r.unwrap()@.contains(t) <==> (checkpoint_thresholds().contains(t) && reaches_hours(
                events_of(log@, user_id),
                t as int,
            )),
{
    let events = log.user_events(user_id);
    Ok(checkpoints_achieved(events.as_slice()))
}

/// The outcomes of successive starts for one user, each made on the store as
/// the previous one left it. An attempt is a start time, a goal and the
/// creation instant.
pub open spec fn start_outcomes(
    s: Seq<FastingEvent>,
    next_id: int,
    user_id: i32,
    attempts: Seq<(Timestamp, Option<i32>, Timestamp)>,
) -> Seq<Result<i32, FastingAppError>>
    decreases attempts.len(),
{
    if attempts.len() == 0 {
        Seq::empty()
    } else {
        let step = start_step(s, next_id, user_id, attempts[0].0, attempts[0].1, attempts[0].2);
        seq![step.2] + start_outcomes(step.0, step.1, user_id, attempts.drop_first())
    }
}

/// Of any run of starts for one user, at most one succeeds, and every start
/// after a success is refused with `ExistingSessionError`; while the user
/// already has an open fast, every start is refused so.
pub proof fn lemma_single_active_session(
    s: Seq<FastingEvent>,
    next_id: int,
    user_id: i32,
    attempts: Seq<(Timestamp, Option<i32>, Timestamp)>,
)
    ensures
        start_outcomes(s, next_id, user_id, attempts).len() == attempts.len(),
        forall|i: int, j: int|
            0 <= i < j < attempts.len() && #[trigger] start_outcomes(
                s,
                next_id,
                user_id,
                attempts,
            )[i] is Ok ==> #[trigger] start_outcomes(s, next_id, user_id, attempts)[j] == Err::<
                i32,
                FastingAppError,
            >(FastingAppError::ExistingSessionError(user_id)),
        has_open(s, user_id) ==> forall|j: int|
            0 <= j < attempts.len() ==> #[trigger] start_outcomes(s, next_id, user_id, attempts)[j]
                == Err::<i32, FastingAppError>(FastingAppError::ExistingSessionError(user_id)),
    decreases attempts.len(),
{
    if attempts.len() > 0 {
        let step = start_step(s, next_id, user_id, attempts[0].0, attempts[0].1, attempts[0].2);
        let rest = attempts.drop_first();
        let outs = start_outcomes(s, next_id, user_id, attempts);
        let tail = start_outcomes(step.0, step.1, user_id, rest);
        lemma_single_active_session(step.0, step.1, user_id, rest);
        assert(outs == seq![step.2] + tail);
        if step.2 is Ok {
            let k = s.len() as int;
            assert(is_open_for(step.0[k], user_id));
            assert(has_open(step.0, user_id));
        }
        assert forall|i: int, j: int|
            0 <= i < j < attempts.len() && #[trigger] outs[i] is Ok implies #[trigger] outs[j]
            == Err::<i32, FastingAppError>(FastingAppError::ExistingSessionError(user_id)) by {
            assert(outs[j] == tail[j - 1]);
            if i > 0 {
                assert(outs[i] == tail[i - 1]);
            }
        }
        if has_open(s, user_id) {
            assert forall|j: int| 0 <= j < attempts.len() implies #[trigger] outs[j]
                == Err::<i32, FastingAppError>(FastingAppError::ExistingSessionError(user_id)) by {
                if j > 0 {
                    assert(outs[j] == tail[j - 1]);
                }
            }
        }
    }
}

/// Starting a fast at `t0` and stopping it at `t1 >= t0` leaves exactly one
/// new event, completed at `t1`, and no open fast for the user, so the
/// status afterwards is `None`.
pub proof fn lemma_start_stop_round_trip(
    s: Seq<FastingEvent>,
    next_id: int,
    user_id: i32,
    t0: Timestamp,
    t1: Timestamp,
    goal_id: Option<i32>,
    now: Timestamp,
)
    requires
        !has_open(s, user_id),
        next_id < i32::MAX,
        t0.seconds <= t1.seconds,
    ensures
        ({
            let started = start_step(s, next_id, user_id, t0, goal_id, now);
            let stopped = stop_step(started.0, user_id, t1);
            &&& started.2 == Ok::<i32, FastingAppError>(next_id as i32)
            &&& stopped.1 == Ok::<i32, FastingAppError>(next_id as i32)
            &&& stopped.0 == s.push(
                FastingEvent {
                    id: next_id as i32,
                    user_id,
                    start_time: t0,
                    stop_time: Some(t1),
                    created_at: Some(now),
                    goal_id,
                },
            )
            &&& !has_open(stopped.0, user_id)
            &&& open_event(stopped.0, user_id) is None
        }),
{
    let started = start_step(s, next_id, user_id, t0, goal_id, now);
    let s1 = started.0;
    let k = s.len() as int;
    assert(is_open_for(s1[k], user_id));
    let i = open_index(s1, user_id);
    if i != k {
        assert(s1[i] == s[i]);
        assert(is_open_for(s[i], user_id));
    }
    let s2 = stop_step(s1, user_id, t1).0;
    let done = FastingEvent {
        id: next_id as i32,
        user_id,
        start_time: t0,
        stop_time: Some(t1),
        created_at: Some(now),
        goal_id,
    };
    assert(s2 =~= s.push(done));
    if has_open(s2, user_id) {
        let j = choose|j: int| 0 <= j < s2.len() && is_open_for(#[trigger] s2[j], user_id);
        if j < k {
            assert(s2[j] == s[j]);
            assert(is_open_for(s[j], user_id));
        }
    }
}

} // verus!
