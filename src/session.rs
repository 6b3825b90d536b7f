use vstd::prelude::*;
use crate::errors::FastingAppError;
use crate::models::{FastingEvent, NewFastingEvent};
use crate::time::Timestamp;

verus! {

/// The event is `user_id`'s and is still going on.
pub open spec fn is_open_for(e: FastingEvent, user_id: i32) -> bool {
    e.user_id == user_id && e.stop_time is None
}

/// The decision on a start, given the open event that the store holds for the user.
pub open spec fn planned_start(
    active: Option<FastingEvent>,
    user_id: i32,
    start_time: Timestamp,
    goal_id: Option<i32>,
    now: Timestamp,
) -> Result<NewFastingEvent, FastingAppError> {
    match active {
        Some(_) => Err(FastingAppError::ExistingSessionError(user_id)),
        None => Ok(
            NewFastingEvent {
                user_id,
                start_time,
                stop_time: None,
                created_at: Some(now),
                goal_id,
            },
        ),
    }
}

/// The decision on a stop, given the open event that the store holds for the user.
pub open spec fn planned_stop(active: Option<FastingEvent>, user_id: i32, stop_time: Timestamp) -> Result<
    FastingEvent,
    FastingAppError,
> {
    match active {
        None => Err(FastingAppError::NoActiveSession(user_id)),
        Some(e) => if stop_time.seconds < e.start_time.seconds {
            Err(FastingAppError::InvalidTimestamp)
        } else {
            Ok(FastingEvent { stop_time: Some(stop_time), ..e })
        },
    }
}

/// The decision on a goal change, given the open event that the store holds for the user.
pub open spec fn planned_goal(active: Option<FastingEvent>, user_id: i32, goal_id: Option<i32>) -> Result<
    FastingEvent,
    FastingAppError,
> {
    match active {
        None => Err(FastingAppError::NoActiveSession(user_id)),
        Some(e) => Ok(FastingEvent { goal_id, ..e }),
    }
}

/// Decides a start. `active` is the open event that the store holds for
/// `user_id`, if any: then the start is refused with `ExistingSessionError`.
/// Otherwise the result is the open event to insert, created at `now`.
pub fn plan_start(
    active: Option<FastingEvent>,
    user_id: i32,
    start_time: Timestamp,
    goal_id: Option<i32>,
    now: Timestamp,
) -> (r: Result<NewFastingEvent, FastingAppError>)
    ensures
        r == planned_start(active, user_id, start_time, goal_id, now),
{
    match active {
        Some(_) => Err(FastingAppError::ExistingSessionError(user_id)),
        None => Ok(
            NewFastingEvent {
                user_id,
                start_time,
                stop_time: None,
                created_at: Some(now),
                goal_id,
            },
        ),
    }
}

/// Decides a stop. Without an open event the stop is refused with
/// `NoActiveSession`; a stop time before the event's start is refused with
/// `InvalidTimestamp`. Otherwise the result is the event, now completed.
pub fn plan_stop(active: Option<FastingEvent>, user_id: i32, stop_time: Timestamp) -> (r: Result<
    FastingEvent,
    FastingAppError,
>)
    ensures
        r == planned_stop(active, user_id, stop_time),
{
    match active {
        None => Err(FastingAppError::NoActiveSession(user_id)),
        Some(e) => {
            if stop_time.seconds < e.start_time.seconds {
                Err(FastingAppError::InvalidTimestamp)
            } else {
                Ok(FastingEvent { stop_time: Some(stop_time), ..e })
            }
        },
    }
}

/// Decides a goal change on the open event: refused with `NoActiveSession`
/// when there is none, else the event with its goal replaced (`None` clears it).
pub fn plan_goal_update(active: Option<FastingEvent>, user_id: i32, goal_id: Option<i32>) -> (r:
    Result<FastingEvent, FastingAppError>)
    ensures
        r == planned_goal(active, user_id, goal_id),
{
    match active {
        None => Err(FastingAppError::NoActiveSession(user_id)),
        Some(e) => Ok(FastingEvent { goal_id, ..e }),
    }
}

} // verus!
