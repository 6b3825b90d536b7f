use vstd::prelude::*;
use crate::time::Timestamp;

verus! {

/// One fasting attempt of one user.
///
/// `stop_time` is `None` while the fast is going on; once set it is never
/// before `start_time` (zero-length fasts are allowed).
#[derive(Clone, Copy, Debug, PartialEq, Eq, Structural)]
pub struct FastingEvent {
    pub id: i32,
    pub user_id: i32,
    pub start_time: Timestamp,
    pub stop_time: Option<Timestamp>,
    pub created_at: Option<Timestamp>,
    pub goal_id: Option<i32>,
}

/// A fasting event that has not been given an identifier yet.
#[derive(Clone, Copy, Debug, PartialEq, Eq, Structural)]
pub struct NewFastingEvent {
    pub user_id: i32,
    pub start_time: Timestamp,
    pub stop_time: Option<Timestamp>,
    pub created_at: Option<Timestamp>,
    pub goal_id: Option<i32>,
}

/// A goal that a fast may be linked to: a target length in hours and a deadline.
#[derive(Clone, Copy, Debug, PartialEq, Eq, Structural)]
pub struct FastingGoal {
    pub id: i32,
    pub user_id: i32,
    pub goal_duration: i32,
    pub deadline: Timestamp,
    pub created_at: Option<Timestamp>,
}

/// A goal that has not been given an identifier yet.
#[derive(Clone, Copy, Debug, PartialEq, Eq, Structural)]
pub struct NewFastingGoal {
    pub user_id: i32,
    pub goal_duration: i32,
    pub deadline: Timestamp,
    pub created_at: Option<Timestamp>,
}

/// A fasting session as kept in the older sessions record: an event without a goal.
#[derive(Clone, Copy, Debug, PartialEq, Eq, Structural)]
pub struct FastingSession {
    pub id: i32,
    pub user_id: i32,
    pub start_time: Timestamp,
    pub stop_time: Option<Timestamp>,
    pub created_at: Option<Timestamp>,
}

/// A registered user. The password is kept only as a hash.
#[derive(Clone, Debug, PartialEq, Eq)]
pub struct User {
    pub id: i32,
    pub username: String,
    pub hashed_password: String,
    pub device_id: Option<String>,
    pub created_at: Option<Timestamp>,
}

/// A user that has not been given an identifier yet.
#[derive(Clone, Debug, PartialEq, Eq)]
pub struct NewUser {
    pub username: String,
    pub hashed_password: String,
    pub device_id: Option<String>,
}

impl NewFastingEvent {
    /// The stored event that this one becomes under identifier `id`.
    pub open spec fn with_id(self, id: i32) -> FastingEvent {
        FastingEvent {
            id,
            user_id: self.user_id,
            start_time: self.start_time,
            stop_time: self.stop_time,
            created_at: self.created_at,
            goal_id: self.goal_id,
        }
    }
}

} // verus!
