use vstd::prelude::*;
use vstd::string::StringExecFns;

verus! {

/// The failures that the library reports. None of them is retried or
/// swallowed inside the library: each is handed back to the caller.
#[derive(Clone, Debug, PartialEq, Eq)]
pub enum FastingAppError {
    /// The underlying store failed; the message comes from the store.
    DatabaseError(String),
    /// Hashing or checking a password failed.
    PasswordHashError(String),
    /// A fast was started while the user (the payload) already has one open.
    ExistingSessionError(i32),
    /// A stop or a goal change was asked for while the user (the payload) has
    /// no open fast.
    NoActiveSession(i32),
    /// A stop time precedes the start time of the fast it would close.
    InvalidTimestamp,
    /// A referenced event or goal does not exist.
    NotFound,
    /// The store has no identifier left for a new event.
    CapacityExceeded,
    /// A sum of durations does not fit in an `i64` count of minutes.
    DurationOverflow,
    /// A request that cannot be served as given.
    InvalidRequest(String),
    /// The store could not be reached.
    ConnectionError(String),
    /// Any other failure, described by its message.
    Custom(String),
    /// The credentials given for the identifier do not match.
    InvalidCredentials(String),
    /// A failure of session handling, described by its message.
    SessionError(String),
}

impl FastingAppError {
    /// An `InvalidCredentials` error for the given user name or device ID.
    pub fn invalid_credentials(identifier: String) -> (r: FastingAppError)
        ensures
            r == FastingAppError::InvalidCredentials(identifier),
    {
        FastingAppError::InvalidCredentials(identifier)
    }

    /// A short message for the person using the application.
    pub fn user_friendly_message(&self) -> (r: String)
        ensures
            r@ == friendly_message(*self),
    {
        match self {
            FastingAppError::DatabaseError(_) => "Database operation failed.".to_owned(),
            FastingAppError::PasswordHashError(_) => "Password hashing error.".to_owned(),
            FastingAppError::ExistingSessionError(_) => "You already have an active session.".to_owned(),
            FastingAppError::NoActiveSession(_) => "You have no active fasting session.".to_owned(),
            FastingAppError::InvalidTimestamp => "The stop time is before the start time.".to_owned(),
            FastingAppError::NotFound => "The requested record was not found.".to_owned(),
            FastingAppError::CapacityExceeded => "No room is left for another event.".to_owned(),
            FastingAppError::DurationOverflow => "The total duration is too large to report.".to_owned(),
            FastingAppError::InvalidRequest(msg) => "Invalid request: ".to_owned().concat(msg.as_str()),
            FastingAppError::ConnectionError(_) => "Failed to connect to the database.".to_owned(),
            FastingAppError::Custom(msg) => "Error: ".to_owned().concat(msg.as_str()),
            FastingAppError::InvalidCredentials(identifier) => {
                "Invalid credentials for '".to_owned().concat(identifier.as_str()).concat("'.")
            },
            FastingAppError::SessionError(msg) => "Session error: ".to_owned().concat(msg.as_str()),
        }
    }
}

/// The text of `user_friendly_message` for each error.
pub open spec fn friendly_message(e: FastingAppError) -> Seq<char> {
    match e {
        FastingAppError::DatabaseError(_) => "Database operation failed."@,
        FastingAppError::PasswordHashError(_) => "Password hashing error."@,
        FastingAppError::ExistingSessionError(_) => "You already have an active session."@,
        FastingAppError::NoActiveSession(_) => "You have no active fasting session."@,
        FastingAppError::InvalidTimestamp => "The stop time is before the start time."@,
        FastingAppError::NotFound => "The requested record was not found."@,
        FastingAppError::CapacityExceeded => "No room is left for another event."@,
        FastingAppError::DurationOverflow => "The total duration is too large to report."@,
        FastingAppError::InvalidRequest(msg) => "Invalid request: "@ + msg@,
        FastingAppError::ConnectionError(_) => "Failed to connect to the database."@,
        FastingAppError::Custom(msg) => "Error: "@ + msg@,
        FastingAppError::InvalidCredentials(identifier) => "Invalid credentials for '"@ + identifier@
            + "'."@,
        FastingAppError::SessionError(msg) => "Session error: "@ + msg@,
    }
}

} // verus!
