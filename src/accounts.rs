use vstd::prelude::*;
use vstd::string::StringExecFns;
use crate::errors::FastingAppError;
use crate::models::{NewUser, User};

verus! {

/// bcrypt's error type, carried through without looking inside.
#[verifier::external_type_specification]
#[verifier::external_body]
pub struct ExBcryptError(bcrypt::BcryptError);

/// Whether `password` matches the bcrypt hash `hashed`, or `None` where the
/// hash cannot be read.
pub uninterp spec fn bcrypt_verdict(password: Seq<char>, hashed: Seq<char>) -> Option<bool>;

/// Relies on `bcrypt::verify`: the verdict depends on the two strings alone
/// (the salt and cost are read from the hash).
#[verifier::external_body]
fn bcrypt_verify(password: &str, hashed: &str) -> (r: Result<bool, bcrypt::BcryptError>)
    ensures
        match r {
            Ok(b) => bcrypt_verdict(password@, hashed@) == Some(b),
            Err(_) => bcrypt_verdict(password@, hashed@) is None,
        },
{
    bcrypt::verify(password, hashed)
}

/// Relies on `bcrypt::hash` at `bcrypt::DEFAULT_COST`: a hash of `password`
/// under a random salt, so nothing is promised of its text.
#[verifier::external_body]
fn bcrypt_hash(password: &str) -> (r: Result<String, bcrypt::BcryptError>) {
    bcrypt::hash(password, bcrypt::DEFAULT_COST)
}

/// Relies on the `Display` text of `bcrypt::BcryptError`.
#[verifier::external_body]
fn bcrypt_error_text(e: &bcrypt::BcryptError) -> (r: String) {
    e.to_string()
}

/// How a user asks to log in.
#[derive(Clone, Debug, PartialEq, Eq)]
pub enum LoginRequest {
    /// By a device ID linked to the account.
    DeviceId(String),
    /// By user name and password.
    Credentials(String, String),
}

/// The changes to a user's profile, with the password already hashed.
#[derive(Clone, Debug, PartialEq, Eq)]
pub struct ProfileUpdate {
    pub username: Option<String>,
    pub hashed_password: Option<String>,
    pub device_id: Option<String>,
}

/// The text of the error for a login that names no way to log in.
pub open spec fn no_login_method_text() -> Seq<char> {
    "Must provide either a device ID or a username/password."@
}

/// Picks the way to log in: a device ID wins; otherwise a user name with a
/// password; with neither, `InvalidRequest`.
pub fn choose_login(username: Option<String>, password: Option<String>, device_id: Option<String>) -> (r:
    Result<LoginRequest, FastingAppError>)
    ensures
        match device_id {
            Some(d) => r == Ok::<LoginRequest, FastingAppError>(LoginRequest::DeviceId(d)),
            None => match (username, password) {
                (Some(u), Some(p)) => r == Ok::<LoginRequest, FastingAppError>(
                    LoginRequest::Credentials(u, p),
                ),
                _ => r matches Err(FastingAppError::InvalidRequest(m)) && m@ == no_login_method_text(),
            },
        },
{
    match device_id {
        Some(d) => Ok(LoginRequest::DeviceId(d)),
        None => match (username, password) {
            (Some(u), Some(p)) => Ok(LoginRequest::Credentials(u, p)),
            _ => Err(
                FastingAppError::InvalidRequest(
                    "Must provide either a device ID or a username/password.".to_owned(),
                ),
            ),
        },
    }
}

/// The outcome of a login by device ID, given the user that the store found
/// for it: that user, or `InvalidCredentials` naming the device ID.
pub fn device_login_outcome(found: Option<User>, device_id: &str) -> (r: Result<User, FastingAppError>)
    ensures
        match found {
            Some(u) => r == Ok::<User, FastingAppError>(u),
            None => r matches Err(FastingAppError::InvalidCredentials(m)) && m@ == "Device ID '"@
                + device_id@ + "' not found"@,
        },
{
    match found {
        Some(u) => Ok(u),
        None => Err(
            FastingAppError::InvalidCredentials(
                "Device ID '".to_owned().concat(device_id).concat("' not found"),
            ),
        ),
    }
}

/// The outcome of a password login, given the verdict on the password:
/// the user when it matches, `InvalidCredentials` naming the user name when
/// it does not, and `PasswordHashError` with the message when the stored hash
/// could not be read.
pub fn password_login_outcome(user: User, username: &str, verdict: Result<bool, String>) -> (r: Result<
    User,
    FastingAppError,
>)
    ensures
        match verdict {
            Ok(true) => r == Ok::<User, FastingAppError>(user),
            Ok(false) => r matches Err(FastingAppError::InvalidCredentials(m)) && m@
                == "Invalid login for username: "@ + username@,
            Err(msg) => r == Err::<User, FastingAppError>(FastingAppError::PasswordHashError(msg)),
        },
{
    match verdict {
        Ok(true) => Ok(user),
        Ok(false) => Err(
            FastingAppError::InvalidCredentials(
                "Invalid login for username: ".to_owned().concat(username),
            ),
        ),
        Err(msg) => Err(FastingAppError::PasswordHashError(msg)),
    }
}

/// Checks `password` against the user's stored hash with bcrypt and returns
/// the user on a match (see `password_login_outcome` for the other outcomes).
pub fn login_user(user: User, username: &str, password: &str) -> (r: Result<User, FastingAppError>)
    ensures
        match bcrypt_verdict(password@, user.hashed_password@) {
            Some(true) => r == Ok::<User, FastingAppError>(user),
            Some(false) => r matches Err(FastingAppError::InvalidCredentials(m)) && m@
                == "Invalid login for username: "@ + username@,
            None => r matches Err(FastingAppError::PasswordHashError(_)),
        },
{
    let verdict = match bcrypt_verify(password, user.hashed_password.as_str()) {
        Ok(b) => Ok(b),
        Err(e) => Err(bcrypt_error_text(&e)),
    };
    password_login_outcome(user, username, verdict)
}

/// A new account for `username` with `password` hashed by bcrypt and no
/// device linked; `PasswordHashError` when hashing fails.
pub fn prepare_new_user(username: &str, password: &str) -> (r: Result<NewUser, FastingAppError>)
    ensures
        match r {
            Ok(u) => u.username@ == username@ && u.device_id is None,
            Err(e) => e is PasswordHashError,
        },
{
    match bcrypt_hash(password) {
        Ok(hashed) => Ok(NewUser { username: username.to_owned(), hashed_password: hashed, device_id: None }),
        Err(e) => Err(FastingAppError::PasswordHashError(bcrypt_error_text(&e))),
    }
}

/// The text of the error for a profile update that changes nothing.
pub open spec fn no_updates_text() -> Seq<char> {
    "No updates provided."@
}

/// The changes for a profile update, with a new password hashed by bcrypt.
/// `InvalidRequest` when nothing is to change; `PasswordHashError` when
/// hashing fails.
pub fn plan_profile_update(
    new_username: Option<String>,
    new_password: Option<String>,
    new_device_id: Option<String>,
) -> (r: Result<ProfileUpdate, FastingAppError>)
    ensures
        new_username is None && new_password is None && new_device_id is None ==> (r matches Err(
            FastingAppError::InvalidRequest(m),
        ) && m@ == no_updates_text()),
        match r {
            Ok(p) => p.username == new_username && p.device_id == new_device_id && (p.hashed_password
                is Some <==> new_password is Some) && !(new_username is None && new_password is None
                && new_device_id is None),
            Err(e) => (e is InvalidRequest && new_username is None && new_password is None
                && new_device_id is None) || (e is PasswordHashError && new_password is Some),
        },
{
    if new_username.is_none() && new_password.is_none() && new_device_id.is_none() {
        return Err(FastingAppError::InvalidRequest("No updates provided.".to_owned()));
    }
    let hashed_password = match new_password {
        Some(p) => match bcrypt_hash(p.as_str()) {
            Ok(h) => Some(h),
            Err(e) => {
                return Err(FastingAppError::PasswordHashError(bcrypt_error_text(&e)));
            },
        },
        None => None,
    };
    Ok(ProfileUpdate { username: new_username, hashed_password, device_id: new_device_id })
}

/// The text of the error for an empty device ID.
pub open spec fn empty_device_id_text() -> Seq<char> {
    "Device ID cannot be empty."@
}

/// Accepts a device ID for linking unless it is empty (`InvalidRequest`).
pub fn check_device_id(device_id: &str) -> (r: Result<(), FastingAppError>)
    ensures
        device_id@.len() == 0 ==> (r matches Err(FastingAppError::InvalidRequest(m)) && m@
            == empty_device_id_text()),
        device_id@.len() > 0 ==> r is Ok,
{
    if device_id.is_empty() {
        Err(FastingAppError::InvalidRequest("Device ID cannot be empty.".to_owned()))
    } else {
        Ok(())
    }
}

} // verus!
