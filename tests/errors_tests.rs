use fasting_rust::errors::FastingAppError;

#[test]
fn friendly_messages() {
    assert_eq!(
        FastingAppError::ExistingSessionError(7).user_friendly_message(),
        "You already have an active session."
    );
    assert_eq!(
        FastingAppError::InvalidRequest("x".to_string()).user_friendly_message(),
        "Invalid request: x"
    );
    assert_eq!(
        FastingAppError::invalid_credentials("bob".to_string()).user_friendly_message(),
        "Invalid credentials for 'bob'."
    );
    assert_eq!(FastingAppError::DatabaseError("e".to_string()).user_friendly_message(), "Database operation failed.");
}

#[test]
fn invalid_credentials_carries_identifier() {
    assert_eq!(
        FastingAppError::invalid_credentials("device-9".to_string()),
        FastingAppError::InvalidCredentials("device-9".to_string())
    );
}
