use fasting_rust::accounts::{
    check_device_id, choose_login, device_login_outcome, login_user, password_login_outcome,
    plan_profile_update, prepare_new_user, LoginRequest,
};
use fasting_rust::errors::FastingAppError;
use fasting_rust::models::User;

fn user_with_hash(hashed: String) -> User {
    User { id: 1, username: "testuser".to_string(), hashed_password: hashed, device_id: None, created_at: None }
}

#[test]
fn test_create_user() {
    let new_user = prepare_new_user("testuser", "testpassword").unwrap();
    assert_eq!(new_user.username, "testuser");
    assert_eq!(new_user.device_id, None);
    assert_ne!(new_user.hashed_password, "testpassword");
}

#[test]
fn test_login_user_success() {
    let new_user = prepare_new_user("testuser", "testpassword").unwrap();
    let user = user_with_hash(new_user.hashed_password);
    let result = login_user(user, "testuser", "testpassword");
    assert!(result.is_ok());
}

#[test]
fn login_with_wrong_password_is_refused() {
    let user = user_with_hash(bcrypt::hash("hunter2", 4).unwrap());
    assert_eq!(
        login_user(user.clone(), "testuser", "hunter3"),
        Err(FastingAppError::InvalidCredentials("Invalid login for username: testuser".to_string()))
    );
    assert_eq!(login_user(user.clone(), "testuser", "hunter2"), Ok(user));
}

#[test]
fn login_with_unreadable_hash_is_a_hash_error() {
    let user = user_with_hash("not a bcrypt hash".to_string());
    assert!(matches!(login_user(user, "testuser", "x"), Err(FastingAppError::PasswordHashError(_))));
}

#[test]
fn password_outcomes() {
    let user = user_with_hash("h".to_string());
    assert_eq!(password_login_outcome(user.clone(), "bob", Ok(true)), Ok(user.clone()));
    assert_eq!(
        password_login_outcome(user.clone(), "bob", Ok(false)),
        Err(FastingAppError::InvalidCredentials("Invalid login for username: bob".to_string()))
    );
    assert_eq!(
        password_login_outcome(user, "bob", Err("bad".to_string())),
        Err(FastingAppError::PasswordHashError("bad".to_string()))
    );
}

#[test]
fn login_method_choice() {
    assert_eq!(
        choose_login(Some("a".to_string()), Some("b".to_string()), Some("dev".to_string())),
        Ok(LoginRequest::DeviceId("dev".to_string()))
    );
    assert_eq!(
        choose_login(Some("a".to_string()), Some("b".to_string()), None),
        Ok(LoginRequest::Credentials("a".to_string(), "b".to_string()))
    );
    assert_eq!(
        choose_login(Some("a".to_string()), None, None),
        Err(FastingAppError::InvalidRequest(
            "Must provide either a device ID or a username/password.".to_string()
        ))
    );
}

#[test]
fn device_login() {
    let user = user_with_hash("h".to_string());
    assert_eq!(device_login_outcome(Some(user.clone()), "dev"), Ok(user));
    assert_eq!(
        device_login_outcome(None, "dev"),
        Err(FastingAppError::InvalidCredentials("Device ID 'dev' not found".to_string()))
    );
}

#[test]
fn device_id_must_not_be_empty() {
    assert_eq!(
        check_device_id(""),
        Err(FastingAppError::InvalidRequest("Device ID cannot be empty.".to_string()))
    );
    assert_eq!(check_device_id("phone-1"), Ok(()));
}

#[test]
fn profile_update_needs_a_change() {
    assert_eq!(
        plan_profile_update(None, None, None),
        Err(FastingAppError::InvalidRequest("No updates provided.".to_string()))
    );
    let only_name = plan_profile_update(Some("new".to_string()), None, None).unwrap();
    assert_eq!(only_name.username, Some("new".to_string()));
    assert_eq!(only_name.hashed_password, None);
    let with_password = plan_profile_update(None, Some("pw".to_string()), Some("d".to_string())).unwrap();
    let hashed = with_password.hashed_password.unwrap();
    assert!(bcrypt::verify("pw", &hashed).unwrap());
    assert_eq!(with_password.device_id, Some("d".to_string()));
}
