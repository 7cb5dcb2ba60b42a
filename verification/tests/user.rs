use loki_migration::User;

#[test]
fn user_check_password() {
    let user = User {
        id: None,
        email: Some(String::from("test@example.com")),
        password: Some(b"password".to_vec()),
    };
    assert!(user.check_password("password"));
}

#[test]
fn wrong_password_is_rejected() {
    let user = User {
        id: Some(7),
        email: None,
        password: Some(b"password".to_vec()),
    };
    assert!(!user.check_password("Password"));
    assert!(!user.check_password("password "));
    assert!(!user.check_password(""));
}

#[test]
fn missing_password_never_matches() {
    let user = User { id: None, email: None, password: None };
    assert!(!user.check_password(""));
    assert!(!user.check_password("anything"));
}

#[test]
fn set_password_replaces_the_stored_bytes() {
    let mut user = User { id: None, email: None, password: None };
    user.set_password("first").unwrap();
    assert!(user.check_password("first"));
    user.set_password("second").unwrap();
    assert!(!user.check_password("first"));
    assert!(user.check_password("second"));
}
