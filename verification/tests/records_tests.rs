use plugin_supervisor::records::{get_lockout_duration, default_page_size, validate_password,
    AuthUser, UserRole};

#[test]
fn test_validate_password_rules() {
    assert_eq!(
        validate_password("short"),
        Err("Password must be at least 8 characters long")
    );
    assert_eq!(
        validate_password("alllowercase1!"),
        Err("Password must contain uppercase, lowercase, number, and special character")
    );
    assert_eq!(
        validate_password("NOLOWERCASE1!"),
        Err("Password must contain uppercase, lowercase, number, and special character")
    );
    assert_eq!(
        validate_password("NoNumbersHere!"),
        Err("Password must contain uppercase, lowercase, number, and special character")
    );
    assert_eq!(
        validate_password("NoSpecial123"),
        Err("Password must contain uppercase, lowercase, number, and special character")
    );
    assert_eq!(validate_password("Passw0rd!"), Ok(()));
}

#[test]
fn test_lockout_tiers() {
    assert_eq!(get_lockout_duration(0), None);
    assert_eq!(get_lockout_duration(2), None);
    assert_eq!(get_lockout_duration(3), Some(1));
    assert_eq!(get_lockout_duration(6), Some(3));
    assert_eq!(get_lockout_duration(9), Some(10));
    assert_eq!(get_lockout_duration(12), Some(30));
    assert_eq!(get_lockout_duration(100), Some(30));
}

#[test]
fn test_default_page_size_is_100() {
    assert_eq!(default_page_size(), 100);
}

#[test]
fn test_user_role_names() {
    assert_eq!(UserRole::Admin.as_str(), "admin");
    assert_eq!(UserRole::Client.as_str(), "client");
    assert_eq!(UserRole::parse_role("ADMIN"), Some(UserRole::Admin));
    assert_eq!(UserRole::parse_role("client"), Some(UserRole::Client));
    assert_eq!(UserRole::parse_role("root"), None);
}

#[test]
fn test_is_admin() {
    let admin = AuthUser {
        user_id: None,
        username: "root-user".to_string(),
        role: UserRole::Admin,
    };
    let client = AuthUser {
        user_id: Some("u1".to_string()),
        username: "someone".to_string(),
        role: UserRole::Client,
    };
    assert!(admin.is_admin());
    assert!(!client.is_admin());
}
