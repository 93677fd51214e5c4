use igra_cli::user_manager::{Role, User, UserError, UserManager};

#[test]
fn test_role_permissions() {
    assert!(Role::Admin.can_read());
    assert!(Role::Admin.can_control_services());
    assert!(Role::Admin.can_configure());
    assert!(Role::Admin.can_manage_users());

    assert!(Role::Operator.can_read());
    assert!(Role::Operator.can_control_services());
    assert!(!Role::Operator.can_configure());
    assert!(!Role::Operator.can_manage_users());

    assert!(Role::Viewer.can_read());
    assert!(!Role::Viewer.can_control_services());
    assert!(!Role::Viewer.can_configure());
    assert!(!Role::Viewer.can_manage_users());
}

#[test]
fn role_names_parse_in_any_case() {
    assert_eq!(Role::from_str("Admin"), Ok(Role::Admin));
    assert_eq!(Role::from_str("OPERATOR"), Ok(Role::Operator));
    assert_eq!(Role::from_str("viewer"), Ok(Role::Viewer));
    assert!(Role::from_str("root").is_err());
    assert_eq!(Role::Operator.as_str(), "operator");
}

fn user(name: &str, roles: Vec<Role>) -> User {
    User::new(name.to_string(), "hash".to_string(), roles)
}

#[test]
fn user_store_add_get_remove() {
    let mut manager = UserManager::new(Vec::new());
    assert!(!manager.has_users());

    manager.add_user(user("test", vec![Role::Admin])).unwrap();
    assert!(manager.has_users());

    let found = manager.get_user("test").expect("User should exist");
    assert_eq!(found.username, "test");
    assert!(found.is_admin());

    assert_eq!(
        manager.add_user(user("test", vec![Role::Viewer])),
        Err(UserError::AlreadyExists("test".to_string()))
    );

    manager.remove_user("test").unwrap();
    assert!(!manager.has_users());
    assert_eq!(
        manager.remove_user("test"),
        Err(UserError::NotFound("test".to_string()))
    );
}

#[test]
fn user_store_updates_only_named_user() {
    let mut manager = UserManager::new(vec![
        user("a", vec![Role::Viewer]),
        user("b", vec![Role::Operator]),
    ]);
    manager.update_password("b", "new".to_string()).unwrap();
    manager.set_user_enabled("a", false).unwrap();
    assert_eq!(manager.get_user("b").unwrap().password_hash, "new");
    assert_eq!(manager.get_user("a").unwrap().password_hash, "hash");
    assert!(!manager.get_user("a").unwrap().enabled);
    assert!(manager.get_user("b").unwrap().enabled);
    assert!(manager.clear_force_password_change("c").is_err());
    let b = manager.get_user("b").unwrap();
    assert!(b.has_any_role(&[Role::Admin, Role::Operator]));
    assert!(!b.has_any_role(&[Role::Admin]));
}

#[test]
fn default_admin_created_once() {
    let mut manager = UserManager::new(Vec::new());
    assert_eq!(manager.ensure_default_admin("secret"), Ok(true));
    let admin = manager.get_user("admin").unwrap();
    assert!(admin.is_admin());
    assert!(admin.force_password_change);
    assert_ne!(admin.password_hash, "secret");
    assert_eq!(
        igra_cli::user_manager::verify_password("secret", &admin.password_hash),
        Ok(true)
    );
    assert_eq!(
        igra_cli::user_manager::verify_password("wrong_password", &admin.password_hash),
        Ok(false)
    );
    assert_eq!(manager.ensure_default_admin("secret"), Ok(false));
    assert_eq!(manager.users().len(), 1);
}

#[test]
fn test_password_hashing() {
    let password = "test_password_123";
    let hash = igra_cli::user_manager::hash_password(password).unwrap();
    assert_ne!(hash, password);
    assert_eq!(igra_cli::user_manager::verify_password(password, &hash), Ok(true));
    assert_eq!(igra_cli::user_manager::verify_password("wrong_password", &hash), Ok(false));
    assert!(igra_cli::user_manager::verify_password("x", "not a hash").is_err());
}

#[test]
fn test_user_manager() {
    let mut manager = UserManager::new(Vec::new());

    // Initially no users
    assert!(!manager.has_users());

    // Add user
    let roles = vec![Role::Admin];
    let user = User::new("test".to_string(), "hash".to_string(), roles);
    manager.add_user(user).unwrap();

    // Now has users
    assert!(manager.has_users());

    // Get user
    let user = manager.get_user("test").expect("User should exist");
    assert_eq!(user.username, "test");
    assert!(user.is_admin());

    // Remove user
    manager.remove_user("test").unwrap();
    assert!(!manager.has_users());
}
