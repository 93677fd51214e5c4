use igra_cli::audit::{recent_lines, AuditEvent, AuditEventType, AuditLogger};
use igra_cli::security::IpAddress;

#[test]
fn test_audit_event_creation() {
    let event = AuditEvent::new(AuditEventType::LoginSuccess)
        .with_username("admin".to_string())
        .with_ip(IpAddress::v4(127, 0, 0, 1))
        .with_success(true);

    assert_eq!(event.username, Some("admin".to_string()));
    assert!(event.ip.is_some());
    assert!(event.success);
}

#[test]
fn test_disabled_logger() {
    let logger = AuditLogger::new_disabled();

    let ip = IpAddress::v4(127, 0, 0, 1);
    // Nothing to record.
    assert!(logger.log_login_success("admin", ip).is_none());
}

#[test]
fn enabled_logger_builds_events() {
    let logger = AuditLogger::new("/var/lib/igra");
    assert!(logger.is_enabled());
    assert_eq!(logger.log_path(), "/var/lib/igra/audit.log");

    let e = logger
        .log_login_failed("user", IpAddress::v4(192, 168, 1, 1), "invalid password")
        .unwrap();
    assert_eq!(e.event, AuditEventType::LoginFailed);
    assert_eq!(e.reason, Some("invalid password".to_string()));
    assert!(!e.success);

    let e = logger.log_password_changed("bob", "admin").unwrap();
    assert_eq!(e.username, Some("admin".to_string()));
    assert_eq!(e.resource, Some("bob".to_string()));

    let e = logger
        .log_service_action(AuditEventType::ServiceRestarted, "op", "kaspad")
        .unwrap();
    assert_eq!(e.event.as_str(), "service_restarted");
    assert_eq!(e.resource, Some("kaspad".to_string()));
    assert!(e.success);
    assert!(e.timestamp > 0);
}

#[test]
fn recent_lines_newest_first() {
    let lines: Vec<String> = vec!["a".to_string(), "b".to_string(), "c".to_string()];
    assert_eq!(recent_lines(&lines, 2), vec!["c".to_string(), "b".to_string()]);
    assert_eq!(recent_lines(&lines, 5), vec!["c".to_string(), "b".to_string(), "a".to_string()]);
    assert!(recent_lines(&lines, 0).is_empty());
    assert!(recent_lines(&Vec::new(), 3).is_empty());
}
