use igra_cli::cli::{
    displayed_config_value, endpoint_test_token, get_version, start_target, stop_target,
    token_line, token_to_test, upgrade_mode, CliError, StartTarget, StopTarget, UpgradeMode,
};

fn tokens() -> Vec<(usize, Option<String>)> {
    vec![
        (1, None),
        (2, Some("0123456789abcdef0123456789abcdef".to_string())),
        (3, Some("ffffffffeeeeeeeeddddddddcccccccc".to_string())),
    ]
}

#[test]
fn version_line() {
    assert_eq!(get_version("2024-01-01T00:00:00Z"), "0.12.0 (built: 2024-01-01T00:00:00Z)");
}

#[test]
fn token_lines() {
    assert_eq!(
        token_line(2, Some("0123456789abcdef0123456789abcdef")),
        "TOKEN_02: 01234567...89abcdef"
    );
    assert_eq!(token_line(1, None), "TOKEN_01: <not set>");
    assert_eq!(token_line(46, None), "TOKEN_46: <not set>");
}

#[test]
fn token_line_cuts_at_bytes() {
    assert_eq!(token_line(3, Some("\u{e9}\u{e9}\u{e9}\u{e9}x\u{f1}\u{f1}\u{f1}yy")), "TOKEN_03: \u{e9}\u{e9}\u{e9}\u{e9}...\u{f1}\u{f1}\u{f1}yy");
    assert_eq!(token_line(12, Some("abcdefghij")), "TOKEN_12: abcdefgh...cdefghij");
}

#[test]
fn token_for_test_command() {
    let t = tokens();
    assert_eq!(token_to_test(&t, 2).unwrap(), "0123456789abcdef0123456789abcdef");
    assert_eq!(token_to_test(&t, 1), Err(CliError::TokenNotSet(1)));
    assert_eq!(token_to_test(&t, 9), Err(CliError::InvalidTokenNumber));
    assert_eq!(CliError::TokenNotSet(1).message(), "Token 1 is not set");
    assert_eq!(CliError::InvalidTokenNumber.message(), "Invalid token number");
}

#[test]
fn token_for_endpoint_test() {
    let t = tokens();
    assert_eq!(endpoint_test_token(&t, None).unwrap(), "0123456789abcdef0123456789abcdef");
    assert_eq!(endpoint_test_token(&t, Some(3)).unwrap(), "ffffffffeeeeeeeeddddddddcccccccc");
    assert_eq!(endpoint_test_token(&t, Some(1)), Err(CliError::TokenNotFound(1)));
    let none: Vec<(usize, Option<String>)> = vec![(1, None)];
    assert_eq!(endpoint_test_token(&none, None), Err(CliError::NoTokens));
    assert_eq!(CliError::TokenNotFound(7).message(), "Token 7 not found");
    assert_eq!(CliError::NoTokens.message(), "No RPC tokens configured");
    assert_eq!(CliError::DomainNotSet.message(), "IGRA_ORCHESTRA_DOMAIN not set in .env");
}

#[test]
fn secrets_masked_in_config_view() {
    assert_eq!(displayed_config_value("POSTGRES_PASSWORD", "hunter2"), "****");
    assert_eq!(displayed_config_value("JWT_SECRET", "x"), "****");
    assert_eq!(displayed_config_value("OVH_APPLICATION_KEY", "x"), "****");
    assert_eq!(displayed_config_value("NETWORK", "testnet"), "testnet");
}

#[test]
fn command_targets() {
    assert_eq!(
        start_target(Some("kaspad".to_string()), Some("viaduct".to_string())),
        StartTarget::Profile("kaspad".to_string())
    );
    assert_eq!(start_target(None, Some("viaduct".to_string())), StartTarget::Service("viaduct".to_string()));
    assert_eq!(start_target(None, None), StartTarget::Missing);
    assert_eq!(stop_target(true, Some("x".to_string())), StopTarget::All);
    assert_eq!(stop_target(false, Some("x".to_string())), StopTarget::Service("x".to_string()));
    assert_eq!(stop_target(false, None), StopTarget::Missing);
    assert_eq!(upgrade_mode(true, true, true), UpgradeMode::Check);
    assert_eq!(upgrade_mode(false, true, true), UpgradeMode::Pull);
    assert_eq!(upgrade_mode(false, false, true), UpgradeMode::Apply);
    assert_eq!(upgrade_mode(false, false, false), UpgradeMode::Unspecified);
}
