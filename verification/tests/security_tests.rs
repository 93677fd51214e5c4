use igra_cli::security::{
    extract_real_ip, parse_address, IpAddress, IpAllowlist, SecurityConfig, SecurityError, SecurityManager,
};

#[test]
fn test_ip_allowlist_empty() {
    let allowlist = IpAllowlist::default();
    let ip = IpAddress::v4(192, 168, 1, 1);

    // Empty allowlist should allow all
    assert!(allowlist.is_allowed(ip).unwrap());
    assert!(allowlist.is_empty());
}

#[test]
fn test_ip_allowlist_single_ip() {
    let mut allowlist = IpAllowlist::default();
    allowlist.add_network("192.168.1.100/32".to_string()).unwrap();

    let allowed_ip = IpAddress::v4(192, 168, 1, 100);
    let blocked_ip = IpAddress::v4(192, 168, 1, 101);

    assert!(allowlist.is_allowed(allowed_ip).unwrap());
    assert!(!allowlist.is_allowed(blocked_ip).unwrap());
}

#[test]
fn test_ip_allowlist_network() {
    let mut allowlist = IpAllowlist::default();
    allowlist.add_network("192.168.1.0/24".to_string()).unwrap();

    let allowed_ip1 = IpAddress::v4(192, 168, 1, 1);
    let allowed_ip2 = IpAddress::v4(192, 168, 1, 255);
    let blocked_ip = IpAddress::v4(192, 168, 2, 1);

    assert!(allowlist.is_allowed(allowed_ip1).unwrap());
    assert!(allowlist.is_allowed(allowed_ip2).unwrap());
    assert!(!allowlist.is_allowed(blocked_ip).unwrap());
}

#[test]
fn test_ip_allowlist_multiple_networks() {
    let mut allowlist = IpAllowlist::default();
    allowlist.add_network("192.168.1.0/24".to_string()).unwrap();
    allowlist.add_network("10.0.0.0/8".to_string()).unwrap();

    let ip1 = IpAddress::v4(192, 168, 1, 50);
    let ip2 = IpAddress::v4(10, 20, 30, 40);
    let ip3 = IpAddress::v4(172, 16, 0, 1);

    assert!(allowlist.is_allowed(ip1).unwrap());
    assert!(allowlist.is_allowed(ip2).unwrap());
    assert!(!allowlist.is_allowed(ip3).unwrap());
}

#[test]
fn test_remove_network() {
    let mut allowlist = IpAllowlist::default();
    allowlist.add_network("192.168.1.0/24".to_string()).unwrap();

    assert!(!allowlist.is_empty());
    assert!(allowlist.remove_network("192.168.1.0/24"));
    assert!(allowlist.is_empty());

    // Removing non-existent network returns false
    assert!(!allowlist.remove_network("10.0.0.0/8"));
}

#[test]
fn test_extract_real_ip() {
    let peer_ip = IpAddress::v4(10, 0, 0, 1);
    let forwarded_ip = "192.168.1.100";

    // Without trust_proxy, should return peer IP
    assert_eq!(extract_real_ip(peer_ip, Some(forwarded_ip), false), peer_ip);

    // With trust_proxy, should return forwarded IP
    let expected = IpAddress::v4(192, 168, 1, 100);
    assert_eq!(extract_real_ip(peer_ip, Some(forwarded_ip), true), expected);

    // With multiple IPs in header, should use first
    let multiple_ips = "192.168.1.100, 10.0.0.5";
    assert_eq!(extract_real_ip(peer_ip, Some(multiple_ips), true), expected);

    // With invalid header, should fall back to peer IP
    assert_eq!(extract_real_ip(peer_ip, Some("invalid"), true), peer_ip);
}

#[test]
fn invalid_networks_are_refused() {
    let mut allowlist = IpAllowlist::default();
    assert_eq!(
        allowlist.add_network("not-a-network".to_string()),
        Err(SecurityError::InvalidNetwork("not-a-network".to_string()))
    );
    assert!(allowlist.is_empty());
    allowlist.allowed_ips.push("bogus".to_string());
    assert_eq!(
        allowlist.is_allowed(IpAddress::v4(1, 2, 3, 4)),
        Err(SecurityError::InvalidNetwork("bogus".to_string()))
    );
}

#[test]
fn duplicates_added_once_and_ipv6() {
    let mut allowlist = IpAllowlist::default();
    allowlist.add_network("2001:db8::/32".to_string()).unwrap();
    allowlist.add_network("2001:db8::/32".to_string()).unwrap();
    assert_eq!(allowlist.allowed_ips.len(), 1);
    let inside = parse_address("2001:db8::1").unwrap();
    let outside = parse_address("2001:db9::1").unwrap();
    assert!(allowlist.is_allowed(inside).unwrap());
    assert!(!allowlist.is_allowed(outside).unwrap());
    // An IPv4 address never lies in an IPv6 network.
    assert!(!allowlist.is_allowed(IpAddress::v4(32, 1, 13, 184)).unwrap());
    assert_eq!(parse_address("10.0.0.0/8"), None);
    assert_eq!(parse_address("1.2.3.4"), Some(IpAddress::v4(1, 2, 3, 4)));
}

#[test]
fn adding_a_network_twice_keeps_one_copy() {
    let mut list = IpAllowlist::default();
    list.add_network("10.0.0.0/8".to_string()).unwrap();
    list.add_network("10.0.0.0/8".to_string()).unwrap();
    assert_eq!(list.allowed_ips, vec!["10.0.0.0/8".to_string()]);
    assert_eq!(list.is_allowed(IpAddress::v4(10, 1, 2, 3)), Ok(true));
}

#[test]
fn security_settings_file_and_default() {
    assert_eq!(SecurityManager::new("/etc/igra").config_path(), "/etc/igra/security.yaml");
    assert_eq!(SecurityManager::new("/etc/igra/").config_path(), "/etc/igra/security.yaml");
    let d = SecurityManager::allowlist_from(None);
    assert!(d.is_empty() && d.block_tor && !d.block_vpn && !d.trust_proxy);
    assert_eq!(d.proxy_header, "X-Real-IP");
    let mut own = IpAllowlist::default();
    own.add_network("10.0.0.0/8".to_string()).unwrap();
    let back = SecurityManager::allowlist_from(Some(SecurityConfig { security: own }));
    assert_eq!(back.allowed_ips, vec!["10.0.0.0/8".to_string()]);
}
