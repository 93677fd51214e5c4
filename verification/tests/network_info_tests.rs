use igra_cli::network_info::{
    NetworkInfoDetector, NetworkProbes, SecurityIssueType, SecurityScanner,
};

fn no_probes() -> NetworkProbes {
    NetworkProbes {
        env_public_ip: None,
        ipify_v4: None,
        ifconfig_v4: None,
        ipify_v6: None,
        host_addresses: None,
        hostname: None,
        env_domain: None,
        env_domains: None,
    }
}

#[test]
fn test_network_info_detection() {
    let detector = NetworkInfoDetector::new();
    let info = detector.get_info(&no_probes());
    println!("Network Info: {:?}", info);
}

#[test]
fn test_security_scanner() {
    let scanner = SecurityScanner::new();
    let ports = vec![(3389, "rdp-service".to_string()), (22, "ssh".to_string())];
    let warnings = scanner.scan_public_ports(&ports);
    assert!(!warnings.is_empty());
    assert_eq!(warnings[0].issue_type, SecurityIssueType::PubliclyExposedSensitivePort);
}

#[test]
fn scanner_messages() {
    let scanner = SecurityScanner::new();
    let warnings = scanner.scan_public_ports(&[(6379, "cache".to_string()), (3306, "db".to_string())]);
    assert_eq!(warnings.len(), 2);
    assert_eq!(warnings[0].severity, "high");
    assert_eq!(warnings[0].service, "cache");
    assert_eq!(
        warnings[0].description,
        "Port 6379 (Redis) is publicly accessible: Cache server should not be publicly accessible"
    );
    assert_eq!(
        warnings[0].recommendation,
        "Use firewall rules to restrict access to 6379 or bind to 127.0.0.1 only"
    );
    assert_eq!(warnings[1].severity, "critical");

    let w = scanner.check_ssl(false, true, 80).unwrap();
    assert_eq!(w.issue_type, SecurityIssueType::MissingSSL);
    assert_eq!(w.service, "Port 80");
    assert_eq!(w.description, "HTTP service on port 80 is not using SSL/TLS");
    assert!(scanner.check_ssl(true, true, 80).is_none());
    assert!(scanner.check_ssl(false, false, 80).is_none());
    assert!(scanner.check_ssl(false, true, 443).is_none());
}

#[test]
fn probes_give_addresses() {
    let detector = NetworkInfoDetector::new();
    let mut p = no_probes();
    p.ipify_v4 = Some("not-an-ip\n".to_string());
    p.ifconfig_v4 = Some(" 203.0.113.7\n".to_string());
    p.ipify_v6 = Some("2001:db8::1\n".to_string());
    p.host_addresses = Some("8.8.8.8 10.0.0.5 192.168.1.2".to_string());
    p.hostname = Some("node-1\n".to_string());
    p.env_domain = Some("a.example.com".to_string());
    p.env_domains = Some(" b.example.com, ,a.example.com".to_string());
    let info = detector.get_info(&p);
    assert_eq!(info.public_ipv4, Some("203.0.113.7".to_string()));
    assert_eq!(info.public_ipv6, Some("2001:db8::1".to_string()));
    assert_eq!(info.lan_ip, Some("10.0.0.5".to_string()));
    assert_eq!(info.hostname, Some("node-1".to_string()));
    assert_eq!(info.domains, vec!["a.example.com".to_string(), "b.example.com".to_string()]);

    p.env_public_ip = Some("198.51.100.1".to_string());
    assert_eq!(detector.get_info(&p).public_ipv4, Some("198.51.100.1".to_string()));
}
