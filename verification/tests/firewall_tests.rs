use igra_cli::firewall::{FirewallManager, FirewallRule, FirewallStatus};

#[test]
fn test_parse_rule_line() {
    let fm = FirewallManager::new();

    let rule = fm.parse_rule_line("22/tcp                     ALLOW IN    Anywhere").unwrap();
    assert_eq!(rule.port, "22");
    assert_eq!(rule.protocol, "tcp");
    assert_eq!(rule.action, "allow");
    assert_eq!(rule.source, "0.0.0.0/0");

    let rule = fm.parse_rule_line("16211/tcp                  ALLOW IN    37.27.122.164").unwrap();
    assert_eq!(rule.port, "16211");
    assert_eq!(rule.source, "37.27.122.164");
}

#[test]
fn parse_rule_line_forms() {
    let fm = FirewallManager::new();
    let rule = fm.parse_rule_line("443                        ALLOW IN    Anywhere (v6)").unwrap();
    assert_eq!(rule.port, "443");
    assert_eq!(rule.protocol, "tcp");
    assert_eq!(rule.source, "0.0.0.0/0");
    assert_eq!(rule.destination, Some("443".to_string()));

    let rule = fm.parse_rule_line("Anywhere                   ALLOW IN    192.168.1.0/24").unwrap();
    assert_eq!(rule.port, "*");
    assert_eq!(rule.protocol, "all");
    assert_eq!(rule.source, "192.168.1.0/24");

    let rule = fm.parse_rule_line("53/udp DENY IN 10.0.0.1 extra").unwrap();
    assert_eq!(rule.protocol, "udp");
    assert_eq!(rule.action, "deny");
    assert_eq!(rule.source, "10.0.0.1 extra");

    assert!(fm.parse_rule_line("22/tcp ALLOW IN").is_none());
}

#[test]
fn parse_ufw_output_sample() {
    let fm = FirewallManager::new();
    let out = "Status: active\n\
               Logging: on (low)\n\
               Default: deny (incoming), allow (outgoing), disabled (routed)\n\
               New profiles: skip\n\
               \n\
               To                         Action      From\n\
               --                         ------      ----\n\
               22/tcp                     ALLOW IN    Anywhere\n\
               8545/tcp                   ALLOW IN    192.168.1.0/24\n\
               9000                       ALLOW IN    37.27.122.164\n";
    let st = fm.parse_ufw_output(out);
    assert!(st.active);
    // The policy is read from the text inside the parentheses.
    assert_eq!(st.default_incoming, "incoming");
    assert_eq!(st.default_outgoing, "outgoing");
    assert_eq!(st.rules.len(), 3);
    assert_eq!(st.rules[2].port, "9000");

    assert!(fm.is_port_public(&st, 22));
    assert!(!fm.is_port_public(&st, 8545));
    assert!(!fm.is_port_public(&st, 9000));

    let (public, lan, special) = fm.categorize_rules(&st.rules);
    assert_eq!(public.len(), 1);
    assert_eq!(lan.len(), 1);
    assert_eq!(special.len(), 1);
    assert_eq!(lan[0].port, "8545");
}

#[test]
fn failed_command_gives_inactive_status() {
    let fm = FirewallManager::new();
    let st: FirewallStatus = fm.status_from_ufw(false, "Status: active");
    assert!(!st.active);
    assert_eq!(st.default_incoming, "deny");
    assert_eq!(st.default_outgoing, "allow");
    assert!(st.rules.is_empty());
}

#[test]
fn wildcard_rule_opens_every_port() {
    let fm = FirewallManager::new();
    let st = FirewallStatus {
        active: true,
        default_incoming: "deny".to_string(),
        default_outgoing: "allow".to_string(),
        rules: vec![FirewallRule {
            port: "*".to_string(),
            protocol: "all".to_string(),
            action: "allow".to_string(),
            source: "Anywhere".to_string(),
            destination: None,
        }],
    };
    assert!(fm.is_port_public(&st, 1234));
}

#[test]
fn categorized_rules_cover_every_rule_once() {
    let fm = FirewallManager::new();
    let rule = |source: &str| FirewallRule {
        port: "22".to_string(),
        protocol: "tcp".to_string(),
        action: "allow".to_string(),
        source: source.to_string(),
        destination: None,
    };
    let rules = vec![rule("Anywhere"), rule("10.0.0.0/8"), rule("1.2.3.4"), rule("0.0.0.0/0"), rule("192.168.1.0/24")];
    let (public, lan, other) = fm.categorize_rules(&rules);
    assert_eq!(public.len() + lan.len() + other.len(), rules.len());
    assert_eq!(public.len(), 2);
    assert_eq!(lan.len(), 2);
    assert_eq!(other[0].source, "1.2.3.4");
}
