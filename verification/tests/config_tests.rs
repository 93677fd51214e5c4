use igra_cli::config::{
    generate_hex_string, hex_encode, is_valid_domain, is_valid_email, is_valid_hex, ConfigError,
    ConfigManager, RPC_TOKEN_COUNT,
};

fn load(content: &str) -> ConfigManager {
    ConfigManager::from_content("/tmp/test.env".to_string(), content)
}

#[test]
fn test_config_manager() {
    let content = "# Test configuration\n\
                   NETWORK=testnet\n\
                   NODE_ID=test-node\n\
                   RPC_ACCESS_TOKEN_1=deadbeefdeadbeefdeadbeefdeadbeef\n";
    let config = load(content);

    assert_eq!(config.get("NETWORK"), Some("testnet"));
    assert_eq!(config.get("NODE_ID"), Some("test-node"));

    let errors = config.validate();
    assert_eq!(errors.len(), 0);
}

#[test]
fn test_generate_tokens() {
    let mut config = load("NETWORK=testnet\n");

    let token = config.generate_rpc_token(1).unwrap();
    assert_eq!(token.len(), 32);
    assert!(is_valid_hex(&token));
}

#[test]
fn token_index_out_of_range() {
    let mut config = load("NETWORK=testnet\n");
    assert_eq!(config.generate_rpc_token(0), Err(ConfigError::TokenIndexOutOfRange(0)));
    assert_eq!(
        config.generate_rpc_token(RPC_TOKEN_COUNT + 1),
        Err(ConfigError::TokenIndexOutOfRange(RPC_TOKEN_COUNT + 1))
    );
    assert_eq!(config.get("RPC_ACCESS_TOKEN_0"), None);
}

#[test]
fn generate_all_tokens_sets_each_key() {
    let mut config = load("NETWORK=testnet\n");
    let tokens = config.generate_all_rpc_tokens().unwrap();
    assert_eq!(tokens.len(), 46);
    assert_eq!(config.get("RPC_ACCESS_TOKEN_46"), Some(tokens[45].as_str()));
    assert_eq!(config.get("NETWORK"), Some("testnet"));
    let listed = config.get_rpc_tokens();
    assert_eq!(listed.len(), 46);
    assert_eq!(listed[0].0, 1);
    assert_eq!(listed[0].1.as_deref(), Some(tokens[0].as_str()));
}

#[test]
fn comments_and_values_are_parsed() {
    let config = load("  # the network\nNETWORK = mainnet \n\nBROKEN LINE\nA=b=c\n");
    assert_eq!(config.get("NETWORK"), Some("mainnet"));
    assert_eq!(config.get("A"), Some("b=c"));
    assert_eq!(config.get("BROKEN LINE"), None);
    assert_eq!(config.keys(), vec!["A".to_string(), "NETWORK".to_string()]);
}

#[test]
fn set_then_get_and_render() {
    let original = "# c\nNETWORK=testnet\nOTHER=1\n";
    let mut config = load(original);
    config.set("NETWORK".to_string(), "mainnet".to_string());
    config.set("NEW".to_string(), "x".to_string());
    assert_eq!(config.get("NETWORK"), Some("mainnet"));
    assert_eq!(config.get("NEW"), Some("x"));
    assert_eq!(config.render(original), "# c\nNETWORK=mainnet\nOTHER=1");
}

#[test]
fn validate_reports_each_problem() {
    let config = load(
        "IGRA_ORCHESTRA_DOMAIN=bad_domain\nIGRA_ORCHESTRA_DOMAIN_EMAIL=nobody\nRPC_ACCESS_TOKEN_2=xyz\n",
    );
    let errors = config.validate();
    assert_eq!(
        errors,
        vec![
            "NETWORK is not set".to_string(),
            "NODE_ID is not set".to_string(),
            "Invalid domain: bad_domain".to_string(),
            "Invalid email: nobody".to_string(),
            "No RPC access tokens configured".to_string(),
            "RPC_ACCESS_TOKEN_2 must be 32 hex characters".to_string(),
        ]
    );
}

#[test]
fn wallet_and_domain_settings() {
    let config = load(
        "W0_WALLET_TO_ADDRESS=kaspa:abc\nIGRA_ORCHESTRA_DOMAIN=node.example.com\nIGRA_ORCHESTRA_DOMAIN_EMAIL=a@example.com\nOVH_ENDPOINT=ovh-eu\n",
    );
    let w = config.get_wallet_config(0).unwrap();
    assert_eq!(w.worker_id, 0);
    assert_eq!(w.address, "kaspa:abc");
    assert_eq!(w.password, None);
    assert!(config.get_wallet_config(1).is_none());
    let d = config.get_domain_config().unwrap();
    assert_eq!(d.domain, "node.example.com");
    assert_eq!(d.ovh_endpoint, Some("ovh-eu".to_string()));
    assert!(!d.has_ovh_config());
}

#[test]
fn text_checks() {
    assert!(is_valid_hex("DeadBeef09"));
    assert!(!is_valid_hex(""));
    assert!(!is_valid_hex("xyz"));
    assert!(is_valid_domain("node.example.com"));
    assert!(!is_valid_domain("localhost"));
    assert!(!is_valid_domain("-a.com"));
    assert!(is_valid_email("me@example.org"));
    assert!(!is_valid_email("@example.org"));
    assert!(!is_valid_email("a@b@example.org"));
    assert_eq!(hex_encode(&[0x00, 0xab, 0x0f]), "00ab0f");
    assert_eq!(generate_hex_string(8).len(), 8);
}

#[test]
fn to_map_holds_every_value() {
    let config = load("A=1\nB=2\n");
    let m = config.to_map();
    assert_eq!(m.len(), 2);
    assert_eq!(m.get("B").map(|s| s.as_str()), Some("2"));
}

#[test]
fn saved_value_reads_back() {
    let original = "# node\nNETWORK=testnet\n\nNODE_ID = old-node\r\nBROKEN LINE\nDOMAIN=a.org";
    let mut config = load(original);
    config.set("NODE_ID".to_string(), "new-node".to_string());
    config.set("NEW_KEY".to_string(), "x".to_string());
    let saved = config.render(original);
    assert_eq!(saved, "# node\nNETWORK=testnet\n\nNODE_ID=new-node\nDOMAIN=a.org");
    let reread = load(&saved);
    assert_eq!(reread.get("NODE_ID"), Some("new-node"));
    assert_eq!(reread.get("NETWORK"), Some("testnet"));
    assert_eq!(reread.get("DOMAIN"), Some("a.org"));
    // a key the file never had is not written
    assert_eq!(reread.get("NEW_KEY"), None);
}

#[test]
fn set_counts_only_new_keys() {
    let mut config = load("NETWORK=testnet\nNODE_ID=a\n");
    assert_eq!(config.keys().len(), 2);
    config.set("NETWORK".to_string(), "mainnet".to_string());
    assert_eq!(config.keys().len(), 2);
    config.set("EXTRA".to_string(), "1".to_string());
    assert_eq!(config.keys(), vec!["EXTRA".to_string(), "NETWORK".to_string(), "NODE_ID".to_string()]);
}

#[test]
fn generated_tokens_pass_validation() {
    let mut config = load("NETWORK=testnet\nNODE_ID=a\nRPC_ACCESS_TOKEN_3=bad\n");
    assert_eq!(config.validate().len(), 2);
    config.generate_all_rpc_tokens().unwrap();
    assert!(config.validate().is_empty());
}
