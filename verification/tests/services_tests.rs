use igra_cli::backup::BackupManager;
use igra_cli::docker::{container_info_from, names_match, ContainerInfo, DockerManager, PortSummary};
use igra_cli::health::HealthChecker;
use igra_cli::tui::is_editable_config_key;
use igra_cli::l2_monitor::{classify_transaction, uptime, TransactionType};
use igra_cli::metrics::MetricsCollector;
use igra_cli::rpc::{endpoint_url, endpoint_urls, RpcReply, RpcTestResult};
use igra_cli::ssl::{acme_has_certificate, certificate_from_openssl, no_certificate, SslManager};
use igra_cli::versions::{image_and_tag, image_name, latest_docker_hub_tag, version_source, ImageVersion, VersionSource};
use igra_cli::wallet::{estimated_time_ms, send_summary, sort_utxos_recent_first, UtxoInfo, WalletManager};

fn container(name: &str, state: &str) -> ContainerInfo {
    container_info_from(
        None,
        Some(vec![format!("/{}", name)]),
        None,
        None,
        Some(state.to_string()),
        None,
        None,
        None,
    )
}

#[test]
fn rpc_urls() {
    assert_eq!(endpoint_url("http://node:8545//", Some("abc")), "http://node:8545/abc");
    assert_eq!(endpoint_url("http://node:8545", None), "http://node:8545");
    let (a, b) = endpoint_urls("example.org");
    assert_eq!(a, "http://example.org:8545");
    assert_eq!(b, "https://example.org:8545");
}

#[test]
fn rpc_replies_judged() {
    let ok = RpcTestResult::from_reply(RpcReply::Answer(Some("0x10".to_string())), 12);
    assert!(ok.success);
    assert_eq!(ok.block_number.as_deref(), Some("0x10"));
    assert_eq!(ok.response_time_ms, 12);
    assert!(ok.error.is_none());
    let e = RpcTestResult::from_reply(RpcReply::HttpStatus("401 Unauthorized".to_string()), 3);
    assert!(!e.success);
    assert_eq!(e.error.as_deref(), Some("HTTP 401 Unauthorized"));
    let f = RpcTestResult::from_reply(RpcReply::RequestFailed("timeout".to_string()), 3);
    assert_eq!(f.error.as_deref(), Some("Request failed: timeout"));
    let j = RpcTestResult::from_reply(RpcReply::InvalidJson("eof".to_string()), 3);
    assert_eq!(j.error.as_deref(), Some("Invalid JSON response: eof"));
    let r = RpcTestResult::from_reply(RpcReply::RpcError("{\"code\":-1}".to_string()), 3);
    assert_eq!(r.error.as_deref(), Some("RPC error: {\"code\":-1}"));
}

#[test]
fn image_versions() {
    assert_eq!(image_name("igranetwork/viaduct:1.2.3"), "viaduct");
    assert_eq!(image_name("kaspad"), "kaspad");
    assert_eq!(image_name("registry:5000/x/reth:v1"), "reth");
    assert_eq!(version_source("kaspad"), VersionSource::GitHubRelease("kaspanet/rusty-kaspa"));
    assert_eq!(version_source("execution-layer"), VersionSource::GitHubRelease("paradigmxyz/reth"));
    assert_eq!(version_source("viaduct"), VersionSource::DockerHubTags("igranetwork/viaduct"));
    assert_eq!(version_source("postgres"), VersionSource::Unknown);
    let tags = vec!["latest".to_string(), "main".to_string(), "v".to_string(), "v2.1.0".to_string(), "v1.0.0".to_string()];
    assert_eq!(latest_docker_hub_tag(&tags), "v2.1.0");
    assert_eq!(latest_docker_hub_tag(&vec!["latest".to_string(), "vx".to_string()]), "latest");
    let v = ImageVersion::new("v1.0.0".to_string(), Some("v2.1.0".to_string()));
    assert!(v.update_available);
    let same = ImageVersion::new("v2.1.0".to_string(), Some("v2.1.0".to_string()));
    assert!(!same.update_available);
    let floating = ImageVersion::new("latest".to_string(), Some("v2.1.0".to_string()));
    assert!(!floating.update_available);
    let unknown = ImageVersion::new("v1".to_string(), None);
    assert!(!unknown.update_available);
}

#[test]
fn wallet_endpoints_and_paths() {
    assert_eq!(WalletManager::container_name(3), "kaswallet-3");
    assert_eq!(WalletManager::wallet_endpoint(2, None), "http://127.0.0.1:8084");
    assert_eq!(WalletManager::wallet_endpoint(2, Some("32770")), "http://127.0.0.1:32770");
    let m = WalletManager::new("/srv/igra".to_string());
    assert_eq!(m.keys_file(1), "/srv/igra/keys/keys.kaswallet-1.json");
    let slash = WalletManager::new("/srv/igra/".to_string());
    assert_eq!(slash.keys_file(0), "/srv/igra/keys/keys.kaswallet-0.json");
}

#[test]
fn wallet_time_estimates() {
    assert_eq!(estimated_time_ms(1000, 5_000_000, 990), 4_990_000);
    assert_eq!(estimated_time_ms(1000, 5_000, 0), 0);
    assert_eq!(estimated_time_ms(0, 5_000, 10), 0);
    assert_eq!(estimated_time_ms(10, 5_000, 20), 5_000);
}

#[test]
fn wallet_send_message() {
    let ids = vec!["aa".to_string(), "bb".to_string()];
    assert_eq!(send_summary(&ids, 2), "Transaction sent!\nTxIDs: aa, bb\nSigned 2 transactions");
}

#[test]
fn certificates() {
    let m = SslManager::new("/srv".to_string());
    assert_eq!(m.project_root, "/srv");
    let resolvers = vec![vec![Some("a.org".to_string()), None], vec![Some("node.example.org".to_string())]];
    assert!(acme_has_certificate(&resolvers, "node.example.org"));
    assert!(!acme_has_certificate(&resolvers, "b.org"));
    let out = "notBefore=Jan  1 00:00:00 2024 GMT\nnotAfter=Apr  1 00:00:00 2024 GMT\n";
    // 2024-02-01T00:00:00Z
    let now_micros: i64 = 1_706_745_600 * 1_000_000;
    let c = certificate_from_openssl("node.example.org", out, now_micros);
    assert_eq!(c.valid_from, Some(1_704_067_200));
    assert_eq!(c.valid_until, Some(1_711_929_600));
    assert_eq!(c.days_remaining, Some(60));
    assert!(c.is_valid);
    let later = certificate_from_openssl("x", out, 1_712_016_000 * 1_000_000);
    assert_eq!(later.days_remaining, Some(-1));
    assert!(!later.is_valid);
    let garbage = certificate_from_openssl("x", "nothing here", now_micros);
    assert!(garbage.valid_from.is_none() && garbage.days_remaining.is_none() && !garbage.is_valid);
    let none = no_certificate("x");
    assert!(!none.is_valid);
}

#[test]
fn container_listing() {
    let c = container_info_from(
        Some("abc".to_string()),
        Some(vec!["/kaspad".to_string()]),
        Some("kaspad:v1".to_string()),
        Some("Up 2 hours (unhealthy)".to_string()),
        Some("running".to_string()),
        Some(17),
        Some(vec![
            PortSummary { ip: None, public_port: Some(16110), private_port: 16110 },
            PortSummary { ip: Some("127.0.0.1".to_string()), public_port: Some(8080), private_port: 80 },
            PortSummary { ip: None, public_port: None, private_port: 9000 },
        ]),
        Some("igra-orchestra-testnet".to_string()),
    );
    assert_eq!(c.name, "kaspad");
    assert_eq!(c.health.as_deref(), Some("unhealthy"));
    assert_eq!(c.ports, vec!["0.0.0.0:16110->16110".to_string(), "127.0.0.1:8080->80".to_string()]);
    assert!(c.is_running());
    assert_eq!(c.created, 17);
    let bare = container_info_from(None, None, None, None, None, None, None, None);
    assert_eq!(bare.name, "unknown");
    assert_eq!(bare.image, "unknown");
    assert_eq!(bare.state, "unknown");
    assert_eq!(bare.id, "");
}

#[test]
fn active_profiles() {
    let list = vec![
        container("kaspad", "running"),
        container("viaduct", "exited"),
        container("rpc-provider-0", "running"),
        container("rpc-provider-1", "running"),
    ];
    assert_eq!(
        DockerManager::get_active_profiles_from_list(&list),
        vec!["kaspad".to_string(), "frontend-w2".to_string()]
    );
    let many: Vec<ContainerInfo> = (0..7).map(|i| container(&format!("rpc-provider-{}", i), "running")).collect();
    assert_eq!(DockerManager::get_active_profiles_from_list(&many), vec!["frontend-w5".to_string()]);
    let backend = vec![container("block-builder", "running")];
    assert_eq!(DockerManager::get_active_profiles_from_list(&backend), vec!["backend".to_string()]);
    let m = DockerManager::new("/srv".to_string(), "testnet".to_string());
    assert_eq!(m.network(), "testnet");
    assert_eq!(m.project_root(), "/srv");
    assert_eq!(m.compose_project(), "igra-orchestra-testnet");
}

#[test]
fn transactions_and_uptime() {
    assert_eq!(classify_transaction(false, 0, false), TransactionType::Contract);
    assert_eq!(classify_transaction(true, 68, false), TransactionType::Contract);
    assert_eq!(classify_transaction(true, 0, true), TransactionType::Contract);
    assert_eq!(classify_transaction(true, 4, false), TransactionType::Transfer);
    assert_eq!(TransactionType::Entry.as_str(), "ENTRY");
    assert_eq!(uptime(None, 0), "0h 0m");
    assert_eq!(uptime(Some(0), (3 * 3600 + 25 * 60 + 59) * 1_000_000), "3h 25m");
    assert_eq!(uptime(Some(0), -(90 * 60) * 1_000_000), "-1h -30m");
}

#[test]
fn idle_managers() {
    assert!(BackupManager::new().create_backup("kaspad").is_ok());
    assert!(BackupManager::new().list_backups().is_empty());
    assert!(HealthChecker::new().check_all().is_ok());
    assert!(MetricsCollector::new().collect().is_ok());
}

#[test]
fn container_names_match() {
    assert!(names_match(&vec!["/kaspad".to_string()], "kaspad"));
    assert!(names_match(&vec!["kaspad".to_string()], "kaspad"));
    assert!(!names_match(&vec!["/kaspad-2".to_string()], "kaspad"));
    assert!(!names_match(&vec![], "kaspad"));
}

#[test]
fn editable_settings() {
    assert!(is_editable_config_key("NETWORK"));
    assert!(!is_editable_config_key("RPC_ACCESS_TOKEN_1"));
    assert!(!is_editable_config_key("OVH_APPLICATION_KEY"));
    assert!(!is_editable_config_key("DB_PASSWORD"));
}

fn utxo(tx: &str, daa: u64) -> UtxoInfo {
    UtxoInfo {
        address: "kaspatest:q1".to_string(),
        tx_id: tx.to_string(),
        amount_sompi: 150_000_000,
        block_daa_score: daa,
        is_coinbase: false,
        timestamp_ms: 0,
        source_addresses: vec![],
    }
}

#[test]
fn utxos_most_recent_first_keeping_ties_in_order() {
    let sorted = sort_utxos_recent_first(vec![utxo("a", 5), utxo("b", 9), utxo("c", 5), utxo("d", 7)]);
    let ids: Vec<&str> = sorted.iter().map(|u| u.tx_id.as_str()).collect();
    assert_eq!(ids, vec!["b", "d", "a", "c"]);
    assert!(sort_utxos_recent_first(vec![]).is_empty());
}

#[test]
fn image_name_and_tag() {
    assert_eq!(image_and_tag("igranetwork/viaduct:v1.2"), ("viaduct".to_string(), "v1.2".to_string()));
    assert_eq!(image_and_tag("kaspad"), ("kaspad".to_string(), "latest".to_string()));
    assert_eq!(image_and_tag("reg:5000/org/reth:v1:x"), ("reth".to_string(), "v1:x".to_string()));
}
