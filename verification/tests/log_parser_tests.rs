use igra_cli::log_parser::{
    count_matches, format_large_number, kaspad_metrics_from, parse_block_builder_logs,
    parse_docker_log_line, parse_execution_layer_logs, parse_health_check_logs,
    parse_kaspad_logs, parse_kaswallet_logs, parse_rpc_provider_logs, parse_service_logs,
    parse_traefik_logs, parse_viaduct_logs, strip_ansi_codes, LogLevel,
};

#[test]
fn test_kaspad_synced() {
    let logs = "2025-10-18 20:45:37.476+00:00 [INFO ] Accepted 7 blocks ...0f7b via relay\n\
                2025-10-18 20:45:46.689+00:00 [INFO ] Tx throughput stats: 5.00 u-tps";

    let metrics = parse_kaspad_logs(logs);
    assert_eq!(metrics.status_text, Some("Synced".to_string()));
    assert_eq!(metrics.primary_metric, Some("5.00 TPS".to_string()));
    assert!(metrics.is_healthy);
}

#[test]
fn test_execution_layer() {
    let logs = "Block added to canonical chain number=7705704 txs=15";

    let metrics = parse_execution_layer_logs(logs);
    assert_eq!(metrics.status_text, Some("Active".to_string()));
    assert_eq!(metrics.primary_metric, Some("#7705704".to_string()));
    assert_eq!(metrics.secondary_metric, Some("15 txs".to_string()));
}

#[test]
fn test_format_large_number() {
    assert_eq!(format_large_number(1234567), "1,234,567");
    assert_eq!(format_large_number(283910951), "283,910,951");
}

#[test]
fn format_large_number_edges() {
    assert_eq!(format_large_number(0), "0");
    assert_eq!(format_large_number(999), "999");
    assert_eq!(format_large_number(1000), "1,000");
    assert_eq!(format_large_number(u64::MAX), "18,446,744,073,709,551,615");
}

#[test]
fn kaspad_syncing_and_warning() {
    let m = parse_kaspad_logs("Processed 12 blocks and 340 headers in the last 10s");
    assert_eq!(m.status_text, Some("Syncing".to_string()));
    assert_eq!(m.primary_metric, Some("12 blk/10s".to_string()));
    assert_eq!(m.secondary_metric, Some("340 hdr".to_string()));
    let m = parse_kaspad_logs("[WARN ] something odd");
    assert_eq!(m.status_text, Some("Warning".to_string()));
    assert!(!m.is_healthy);
    let m = kaspad_metrics_from(false, &None, &None, false);
    assert_eq!(m.status_text, None);
    assert!(m.is_healthy);
}

#[test]
fn viaduct_daa_and_latency() {
    let m = parse_viaduct_logs("Adding block with score 283910951 to the queue\nSending took 150 ms");
    assert_eq!(m.status_text, Some("Active".to_string()));
    assert_eq!(m.primary_metric, Some("DAA:283,910,951".to_string()));
    assert_eq!(m.secondary_metric, Some("150ms".to_string()));
    assert!(!m.is_healthy);
    let m = parse_viaduct_logs("queue len now 7");
    assert_eq!(m.secondary_metric, Some("Q:7".to_string()));
    assert!(m.is_healthy);
}

#[test]
fn builder_wallet_health_traefik() {
    let m = parse_block_builder_logs("Block built with 3 transactions");
    assert_eq!(m.primary_metric, Some("3 txs".to_string()));
    let m = parse_block_builder_logs("Building payload on parent 0xabc");
    assert_eq!(m.status_text, Some("Building".to_string()));

    let m = parse_kaswallet_logs("Connected to kaspa node successfully");
    assert_eq!(m.status_text, Some("Syncing".to_string()));

    let m = parse_health_check_logs("Successfully pushed checkpoint block 100 (latest: 107)");
    assert_eq!(m.status_text, Some("Lagging".to_string()));
    assert_eq!(m.primary_metric, Some("-7 blk".to_string()));
    assert!(m.is_healthy);
    let m = parse_health_check_logs("checkpoint block 100 (latest: 100)");
    assert_eq!(m.status_text, Some("Synced".to_string()));
    let m = parse_health_check_logs("checkpoint block 100 (latest: 120)");
    assert_eq!(m.status_text, Some("Behind".to_string()));
    assert!(!m.is_healthy);

    let m = parse_traefik_logs("No ACME certificate generation required\nERR x\nERRERR");
    assert_eq!(m.status_text, Some("SSL OK".to_string()));
    assert_eq!(m.secondary_metric, Some("3 err".to_string()));
    assert!(!m.is_healthy);
}

#[test]
fn rpc_provider_request_rate() {
    let mut logs = String::new();
    for _ in 0..25 {
        logs.push_str("RPC REQUEST id=1 method=eth_call time=12µs\n");
    }
    let m = parse_rpc_provider_logs(&logs);
    assert_eq!(m.status_text, Some("Serving".to_string()));
    assert_eq!(m.primary_metric, Some("2 req/s".to_string()));
}

#[test]
fn service_dispatch_by_name() {
    let m = parse_service_logs("igra-kaspad-1", "\x1b[32mAccepted 1 blocks via relay\x1b[0m");
    assert_eq!(m.status_text, Some("Synced".to_string()));
    let m = parse_service_logs("unknown", "anything");
    assert_eq!(m.status_text, None);
    assert!(!m.is_healthy);
    assert_eq!(strip_ansi_codes("\x1b[1;31mred\x1b[0m"), "red");
    assert_eq!(count_matches(&['a', 'a', 'a'], &['a', 'a']), 1);
}

#[test]
fn docker_log_line_formats() {
    let l = parse_docker_log_line("kaspad  | 2025-10-18 20:45:37.476+00:00 [INFO ] Accepted 7 blocks");
    assert_eq!(l.service, "kaspad");
    assert_eq!(l.timestamp, "2025-10-18 20:45:37.476+00:00");
    assert_eq!(l.level, LogLevel::Info);
    assert_eq!(l.message, "Accepted 7 blocks");

    let l = parse_docker_log_line(
        "viaduct | [2025-10-21T08:48:40Z INFO  viaduct::uni_storage] stored block",
    );
    assert_eq!(l.timestamp, "2025-10-21T08:48:40Z");
    assert_eq!(l.module, "viaduct::uni_storage");
    assert_eq!(l.module_short, "uni_storage");
    assert_eq!(l.message, "stored block");

    let l = parse_docker_log_line(
        "block-builder | [2025-10-21T08:48:40Z WARN  builder::core: src/main.rs:10] slow",
    );
    assert_eq!(l.module, "builder::core");
    assert_eq!(l.level, LogLevel::Warn);

    let l = parse_docker_log_line("svc | 08:48:40 ERROR app::net: src/net.rs:42: connection lost");
    assert_eq!(l.timestamp, "08:48:40");
    assert_eq!(l.module, "app::net");
    assert_eq!(l.module_short, "net");
    assert_eq!(l.message, "connection lost");

    let l = parse_docker_log_line("el | 2025-10-21T08:48:40.123Z INFO reth::node: Block added");
    assert_eq!(l.module, "reth::node");
    assert_eq!(l.message, "Block added");

    let l = parse_docker_log_line("x | 2025-10-21 08:48:40 something warn here");
    assert_eq!(l.timestamp, "2025-10-21 08:48:40");
    assert_eq!(l.message, "something warn here");
    assert_eq!(l.level, LogLevel::Warn);

    let l = parse_docker_log_line("x | plain text");
    assert_eq!(l.timestamp, "");
    assert_eq!(l.message, "plain text");
    assert_eq!(l.level, LogLevel::Unknown);

    let l = parse_docker_log_line("no pipe here");
    assert_eq!(l.service, "");
    assert_eq!(l.message, "no pipe here");
    assert_eq!(l.raw_line, "no pipe here");
}

#[test]
fn level_names() {
    assert_eq!(LogLevel::from_str("error: x"), LogLevel::Error);
    assert_eq!(LogLevel::from_str("Warning"), LogLevel::Warn);
    assert_eq!(LogLevel::from_str("nothing"), LogLevel::Unknown);
    assert_eq!(LogLevel::Warn.to_string(), "WARN ");
    assert_eq!(LogLevel::Unknown.to_string(), "     ");
}
