use igra_cli::plugin::{
    default_refresh_interval, ContainerMatcher, DisplayPriority, FetchMethod, FetcherConfig,
    FetcherType, MatchType, MetricDefinition, PluginConfig, PluginMeta,
};
use igra_cli::registry::{
    cache_fresh, condensed_figures, metric_source, plugin_search_paths, service_unit_name, shown_in_list,
    AnyFetcher,
    FetcherError, MetricSource, PluginRegistry,
};

fn fetcher(fetcher_type: FetcherType, port: Option<u16>) -> FetcherConfig {
    FetcherConfig { fetcher_type, method: None, port, path: None, log_pattern: None }
}

#[test]
fn test_plugin_matches_container() {
    let config = PluginConfig {
        plugin: PluginMeta {
            name: "reth".to_string(),
            description: "Reth client".to_string(),
        },
        matchers: vec![
            ContainerMatcher {
                match_type: MatchType::ImageContains,
                value: "reth".to_string(),
            },
            ContainerMatcher {
                match_type: MatchType::NameEquals,
                value: "execution-layer".to_string(),
            },
        ],
        fetcher: FetcherConfig {
            fetcher_type: FetcherType::Prometheus,
            method: Some(FetchMethod::DockerExec),
            port: Some(9001),
            path: Some("/metrics".to_string()),
            log_pattern: None,
        },
        metrics: vec![],
    };

    // Should match by image
    assert!(config.matches_container("some-container", "igranetwork/reth:latest"));

    // Should match by name
    assert!(config.matches_container("execution-layer", "custom/image:tag"));

    // Should not match
    assert!(!config.matches_container("other-service", "nginx:latest"));
}

#[test]
fn test_case_insensitive_matching() {
    let config = PluginConfig {
        plugin: PluginMeta {
            name: "test".to_string(),
            description: "Test".to_string(),
        },
        matchers: vec![ContainerMatcher {
            match_type: MatchType::ImageContains,
            value: "RETH".to_string(),
        }],
        fetcher: FetcherConfig {
            fetcher_type: FetcherType::Prometheus,
            method: None,
            port: None,
            path: None,
            log_pattern: None,
        },
        metrics: vec![],
    };

    // Should match regardless of case
    assert!(config.matches_container("test", "reth:latest"));
    assert!(config.matches_container("test", "RETH:latest"));
    assert!(config.matches_container("test", "Reth:latest"));
}

#[test]
fn test_find_plugin() {
    let mut registry = PluginRegistry::new();

    // Add a test plugin
    let config = PluginConfig {
        plugin: PluginMeta {
            name: "reth".to_string(),
            description: "Reth client".to_string(),
        },
        matchers: vec![ContainerMatcher {
            match_type: MatchType::ImageContains,
            value: "reth".to_string(),
        }],
        fetcher: FetcherConfig {
            fetcher_type: FetcherType::Prometheus,
            method: Some(FetchMethod::DockerExec),
            port: Some(9001),
            path: Some("/metrics".to_string()),
            log_pattern: None,
        },
        metrics: vec![],
    };

    registry.plugins.push(config);

    // Should find plugin by image
    assert!(registry.find_plugin("test", "reth:latest").is_some());

    // Should not find plugin for non-matching container
    assert!(registry.find_plugin("test", "nginx:latest").is_none());
}

#[test]
fn test_parse_simple_number() {
    let output = "123456";
    assert_eq!(output.trim().parse::<f64>().ok(), Some(123456.0));
}

#[test]
fn service_matching_uses_name_rules() {
    let config = PluginConfig {
        plugin: PluginMeta { name: "k".to_string(), description: "d".to_string() },
        matchers: vec![
            ContainerMatcher { match_type: MatchType::ImageContains, value: "kaspad".to_string() },
            ContainerMatcher {
                match_type: MatchType::ServiceNameContains,
                value: "Kaspad".to_string(),
            },
        ],
        fetcher: fetcher(FetcherType::SystemLogs, None),
        metrics: vec![],
    };
    assert!(config.matches_service("kaspad-node.service"));
    assert!(!config.matches_service("nginx"));
    // Service rules never match containers.
    assert!(!config.matches_container("kaspad", "nginx"));

    let mut registry = PluginRegistry::new();
    registry.plugins.push(config);
    assert_eq!(registry.find_service_plugin("KASPAD").map(|p| p.plugin.name.clone()), Some("k".to_string()));
}

#[test]
fn cache_duration_defaults_to_refresh_interval() {
    let mut m = MetricDefinition {
        name: "height".to_string(),
        prometheus_metric: None,
        json_path: None,
        regex_pattern: None,
        display_format: "{value}".to_string(),
        display_priority: DisplayPriority::Primary,
        category: None,
        refresh_interval_secs: default_refresh_interval(),
        cache_duration_secs: None,
    };
    assert_eq!(m.cache_duration(), 5);
    m.cache_duration_secs = Some(30);
    assert_eq!(m.cache_duration(), 30);
}

#[test]
fn fetchers_from_settings() {
    let registry = PluginRegistry::new();
    match registry.create_fetcher(&fetcher(FetcherType::Prometheus, Some(9001))) {
        Ok(AnyFetcher::Prometheus(f)) => {
            assert_eq!(f.port, 9001);
            assert_eq!(f.path, "/metrics");
        }
        other => panic!("unexpected {:?}", other),
    }
    match registry.create_fetcher(&fetcher(FetcherType::Http, Some(80))) {
        Ok(AnyFetcher::Prometheus(f)) => assert_eq!(f.path, "/"),
        other => panic!("unexpected {:?}", other),
    }
    match registry.create_fetcher(&fetcher(FetcherType::Logs, None)) {
        Ok(AnyFetcher::Logs(f)) => {
            assert_eq!(f.lines, 100);
            assert_eq!(f.pattern, None);
        }
        other => panic!("unexpected {:?}", other),
    }
    assert_eq!(
        registry.create_fetcher(&fetcher(FetcherType::Prometheus, None)).unwrap_err(),
        FetcherError::PrometheusPortMissing
    );
    assert_eq!(
        registry.create_fetcher(&fetcher(FetcherType::Systemd, Some(1))).unwrap_err(),
        FetcherError::SystemServiceUnsupported
    );
    assert_eq!(FetcherError::HttpPortMissing.message(), "HTTP fetcher requires port");
}

fn metric(name: &str, priority: DisplayPriority) -> MetricDefinition {
    MetricDefinition {
        name: name.to_string(),
        prometheus_metric: None,
        json_path: None,
        regex_pattern: None,
        display_format: "{value}".to_string(),
        display_priority: priority,
        category: None,
        refresh_interval_secs: 5,
        cache_duration_secs: None,
    }
}

#[test]
fn condensed_figures_take_the_last_primary_and_secondary_value() {
    let metrics = vec![
        metric("a", DisplayPriority::Primary),
        metric("b", DisplayPriority::Secondary),
        metric("c", DisplayPriority::Detail),
        metric("d", DisplayPriority::Primary),
        metric("e", DisplayPriority::Primary),
    ];
    let values = vec![
        Some("10 peers".to_string()),
        Some("5 tps".to_string()),
        Some("detail".to_string()),
        Some("12 peers".to_string()),
        None,
    ];
    let (primary, secondary) = condensed_figures(&metrics, &values);
    assert_eq!(primary, Some("12 peers".to_string()));
    assert_eq!(secondary, Some("5 tps".to_string()));
}

#[test]
fn condensed_figures_without_values_are_empty() {
    let metrics = vec![metric("a", DisplayPriority::Detail), metric("b", DisplayPriority::Primary)];
    let values = vec![Some("x".to_string()), None];
    assert_eq!(condensed_figures(&metrics, &values), (None, None));
}

#[test]
fn only_primary_and_secondary_metrics_are_listed() {
    assert!(shown_in_list(DisplayPriority::Primary));
    assert!(shown_in_list(DisplayPriority::Secondary));
    assert!(!shown_in_list(DisplayPriority::Detail));
}

#[test]
fn a_metric_reads_prometheus_before_its_pattern() {
    let mut m = metric("peers", DisplayPriority::Primary);
    assert!(matches!(metric_source(&m), MetricSource::Nothing));
    m.regex_pattern = Some("peers=(\\d+)".to_string());
    match metric_source(&m) {
        MetricSource::Pattern(p) => assert_eq!(p, "peers=(\\d+)"),
        _ => panic!("expected the pattern"),
    }
    m.prometheus_metric = Some("net_peers".to_string());
    match metric_source(&m) {
        MetricSource::Prometheus(p) => assert_eq!(p, "net_peers"),
        _ => panic!("expected the prometheus metric"),
    }
}

#[test]
fn cached_values_expire_after_their_duration() {
    let second: u64 = 1_000_000_000;
    assert!(cache_fresh(10 * second, 14 * second, 5));
    assert!(!cache_fresh(10 * second, 15 * second, 5));
    assert!(cache_fresh(10 * second, 15 * second - 1, 5));
    assert!(!cache_fresh(10 * second, 10 * second, 0));
    assert!(cache_fresh(10 * second, 3 * second, 1));
    assert!(cache_fresh(0, u64::MAX, u64::MAX));
}

#[test]
fn service_units_end_in_service() {
    assert_eq!(service_unit_name("kaspad"), "kaspad.service");
    assert_eq!(service_unit_name("kaspad.service"), "kaspad.service");
    assert_eq!(service_unit_name(""), ".service");
}

#[test]
fn plugin_directories_in_search_order() {
    let s = plugin_search_paths(Some("/home/op/.config"), Some("/home/op"));
    assert_eq!(
        s.paths,
        vec!["/home/op/.config/igra-cli/plugins", "/etc/igra-cli/plugins", "./plugins"]
    );
    assert_eq!(s.user_path.as_deref(), Some("/home/op/.config/igra-cli/plugins"));
    let s = plugin_search_paths(Some("/cfg/"), None);
    assert_eq!(s.paths[0], "/cfg/igra-cli/plugins");
    let s = plugin_search_paths(None, Some("/root"));
    assert_eq!(s.paths, vec!["/etc/igra-cli/plugins", "./plugins"]);
    assert_eq!(s.user_path.as_deref(), Some("/root/.config/igra-cli/plugins"));
    let s = plugin_search_paths(None, None);
    assert_eq!(s.user_path, None);
}
