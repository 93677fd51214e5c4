use igra_cli::docker::YamlValue;
use igra_cli::storage::{
    container_log_info, container_log_path, get_container_log_rotation, log_rotation_config,
    logging_overrides, service_override, set_container_log_rotation, sort_logs_by_size,
    sort_volumes_by_size, update_env_lines, volume_usage, LogRotationSettings, RotationUpdateError,
    StorageHistory, StorageMeasurement,
};

fn s(t: &str) -> YamlValue {
    YamlValue::Str(t.to_string())
}

fn m(secs: i64, used: u64) -> StorageMeasurement {
    StorageMeasurement {
        timestamp_secs: secs,
        timestamp_nanos: 0,
        total_used_bytes: used,
        docker_volumes_bytes: 0,
        docker_images_bytes: 0,
    }
}

fn compose() -> YamlValue {
    let custom = YamlValue::Mapping(vec![
        (s("image"), s("kaspad:latest")),
        (
            s("logging"),
            YamlValue::Mapping(vec![
                (s("driver"), s("local")),
                (
                    s("options"),
                    YamlValue::Mapping(vec![(s("max-size"), s("50m")), (s("max-file"), YamlValue::Int(5))]),
                ),
            ]),
        ),
    ]);
    let defaults = YamlValue::Mapping(vec![(
        s("logging"),
        YamlValue::Mapping(vec![(s("options"), YamlValue::Mapping(vec![]))]),
    )]);
    let anchor = YamlValue::Mapping(vec![(s("logging"), s("*default-logging"))]);
    let no_options = YamlValue::Mapping(vec![(s("logging"), YamlValue::Mapping(vec![(s("driver"), s("none"))]))]);
    YamlValue::Mapping(vec![(
        s("services"),
        YamlValue::Mapping(vec![
            (s("kaspad"), custom),
            (s("viaduct"), defaults),
            (s("reth"), anchor),
            (s("nginx"), no_options),
        ]),
    )])
}

#[test]
fn volume_marked_critical() {
    let v = volume_usage("igra_viaduct_data".to_string(), 10, "/var/x".to_string(), true);
    assert!(v.critical);
    assert_eq!(v.size_bytes, 10);
    let w = volume_usage("igra_reth_data".to_string(), 10, "/var/y".to_string(), false);
    assert!(!w.critical);
}

#[test]
fn container_log_paths() {
    assert_eq!(container_log_path("abc"), "/var/lib/docker/containers/abc/abc-json.log");
    let info = container_log_info("abc".to_string(), Some(vec!["//kaspad".to_string(), "x".to_string()]), 7);
    assert_eq!(info.container_name, "kaspad");
    assert_eq!(info.log_path, "/var/lib/docker/containers/abc/abc-json.log");
    assert_eq!(info.log_size_bytes, 7);
    let unknown = container_log_info("d".to_string(), Some(vec![]), 0);
    assert_eq!(unknown.container_name, "unknown");
    let none = container_log_info("d".to_string(), None, 0);
    assert_eq!(none.container_name, "unknown");
}

#[test]
fn history_keeps_last_ninety_days() {
    let mut h = StorageHistory::new();
    let now_secs: i64 = 1_700_000_000;
    let day: i64 = 86_400;
    h.add_measurement_at(m(now_secs - 100 * day, 1), now_secs * 1_000_000);
    assert!(h.measurements.is_empty());
    h.add_measurement_at(m(now_secs - 89 * day, 2), now_secs * 1_000_000);
    h.add_measurement_at(m(now_secs - day, 3), now_secs * 1_000_000);
    assert_eq!(h.measurements.len(), 2);
    // exactly at the cutoff is dropped
    h.add_measurement_at(m(now_secs - 90 * day, 4), now_secs * 1_000_000);
    assert_eq!(h.measurements.len(), 2);
    let recent = h.get_last_n_days_at(7, now_secs * 1_000_000);
    assert_eq!(recent.len(), 1);
    assert_eq!(recent[0].total_used_bytes, 3);
}

#[test]
fn history_add_measurement_now() {
    let mut h = StorageHistory::new();
    h.add_measurement(m(i64::MIN / 2, 1));
    assert!(h.measurements.is_empty());
    h.add_measurement(m(4_000_000_000, 1));
    assert_eq!(h.measurements.len(), 1);
    assert_eq!(h.get_last_n_days(1).len(), 1);
}

#[test]
fn downsample_keeps_first_of_each_bucket() {
    let hour: i64 = 3600;
    let mut h = StorageHistory::new();
    h.measurements = vec![
        m(0, 1),
        m(hour, 2),
        m(11 * hour, 3),
        m(12 * hour, 4),
        m(13 * hour, 5),
        m(25 * hour, 6),
    ];
    h.downsample_to_interval(12);
    let used: Vec<u64> = h.measurements.iter().map(|x| x.total_used_bytes).collect();
    assert_eq!(used, vec![1, 4, 6]);
    // a second pass changes nothing
    h.downsample_to_interval(12);
    let again: Vec<u64> = h.measurements.iter().map(|x| x.total_used_bytes).collect();
    assert_eq!(again, vec![1, 4, 6]);
}

#[test]
fn downsample_rounds_toward_zero() {
    let mut h = StorageHistory::new();
    // -1 h and +1 h both fall in bucket 0 when dividing toward zero
    h.measurements = vec![m(-3600, 1), m(3600, 2), m(-7200 * 12, 3)];
    h.downsample_to_interval(12);
    let used: Vec<u64> = h.measurements.iter().map(|x| x.total_used_bytes).collect();
    assert_eq!(used, vec![1, 3]);
}

#[test]
fn downsampling_needed() {
    let hour: i64 = 3600;
    let mut h = StorageHistory::new();
    assert!(!h.needs_downsampling(12));
    h.measurements = vec![m(0, 1), m(hour, 1), m(2 * hour, 1), m(3 * hour, 1)];
    // span 3 h: expected 1, twice that is 2, and 4 > 2
    assert!(h.needs_downsampling(12));
    h.measurements = vec![m(0, 1), m(24 * hour, 1)];
    // span 24 h: expected 3, 2 > 6 is false
    assert!(!h.needs_downsampling(12));
}

#[test]
fn rotation_overrides_from_compose() {
    let doc = compose();
    let o = service_override(&YamlValue::Mapping(vec![])).is_none();
    assert!(o);
    let overrides = logging_overrides(&doc);
    assert_eq!(overrides.len(), 2);
    let k = overrides.get("kaspad").unwrap();
    assert_eq!(k.driver, "local");
    assert_eq!(k.max_size, "50m");
    assert_eq!(k.max_file, "5");
    let v = overrides.get("viaduct").unwrap();
    assert_eq!(v.driver, "json-file");
    assert_eq!(v.max_size, "100m");
    assert_eq!(v.max_file, "3");
    assert!(overrides.get("reth").is_none());
    assert!(overrides.get("nginx").is_none());
}

#[test]
fn container_rotation_falls_back_to_global() {
    let doc = compose();
    let config = log_rotation_config(None, Some("20m".to_string()), None, Some(&doc));
    assert_eq!(config.global.driver, "json-file");
    assert_eq!(config.global.max_size, "20m");
    assert_eq!(config.global.max_file, "3");
    let k = get_container_log_rotation(&config, "kaspad");
    assert_eq!(k.max_size, "50m");
    let r = get_container_log_rotation(&config, "reth");
    assert_eq!(r.max_size, "20m");
    let none = log_rotation_config(None, None, None, None);
    assert_eq!(none.overrides.len(), 0);
}

#[test]
fn env_lines_updated_in_place_and_appended() {
    let settings = LogRotationSettings {
        driver: "local".to_string(),
        max_size: "10m".to_string(),
        max_file: "2".to_string(),
    };
    let lines = vec!["NETWORK=testnet".to_string(), "LOG_MAX_SIZE=100m".to_string()];
    let out = update_env_lines(&lines, &settings);
    assert_eq!(
        out,
        vec![
            "NETWORK=testnet".to_string(),
            "LOG_MAX_SIZE=10m".to_string(),
            "LOGGING_DRIVER=local".to_string(),
            "LOG_MAX_FILE=2".to_string(),
        ]
    );
    let twice = update_env_lines(&out, &settings);
    assert_eq!(twice, out);
}

#[test]
fn volumes_and_logs_largest_first() {
    let vols = vec![
        volume_usage("a".to_string(), 5, String::new(), false),
        volume_usage("b".to_string(), 9, String::new(), false),
        volume_usage("c".to_string(), 5, String::new(), false),
        volume_usage("d".to_string(), 0, String::new(), false),
    ];
    let sorted = sort_volumes_by_size(vols);
    let names: Vec<&str> = sorted.iter().map(|v| v.name.as_str()).collect();
    assert_eq!(names, vec!["b", "a", "c", "d"]);
    let logs = vec![
        container_log_info("x".to_string(), None, 1),
        container_log_info("y".to_string(), None, 3),
        container_log_info("z".to_string(), None, 3),
    ];
    let sorted = sort_logs_by_size(logs);
    let ids: Vec<&str> = sorted.iter().map(|l| l.container_id.as_str()).collect();
    assert_eq!(ids, vec!["y", "z", "x"]);
}

fn settings(driver: &str, size: &str, files: &str) -> LogRotationSettings {
    LogRotationSettings { driver: driver.to_string(), max_size: size.to_string(), max_file: files.to_string() }
}

fn service_keys(doc: &YamlValue, name: &str) -> Vec<String> {
    let services = match doc {
        YamlValue::Mapping(e) => &e[0].1,
        _ => panic!("not a mapping"),
    };
    let entries = match services {
        YamlValue::Mapping(e) => e,
        _ => panic!("no services"),
    };
    for (k, v) in entries {
        if let YamlValue::Str(n) = k {
            if n == name {
                if let YamlValue::Mapping(ce) = v {
                    return ce
                        .iter()
                        .map(|(k, _)| match k {
                            YamlValue::Str(t) => t.clone(),
                            _ => String::new(),
                        })
                        .collect();
                }
            }
        }
    }
    panic!("service not found")
}

#[test]
fn written_rotation_reads_back() {
    let doc = compose();
    let new = settings("local", "10m", "2");
    let updated = set_container_log_rotation(doc, "reth", Some(&new)).unwrap();
    let overrides = logging_overrides(&updated);
    assert_eq!(overrides.len(), 3);
    let r = overrides.get("reth").unwrap();
    assert_eq!((r.driver.as_str(), r.max_size.as_str(), r.max_file.as_str()), ("local", "10m", "2"));
    let k = overrides.get("kaspad").unwrap();
    assert_eq!((k.driver.as_str(), k.max_size.as_str(), k.max_file.as_str()), ("local", "50m", "5"));
    assert_eq!(service_keys(&updated, "reth"), vec!["logging".to_string()]);
}

#[test]
fn written_rotation_replaces_in_place_or_appends() {
    let updated = set_container_log_rotation(compose(), "kaspad", Some(&settings("json-file", "1g", "9"))).unwrap();
    assert_eq!(service_keys(&updated, "kaspad"), vec!["image".to_string(), "logging".to_string()]);
    let k = logging_overrides(&updated);
    assert_eq!(k.get("kaspad").unwrap().max_size, "1g");
    let doc = YamlValue::Mapping(vec![(
        s("services"),
        YamlValue::Mapping(vec![(s("web"), YamlValue::Mapping(vec![(s("image"), s("nginx"))]))]),
    )]);
    let updated = set_container_log_rotation(doc, "web", Some(&settings("local", "5m", "1"))).unwrap();
    assert_eq!(service_keys(&updated, "web"), vec!["image".to_string(), "logging".to_string()]);
}

#[test]
fn reset_rotation_goes_back_to_the_shared_settings() {
    let updated = set_container_log_rotation(compose(), "kaspad", None).unwrap();
    let overrides = logging_overrides(&updated);
    assert!(overrides.get("kaspad").is_none());
    assert!(overrides.get("viaduct").is_some());
    assert_eq!(service_keys(&updated, "kaspad"), vec!["image".to_string(), "logging".to_string()]);
    let doc = YamlValue::Mapping(vec![(
        s("services"),
        YamlValue::Mapping(vec![(
            s("web"),
            YamlValue::Mapping(vec![
                (s("logging"), s("x")),
                (s("image"), s("nginx")),
                (s("ports"), YamlValue::Sequence(vec![])),
            ]),
        )]),
    )]);
    let updated = set_container_log_rotation(doc, "web", None).unwrap();
    assert_eq!(
        service_keys(&updated, "web"),
        vec!["ports".to_string(), "image".to_string(), "logging".to_string()]
    );
}

#[test]
fn rotation_update_errors() {
    let none = set_container_log_rotation(compose(), "missing", None);
    assert!(matches!(none, Err(RotationUpdateError::ServiceNotFound)));
    assert_eq!(
        RotationUpdateError::ServiceNotFound.message("missing"),
        "Service 'missing' not found in docker-compose.yml"
    );
    let flat = YamlValue::Mapping(vec![(s("services"), s("none"))]);
    assert!(matches!(
        set_container_log_rotation(flat, "kaspad", None),
        Err(RotationUpdateError::NoServicesSection)
    ));
    assert!(matches!(
        set_container_log_rotation(YamlValue::Null, "kaspad", None),
        Err(RotationUpdateError::NoServicesSection)
    ));
    assert_eq!(
        RotationUpdateError::NoServicesSection.message("x"),
        "No services section found in docker-compose.yml"
    );
    let scalar = YamlValue::Mapping(vec![(s("services"), YamlValue::Mapping(vec![(s("web"), s("nginx"))]))]);
    assert!(matches!(
        set_container_log_rotation(scalar, "web", None),
        Err(RotationUpdateError::ServiceNotFound)
    ));
}

#[test]
fn snapshot_due_after_twelve_whole_hours() {
    let empty = StorageHistory::new();
    assert!(empty.snapshot_due_at(12, 0));
    let h = StorageHistory { measurements: vec![m(0, 1), m(3600, 2)] };
    let hour: i64 = 3_600_000_000;
    assert!(!h.snapshot_due_at(12, 12 * hour));
    assert!(!h.snapshot_due_at(12, 13 * hour - 1));
    assert!(h.snapshot_due_at(12, 13 * hour));
    assert!(!h.snapshot_due_at(12, -20 * hour));
    assert!(h.snapshot_due_at(0, 3600 * 1_000_000));
}
