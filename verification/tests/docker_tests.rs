use igra_cli::docker::{
    compose_services, config_comparison, detect_config_drift, df_volume_rows, filter_sensitive_env,
    health_from_status, int_to_string, port_mapping, DockerError, RunningServiceConfig, YamlValue,
};

fn s(t: &str) -> YamlValue {
    YamlValue::Str(t.to_string())
}

fn compose_doc() -> YamlValue {
    let kaspad = YamlValue::Mapping(vec![
        (s("image"), s("kaspanet/rusty-kaspad:v1.0.0")),
        (
            s("environment"),
            YamlValue::Sequence(vec![s("NETWORK=testnet"), s("A=b=c"), s("NOEQUALS"), YamlValue::Int(3)]),
        ),
        (s("ports"), YamlValue::Sequence(vec![s("16110:16110"), YamlValue::Int(8080), YamlValue::Int(-1)])),
        (s("profiles"), YamlValue::Sequence(vec![s("kaspad")])),
        (s("restart"), s("unless-stopped")),
        (s("command"), YamlValue::Sequence(vec![s("--utxoindex")])),
    ]);
    let viaduct = YamlValue::Mapping(vec![
        (
            s("environment"),
            YamlValue::Mapping(vec![(s("RUST_LOG"), s("info")), (s("N"), YamlValue::Int(1))]),
        ),
        (s("depends_on"), YamlValue::Sequence(vec![s("kaspad"), YamlValue::Null])),
    ]);
    YamlValue::Mapping(vec![
        (s("version"), s("3.8")),
        (s("services"), YamlValue::Mapping(vec![(s("kaspad"), kaspad), (YamlValue::Int(7), viaduct)])),
    ])
}

#[test]
fn compose_file_services() {
    let services = compose_services(&compose_doc());
    assert_eq!(services.len(), 2);
    let k = services.get("kaspad").unwrap();
    assert_eq!(k.image, Some("kaspanet/rusty-kaspad:v1.0.0".to_string()));
    assert_eq!(k.environment.get("NETWORK").map(|v| v.as_str()), Some("testnet"));
    assert_eq!(k.environment.get("A").map(|v| v.as_str()), Some("b=c"));
    assert_eq!(k.environment.len(), 2);
    assert_eq!(k.ports, vec!["16110:16110".to_string(), "8080".to_string(), "-1".to_string()]);
    assert_eq!(k.profiles, vec!["kaspad".to_string()]);
    assert_eq!(k.restart, Some("unless-stopped".to_string()));
    // A command given as a list is not a string.
    assert_eq!(k.command, None);

    let v = services.get("unknown").unwrap();
    assert_eq!(v.image, None);
    assert_eq!(v.environment.get("RUST_LOG").map(|v| v.as_str()), Some("info"));
    assert_eq!(v.environment.len(), 1);
    assert_eq!(v.depends_on, vec!["kaspad".to_string()]);

    assert_eq!(compose_services(&YamlValue::Null).len(), 0);
}

#[test]
fn comparison_and_drift() {
    let services = compose_services(&compose_doc());
    match config_comparison("nope", &services, None) {
        Err(DockerError::ServiceNotInCompose(n)) => assert_eq!(n, "nope"),
        Ok(_) => panic!("expected an error"),
    }
    let c = config_comparison("kaspad", &services, None).unwrap();
    assert_eq!(c.config_drift, vec!["Container is not running".to_string()]);

    let running = RunningServiceConfig {
        image: "kaspanet/rusty-kaspad:v0.9.0".to_string(),
        env_vars: vec![],
        volumes: vec![],
        ports: vec![],
        networks: vec![],
        restart_policy: "no".to_string(),
        command: None,
        entrypoint: None,
        status: "running".to_string(),
        uptime: "N/A".to_string(),
    };
    let drift = detect_config_drift(&c.yaml_config, &Some(running));
    assert_eq!(
        drift,
        vec!["Image: YAML='kaspanet/rusty-kaspad:v1.0.0' ≠ Running='kaspanet/rusty-kaspad:v0.9.0'".to_string()]
    );
    let running_again = RunningServiceConfig {
        image: "kaspanet/rusty-kaspad:v0.9.0".to_string(),
        env_vars: vec![],
        volumes: vec![],
        ports: vec![],
        networks: vec![],
        restart_policy: "no".to_string(),
        command: None,
        entrypoint: None,
        status: "running".to_string(),
        uptime: "N/A".to_string(),
    };
    let c2 = config_comparison("kaspad", &services, Some(running_again)).unwrap();
    assert_eq!(c2.running_config.as_ref().map(|r| r.image.as_str()), Some("kaspanet/rusty-kaspad:v0.9.0"));
    assert_eq!(c2.config_drift, drift);
}

#[test]
fn sensitive_environment_hidden() {
    let env = vec![
        "DB_PASSWORD=hunter2".to_string(),
        "PATH=/usr/bin".to_string(),
        "API_TOKEN=abc".to_string(),
        "BROKEN".to_string(),
        "X=a=b".to_string(),
    ];
    let shown = filter_sensitive_env(&env);
    assert_eq!(
        shown,
        vec![
            ("DB_PASSWORD".to_string(), "***HIDDEN***".to_string()),
            ("PATH".to_string(), "/usr/bin".to_string()),
            ("API_TOKEN".to_string(), "***HIDDEN***".to_string()),
            ("X".to_string(), "a=b".to_string()),
        ]
    );
}

#[test]
fn ports_and_health() {
    let m = port_mapping("8080/tcp", Some("18080")).unwrap();
    assert_eq!(m.container_port, 8080);
    assert_eq!(m.host_port, Some(18080));
    assert_eq!(m.protocol, "tcp");
    assert_eq!(port_mapping("8080/tcp", None).unwrap().host_port, None);
    assert!(port_mapping("8080", None).is_none());
    assert!(port_mapping("x/tcp", None).is_none());

    assert_eq!(health_from_status("Up 2 hours (unhealthy)"), Some("unhealthy".to_string()));
    assert_eq!(health_from_status("Up 1 second (health: starting)"), Some("starting".to_string()));
    assert_eq!(health_from_status("Up 2 hours (healthy)"), Some("healthy".to_string()));
    assert_eq!(health_from_status("Exited (0)"), None);

    assert_eq!(int_to_string(i64::MIN), "-9223372036854775808");
    assert_eq!(int_to_string(42), "42");
}

#[test]
fn volume_rows_of_system_df() {
    let out = "Images space usage:\n\nREPOSITORY TAG SIZE\nreth latest 1GB\n\nLocal Volumes space usage:\n\nVOLUME NAME                 LINKS     SIZE\nigra_reth_data              1         7.066GB\nshort 1\nigra_kaspad_data            1         12.5GB\n\nBuild cache usage: 0B\nextra a b c\n";
    let rows = df_volume_rows(out);
    assert_eq!(
        rows,
        vec![
            ("igra_reth_data".to_string(), "7.066GB".to_string()),
            ("igra_kaspad_data".to_string(), "12.5GB".to_string()),
        ]
    );
    assert!(df_volume_rows("no header\na b c").is_empty());
    let until_build = df_volume_rows("VOLUME NAME LINKS SIZE\nv1 1 2MB\nBuild cache 1 2\nv2 1 3MB");
    assert_eq!(until_build, vec![("v1".to_string(), "2MB".to_string())]);
}
