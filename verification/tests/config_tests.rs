use cluster_agent::config::{
    BoolSetting, Config, ConfigError, EnvOverrides, KubernetesConfig, ParamError,
};

fn no_env() -> EnvOverrides {
    EnvOverrides { cluster_agent_addr: None, container_logs_dir: None }
}

#[test]
fn test_default_config() {
    let config = Config::default();
    assert_eq!(config.grpc.address, ":50051");
    assert_eq!(config.container_logs_dir, "/var/log/containers");
    assert!(!config.grpc.tls.enabled);
    assert!(config.logging.enabled);
}

#[test]
fn test_apply_param() {
    let mut config = Config::default();

    Config::apply_param(&mut config, "cluster-agent.addr::9090").unwrap();
    assert_eq!(config.grpc.address, ":9090");

    Config::apply_param(&mut config, "cluster-agent.logging.level:warn").unwrap();
    assert_eq!(config.logging.level, "warn");
}

#[test]
fn test_invalid_param_format() {
    let mut config = Config::default();
    let result = Config::apply_param(&mut config, "invalid-format");
    assert!(result.is_err());
}

#[test]
fn default_config_other_fields() {
    let config = Config::default();
    assert!(config.grpc.health_check);
    assert!(!config.grpc.reflection);
    assert_eq!(config.grpc.tls.cert_file, "");
    assert_eq!(config.grpc.tls.key_file, "");
    assert_eq!(config.file_watcher.debounce_ms, 2000);
    assert_eq!(config.file_watcher.buffer_size, 1000);
    assert!(config.kubernetes.in_cluster);
    assert!(config.kubernetes.kubeconfig_path.is_none());
    assert_eq!(config.logging.level, "info");
    assert_eq!(config.logging.format, "json");
    assert!(config.allowed_namespaces.is_empty());
}

#[test]
fn apply_param_every_key() {
    let mut c = Config::default();
    Config::apply_param(&mut c, "cluster-agent.logging.enabled:false").unwrap();
    assert!(!c.logging.enabled);
    Config::apply_param(&mut c, "cluster-agent.logging.format:text").unwrap();
    assert_eq!(c.logging.format, "text");
    Config::apply_param(&mut c, "cluster-agent.tls.enabled:true").unwrap();
    assert!(c.grpc.tls.enabled);
    Config::apply_param(&mut c, "cluster-agent.tls.cert-file:/c.pem").unwrap();
    assert_eq!(c.grpc.tls.cert_file, "/c.pem");
    Config::apply_param(&mut c, "cluster-agent.tls.key-file:/k.pem").unwrap();
    assert_eq!(c.grpc.tls.key_file, "/k.pem");
    Config::apply_param(&mut c, "container-logs-dir:/logs").unwrap();
    assert_eq!(c.container_logs_dir, "/logs");
}

#[test]
fn apply_param_refusals_leave_config_unchanged() {
    let mut c = Config::default();
    match Config::apply_param(&mut c, "no-such.key:1") {
        Err(ParamError::UnknownKey(k)) => assert_eq!(k, "no-such.key"),
        other => panic!("unexpected {:?}", other),
    }
    match Config::apply_param(&mut c, "cluster-agent.tls.enabled:yes") {
        Err(ParamError::InvalidBool(BoolSetting::TlsEnabled)) => {}
        other => panic!("unexpected {:?}", other),
    }
    match Config::apply_param(&mut c, "cluster-agent.logging.enabled:TRUE") {
        Err(ParamError::InvalidBool(BoolSetting::LoggingEnabled)) => {}
        other => panic!("unexpected {:?}", other),
    }
    assert!(matches!(Config::apply_param(&mut c, ""), Err(ParamError::InvalidFormat)));
    assert!(!c.grpc.tls.enabled);
    assert!(c.logging.enabled);
    assert_eq!(c.grpc.address, ":50051");
}

#[test]
fn apply_param_empty_value_and_idempotent() {
    let mut c = Config::default();
    Config::apply_param(&mut c, "cluster-agent.addr:").unwrap();
    assert_eq!(c.grpc.address, "");
    Config::apply_param(&mut c, "cluster-agent.addr:a:b").unwrap();
    Config::apply_param(&mut c, "cluster-agent.addr:a:b").unwrap();
    assert_eq!(c.grpc.address, "a:b");
}

#[test]
fn load_defaults() {
    let c = Config::load(None, &[], ":50051", no_env()).unwrap();
    assert_eq!(c.grpc.address, ":50051");
    assert_eq!(c.container_logs_dir, "/var/log/containers");
}

#[test]
fn load_address_flag_and_file() {
    let c = Config::load(None, &[], ":7000", no_env()).unwrap();
    assert_eq!(c.grpc.address, ":7000");
    let mut file = Config::default();
    file.grpc.address = ":8080".to_string();
    file.container_logs_dir = "/custom/logs".to_string();
    // The address flag wins over the configuration file's address.
    let c = Config::load(Some(file.clone()), &[], ":7000", no_env()).unwrap();
    assert_eq!(c.grpc.address, ":7000");
    assert_eq!(c.container_logs_dir, "/custom/logs");
    // The default address as the flag leaves the file's address.
    let c = Config::load(Some(file), &[], ":50051", no_env()).unwrap();
    assert_eq!(c.grpc.address, ":8080");
}

#[test]
fn load_precedence() {
    let params = vec!["cluster-agent.addr::1".to_string(), "cluster-agent.addr::2".to_string()];
    let c = Config::load(None, &params, ":7000", no_env()).unwrap();
    assert_eq!(c.grpc.address, ":2");
    let env = EnvOverrides {
        cluster_agent_addr: Some(":3".to_string()),
        container_logs_dir: Some("/env/logs".to_string()),
    };
    let c = Config::load(None, &params, ":7000", env).unwrap();
    assert_eq!(c.grpc.address, ":3");
    assert_eq!(c.container_logs_dir, "/env/logs");
}

#[test]
fn load_reports_first_bad_param() {
    let params = vec![
        "cluster-agent.logging.level:debug".to_string(),
        "bogus".to_string(),
        "also:bad".to_string(),
    ];
    match Config::load(None, &params, ":50051", no_env()) {
        Err(ConfigError::InvalidParameter { param, reason: ParamError::InvalidFormat }) => {
            assert_eq!(param, "bogus")
        }
        other => panic!("unexpected {:?}", other),
    }
}

#[test]
fn validate_checks_in_order() {
    let c = Config::default();
    assert!(c.validate(true).is_ok());
    match c.validate(false) {
        Err(ConfigError::MissingContainerLogsDir(d)) => assert_eq!(d, "/var/log/containers"),
        other => panic!("unexpected {:?}", other),
    }
    let mut c = Config::default();
    c.grpc.address = String::new();
    c.logging.level = "loud".to_string();
    assert!(matches!(c.validate(false), Err(ConfigError::EmptyAddress)));
    let mut c = Config::default();
    c.grpc.tls.enabled = true;
    c.grpc.tls.cert_file = "/c".to_string();
    assert!(matches!(c.validate(true), Err(ConfigError::MissingTlsFiles)));
    c.grpc.tls.key_file = "/k".to_string();
    assert!(c.validate(true).is_ok());
}

#[test]
fn validate_logging_level_any_case() {
    let mut c = Config::default();
    for level in ["trace", "DEBUG", "Info", "wArN", "ERROR"] {
        c.logging.level = level.to_string();
        assert!(c.validate(true).is_ok(), "{}", level);
    }
    for level in ["", "verbose", "infos", "\u{212A}", "warning"] {
        c.logging.level = level.to_string();
        match c.validate(true) {
            Err(ConfigError::InvalidLoggingLevel(l)) => assert_eq!(l, level),
            other => panic!("unexpected {:?} for {}", other, level),
        }
    }
}

#[test]
fn kubernetes_config_is_plain() {
    let k = KubernetesConfig { in_cluster: false, kubeconfig_path: Some("/kc".to_string()) };
    assert_eq!(k.kubeconfig_path.as_deref(), Some("/kc"));
}
