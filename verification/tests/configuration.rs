use wg_easy_rs::config::{config_response, AppConfig, ConfigError, EnvValues};

fn empty_env() -> EnvValues {
    EnvValues {
        wg_host: None,
        wg_port: None,
        wg_mtu: None,
        wg_default_address: None,
        wg_default_dns: None,
        wg_allowed_ips: None,
        wg_pre_up: None,
        wg_post_up: None,
        wg_pre_down: None,
        wg_post_down: None,
        port: None,
        insecure: None,
        password_hash: None,
        db_path: None,
        static_path: None,
    }
}

fn minimal_env() -> EnvValues {
    EnvValues {
        wg_host: Some("vpn.example.org".to_string()),
        insecure: Some("true".to_string()),
        ..empty_env()
    }
}

#[test]
fn defaults_are_applied() {
    let cfg = AppConfig::from_env(minimal_env()).expect("valid configuration");
    assert_eq!(cfg.wg_host, "vpn.example.org");
    assert_eq!(cfg.wg_port, 51820);
    assert_eq!(cfg.wg_mtu, None);
    assert_eq!(cfg.wg_default_address, "10.8.0.x");
    assert_eq!(cfg.wg_default_dns, "1.1.1.1");
    assert_eq!(cfg.wg_allowed_ips, "0.0.0.0/0");
    assert_eq!(cfg.port, 51821);
    assert!(cfg.insecure);
    assert_eq!(cfg.db_path, "/etc/wireguard/wg-easy.db");
    assert_eq!(cfg.static_path, "/app/static");
}

#[test]
fn host_is_required_and_must_not_be_empty() {
    assert_eq!(AppConfig::from_env(empty_env()).err(), Some(ConfigError::MissingHost));
    let env = EnvValues { wg_host: Some("".to_string()), ..empty_env() };
    assert_eq!(AppConfig::from_env(env).err(), Some(ConfigError::EmptyHost));
}

#[test]
fn ports_and_mtu_must_be_numbers() {
    let env = EnvValues { wg_port: Some("abc".to_string()), ..minimal_env() };
    assert_eq!(AppConfig::from_env(env).err(), Some(ConfigError::BadWgPort));
    let env = EnvValues { wg_port: Some("70000".to_string()), ..minimal_env() };
    assert_eq!(AppConfig::from_env(env).err(), Some(ConfigError::BadWgPort));
    let env = EnvValues { wg_mtu: Some("jumbo".to_string()), ..minimal_env() };
    assert_eq!(AppConfig::from_env(env).err(), Some(ConfigError::BadMtu));
    let env = EnvValues { port: Some("-1".to_string()), ..minimal_env() };
    assert_eq!(AppConfig::from_env(env).err(), Some(ConfigError::BadPort));
    let env = EnvValues {
        wg_port: Some("51900".to_string()),
        wg_mtu: Some("1420".to_string()),
        port: Some("8080".to_string()),
        ..minimal_env()
    };
    let cfg = AppConfig::from_env(env).expect("valid");
    assert_eq!(cfg.wg_port, 51900);
    assert_eq!(cfg.wg_mtu, Some(1420));
    assert_eq!(cfg.port, 8080);
}

#[test]
fn password_hash_is_required_unless_insecure() {
    let env = EnvValues { insecure: None, ..minimal_env() };
    assert_eq!(AppConfig::from_env(env).err(), Some(ConfigError::MissingPasswordHash));
    let env = EnvValues {
        insecure: Some("false".to_string()),
        password_hash: Some("SECRET-REDACTED".to_string()),
        ..minimal_env()
    };
    let cfg = AppConfig::from_env(env).expect("valid");
    assert!(!cfg.insecure);
    assert!(cfg.password_hash.is_some());
}

#[test]
fn insecure_flag_is_case_insensitive_and_strict() {
    for v in ["true", "TRUE", "True", "tRuE"] {
        let env = EnvValues { insecure: Some(v.to_string()), ..minimal_env() };
        assert!(AppConfig::from_env(env).expect("valid").insecure, "{v}");
    }
    let env = EnvValues {
        insecure: Some("yes".to_string()),
        password_hash: Some("SECRET-REDACTED".to_string()),
        ..minimal_env()
    };
    assert!(!AppConfig::from_env(env).expect("valid").insecure);
}

#[test]
fn set_hooks_are_reported_as_unsupported() {
    let cfg = AppConfig::from_env(minimal_env()).expect("valid");
    assert!(cfg.unsupported_hooks().is_empty());
    let env = EnvValues {
        wg_pre_up: Some("iptables -A".to_string()),
        wg_post_down: Some("iptables -D".to_string()),
        ..minimal_env()
    };
    let cfg = AppConfig::from_env(env).expect("valid");
    assert_eq!(cfg.unsupported_hooks(), vec!["WG_PRE_UP", "WG_POST_DOWN"]);
}

#[test]
fn response_reflects_the_configuration() {
    let cfg = AppConfig::from_env(minimal_env()).expect("valid");
    let r = config_response(&cfg);
    assert_eq!(r.wg_host, "vpn.example.org");
    assert_eq!(r.wg_port, 51820);
    assert_eq!(r.wg_default_dns, "1.1.1.1");
    assert_eq!(r.wg_allowed_ips, "0.0.0.0/0");
    assert_eq!(r.wg_default_address, "10.8.0.x");
}
