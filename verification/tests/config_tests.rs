use iron_mask_proxy::config::{AppConfig, ConfigError, MaskingConfig, ServerConfig, TargetConfig};

fn make_config(port: u16, url: &str, timeout_ms: u64, max_depth: u8) -> AppConfig {
    AppConfig {
        server: ServerConfig {
            port,
            host: "0.0.0.0".to_string(),
        },
        target: TargetConfig {
            url: url.to_string(),
            timeout_ms,
        },
        masking: MaskingConfig {
            exclude_fields: vec![],
            max_depth,
        },
    }
}

#[test]
fn test_validate_port_zero() {
    let config = make_config(0, "http://localhost:8080", 5000, 20);
    assert!(config.validate().is_err());
}

#[test]
fn test_validate_empty_target_url() {
    let config = make_config(3000, "", 5000, 20);
    assert!(config.validate().is_err());
}

#[test]
fn test_validate_invalid_target_url() {
    let config = make_config(3000, "localhost:8080", 5000, 20);
    assert!(config.validate().is_err());
}

#[test]
fn test_validate_zero_timeout() {
    let config = make_config(3000, "http://localhost:8080", 0, 20);
    assert!(config.validate().is_err());
}

#[test]
fn test_validate_zero_max_depth() {
    let config = make_config(3000, "http://localhost:8080", 5000, 0);
    assert!(config.validate().is_err());
}

#[test]
fn test_validate_valid_config() {
    let config = make_config(3000, "http://localhost:8080", 5000, 20);
    assert!(config.validate().is_ok());
}

#[test]
fn test_validate_https_url_accepted() {
    let config = make_config(3000, "https://logs.example.com", 5000, 20);
    assert!(config.validate().is_ok());
}

#[test]
fn test_validate_error_messages() {
    let port_err = make_config(0, "http://localhost:8080", 5000, 20).validate();
    match port_err {
        Err(ConfigError::InvalidConfig(m)) => assert_eq!(m, "Server port cannot be 0"),
        _ => panic!("expected an invalid-config error"),
    }
    let url_err = make_config(3000, "ftp://host", 5000, 20).validate();
    match url_err {
        Err(ConfigError::InvalidConfig(m)) => {
            assert_eq!(m, "Target URL must start with http:// or https://: ftp://host")
        }
        _ => panic!("expected an invalid-config error"),
    }
    let timeout_err = make_config(3000, "http://localhost:8080", 0, 20).validate();
    match timeout_err {
        Err(ConfigError::InvalidConfig(m)) => {
            assert_eq!(m, "Target timeout must be greater than 0")
        }
        _ => panic!("expected an invalid-config error"),
    }
    let depth_err = make_config(3000, "http://localhost:8080", 5000, 0).validate();
    match depth_err {
        Err(ConfigError::InvalidConfig(m)) => assert_eq!(m, "Max depth must be greater than 0"),
        _ => panic!("expected an invalid-config error"),
    }
}

#[test]
fn test_config_error_message_prefixes() {
    let e = ConfigError::FileNotFound("config.yaml".to_string());
    assert_eq!(e.message(), "Config file not found: config.yaml");
    let e = ConfigError::ParseError("bad yaml".to_string());
    assert_eq!(e.message(), "Failed to parse config: bad yaml");
    let e = ConfigError::InvalidConfig("nope".to_string());
    assert_eq!(e.message(), "Invalid configuration: nope");
}
