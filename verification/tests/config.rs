use lettering_core::config::{parse_bool, parse_i64, parse_unsigned, Config, ConfigError};

fn required_vars() -> Vec<(String, String)> {
    [
        ("DATABASE_URL", "postgres://db"),
        ("REDIS_URL", "redis://cache"),
        ("R2_ACCESS_KEY_ID", "key"),
        ("R2_SECRET_ACCESS_KEY", "secret"),
        ("R2_ENDPOINT", "https://r2"),
        ("R2_BUCKET_NAME", "bucket"),
        ("R2_PUBLIC_URL", "https://cdn"),
        ("JWT_SECRET", "jwt"),
        ("ADMIN_EMAIL", "admin@example.com"),
        ("ADMIN_PASSWORD_HASH", "hash"),
    ]
    .iter()
    .map(|(k, v)| (k.to_string(), v.to_string()))
    .collect()
}

#[test]
fn defaults_apply_when_unset() {
    let c = Config::from_vars(&required_vars()).unwrap();
    assert_eq!(c.database_url, "postgres://db");
    assert_eq!(c.database_max_connections, 20);
    assert_eq!(c.r2_region, "auto");
    assert!(!c.r2_force_path_style);
    assert_eq!(c.host, "0.0.0.0");
    assert_eq!(c.port, 3000);
    assert_eq!(c.city_discovery_user_agent, None);
    assert_eq!(c.huggingface_token, None);
    assert!(c.enable_ml_processing);
    assert_eq!(c.ml_model_path, "./models/text_detector.onnx");
    assert!(!c.enable_virus_scan);
    assert_eq!(c.rate_limit_uploads_per_ip, 100);
    assert!(c.enable_pending_auto_approve);
    assert_eq!(c.pending_auto_approve_minutes, 30);
    assert_eq!(c.pending_auto_approve_interval_seconds, 300);
    assert_eq!(c.pending_auto_approve_batch_size, 50);
    assert!(c.ignore_missing_migrations);
}

#[test]
fn set_values_override_defaults() {
    let mut vars = required_vars();
    vars.push(("PORT".to_string(), "8080".to_string()));
    vars.push(("ENABLE_VIRUS_SCAN".to_string(), "true".to_string()));
    vars.push(("PENDING_AUTO_APPROVE_MINUTES".to_string(), "-5".to_string()));
    vars.push(("HUGGINGFACE_TOKEN".to_string(), "hf".to_string()));
    let c = Config::from_vars(&vars).unwrap();
    assert_eq!(c.port, 8080);
    assert!(c.enable_virus_scan);
    assert_eq!(c.pending_auto_approve_minutes, -5);
    assert_eq!(c.huggingface_token, Some("hf".to_string()));
}

#[test]
fn missing_required_variable_is_reported() {
    let vars: Vec<(String, String)> = required_vars()
        .into_iter()
        .filter(|(k, _)| k != "REDIS_URL")
        .collect();
    match Config::from_vars(&vars) {
        Err(ConfigError::Missing { name }) => assert_eq!(name, "REDIS_URL"),
        other => panic!("unexpected {:?}", other.map(|_| ())),
    }
    match Config::from_vars(&Vec::new()) {
        Err(ConfigError::Missing { name }) => assert_eq!(name, "DATABASE_URL"),
        other => panic!("unexpected {:?}", other.map(|_| ())),
    }
}

#[test]
fn invalid_value_is_reported() {
    let mut vars = required_vars();
    vars.push(("PORT".to_string(), "70000".to_string()));
    match Config::from_vars(&vars) {
        Err(ConfigError::Invalid { name }) => assert_eq!(name, "PORT"),
        other => panic!("unexpected {:?}", other.map(|_| ())),
    }
    let mut vars = required_vars();
    vars.push(("R2_FORCE_PATH_STYLE".to_string(), "yes".to_string()));
    match Config::from_vars(&vars) {
        Err(ConfigError::Invalid { name }) => assert_eq!(name, "R2_FORCE_PATH_STYLE"),
        other => panic!("unexpected {:?}", other.map(|_| ())),
    }
}

#[test]
fn number_and_switch_parsing() {
    assert_eq!(parse_unsigned("42", 100), Some(42));
    assert_eq!(parse_unsigned("+42", 100), Some(42));
    assert_eq!(parse_unsigned("101", 100), None);
    assert_eq!(parse_unsigned("-1", 100), None);
    assert_eq!(parse_unsigned("", 100), None);
    assert_eq!(parse_unsigned("+", 100), None);
    assert_eq!(parse_unsigned(" 1", 100), None);
    assert_eq!(parse_unsigned("18446744073709551615", u64::MAX), Some(u64::MAX));
    assert_eq!(parse_unsigned("18446744073709551616", u64::MAX), None);
    assert_eq!(parse_i64("-9223372036854775808"), Some(i64::MIN));
    assert_eq!(parse_i64("9223372036854775807"), Some(i64::MAX));
    assert_eq!(parse_i64("9223372036854775808"), None);
    assert_eq!(parse_i64("-"), None);
    assert_eq!(parse_i64("+7"), Some(7));
    assert_eq!(parse_bool("true"), Some(true));
    assert_eq!(parse_bool("false"), Some(false));
    assert_eq!(parse_bool("True"), None);
}
