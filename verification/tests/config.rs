use sasse::bytes::ByteSize;
use sasse::config::{
    Config, ConfigError, Setting, DEFAULT_LOG_BUDGET, DEFAULT_MAX_ATTEMPTS, DEFAULT_MAX_BATCH,
    DEFAULT_MAX_LOG_SIZE,
};

#[test]
fn a_gate_is_the_only_required_setting() {
    let config = Config::parse(r#"gate = "cargo test""#).unwrap();
    assert_eq!(config.gate, "cargo test");
    assert_eq!(config.max_batch, DEFAULT_MAX_BATCH);
    assert_eq!(config.max_attempts, DEFAULT_MAX_ATTEMPTS);
}

#[test]
fn the_defaults_can_be_overridden() {
    let config = Config::parse(
        r#"
        gate = "mise run gate"
        max_batch = 3
        max_attempts = 1
        "#,
    )
    .unwrap();
    assert_eq!(config.max_batch, 3);
    assert_eq!(config.max_attempts, 1);
}

#[test]
fn a_config_without_a_gate_is_rejected() {
    assert!(Config::parse("max_batch = 4").is_err());
}

#[test]
fn an_empty_gate_is_rejected() {
    assert!(Config::parse(r#"gate = "   ""#).is_err());
}

/// A batch of zero would select nothing and gate nothing, so the queue would sit
/// still while looking healthy.
#[test]
fn a_zero_batch_is_rejected() {
    assert!(Config::parse("gate = \"x\"\nmax_batch = 0").is_err());
}

#[test]
fn a_zero_retry_budget_is_rejected() {
    assert!(Config::parse("gate = \"x\"\nmax_attempts = 0").is_err());
}

/// A typo in a setting name should be an error rather than a silently ignored
/// line that leaves the operator believing it took effect.
#[test]
fn an_unknown_setting_is_rejected() {
    assert!(Config::parse("gate = \"x\"\nmax_batches = 4").is_err());
}

#[test]
fn malformed_toml_is_rejected() {
    assert!(Config::parse("gate = ").is_err());
}

#[test]
fn every_setting_of_the_documented_example_is_read() {
    let config = Config::parse(
        r#"
gate = "cargo test --quiet"
max_batch = 8
max_attempts = 3
log_budget = "200MB"
max_log_size = "2MB"
on_settle = "terminal-notifier -message \"$SASSE_BRANCH $SASSE_OUTCOME\""
"#,
    )
    .unwrap();
    assert_eq!(config.gate, "cargo test --quiet");
    assert_eq!(config.max_batch, 8);
    assert_eq!(config.max_attempts, 3);
    assert_eq!(config.log_budget, ByteSize::new(200 * 1024 * 1024));
    assert_eq!(config.max_log_size, ByteSize::new(2 * 1024 * 1024));
    assert_eq!(
        config.on_settle.as_deref(),
        Some("terminal-notifier -message \"$SASSE_BRANCH $SASSE_OUTCOME\"")
    );
}

#[test]
fn what_is_not_set_has_its_default() {
    let config = Config::parse("gate = \"x\"").unwrap();
    assert_eq!(config.max_batch, 8);
    assert_eq!(config.max_attempts, 3);
    assert_eq!(config.log_budget.bytes(), DEFAULT_LOG_BUDGET);
    assert_eq!(config.max_log_size.bytes(), DEFAULT_MAX_LOG_SIZE);
    assert_eq!(config.on_settle, None);
}

#[test]
fn each_way_a_config_can_be_wrong_says_so() {
    assert!(matches!(
        Config::parse("gate = "),
        Err(ConfigError::Malformed { .. })
    ));
    assert_eq!(
        Config::parse("gate = \"x\"\nmax_batches = 4"),
        Err(ConfigError::Unknown {
            key: "max_batches".to_string()
        })
    );
    assert_eq!(
        Config::parse("max_batch = 4"),
        Err(ConfigError::Unusable {
            key: "gate".to_string()
        })
    );
    assert_eq!(
        Config::parse("gate = \"x\"\nmax_attempts = -1"),
        Err(ConfigError::Unusable {
            key: "max_attempts".to_string()
        })
    );
    assert_eq!(
        Config::parse("gate = \"x\"\nlog_budget = \"lots\""),
        Err(ConfigError::Unusable {
            key: "log_budget".to_string()
        })
    );
    assert_eq!(
        Config::parse("gate = \"  \""),
        Err(ConfigError::EmptyGate)
    );
    assert_eq!(
        Config::parse("gate = \"x\"\nmax_batch = 0"),
        Err(ConfigError::ZeroBatch)
    );
    assert_eq!(
        Config::parse("gate = \"x\"\nmax_attempts = 0"),
        Err(ConfigError::ZeroAttempts)
    );
    for bad in ["gate = ", "nope = 1", "gate = \"\"", "gate = \"x\"\nmax_batch = 0"] {
        assert!(!Config::parse(bad).unwrap_err().message().is_empty());
    }
}

#[test]
fn settings_read_elsewhere_are_held_to_the_same_rules() {
    let list = vec![
        Setting {
            key: "gate".to_string(),
            text: Some("true".to_string()),
            number: None,
        },
        Setting {
            key: "max_attempts".to_string(),
            text: None,
            number: Some(2),
        },
    ];
    let config = Config::from_settings(&list).unwrap();
    assert_eq!(config.gate, "true");
    assert_eq!(config.max_attempts, 2);

    assert!(Config::from_settings(&Vec::new()).is_err());
}

/// Of several settings that cannot be read, the one looked up first is named.
#[test]
fn the_first_unusable_setting_is_named() {
    assert_eq!(
        Config::parse("gate = \"x\"\nmax_attempts = true\nmax_batch = 1.5\n"),
        Err(ConfigError::Unusable {
            key: "max_batch".to_string()
        })
    );
    assert_eq!(
        Config::parse("gate = [\"x\"]\nmax_batch = \"8\"\n"),
        Err(ConfigError::Unusable {
            key: "gate".to_string()
        })
    );
}
