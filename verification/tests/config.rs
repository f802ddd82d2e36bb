//! Configuration from settings.
use aisearch_emulator::config::{
    Config, ConfigError, StorageMode, DEFAULT_API_VERSION, DEFAULT_LOG_LEVEL, DEFAULT_PORT,
    DEFAULT_VECTOR_MAX_DIMENSION,
};

fn from_pairs(pairs: &[(&str, &str)]) -> Result<Config, ConfigError> {
    Config::from_values(|key| {
        pairs
            .iter()
            .find(|(k, _)| *k == key)
            .map(|(_, v)| v.to_string())
    })
}

fn ok(result: Result<Config, ConfigError>) -> Config {
    match result {
        Ok(config) => config,
        Err(err) => panic!("expected Ok, got Err: {}", err.to_text()),
    }
}

fn err(result: Result<Config, ConfigError>) -> ConfigError {
    match result {
        Ok(_) => panic!("expected Err, got Ok"),
        Err(err) => err,
    }
}

#[test]
fn defaults_when_no_env() {
    let config = ok(from_pairs(&[]));
    assert_eq!(config.port, DEFAULT_PORT);
    assert_eq!(config.storage_mode, StorageMode::Memory);
    assert_eq!(config.api_versions, vec![DEFAULT_API_VERSION.to_owned()]);
    assert_eq!(config.log_level, DEFAULT_LOG_LEVEL);
    assert!(config.enable_admin);
    assert_eq!(config.max_vector_dimension, DEFAULT_VECTOR_MAX_DIMENSION);
    assert!(config.supports_api_version("2024-07-01"));
    assert!(!config.supports_api_version("1900-01-01"));
}

#[test]
fn overrides_and_multi_api_versions() {
    let config = ok(from_pairs(&[
        ("EMULATOR_PORT", "9090"),
        ("EMULATOR_STORAGE__MODE", "file"),
        ("EMULATOR_API_VERSIONS", "2024-07-01, 2025-03-01"),
        ("EMULATOR_LOG_LEVEL", "debug"),
        ("EMULATOR_ENABLE_ADMIN", "false"),
    ]));
    assert_eq!(config.port, 9090);
    assert_eq!(config.storage_mode, StorageMode::File);
    assert_eq!(
        config.api_versions,
        vec!["2024-07-01".to_owned(), "2025-03-01".to_owned()]
    );
    assert_eq!(config.log_level, "debug");
    assert!(!config.enable_admin);
}

#[test]
fn empty_values_fall_back_to_defaults() {
    let config = ok(from_pairs(&[
        ("EMULATOR_PORT", ""),
        ("EMULATOR_ENABLE_ADMIN", ""),
    ]));
    assert_eq!(config.port, DEFAULT_PORT);
    assert!(config.enable_admin);
}

#[test]
fn vector_max_dimension_override() {
    let config = ok(from_pairs(&[("EMULATOR_VECTOR__MAX_DIMENSION", "128")]));
    assert_eq!(config.max_vector_dimension, 128);
    assert!(matches!(
        err(from_pairs(&[("EMULATOR_VECTOR__MAX_DIMENSION", "0")])),
        ConfigError::InvalidMaxVectorDimension(_)
    ));
    assert!(matches!(
        err(from_pairs(&[("EMULATOR_VECTOR__MAX_DIMENSION", "huge")])),
        ConfigError::InvalidMaxVectorDimension(_)
    ));
}

#[test]
fn invalid_values_are_rejected() {
    assert!(matches!(
        err(from_pairs(&[("EMULATOR_PORT", "not-a-port")])),
        ConfigError::InvalidPort(_)
    ));
    assert!(matches!(
        err(from_pairs(&[("EMULATOR_STORAGE__MODE", "disk")])),
        ConfigError::InvalidStorageMode(_)
    ));
    assert!(matches!(
        err(from_pairs(&[("EMULATOR_API_VERSIONS", " , ")])),
        ConfigError::InvalidApiVersions(_)
    ));
    let config_error = err(from_pairs(&[("EMULATOR_ENABLE_ADMIN", "yes")]));
    assert!(matches!(config_error, ConfigError::InvalidBool(_)));
    assert!(config_error.to_text().contains("EMULATOR_ENABLE_ADMIN"));
}
