use servofetch::error::{invalid_timeout, ExceptionKind};
use servofetch::onion::{
    clamp_timeout_millis, OnionConfig, OnionTransport, OnionTransportConfig, DEFAULT_BOOTSTRAP,
    DEFAULT_RESPONSE_LIMIT, DEFAULT_TIMEOUT_MS,
};

fn transport_config(timeout_ms: i32, response_limit: usize) -> OnionTransportConfig {
    OnionTransportConfig {
        bootstrap: "10.0.0.1:9131".to_string(),
        consensus_file: String::new(),
        timeout_ms,
        verbose: false,
        response_limit,
    }
}

#[test]
fn transport_defaults() {
    let transport = OnionTransport::new();
    let config = transport.config();
    assert_eq!(config.bootstrap, "128.31.0.39:9131");
    assert_eq!(DEFAULT_BOOTSTRAP, "128.31.0.39:9131");
    assert_eq!(config.consensus_file, "");
    assert_eq!(config.timeout_ms, 30_000);
    assert_eq!(DEFAULT_TIMEOUT_MS, 30_000);
    assert!(!config.verbose);
    assert_eq!(config.response_limit, 4 * 1024 * 1024);
    assert_eq!(DEFAULT_RESPONSE_LIMIT, 4 * 1024 * 1024);
    assert!(!transport.session_started());
}

#[test]
fn clamp_timeout_millis_bounds() {
    assert_eq!(clamp_timeout_millis(0).unwrap(), 1);
    assert_eq!(clamp_timeout_millis(1).unwrap(), 1);
    assert_eq!(clamp_timeout_millis(30_000).unwrap(), 30_000);
    assert_eq!(clamp_timeout_millis(i32::MAX as u128).unwrap(), i32::MAX);
    let failure = clamp_timeout_millis(i32::MAX as u128 + 1).unwrap_err();
    assert_eq!(failure.kind, ExceptionKind::ValueError);
    assert_eq!(
        failure.message,
        "onion timeout must be less than or equal to i32::MAX milliseconds"
    );
}

#[test]
fn configure_rejects_bad_options() {
    let mut transport = OnionTransport::new();
    assert_eq!(
        transport.configure(transport_config(0, 10)).unwrap_err(),
        "onion timeout must be a positive number of milliseconds"
    );
    assert_eq!(
        transport.configure(transport_config(-5, 10)).unwrap_err(),
        "onion timeout must be a positive number of milliseconds"
    );
    assert_eq!(
        transport.configure(transport_config(100, 0)).unwrap_err(),
        "onion response limit must be greater than zero"
    );
    assert_eq!(transport.config().bootstrap, "128.31.0.39:9131");
}

#[test]
fn configure_before_session_replaces_options() {
    let mut transport = OnionTransport::new();
    transport.configure(transport_config(100, 10)).unwrap();
    transport.configure(transport_config(200, 20)).unwrap();
    let config = transport.config();
    assert_eq!(config.bootstrap, "10.0.0.1:9131");
    assert_eq!(config.timeout_ms, 200);
    assert_eq!(config.response_limit, 20);
}

#[test]
fn session_pins_options() {
    let mut transport = OnionTransport::new();
    transport.configure(transport_config(100, 10)).unwrap();
    let (used, bootstrap) = transport.begin_request();
    assert!(bootstrap);
    assert_eq!(used.timeout_ms, 100);
    let (_, bootstrap_again) = transport.begin_request();
    assert!(!bootstrap_again);
    assert!(transport.session_started());
    transport.configure(transport_config(100, 10)).unwrap();
    assert_eq!(
        transport.configure(transport_config(300, 10)).unwrap_err(),
        "onion transport is process-wide and was already initialized with different options"
    );
    assert_eq!(transport.config().timeout_ms, 100);
}

#[test]
fn onion_config_new_success() {
    let mut transport = OnionTransport::new();
    let config = OnionConfig::new(
        Ok(2_500),
        "1.2.3.4:9131".to_string(),
        Some("/tmp/consensus".to_string()),
        true,
        1024,
        &mut transport,
    )
    .unwrap();
    assert_eq!(config.bootstrap(), "1.2.3.4:9131");
    assert_eq!(config.consensus_file(), Some("/tmp/consensus".to_string()));
    assert!(config.verbose());
    assert_eq!(config.response_limit(), 1024);
    let applied = transport.config();
    assert_eq!(applied.bootstrap, "1.2.3.4:9131");
    assert_eq!(applied.consensus_file, "/tmp/consensus");
    assert_eq!(applied.timeout_ms, 2_500);
    assert!(applied.verbose);
    assert_eq!(applied.response_limit, 1024);
}

#[test]
fn onion_config_without_consensus_file_uses_empty_path() {
    let mut transport = OnionTransport::new();
    let config =
        OnionConfig::new(Ok(0), "1.2.3.4:9131".to_string(), None, false, 7, &mut transport).unwrap();
    assert_eq!(config.consensus_file(), None);
    assert_eq!(transport.config().consensus_file, "");
    assert_eq!(transport.config().timeout_ms, 1);
}

#[test]
fn onion_config_zero_limit_is_checked_first() {
    let mut transport = OnionTransport::new();
    let failure = OnionConfig::new(
        Err(invalid_timeout()),
        "1.2.3.4:9131".to_string(),
        None,
        false,
        0,
        &mut transport,
    )
    .unwrap_err();
    assert_eq!(failure.kind, ExceptionKind::ValueError);
    assert_eq!(failure.message, "onion_response_limit must be greater than zero");
    assert_eq!(transport.config().bootstrap, "128.31.0.39:9131");
}

#[test]
fn onion_config_passes_timeout_failure_on() {
    let mut transport = OnionTransport::new();
    let failure =
        OnionConfig::new(Err(invalid_timeout()), "x".to_string(), None, false, 5, &mut transport)
            .unwrap_err();
    assert_eq!(failure.kind, ExceptionKind::ValueError);
    assert_eq!(failure.message, "timeout must be a positive finite number within u64 seconds");
}

#[test]
fn onion_config_timeout_too_large() {
    let mut transport = OnionTransport::new();
    let failure = OnionConfig::new(
        Ok(3_000_000_000),
        "x".to_string(),
        None,
        false,
        5,
        &mut transport,
    )
    .unwrap_err();
    assert_eq!(failure.kind, ExceptionKind::ValueError);
    assert_eq!(
        failure.message,
        "onion timeout must be less than or equal to i32::MAX milliseconds"
    );
}

#[test]
fn onion_config_refused_by_started_transport() {
    let mut transport = OnionTransport::new();
    transport.begin_request();
    let failure =
        OnionConfig::new(Ok(1000), "x".to_string(), None, false, 5, &mut transport).unwrap_err();
    assert_eq!(failure.kind, ExceptionKind::RuntimeError);
    assert_eq!(
        failure.message,
        "onion transport is process-wide and was already initialized with different options"
    );
}
