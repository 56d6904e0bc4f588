use interbank_clearance::{ClearanceConfig, ConfigError};

#[test]
fn configuration_with_a_url_is_accepted() {
    let config = ClearanceConfig::new(
        "ws://localhost:8000/v3/api/offline/claim/".to_string(),
        100,
        None,
        3000,
        365,
    )
    .unwrap();
    assert_eq!(
        config,
        ClearanceConfig {
            endpoint: "ws://localhost:8000/v3/api/offline/claim/".to_string(),
            min_threshold: 100,
            max_threshold: None,
            timeout_ms: 3000,
            claim_validity_days: 365,
        }
    );
    assert!(ClearanceConfig::new("wss://bank.example/claim".to_string(), 0, Some(0), 1, 1).is_ok());
}

#[test]
fn configuration_without_a_url_is_refused() {
    for endpoint in ["", "/v3/api", "not a url", "ws://", "://x", "//localhost:8000/claim"] {
        assert_eq!(
            ClearanceConfig::new(endpoint.to_string(), 100, None, 3000, 365),
            Err(ConfigError::InvalidEndpoint),
            "endpoint {:?}",
            endpoint
        );
    }
}

#[test]
fn ceiling_below_floor_is_refused() {
    assert_eq!(
        ClearanceConfig::new("ws://localhost:8000/".to_string(), 100, Some(99), 3000, 365),
        Err(ConfigError::CeilingBelowFloor)
    );
    assert!(ClearanceConfig::new("ws://localhost:8000/".to_string(), 100, Some(100), 3000, 365).is_ok());
}

#[test]
fn bad_endpoint_is_reported_before_bad_thresholds() {
    assert_eq!(
        ClearanceConfig::new("nowhere".to_string(), 100, Some(1), 3000, 365),
        Err(ConfigError::InvalidEndpoint)
    );
}

#[test]
fn checked_configuration_goes_by_the_given_answer() {
    assert_eq!(
        ClearanceConfig::checked("ws://x/".to_string(), false, 1, None, 1, 1),
        Err(ConfigError::InvalidEndpoint)
    );
    assert_eq!(
        ClearanceConfig::checked("anything".to_string(), true, 5, Some(4), 1, 1),
        Err(ConfigError::CeilingBelowFloor)
    );
    assert_eq!(
        ClearanceConfig::checked("anything".to_string(), true, 5, Some(9), 10, -3),
        Ok(ClearanceConfig {
            endpoint: "anything".to_string(),
            min_threshold: 5,
            max_threshold: Some(9),
            timeout_ms: 10,
            claim_validity_days: -3,
        })
    );
}

#[test]
fn copied_configuration_is_equal() {
    let config =
        ClearanceConfig::new("ws://localhost:8000/".to_string(), 100, Some(500), 3000, 30).unwrap();
    assert_eq!(config.clone(), config);
}
