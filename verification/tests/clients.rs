use alloy_transport_balancer::client_pool::{adopt_client, build_optimized_client, built_client};
use alloy_transport_balancer::{
    set_default_http_client_config, shared_client_for_domain, ClientError, ClientRegistry,
    HttpClientConfig,
};
use std::time::Duration;

#[test]
fn same_domain_returns_same_client() {
    let mut registry = ClientRegistry::new();
    let _a = shared_client_for_domain(&mut registry, "same-test-unique.com").unwrap();
    let _b = shared_client_for_domain(&mut registry, "same-test-unique.com").unwrap();
    assert!(registry.find("same-test-unique.com").is_some());
    assert_eq!(registry.entries.len(), 1);
}

#[test]
fn different_domains_return_different_clients() {
    let mut registry = ClientRegistry::new();
    let _a = shared_client_for_domain(&mut registry, "diff-a-unique.com").unwrap();
    let _b = shared_client_for_domain(&mut registry, "diff-b-unique.org").unwrap();
    assert!(registry.find("diff-a-unique.com").is_some());
    assert!(registry.find("diff-b-unique.org").is_some());
    assert_eq!(registry.entries.len(), 2);
}

#[test]
fn client_config_defaults() {
    let config = HttpClientConfig::default();
    assert_eq!(config.pool_max_idle_per_host, 8);
    assert_eq!(config.pool_idle_timeout, Duration::from_secs(90));
    assert_eq!(config.tcp_keepalive, Duration::from_secs(30));
    assert_eq!(config.connect_timeout, Duration::from_secs(10));
    assert_eq!(config.request_timeout, Duration::from_secs(30));
    assert!(!config.gzip);
}

#[test]
fn clients_are_made_with_the_configured_timeout() {
    let mut registry = ClientRegistry::new();
    set_default_http_client_config(
        &mut registry,
        HttpClientConfig {
            request_timeout: Duration::from_millis(1234),
            gzip: true,
            ..HttpClientConfig::default()
        },
    );
    assert_eq!(registry.default_config.request_timeout, Duration::from_millis(1234));
    let client = shared_client_for_domain(&mut registry, "configured.com").unwrap();
    // A client shows its timeout when it is printed
    assert!(format!("{client:?}").contains("1.234s"));
}

#[test]
fn client_that_cannot_be_built_is_not_registered() {
    let mut registry = ClientRegistry::new();
    let source = reqwest::Client::new().get("not a url").build().unwrap_err();
    let result = adopt_client(&mut registry, "failing.com", Err(ClientError { source }));
    assert!(result.is_err());
    assert!(registry.find("failing.com").is_none());
    let built = build_optimized_client(&HttpClientConfig::default());
    assert!(adopt_client(&mut registry, "working.com", built).is_ok());
    assert_eq!(registry.find("working.com"), Some(0));
}

#[test]
fn outcome_of_building_is_passed_on() {
    let client = reqwest::Client::builder().timeout(Duration::from_millis(4321)).build();
    let client = built_client(client).unwrap();
    assert!(format!("{client:?}").contains("4.321s"));
    let failed = reqwest::Client::new().get("not a url").build().unwrap_err();
    assert!(failed.is_builder());
    assert!(built_client(Err(failed)).unwrap_err().source.is_builder());
}
