use alloy_transport_balancer::{
    BalancerConfig, ClientRegistry, EndpointConfig, HttpClientConfig, InvalidEndpoints,
    LoadBalancedTransport, ThrottleConfig, ThrottleRegistry, TransportError, Url, Weight,
};
use std::time::Duration;

fn url(text: &str) -> Url {
    Url::parse(text).unwrap()
}

fn provider(i: usize) -> Url {
    url(&format!("http://provider-{i}.example.com"))
}

fn new_transport(endpoints: Vec<(Url, Weight)>) -> LoadBalancedTransport {
    let mut throttles = ThrottleRegistry::new();
    let mut clients = ClientRegistry::new();
    LoadBalancedTransport::new(endpoints, &mut throttles, &mut clients).unwrap()
}

fn test_transport(weights: &[u32]) -> LoadBalancedTransport {
    let endpoints: Vec<(Url, Weight)> =
        weights.iter().enumerate().map(|(i, &w)| (provider(i), Weight(w))).collect();
    new_transport(endpoints)
}

#[test]
fn builder_supports_total_weights_above_u32_max() {
    let transport = test_transport(&[u32::MAX, u32::MAX]);

    assert_eq!(transport.urls.len(), 2);
    assert_eq!(transport.total_weight as u128, u128::from(u32::MAX) * 2);
}

#[test]
fn weighted_distribution() {
    let mut transport = test_transport(&[10, 5, 2]);
    let total = 10 + 5 + 2;
    let iterations = total as usize * 1000;
    let mut counts = [0usize; 3];

    for _ in 0..iterations {
        let idx = transport.select_endpoint();
        counts[idx] += 1;
    }

    // With perfect round-robin, distribution should be exact over full cycles.
    // 17000 requests / 17 total_weight = 1000 full cycles.
    assert_eq!(counts[0], 10_000, "provider 0 (weight=10)");
    assert_eq!(counts[1], 5_000, "provider 1 (weight=5)");
    assert_eq!(counts[2], 2_000, "provider 2 (weight=2)");
}

#[test]
fn single_endpoint() {
    let mut transport = test_transport(&[5]);
    for _ in 0..100 {
        assert_eq!(transport.select_endpoint(), 0);
    }
}

#[test]
fn equal_weights() {
    let mut transport = test_transport(&[1, 1, 1]);
    let mut counts = [0usize; 3];
    for _ in 0..300 {
        counts[transport.select_endpoint()] += 1;
    }
    assert_eq!(counts, [100, 100, 100]);
}

#[test]
fn selection_goes_through_the_weights_in_order() {
    let mut transport = test_transport(&[2, 1, 3]);
    let picked: Vec<usize> = (0..8).map(|_| transport.select_endpoint()).collect();
    assert_eq!(picked, vec![0, 0, 1, 2, 2, 2, 0, 0]);
    transport.counter = u64::MAX;
    // 2^64 - 1 leaves 3 over when divided by 6
    assert_eq!(transport.select_endpoint(), 2);
    assert_eq!(transport.counter, 0);
}

#[test]
fn faulty_endpoints_are_refused() {
    let none = LoadBalancedTransport::builder(vec![]);
    assert_eq!(none.validate(), Err(InvalidEndpoints::Empty));
    let weightless = LoadBalancedTransport::builder(vec![
        (provider(0), Weight(10)),
        (provider(1), Weight(0)),
        (provider(2), Weight(5)),
    ]);
    assert_eq!(weightless.validate(), Err(InvalidEndpoints::ZeroWeight(1)));
    let tiny = LoadBalancedTransport::builder_with_endpoints(vec![
        EndpointConfig::new(provider(0), Weight(1)).with_max_request_bytes(0),
    ]);
    assert_eq!(tiny.validate(), Err(InvalidEndpoints::ZeroRequestBytes(0)));
    let stuck = LoadBalancedTransport::builder_with_endpoints(vec![
        EndpointConfig::new(provider(0), Weight(1)),
        EndpointConfig::new(provider(1), Weight(1)).with_max_in_flight(0),
    ]);
    assert_eq!(stuck.validate(), Err(InvalidEndpoints::ZeroInFlight(1)));
    let sound = LoadBalancedTransport::builder(vec![(provider(0), Weight(10))]);
    assert_eq!(sound.validate(), Ok(()));
}

#[test]
fn weight_default_is_100() {
    assert_eq!(Weight::default(), Weight(100));
}

#[test]
fn weight_from_u32() {
    assert_eq!(Weight::from(42), Weight(42));
}

#[test]
fn balancer_config_defaults_are_sane() {
    let config = BalancerConfig::default();
    assert!(config.max_retry_rounds >= 1);
    assert!(config.initial_backoff <= config.max_backoff);
    assert!(config.rate_limit_failover_delay < config.initial_backoff);
}

#[test]
fn balancer_config_default_values() {
    let config = BalancerConfig::default();
    assert_eq!(config.max_retry_rounds, 3);
    assert_eq!(config.initial_backoff, Duration::from_millis(100));
    assert_eq!(config.max_backoff, Duration::from_secs(4));
    assert_eq!(config.rate_limit_failover_delay, Duration::from_millis(75));
    assert_eq!(config.heavy_throttle_threshold, Duration::from_millis(500));
}

#[test]
fn builder_with_defaults() {
    let transport = LoadBalancedTransport::builder(vec![(
        url("http://example.com"),
        Weight::default(),
    )])
    .build(&mut ThrottleRegistry::new(), &mut ClientRegistry::new())
    .unwrap();
    assert_eq!(transport.total_weight, 100);
}

#[test]
fn builder_with_custom_config() {
    let config = BalancerConfig {
        max_retry_rounds: 5,
        ..Default::default()
    };
    let transport = LoadBalancedTransport::builder(vec![(
        url("http://example.com"),
        Weight::default(),
    )])
    .config(config)
    .build(&mut ThrottleRegistry::new(), &mut ClientRegistry::new())
    .unwrap();
    assert_eq!(transport.config.max_retry_rounds, 5);
}

#[test]
fn builder_sets_registry_defaults() {
    let mut throttles = ThrottleRegistry::new();
    let mut clients = ClientRegistry::new();
    LoadBalancedTransport::builder(vec![(url("http://example.com"), Weight(1))])
        .throttle_config(ThrottleConfig {
            max_backoff_level: 2,
            ..ThrottleConfig::default()
        })
        .http_client_config(HttpClientConfig {
            pool_max_idle_per_host: 3,
            ..HttpClientConfig::default()
        })
        .build(&mut throttles, &mut clients)
        .unwrap();
    assert_eq!(throttles.default_config.max_backoff_level, 2);
    assert_eq!(throttles.entries[0].domain, "example.com");
    assert_eq!(throttles.entries[0].state.config.max_backoff_level, 2);
    assert_eq!(clients.default_config.pool_max_idle_per_host, 3);
    assert_eq!(clients.entries[0].domain, "example.com");
}

#[test]
fn retryable_429() {
    let err = TransportError::http_error(429, "rate limited".into());
    assert!(LoadBalancedTransport::is_retryable(&err));
}

#[test]
fn retryable_502() {
    let err = TransportError::http_error(502, "bad gateway".into());
    assert!(LoadBalancedTransport::is_retryable(&err));
}

#[test]
fn retryable_503() {
    let err = TransportError::http_error(503, "unavailable".into());
    assert!(LoadBalancedTransport::is_retryable(&err));
}

#[test]
fn retryable_504() {
    let err = TransportError::http_error(504, "gateway timeout".into());
    assert!(LoadBalancedTransport::is_retryable(&err));
}

#[test]
fn not_retryable_400() {
    let err = TransportError::http_error(400, "bad request".into());
    assert!(!LoadBalancedTransport::is_retryable(&err));
}

#[test]
fn retryable_413_can_fail_over_to_a_larger_endpoint() {
    let err = TransportError::http_error(413, "payload too large".into());
    assert!(LoadBalancedTransport::is_retryable(&err));
}

#[test]
fn endpoint_request_caps_gate_eligibility() {
    let transport = LoadBalancedTransport::builder_with_endpoints(vec![
        EndpointConfig::new(url("http://small.example.com"), Weight(25))
            .with_max_request_bytes(1_000),
        EndpointConfig::new(url("http://large.example.com"), Weight(100))
            .with_max_request_bytes(5_000),
    ])
    .build(&mut ThrottleRegistry::new(), &mut ClientRegistry::new())
    .unwrap();

    assert!(!transport.endpoint_accepts_request(0, 2_000));
    assert!(transport.endpoint_accepts_request(1, 2_000));
    assert!(transport.endpoint_accepts_request(0, 1_000));
    assert!(!transport.endpoint_accepts_request(0, 1_001));
}

#[test]
fn retryable_backend_gone() {
    let err = TransportError::backend_gone();
    assert!(LoadBalancedTransport::is_retryable(&err));
    assert!(!LoadBalancedTransport::is_rate_limit(&err));
}

#[test]
fn retryable_timeout() {
    let err = TransportError::custom_str("request timed out");
    assert!(LoadBalancedTransport::is_retryable(&err));
}

#[test]
fn retryable_connection_error() {
    let err = TransportError::custom_str("connection refused");
    assert!(LoadBalancedTransport::is_retryable(&err));
}

#[test]
fn not_retryable_json_rpc_error() {
    let err = TransportError::ErrorResp {
        code: -32600,
        message: "invalid request".into(),
    };
    assert!(!LoadBalancedTransport::is_retryable(&err));
}

#[test]
fn not_retryable_other_errors() {
    let missing = TransportError::OtherTransport("connection".into());
    assert!(!LoadBalancedTransport::is_retryable(&missing));
    let serialization = TransportError::Other("timed out".into());
    assert!(!LoadBalancedTransport::is_retryable(&serialization));
    assert!(!LoadBalancedTransport::is_rate_limit(&serialization));
    let unrelated = TransportError::custom_str("bad certificate");
    assert!(!LoadBalancedTransport::is_retryable(&unrelated));
}

#[test]
fn rate_limit_detection_429() {
    let err = TransportError::http_error(429, "rate limited".into());
    assert!(LoadBalancedTransport::is_rate_limit(&err));
}

#[test]
fn rate_limit_detection_502_is_not_rate_limit() {
    let err = TransportError::http_error(502, "bad gateway".into());
    assert!(!LoadBalancedTransport::is_rate_limit(&err));
}

#[test]
fn rate_limit_detection_custom_429() {
    let err = TransportError::custom_str("429 Too Many Requests");
    assert!(LoadBalancedTransport::is_rate_limit(&err));
}

#[test]
fn rate_limit_detection_custom_timeout_is_not_rate_limit() {
    let err = TransportError::custom_str("request timed out");
    assert!(!LoadBalancedTransport::is_rate_limit(&err));
}

#[test]
fn rate_limit_inside_a_longer_message() {
    let err = TransportError::custom_str("HTTP status 429 Too Many Requests for url");
    assert!(LoadBalancedTransport::is_rate_limit(&err));
    assert!(LoadBalancedTransport::is_retryable(&err));
    let cut = TransportError::custom_str("429 Too Many Request");
    assert!(!LoadBalancedTransport::is_rate_limit(&cut));
}

#[test]
fn shared_domain_endpoints_share_throttle() {
    let endpoints = vec![
        (url("https://arb-mainnet.g.alchemy.com/v2/key1"), Weight(100)),
        (url("https://base-mainnet.g.alchemy.com/v2/key1"), Weight(100)),
        (url("https://lb.drpc.org/ogrpc"), Weight(50)),
    ];
    let transport = new_transport(endpoints);

    // First two endpoints are on alchemy.com and share throttle state.
    assert_eq!(transport.endpoint_throttles[0], transport.endpoint_throttles[1]);

    // Third endpoint (drpc.org) should be different.
    assert_ne!(transport.endpoint_throttles[0], transport.endpoint_throttles[2]);
}

#[test]
fn urls_are_parsed() {
    let parsed = url("https://user@ARB-mainnet.g.Alchemy.com:8443/v2/key");
    assert_eq!(parsed.as_str(), "https://user@arb-mainnet.g.alchemy.com:8443/v2/key");
    assert_eq!(url("http://example.com").as_str(), "http://example.com/");
    assert_eq!(parsed.host_str(), Some("arb-mainnet.g.alchemy.com"));
    assert_eq!(parsed.rate_limit_domain(), "alchemy.com");
    assert!(Url::parse("no url").is_err());
    let hostless = url("data:text/plain,hello");
    assert_eq!(hostless.host_str(), None);
    assert_eq!(hostless.rate_limit_domain(), "unknown");
}

#[test]
fn endpoint_from_pair_has_no_limits() {
    let endpoint = EndpointConfig::from((provider(7), Weight(3)));
    assert_eq!(endpoint.weight, Weight(3));
    assert_eq!(endpoint.max_request_bytes, None);
    assert_eq!(endpoint.max_in_flight, None);
    let limited = endpoint.with_max_in_flight(4).with_max_request_bytes(9);
    assert_eq!(limited.max_in_flight, Some(4));
    assert_eq!(limited.max_request_bytes, Some(9));
}
