use alloy_transport_balancer::{
    can_begin, can_step, record_rate_limit_at, Action, BalancerConfig, Call, ClientRegistry,
    EndpointConfig, Event, LoadBalancedTransport, Phase, Rejection, ThrottleConfig,
    ThrottleRegistry, TransportError, Url, Weight, TOO_LARGE,
};
use std::sync::Arc;
use std::time::Duration;

const NOW: u64 = 1_000_000;

struct World {
    transport: LoadBalancedTransport,
    throttles: ThrottleRegistry,
}

type Act = Action<&'static str, &'static str>;

fn world(endpoints: Vec<EndpointConfig>, config: BalancerConfig) -> World {
    let mut throttles = ThrottleRegistry::new();
    let mut clients = ClientRegistry::new();
    let transport = LoadBalancedTransport::builder_with_endpoints(endpoints)
        .config(config)
        .build(&mut throttles, &mut clients)
        .unwrap();
    World {
        transport,
        throttles,
    }
}

fn endpoint(domain: &str) -> EndpointConfig {
    EndpointConfig::new(Url::parse(&format!("http://rpc.{domain}")).unwrap(), Weight(1))
}

fn begin(world: &mut World, bytes: usize) -> (Call<&'static str>, Act) {
    Call::begin(&mut world.transport, &mut world.throttles, bytes, NOW)
}

fn step(
    call: &mut Call<&'static str>,
    world: &mut World,
    event: Event<&'static str, &'static str>,
) -> Act {
    call.step(&mut world.transport, &mut world.throttles, event, NOW)
}

fn failure(status: u16, carried: &'static str) -> Event<&'static str, &'static str> {
    Event::Failed {
        error: TransportError::http_error(status, String::new()),
        carried,
    }
}

fn limit(world: &mut World, domain: usize, times: usize) {
    for _ in 0..times {
        record_rate_limit_at(&mut world.throttles.entries[domain].state, NOW);
    }
}

#[test]
fn response_is_returned_and_recorded() {
    let mut w = world(vec![endpoint("a.com")], BalancerConfig::default());
    let (mut call, action) = begin(&mut w, 10);
    assert!(matches!(action, Action::Send(0)));
    let action = step(&mut call, &mut w, Event::Responded("0x1"));
    assert!(matches!(action, Action::Return("0x1")));
    assert_eq!(call.phase, Phase::Finished);
    assert_eq!(w.throttles.entries[0].state.total_successes, 1);
    assert_eq!(w.transport.counter, 1);
}

#[test]
fn heavily_throttled_final_eligible_endpoint_is_still_attempted() {
    let mut w = world(
        vec![
            EndpointConfig::new(Url::parse("http://127.0.0.1:1").unwrap(), Weight(1)),
            EndpointConfig::new(Url::parse("http://127.0.0.1:2").unwrap(), Weight(1))
                .with_max_request_bytes(1),
        ],
        BalancerConfig {
            max_retry_rounds: 0,
            heavy_throttle_threshold: Duration::ZERO,
            ..Default::default()
        },
    );
    let (mut call, action) = begin(&mut w, 60);
    assert!(matches!(action, Action::Send(0)));
    let refused = Event::Failed {
        error: TransportError::custom_str("connection refused"),
        carried: "refused",
    };
    assert!(matches!(step(&mut call, &mut w, refused), Action::Fail("refused")));
}

#[test]
fn payload_too_large_response_fails_over_to_next_endpoint() {
    let mut w = world(
        vec![endpoint("small.com"), endpoint("large.com")],
        BalancerConfig {
            max_retry_rounds: 0,
            ..Default::default()
        },
    );
    let (mut call, action) = begin(&mut w, 60);
    assert!(matches!(action, Action::Send(0)));
    assert!(matches!(step(&mut call, &mut w, failure(413, "413")), Action::Send(1)));
    let action = step(&mut call, &mut w, Event::Responded("0x1"));
    assert!(matches!(action, Action::Return("0x1")));
}

#[test]
fn request_beyond_every_limit_is_rejected() {
    let mut w = world(
        vec![
            endpoint("a.com").with_max_request_bytes(10),
            endpoint("b.com").with_max_request_bytes(20),
        ],
        BalancerConfig::default(),
    );
    let (call, action) = begin(&mut w, 21);
    assert!(matches!(action, Action::Reject(Rejection::TooLarge)));
    assert_eq!(call.phase, Phase::Finished);
    assert_eq!(w.transport.counter, 0);
    assert!(matches!(
        Rejection::TooLarge.error(),
        TransportError::Custom(message) if message == TOO_LARGE
    ));
    assert_eq!(TOO_LARGE, "JSON-RPC request exceeds every configured endpoint size limit");
    // One byte less fits the second endpoint only
    assert!(matches!(begin(&mut w, 20).1, Action::Send(1)));
}

#[test]
fn permit_is_taken_before_sending() {
    let mut w = world(vec![endpoint("a.com").with_max_in_flight(2)], BalancerConfig::default());
    let (mut call, action) = begin(&mut w, 1);
    assert!(matches!(action, Action::Acquire(0)));
    assert!(matches!(step(&mut call, &mut w, Event::PermitGranted), Action::Send(0)));
    let (mut other, _) = begin(&mut w, 1);
    let action = step(&mut other, &mut w, Event::PermitClosed);
    assert!(matches!(action, Action::Reject(Rejection::BackendGone)));
    assert!(matches!(Rejection::BackendGone.error(), TransportError::BackendGone));
}

#[test]
fn error_that_is_not_retryable_ends_the_call() {
    let mut w = world(vec![endpoint("a.com"), endpoint("b.com")], BalancerConfig::default());
    let (mut call, _) = begin(&mut w, 1);
    assert!(matches!(step(&mut call, &mut w, failure(400, "bad request")), Action::Fail("bad request")));
    assert_eq!(call.phase, Phase::Finished);
}

#[test]
fn rate_limit_backs_off_the_domain_and_pauses() {
    let mut w = world(
        vec![endpoint("a.com"), endpoint("a.com"), endpoint("b.com")],
        BalancerConfig::default(),
    );
    let (mut call, action) = begin(&mut w, 1);
    assert!(matches!(action, Action::Send(0)));
    let action = step(&mut call, &mut w, failure(429, "429"));
    assert!(matches!(action, Action::Sleep(d) if d == Duration::from_millis(75)));
    assert_eq!(w.throttles.entries[0].state.backoff_level, 1);
    // The second endpoint shares the domain, and asks for its delay
    let action = step(&mut call, &mut w, Event::Elapsed);
    assert!(matches!(action, Action::Sleep(d) if d == Duration::from_millis(50)));
    assert_eq!(call.phase, Phase::Delaying);
    assert!(matches!(step(&mut call, &mut w, Event::Elapsed), Action::Send(1)));
    assert!(matches!(step(&mut call, &mut w, failure(503, "503")), Action::Send(2)));
    assert_eq!(w.throttles.entries[1].state.total_rate_limits, 0);
}

#[test]
fn heavily_throttled_endpoint_is_skipped_for_a_healthy_one() {
    let mut w = world(vec![endpoint("a.com"), endpoint("b.com")], BalancerConfig::default());
    limit(&mut w, 0, 4);
    let (_, action) = begin(&mut w, 1);
    assert!(matches!(action, Action::Send(1)));
    assert_eq!(w.throttles.entries[0].state.total_skips, 1);
    assert_eq!(w.throttles.entries[1].state.total_skips, 0);
}

#[test]
fn heavily_throttled_endpoints_are_tried_when_all_are() {
    let mut w = world(vec![endpoint("a.com"), endpoint("b.com")], BalancerConfig::default());
    limit(&mut w, 0, 4);
    limit(&mut w, 1, 5);
    let (mut call, action) = begin(&mut w, 1);
    assert!(matches!(action, Action::Sleep(d) if d == Duration::from_millis(1000)));
    assert!(matches!(step(&mut call, &mut w, Event::Elapsed), Action::Send(0)));
    assert_eq!(w.throttles.entries[0].state.total_skips, 0);
}

#[test]
fn moderately_throttled_endpoint_is_not_skipped() {
    let mut w = world(vec![endpoint("a.com"), endpoint("b.com")], BalancerConfig::default());
    limit(&mut w, 0, 3);
    let (_, action) = begin(&mut w, 1);
    assert!(matches!(action, Action::Sleep(d) if d == Duration::from_millis(400)));
}

#[test]
fn rounds_start_anew_and_pause_longer_each_time() {
    let mut w = world(
        vec![endpoint("a.com"), endpoint("b.com")],
        BalancerConfig {
            max_retry_rounds: 3,
            max_backoff: Duration::from_millis(250),
            ..Default::default()
        },
    );
    let (mut call, action) = begin(&mut w, 1);
    assert!(matches!(action, Action::Send(0)));
    let mut pauses = Vec::new();
    let mut sends = 0;
    let mut action = action;
    loop {
        action = match action {
            Action::Send(_) => {
                sends += 1;
                step(&mut call, &mut w, failure(503, "503"))
            }
            Action::Sleep(pause) => {
                pauses.push(pause.as_millis());
                step(&mut call, &mut w, Event::Elapsed)
            }
            other => {
                assert!(matches!(other, Action::Fail("503")));
                break;
            }
        };
    }
    // Both endpoints in each of four rounds
    assert_eq!(sends, 8);
    assert_eq!(pauses, vec![100, 200, 250]);
    // Each round took its starting endpoint from the selection
    assert_eq!(w.transport.counter, 4);
}

#[test]
fn first_pause_is_never_longer_than_the_maximum() {
    let mut w = world(
        vec![endpoint("a.com")],
        BalancerConfig {
            initial_backoff: Duration::from_secs(10),
            max_backoff: Duration::from_secs(4),
            ..Default::default()
        },
    );
    let (mut call, _) = begin(&mut w, 1);
    for _ in 0..3 {
        let action = step(&mut call, &mut w, failure(503, "503"));
        assert!(matches!(action, Action::Sleep(d) if d == Duration::from_secs(4)));
        assert!(matches!(step(&mut call, &mut w, Event::Elapsed), Action::Send(0)));
    }
    assert!(matches!(step(&mut call, &mut w, failure(503, "503")), Action::Fail("503")));
}

fn never_decays(world: &mut World, domain: usize) {
    world.throttles.entries[domain].state.config = Arc::new(ThrottleConfig {
        decay_interval_ms: 0,
        ..ThrottleConfig::default()
    });
}

#[test]
fn states_that_cannot_decay_are_found_out_before_they_are_consulted() {
    let mut w = world(
        vec![endpoint("a.com").with_max_request_bytes(10)],
        BalancerConfig::default(),
    );
    never_decays(&mut w, 0);
    assert!(can_begin(&w.transport, &w.throttles, 1, NOW));
    let (call, _) = begin(&mut w, 1);
    limit(&mut w, 0, 1);
    assert!(!can_begin(&w.transport, &w.throttles, 1, NOW));
    // A request that is too large consults no state
    assert!(can_begin(&w.transport, &w.throttles, 11, NOW));
    // Nor does a response, or an error that ends the round
    let responded: Event<&str, &str> = Event::Responded("0x1");
    assert!(can_step(&call, &w.transport, &w.throttles, &responded, NOW));
    let failed = failure(503, "503");
    assert!(can_step(&call, &w.transport, &w.throttles, &failed, NOW));
}

#[test]
fn states_beyond_the_first_alternative_are_not_consulted() {
    let mut w = world(
        vec![endpoint("a.com"), endpoint("b.com"), endpoint("c.com")],
        BalancerConfig::default(),
    );
    never_decays(&mut w, 2);
    limit(&mut w, 2, 1);
    // The first endpoint is sent to, and the second is the alternative
    assert!(can_begin(&w.transport, &w.throttles, 1, NOW));
    let (call, action) = begin(&mut w, 1);
    assert!(matches!(action, Action::Send(0)));
    // From the second on, the third is looked at
    let failed = failure(503, "503");
    assert!(!can_step(&call, &w.transport, &w.throttles, &failed, NOW));
    // A heavily throttled second makes the beginning look further, too
    limit(&mut w, 1, 5);
    w.transport.counter = 0;
    assert!(!can_begin(&w.transport, &w.throttles, 1, NOW));
}

#[test]
fn error_returned_is_the_last_of_the_last_round() {
    let mut w = world(
        vec![endpoint("a.com"), endpoint("b.com")],
        BalancerConfig {
            max_retry_rounds: 0,
            ..Default::default()
        },
    );
    let (mut call, _) = begin(&mut w, 1);
    assert!(matches!(step(&mut call, &mut w, failure(502, "first")), Action::Send(1)));
    // A 429 on the last endpoint is recorded without a pause
    assert!(matches!(step(&mut call, &mut w, failure(429, "second")), Action::Fail("second")));
    assert_eq!(w.throttles.entries[1].state.backoff_level, 1);
}
