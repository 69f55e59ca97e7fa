use alloy_transport_balancer::duration::epoch_millis;
use alloy_transport_balancer::{
    domain_throttle, extract_rate_limit_domain, log_throttle_summary, log_throttle_summary_at,
    max_domain_backoff, max_domain_backoff_at, pre_request_delay, pre_request_delay_at,
    record_batch_rejection, record_rate_limit, record_rate_limit_at, record_skip, record_success,
    reset_registry, set_default_throttle_config, throttle_snapshot, throttle_snapshot_at,
    weighted_domain_backoff, weighted_domain_backoff_at, DomainThrottleState, ThrottleConfig,
    ThrottleRegistry, ThrottleStatus,
};
use std::sync::Arc;
use std::time::{Duration, SystemTime, UNIX_EPOCH};

fn now_millis() -> u64 {
    SystemTime::now()
        .duration_since(UNIX_EPOCH)
        .unwrap()
        .as_millis() as u64
}

fn state_of<'a>(registry: &'a mut ThrottleRegistry, domain: &str) -> &'a mut DomainThrottleState {
    let position = domain_throttle(registry, domain);
    &mut registry.entries[position].state
}

#[test]
fn extract_domain_alchemy() {
    assert_eq!(extract_rate_limit_domain("arb-mainnet.g.alchemy.com"), "alchemy.com");
    assert_eq!(extract_rate_limit_domain("base-mainnet.g.alchemy.com"), "alchemy.com");
    assert_eq!(extract_rate_limit_domain("eth-mainnet.g.alchemy.com"), "alchemy.com");
}

#[test]
fn extract_domain_drpc() {
    assert_eq!(extract_rate_limit_domain("lb.drpc.org"), "drpc.org");
}

#[test]
fn extract_domain_arbitrum() {
    assert_eq!(extract_rate_limit_domain("arb1.arbitrum.io"), "arbitrum.io");
}

#[test]
fn extract_domain_base() {
    assert_eq!(extract_rate_limit_domain("mainnet.base.org"), "base.org");
}

#[test]
fn extract_domain_bare_two_parts() {
    assert_eq!(extract_rate_limit_domain("example.com"), "example.com");
}

#[test]
fn extract_domain_single() {
    assert_eq!(extract_rate_limit_domain("localhost"), "localhost");
}

#[test]
fn extract_domain_edge_forms() {
    assert_eq!(extract_rate_limit_domain(""), "");
    assert_eq!(extract_rate_limit_domain("."), ".");
    assert_eq!(extract_rate_limit_domain("a.b."), "b.");
    assert_eq!(extract_rate_limit_domain("..com"), ".com");
    assert_eq!(extract_rate_limit_domain("127.0.0.1"), "0.1");
    assert_eq!(extract_rate_limit_domain("rpc.b\u{fc}cher.example"), "b\u{fc}cher.example");
}

#[test]
fn group_of_a_group_is_the_group() {
    let group = extract_rate_limit_domain("a.b.c.d.example.org");
    assert_eq!(group, "example.org");
    assert_eq!(extract_rate_limit_domain(group), "example.org");
    assert_eq!(extract_rate_limit_domain("x.y.a.b.c.d.example.org"), "example.org");
}

#[test]
fn backoff_escalation() {
    let mut registry = ThrottleRegistry::new();
    let state = state_of(&mut registry, "test-escalation.com");

    assert_eq!(pre_request_delay(state), Duration::ZERO);

    record_rate_limit(state);
    assert_eq!(pre_request_delay(state), Duration::from_millis(50));

    record_rate_limit(state);
    assert_eq!(pre_request_delay(state), Duration::from_millis(150));

    record_rate_limit(state);
    assert_eq!(pre_request_delay(state), Duration::from_millis(400));

    record_rate_limit(state);
    assert_eq!(pre_request_delay(state), Duration::from_millis(1000));

    record_rate_limit(state);
    assert_eq!(pre_request_delay(state), Duration::from_millis(2000));
}

#[test]
fn backoff_caps_at_max() {
    let mut registry = ThrottleRegistry::new();
    let state = state_of(&mut registry, "test-cap.com");

    for _ in 0..20 {
        record_rate_limit(state);
    }
    assert_eq!(pre_request_delay(state), Duration::from_millis(2000));
    assert_eq!(state.backoff_level, state.config.max_backoff_level);
}

#[test]
fn recovery_after_consecutive_successes() {
    let mut registry = ThrottleRegistry::new();
    let state = state_of(&mut registry, "test-recovery.com");

    // Escalate to level 2
    record_rate_limit(state);
    record_rate_limit(state);
    assert_eq!(state.backoff_level, 2);

    // Freeze last_rate_limit_at to now so time-based decay doesn't interfere
    state.last_rate_limit_at = now_millis();

    // 5 successes drop to level 1
    for _ in 0..state.config.recovery_threshold {
        record_success(state);
    }
    assert_eq!(state.backoff_level, 1);

    // 5 more drop to level 0
    for _ in 0..state.config.recovery_threshold {
        record_success(state);
    }
    assert_eq!(state.backoff_level, 0);
    assert_eq!(pre_request_delay(state), Duration::ZERO);
}

#[test]
fn rate_limit_resets_success_counter() {
    let mut registry = ThrottleRegistry::new();
    let state = state_of(&mut registry, "test-reset.com");

    record_rate_limit(state);
    // Pin last_rate_limit_at to now so time-based decay doesn't interfere
    state.last_rate_limit_at = now_millis();
    // Accumulate 4 successes (not enough to recover with threshold=5)
    for _ in 0..state.config.recovery_threshold - 1 {
        record_success(state);
    }
    assert_eq!(state.backoff_level, 1);

    // Another 429 resets the counter
    record_rate_limit(state);
    assert_eq!(state.consecutive_successes, 0);
    assert_eq!(state.backoff_level, 2);
}

#[test]
fn success_at_level_zero_is_noop() {
    let mut registry = ThrottleRegistry::new();
    let state = state_of(&mut registry, "test-noop.com");

    // Many successes at level 0 should not underflow or cause issues
    for _ in 0..100 {
        record_success(state);
    }
    assert_eq!(state.backoff_level, 0);
    assert_eq!(state.consecutive_successes, 0);
    assert_eq!(state.total_successes, 100);
}

#[test]
fn shared_state_across_lookups() {
    let mut registry = ThrottleRegistry::new();
    let a = domain_throttle(&mut registry, "shared-test.com");
    let b = domain_throttle(&mut registry, "shared-test.com");

    record_rate_limit(&mut registry.entries[a].state);
    assert_eq!(registry.entries[b].state.backoff_level, 1);
    assert_eq!(registry.entries.len(), 1);
}

#[test]
fn different_domains_are_independent() {
    let mut registry = ThrottleRegistry::new();
    let a = domain_throttle(&mut registry, "domain-a.com");
    let b = domain_throttle(&mut registry, "domain-b.com");

    record_rate_limit(&mut registry.entries[a].state);
    assert_eq!(registry.entries[a].state.backoff_level, 1);
    assert_eq!(registry.entries[b].state.backoff_level, 0);
}

#[test]
fn batch_rejection_escalates_by_one() {
    let mut registry = ThrottleRegistry::new();
    let state = state_of(&mut registry, "test-batch-rejection.com");

    assert_eq!(pre_request_delay(state), Duration::ZERO);

    // Batch rejection should escalate by 1 level (same as single 429)
    record_batch_rejection(state);
    assert_eq!(state.backoff_level, 1);
    assert_eq!(pre_request_delay(state), Duration::from_millis(50));

    // Another batch rejection: level 1 to 2
    record_batch_rejection(state);
    assert_eq!(state.backoff_level, 2);
    assert_eq!(pre_request_delay(state), Duration::from_millis(150));

    // Keep escalating: 2, 3, 4, 5 (cap)
    record_batch_rejection(state);
    assert_eq!(state.backoff_level, 3);
    record_batch_rejection(state);
    assert_eq!(state.backoff_level, 4);
    record_batch_rejection(state);
    assert_eq!(state.backoff_level, state.config.max_backoff_level);
    assert_eq!(pre_request_delay(state), Duration::from_millis(2000));
}

#[test]
fn time_based_decay_drops_levels() {
    let mut registry = ThrottleRegistry::new();
    let state = state_of(&mut registry, "test-time-decay.com");

    // Escalate to level 3
    record_rate_limit(state);
    record_rate_limit(state);
    record_rate_limit(state);
    assert_eq!(state.backoff_level, 3);

    // Simulate 20 seconds passing (should decay 2 levels: 20s / 10s = 2)
    state.last_rate_limit_at = now_millis().saturating_sub(state.config.decay_interval_ms * 2);
    let delay = pre_request_delay(state);
    assert_eq!(state.backoff_level, 1);
    assert_eq!(delay, Duration::from_millis(50));
}

#[test]
fn time_based_decay_fully_recovers() {
    let mut registry = ThrottleRegistry::new();
    let state = state_of(&mut registry, "test-full-decay.com");

    // Escalate to level 4
    for _ in 0..4 {
        record_rate_limit(state);
    }
    assert_eq!(state.backoff_level, 4);

    // Simulate 60 seconds passing (should decay all 4 levels: 60s / 10s = 6 > 4)
    state.last_rate_limit_at = now_millis().saturating_sub(state.config.decay_interval_ms * 6);
    let delay = pre_request_delay(state);
    assert_eq!(state.backoff_level, 0);
    assert_eq!(delay, Duration::ZERO);
}

#[test]
fn weighted_domain_backoff_dilutes_sick_domain() {
    let mut registry = ThrottleRegistry::new();

    // Healthy high-traffic domain
    let healthy = state_of(&mut registry, "healthy-weighted.com");
    for _ in 0..1000 {
        record_success(healthy);
    }

    // Sick low-traffic domain at level 3 (400ms)
    let sick = state_of(&mut registry, "sick-weighted.com");
    record_rate_limit(sick);
    record_rate_limit(sick);
    record_rate_limit(sick);
    // Give it a few successes so it has some weight, but stay below
    // recovery_threshold (5) to avoid dropping backoff levels.
    for _ in 0..4 {
        record_success(sick);
    }

    // max_domain_backoff should be 400ms (the sick domain)
    let max_delay = max_domain_backoff(&mut registry);
    assert_eq!(max_delay, Duration::from_millis(400));

    // weighted_domain_backoff should be much lower (~1.6ms: 400*4 / (1000+4))
    let weighted = weighted_domain_backoff(&mut registry);
    assert!(
        weighted < Duration::from_millis(50),
        "weighted backoff should be << 400ms when healthy domain dominates, got {}ms",
        weighted.as_millis()
    );
    assert_eq!(weighted, Duration::from_millis(1));
}

#[test]
fn custom_throttle_config() {
    let mut registry = ThrottleRegistry::new();
    set_default_throttle_config(
        &mut registry,
        ThrottleConfig {
            max_backoff_level: 3,
            recovery_threshold: 2,
            decay_interval_ms: 5_000,
            backoff_table: vec![
                Duration::ZERO,
                Duration::from_millis(100),
                Duration::from_millis(500),
                Duration::from_millis(1500),
            ],
        },
    );

    let state = state_of(&mut registry, "test-custom-config.com");
    record_rate_limit(state);
    assert_eq!(pre_request_delay(state), Duration::from_millis(100));

    record_rate_limit(state);
    record_rate_limit(state);
    // Should cap at level 3
    assert_eq!(state.backoff_level, 3);
    assert_eq!(pre_request_delay(state), Duration::from_millis(1500));

    // Recovery with threshold=2
    state.last_rate_limit_at = now_millis();
    record_success(state);
    record_success(state);
    assert_eq!(state.backoff_level, 2);

    // A new default does not reach domains that are registered already
    set_default_throttle_config(&mut registry, ThrottleConfig::default());
    assert_eq!(state_of(&mut registry, "test-custom-config.com").config.max_backoff_level, 3);
    assert_eq!(state_of(&mut registry, "other-config.com").config.max_backoff_level, 5);
}

#[test]
fn a_quiet_interval_drops_its_level_once() {
    let mut registry = ThrottleRegistry::new();
    let state = state_of(&mut registry, "asked-often.com");
    for _ in 0..3 {
        record_rate_limit_at(state, 1_000_000);
    }
    // 25 seconds without a 429 take the domain from level 3 to level 1, however often it is asked
    assert_eq!(pre_request_delay_at(state, 1_009_999), Duration::from_millis(400));
    assert_eq!(pre_request_delay_at(state, 1_010_000), Duration::from_millis(150));
    assert_eq!(pre_request_delay_at(state, 1_010_001), Duration::from_millis(150));
    assert_eq!(pre_request_delay_at(state, 1_025_000), Duration::from_millis(50));
    assert_eq!(pre_request_delay_at(state, 1_025_000), Duration::from_millis(50));
    assert_eq!(state.backoff_level, 1);
    assert_eq!(pre_request_delay_at(state, 1_030_000), Duration::ZERO);
    assert_eq!(state.backoff_level, 0);
}

#[test]
fn decay_counts_very_long_silence_in_full() {
    let config = ThrottleConfig {
        decay_interval_ms: 1,
        ..ThrottleConfig::default()
    };
    let mut state = DomainThrottleState::new(Arc::new(config));
    record_rate_limit_at(&mut state, 1);
    record_rate_limit_at(&mut state, 1);
    assert_eq!(pre_request_delay_at(&mut state, (1 << 32) + 1), Duration::ZERO);
    assert_eq!(state.backoff_level, 0);
}

#[test]
fn clock_that_runs_backwards_decays_nothing() {
    let mut state = DomainThrottleState::new(Arc::new(ThrottleConfig::default()));
    record_rate_limit_at(&mut state, 50_000);
    assert_eq!(pre_request_delay_at(&mut state, 10), Duration::from_millis(50));
    assert_eq!(state.backoff_level, 1);
}

#[test]
fn level_zero_asks_for_no_delay_whatever_the_table_says() {
    let config = ThrottleConfig {
        max_backoff_level: 1,
        recovery_threshold: 1,
        decay_interval_ms: 10,
        backoff_table: vec![Duration::from_millis(7)],
    };
    let mut state = DomainThrottleState::new(Arc::new(config));
    assert_eq!(pre_request_delay_at(&mut state, 5), Duration::ZERO);
    record_rate_limit_at(&mut state, 5);
    // The table has no entry for level 1
    assert_eq!(pre_request_delay_at(&mut state, 5), Duration::from_millis(2000));
    assert_eq!(pre_request_delay_at(&mut state, 15), Duration::ZERO);
}

#[test]
fn decay_interval_of_zero_is_found_out() {
    let config = ThrottleConfig {
        decay_interval_ms: 0,
        ..ThrottleConfig::default()
    };
    let mut registry = ThrottleRegistry::new();
    set_default_throttle_config(&mut registry, config);
    let position = domain_throttle(&mut registry, "never-decays.com");
    assert!(registry.can_decay());
    record_rate_limit_at(&mut registry.entries[position].state, 9);
    assert!(!registry.can_decay());
    assert!(!registry.entries[position].state.can_decay());
}

#[test]
fn weighted_backoff_is_the_longest_before_any_success() {
    let mut registry = ThrottleRegistry::new();
    assert_eq!(weighted_domain_backoff_at(&mut registry, 3), Duration::ZERO);
    let sick = domain_throttle(&mut registry, "sick.com");
    domain_throttle(&mut registry, "idle.com");
    record_rate_limit_at(&mut registry.entries[sick].state, 1_000);
    record_rate_limit_at(&mut registry.entries[sick].state, 1_000);
    assert_eq!(max_domain_backoff_at(&mut registry, 1_000), Duration::from_millis(150));
    assert_eq!(weighted_domain_backoff_at(&mut registry, 1_000), Duration::from_millis(150));
    // One success on the other domain: both have weight 1
    record_success(&mut registry.entries[1].state);
    assert_eq!(weighted_domain_backoff_at(&mut registry, 1_000), Duration::from_millis(75));
}

#[test]
fn weighted_backoff_with_counts_at_their_limit() {
    let mut registry = ThrottleRegistry::new();
    for domain in ["a.com", "b.com", "c.com"] {
        let state = state_of(&mut registry, domain);
        state.total_successes = u64::MAX;
        for _ in 0..5 {
            record_rate_limit_at(state, 1_000);
        }
    }
    assert_eq!(weighted_domain_backoff_at(&mut registry, 1_000), Duration::from_millis(2000));
}

#[test]
fn counters_wrap_around() {
    let mut state = DomainThrottleState::new(Arc::new(ThrottleConfig::default()));
    state.total_successes = u64::MAX;
    state.total_rate_limits = u64::MAX;
    state.total_skips = u64::MAX;
    record_success(&mut state);
    record_rate_limit_at(&mut state, 4);
    record_skip(&mut state);
    assert_eq!(state.total_successes, 0);
    assert_eq!(state.total_rate_limits, 0);
    assert_eq!(state.total_skips, 0);
}

#[test]
fn reset_forgets_domains_and_keeps_the_default() {
    let mut registry = ThrottleRegistry::new();
    set_default_throttle_config(
        &mut registry,
        ThrottleConfig {
            max_backoff_level: 9,
            ..ThrottleConfig::default()
        },
    );
    domain_throttle(&mut registry, "gone.com");
    reset_registry(&mut registry);
    assert!(registry.entries.is_empty());
    assert_eq!(state_of(&mut registry, "new.com").config.max_backoff_level, 9);
}

#[test]
fn domains_keep_their_position() {
    let mut registry = ThrottleRegistry::new();
    let a = domain_throttle(&mut registry, "a.com");
    let b = domain_throttle(&mut registry, "b.com");
    let c = domain_throttle(&mut registry, "c.com");
    assert_eq!((a, b, c), (0, 1, 2));
    assert_eq!(domain_throttle(&mut registry, "b.com"), 1);
    assert_eq!(registry.find("c.com"), Some(2));
    assert_eq!(registry.find("d.com"), None);
}

#[test]
fn snapshot_shows_every_domain() {
    let mut registry = ThrottleRegistry::new();
    let sick = domain_throttle(&mut registry, "sick-snapshot.com");
    let well = domain_throttle(&mut registry, "well-snapshot.com");
    record_rate_limit_at(&mut registry.entries[sick].state, 1_000);
    record_rate_limit_at(&mut registry.entries[sick].state, 1_000);
    record_skip(&mut registry.entries[sick].state);
    record_success(&mut registry.entries[well].state);
    let shots = throttle_snapshot_at(&mut registry, 1_500);
    assert_eq!(shots.len(), 2);
    assert_eq!(shots[0].domain, "sick-snapshot.com");
    assert_eq!(shots[0].backoff_level, 2);
    assert_eq!(shots[0].delay_ms, 150);
    assert_eq!(shots[0].total_rate_limits, 2);
    assert_eq!(shots[0].total_successes, 0);
    assert_eq!(shots[0].total_skips, 1);
    assert_eq!(shots[1].domain, "well-snapshot.com");
    assert_eq!(shots[1].delay_ms, 0);
    assert_eq!(shots[1].total_successes, 1);
    // By the system clock, the 429s of the epoch have decayed long ago
    assert_eq!(throttle_snapshot(&mut registry)[0].delay_ms, 0);
    assert_eq!(registry.entries[sick].state.backoff_level, 0);
}

#[test]
fn snapshot_shows_level_and_delay_after_decay() {
    let mut registry = ThrottleRegistry::new();
    let state = state_of(&mut registry, "decay.com");
    for _ in 0..3 {
        record_rate_limit(state);
    }
    state.last_rate_limit_at = now_millis() - 20_000;
    let shots = throttle_snapshot(&mut registry);
    assert_eq!(shots.len(), 1);
    assert_eq!(shots[0].domain, "decay.com");
    assert_eq!(shots[0].backoff_level, 1);
    assert_eq!(shots[0].delay_ms, 50);
    assert_eq!(shots[0].total_rate_limits, 3);
}

#[test]
fn delay_can_be_asked_without_decay() {
    let mut state = DomainThrottleState::new(Arc::new(ThrottleConfig::default()));
    for _ in 0..3 {
        record_rate_limit_at(&mut state, 1_000);
    }
    assert_eq!(state.delay_at(21_000), Duration::from_millis(50));
    assert_eq!(state.delay_at(31_000), Duration::ZERO);
    assert_eq!(state.backoff_level, 3);
    assert_eq!(state.current_delay(), Duration::from_millis(400));
}

#[test]
fn summary_reports_throttled_domains_in_full() {
    let mut registry = ThrottleRegistry::new();
    let sick = domain_throttle(&mut registry, "sick-summary.com");
    let well = domain_throttle(&mut registry, "well-summary.com");
    record_rate_limit_at(&mut registry.entries[sick].state, 1_000);
    record_success(&mut registry.entries[well].state);
    let lines = log_throttle_summary_at(&mut registry, 1_000);
    assert_eq!(lines.len(), 2);
    assert!(matches!(&lines[0], ThrottleStatus::Throttled(shot) if shot.delay_ms == 50));
    assert!(matches!(
        &lines[1],
        ThrottleStatus::Healthy { domain, total_ok } if domain == "well-summary.com" && *total_ok == 1
    ));
    // A domain that has recovered is still reported in full
    assert!(matches!(&log_throttle_summary(&mut registry)[0], ThrottleStatus::Throttled(_)));
}

#[test]
fn throttle_config_defaults() {
    let config = ThrottleConfig::default();
    assert_eq!(config.max_backoff_level, 5);
    assert_eq!(config.recovery_threshold, 5);
    assert_eq!(config.decay_interval_ms, 10_000);
    let millis: Vec<u128> = config.backoff_table.iter().map(|d| d.as_millis()).collect();
    assert_eq!(millis, vec![0, 50, 150, 400, 1000, 2000]);
}

#[test]
fn clock_readings_become_whole_milliseconds() {
    assert_eq!(epoch_millis(None), 0);
    assert_eq!(epoch_millis(Some(Duration::ZERO)), 0);
    assert_eq!(epoch_millis(Some(Duration::from_micros(1_999))), 1);
    assert_eq!(epoch_millis(Some(Duration::from_secs(1_700_000_000))), 1_700_000_000_000);
    // 2^61 seconds are 125 * 2^64 milliseconds, which leave nothing over
    assert_eq!(epoch_millis(Some(Duration::from_secs(1 << 61) + Duration::from_millis(6))), 6);
}
