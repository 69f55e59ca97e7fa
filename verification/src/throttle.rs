//! Per-domain throttle state machine.
//!
//! - Escalation is immediate: one 429 raises the backoff level.
//! - Recovery takes `recovery_threshold` consecutive successes per level.
//! - Levels decay with time: for each full `decay_interval_ms` since the last 429 one level is
//!   dropped, so a domain with backoff level `n` is healthy again after `n` quiet intervals.
use crate::duration;
use std::sync::Arc;
use std::time::Duration;
use vstd::prelude::*;

verus! {

/// Configuration for domain throttle behavior.
///
/// Controls backoff escalation, recovery, time-based decay, and the delay curve applied when a
/// domain is rate-limited.
#[derive(Clone, Debug)]
pub struct ThrottleConfig {
    /// Maximum backoff level (index into `backoff_table`). Default: 5.
    pub max_backoff_level: u32,
    /// Consecutive successes required to drop one backoff level. Default: 5.
    pub recovery_threshold: u32,
    /// Time-based auto-recovery interval in milliseconds.
    ///
    /// If no 429 response has been received for this many milliseconds, one backoff level is
    /// dropped. Each additional interval drops one more level. At the default, 25 seconds without
    /// a 429 take a domain from level 3 to level 1.
    ///
    /// Default: 10,000 (10 seconds per level).
    pub decay_interval_ms: u64,
    /// Delay for each backoff level. Length must be `max_backoff_level + 1`.
    /// Default: 0, 50, 150, 400, 1000 and 2000 milliseconds.
    pub backoff_table: Vec<Duration>,
}

impl ThrottleConfig {
    /// The configuration is the default one.
    pub open spec fn is_default(self) -> bool {
        &&& self.max_backoff_level == 5
        &&& self.recovery_threshold == 5
        &&& self.decay_interval_ms == 10_000
        &&& self.backoff_table@.map_values(|d: Duration| duration::nanos(d)) == seq![
            0nat,
            duration::millis(50),
            duration::millis(150),
            duration::millis(400),
            duration::millis(1000),
            duration::millis(2000),
        ]
    }
}

impl Default for ThrottleConfig {
    fn default() -> (config: Self)
        ensures
            config.is_default(),
    {
        let config = ThrottleConfig {
            max_backoff_level: 5,
            recovery_threshold: 5,
            decay_interval_ms: 10_000,
            backoff_table: vec![
                Duration::from_millis(0),
                Duration::from_millis(50),
                Duration::from_millis(150),
                Duration::from_millis(400),
                Duration::from_millis(1000),
                Duration::from_millis(2000),
            ],
        };
        assert(config.backoff_table@.map_values(|d: Duration| duration::nanos(d)) =~= seq![
            0nat,
            duration::millis(50),
            duration::millis(150),
            duration::millis(400),
            duration::millis(1000),
            duration::millis(2000),
        ]);
        config
    }
}

/// Per-domain rate-limit state, shared by every endpoint that resolves to the same domain.
#[derive(Debug)]
pub struct DomainThrottleState {
    /// Time (milliseconds since the UNIX epoch) of the last 429 received; 0 before the first.
    pub last_rate_limit_at: u64,
    /// Current backoff level: 0 = no backoff, 1..=max_backoff_level = escalating.
    pub backoff_level: u32,
    /// Consecutive successes since the last rate-limit. At `recovery_threshold`, `backoff_level`
    /// is decremented by 1 and this resets to 0.
    pub consecutive_successes: u32,
    /// Total 429 responses received on this domain, modulo 2^64.
    pub total_rate_limits: u64,
    /// Total successful responses on this domain, modulo 2^64.
    pub total_successes: u64,
    /// Total requests where this domain was skipped due to heavy throttling, modulo 2^64.
    pub total_skips: u64,
    /// Quiet intervals since the last 429 for which a level has been dropped already.
    pub decayed_intervals: u64,
    /// Configuration for this domain's throttle behavior.
    pub config: Arc<ThrottleConfig>,
}

/// The number one higher, modulo 2^64.
pub open spec fn counted(n: u64) -> u64 {
    if n == u64::MAX {
        0
    } else {
        (n + 1) as u64
    }
}

impl DomainThrottleState {
    /// What holds of every state from its creation on: the level never passes the maximum, and
    /// the success counter never reaches the threshold.
    pub open spec fn well_formed(self) -> bool {
        &&& self.backoff_level <= self.config.max_backoff_level
        &&& self.consecutive_successes == 0 || self.consecutive_successes
            < self.config.recovery_threshold
    }

    /// Decay can be computed: it divides by the decay interval, unless nothing can decay.
    pub open spec fn decay_defined(self) -> bool {
        self.backoff_level == 0 || self.last_rate_limit_at == 0 || self.config.decay_interval_ms > 0
    }

    /// A domain that has seen no traffic.
    pub open spec fn fresh(self, config: ThrottleConfig) -> bool {
        &&& self.last_rate_limit_at == 0
        &&& self.backoff_level == 0
        &&& self.consecutive_successes == 0
        &&& self.total_rate_limits == 0
        &&& self.total_successes == 0
        &&& self.total_skips == 0
        &&& self.decayed_intervals == 0
        &&& *self.config == config
    }

    /// The state after a 429 at time `now`: one level up, at most to the maximum.
    pub open spec fn rate_limited(self, now: u64) -> Self {
        DomainThrottleState {
            last_rate_limit_at: now,
            backoff_level: if self.backoff_level < self.config.max_backoff_level {
                (self.backoff_level + 1) as u32
            } else {
                self.config.max_backoff_level
            },
            consecutive_successes: 0,
            total_rate_limits: counted(self.total_rate_limits),
            decayed_intervals: 0,
            ..self
        }
    }

    /// The state after a success: while backing off, the success that completes the threshold
    /// drops one level and starts the count anew.
    pub open spec fn succeeded(self) -> Self {
        let total = counted(self.total_successes);
        if self.backoff_level == 0 {
            DomainThrottleState { total_successes: total, ..self }
        } else if self.consecutive_successes + 1 >= self.config.recovery_threshold {
            DomainThrottleState {
                total_successes: total,
                consecutive_successes: 0,
                backoff_level: (self.backoff_level - 1) as u32,
                ..self
            }
        } else {
            DomainThrottleState {
                total_successes: total,
                consecutive_successes: (self.consecutive_successes + 1) as u32,
                ..self
            }
        }
    }

    /// The state after the domain was passed over once.
    pub open spec fn skipped(self) -> Self {
        DomainThrottleState { total_skips: counted(self.total_skips), ..self }
    }

    /// Full decay intervals between the last 429 and `now`.
    pub open spec fn quiet_intervals(self, now: u64) -> nat {
        if now <= self.last_rate_limit_at {
            0
        } else {
            ((now - self.last_rate_limit_at) / self.config.decay_interval_ms as int) as nat
        }
    }

    /// The state at time `now`: one level lower for each quiet interval since the last 429 that
    /// has not been counted before, down to level 0.
    pub open spec fn decayed(self, now: u64) -> Self {
        let quiet = self.quiet_intervals(now);
        if self.backoff_level == 0 || self.last_rate_limit_at == 0 || quiet
            <= self.decayed_intervals {
            self
        } else {
            let drop = quiet - self.decayed_intervals;
            DomainThrottleState {
                backoff_level: if drop < self.backoff_level {
                    (self.backoff_level - drop) as u32
                } else {
                    0
                },
                decayed_intervals: quiet as u64,
                ..self
            }
        }
    }

    /// Delay, in nanoseconds, that the current level asks for: none at level 0, otherwise the
    /// table's entry, and two seconds where the table has none.
    pub open spec fn delay_nanos(self) -> nat {
        let level = if self.backoff_level <= self.config.max_backoff_level {
            self.backoff_level
        } else {
            self.config.max_backoff_level
        };
        if self.backoff_level == 0 {
            0
        } else if level < self.config.backoff_table@.len() {
            duration::nanos(self.config.backoff_table@[level as int])
        } else {
            duration::millis(2000)
        }
    }

    /// A domain that has seen no traffic, with the given configuration.
    pub fn new(config: Arc<ThrottleConfig>) -> (state: Self)
        ensures
            state.fresh(*config),
            state.config == config,
            state.well_formed(),
            state.decay_defined(),
    {
        DomainThrottleState {
            last_rate_limit_at: 0,
            backoff_level: 0,
            consecutive_successes: 0,
            total_rate_limits: 0,
            total_successes: 0,
            total_skips: 0,
            decayed_intervals: 0,
            config,
        }
    }

    /// Whether the state can decay, which it cannot with a decay interval of zero while it backs
    /// off.
    pub fn can_decay(&self) -> (r: bool)
        ensures
            r == self.decay_defined(),
    {
        self.backoff_level == 0 || self.last_rate_limit_at == 0 || self.config.decay_interval_ms > 0
    }

    /// Delay that a level asks for.
    fn level_delay(&self, backoff_level: u32) -> (delay: Duration)
        ensures
            duration::nanos(delay) == (DomainThrottleState { backoff_level, ..*self }).delay_nanos(),
    {
        if backoff_level == 0 {
            return Duration::from_millis(0);
        }
        let level: u32 = if backoff_level <= self.config.max_backoff_level {
            backoff_level
        } else {
            self.config.max_backoff_level
        };
        if (level as usize) < self.config.backoff_table.len() {
            self.config.backoff_table[level as usize]
        } else {
            Duration::from_millis(2000)
        }
    }

    /// Delay that the current level asks for.
    pub fn current_delay(&self) -> (delay: Duration)
        ensures
            duration::nanos(delay) == self.delay_nanos(),
    {
        self.level_delay(self.backoff_level)
    }

    /// Delay that the level asks for at time `now_ms`, without dropping the levels that have
    /// decayed by then.
    pub fn delay_at(&self, now_ms: u64) -> (delay: Duration)
        requires
            self.decay_defined(),
        ensures
            duration::nanos(delay) == self.decayed(now_ms).delay_nanos(),
    {
        let mut level: u32 = self.backoff_level;
        if level > 0 && self.last_rate_limit_at > 0 {
            let elapsed_ms: u64 = now_ms.saturating_sub(self.last_rate_limit_at);
            let quiet: u64 = elapsed_ms / self.config.decay_interval_ms;
            if quiet > self.decayed_intervals {
                let drop: u64 = quiet - self.decayed_intervals;
                level = if drop < level as u64 {
                    level - drop as u32
                } else {
                    0
                };
            }
        }
        self.level_delay(level)
    }
}

/// Compute the delay to apply before sending a request to a throttled domain at time `now_ms`.
///
/// Drops the backoff levels that have decayed by then. The delay is zero if no backoff is active.
pub fn pre_request_delay_at(state: &mut DomainThrottleState, now_ms: u64) -> (delay: Duration)
    requires
        old(state).decay_defined(),
    ensures
        *final(state) == old(state).decayed(now_ms),
        duration::nanos(delay) == old(state).decayed(now_ms).delay_nanos(),
        final(state).decay_defined(),
        old(state).well_formed() ==> final(state).well_formed(),
{
    if state.backoff_level > 0 && state.last_rate_limit_at > 0 {
        let elapsed_ms: u64 = now_ms.saturating_sub(state.last_rate_limit_at);
        let quiet: u64 = elapsed_ms / state.config.decay_interval_ms;
        if quiet > state.decayed_intervals {
            let drop: u64 = quiet - state.decayed_intervals;
            state.backoff_level = if drop < state.backoff_level as u64 {
                state.backoff_level - drop as u32
            } else {
                0
            };
            state.decayed_intervals = quiet;
        }
    }
    state.current_delay()
}

/// Compute the delay to apply before sending a request to a throttled domain now, by the system
/// clock.
pub fn pre_request_delay(state: &mut DomainThrottleState) -> (delay: Duration)
    requires
        old(state).decay_defined(),
    ensures
        exists|now: u64|
            {
                &&& duration::clock_time(now)
                &&& *final(state) == #[trigger] old(state).decayed(now)
                &&& duration::nanos(delay) == old(state).decayed(now).delay_nanos()
            },
        final(state).decay_defined(),
        old(state).well_formed() ==> final(state).well_formed(),
{
    let now: u64 = duration::now_millis();
    pre_request_delay_at(state, now)
}

/// Record a 429 rate-limit response from this domain at time `now_ms`.
pub fn record_rate_limit_at(state: &mut DomainThrottleState, now_ms: u64)
    ensures
        *final(state) == old(state).rate_limited(now_ms),
        old(state).well_formed() ==> final(state).well_formed(),
{
    state.last_rate_limit_at = now_ms;
    state.decayed_intervals = 0;
    state.consecutive_successes = 0;
    state.total_rate_limits = state.total_rate_limits.wrapping_add(1);
    state.backoff_level = if state.backoff_level < state.config.max_backoff_level {
        state.backoff_level + 1
    } else {
        state.config.max_backoff_level
    };
}

/// Record a 429 rate-limit response from this domain.
///
/// Escalates backoff for all transport instances sharing this domain.
pub fn record_rate_limit(state: &mut DomainThrottleState)
    ensures
        exists|now: u64|
            duration::clock_time(now) && *final(state) == #[trigger] old(state).rate_limited(now),
        duration::clock_time(final(state).last_rate_limit_at),
        old(state).well_formed() ==> final(state).well_formed(),
{
    let now: u64 = duration::now_millis();
    record_rate_limit_at(state, now)
}

/// Record that an endpoint was skipped due to heavy throttling.
pub fn record_skip(state: &mut DomainThrottleState)
    ensures
        *final(state) == old(state).skipped(),
{
    state.total_skips = state.total_skips.wrapping_add(1);
}

/// Record a successful response from this domain.
///
/// After `recovery_threshold` consecutive successes, drops one backoff level.
pub fn record_success(state: &mut DomainThrottleState)
    requires
        old(state).well_formed(),
    ensures
        *final(state) == old(state).succeeded(),
        final(state).well_formed(),
{
    state.total_successes = state.total_successes.wrapping_add(1);
    if state.backoff_level == 0 {
        return;
    }
    let successes: u32 = state.consecutive_successes + 1;
    if successes >= state.config.recovery_threshold {
        state.consecutive_successes = 0;
        state.backoff_level = state.backoff_level - 1;
    } else {
        state.consecutive_successes = successes;
    }
}

/// Record, at time `now_ms`, that an entire batch was rejected by this domain.
pub fn record_batch_rejection_at(state: &mut DomainThrottleState, now_ms: u64)
    ensures
        *final(state) == old(state).rate_limited(now_ms),
        old(state).well_formed() ==> final(state).well_formed(),
{
    record_rate_limit_at(state, now_ms)
}

/// Record that an entire batch was rejected by this domain.
///
/// Escalates by 1 backoff level, the same as a single 429. The requests of the batch are sent
/// individually afterwards, so a stronger escalation is unnecessary.
pub fn record_batch_rejection(state: &mut DomainThrottleState)
    ensures
        exists|now: u64|
            duration::clock_time(now) && *final(state) == #[trigger] old(state).rate_limited(now),
        duration::clock_time(final(state).last_rate_limit_at),
        old(state).well_formed() ==> final(state).well_formed(),
{
    let now: u64 = duration::now_millis();
    record_batch_rejection_at(state, now)
}

} // verus!
