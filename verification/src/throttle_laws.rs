//! What holds of a domain's throttle state over many events.
use crate::duration;
use crate::throttle::{DomainThrottleState, ThrottleConfig};
use std::time::Duration;
use vstd::prelude::*;

verus! {

/// The state after 429 responses at the given times, in order.
pub open spec fn after_rate_limits(state: DomainThrottleState, times: Seq<u64>) -> DomainThrottleState
    decreases times.len(),
{
    if times.len() == 0 {
        state
    } else {
        after_rate_limits(state, times.drop_last()).rate_limited(times.last())
    }
}

/// The state after `n` successes in a row.
pub open spec fn after_successes(state: DomainThrottleState, n: nat) -> DomainThrottleState
    decreases n,
{
    if n == 0 {
        state
    } else {
        after_successes(state, (n - 1) as nat).succeeded()
    }
}

/// The state after its delay was asked for at the given times, in order.
pub open spec fn after_checks(state: DomainThrottleState, times: Seq<u64>) -> DomainThrottleState
    decreases times.len(),
{
    if times.len() == 0 {
        state
    } else {
        after_checks(state, times.drop_last()).decayed(times.last())
    }
}

/// Consecutive successes that drop one level; a threshold of zero acts like one.
pub open spec fn successes_per_level(state: DomainThrottleState) -> nat {
    if state.config.recovery_threshold == 0 {
        1
    } else {
        state.config.recovery_threshold as nat
    }
}

/// Every event keeps the level within the maximum and the success counter below the threshold,
/// and none changes the configuration.
pub proof fn law_events_keep_states_well_formed(state: DomainThrottleState, now: u64)
    requires
        state.well_formed(),
    ensures
        state.rate_limited(now).well_formed(),
        state.succeeded().well_formed(),
        state.skipped().well_formed(),
        state.decayed(now).well_formed(),
        state.rate_limited(now).config == state.config,
        state.succeeded().config == state.config,
        state.skipped().config == state.config,
        state.decayed(now).config == state.config,
{
}

/// Escalation is immediate: each 429 raises the level by one until the maximum is reached, and
/// leaves no success counted.
pub proof fn law_each_rate_limit_escalates(state: DomainThrottleState, times: Seq<u64>)
    requires
        state.well_formed(),
    ensures
        after_rate_limits(state, times).config == state.config,
        after_rate_limits(state, times).well_formed(),
        after_rate_limits(state, times).backoff_level == if state.backoff_level + times.len()
            <= state.config.max_backoff_level {
            state.backoff_level + times.len()
        } else {
            state.config.max_backoff_level as int
        },
        times.len() > 0 ==> after_rate_limits(state, times).consecutive_successes == 0,
        times.len() > 0 ==> after_rate_limits(state, times).last_rate_limit_at == times.last(),
    decreases times.len(),
{
    if times.len() > 0 {
        law_each_rate_limit_escalates(state, times.drop_last());
    }
}

/// Recovery is gradual: with no success counted yet, fewer successes than the threshold leave the
/// level as it is, and the one that completes the threshold drops exactly one level and counts
/// from zero again.
pub proof fn law_threshold_of_successes_drops_one_level(state: DomainThrottleState, n: nat)
    requires
        state.backoff_level > 0,
        state.consecutive_successes == 0,
        n <= successes_per_level(state),
    ensures
        after_successes(state, n).config == state.config,
        n < successes_per_level(state) ==> {
            &&& after_successes(state, n).backoff_level == state.backoff_level
            &&& after_successes(state, n).consecutive_successes == n
        },
        n == successes_per_level(state) ==> {
            &&& after_successes(state, n).backoff_level == state.backoff_level - 1
            &&& after_successes(state, n).consecutive_successes == 0
        },
    decreases n,
{
    if n > 0 {
        law_threshold_of_successes_drops_one_level(state, (n - 1) as nat);
    }
}

/// Successes in a row compose.
proof fn lemma_successes_compose(state: DomainThrottleState, m: nat, n: nat)
    ensures
        after_successes(state, m + n) == after_successes(after_successes(state, m), n),
    decreases n,
{
    if n > 0 {
        lemma_successes_compose(state, m, (n - 1) as nat);
        assert((m + n - 1) as nat == m + (n - 1) as nat);
    }
}

/// Every level costs one threshold of consecutive successes: `k` thresholds drop `k` levels.
pub proof fn law_recovery_cost_per_level(state: DomainThrottleState, k: nat)
    requires
        state.consecutive_successes == 0,
        k <= state.backoff_level,
    ensures
        after_successes(state, k * successes_per_level(state)).backoff_level == state.backoff_level
            - k,
        after_successes(state, k * successes_per_level(state)).consecutive_successes == 0,
        after_successes(state, k * successes_per_level(state)).config == state.config,
    decreases k,
{
    let per = successes_per_level(state);
    if k > 0 {
        law_recovery_cost_per_level(state, (k - 1) as nat);
        let before = after_successes(state, ((k - 1) as nat) * per);
        assert(k * per == ((k - 1) as nat) * per + per) by (nonlinear_arith)
            requires
                k > 0,
        ;
        lemma_successes_compose(state, ((k - 1) as nat) * per, per);
        law_threshold_of_successes_drops_one_level(before, per);
    } else {
        assert(0 * per == 0) by (nonlinear_arith);
    }
}

/// A success on a healthy domain changes nothing but the total.
pub proof fn law_success_at_level_zero_only_counts(state: DomainThrottleState)
    requires
        state.backoff_level == 0,
    ensures
        state.succeeded() == (DomainThrottleState {
            total_successes: state.succeeded().total_successes,
            ..state
        }),
        state.succeeded().delay_nanos() == 0,
{
}

/// More time passes, more intervals are quiet.
proof fn lemma_quiet_monotone(state: DomainThrottleState, earlier: u64, later: u64)
    requires
        earlier <= later,
        state.config.decay_interval_ms > 0,
    ensures
        state.quiet_intervals(earlier) <= state.quiet_intervals(later),
{
    if earlier > state.last_rate_limit_at {
        vstd::arithmetic::div_mod::lemma_div_is_ordered(
            earlier - state.last_rate_limit_at,
            later - state.last_rate_limit_at,
            state.config.decay_interval_ms as int,
        );
    } else if later > state.last_rate_limit_at {
        vstd::arithmetic::div_mod::lemma_div_pos_is_pos(
            later - state.last_rate_limit_at,
            state.config.decay_interval_ms as int,
        );
    }
}

/// Decay goes by time alone: however often, and whenever, the delay was asked for since the last
/// 429, at time `now` one level has been dropped for each quiet interval.
pub proof fn law_decay_is_one_level_per_quiet_interval(
    state: DomainThrottleState,
    times: Seq<u64>,
    now: u64,
)
    requires
        state.config.decay_interval_ms > 0,
        state.last_rate_limit_at > 0,
        state.decayed_intervals == 0,
        forall|i: int| 0 <= i < times.len() ==> times[i] <= now,
    ensures
        after_checks(state, times.push(now)).backoff_level == if state.quiet_intervals(now)
            < state.backoff_level {
            state.backoff_level - state.quiet_intervals(now)
        } else {
            0
        },
{
    assert(times.push(now).drop_last() =~= times);
    lemma_checks(state, times, now);
}

/// Where a series of checks has brought a state by time `now`.
proof fn lemma_checks(state: DomainThrottleState, times: Seq<u64>, now: u64)
    requires
        state.config.decay_interval_ms > 0,
        state.last_rate_limit_at > 0,
        state.decayed_intervals == 0,
        forall|i: int| 0 <= i < times.len() ==> times[i] <= now,
    ensures
        ({
            let s = after_checks(state, times);
            &&& s.config == state.config
            &&& s.last_rate_limit_at == state.last_rate_limit_at
            &&& s.decayed_intervals <= state.quiet_intervals(now)
            &&& s.backoff_level == if s.decayed_intervals < state.backoff_level {
                state.backoff_level - s.decayed_intervals
            } else {
                0
            }
        }),
    decreases times.len(),
{
    if times.len() > 0 {
        let before = times.drop_last();
        assert forall|i: int| 0 <= i < before.len() implies before[i] <= now by {
            assert(before[i] == times[i]);
        }
        lemma_checks(state, before, now);
        lemma_quiet_monotone(state, times.last(), now);
    }
}

/// Asking for the delay twice at one time changes nothing the second time.
pub proof fn law_checking_again_changes_nothing(state: DomainThrottleState, now: u64)
    requires
        state.decay_defined(),
    ensures
        state.decayed(now).decayed(now) == state.decayed(now),
{
    if state.backoff_level > 0 && 0 < state.last_rate_limit_at < now {
        vstd::arithmetic::div_mod::lemma_div_nonincreasing(
            now - state.last_rate_limit_at,
            state.config.decay_interval_ms as int,
        );
    }
}

/// A domain is healthy again, and asks for no delay, once as many intervals as it has levels have
/// passed since the last 429.
pub proof fn law_quiet_domain_recovers(state: DomainThrottleState, now: u64)
    requires
        state.config.decay_interval_ms > 0,
        state.last_rate_limit_at > 0,
        state.decayed_intervals == 0,
        now >= state.last_rate_limit_at + state.backoff_level * state.config.decay_interval_ms,
    ensures
        state.decayed(now).backoff_level == 0,
        state.decayed(now).delay_nanos() == 0,
{
    let levels = state.backoff_level as int;
    let interval = state.config.decay_interval_ms as int;
    if levels > 0 {
        assert(levels * interval > 0) by (nonlinear_arith)
            requires
                levels > 0,
                interval > 0,
        ;
        vstd::arithmetic::div_mod::lemma_div_is_ordered(
            levels * interval,
            now - state.last_rate_limit_at,
            interval,
        );
        vstd::arithmetic::div_mod::lemma_div_multiples_vanish(levels, interval);
        assert(levels * interval == interval * levels) by (nonlinear_arith);
    }
}

/// A 429 at time `now` is stamped with that time. It raises the level by one, unless the level
/// has reached the maximum, starts the count of successes and of decay anew, and is counted in
/// the total, which runs over at 2^64. Nothing else changes.
pub proof fn law_rate_limit_is_stamped_and_counted(state: DomainThrottleState, now: u64)
    ensures
        ({
            let after = state.rate_limited(now);
            &&& after.last_rate_limit_at == now
            &&& state.backoff_level < state.config.max_backoff_level ==> after.backoff_level
                == state.backoff_level + 1
            &&& state.backoff_level >= state.config.max_backoff_level ==> after.backoff_level
                == state.config.max_backoff_level
            &&& after.consecutive_successes == 0
            &&& after.decayed_intervals == 0
            &&& after.total_rate_limits == (state.total_rate_limits + 1) % 0x1_0000_0000_0000_0000
            &&& after.total_successes == state.total_successes
            &&& after.total_skips == state.total_skips
            &&& after.config == state.config
        }),
{
}

/// A domain limited at time `now` asks for no delay any more once as many intervals as it has
/// levels by then have passed, and does not drop a level before the first interval is over.
pub proof fn law_limited_domain_recovers_in_time(state: DomainThrottleState, now: u64, later: u64)
    requires
        now > 0,
        state.config.decay_interval_ms > 0,
    ensures
        ({
            let limited = state.rate_limited(now);
            &&& later >= now + limited.backoff_level * state.config.decay_interval_ms ==> {
                &&& limited.decayed(later).backoff_level == 0
                &&& limited.decayed(later).delay_nanos() == 0
            }
            &&& later < now + state.config.decay_interval_ms ==> limited.decayed(later) == limited
        }),
{
    let limited = state.rate_limited(now);
    if later >= now + limited.backoff_level * state.config.decay_interval_ms {
        law_quiet_domain_recovers(limited, later);
    }
    if now < later && later < now + state.config.decay_interval_ms {
        vstd::arithmetic::div_mod::lemma_basic_div(
            later - now,
            state.config.decay_interval_ms as int,
        );
    }
}

/// A success is counted in the total, which runs over at 2^64. On a domain that backs off it
/// counts towards recovery as well: the one that completes the threshold takes one level off and
/// starts the count anew. Nothing else changes.
pub proof fn law_success_is_counted(state: DomainThrottleState)
    ensures
        ({
            let after = state.succeeded();
            let completes = state.consecutive_successes + 1 >= state.config.recovery_threshold;
            &&& after.total_successes == (state.total_successes + 1) % 0x1_0000_0000_0000_0000
            &&& state.backoff_level == 0 ==> {
                &&& after.backoff_level == 0
                &&& after.consecutive_successes == state.consecutive_successes
            }
            &&& state.backoff_level > 0 && completes ==> {
                &&& after.backoff_level == state.backoff_level - 1
                &&& after.consecutive_successes == 0
            }
            &&& state.backoff_level > 0 && !completes ==> {
                &&& after.backoff_level == state.backoff_level
                &&& after.consecutive_successes == state.consecutive_successes + 1
            }
            &&& after.last_rate_limit_at == state.last_rate_limit_at
            &&& after.decayed_intervals == state.decayed_intervals
            &&& after.total_rate_limits == state.total_rate_limits
            &&& after.total_skips == state.total_skips
            &&& after.config == state.config
        }),
{
}

/// A skip is counted in the total, which runs over at 2^64, and changes nothing else.
pub proof fn law_skip_only_counts(state: DomainThrottleState)
    ensures
        ({
            let after = state.skipped();
            &&& after.total_skips == (state.total_skips + 1) % 0x1_0000_0000_0000_0000
            &&& after.backoff_level == state.backoff_level
            &&& after.consecutive_successes == state.consecutive_successes
            &&& after.last_rate_limit_at == state.last_rate_limit_at
            &&& after.decayed_intervals == state.decayed_intervals
            &&& after.total_rate_limits == state.total_rate_limits
            &&& after.total_successes == state.total_successes
            &&& after.config == state.config
        }),
{
}

/// Decay takes off one level for each whole interval since the last 429 that it has not been
/// reckoned with before, down to zero: with `quiet` whole intervals over at time `now`, of which
/// some were counted before, the rest come off. A domain that does not back off, or has not seen
/// a 429, stays as it is, and so does one that was limited later than `now`. Nothing else changes.
pub proof fn law_decay_goes_by_whole_intervals(state: DomainThrottleState, now: u64, quiet: nat)
    requires
        state.config.decay_interval_ms > 0,
        state.last_rate_limit_at <= now ==> state.last_rate_limit_at + quiet
            * state.config.decay_interval_ms <= now < state.last_rate_limit_at + (quiet + 1)
            * state.config.decay_interval_ms,
        now < state.last_rate_limit_at ==> quiet == 0,
    ensures
        ({
            let after = state.decayed(now);
            let unmoved = state.backoff_level == 0 || state.last_rate_limit_at == 0 || quiet
                <= state.decayed_intervals;
            &&& unmoved ==> after == state
            &&& !unmoved ==> {
                &&& after.decayed_intervals == quiet
                &&& state.backoff_level >= quiet - state.decayed_intervals ==> after.backoff_level
                    == state.backoff_level - (quiet - state.decayed_intervals)
                &&& state.backoff_level <= quiet - state.decayed_intervals ==> after.backoff_level
                    == 0
            }
            &&& after.last_rate_limit_at == state.last_rate_limit_at
            &&& after.consecutive_successes == state.consecutive_successes
            &&& after.total_rate_limits == state.total_rate_limits
            &&& after.total_successes == state.total_successes
            &&& after.total_skips == state.total_skips
            &&& after.config == state.config
        }),
{
    let interval = state.config.decay_interval_ms as int;
    if state.last_rate_limit_at <= now {
        let elapsed = now - state.last_rate_limit_at;
        let rest = elapsed - quiet * interval;
        assert((quiet + 1) * interval == quiet * interval + interval) by (nonlinear_arith);
        vstd::arithmetic::div_mod::lemma_fundamental_div_mod_converse(
            elapsed,
            interval,
            quiet as int,
            rest,
        );
        assert(quiet <= elapsed) by (nonlinear_arith)
            requires
                quiet * interval <= elapsed,
                interval >= 1,
        ;
    }
}

/// A domain that does not back off asks for no delay. One that does asks for the delay that the
/// table has for its level, or for the maximum level if its own is higher, and for two seconds
/// where the table has none.
pub proof fn law_delay_goes_by_the_table(state: DomainThrottleState, level: int)
    requires
        state.backoff_level <= state.config.max_backoff_level ==> level == state.backoff_level,
        state.backoff_level > state.config.max_backoff_level ==> level
            == state.config.max_backoff_level,
    ensures
        state.backoff_level == 0 ==> state.delay_nanos() == 0,
        state.backoff_level > 0 && level < state.config.backoff_table@.len() ==> state.delay_nanos()
            == duration::nanos(state.config.backoff_table@[level]),
        state.backoff_level > 0 && level >= state.config.backoff_table@.len()
            ==> state.delay_nanos() == 2_000_000_000,
{
}

/// A new domain has seen nothing, and its state is in order. A state is in order exactly if its
/// level is within the maximum and its count of successes below the threshold, and can decay
/// exactly if its interval is not zero, or there is nothing that could decay.
pub proof fn law_states_in_order(state: DomainThrottleState, config: ThrottleConfig)
    ensures
        state.fresh(config) <==> {
            &&& state.last_rate_limit_at == 0
            &&& state.backoff_level == 0
            &&& state.consecutive_successes == 0
            &&& state.total_rate_limits == 0
            &&& state.total_successes == 0
            &&& state.total_skips == 0
            &&& state.decayed_intervals == 0
            &&& *state.config == config
        },
        state.fresh(config) ==> state.well_formed() && state.decay_defined(),
        state.well_formed() <==> {
            &&& state.backoff_level <= state.config.max_backoff_level
            &&& state.consecutive_successes == 0 || state.consecutive_successes
                < state.config.recovery_threshold
        },
        state.decay_defined() <==> state.config.decay_interval_ms != 0 || state.backoff_level == 0
            || state.last_rate_limit_at == 0,
{
}

/// The default configuration: five levels of 50, 150, 400, 1000 and 2000 milliseconds, of which
/// five successes or ten quiet seconds take one off.
pub proof fn law_default_throttling(config: ThrottleConfig)
    ensures
        config.is_default() <==> {
            &&& config.max_backoff_level == 5
            &&& config.recovery_threshold == 5
            &&& config.decay_interval_ms == 10_000
            &&& config.backoff_table@.len() == 6
            &&& duration::nanos(config.backoff_table@[0]) == 0
            &&& duration::nanos(config.backoff_table@[1]) == 50_000_000
            &&& duration::nanos(config.backoff_table@[2]) == 150_000_000
            &&& duration::nanos(config.backoff_table@[3]) == 400_000_000
            &&& duration::nanos(config.backoff_table@[4]) == 1_000_000_000
            &&& duration::nanos(config.backoff_table@[5]) == 2_000_000_000
        },
{
    let delays = config.backoff_table@.map_values(|d: Duration| duration::nanos(d));
    let expected = seq![
        0nat,
        duration::millis(50),
        duration::millis(150),
        duration::millis(400),
        duration::millis(1000),
        duration::millis(2000),
    ];
    if config.is_default() {
        assert(delays.len() == expected.len());
        assert(delays[0] == expected[0] && delays[1] == expected[1] && delays[2] == expected[2]
            && delays[3] == expected[3] && delays[4] == expected[4] && delays[5] == expected[5]);
    }
    if config.backoff_table@.len() == 6 && duration::nanos(config.backoff_table@[0]) == 0
        && duration::nanos(config.backoff_table@[1]) == 50_000_000 && duration::nanos(
        config.backoff_table@[2],
    ) == 150_000_000 && duration::nanos(config.backoff_table@[3]) == 400_000_000
        && duration::nanos(config.backoff_table@[4]) == 1_000_000_000 && duration::nanos(
        config.backoff_table@[5],
    ) == 2_000_000_000 {
        assert(delays =~= expected);
    }
}

} // verus!
