//! The throttle states of all known domains.
use crate::duration;
use crate::throttle::{pre_request_delay_at, DomainThrottleState, ThrottleConfig};
use std::sync::Arc;
use std::time::Duration;
use vstd::prelude::*;

verus! {

/// A domain and its throttle state.
#[derive(Debug)]
pub struct DomainEntry {
    /// The rate-limit group (e.g. `alchemy.com`).
    pub domain: String,
    /// The state that all endpoints of the group share.
    pub state: DomainThrottleState,
}

/// Domain throttle registry.
///
/// Keyed by the rate-limit group extracted from the URL host. A domain keeps its position from
/// the moment it is registered, so the position serves as a handle on the shared state.
#[derive(Debug)]
pub struct ThrottleRegistry {
    /// The registered domains, in the order of their registration.
    pub entries: Vec<DomainEntry>,
    /// Configuration that newly registered domains inherit.
    pub default_config: Arc<ThrottleConfig>,
}

impl DomainEntry {
    /// The entry at time `now`, with the levels dropped that have decayed by then.
    pub open spec fn decayed(self, now: u64) -> Self {
        DomainEntry { state: self.state.decayed(now), ..self }
    }
}

/// All entries at time `now`.
pub open spec fn decayed_entries(entries: Seq<DomainEntry>, now: u64) -> Seq<DomainEntry> {
    Seq::new(entries.len(), |i: int| entries[i].decayed(now))
}

/// The longest delay, in nanoseconds, that one of the entries asks for; 0 when there are none.
pub open spec fn longest_delay(entries: Seq<DomainEntry>) -> nat
    decreases entries.len(),
{
    if entries.len() == 0 {
        0
    } else {
        let rest = longest_delay(entries.drop_last());
        let last = entries.last().state.delay_nanos();
        if last > rest {
            last
        } else {
            rest
        }
    }
}

/// Delay of a state in whole milliseconds, modulo 2^64.
pub open spec fn delay_millis(state: DomainThrottleState) -> nat {
    (state.delay_nanos() / 1_000_000) % 0x1_0000_0000_0000_0000
}

/// Traffic weight of a state: its successes, and 1 for a domain without traffic.
pub open spec fn traffic_weight(state: DomainThrottleState) -> nat {
    if state.total_successes == 0 {
        1
    } else {
        state.total_successes as nat
    }
}

/// Sum of the traffic weights.
pub open spec fn total_traffic(entries: Seq<DomainEntry>) -> nat
    decreases entries.len(),
{
    if entries.len() == 0 {
        0
    } else {
        total_traffic(entries.drop_last()) + traffic_weight(entries.last().state)
    }
}

/// Sum of the delays in milliseconds, each times the domain's traffic weight.
pub open spec fn weighted_delays(entries: Seq<DomainEntry>) -> nat
    decreases entries.len(),
{
    if entries.len() == 0 {
        0
    } else {
        weighted_delays(entries.drop_last()) + delay_millis(entries.last().state) * traffic_weight(
            entries.last().state,
        )
    }
}

/// No domain has recorded a success.
pub open spec fn no_successes(entries: Seq<DomainEntry>) -> bool {
    forall|i: int| 0 <= i < entries.len() ==> (#[trigger] entries[i]).state.total_successes == 0
}

/// Delay, in nanoseconds, averaged over the entries by traffic, in whole milliseconds; the
/// longest delay while no domain has recorded a success.
pub open spec fn average_delay(entries: Seq<DomainEntry>) -> nat {
    if no_successes(entries) {
        longest_delay(entries)
    } else {
        duration::millis(weighted_delays(entries) / total_traffic(entries))
    }
}

impl ThrottleRegistry {
    /// No domain occurs twice, and every state is well-formed.
    pub open spec fn well_formed(self) -> bool {
        &&& forall|i: int, j: int|
            #![trigger self.entries@[i], self.entries@[j]]
            0 <= i < j < self.entries@.len() ==> self.entries@[i].domain@
                != self.entries@[j].domain@
        &&& forall|i: int|
            0 <= i < self.entries@.len() ==> (#[trigger] self.entries@[i]).state.well_formed()
    }

    /// Every state can decay.
    pub open spec fn decay_defined(self) -> bool {
        forall|i: int|
            0 <= i < self.entries@.len() ==> (#[trigger] self.entries@[i]).state.decay_defined()
    }

    /// The domain is registered.
    pub open spec fn knows(self, domain: Seq<char>) -> bool {
        exists|i: int| self.holds(i, domain)
    }

    /// The domain is registered at position `i`.
    pub open spec fn holds(self, i: int, domain: Seq<char>) -> bool {
        0 <= i < self.entries@.len() && self.entries@[i].domain@ == domain
    }

    /// `after` is this registry with the domain registered: the registry itself if it knows the
    /// domain, and otherwise with one entry more, without traffic and under the default
    /// configuration.
    pub open spec fn registers(self, domain: Seq<char>, after: Self) -> bool {
        &&& after.default_config == self.default_config
        &&& if self.knows(domain) {
            after.entries@ == self.entries@
        } else {
            &&& after.entries@.len() == self.entries@.len() + 1
            &&& after.entries@.drop_last() == self.entries@
            &&& after.entries@.last().domain@ == domain
            &&& after.entries@.last().state.fresh(*self.default_config)
        }
    }

    /// A registry without domains, under the default configuration.
    pub fn new() -> (registry: Self)
        ensures
            registry.entries@.len() == 0,
            registry.default_config.is_default(),
            registry.well_formed(),
    {
        ThrottleRegistry {
            entries: Vec::new(),
            default_config: Arc::new(ThrottleConfig::default()),
        }
    }

    /// Whether every state can decay.
    pub fn can_decay(&self) -> (r: bool)
        ensures
            r == self.decay_defined(),
    {
        let mut i: usize = 0;
        while i < self.entries.len()
            invariant
                i <= self.entries.len(),
                forall|k: int|
                    0 <= k < i ==> (#[trigger] self.entries@[k]).state.decay_defined(),
            decreases self.entries.len() - i,
        {
            if !self.entries[i].state.can_decay() {
                return false;
            }
            i += 1;
        }
        true
    }

    /// Position of a domain, if it is registered.
    pub fn find(&self, domain: &str) -> (r: Option<usize>)
        ensures
            match r {
                Some(i) => self.holds(i as int, domain@),
                None => !self.knows(domain@),
            },
    {
        let name: String = domain.to_owned();
        let mut i: usize = 0;
        while i < self.entries.len()
            invariant
                i <= self.entries.len(),
                name@ == domain@,
                forall|k: int| 0 <= k < i ==> (#[trigger] self.entries@[k]).domain@ != domain@,
            decreases self.entries.len() - i,
        {
            if self.entries[i].domain == name {
                assert(self.holds(i as int, domain@));
                return Some(i);
            }
            i += 1;
        }
        None
    }
}

/// `Arc::clone` makes another pointer to the same value.
#[verifier::external_body]
pub(crate) fn share<T>(value: &Arc<T>) -> (r: Arc<T>)
    ensures
        r == *value,
{
    Arc::clone(value)
}

/// Set the default throttle configuration.
///
/// Newly registered domains inherit it. Already-registered domains keep their configuration.
pub fn set_default_throttle_config(registry: &mut ThrottleRegistry, config: ThrottleConfig)
    ensures
        *final(registry).default_config == config,
        final(registry).entries == old(registry).entries,
{
    registry.default_config = Arc::new(config);
}

/// Get or create the throttle state for a domain; returns the domain's position in the registry.
///
/// The `domain` should be the rate-limit group key (see
/// [`extract_rate_limit_domain`](crate::extract_rate_limit_domain)).
pub fn domain_throttle(registry: &mut ThrottleRegistry, domain: &str) -> (position: usize)
    requires
        old(registry).well_formed(),
    ensures
        old(registry).registers(domain@, *final(registry)),
        final(registry).holds(position as int, domain@),
        final(registry).well_formed(),
        old(registry).decay_defined() ==> final(registry).decay_defined(),
{
    if let Some(i) = registry.find(domain) {
        return i;
    }
    let state = DomainThrottleState::new(share(&registry.default_config));
    registry.entries.push(DomainEntry { domain: domain.to_owned(), state });
    proof {
        let before = old(registry).entries@;
        let after = registry.entries@;
        assert(after.drop_last() =~= before);
        assert forall|i: int, j: int|
            #![trigger after[i], after[j]]
            0 <= i < j < after.len() implies after[i].domain@ != after[j].domain@ by {
            assert(after[i] == before[i]);
            if j < before.len() {
                assert(after[j] == before[j]);
            } else {
                assert(!old(registry).holds(i, domain@));
            }
        }
    }
    registry.entries.len() - 1
}

/// Forget all domains; the default configuration stays.
pub fn reset_registry(registry: &mut ThrottleRegistry)
    ensures
        final(registry).entries@.len() == 0,
        final(registry).default_config == old(registry).default_config,
        final(registry).well_formed(),
{
    registry.entries.clear();
}

/// Returns the maximum delay across all registered domains at time `now_ms`.
pub fn max_domain_backoff_at(registry: &mut ThrottleRegistry, now_ms: u64) -> (delay: Duration)
    requires
        old(registry).decay_defined(),
    ensures
        final(registry).default_config == old(registry).default_config,
        final(registry).entries@ == decayed_entries(old(registry).entries@, now_ms),
        duration::nanos(delay) == longest_delay(final(registry).entries@),
{
    let mut longest: Duration = Duration::from_millis(0);
    let mut i: usize = 0;
    while i < registry.entries.len()
        invariant
            i <= registry.entries.len(),
            old(registry).decay_defined(),
            registry.default_config == old(registry).default_config,
            registry.entries@.len() == old(registry).entries@.len(),
            forall|k: int|
                #![trigger registry.entries@[k]]
                0 <= k < i ==> registry.entries@[k] == old(registry).entries@[k].decayed(now_ms),
            forall|k: int|
                #![trigger registry.entries@[k]]
                i <= k < registry.entries@.len() ==> registry.entries@[k] == old(
                    registry,
                ).entries@[k],
            duration::nanos(longest) == longest_delay(registry.entries@.take(i as int)),
        decreases registry.entries.len() - i,
    {
        let ghost before = registry.entries@;
        let delay = pre_request_delay_at(&mut registry.entries[i].state, now_ms);
        if duration::shorter(&longest, &delay) {
            longest = delay;
        }
        i += 1;
        proof {
            assert(registry.entries@.take(i as int).drop_last() =~= before.take(i - 1));
        }
    }
    proof {
        assert(registry.entries@.take(i as int) =~= registry.entries@);
        assert(registry.entries@ =~= decayed_entries(old(registry).entries@, now_ms));
    }
    longest
}

/// Returns the maximum pre-request delay across all registered domains now, by the system clock.
///
/// This reflects the worst-case domain backoff. Prefer [`weighted_domain_backoff`] for adaptive
/// prefetch decisions, as `max` lets a single low-traffic sick domain penalize all operations.
pub fn max_domain_backoff(registry: &mut ThrottleRegistry) -> (delay: Duration)
    requires
        old(registry).decay_defined(),
    ensures
        final(registry).default_config == old(registry).default_config,
        exists|now: u64|
            duration::clock_time(now) && final(registry).entries@ == #[trigger] decayed_entries(
                old(registry).entries@,
                now,
            ),
        duration::nanos(delay) == longest_delay(final(registry).entries@),
{
    let now: u64 = duration::now_millis();
    max_domain_backoff_at(registry, now)
}

/// The traffic of some of the entries is at most that of all.
proof fn lemma_traffic_of_prefix(entries: Seq<DomainEntry>, n: int)
    requires
        0 <= n <= entries.len(),
    ensures
        total_traffic(entries.take(n)) <= total_traffic(entries),
    decreases entries.len(),
{
    if n == entries.len() {
        assert(entries.take(n) =~= entries);
    } else {
        assert(entries.drop_last().take(n) =~= entries.take(n));
        lemma_traffic_of_prefix(entries.drop_last(), n);
    }
}

/// Weighted delays are at most the longest representable delay times the traffic.
proof fn lemma_weighted_delays_bounded(entries: Seq<DomainEntry>)
    ensures
        weighted_delays(entries) <= u64::MAX * total_traffic(entries),
    decreases entries.len(),
{
    if entries.len() > 0 {
        lemma_weighted_delays_bounded(entries.drop_last());
        let d = delay_millis(entries.last().state);
        let w = traffic_weight(entries.last().state);
        let t = total_traffic(entries.drop_last());
        assert(d * w <= u64::MAX * w) by (nonlinear_arith)
            requires
                d <= u64::MAX,
        ;
        assert(u64::MAX * t + u64::MAX * w == u64::MAX * (t + w)) by (nonlinear_arith);
    }
}

/// Sum of the traffic weights, and whether any domain has recorded a success.
fn sum_traffic(entries: &Vec<DomainEntry>) -> (r: (u128, bool))
    ensures
        r.0 == total_traffic(entries@),
        r.1 == !no_successes(entries@),
{
    let mut total: u128 = 0;
    let mut any: bool = false;
    let mut i: usize = 0;
    while i < entries.len()
        invariant
            i <= entries.len(),
            total == total_traffic(entries@.take(i as int)),
            total <= i * u64::MAX,
            any == exists|k: int|
                0 <= k < i && (#[trigger] entries@[k]).state.total_successes != 0,
        decreases entries.len() - i,
    {
        let successes: u64 = entries[i].state.total_successes;
        let weight: u64 = if successes == 0 {
            1
        } else {
            successes
        };
        if successes != 0 {
            any = true;
            assert(entries@[i as int].state.total_successes != 0);
        }
        assert(i * u64::MAX + u64::MAX == (i + 1) * u64::MAX) by (nonlinear_arith);
        assert((i + 1) * u64::MAX <= u64::MAX * u64::MAX) by (nonlinear_arith)
            requires
                i + 1 <= u64::MAX,
        ;
        total = total + weight as u128;
        i += 1;
        assert(entries@.take(i as int).drop_last() =~= entries@.take(i - 1));
    }
    assert(entries@.take(i as int) =~= entries@);
    (total, any)
}

/// Whole milliseconds of the traffic-weighted average delay.
fn weighted_average(entries: &Vec<DomainEntry>, total: u128) -> (r: u64)
    requires
        total == total_traffic(entries@),
        total > 0,
    ensures
        r == weighted_delays(entries@) / total_traffic(entries@),
{
    let mut quotient: u128 = 0;
    let mut remainder: u128 = 0;
    let mut i: usize = 0;
    while i < entries.len()
        invariant
            i <= entries.len(),
            total == total_traffic(entries@),
            total > 0,
            remainder < total,
            quotient * total + remainder == weighted_delays(entries@.take(i as int)),
        decreases entries.len() - i,
    {
        let delay: u64 = duration::to_millis(&entries[i].state.current_delay());
        let successes: u64 = entries[i].state.total_successes;
        let weight: u64 = if successes == 0 {
            1
        } else {
            successes
        };
        assert(delay as u128 * weight as u128 <= u64::MAX * u64::MAX) by (nonlinear_arith);
        let product: u128 = delay as u128 * weight as u128;
        let more: u128 = product / total;
        let left: u128 = product % total;
        let ghost sum = weighted_delays(entries@.take(i + 1));
        proof {
            assert(entries@.take(i + 1).drop_last() =~= entries@.take(i as int));
            vstd::arithmetic::div_mod::lemma_fundamental_div_mod(product as int, total as int);
            assert((quotient + more) * total + remainder + left == sum) by (nonlinear_arith)
                requires
                    sum == quotient * total + remainder + product,
                    product == total * more + left,
            ;
            lemma_weighted_delays_bounded(entries@.take(i + 1));
            lemma_traffic_of_prefix(entries@, i + 1);
            let part = total_traffic(entries@.take(i + 1));
            assert(quotient + more <= u64::MAX) by (nonlinear_arith)
                requires
                    (quotient + more) * total <= u64::MAX * part,
                    part <= total,
                    total > 0,
            ;
        }
        if remainder >= total - left {
            assert((quotient + more + 1) * total == (quotient + more) * total + total)
                by (nonlinear_arith);
            quotient = quotient + more + 1;
            remainder = remainder - (total - left);
        } else {
            quotient = quotient + more;
            remainder = remainder + left;
        }
        i += 1;
    }
    proof {
        assert(entries@.take(i as int) =~= entries@);
        lemma_weighted_delays_bounded(entries@);
        assert(quotient <= u64::MAX) by (nonlinear_arith)
            requires
                quotient * total <= u64::MAX * total,
                total > 0,
        ;
        vstd::arithmetic::div_mod::lemma_fundamental_div_mod_converse(
            weighted_delays(entries@) as int,
            total as int,
            quotient as int,
            remainder as int,
        );
    }
    quotient as u64
}

/// Returns a traffic-weighted average of the delays across all domains at time `now_ms`.
pub fn weighted_domain_backoff_at(registry: &mut ThrottleRegistry, now_ms: u64) -> (delay: Duration)
    requires
        old(registry).decay_defined(),
    ensures
        final(registry).default_config == old(registry).default_config,
        final(registry).entries@ == decayed_entries(old(registry).entries@, now_ms),
        duration::nanos(delay) == average_delay(final(registry).entries@),
{
    let longest = max_domain_backoff_at(registry, now_ms);
    let (total, any_success) = sum_traffic(&registry.entries);
    if !any_success {
        return longest;
    }
    Duration::from_millis(weighted_average(&registry.entries, total))
}

/// Returns a traffic-weighted average of pre-request delays across all domains now, by the
/// system clock.
///
/// Weights each domain's delay by its `total_successes` count, so high-traffic healthy domains
/// dilute the impact of low-traffic sick domains. A domain without traffic has weight 1, so it
/// contributes without dominating.
///
/// Falls back to [`max_domain_backoff`] if no successes have been recorded yet (e.g., at startup
/// before any requests).
pub fn weighted_domain_backoff(registry: &mut ThrottleRegistry) -> (delay: Duration)
    requires
        old(registry).decay_defined(),
    ensures
        final(registry).default_config == old(registry).default_config,
        exists|now: u64|
            duration::clock_time(now) && final(registry).entries@ == #[trigger] decayed_entries(
                old(registry).entries@,
                now,
            ),
        duration::nanos(delay) == average_delay(final(registry).entries@),
{
    let now: u64 = duration::now_millis();
    weighted_domain_backoff_at(registry, now)
}

} // verus!
