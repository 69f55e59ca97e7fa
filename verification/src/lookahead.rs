//! Whether a call can begin, or go on after an event: whether the decay of every throttle state
//! that it would consult is defined.
//!
//! It is not where a state backs off under a decay interval of zero.
use crate::balancer::LoadBalancedTransport;
use crate::call;
use crate::call::{accepted_anywhere, endpoint_at, Call, Event, Phase};
use crate::duration;
use crate::registry::{DomainEntry, ThrottleRegistry};
use crate::throttle;
use crate::throttle_laws;
use vstd::prelude::*;

verus! {

/// The states tell the same of decay and delays at time `now`, wherever they can decay.
pub open spec fn alike(first: Seq<DomainEntry>, current: Seq<DomainEntry>, now: u64) -> bool {
    &&& first.len() == current.len()
    &&& forall|k: int|
        #![trigger current[k]]
        0 <= k < current.len() ==> {
            &&& current[k].state.decay_defined() == first[k].state.decay_defined()
            &&& first[k].state.decay_defined() ==> current[k].state.decayed(now).delay_nanos()
                == first[k].state.decayed(now).delay_nanos()
        }
}

/// The transports differ in their counters at most.
spec fn same_endpoints(a: LoadBalancedTransport, b: LoadBalancedTransport) -> bool {
    b == LoadBalancedTransport { counter: b.counter, ..a }
}

/// Bringing a state up to time `now` keeps the states alike.
pub proof fn lemma_decay_keeps_alike(
    first: Seq<DomainEntry>,
    current: Seq<DomainEntry>,
    k: int,
    now: u64,
)
    requires
        alike(first, current, now),
        0 <= k < current.len(),
        first[k].state.decay_defined(),
    ensures
        alike(first, call::decayed_at(current, k, now), now),
        call::decayed_at(current, k, now)[k].state.delay_nanos() == first[k].state.decayed(
            now,
        ).delay_nanos(),
{
    let after = call::decayed_at(current, k, now);
    assert(current[k].state.decay_defined());
    throttle_laws::law_checking_again_changes_nothing(current[k].state, now);
    assert forall|j: int| #![trigger after[j]] 0 <= j < after.len() implies {
        &&& after[j].state.decay_defined() == first[j].state.decay_defined()
        &&& first[j].state.decay_defined() ==> after[j].state.decayed(now).delay_nanos()
            == first[j].state.decayed(now).delay_nanos()
    } by {
        assert(current[j].state.decay_defined() == first[j].state.decay_defined());
    }
}

/// Counting a skip keeps the states alike.
pub proof fn lemma_skip_keeps_alike(
    first: Seq<DomainEntry>,
    current: Seq<DomainEntry>,
    k: int,
    now: u64,
)
    requires
        alike(first, current, now),
        0 <= k < current.len(),
    ensures
        alike(first, call::skipped_at(current, k), now),
{
    let after = call::skipped_at(current, k);
    assert forall|j: int| #![trigger after[j]] 0 <= j < after.len() implies {
        &&& after[j].state.decay_defined() == first[j].state.decay_defined()
        &&& first[j].state.decay_defined() ==> after[j].state.decayed(now).delay_nanos()
            == first[j].state.decayed(now).delay_nanos()
    } by {
        assert(current[j].state.decay_defined() == first[j].state.decay_defined());
    }
}

/// Whether an alternative can be looked for from `attempt` on, and if so, whether there is one.
/// The search is that of `seeker`, which may have another counter, on `entries`.
fn can_find_alternative(
    t: &LoadBalancedTransport,
    registry: &ThrottleRegistry,
    bytes: usize,
    start: usize,
    attempt: usize,
    now_ms: u64,
    Ghost(seeker): Ghost<LoadBalancedTransport>,
    Ghost(entries): Ghost<Seq<DomainEntry>>,
) -> (r: Option<bool>)
    requires
        t.well_formed(),
        t.registered_in(*registry),
        same_endpoints(*t, seeker),
        alike(registry.entries@, entries, now_ms),
        start < t.size(),
        attempt <= t.size(),
    ensures
        r is Some <==> call::alternative_defined(
            seeker,
            bytes,
            start as int,
            attempt as int,
            entries,
            now_ms,
        ),
        r matches Some(remains) ==> {
            let (expected, looked) = call::alternative(
                seeker,
                bytes,
                start as int,
                attempt as int,
                entries,
                now_ms,
            );
            &&& remains == expected
            &&& alike(registry.entries@, looked, now_ms)
        },
{
    let n: usize = t.urls.len();
    let ghost mut current = entries;
    let mut next: usize = attempt;
    while next < n
        invariant
            attempt <= next <= n,
            n == t.size(),
            t.well_formed(),
            t.registered_in(*registry),
            same_endpoints(*t, seeker),
            alike(registry.entries@, current, now_ms),
            start < n,
            call::alternative_defined(seeker, bytes, start as int, next as int, current, now_ms)
                == call::alternative_defined(
                seeker,
                bytes,
                start as int,
                attempt as int,
                entries,
                now_ms,
            ),
            call::alternative(seeker, bytes, start as int, next as int, current, now_ms)
                == call::alternative(
                seeker,
                bytes,
                start as int,
                attempt as int,
                entries,
                now_ms,
            ),
        decreases n - next,
    {
        let idx: usize = endpoint_at(t, start, next);
        assert(idx == call::endpoint_of(seeker, start as int, next as int));
        if t.endpoint_accepts_request(idx, bytes) {
            let k: usize = t.endpoint_throttles[idx];
            let state = &registry.entries[k].state;
            assert(current[k as int].state.decay_defined()
                == registry.entries@[k as int].state.decay_defined());
            if !state.can_decay() {
                return None;
            }
            let delay = state.delay_at(now_ms);
            proof {
                lemma_decay_keeps_alike(registry.entries@, current, k as int, now_ms);
            }
            if duration::shorter(&delay, &t.config.heavy_throttle_threshold) {
                return Some(true);
            }
            proof {
                current = call::decayed_at(current, k as int, now_ms);
            }
        }
        next += 1;
    }
    Some(false)
}

/// Whether the next attempt can be looked for from `attempt` on. The search is that of `seeker`,
/// which may have another counter.
fn can_find_next(
    t: &LoadBalancedTransport,
    registry: &ThrottleRegistry,
    bytes: usize,
    start: usize,
    attempt: usize,
    now_ms: u64,
    Ghost(seeker): Ghost<LoadBalancedTransport>,
) -> (r: bool)
    requires
        t.well_formed(),
        t.registered_in(*registry),
        same_endpoints(*t, seeker),
        start < t.size(),
        attempt <= t.size(),
    ensures
        r == call::next_defined(
            seeker,
            bytes,
            start as int,
            attempt as int,
            registry.entries@,
            now_ms,
        ),
{
    let n: usize = t.urls.len();
    let ghost mut current = registry.entries@;
    let mut next: usize = attempt;
    while next < n
        invariant
            attempt <= next <= n,
            n == t.size(),
            t.well_formed(),
            t.registered_in(*registry),
            same_endpoints(*t, seeker),
            alike(registry.entries@, current, now_ms),
            start < n,
            call::next_defined(seeker, bytes, start as int, next as int, current, now_ms)
                == call::next_defined(
                seeker,
                bytes,
                start as int,
                attempt as int,
                registry.entries@,
                now_ms,
            ),
        decreases n - next,
    {
        let idx: usize = endpoint_at(t, start, next);
        assert(idx == call::endpoint_of(seeker, start as int, next as int));
        if t.endpoint_accepts_request(idx, bytes) {
            let k: usize = t.endpoint_throttles[idx];
            let state = &registry.entries[k].state;
            assert(current[k as int].state.decay_defined()
                == registry.entries@[k as int].state.decay_defined());
            if !state.can_decay() {
                return false;
            }
            let delay = state.delay_at(now_ms);
            proof {
                lemma_decay_keeps_alike(registry.entries@, current, k as int, now_ms);
                current = call::decayed_at(current, k as int, now_ms);
            }
            match can_find_alternative(
                t,
                registry,
                bytes,
                start,
                next + 1,
                now_ms,
                Ghost(seeker),
                Ghost(current),
            ) {
                Some(remains) => {
                    if duration::shorter(&delay, &t.config.heavy_throttle_threshold) || !remains {
                        return true;
                    }
                },
                None => {
                    return false;
                },
            }
            proof {
                let looked = call::alternative(
                    seeker,
                    bytes,
                    start as int,
                    next + 1,
                    current,
                    now_ms,
                ).1;
                lemma_skip_keeps_alike(registry.entries@, looked, k as int, now_ms);
                current = call::skipped_at(looked, k as int);
            }
        }
        next += 1;
    }
    true
}

/// Whether a round can begin at time `now_ms`.
fn can_begin_round(
    t: &LoadBalancedTransport,
    registry: &ThrottleRegistry,
    request_bytes: usize,
    now_ms: u64,
) -> (r: bool)
    requires
        t.well_formed(),
        t.registered_in(*registry),
    ensures
        r == call::round_defined(*t, request_bytes, registry.entries@, now_ms),
{
    let ghost seeker = LoadBalancedTransport { counter: throttle::counted(t.counter), ..*t };
    can_find_next(t, registry, request_bytes, t.next_endpoint(), 0, now_ms, Ghost(seeker))
}

/// Whether [`Call::begin`] can take a request of that many bytes at time `now_ms`.
pub fn can_begin(
    t: &LoadBalancedTransport,
    registry: &ThrottleRegistry,
    request_bytes: usize,
    now_ms: u64,
) -> (r: bool)
    requires
        t.well_formed(),
        t.registered_in(*registry),
    ensures
        r == (call::acceptable(*t, request_bytes) ==> call::round_defined(
            *t,
            request_bytes,
            registry.entries@,
            now_ms,
        )),
{
    !accepted_anywhere(t, request_bytes) || can_begin_round(t, registry, request_bytes, now_ms)
}

/// Whether [`Call::step`] can take the event at time `now_ms`.
pub fn can_step<R, E>(
    call: &Call<E>,
    t: &LoadBalancedTransport,
    registry: &ThrottleRegistry,
    event: &Event<R, E>,
    now_ms: u64,
) -> (r: bool)
    requires
        t.well_formed(),
        t.registered_in(*registry),
        call@.fits(*t),
        call::awaited(call.phase, *event),
    ensures
        r == call@.defined(*t, registry.entries@, *event, now_ms),
{
    let n: usize = t.urls.len();
    let rotates = match event {
        Event::Elapsed => match call.phase {
            Phase::BetweenRounds => {
                return can_begin_round(t, registry, call.request_bytes, now_ms);
            },
            Phase::Pausing => true,
            _ => false,
        },
        Event::Failed { error, .. } => error.is_retryable() && !error.is_rate_limit(),
        _ => false,
    };
    if !rotates {
        return true;
    }
    let attempt: usize = call.attempt + 1;
    can_find_next(t, registry, call.request_bytes, call.start_idx, attempt, now_ms, Ghost(*t))
}

} // verus!
