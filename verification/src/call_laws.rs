//! What holds of every call: which endpoints it tries, how long it pauses, and that it ends.
use crate::balancer::LoadBalancedTransport;
use crate::call;
use crate::call::{CallState, Directive, Event, Phase, Rejection};
use crate::duration;
use crate::registry::DomainEntry;
use crate::throttle_laws;
use vstd::prelude::*;

verus! {

/// Delay that the endpoint of an attempt asks for at time `now`.
pub open spec fn delay_at(
    t: LoadBalancedTransport,
    start: int,
    attempt: int,
    entries: Seq<DomainEntry>,
    now: u64,
) -> nat {
    entries[call::throttle_of(t, start, attempt)].state.decayed(now).delay_nanos()
}

/// The attempt's endpoint accepts the request and is not heavily throttled at time `now`.
pub open spec fn lightly_throttled_at(
    t: LoadBalancedTransport,
    bytes: usize,
    start: int,
    attempt: int,
    entries: Seq<DomainEntry>,
    now: u64,
) -> bool {
    &&& 0 <= attempt < t.size()
    &&& call::eligible(t, bytes, start, attempt)
    &&& call::lightly_throttled(t, delay_at(t, start, attempt, entries, now))
}

/// The attempt is passed over: its endpoint does not accept the request, or it is heavily
/// throttled while a later one is eligible and lightly throttled.
pub open spec fn passed_over(
    t: LoadBalancedTransport,
    bytes: usize,
    start: int,
    attempt: int,
    entries: Seq<DomainEntry>,
    now: u64,
) -> bool {
    ||| !call::eligible(t, bytes, start, attempt)
    ||| {
        &&& !call::lightly_throttled(t, delay_at(t, start, attempt, entries, now))
        &&& exists|later: int|
            attempt < later && #[trigger] lightly_throttled_at(t, bytes, start, later, entries, now)
    }
}

/// Every endpoint asks for the same delay at time `now` by either of the states.
spec fn same_delays(
    t: LoadBalancedTransport,
    a: Seq<DomainEntry>,
    b: Seq<DomainEntry>,
    now: u64,
) -> bool {
    &&& a.len() == b.len()
    &&& call::endpoints_decay(t, a)
    &&& call::endpoints_decay(t, b)
    &&& forall|i: int|
        0 <= i < t.endpoint_throttles@.len() ==> b[(
        #[trigger] t.endpoint_throttles@[i]) as int].state.decayed(now).delay_nanos()
            == a[t.endpoint_throttles@[i] as int].state.decayed(now).delay_nanos()
}

/// Bringing the state of an attempt's endpoint up to time `now` changes no delay at that time.
proof fn lemma_decay_keeps_delays(
    t: LoadBalancedTransport,
    a: Seq<DomainEntry>,
    b: Seq<DomainEntry>,
    start: int,
    attempt: int,
    now: u64,
)
    requires
        t.well_formed(),
        call::endpoints_stand(t, a.len()),
        same_delays(t, a, b, now),
    ensures
        ({
            let k = call::throttle_of(t, start, attempt);
            let c = call::decayed_at(b, k, now);
            &&& 0 <= k < b.len()
            &&& same_delays(t, a, c, now)
            &&& c[k].state.delay_nanos() == a[k].state.decayed(now).delay_nanos()
        }),
{
    let k = call::throttle_of(t, start, attempt);
    let c = call::decayed_at(b, k, now);
    let throttles = t.endpoint_throttles@;
    let idx = call::endpoint_of(t, start, attempt);
    vstd::arithmetic::div_mod::lemma_mod_bound(start + attempt, t.size() as int);
    assert(throttles[idx] == k);
    assert(b[throttles[idx] as int].state.decay_defined());
    throttle_laws::law_checking_again_changes_nothing(b[k].state, now);
    assert forall|i: int| 0 <= i < throttles.len() implies {
        let j = (#[trigger] throttles[i]) as int;
        &&& c[j].state.decay_defined()
        &&& c[j].state.decayed(now).delay_nanos() == a[j].state.decayed(now).delay_nanos()
    } by {
        assert(b[throttles[i] as int].state.decay_defined());
    }
}

/// Counting a skip changes no delay.
proof fn lemma_skip_keeps_delays(
    t: LoadBalancedTransport,
    a: Seq<DomainEntry>,
    b: Seq<DomainEntry>,
    k: int,
    now: u64,
)
    requires
        call::endpoints_stand(t, a.len()),
        same_delays(t, a, b, now),
        0 <= k < b.len(),
    ensures
        same_delays(t, a, call::skipped_at(b, k), now),
{
    let c = call::skipped_at(b, k);
    let throttles = t.endpoint_throttles@;
    assert forall|i: int| 0 <= i < throttles.len() implies {
        let j = (#[trigger] throttles[i]) as int;
        &&& c[j].state.decay_defined()
        &&& c[j].state.decayed(now).delay_nanos() == a[j].state.decayed(now).delay_nanos()
    } by {
        assert(b[throttles[i] as int].state.decay_defined());
    }
}

/// The search for an alternative finds one exactly if there is one.
proof fn lemma_alternative(
    t: LoadBalancedTransport,
    bytes: usize,
    start: int,
    attempt: int,
    first: Seq<DomainEntry>,
    entries: Seq<DomainEntry>,
    now: u64,
)
    requires
        t.well_formed(),
        call::endpoints_stand(t, first.len()),
        0 <= attempt,
        same_delays(t, first, entries, now),
    ensures
        call::alternative(t, bytes, start, attempt, entries, now).0 <==> exists|later: int|
            attempt <= later && #[trigger] lightly_throttled_at(t, bytes, start, later, first, now),
        same_delays(t, first, call::alternative(t, bytes, start, attempt, entries, now).1, now),
    decreases t.size() - attempt,
{
    if attempt < t.size() {
        let k = call::throttle_of(t, start, attempt);
        if !call::eligible(t, bytes, start, attempt) {
            assert(!lightly_throttled_at(t, bytes, start, attempt, first, now));
            lemma_alternative(t, bytes, start, attempt + 1, first, entries, now);
        } else {
            lemma_decay_keeps_delays(t, first, entries, start, attempt, now);
            let current = call::decayed_at(entries, k, now);
            if call::lightly_throttled(t, current[k].state.delay_nanos()) {
                assert(lightly_throttled_at(t, bytes, start, attempt, first, now));
            } else {
                assert(!lightly_throttled_at(t, bytes, start, attempt, first, now));
                lemma_alternative(t, bytes, start, attempt + 1, first, current, now);
            }
        }
    }
}

/// The choice of the next attempt, against states with the same delays.
proof fn lemma_choice(
    t: LoadBalancedTransport,
    bytes: usize,
    start: int,
    attempt: int,
    first: Seq<DomainEntry>,
    entries: Seq<DomainEntry>,
    now: u64,
)
    requires
        t.well_formed(),
        call::endpoints_stand(t, first.len()),
        0 <= attempt,
        same_delays(t, first, entries, now),
    ensures
        match call::next_try(t, bytes, start, attempt, entries, now).0 {
            Some((chosen, delay)) => {
                &&& attempt <= chosen < t.size()
                &&& !passed_over(t, bytes, start, chosen, first, now)
                &&& delay == delay_at(t, start, chosen, first, now)
                &&& forall|b: int|
                    attempt <= b < chosen ==> #[trigger] passed_over(
                        t,
                        bytes,
                        start,
                        b,
                        first,
                        now,
                    )
            },
            None => forall|b: int|
                attempt <= b < t.size() ==> !#[trigger] call::eligible(t, bytes, start, b),
        },
    decreases t.size() - attempt,
{
    if attempt < t.size() {
        if !call::eligible(t, bytes, start, attempt) {
            assert(passed_over(t, bytes, start, attempt, first, now));
            lemma_choice(t, bytes, start, attempt + 1, first, entries, now);
        } else {
            let k = call::throttle_of(t, start, attempt);
            lemma_decay_keeps_delays(t, first, entries, start, attempt, now);
            let current = call::decayed_at(entries, k, now);
            lemma_alternative(t, bytes, start, attempt + 1, first, current, now);
            let (remains, looked) = call::alternative(t, bytes, start, attempt + 1, current, now);
            if remains {
                let later = choose|later: int|
                    attempt + 1 <= later && #[trigger] lightly_throttled_at(
                        t,
                        bytes,
                        start,
                        later,
                        first,
                        now,
                    );
                assert(call::eligible(t, bytes, start, later));
            }
            if !call::lightly_throttled(t, current[k].state.delay_nanos()) && remains {
                assert(passed_over(t, bytes, start, attempt, first, now));
                lemma_skip_keeps_delays(t, first, looked, k, now);
                lemma_choice(
                    t,
                    bytes,
                    start,
                    attempt + 1,
                    first,
                    call::skipped_at(looked, k),
                    now,
                );
            } else if passed_over(t, bytes, start, attempt, first, now) {
                let later = choose|later: int|
                    attempt < later && #[trigger] lightly_throttled_at(
                        t,
                        bytes,
                        start,
                        later,
                        first,
                        now,
                    );
                assert(attempt + 1 <= later);
            }
        }
    }
}

/// Endpoints are tried in rotation. One is passed over only if it does not accept the request, or
/// if it is heavily throttled and a later one is eligible and not heavily throttled; the first
/// that is not passed over is tried next, after the delay that its domain asks for. None is left
/// only if no remaining endpoint accepts the request.
pub proof fn law_first_attempt_not_passed_over(
    t: LoadBalancedTransport,
    bytes: usize,
    start: int,
    attempt: int,
    entries: Seq<DomainEntry>,
    now: u64,
)
    requires
        t.well_formed(),
        call::endpoints_stand(t, entries.len()),
        0 <= attempt,
        call::endpoints_decay(t, entries),
    ensures
        match call::next_try(t, bytes, start, attempt, entries, now).0 {
            Some((chosen, delay)) => {
                &&& attempt <= chosen < t.size()
                &&& !passed_over(t, bytes, start, chosen, entries, now)
                &&& delay == delay_at(t, start, chosen, entries, now)
                &&& forall|b: int|
                    attempt <= b < chosen ==> #[trigger] passed_over(
                        t,
                        bytes,
                        start,
                        b,
                        entries,
                        now,
                    )
            },
            None => forall|b: int|
                attempt <= b < t.size() ==> !#[trigger] call::eligible(t, bytes, start, b),
        },
{
    lemma_choice(t, bytes, start, attempt, entries, entries, now);
}

/// Throttling never leaves a request unserved: while an endpoint that accepts the request remains
/// in the round, one is tried, be all of them heavily throttled.
pub proof fn law_throttling_never_starves(
    t: LoadBalancedTransport,
    bytes: usize,
    start: int,
    attempt: int,
    entries: Seq<DomainEntry>,
    now: u64,
    remaining: int,
)
    requires
        t.well_formed(),
        call::endpoints_stand(t, entries.len()),
        call::endpoints_decay(t, entries),
        0 <= attempt <= remaining < t.size(),
        call::eligible(t, bytes, start, remaining),
    ensures
        call::next_try(t, bytes, start, attempt, entries, now).0 matches Some((chosen, _))
            && call::eligible(t, bytes, start, chosen),
{
    lemma_choice(t, bytes, start, attempt, entries, entries, now);
}

/// The pause before round `round + 1`.
pub open spec fn pause(initial: nat, max: nat, round: nat) -> nat
    decreases round,
{
    if round == 0 {
        call::smaller(initial, max)
    } else {
        call::next_backoff(pause(initial, max, (round - 1) as nat), max)
    }
}

/// Pauses begin with the initial backoff and double from round to round, and none is ever longer
/// than the maximum.
pub proof fn law_pauses_double_up_to_maximum(initial: nat, max: nat, round: nat)
    ensures
        pause(initial, max, round) == call::smaller(
            initial * vstd::arithmetic::power2::pow2(round),
            max,
        ),
        pause(initial, max, round) <= max,
        pause(initial, max, round) <= pause(initial, max, round + 1),
    decreases round,
{
    vstd::arithmetic::power2::lemma2_to64();
    assert(initial * 1 == initial) by (nonlinear_arith);
    if round > 0 {
        let before = (round - 1) as nat;
        law_pauses_double_up_to_maximum(initial, max, before);
        vstd::arithmetic::power2::lemma_pow2_unfold(round);
        let power = vstd::arithmetic::power2::pow2(before);
        assert(initial * (2 * power) == 2 * (initial * power)) by (nonlinear_arith);
    }
}

/// The call's pause is the one due after its round.
pub open spec fn paced<E>(call: CallState<E>, t: LoadBalancedTransport) -> bool {
    &&& 0 <= call.round
    &&& call.backoff == pause(
        duration::nanos(t.config.initial_backoff),
        duration::nanos(t.config.max_backoff),
        call.round as nat,
    )
}

/// Between two rounds a call waits for the pause due after the earlier one.
pub proof fn law_rounds_are_paced<R, E>(
    call: CallState<E>,
    t: LoadBalancedTransport,
    entries: Seq<DomainEntry>,
    bytes: usize,
    event: Event<R, E>,
    now: u64,
)
    requires
        call.fits(t),
        paced(call, t),
        call::awaited(call.phase, event),
    ensures
        paced(call::begun::<R, E>(t, entries, bytes, now).call, t),
        ({
            let outcome = call.after(t, entries, event, now);
            &&& paced(outcome.call, t)
            &&& outcome.call.phase == Phase::BetweenRounds ==> {
                &&& outcome.call.round == call.round + 1
                &&& outcome.directive == Directive::<R, E>::Sleep(
                    pause(
                        duration::nanos(t.config.initial_backoff),
                        duration::nanos(t.config.max_backoff),
                        call.round as nat,
                    ),
                )
            }
            &&& outcome.call.phase != Phase::BetweenRounds ==> outcome.call.round == call.round
        }),
{
    reveal_with_fuel(pause, 2);
}

/// The actions of a call say what it waits for, and the call is over exactly when it returns,
/// fails or rejects.
pub open spec fn agrees<R, E>(phase: Phase, directive: Directive<R, E>) -> bool {
    match directive {
        Directive::Sleep(_) => phase == Phase::BetweenRounds || phase == Phase::Delaying || phase
            == Phase::Pausing,
        Directive::Acquire(_) => phase == Phase::Acquiring,
        Directive::Send(_) => phase == Phase::InFlight,
        Directive::Return(_) => phase == Phase::Finished,
        Directive::Fail(_) => phase == Phase::Finished,
        Directive::Reject(_) => phase == Phase::Finished,
    }
}

/// After every step the call waits for what its action brings about. Permits and requests concern
/// the current endpoint, and a permit is asked for before each request to an endpoint that bounds
/// its requests.
pub proof fn law_actions_agree_with_phases<R, E>(
    call: CallState<E>,
    t: LoadBalancedTransport,
    entries: Seq<DomainEntry>,
    bytes: usize,
    event: Event<R, E>,
    now: u64,
)
    requires
        call.fits(t),
        call::awaited(call.phase, event),
    ensures
        ({
            let outcome = call::begun::<R, E>(t, entries, bytes, now);
            agrees(outcome.call.phase, outcome.directive)
        }),
        ({
            let outcome = call.after(t, entries, event, now);
            &&& agrees(outcome.call.phase, outcome.directive)
            &&& outcome.directive matches Directive::Acquire(idx) ==> {
                &&& idx == outcome.call.endpoint(t)
                &&& t.endpoint_in_flight@[idx] is Some
            }
            &&& outcome.directive matches Directive::Send(idx) ==> {
                &&& idx == outcome.call.endpoint(t)
                &&& t.endpoint_in_flight@[idx] is None || event is PermitGranted
            }
        }),
{
}

/// How many requests a call can still send.
pub open spec fn sends_left<E>(call: CallState<E>, t: LoadBalancedTransport) -> int {
    let n = t.size() as int;
    let later = (t.config.max_retry_rounds - call.round) * n;
    match call.phase {
        Phase::BetweenRounds => later + n,
        Phase::Delaying => later + n - call.attempt,
        Phase::Acquiring => later + n - call.attempt,
        Phase::InFlight => later + n - call.attempt - 1,
        Phase::Pausing => later + n - call.attempt - 1,
        Phase::Finished => 0,
    }
}

/// 1 for an action that sends the request, 0 for any other.
pub open spec fn sent<R, E>(directive: Directive<R, E>) -> int {
    if directive is Send {
        1
    } else {
        0
    }
}

/// A found attempt lies in the round, and its endpoint accepts the request.
proof fn lemma_found_in_round(
    t: LoadBalancedTransport,
    bytes: usize,
    start: int,
    attempt: int,
    entries: Seq<DomainEntry>,
    now: u64,
)
    ensures
        call::next_try(t, bytes, start, attempt, entries, now).0 matches Some((a, _)) ==> {
            &&& attempt <= a < t.size()
            &&& call::eligible(t, bytes, start, a)
        },
    decreases t.size() - attempt,
{
    if attempt < t.size() {
        if !call::eligible(t, bytes, start, attempt) {
            lemma_found_in_round(t, bytes, start, attempt + 1, entries, now);
        } else {
            let k = call::throttle_of(t, start, attempt);
            let current = call::decayed_at(entries, k, now);
            let looked = call::alternative(t, bytes, start, attempt + 1, current, now).1;
            lemma_found_in_round(
                t,
                bytes,
                start,
                attempt + 1,
                call::skipped_at(looked, k),
                now,
            );
        }
    }
}

/// A call sends its request at most once to each endpoint in each round, and there is one round
/// more than the configured retry rounds.
pub proof fn law_sends_are_bounded<R, E>(
    call: CallState<E>,
    t: LoadBalancedTransport,
    entries: Seq<DomainEntry>,
    bytes: usize,
    event: Event<R, E>,
    now: u64,
)
    requires
        t.well_formed(),
        call.fits(t),
        call::awaited(call.phase, event),
    ensures
        ({
            let outcome = call::begun::<R, E>(t, entries, bytes, now);
            &&& 0 <= sends_left(outcome.call, t)
            &&& sends_left(outcome.call, t) + sent(outcome.directive) <= (1
                + t.config.max_retry_rounds) * t.size()
        }),
        ({
            let outcome = call.after(t, entries, event, now);
            &&& 0 <= sends_left(outcome.call, t)
            &&& sends_left(outcome.call, t) + sent(outcome.directive) <= sends_left(call, t)
        }),
{
    let n = t.size() as int;
    let max = t.config.max_retry_rounds as int;
    let fresh = CallState::<E> {
        request_bytes: bytes,
        round: 0,
        backoff: call::smaller(
            duration::nanos(t.config.initial_backoff),
            duration::nanos(t.config.max_backoff),
        ),
        start_idx: t.selected(t.counter as int),
        attempt: 0,
        phase: Phase::BetweenRounds,
        last_err: None,
    };
    let renewed = CallState::<E> {
        start_idx: t.selected(t.counter as int),
        last_err: None,
        ..call
    };
    let next = LoadBalancedTransport {
        counter: crate::throttle::counted(t.counter),
        ..t
    };
    assert((1 + max) * n == max * n + n) by (nonlinear_arith);
    assert(max * n >= 0) by (nonlinear_arith)
        requires
            max >= 0,
            n >= 0,
    ;
    lemma_rotation_bounds::<R, E>(fresh, next, 0, entries, now);
    lemma_rotation_bounds::<R, E>(renewed, next, 0, entries, now);
    assert((max - call.round) * n >= 0) by (nonlinear_arith)
        requires
            max >= call.round,
            n >= 0,
    ;
    match event {
        Event::Failed { error, carried } => {
            let k = call.throttle(t);
            let failed = CallState { last_err: Some(carried), ..call };
            let limited = entries.update(
                k,
                DomainEntry { state: entries[k].state.rate_limited(now), ..entries[k] },
            );
            lemma_rotation_bounds::<R, E>(failed, t, call.attempt + 1, entries, now);
            lemma_rotation_bounds::<R, E>(failed, t, call.attempt + 1, limited, now);
        },
        Event::Elapsed => {
            if call.phase == Phase::Pausing {
                lemma_rotation_bounds::<R, E>(call, t, call.attempt + 1, entries, now);
            }
        },
        _ => {},
    }
}

/// Going on with a round at some attempt leaves at most the attempts from there on, and the later
/// rounds.
proof fn lemma_rotation_bounds<R, E>(
    call: CallState<E>,
    t: LoadBalancedTransport,
    attempt: int,
    entries: Seq<DomainEntry>,
    now: u64,
)
    requires
        0 <= call.round <= t.config.max_retry_rounds,
        0 <= attempt <= t.size(),
    ensures
        ({
            let outcome = call.rotated::<R>(t, attempt, entries, now);
            &&& 0 <= sends_left(outcome.call, t)
            &&& sends_left(outcome.call, t) + sent(outcome.directive) <= (
            t.config.max_retry_rounds - call.round) * t.size() + t.size() - attempt
        }),
{
    lemma_found_in_round(t, call.request_bytes, call.start_idx, attempt, entries, now);
    let n = t.size() as int;
    let rounds = t.config.max_retry_rounds - call.round;
    assert(rounds * n >= 0) by (nonlinear_arith)
        requires
            rounds >= 0,
            n >= 0,
    ;
    assert((rounds - 1) * n + n == rounds * n) by (nonlinear_arith);
    if rounds > 0 {
        assert((rounds - 1) * n >= 0) by (nonlinear_arith)
            requires
                rounds > 0,
                n >= 0,
        ;
    }
}

/// How many events a call can still take.
pub open spec fn events_left<E>(call: CallState<E>, t: LoadBalancedTransport) -> int {
    let n = t.size() as int;
    let later = (t.config.max_retry_rounds - call.round) * (4 * n + 1);
    match call.phase {
        Phase::BetweenRounds => later + 4 * n + 1,
        Phase::Delaying => later + 4 * (n - call.attempt),
        Phase::Acquiring => later + 4 * (n - call.attempt) - 1,
        Phase::InFlight => later + 4 * (n - call.attempt) - 2,
        Phase::Pausing => later + 4 * (n - call.attempt) - 3,
        Phase::Finished => 0,
    }
}

/// Every call ends: each event leaves fewer that can follow, and in all there are at most four
/// for each endpoint and one for the pause in each round.
pub proof fn law_every_call_ends<R, E>(
    call: CallState<E>,
    t: LoadBalancedTransport,
    entries: Seq<DomainEntry>,
    bytes: usize,
    event: Event<R, E>,
    now: u64,
)
    requires
        t.well_formed(),
        call.fits(t),
        call::awaited(call.phase, event),
    ensures
        ({
            let first = call::begun::<R, E>(t, entries, bytes, now).call;
            0 <= events_left(first, t) <= (1 + t.config.max_retry_rounds) * (4 * t.size() + 1)
        }),
        ({
            let after = call.after(t, entries, event, now).call;
            0 <= events_left(after, t) < events_left(call, t)
        }),
{
    let n = t.size() as int;
    let max = t.config.max_retry_rounds as int;
    let fresh = CallState::<E> {
        request_bytes: bytes,
        round: 0,
        backoff: call::smaller(
            duration::nanos(t.config.initial_backoff),
            duration::nanos(t.config.max_backoff),
        ),
        start_idx: t.selected(t.counter as int),
        attempt: 0,
        phase: Phase::BetweenRounds,
        last_err: None,
    };
    let renewed = CallState::<E> {
        start_idx: t.selected(t.counter as int),
        last_err: None,
        ..call
    };
    let next = LoadBalancedTransport {
        counter: crate::throttle::counted(t.counter),
        ..t
    };
    assert((1 + max) * (4 * n + 1) == max * (4 * n + 1) + 4 * n + 1) by (nonlinear_arith);
    assert(max * (4 * n + 1) >= 0) by (nonlinear_arith)
        requires
            max >= 0,
            n >= 0,
    ;
    lemma_rotation_ends::<R, E>(fresh, next, 0, entries, now);
    lemma_rotation_ends::<R, E>(renewed, next, 0, entries, now);
    assert((max - call.round) * (4 * n + 1) >= 0) by (nonlinear_arith)
        requires
            max >= call.round,
            n >= 0,
    ;
    match event {
        Event::Failed { error, carried } => {
            let k = call.throttle(t);
            let failed = CallState { last_err: Some(carried), ..call };
            let limited = entries.update(
                k,
                DomainEntry { state: entries[k].state.rate_limited(now), ..entries[k] },
            );
            lemma_rotation_ends::<R, E>(failed, t, call.attempt + 1, entries, now);
            lemma_rotation_ends::<R, E>(failed, t, call.attempt + 1, limited, now);
        },
        Event::Elapsed => {
            if call.phase == Phase::Pausing {
                lemma_rotation_ends::<R, E>(call, t, call.attempt + 1, entries, now);
            }
        },
        _ => {},
    }
}

/// Going on with a round at some attempt leaves at most the events of the attempts from there on,
/// and those of the later rounds.
proof fn lemma_rotation_ends<R, E>(
    call: CallState<E>,
    t: LoadBalancedTransport,
    attempt: int,
    entries: Seq<DomainEntry>,
    now: u64,
)
    requires
        0 <= call.round <= t.config.max_retry_rounds,
        0 <= attempt <= t.size(),
    ensures
        0 <= events_left(call.rotated::<R>(t, attempt, entries, now).call, t) <= (
        t.config.max_retry_rounds - call.round) * (4 * t.size() + 1) + 4 * (t.size() - attempt),
{
    lemma_found_in_round(t, call.request_bytes, call.start_idx, attempt, entries, now);
    let round_events = 4 * t.size() + 1;
    let rounds = t.config.max_retry_rounds - call.round;
    assert(rounds * round_events >= 0) by (nonlinear_arith)
        requires
            rounds >= 0,
            round_events >= 0,
    ;
    assert((rounds - 1) * round_events + round_events == rounds * round_events)
        by (nonlinear_arith);
    if rounds > 0 {
        assert((rounds - 1) * round_events >= 0) by (nonlinear_arith)
            requires
                rounds > 0,
                round_events >= 0,
        ;
    }
}

/// An error that does not warrant failover is returned at once, and leaves every domain as it is.
/// A retryable one ends the call only in the last round, when no endpoint after the current one
/// accepts the request.
pub proof fn law_only_final_errors_are_returned<R, E>(
    call: CallState<E>,
    t: LoadBalancedTransport,
    entries: Seq<DomainEntry>,
    event: Event<R, E>,
    now: u64,
)
    requires
        t.well_formed(),
        call.fits(t),
        call::awaited(call.phase, event),
        event is Failed,
    ensures
        ({
            let outcome = call.after(t, entries, event, now);
            let error = event->error;
            let returned = Directive::<R, E>::Fail(event->carried);
            &&& !error.retryable() ==> outcome.directive == returned && outcome.entries == entries
            &&& error.retryable() && outcome.call.phase == Phase::Finished ==> {
                &&& outcome.directive == returned
                &&& call.round == t.config.max_retry_rounds
                &&& forall|a: int|
                    call.attempt < a < t.size() ==> !#[trigger] call::eligible(
                        t,
                        call.request_bytes,
                        call.start_idx,
                        a,
                    )
            }
        }),
{
    assert forall|a: int|
        call.attempt < a < t.size() && #[trigger] call::eligible(
            t,
            call.request_bytes,
            call.start_idx,
            a,
        ) implies call::next_try(
        t,
        call.request_bytes,
        call.start_idx,
        call.attempt + 1,
        entries,
        now,
    ).0 is Some by {
        call::lemma_eligible_is_tried(
            t,
            call.request_bytes,
            call.start_idx,
            call.attempt + 1,
            entries,
            now,
            a,
        );
    }
}

/// A 429 makes the whole domain back off: every endpoint that shares the throttle state of the
/// endpoint that was limited goes one level up, at most to the maximum, and no other domain
/// changes.
pub proof fn law_rate_limit_backs_off_domain<R, E>(
    call: CallState<E>,
    t: LoadBalancedTransport,
    entries: Seq<DomainEntry>,
    event: Event<R, E>,
    now: u64,
    other: int,
)
    requires
        t.well_formed(),
        call::endpoints_stand(t, entries.len()),
        call.fits(t),
        call::awaited(call.phase, event),
        event is Failed,
        event->error.rate_limit(),
        0 <= other < t.size(),
    ensures
        ({
            let after = call.after(t, entries, event, now).entries;
            let k = t.endpoint_throttles@[other] as int;
            if k == call.throttle(t) {
                after[k].state == entries[k].state.rate_limited(now)
            } else {
                after[k] == entries[k]
            }
        }),
{
    crate::error::law_rate_limits_are_retryable(event->error);
    vstd::arithmetic::div_mod::lemma_mod_bound(call.start_idx + call.attempt, t.size() as int);
    assert(t.endpoint_throttles@[call.endpoint(t)] < entries.len());
    assert(t.endpoint_throttles@[other] < entries.len());
}

/// The action approaches no endpoint but one that accepts the request.
pub open spec fn approaches_accepting<R, E>(
    t: LoadBalancedTransport,
    bytes: usize,
    directive: Directive<R, E>,
) -> bool {
    match directive {
        Directive::Acquire(idx) => t.accepts(idx, bytes),
        Directive::Send(idx) => t.accepts(idx, bytes),
        _ => true,
    }
}

/// A request goes only to endpoints that accept its size. It is rejected without an attempt
/// exactly if there is none.
pub proof fn law_request_sizes_are_respected<R, E>(
    call: CallState<E>,
    t: LoadBalancedTransport,
    entries: Seq<DomainEntry>,
    bytes: usize,
    event: Event<R, E>,
    now: u64,
)
    requires
        t.well_formed(),
        call.fits(t),
        call::awaited(call.phase, event),
    ensures
        ({
            let outcome = call::begun::<R, E>(t, entries, bytes, now);
            &&& approaches_accepting(t, bytes, outcome.directive)
            &&& outcome.directive == Directive::<R, E>::Reject(Rejection::TooLarge)
                <==> !call::acceptable(t, bytes)
        }),
        approaches_accepting(
            t,
            call.request_bytes,
            call.after(t, entries, event, now).directive,
        ),
{
    let next = LoadBalancedTransport {
        counter: crate::throttle::counted(t.counter),
        ..t
    };
    let start = t.selected(t.counter as int);
    lemma_found_in_round(next, bytes, start, 0, entries, now);
    lemma_found_in_round(next, call.request_bytes, start, 0, entries, now);
    let k = call.throttle(t);
    let limited = entries.update(
        k,
        DomainEntry { state: entries[k].state.rate_limited(now), ..entries[k] },
    );
    lemma_found_in_round(
        t,
        call.request_bytes,
        call.start_idx,
        call.attempt + 1,
        entries,
        now,
    );
    lemma_found_in_round(
        t,
        call.request_bytes,
        call.start_idx,
        call.attempt + 1,
        limited,
        now,
    );
}

} // verus!
