//! What each step of a call does, in terms of what is sent where and what is recorded of whom.
use crate::balancer::{BalancerConfig, LoadBalancedTransport};
use crate::call;
use crate::call::{Action, Call, CallState, Directive, Event, Outcome, Phase, Rejection};
use crate::duration;
use crate::endpoint::EndpointConfig;
use crate::lookahead;
use crate::registry::DomainEntry;
use crate::throttle::DomainThrottleState;
use vstd::prelude::*;

verus! {

/// A round goes through all endpoints in order, from the one it starts with: the first attempt is
/// for that one, each further one for the next, and after the last endpoint comes the first. No
/// endpoint has two attempts.
pub proof fn law_rounds_rotate_from_their_start(
    t: LoadBalancedTransport,
    start: int,
    attempt: int,
    other: int,
)
    requires
        0 <= start < t.urls@.len(),
        0 <= attempt < t.urls@.len(),
        0 <= other < t.urls@.len(),
    ensures
        call::endpoint_of(t, start, 0) == start,
        0 <= call::endpoint_of(t, start, attempt) < t.urls@.len(),
        attempt > 0 && call::endpoint_of(t, start, attempt - 1) < t.urls@.len() - 1
            ==> call::endpoint_of(t, start, attempt) == call::endpoint_of(t, start, attempt - 1)
            + 1,
        attempt > 0 && call::endpoint_of(t, start, attempt - 1) == t.urls@.len() - 1
            ==> call::endpoint_of(t, start, attempt) == 0,
        attempt != other ==> call::endpoint_of(t, start, attempt) != call::endpoint_of(
            t,
            start,
            other,
        ),
{
    lemma_endpoint(t, start, 0);
    lemma_endpoint(t, start, attempt);
    lemma_endpoint(t, start, other);
    if attempt > 0 {
        lemma_endpoint(t, start, attempt - 1);
    }
}

/// The endpoint of an attempt, without a remainder.
proof fn lemma_endpoint(t: LoadBalancedTransport, start: int, attempt: int)
    requires
        0 <= start < t.urls@.len(),
        0 <= attempt < t.urls@.len(),
    ensures
        call::endpoint_of(t, start, attempt) == if start + attempt < t.urls@.len() {
            start + attempt
        } else {
            start + attempt - t.urls@.len()
        },
{
    let n = t.urls@.len() as int;
    if start + attempt < n {
        vstd::arithmetic::div_mod::lemma_small_mod((start + attempt) as nat, n as nat);
    } else {
        vstd::arithmetic::div_mod::lemma_small_mod((start + attempt - n) as nat, n as nat);
        vstd::arithmetic::div_mod::lemma_mod_add_multiples_vanish(start + attempt - n, n);
    }
}

/// The endpoint takes a request of that many bytes.
pub open spec fn takes(t: LoadBalancedTransport, idx: int, bytes: usize) -> bool {
    t.endpoint_request_caps@[idx] is None || bytes <= t.endpoint_request_caps@[idx]->0
}

/// An attempt goes by its endpoint: by its throttle state and by its limit. A request is
/// acceptable if one endpoint takes it. A delay is light if it is below the threshold.
pub proof fn law_attempts_go_by_their_endpoint(
    t: LoadBalancedTransport,
    bytes: usize,
    start: int,
    attempt: int,
    delay: nat,
)
    ensures
        call::throttle_of(t, start, attempt) == t.endpoint_throttles@[call::endpoint_of(
            t,
            start,
            attempt,
        )],
        call::eligible(t, bytes, start, attempt) <==> takes(
            t,
            call::endpoint_of(t, start, attempt),
            bytes,
        ),
        call::acceptable(t, bytes) <==> exists|i: int|
            0 <= i < t.urls@.len() && #[trigger] takes(t, i, bytes),
        call::lightly_throttled(t, delay) <==> delay < duration::nanos(
            t.config.heavy_throttle_threshold,
        ),
{
    assert forall|i: int| #[trigger] takes(t, i, bytes) <==> t.accepts(i, bytes) by {}
    if call::acceptable(t, bytes) {
        let i = choose|i: int| 0 <= i < t.size() && #[trigger] t.accepts(i, bytes);
        assert(takes(t, i, bytes));
    }
    if exists|i: int| 0 <= i < t.urls@.len() && #[trigger] takes(t, i, bytes) {
        let i = choose|i: int| 0 <= i < t.urls@.len() && #[trigger] takes(t, i, bytes);
        assert(t.accepts(i, bytes));
    }
}

/// The smaller of two numbers is one of them and not above either. A pause is followed by one
/// twice as long, or by the maximum if that is shorter.
pub proof fn law_pauses_are_bounded(a: nat, b: nat)
    ensures
        call::smaller(a, b) <= a,
        call::smaller(a, b) <= b,
        call::smaller(a, b) == a || call::smaller(a, b) == b,
        call::next_backoff(a, b) <= b,
        call::next_backoff(a, b) <= a + a,
        call::next_backoff(a, b) == a + a || call::next_backoff(a, b) == b,
{
}

/// Which events a call waits for: the end of a sleep, a permit or its refusal, and a response or
/// a failure, each in the phases that bring it about.
pub proof fn law_phases_await_their_events<R, E>(phase: Phase, response: R, failed: Event<R, E>)
    requires
        failed is Failed,
    ensures
        call::awaited(phase, Event::<R, E>::Elapsed) <==> phase is BetweenRounds || phase is Delaying
            || phase is Pausing,
        call::awaited(phase, Event::<R, E>::PermitGranted) <==> phase is Acquiring,
        call::awaited(phase, Event::<R, E>::PermitClosed) <==> phase is Acquiring,
        call::awaited(phase, Event::<R, E>::Responded(response)) <==> phase is InFlight,
        call::awaited(phase, failed) <==> phase is InFlight,
{
}

/// A call fits its transport exactly if it is not over, its round and its starting endpoint
/// exist, some endpoint takes the request, and, unless it is between rounds, its attempt exists
/// and its endpoint takes the request; during the pause after a 429 it has an error to return.
pub proof fn law_calls_that_fit<E>(call: CallState<E>, t: LoadBalancedTransport)
    ensures
        call.fits(t) <==> {
            &&& !(call.phase is Finished)
            &&& 0 <= call.round <= t.config.max_retry_rounds
            &&& 0 <= call.start_idx < t.urls@.len()
            &&& exists|i: int|
                0 <= i < t.urls@.len() && #[trigger] takes(t, i, call.request_bytes)
            &&& !(call.phase is BetweenRounds) ==> {
                &&& 0 <= call.attempt < t.urls@.len()
                &&& takes(
                    t,
                    call::endpoint_of(t, call.start_idx, call.attempt),
                    call.request_bytes,
                )
            }
            &&& call.phase is Pausing ==> call.last_err is Some
        },
{
    law_attempts_go_by_their_endpoint(t, call.request_bytes, call.start_idx, call.attempt, 0);
}

/// The state of a call is what its fields hold, and an action says what it names.
pub proof fn law_views_keep_everything<R, E>(call: Call<E>, action: Action<R, E>)
    ensures
        call@.request_bytes == call.request_bytes,
        call@.round == call.round,
        call@.backoff == duration::nanos(call.backoff),
        call@.start_idx == call.start_idx,
        call@.attempt == call.attempt,
        call@.phase == call.phase,
        call@.last_err == call.last_err,
        action matches Action::Sleep(d) ==> action@ == Directive::<R, E>::Sleep(
            duration::nanos(d),
        ),
        action matches Action::Acquire(i) ==> action@ == Directive::<R, E>::Acquire(i as int),
        action matches Action::Send(i) ==> action@ == Directive::<R, E>::Send(i as int),
        action matches Action::Return(r) ==> action@ == Directive::<R, E>::Return(r),
        action matches Action::Fail(e) ==> action@ == Directive::<R, E>::Fail(e),
        action matches Action::Reject(why) ==> action@ == Directive::<R, E>::Reject(why),
{
}

/// How many attempts from `from` up to `to` are for endpoints that take the request and whose
/// throttle state stands at `k`.
pub open spec fn passes(
    t: LoadBalancedTransport,
    bytes: usize,
    start: int,
    from: int,
    to: int,
    k: int,
) -> nat
    decreases to - from,
{
    if from >= to {
        0
    } else {
        let idx = call::endpoint_of(t, start, from);
        let one: nat = if takes(t, idx, bytes) && t.endpoint_throttles@[idx] == k {
            1
        } else {
            0
        };
        one + passes(t, bytes, start, from + 1, to, k)
    }
}

/// The entry is as it was, but may have been brought up to time `now`, and may count more skips.
pub open spec fn same_but_for_decay(before: DomainEntry, after: DomainEntry, now: u64) -> bool {
    &&& after.domain == before.domain
    &&& after.state.config == before.state.config
    &&& after.state.last_rate_limit_at == before.state.last_rate_limit_at
    &&& after.state.consecutive_successes == before.state.consecutive_successes
    &&& after.state.total_rate_limits == before.state.total_rate_limits
    &&& after.state.total_successes == before.state.total_successes
    &&& {
        ||| {
            &&& after.state.backoff_level == before.state.backoff_level
            &&& after.state.decayed_intervals == before.state.decayed_intervals
        }
        ||| {
            &&& after.state.backoff_level == before.state.decayed(now).backoff_level
            &&& after.state.decayed_intervals == before.state.decayed(now).decayed_intervals
        }
    }
}

/// Every state is as it was but for decay, and counts as many skips more as given.
spec fn searched(
    before: Seq<DomainEntry>,
    after: Seq<DomainEntry>,
    now: u64,
    skips: spec_fn(int) -> nat,
) -> bool {
    &&& after.len() == before.len()
    &&& forall|k: int|
        #![trigger after[k]]
        0 <= k < before.len() ==> {
            &&& same_but_for_decay(before[k], after[k], now)
            &&& before[k].state.decay_defined() ==> after[k].state.decay_defined()
            &&& after[k].state.total_skips == (before[k].state.total_skips + skips(k))
                % 0x1_0000_0000_0000_0000
        }
}

/// Bringing up a state that may have been brought up already.
proof fn lemma_decay_in_search(
    first: Seq<DomainEntry>,
    current: Seq<DomainEntry>,
    k: int,
    now: u64,
    skips: spec_fn(int) -> nat,
)
    requires
        searched(first, current, now, skips),
        0 <= k < first.len(),
        first[k].state.decay_defined(),
    ensures
        searched(first, call::decayed_at(current, k, now), now, skips),
        call::decayed_at(current, k, now)[k].state.backoff_level == first[k].state.decayed(
            now,
        ).backoff_level,
{
    let after = call::decayed_at(current, k, now);
    assert(same_but_for_decay(first[k], current[k], now));
    crate::throttle_laws::law_checking_again_changes_nothing(first[k].state, now);
    assert forall|j: int| #![trigger after[j]] 0 <= j < first.len() implies {
        &&& same_but_for_decay(first[j], after[j], now)
        &&& first[j].state.decay_defined() ==> after[j].state.decay_defined()
        &&& after[j].state.total_skips == (first[j].state.total_skips + skips(j))
            % 0x1_0000_0000_0000_0000
    } by {
        assert(same_but_for_decay(first[j], current[j], now));
    }
}

/// The search for an alternative counts no skip.
proof fn lemma_alternative_in_search(
    t: LoadBalancedTransport,
    bytes: usize,
    start: int,
    attempt: int,
    first: Seq<DomainEntry>,
    current: Seq<DomainEntry>,
    now: u64,
    skips: spec_fn(int) -> nat,
)
    requires
        t.well_formed(),
        call::endpoints_stand(t, first.len()),
        call::endpoints_decay(t, first),
        0 <= start < t.size(),
        0 <= attempt,
        searched(first, current, now, skips),
    ensures
        searched(
            first,
            call::alternative(t, bytes, start, attempt, current, now).1,
            now,
            skips,
        ),
        forall|k: int|
            0 <= k < first.len() && (#[trigger] current[k]).state.backoff_level
                == first[k].state.decayed(now).backoff_level && first[k].state.decay_defined()
                ==> call::alternative(t, bytes, start, attempt, current, now).1[k].state.backoff_level
                == first[k].state.decayed(now).backoff_level,
    decreases t.size() - attempt,
{
    if attempt < t.size() {
        if !call::eligible(t, bytes, start, attempt) {
            lemma_alternative_in_search(t, bytes, start, attempt + 1, first, current, now, skips);
        } else {
            let k = call::throttle_of(t, start, attempt);
            lemma_endpoint(t, start, attempt);
            let idx = call::endpoint_of(t, start, attempt);
            assert(first[t.endpoint_throttles@[idx] as int].state.decay_defined());
            lemma_decay_in_search(first, current, k, now, skips);
            let next = call::decayed_at(current, k, now);
            lemma_alternative_in_search(t, bytes, start, attempt + 1, first, next, now, skips);
            let last = call::alternative(t, bytes, start, attempt, current, now).1;
            assert forall|j: int|
                0 <= j < first.len() && (#[trigger] current[j]).state.backoff_level
                    == first[j].state.decayed(now).backoff_level
                    && first[j].state.decay_defined() implies last[j].state.backoff_level
                == first[j].state.decayed(now).backoff_level by {
                assert(next[j].state.backoff_level == first[j].state.decayed(now).backoff_level);
            }
        }
    }
}

/// The search for the next attempt counts a skip for each eligible attempt that it passes over.
proof fn lemma_search(
    t: LoadBalancedTransport,
    bytes: usize,
    start: int,
    from: int,
    attempt: int,
    first: Seq<DomainEntry>,
    current: Seq<DomainEntry>,
    now: u64,
)
    requires
        t.well_formed(),
        call::endpoints_stand(t, first.len()),
        call::endpoints_decay(t, first),
        0 <= start < t.size(),
        0 <= from <= attempt,
        searched(first, current, now, |k: int| passes(t, bytes, start, from, attempt, k)),
    ensures
        ({
            let (found, after) = call::next_try(t, bytes, start, attempt, current, now);
            match found {
                Some((chosen, _)) => {
                    &&& searched(
                        first,
                        after,
                        now,
                        |k: int| passes(t, bytes, start, from, chosen, k),
                    )
                    &&& after[call::throttle_of(t, start, chosen)].state.backoff_level
                        == first[call::throttle_of(t, start, chosen)].state.decayed(
                        now,
                    ).backoff_level
                },
                None => (forall|a: int|
                    attempt <= a < t.size() ==> !#[trigger] call::eligible(t, bytes, start, a))
                    ==> after == current,
            }
        }),
    decreases t.size() - attempt,
{
    if attempt < t.size() {
        lemma_endpoint(t, start, attempt);
        let idx = call::endpoint_of(t, start, attempt);
        let k = call::throttle_of(t, start, attempt);
        let skips = |j: int| passes(t, bytes, start, from, attempt, j);
        let more = |j: int| passes(t, bytes, start, from, attempt + 1, j);
        assert forall|j: int| #[trigger]
            more(j) == skips(j) + if takes(t, idx, bytes) && t.endpoint_throttles@[idx] == j {
                1nat
            } else {
                0nat
            } by {
            lemma_passes_step(t, bytes, start, from, attempt, j);
        }
        if !call::eligible(t, bytes, start, attempt) {
            assert forall|j: int| #![trigger current[j]] 0 <= j < first.len() implies {
                &&& same_but_for_decay(first[j], current[j], now)
                &&& first[j].state.decay_defined() ==> current[j].state.decay_defined()
                &&& current[j].state.total_skips == (first[j].state.total_skips + more(j))
                    % 0x1_0000_0000_0000_0000
            } by {
                assert(more(j) == skips(j));
            }
            lemma_search(t, bytes, start, from, attempt + 1, first, current, now);
        } else {
            assert(first[t.endpoint_throttles@[idx] as int].state.decay_defined());
            lemma_decay_in_search(first, current, k, now, skips);
            let brought = call::decayed_at(current, k, now);
            lemma_alternative_in_search(t, bytes, start, attempt + 1, first, brought, now, skips);
            let (remains, looked) = call::alternative(t, bytes, start, attempt + 1, brought, now);
            assert(brought[k].state.backoff_level == first[k].state.decayed(now).backoff_level);
            let delay = brought[k].state.delay_nanos();
            if !call::lightly_throttled(t, delay) && remains {
                let skipped = call::skipped_at(looked, k);
                assert forall|j: int| #![trigger skipped[j]] 0 <= j < first.len() implies {
                    &&& same_but_for_decay(first[j], skipped[j], now)
                    &&& first[j].state.decay_defined() ==> skipped[j].state.decay_defined()
                    &&& skipped[j].state.total_skips == (first[j].state.total_skips + more(j))
                        % 0x1_0000_0000_0000_0000
                } by {
                    assert(same_but_for_decay(first[j], looked[j], now));
                    assert(more(j) == skips(j) + if j == k {
                        1nat
                    } else {
                        0nat
                    });
                }
                lemma_search(t, bytes, start, from, attempt + 1, first, skipped, now);
                assert(call::eligible(t, bytes, start, attempt));
            }
        }
    }
}

/// One attempt more counts for its own endpoint.
proof fn lemma_passes_step(
    t: LoadBalancedTransport,
    bytes: usize,
    start: int,
    from: int,
    to: int,
    k: int,
)
    requires
        from <= to,
    ensures
        passes(t, bytes, start, from, to + 1, k) == passes(t, bytes, start, from, to, k) + if takes(
            t,
            call::endpoint_of(t, start, to),
            bytes,
        ) && t.endpoint_throttles@[call::endpoint_of(t, start, to)] == k {
            1nat
        } else {
            0nat
        },
    decreases to - from,
{
    if from < to {
        lemma_passes_step(t, bytes, start, from + 1, to, k);
    } else {
        reveal_with_fuel(passes, 2);
    }
}

/// Looking for the next attempt records nothing but decay and skips: every domain on whose
/// behalf an endpoint that takes the request was passed over counts one skip for each, the domain
/// of the attempt that was found has decayed to the present, and all else is as it was. Where no
/// endpoint is left that takes the request, nothing changes at all.
pub proof fn law_search_records_decay_and_skips(
    t: LoadBalancedTransport,
    bytes: usize,
    start: int,
    attempt: int,
    entries: Seq<DomainEntry>,
    now: u64,
    k: int,
)
    requires
        t.well_formed(),
        call::endpoints_stand(t, entries.len()),
        call::endpoints_decay(t, entries),
        0 <= start < t.urls@.len(),
        0 <= attempt,
        0 <= k < entries.len(),
    ensures
        ({
            let (found, after) = call::next_try(t, bytes, start, attempt, entries, now);
            &&& found matches Some((chosen, _)) ==> {
                &&& after.len() == entries.len()
                &&& same_but_for_decay(entries[k], after[k], now)
                &&& after[k].state.total_skips == (entries[k].state.total_skips + passes(
                    t,
                    bytes,
                    start,
                    attempt,
                    chosen,
                    k,
                )) % 0x1_0000_0000_0000_0000
                &&& k == t.endpoint_throttles@[call::endpoint_of(t, start, chosen)]
                    ==> after[k].state.backoff_level == entries[k].state.decayed(now).backoff_level
            }
            &&& (forall|a: int|
                attempt <= a < t.urls@.len() ==> !#[trigger] takes(
                    t,
                    call::endpoint_of(t, start, a),
                    bytes,
                )) ==> found is None && after == entries
        }),
{
    let none = |j: int| passes(t, bytes, start, attempt, attempt, j);
    assert forall|j: int| #![trigger entries[j]] 0 <= j < entries.len() implies {
        &&& same_but_for_decay(entries[j], entries[j], now)
        &&& entries[j].state.total_skips == (entries[j].state.total_skips + none(j))
            % 0x1_0000_0000_0000_0000
    } by {
        assert(none(j) == 0);
    }
    lemma_search(t, bytes, start, attempt, attempt, entries, entries, now);
    crate::call_laws::law_first_attempt_not_passed_over(t, bytes, start, attempt, entries, now);
    if forall|a: int|
        attempt <= a < t.urls@.len() ==> !#[trigger] takes(
            t,
            call::endpoint_of(t, start, a),
            bytes,
        ) {
        assert forall|a: int| attempt <= a < t.size() implies !#[trigger] call::eligible(
            t,
            bytes,
            start,
            a,
        ) by {
            assert(!takes(t, call::endpoint_of(t, start, a), bytes));
        }
        let found = call::next_try(t, bytes, start, attempt, entries, now).0;
        if found is Some {
            let (chosen, _) = found.unwrap();
            assert(!crate::call_laws::passed_over(t, bytes, start, chosen, entries, now));
            assert(call::eligible(t, bytes, start, chosen));
        }
    }
}

/// The call turns to its current endpoint: it asks for a permit if the endpoint bounds its
/// requests, and sends the request otherwise.
pub open spec fn turns_to_endpoint<R, E>(
    before: CallState<E>,
    t: LoadBalancedTransport,
    after: CallState<E>,
    directive: Directive<R, E>,
) -> bool {
    let idx = call::endpoint_of(t, before.start_idx, before.attempt);
    if t.endpoint_in_flight@[idx] is Some {
        &&& directive == Directive::<R, E>::Acquire(idx)
        &&& after == CallState { phase: Phase::Acquiring, ..before }
    } else {
        &&& directive == Directive::<R, E>::Send(idx)
        &&& after == CallState { phase: Phase::InFlight, ..before }
    }
}

/// The call goes on with the attempt that is found from `attempt` on: after the delay that is
/// asked for, or at once if there is none. If none is found, the round is over: in the last round
/// the call ends with its last error, and otherwise it pauses before the next round, and will
/// pause twice as long before the one after that, up to the maximum.
pub open spec fn goes_on<R, E>(
    call: CallState<E>,
    t: LoadBalancedTransport,
    attempt: int,
    entries: Seq<DomainEntry>,
    now: u64,
    outcome: Outcome<R, E>,
) -> bool {
    let (found, after) = call::next_try(
        t,
        call.request_bytes,
        call.start_idx,
        attempt,
        entries,
        now,
    );
    let max = duration::nanos(t.config.max_backoff);
    &&& outcome.entries == after
    &&& outcome.counter == t.counter
    &&& found matches Some((chosen, delay)) ==> {
        let moved = CallState { attempt: chosen, ..call };
        &&& delay > 0 ==> {
            &&& outcome.directive == Directive::<R, E>::Sleep(delay)
            &&& outcome.call == CallState { phase: Phase::Delaying, ..moved }
        }
        &&& delay == 0 ==> turns_to_endpoint(moved, t, outcome.call, outcome.directive)
    }
    &&& found is None && call.round == t.config.max_retry_rounds ==> {
        &&& outcome.directive == Directive::<R, E>::Fail(call.last_err->0)
        &&& outcome.call.phase is Finished
    }
    &&& found is None && call.round != t.config.max_retry_rounds ==> {
        &&& outcome.directive == Directive::<R, E>::Sleep(call.backoff)
        &&& outcome.call.phase is BetweenRounds
        &&& outcome.call.round == call.round + 1
        &&& call.backoff + call.backoff <= max ==> outcome.call.backoff == call.backoff
            + call.backoff
        &&& call.backoff + call.backoff >= max ==> outcome.call.backoff == max
        &&& outcome.call.request_bytes == call.request_bytes
    }
}

/// The transport after one selection more; its counter runs over at 2^64.
pub open spec fn after_selection(t: LoadBalancedTransport) -> LoadBalancedTransport {
    LoadBalancedTransport { counter: ((t.counter + 1) % 0x1_0000_0000_0000_0000) as u64, ..t }
}

/// A request that no endpoint takes is rejected, and nothing is recorded. For any other one the
/// first round begins: the endpoint that weighted round-robin selects comes first, and the first
/// pause will be the initial backoff, up to the maximum.
pub proof fn law_calls_begin_at_the_selected_endpoint<R, E>(
    t: LoadBalancedTransport,
    entries: Seq<DomainEntry>,
    bytes: usize,
    now: u64,
)
    ensures
        ({
            let outcome = call::begun::<R, E>(t, entries, bytes, now);
            let refused = forall|i: int|
                0 <= i < t.urls@.len() ==> !#[trigger] takes(t, i, bytes);
            let initial = duration::nanos(t.config.initial_backoff);
            let max = duration::nanos(t.config.max_backoff);
            &&& refused ==> {
                &&& outcome.directive == Directive::<R, E>::Reject(Rejection::TooLarge)
                &&& outcome.call.phase is Finished
                &&& outcome.counter == t.counter
                &&& outcome.entries == entries
            }
            &&& !refused ==> exists|call: CallState<E>|
                {
                    &&& call.request_bytes == bytes
                    &&& call.round == 0
                    &&& initial <= max ==> call.backoff == initial
                    &&& initial >= max ==> call.backoff == max
                    &&& call.start_idx == t.selected(t.counter as int)
                    &&& call.last_err is None
                    &&& #[trigger] goes_on(call, after_selection(t), 0, entries, now, outcome)
                }
        }),
{
    law_attempts_go_by_their_endpoint(t, bytes, 0, 0, 0);
    let outcome = call::begun::<R, E>(t, entries, bytes, now);
    if call::acceptable(t, bytes) {
        let call = CallState::<E> {
            request_bytes: bytes,
            round: 0,
            backoff: call::smaller(
                duration::nanos(t.config.initial_backoff),
                duration::nanos(t.config.max_backoff),
            ),
            start_idx: t.selected(t.counter as int),
            attempt: 0,
            phase: Phase::BetweenRounds,
            last_err: None,
        };
        assert(goes_on(call, after_selection(t), 0, entries, now, outcome));
    }
}

/// What a call does when a time is over. After the delay before an attempt it turns to the
/// endpoint; after the pause that follows a 429 it goes on with the next attempt; and after the
/// pause between rounds it begins a round at the endpoint that is selected then, with no error
/// seen.
pub proof fn law_time_over<R, E>(
    call: CallState<E>,
    t: LoadBalancedTransport,
    entries: Seq<DomainEntry>,
    now: u64,
)
    ensures
        ({
            let outcome = call.after(t, entries, Event::<R, E>::Elapsed, now);
            &&& call.phase is Delaying ==> {
                &&& turns_to_endpoint(call, t, outcome.call, outcome.directive)
                &&& outcome.entries == entries
                &&& outcome.counter == t.counter
            }
            &&& call.phase is Pausing ==> goes_on(
                call,
                t,
                call.attempt + 1,
                entries,
                now,
                outcome,
            )
            &&& call.phase is BetweenRounds ==> goes_on(
                CallState { start_idx: t.selected(t.counter as int), last_err: None, ..call },
                after_selection(t),
                0,
                entries,
                now,
                outcome,
            )
        }),
{
}

/// What a call does with a permit: with it, it sends the request to the endpoint; where there are
/// no permits any more, it ends with the error of a stopped backend.
pub proof fn law_permits<R, E>(
    call: CallState<E>,
    t: LoadBalancedTransport,
    entries: Seq<DomainEntry>,
    now: u64,
)
    ensures
        ({
            let granted = call.after(t, entries, Event::<R, E>::PermitGranted, now);
            &&& granted.directive == Directive::<R, E>::Send(
                call::endpoint_of(t, call.start_idx, call.attempt),
            )
            &&& granted.call == CallState { phase: Phase::InFlight, ..call }
            &&& granted.entries == entries
            &&& granted.counter == t.counter
        }),
        ({
            let closed = call.after(t, entries, Event::<R, E>::PermitClosed, now);
            &&& closed.directive == Directive::<R, E>::Reject(Rejection::BackendGone)
            &&& closed.call.phase is Finished
            &&& closed.entries == entries
            &&& closed.counter == t.counter
        }),
{
}

/// A response ends the call, is returned as it is, and is recorded as a success of the endpoint's
/// domain, and of no other.
pub proof fn law_responses_end_calls<R, E>(
    call: CallState<E>,
    t: LoadBalancedTransport,
    entries: Seq<DomainEntry>,
    response: R,
    now: u64,
    j: int,
)
    requires
        0 <= j < entries.len(),
        0 <= t.endpoint_throttles@[call::endpoint_of(t, call.start_idx, call.attempt)]
            < entries.len(),
    ensures
        ({
            let outcome = call.after(t, entries, Event::<R, E>::Responded(response), now);
            let k = t.endpoint_throttles@[call::endpoint_of(t, call.start_idx, call.attempt)];
            &&& outcome.directive == Directive::<R, E>::Return(response)
            &&& outcome.call.phase is Finished
            &&& outcome.counter == t.counter
            &&& outcome.entries.len() == entries.len()
            &&& outcome.entries[j].domain == entries[j].domain
            &&& j == k ==> outcome.entries[j].state == entries[j].state.succeeded()
            &&& j != k ==> outcome.entries[j].state == entries[j].state
        }),
{
}

/// An error that does not warrant failover ends the call and is returned, and nothing is
/// recorded. Any other one makes the call go on with the next attempt, and is what the call
/// returns if it is the last. A 429 is recorded with its domain, and with no other, and unless it
/// was the round's last attempt, the call pauses first.
pub proof fn law_failures_fail_over<R, E>(
    call: CallState<E>,
    t: LoadBalancedTransport,
    entries: Seq<DomainEntry>,
    event: Event<R, E>,
    now: u64,
)
    requires
        event is Failed,
        0 <= t.endpoint_throttles@[call::endpoint_of(t, call.start_idx, call.attempt)]
            < entries.len(),
    ensures
        ({
            let outcome = call.after(t, entries, event, now);
            let error = event->error;
            let seen = CallState { last_err: Some(event->carried), ..call };
            let k = t.endpoint_throttles@[call::endpoint_of(t, call.start_idx, call.attempt)] as int;
            let limited = Seq::new(
                entries.len(),
                |j: int|
                    if j == k {
                        DomainEntry {
                            domain: entries[j].domain,
                            state: entries[j].state.rate_limited(now),
                        }
                    } else {
                        entries[j]
                    },
            );
            &&& !error.retryable() ==> {
                &&& outcome.directive == Directive::<R, E>::Fail(event->carried)
                &&& outcome.call.phase is Finished
                &&& outcome.entries == entries
                &&& outcome.counter == t.counter
            }
            &&& error.retryable() && !error.rate_limit() ==> goes_on(
                seen,
                t,
                call.attempt + 1,
                entries,
                now,
                outcome,
            )
            &&& error.retryable() && error.rate_limit() && call.attempt + 1 < t.urls@.len() ==> {
                &&& outcome.directive == Directive::<R, E>::Sleep(
                    duration::nanos(t.config.rate_limit_failover_delay),
                )
                &&& outcome.call == CallState { phase: Phase::Pausing, ..seen }
                &&& outcome.entries == limited
                &&& outcome.counter == t.counter
            }
            &&& error.retryable() && error.rate_limit() && call.attempt + 1 >= t.urls@.len()
                ==> goes_on(seen, t, call.attempt + 1, limited, now, outcome)
        }),
{
    let k = t.endpoint_throttles@[call::endpoint_of(t, call.start_idx, call.attempt)] as int;
    let limited = Seq::new(
        entries.len(),
        |j: int|
            if j == k {
                DomainEntry {
                    domain: entries[j].domain,
                    state: entries[j].state.rate_limited(now),
                }
            } else {
                entries[j]
            },
    );
    let updated = entries.update(
        k,
        DomainEntry { state: entries[k].state.rate_limited(now), ..entries[k] },
    );
    assert(limited =~= updated);
}

/// The states of all endpoints are healthy, all endpoints take the request, and none bounds how
/// many it takes at once.
pub open spec fn all_well(t: LoadBalancedTransport, entries: Seq<DomainEntry>, bytes: usize) -> bool {
    forall|i: int|
        0 <= i < t.urls@.len() ==> {
            &&& (#[trigger] t.endpoint_throttles@[i]) < entries.len()
            &&& entries[t.endpoint_throttles@[i] as int].state.backoff_level == 0
            &&& takes(t, i, bytes)
            &&& t.endpoint_in_flight@[i] is None
        }
}

/// With healthy endpoints that all take the request, a call sends it at once to the endpoint that
/// weighted round-robin selects.
pub proof fn law_healthy_calls_go_to_the_selected_endpoint<R, E>(
    t: LoadBalancedTransport,
    entries: Seq<DomainEntry>,
    bytes: usize,
    now: u64,
)
    requires
        t.well_formed(),
        all_well(t, entries, bytes),
    ensures
        call::begun::<R, E>(t, entries, bytes, now).directive == Directive::<R, E>::Send(
            t.selected(t.counter as int),
        ),
        call::begun::<R, E>(t, entries, bytes, now).counter == (t.counter + 1)
            % 0x1_0000_0000_0000_0000,
{
    let start = t.selected(t.counter as int);
    crate::balancer_laws::law_selection_is_total(t, t.counter as nat);
    let next = after_selection(t);
    law_calls_begin_at_the_selected_endpoint::<R, E>(t, entries, bytes, now);
    assert(t.endpoint_throttles@[start] < entries.len());
    assert(takes(t, start, bytes));
    law_rounds_rotate_from_their_start(next, start, 0, 0);
    law_attempts_go_by_their_endpoint(next, bytes, start, 0, 0);
    let k = call::throttle_of(next, start, 0);
    let current = call::decayed_at(entries, k, now);
    lemma_no_alternative_below_zero(next, bytes, start, 1, current, now);
    let found = call::next_try(next, bytes, start, 0, entries, now).0;
    assert(found == Some((0int, 0nat)));
}

/// Where the threshold is zero, no delay is light.
proof fn lemma_no_alternative_below_zero(
    t: LoadBalancedTransport,
    bytes: usize,
    start: int,
    attempt: int,
    entries: Seq<DomainEntry>,
    now: u64,
)
    ensures
        duration::nanos(t.config.heavy_throttle_threshold) == 0 ==> !call::alternative(
            t,
            bytes,
            start,
            attempt,
            entries,
            now,
        ).0,
    decreases t.size() - attempt,
{
    if attempt < t.size() {
        let k = call::throttle_of(t, start, attempt);
        if !call::eligible(t, bytes, start, attempt) {
            lemma_no_alternative_below_zero(t, bytes, start, attempt + 1, entries, now);
        } else {
            lemma_no_alternative_below_zero(
                t,
                bytes,
                start,
                attempt + 1,
                call::decayed_at(entries, k, now),
                now,
            );
        }
    }
}

/// How many of `n` calls in a row, the first of which begins when the counter stands at `first`,
/// send their request at once to the endpoint at `index`.
pub open spec fn first_sends<R, E>(
    t: LoadBalancedTransport,
    entries: Seq<DomainEntry>,
    bytes: usize,
    now: u64,
    first: nat,
    n: nat,
    index: int,
) -> nat
    decreases n,
{
    if n == 0 {
        0
    } else {
        let counted = LoadBalancedTransport { counter: (first + n - 1) as u64, ..t };
        let one: nat = if call::begun::<R, E>(counted, entries, bytes, now).directive
            == Directive::<R, E>::Send(index) {
            1
        } else {
            0
        };
        first_sends::<R, E>(t, entries, bytes, now, first, (n - 1) as nat, index) + one
    }
}

/// Traffic is split by weight: of as many calls in a row as the endpoints weigh together, each
/// healthy endpoint gets as many as it weighs by itself.
pub proof fn law_healthy_traffic_follows_weights<R, E>(
    t: LoadBalancedTransport,
    endpoints: Seq<EndpointConfig>,
    config: BalancerConfig,
    entries: Seq<DomainEntry>,
    bytes: usize,
    now: u64,
    first: nat,
    index: int,
)
    requires
        t.well_formed(),
        t.balances(endpoints, config),
        all_well(t, entries, bytes),
        first + t.total_weight <= 0x1_0000_0000_0000_0000,
        0 <= index < endpoints.len(),
    ensures
        first_sends::<R, E>(
            t,
            entries,
            bytes,
            now,
            first,
            t.total_weight as nat,
            index,
        ) == endpoints[index].weight.0,
{
    let total = t.total_weight as nat;
    lemma_first_sends::<R, E>(t, entries, bytes, now, first, total, index);
    crate::balancer_laws::law_distribution_follows_weights(t, endpoints, config, first, 1, index);
    assert(1 * total == total) by (nonlinear_arith);
    let weight = endpoints[index].weight.0;
    assert(1 * weight == weight) by (nonlinear_arith);
}

/// Calls of healthy endpoints go where the counter points.
proof fn lemma_first_sends<R, E>(
    t: LoadBalancedTransport,
    entries: Seq<DomainEntry>,
    bytes: usize,
    now: u64,
    first: nat,
    n: nat,
    index: int,
)
    requires
        t.well_formed(),
        all_well(t, entries, bytes),
        first + n <= 0x1_0000_0000_0000_0000,
    ensures
        first_sends::<R, E>(t, entries, bytes, now, first, n, index)
            == crate::balancer_laws::hits(t, first, n, index),
    decreases n,
{
    if n > 0 {
        lemma_first_sends::<R, E>(t, entries, bytes, now, first, (n - 1) as nat, index);
        let counted = LoadBalancedTransport { counter: (first + n - 1) as u64, ..t };
        assert(all_well(counted, entries, bytes)) by {
            assert forall|i: int| 0 <= i < counted.urls@.len() implies {
                &&& (#[trigger] counted.endpoint_throttles@[i]) < entries.len()
                &&& entries[counted.endpoint_throttles@[i] as int].state.backoff_level == 0
                &&& takes(counted, i, bytes)
                &&& counted.endpoint_in_flight@[i] is None
            } by {
                assert(t.endpoint_throttles@[i] < entries.len());
                assert(takes(t, i, bytes));
            }
        }
        law_healthy_calls_go_to_the_selected_endpoint::<R, E>(counted, entries, bytes, now);
        assert(counted.selected(counted.counter as int) == t.selected(first + n - 1));
    }
}

/// Every endpoint's state stands in the registry, or can decay, exactly if each does.
pub proof fn law_states_of_endpoints(t: LoadBalancedTransport, entries: Seq<DomainEntry>)
    ensures
        call::endpoints_stand(t, entries.len()) <==> forall|i: int|
            0 <= i < t.endpoint_throttles@.len() ==> (#[trigger] t.endpoint_throttles@[i])
                < entries.len(),
        call::endpoints_decay(t, entries) <==> forall|i: int|
            0 <= i < t.endpoint_throttles@.len() ==> entries[(
            #[trigger] t.endpoint_throttles@[i]) as int].state.decay_defined(),
{
}

/// Entries that are kept are those of the same domains in the same places, under the same
/// configurations, and in order if they were.
pub proof fn law_kept_entries(before: Seq<DomainEntry>, after: Seq<DomainEntry>)
    ensures
        call::kept(before, after) <==> {
            &&& after.len() == before.len()
            &&& forall|i: int|
                #![trigger after[i]]
                0 <= i < before.len() ==> {
                    &&& after[i].domain == before[i].domain
                    &&& after[i].state.config == before[i].state.config
                    &&& before[i].state.well_formed() ==> after[i].state.well_formed()
                }
        },
{
}

/// How many endpoints with attempts from `from` up to `to` take the request and ask for less than
/// the threshold at time `now`.
pub open spec fn lights(
    t: LoadBalancedTransport,
    bytes: usize,
    start: int,
    from: int,
    to: int,
    entries: Seq<DomainEntry>,
    now: u64,
) -> nat
    decreases to - from,
{
    if from >= to {
        0
    } else {
        let idx = call::endpoint_of(t, start, from);
        let delay = entries[t.endpoint_throttles@[idx] as int].state.decayed(now).delay_nanos();
        let one: nat = if takes(t, idx, bytes) && delay < duration::nanos(
            t.config.heavy_throttle_threshold,
        ) {
            1
        } else {
            0
        };
        one + lights(t, bytes, start, from + 1, to, entries, now)
    }
}

/// The states from `from` up to the `enough`-th light one can decay.
pub open spec fn decay_up_to(
    t: LoadBalancedTransport,
    bytes: usize,
    start: int,
    from: int,
    entries: Seq<DomainEntry>,
    now: u64,
    enough: nat,
) -> bool {
    forall|b: int|
        from <= b < t.urls@.len() && #[trigger] takes(t, call::endpoint_of(t, start, b), bytes)
            && lights(t, bytes, start, from, b, entries, now) < enough
            ==> entries[t.endpoint_throttles@[call::endpoint_of(t, start, b)] as int]
            .state.decay_defined()
}

/// Where the first attempt is out of the question, only the others count.
proof fn lemma_decay_up_to_step(
    t: LoadBalancedTransport,
    bytes: usize,
    start: int,
    from: int,
    entries: Seq<DomainEntry>,
    now: u64,
    enough: nat,
)
    requires
        0 <= from < t.urls@.len(),
        enough > 0,
    ensures
        ({
            let idx = call::endpoint_of(t, start, from);
            let state = entries[t.endpoint_throttles@[idx] as int].state;
            let light = takes(t, idx, bytes) && state.decayed(now).delay_nanos() < duration::nanos(
                t.config.heavy_throttle_threshold,
            );
            decay_up_to(t, bytes, start, from, entries, now, enough) <==> {
                &&& takes(t, idx, bytes) ==> state.decay_defined()
                &&& decay_up_to(
                    t,
                    bytes,
                    start,
                    from + 1,
                    entries,
                    now,
                    if light {
                        (enough - 1) as nat
                    } else {
                        enough
                    },
                )
            }
        }),
{
    let idx = call::endpoint_of(t, start, from);
    let state = entries[t.endpoint_throttles@[idx] as int].state;
    let light = takes(t, idx, bytes) && state.decayed(now).delay_nanos() < duration::nanos(
        t.config.heavy_throttle_threshold,
    );
    let rest: nat = if light {
        (enough - 1) as nat
    } else {
        enough
    };
    assert(lights(t, bytes, start, from, from, entries, now) == 0);
    assert forall|b: int| from + 1 <= b implies #[trigger] lights(
        t,
        bytes,
        start,
        from,
        b,
        entries,
        now,
    ) == lights(t, bytes, start, from + 1, b, entries, now) + if light {
        1nat
    } else {
        0nat
    } by {}
    if decay_up_to(t, bytes, start, from, entries, now, enough) {
        assert forall|b: int|
            from + 1 <= b < t.urls@.len() && #[trigger] takes(
                t,
                call::endpoint_of(t, start, b),
                bytes,
            ) && lights(t, bytes, start, from + 1, b, entries, now)
                < rest implies entries[t.endpoint_throttles@[call::endpoint_of(
            t,
            start,
            b,
        )] as int].state.decay_defined() by {
            assert(lights(t, bytes, start, from, b, entries, now) < enough);
        }
    }
    if (takes(t, idx, bytes) ==> state.decay_defined()) && decay_up_to(
        t,
        bytes,
        start,
        from + 1,
        entries,
        now,
        rest,
    ) {
        assert forall|b: int|
            from <= b < t.urls@.len() && #[trigger] takes(
                t,
                call::endpoint_of(t, start, b),
                bytes,
            ) && lights(t, bytes, start, from, b, entries, now)
                < enough implies entries[t.endpoint_throttles@[call::endpoint_of(
            t,
            start,
            b,
        )] as int].state.decay_defined() by {
            if b > from {
                assert(lights(t, bytes, start, from + 1, b, entries, now) < rest);
            }
        }
    }
}

/// An alternative can be looked for exactly if the states up to the first light one can decay.
proof fn lemma_alternative_defined(
    t: LoadBalancedTransport,
    bytes: usize,
    start: int,
    attempt: int,
    first: Seq<DomainEntry>,
    current: Seq<DomainEntry>,
    now: u64,
)
    requires
        t.well_formed(),
        call::endpoints_stand(t, first.len()),
        0 <= start < t.urls@.len(),
        0 <= attempt,
        lookahead::alike(first, current, now),
    ensures
        call::alternative_defined(t, bytes, start, attempt, current, now) <==> decay_up_to(
            t,
            bytes,
            start,
            attempt,
            first,
            now,
            1,
        ),
        call::alternative_defined(t, bytes, start, attempt, current, now) ==> {
            &&& lookahead::alike(first, call::alternative(t, bytes, start, attempt, current, now).1, now)
            &&& !call::alternative(t, bytes, start, attempt, current, now).0 ==> decay_up_to(
                t,
                bytes,
                start,
                attempt,
                first,
                now,
                2,
            )
        },
    decreases t.size() - attempt,
{
    if attempt < t.size() {
        let k = call::throttle_of(t, start, attempt);
        let idx = call::endpoint_of(t, start, attempt);
        lemma_endpoint(t, start, attempt);
        assert(t.endpoint_throttles@[idx] < first.len());
        lemma_decay_up_to_step(t, bytes, start, attempt, first, now, 1);
        lemma_decay_up_to_step(t, bytes, start, attempt, first, now, 2);
        assert(current[k].state.decay_defined() == first[k].state.decay_defined());
        if !call::eligible(t, bytes, start, attempt) {
            lemma_alternative_defined(t, bytes, start, attempt + 1, first, current, now);
        } else if first[k].state.decay_defined() {
            lookahead::lemma_decay_keeps_alike(first, current, k, now);
            let next = call::decayed_at(current, k, now);
            lemma_alternative_defined(t, bytes, start, attempt + 1, first, next, now);
        }
    }
}

/// The next attempt can be looked for exactly if the states that the search consults can decay:
/// those of the endpoints that take the request, in rotation, up to the second that asks for less
/// than the threshold.
pub proof fn law_search_consults_up_to_the_second_light_endpoint(
    t: LoadBalancedTransport,
    bytes: usize,
    start: int,
    attempt: int,
    entries: Seq<DomainEntry>,
    now: u64,
)
    requires
        t.well_formed(),
        call::endpoints_stand(t, entries.len()),
        0 <= start < t.urls@.len(),
        0 <= attempt,
    ensures
        call::next_defined(t, bytes, start, attempt, entries, now) <==> decay_up_to(
            t,
            bytes,
            start,
            attempt,
            entries,
            now,
            2,
        ),
{
    lemma_next_defined(t, bytes, start, attempt, entries, entries, now);
}

/// The same, on states that are alike.
proof fn lemma_next_defined(
    t: LoadBalancedTransport,
    bytes: usize,
    start: int,
    attempt: int,
    first: Seq<DomainEntry>,
    current: Seq<DomainEntry>,
    now: u64,
)
    requires
        t.well_formed(),
        call::endpoints_stand(t, first.len()),
        0 <= start < t.urls@.len(),
        0 <= attempt,
        lookahead::alike(first, current, now),
    ensures
        call::next_defined(t, bytes, start, attempt, current, now) <==> decay_up_to(
            t,
            bytes,
            start,
            attempt,
            first,
            now,
            2,
        ),
    decreases t.size() - attempt,
{
    if attempt < t.size() {
        let k = call::throttle_of(t, start, attempt);
        let idx = call::endpoint_of(t, start, attempt);
        lemma_endpoint(t, start, attempt);
        assert(t.endpoint_throttles@[idx] < first.len());
        lemma_decay_up_to_step(t, bytes, start, attempt, first, now, 2);
        assert(current[k].state.decay_defined() == first[k].state.decay_defined());
        if !call::eligible(t, bytes, start, attempt) {
            lemma_next_defined(t, bytes, start, attempt + 1, first, current, now);
        } else if first[k].state.decay_defined() {
            lookahead::lemma_decay_keeps_alike(first, current, k, now);
            let next = call::decayed_at(current, k, now);
            lemma_alternative_defined(t, bytes, start, attempt + 1, first, next, now);
            let (remains, looked) = call::alternative(t, bytes, start, attempt + 1, next, now);
            lemma_fewer_is_less(t, bytes, start, attempt + 1, first, now);
            if call::alternative_defined(t, bytes, start, attempt + 1, next, now) {
                lookahead::lemma_skip_keeps_alike(first, looked, k, now);
                lemma_next_defined(
                    t,
                    bytes,
                    start,
                    attempt + 1,
                    first,
                    call::skipped_at(looked, k),
                    now,
                );
            }
        }
    }
}

/// What reaches up to the second light state reaches up to the first.
proof fn lemma_fewer_is_less(
    t: LoadBalancedTransport,
    bytes: usize,
    start: int,
    from: int,
    entries: Seq<DomainEntry>,
    now: u64,
)
    ensures
        decay_up_to(t, bytes, start, from, entries, now, 2) ==> decay_up_to(
            t,
            bytes,
            start,
            from,
            entries,
            now,
            1,
        ),
{
}

/// What a call needs decay for: to begin a round, and to go on with an attempt after a pause or
/// after a failure that is retryable and no rate limit. No other event needs it.
pub proof fn law_events_that_consult_states<R, E>(
    call: CallState<E>,
    t: LoadBalancedTransport,
    entries: Seq<DomainEntry>,
    event: Event<R, E>,
    now: u64,
)
    ensures
        ({
            let rotation = call::next_defined(
                t,
                call.request_bytes,
                call.start_idx,
                call.attempt + 1,
                entries,
                now,
            );
            let defined = call.defined(t, entries, event, now);
            &&& event is Elapsed && call.phase is BetweenRounds ==> defined == call::next_defined(
                after_selection(t),
                call.request_bytes,
                t.selected(t.counter as int),
                0,
                entries,
                now,
            )
            &&& event is Elapsed && call.phase is Pausing ==> defined == rotation
            &&& event is Elapsed && call.phase is Delaying ==> defined
            &&& event is Failed && event->error.retryable() && !event->error.rate_limit()
                ==> defined == rotation
            &&& event is Failed && (!event->error.retryable() || event->error.rate_limit())
                ==> defined
            &&& event is Responded || event is PermitGranted || event is PermitClosed ==> defined
        }),
        call::round_defined(t, call.request_bytes, entries, now) == call::next_defined(
            after_selection(t),
            call.request_bytes,
            t.selected(t.counter as int),
            0,
            entries,
            now,
        ),
{
}

/// One of the attempts from `from` on whose endpoints take the request goes by the state at
/// position `k`, and fewer than `enough` before it ask for less than the threshold.
pub open spec fn consulted(
    t: LoadBalancedTransport,
    bytes: usize,
    start: int,
    from: int,
    entries: Seq<DomainEntry>,
    now: u64,
    enough: nat,
    k: int,
) -> bool {
    exists|b: int|
        from <= b < t.urls@.len() && #[trigger] takes(t, call::endpoint_of(t, start, b), bytes)
            && lights(t, bytes, start, from, b, entries, now) < enough
            && t.endpoint_throttles@[call::endpoint_of(t, start, b)] == k
}

/// One of the attempts from `from` on has an endpoint that takes the request and asks for less
/// than the threshold.
pub open spec fn light_left(
    t: LoadBalancedTransport,
    bytes: usize,
    start: int,
    from: int,
    entries: Seq<DomainEntry>,
    now: u64,
) -> bool {
    exists|b: int|
        from <= b < t.urls@.len() && #[trigger] takes(t, call::endpoint_of(t, start, b), bytes)
            && entries[t.endpoint_throttles@[call::endpoint_of(t, start, b)] as int].state.decayed(
            now,
        ).delay_nanos() < duration::nanos(t.config.heavy_throttle_threshold)
}

/// An entry has decayed to the present, but for the skips that it counts.
pub open spec fn brought_up(before: DomainEntry, after: DomainEntry, now: u64) -> bool {
    after == (DomainEntry {
        state: DomainThrottleState {
            total_skips: after.state.total_skips,
            ..before.state.decayed(now)
        },
        ..before
    })
}

/// The states that are consulted.
spec fn consultations(
    t: LoadBalancedTransport,
    bytes: usize,
    start: int,
    from: int,
    entries: Seq<DomainEntry>,
    now: u64,
    enough: nat,
) -> Set<int> {
    Set::new(|k: int| consulted(t, bytes, start, from, entries, now, enough, k))
}

/// The entries that are done have decayed to the present, and the others are as they were.
spec fn brought_up_where(
    first: Seq<DomainEntry>,
    current: Seq<DomainEntry>,
    now: u64,
    done: Set<int>,
) -> bool {
    &&& first.len() == current.len()
    &&& forall|j: int|
        #![trigger current[j]]
        0 <= j < current.len() ==> if done.contains(j) {
            brought_up(first[j], current[j], now)
        } else {
            current[j] == first[j]
        }
    &&& forall|j: int|
        0 <= j < current.len() && #[trigger] done.contains(j) ==> first[j].state.decay_defined()
}

/// Consulting a state brings it up to the present, if it was not already.
proof fn lemma_bring_up(
    first: Seq<DomainEntry>,
    current: Seq<DomainEntry>,
    k: int,
    now: u64,
    done: Set<int>,
)
    requires
        brought_up_where(first, current, now, done),
        0 <= k < first.len(),
        current[k].state.decay_defined(),
    ensures
        brought_up_where(first, call::decayed_at(current, k, now), now, done.insert(k)),
        call::decayed_at(current, k, now)[k].state.delay_nanos() == first[k].state.decayed(
            now,
        ).delay_nanos(),
{
    let next = call::decayed_at(current, k, now);
    assert(current[k] == current[k]);
    if done.contains(k) {
        let undecayed = DomainThrottleState {
            total_skips: current[k].state.total_skips,
            ..first[k].state
        };
        assert(undecayed.quiet_intervals(now) == first[k].state.quiet_intervals(now));
        assert(undecayed.decayed(now) == current[k].state);
        crate::throttle_laws::law_checking_again_changes_nothing(undecayed, now);
        assert(next =~= current);
        assert(done.insert(k) =~= done);
    } else {
        assert forall|j: int| #![trigger next[j]] 0 <= j < next.len() implies if done.insert(
            k,
        ).contains(j) {
            brought_up(first[j], next[j], now)
        } else {
            next[j] == first[j]
        } by {
            if j != k {
                assert(next[j] == current[j]);
            }
        }
    }
}

/// Passing over an endpoint keeps its state up to the present.
proof fn lemma_skip_brought_up(
    first: Seq<DomainEntry>,
    current: Seq<DomainEntry>,
    k: int,
    now: u64,
    done: Set<int>,
)
    requires
        brought_up_where(first, current, now, done),
        0 <= k < first.len(),
        done.contains(k),
    ensures
        brought_up_where(first, call::skipped_at(current, k), now, done),
{
    let skipped = call::skipped_at(current, k);
    assert(brought_up(first[k], current[k], now));
    assert forall|j: int| #![trigger skipped[j]] 0 <= j < skipped.len() implies if done.contains(j) {
        brought_up(first[j], skipped[j], now)
    } else {
        skipped[j] == first[j]
    } by {
        if j != k {
            assert(skipped[j] == current[j]);
        }
    }
}

/// What is consulted from an attempt on is its own state, if its endpoint takes the request, and
/// what is consulted after it.
proof fn lemma_consultations_step(
    t: LoadBalancedTransport,
    bytes: usize,
    start: int,
    from: int,
    entries: Seq<DomainEntry>,
    now: u64,
    enough: nat,
)
    requires
        0 <= from < t.urls@.len(),
        enough > 0,
    ensures
        ({
            let idx = call::endpoint_of(t, start, from);
            let own = t.endpoint_throttles@[idx] as int;
            let rest = if takes(t, idx, bytes) && entries[own].state.decayed(now).delay_nanos()
                < duration::nanos(t.config.heavy_throttle_threshold) {
                (enough - 1) as nat
            } else {
                enough
            };
            let others = consultations(t, bytes, start, from + 1, entries, now, rest);
            consultations(t, bytes, start, from, entries, now, enough) == if takes(t, idx, bytes) {
                others.insert(own)
            } else {
                others
            }
        }),
{
    let idx = call::endpoint_of(t, start, from);
    let own = t.endpoint_throttles@[idx] as int;
    let light = takes(t, idx, bytes) && entries[own].state.decayed(now).delay_nanos()
        < duration::nanos(t.config.heavy_throttle_threshold);
    let rest: nat = if light {
        (enough - 1) as nat
    } else {
        enough
    };
    let others = consultations(t, bytes, start, from + 1, entries, now, rest);
    let all = if takes(t, idx, bytes) {
        others.insert(own)
    } else {
        others
    };
    assert(lights(t, bytes, start, from, from, entries, now) == 0);
    assert forall|b: int| from + 1 <= b implies #[trigger] lights(
        t,
        bytes,
        start,
        from,
        b,
        entries,
        now,
    ) == lights(t, bytes, start, from + 1, b, entries, now) + if light {
        1nat
    } else {
        0nat
    } by {}
    assert forall|k: int| consulted(t, bytes, start, from, entries, now, enough, k) implies
        #[trigger] all.contains(k) by {
        let b = choose|b: int|
            from <= b < t.urls@.len() && #[trigger] takes(t, call::endpoint_of(t, start, b), bytes)
                && lights(t, bytes, start, from, b, entries, now) < enough
                && t.endpoint_throttles@[call::endpoint_of(t, start, b)] == k;
        if b > from {
            assert(lights(t, bytes, start, from + 1, b, entries, now) < rest);
            assert(consulted(t, bytes, start, from + 1, entries, now, rest, k));
        }
    }
    assert forall|k: int| #[trigger] all.contains(k) implies consulted(
        t,
        bytes,
        start,
        from,
        entries,
        now,
        enough,
        k,
    ) by {
        if others.contains(k) {
            let b = choose|b: int|
                from + 1 <= b < t.urls@.len() && #[trigger] takes(
                    t,
                    call::endpoint_of(t, start, b),
                    bytes,
                ) && lights(t, bytes, start, from + 1, b, entries, now) < rest
                    && t.endpoint_throttles@[call::endpoint_of(t, start, b)] == k;
            assert(lights(t, bytes, start, from, b, entries, now) < enough);
        }
    }
    assert(consultations(t, bytes, start, from, entries, now, enough) =~= all);
}

/// What is consulted up to the first light endpoint is consulted up to the second.
proof fn lemma_consultations_grow(
    t: LoadBalancedTransport,
    bytes: usize,
    start: int,
    from: int,
    entries: Seq<DomainEntry>,
    now: u64,
)
    ensures
        consultations(t, bytes, start, from, entries, now, 1).subset_of(
            consultations(t, bytes, start, from, entries, now, 2),
        ),
        consultations(t, bytes, start, from, entries, now, 0) == Set::<int>::empty(),
{
    let two = consultations(t, bytes, start, from, entries, now, 2);
    assert forall|k: int| consulted(t, bytes, start, from, entries, now, 1, k) implies
        #[trigger] two.contains(k) by {
        let b = choose|b: int|
            from <= b < t.urls@.len() && #[trigger] takes(t, call::endpoint_of(t, start, b), bytes)
                && lights(t, bytes, start, from, b, entries, now) < 1
                && t.endpoint_throttles@[call::endpoint_of(t, start, b)] == k;
        assert(lights(t, bytes, start, from, b, entries, now) < 2);
    }
    assert(consultations(t, bytes, start, from, entries, now, 0) =~= Set::<int>::empty());
}

/// Looking for an alternative consults up to the first light endpoint, and everything if there is
/// none.
proof fn lemma_alternative_consults(
    t: LoadBalancedTransport,
    bytes: usize,
    start: int,
    attempt: int,
    first: Seq<DomainEntry>,
    current: Seq<DomainEntry>,
    now: u64,
    done: Set<int>,
)
    requires
        t.well_formed(),
        call::endpoints_stand(t, first.len()),
        0 <= start < t.size(),
        0 <= attempt,
        brought_up_where(first, current, now, done),
        call::alternative_defined(t, bytes, start, attempt, current, now),
    ensures
        ({
            let (remains, looked) = call::alternative(t, bytes, start, attempt, current, now);
            let seen = consultations(t, bytes, start, attempt, first, now, 1);
            &&& brought_up_where(first, looked, now, done.union(seen))
            &&& remains == light_left(t, bytes, start, attempt, first, now)
            &&& !remains ==> seen == consultations(t, bytes, start, attempt, first, now, 2)
        }),
    decreases t.size() - attempt,
{
    let seen = consultations(t, bytes, start, attempt, first, now, 1);
    if attempt < t.size() {
        let idx = call::endpoint_of(t, start, attempt);
        let k = call::throttle_of(t, start, attempt);
        lemma_endpoint(t, start, attempt);
        assert(t.endpoint_throttles@[idx] < first.len());
        lemma_consultations_step(t, bytes, start, attempt, first, now, 1);
        lemma_consultations_step(t, bytes, start, attempt, first, now, 2);
        lemma_consultations_grow(t, bytes, start, attempt + 1, first, now);
        lemma_light_left_step(t, bytes, start, attempt, first, now);
        if !call::eligible(t, bytes, start, attempt) {
            lemma_alternative_consults(t, bytes, start, attempt + 1, first, current, now, done);
        } else {
            assert(current[k] == current[k]);
            lemma_bring_up(first, current, k, now, done);
            let next = call::decayed_at(current, k, now);
            if call::lightly_throttled(t, next[k].state.delay_nanos()) {
                assert(done.union(seen) =~= done.insert(k));
            } else {
                let own = done.insert(k);
                lemma_alternative_consults(t, bytes, start, attempt + 1, first, next, now, own);
                assert(done.union(seen) =~= own.union(
                    consultations(t, bytes, start, attempt + 1, first, now, 1),
                ));
            }
        }
    } else {
        assert(seen =~= Set::<int>::empty());
        assert(consultations(t, bytes, start, attempt, first, now, 2) =~= Set::<int>::empty());
        assert(done.union(seen) =~= done);
    }
}

/// A light endpoint is left if the first attempt has one, or one after it.
proof fn lemma_light_left_step(
    t: LoadBalancedTransport,
    bytes: usize,
    start: int,
    from: int,
    entries: Seq<DomainEntry>,
    now: u64,
)
    requires
        0 <= from < t.urls@.len(),
    ensures
        ({
            let idx = call::endpoint_of(t, start, from);
            light_left(t, bytes, start, from, entries, now) <==> {
                ||| takes(t, idx, bytes)
                    && entries[t.endpoint_throttles@[idx] as int].state.decayed(now).delay_nanos()
                    < duration::nanos(t.config.heavy_throttle_threshold)
                ||| light_left(t, bytes, start, from + 1, entries, now)
            }
        }),
{
    assert(takes(t, call::endpoint_of(t, start, from), bytes) == takes(
        t,
        call::endpoint_of(t, start, from),
        bytes,
    ));
}

/// The search for the next attempt consults up to the second light endpoint.
proof fn lemma_search_consults(
    t: LoadBalancedTransport,
    bytes: usize,
    start: int,
    attempt: int,
    first: Seq<DomainEntry>,
    current: Seq<DomainEntry>,
    now: u64,
    done: Set<int>,
)
    requires
        t.well_formed(),
        call::endpoints_stand(t, first.len()),
        0 <= start < t.size(),
        0 <= attempt,
        brought_up_where(first, current, now, done),
        call::next_defined(t, bytes, start, attempt, current, now),
    ensures
        brought_up_where(
            first,
            call::next_try(t, bytes, start, attempt, current, now).1,
            now,
            done.union(consultations(t, bytes, start, attempt, first, now, 2)),
        ),
    decreases t.size() - attempt,
{
    let all = consultations(t, bytes, start, attempt, first, now, 2);
    if attempt < t.size() {
        let idx = call::endpoint_of(t, start, attempt);
        let k = call::throttle_of(t, start, attempt);
        lemma_endpoint(t, start, attempt);
        assert(t.endpoint_throttles@[idx] < first.len());
        lemma_consultations_step(t, bytes, start, attempt, first, now, 2);
        lemma_consultations_grow(t, bytes, start, attempt + 1, first, now);
        if !call::eligible(t, bytes, start, attempt) {
            lemma_search_consults(t, bytes, start, attempt + 1, first, current, now, done);
        } else {
            let own = done.insert(k);
            let one = consultations(t, bytes, start, attempt + 1, first, now, 1);
            let two = consultations(t, bytes, start, attempt + 1, first, now, 2);
            assert(current[k] == current[k]);
            lemma_bring_up(first, current, k, now, done);
            let next = call::decayed_at(current, k, now);
            lemma_alternative_consults(t, bytes, start, attempt + 1, first, next, now, own);
            let (remains, looked) = call::alternative(t, bytes, start, attempt + 1, next, now);
            let seen = own.union(one);
            if !call::lightly_throttled(t, next[k].state.delay_nanos()) && remains {
                let skipped = call::skipped_at(looked, k);
                lemma_skip_brought_up(first, looked, k, now, seen);
                lemma_search_consults(t, bytes, start, attempt + 1, first, skipped, now, seen);
                assert(seen.union(two) =~= done.union(all));
            } else {
                assert(seen =~= done.union(all));
            }
        }
    } else {
        assert(all =~= Set::<int>::empty());
        assert(done.union(all) =~= done);
    }
}

/// The search for the next attempt brings up to the present exactly the states that it consults:
/// those of the endpoints that take the request, in rotation, up to the second that asks for less
/// than the threshold. The other states stay as they are.
pub proof fn law_search_brings_up_what_it_consults(
    t: LoadBalancedTransport,
    bytes: usize,
    start: int,
    attempt: int,
    entries: Seq<DomainEntry>,
    now: u64,
    k: int,
)
    requires
        t.well_formed(),
        call::endpoints_stand(t, entries.len()),
        call::next_defined(t, bytes, start, attempt, entries, now),
        0 <= start < t.urls@.len(),
        0 <= attempt,
        0 <= k < entries.len(),
    ensures
        ({
            let after = call::next_try(t, bytes, start, attempt, entries, now).1;
            &&& after.len() == entries.len()
            &&& consulted(t, bytes, start, attempt, entries, now, 2, k) ==> brought_up(
                entries[k],
                after[k],
                now,
            )
            &&& !consulted(t, bytes, start, attempt, entries, now, 2, k) ==> after[k] == entries[k]
        }),
{
    let none = Set::<int>::empty();
    assert(brought_up_where(entries, entries, now, none));
    lemma_search_consults(t, bytes, start, attempt, entries, entries, now, none);
    let after = call::next_try(t, bytes, start, attempt, entries, now).1;
    assert(after[k] == after[k]);
}

/// Looking for an alternative finds one exactly if an attempt from the given one on has an
/// endpoint that takes the request and asks for less than the threshold, and brings up to the
/// present the states that it consults on the way there.
pub proof fn law_alternatives_are_looked_for_in_rotation(
    t: LoadBalancedTransport,
    bytes: usize,
    start: int,
    attempt: int,
    entries: Seq<DomainEntry>,
    now: u64,
    k: int,
)
    requires
        t.well_formed(),
        call::endpoints_stand(t, entries.len()),
        call::alternative_defined(t, bytes, start, attempt, entries, now),
        0 <= start < t.urls@.len(),
        0 <= attempt,
        0 <= k < entries.len(),
    ensures
        ({
            let (remains, after) = call::alternative(t, bytes, start, attempt, entries, now);
            &&& remains == light_left(t, bytes, start, attempt, entries, now)
            &&& after.len() == entries.len()
            &&& consulted(t, bytes, start, attempt, entries, now, 1, k) ==> brought_up(
                entries[k],
                after[k],
                now,
            )
            &&& !consulted(t, bytes, start, attempt, entries, now, 1, k) ==> after[k] == entries[k]
        }),
{
    let none = Set::<int>::empty();
    assert(brought_up_where(entries, entries, now, none));
    lemma_alternative_consults(t, bytes, start, attempt, entries, entries, now, none);
    let after = call::alternative(t, bytes, start, attempt, entries, now).1;
    assert(after[k] == after[k]);
}

} // verus!
