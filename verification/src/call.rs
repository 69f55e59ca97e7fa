//! One request on its way through the balancer: rotation, failover and retry rounds.
//!
//! A [`Call`] decides; its owner acts. Each [`Action`] that it returns is performed (sleep, wait
//! for a permit, send), and what came of it is handed back as an [`Event`], until an action ends
//! the call.
use crate::balancer::LoadBalancedTransport;
use crate::duration;
use crate::error::TransportError;
use crate::registry::{DomainEntry, ThrottleRegistry};
use crate::throttle;
use crate::throttle::{pre_request_delay_at, record_rate_limit_at, record_skip, record_success};
use std::time::Duration;
use vstd::prelude::*;

verus! {

/// Message of the error when a request is too large for every endpoint.
pub const TOO_LARGE: &'static str = "JSON-RPC request exceeds every configured endpoint size limit";

/// Why a call ended without an answer of an endpoint.
#[derive(Clone, Copy, Debug, PartialEq, Eq, Structural)]
pub enum Rejection {
    /// The request is too large for every endpoint.
    TooLarge,
    /// The endpoint takes no more requests.
    BackendGone,
}

impl Rejection {
    /// The error to report.
    pub fn error(&self) -> (err: TransportError)
        ensures
            match *self {
                Rejection::TooLarge => err matches TransportError::Custom(m) && m@ == TOO_LARGE@,
                Rejection::BackendGone => err == TransportError::BackendGone,
            },
    {
        match self {
            Rejection::TooLarge => TransportError::custom_str(TOO_LARGE),
            Rejection::BackendGone => TransportError::backend_gone(),
        }
    }
}

/// What to do next.
#[derive(Debug)]
pub enum Action<R, E> {
    /// Wait for the duration, then report [`Event::Elapsed`].
    Sleep(Duration),
    /// Take one of the permits of the endpoint, then report [`Event::PermitGranted`] or
    /// [`Event::PermitClosed`]. The permit is held until the call has moved on from the endpoint,
    /// through the pause after a 429.
    Acquire(usize),
    /// Send the request to the endpoint, then report [`Event::Responded`] or [`Event::Failed`].
    Send(usize),
    /// Return the response; the call is over.
    Return(R),
    /// Return the error of an endpoint; the call is over.
    Fail(E),
    /// Return an error of the balancer's own; the call is over.
    Reject(Rejection),
}

/// What came of an action.
#[derive(Debug)]
pub enum Event<R, E> {
    /// The time is over.
    Elapsed,
    /// The permit is taken.
    PermitGranted,
    /// There are no permits any more.
    PermitClosed,
    /// The endpoint has responded.
    Responded(R),
    /// The request has failed.
    Failed {
        /// What went wrong.
        error: TransportError,
        /// The error to return in case it is the last.
        carried: E,
    },
}

/// What a call is waiting for.
#[derive(Clone, Copy, Debug, PartialEq, Eq, Structural)]
pub enum Phase {
    /// The pause before the next round.
    BetweenRounds,
    /// The domain's backoff delay before sending.
    Delaying,
    /// A permit of the endpoint.
    Acquiring,
    /// The endpoint's answer.
    InFlight,
    /// The pause after a 429, before the next endpoint.
    Pausing,
    /// Nothing; it is over.
    Finished,
}

/// A request on its way.
#[derive(Debug)]
pub struct Call<E> {
    /// Serialized size of the request.
    pub request_bytes: usize,
    /// The round, from 0 on.
    pub round: u32,
    /// The pause before the next round.
    pub backoff: Duration,
    /// The endpoint that the round started with.
    pub start_idx: usize,
    /// How many endpoints after that the current one is.
    pub attempt: usize,
    /// What the call is waiting for.
    pub phase: Phase,
    /// The last retryable error of the round.
    pub last_err: Option<E>,
}

/// The state of a call.
pub struct CallState<E> {
    /// Serialized size of the request.
    pub request_bytes: usize,
    /// The round, from 0 on.
    pub round: int,
    /// The pause before the next round, in nanoseconds.
    pub backoff: nat,
    /// The endpoint that the round started with.
    pub start_idx: int,
    /// How many endpoints after that the current one is.
    pub attempt: int,
    /// What the call is waiting for.
    pub phase: Phase,
    /// The last retryable error of the round.
    pub last_err: Option<E>,
}

impl<E> View for Call<E> {
    type V = CallState<E>;

    open spec fn view(&self) -> CallState<E> {
        CallState {
            request_bytes: self.request_bytes,
            round: self.round as int,
            backoff: duration::nanos(self.backoff),
            start_idx: self.start_idx as int,
            attempt: self.attempt as int,
            phase: self.phase,
            last_err: self.last_err,
        }
    }
}

/// An action, with durations in nanoseconds.
pub enum Directive<R, E> {
    /// Wait.
    Sleep(nat),
    /// Take a permit of the endpoint.
    Acquire(int),
    /// Send to the endpoint.
    Send(int),
    /// Return the response.
    Return(R),
    /// Return the endpoint's error.
    Fail(E),
    /// Return the balancer's error.
    Reject(Rejection),
}

impl<R, E> View for Action<R, E> {
    type V = Directive<R, E>;

    open spec fn view(&self) -> Directive<R, E> {
        match *self {
            Action::Sleep(d) => Directive::Sleep(duration::nanos(d)),
            Action::Acquire(idx) => Directive::Acquire(idx as int),
            Action::Send(idx) => Directive::Send(idx as int),
            Action::Return(response) => Directive::Return(response),
            Action::Fail(err) => Directive::Fail(err),
            Action::Reject(rejection) => Directive::Reject(rejection),
        }
    }
}

/// Where an event leaves the call, the selection counter and the throttle states, and what is to
/// be done next.
pub struct Outcome<R, E> {
    /// The call.
    pub call: CallState<E>,
    /// The selection counter.
    pub counter: u64,
    /// The throttle states.
    pub entries: Seq<DomainEntry>,
    /// What to do.
    pub directive: Directive<R, E>,
}

/// The endpoint of an attempt: the one that many places after the first, going round.
pub open spec fn endpoint_of(t: LoadBalancedTransport, start: int, attempt: int) -> int {
    (start + attempt) % t.size() as int
}

/// Position of the throttle state of an attempt's endpoint.
pub open spec fn throttle_of(t: LoadBalancedTransport, start: int, attempt: int) -> int {
    t.endpoint_throttles@[endpoint_of(t, start, attempt)] as int
}

/// The endpoint of an attempt accepts the request.
pub open spec fn eligible(t: LoadBalancedTransport, bytes: usize, start: int, attempt: int) -> bool {
    t.accepts(endpoint_of(t, start, attempt), bytes)
}

/// At least one endpoint accepts the request.
pub open spec fn acceptable(t: LoadBalancedTransport, bytes: usize) -> bool {
    exists|i: int| 0 <= i < t.size() && #[trigger] t.accepts(i, bytes)
}

/// The delay is below the one from which on endpoints are passed over.
pub open spec fn lightly_throttled(t: LoadBalancedTransport, delay: nat) -> bool {
    delay < duration::nanos(t.config.heavy_throttle_threshold)
}

/// The entries with one of them brought up to time `now`.
pub open spec fn decayed_at(entries: Seq<DomainEntry>, k: int, now: u64) -> Seq<DomainEntry> {
    entries.update(k, entries[k].decayed(now))
}

/// The entries with one of them passed over once more.
pub open spec fn skipped_at(entries: Seq<DomainEntry>, k: int) -> Seq<DomainEntry> {
    entries.update(k, DomainEntry { state: entries[k].state.skipped(), ..entries[k] })
}

/// Looks for an attempt from `attempt` on whose endpoint accepts the request and is not heavily
/// throttled. Every endpoint that is looked at on the way is brought up to time `now`.
pub open spec fn alternative(
    t: LoadBalancedTransport,
    bytes: usize,
    start: int,
    attempt: int,
    entries: Seq<DomainEntry>,
    now: u64,
) -> (bool, Seq<DomainEntry>)
    decreases t.size() - attempt,
{
    if attempt >= t.size() {
        (false, entries)
    } else if !eligible(t, bytes, start, attempt) {
        alternative(t, bytes, start, attempt + 1, entries, now)
    } else {
        let k = throttle_of(t, start, attempt);
        let current = decayed_at(entries, k, now);
        if lightly_throttled(t, current[k].state.delay_nanos()) {
            (true, current)
        } else {
            alternative(t, bytes, start, attempt + 1, current, now)
        }
    }
}

/// The next attempt to make, from `attempt` on, and the delay before it. Endpoints that do not
/// accept the request are passed over; so is a heavily throttled endpoint, but only while an
/// eligible, lightly throttled one remains.
pub open spec fn next_try(
    t: LoadBalancedTransport,
    bytes: usize,
    start: int,
    attempt: int,
    entries: Seq<DomainEntry>,
    now: u64,
) -> (Option<(int, nat)>, Seq<DomainEntry>)
    decreases t.size() - attempt,
{
    if attempt >= t.size() {
        (None, entries)
    } else if !eligible(t, bytes, start, attempt) {
        next_try(t, bytes, start, attempt + 1, entries, now)
    } else {
        let k = throttle_of(t, start, attempt);
        let current = decayed_at(entries, k, now);
        let delay = current[k].state.delay_nanos();
        let (remains, looked) = alternative(t, bytes, start, attempt + 1, current, now);
        if !lightly_throttled(t, delay) && remains {
            next_try(t, bytes, start, attempt + 1, skipped_at(looked, k), now)
        } else {
            (Some((attempt, delay)), looked)
        }
    }
}

/// Every decay that [`alternative`] computes is defined.
pub open spec fn alternative_defined(
    t: LoadBalancedTransport,
    bytes: usize,
    start: int,
    attempt: int,
    entries: Seq<DomainEntry>,
    now: u64,
) -> bool
    decreases t.size() - attempt,
{
    if attempt >= t.size() {
        true
    } else if !eligible(t, bytes, start, attempt) {
        alternative_defined(t, bytes, start, attempt + 1, entries, now)
    } else {
        let k = throttle_of(t, start, attempt);
        let current = decayed_at(entries, k, now);
        &&& entries[k].state.decay_defined()
        &&& {
            ||| lightly_throttled(t, current[k].state.delay_nanos())
            ||| alternative_defined(t, bytes, start, attempt + 1, current, now)
        }
    }
}

/// Every decay that [`next_try`] computes is defined.
pub open spec fn next_defined(
    t: LoadBalancedTransport,
    bytes: usize,
    start: int,
    attempt: int,
    entries: Seq<DomainEntry>,
    now: u64,
) -> bool
    decreases t.size() - attempt,
{
    if attempt >= t.size() {
        true
    } else if !eligible(t, bytes, start, attempt) {
        next_defined(t, bytes, start, attempt + 1, entries, now)
    } else {
        let k = throttle_of(t, start, attempt);
        let current = decayed_at(entries, k, now);
        let (remains, looked) = alternative(t, bytes, start, attempt + 1, current, now);
        &&& entries[k].state.decay_defined()
        &&& alternative_defined(t, bytes, start, attempt + 1, current, now)
        &&& !lightly_throttled(t, current[k].state.delay_nanos()) && remains ==> next_defined(
            t,
            bytes,
            start,
            attempt + 1,
            skipped_at(looked, k),
            now,
        )
    }
}

/// Every decay that beginning a round computes is defined.
pub open spec fn round_defined(
    t: LoadBalancedTransport,
    bytes: usize,
    entries: Seq<DomainEntry>,
    now: u64,
) -> bool {
    let next = LoadBalancedTransport { counter: throttle::counted(t.counter), ..t };
    next_defined(next, bytes, t.selected(t.counter as int), 0, entries, now)
}

/// The throttle state of every endpoint is one of that many.
pub open spec fn endpoints_stand(t: LoadBalancedTransport, len: nat) -> bool {
    forall|i: int|
        0 <= i < t.endpoint_throttles@.len() ==> (#[trigger] t.endpoint_throttles@[i]) < len
}

/// The state of every endpoint can decay.
pub open spec fn endpoints_decay(t: LoadBalancedTransport, entries: Seq<DomainEntry>) -> bool {
    forall|i: int|
        0 <= i < t.endpoint_throttles@.len() ==> entries[(
        #[trigger] t.endpoint_throttles@[i]) as int].state.decay_defined()
}

/// The smaller of two numbers.
pub open spec fn smaller(a: nat, b: nat) -> nat {
    if a <= b {
        a
    } else {
        b
    }
}

/// The pause after the given one: twice as long, up to the maximum.
pub open spec fn next_backoff(backoff: nat, max: nat) -> nat {
    smaller(2 * backoff, max)
}

impl<E> CallState<E> {
    /// The endpoint of the current attempt.
    pub open spec fn endpoint(self, t: LoadBalancedTransport) -> int {
        endpoint_of(t, self.start_idx, self.attempt)
    }

    /// Position of the current endpoint's throttle state.
    pub open spec fn throttle(self, t: LoadBalancedTransport) -> int {
        throttle_of(t, self.start_idx, self.attempt)
    }

    /// Approaches the current endpoint: a permit first, where it bounds its requests.
    pub open spec fn launched<R>(
        self,
        t: LoadBalancedTransport,
        entries: Seq<DomainEntry>,
    ) -> Outcome<R, E> {
        let idx = self.endpoint(t);
        if t.endpoint_in_flight@[idx] is Some {
            Outcome {
                call: CallState { phase: Phase::Acquiring, ..self },
                counter: t.counter,
                entries,
                directive: Directive::Acquire(idx),
            }
        } else {
            Outcome {
                call: CallState { phase: Phase::InFlight, ..self },
                counter: t.counter,
                entries,
                directive: Directive::Send(idx),
            }
        }
    }

    /// Goes on with the round at the given attempt. When the round has no more attempt, the next
    /// one begins after a pause; after the last round, the last error is returned.
    pub open spec fn rotated<R>(
        self,
        t: LoadBalancedTransport,
        attempt: int,
        entries: Seq<DomainEntry>,
        now: u64,
    ) -> Outcome<R, E> {
        let (found, entries) = next_try(
            t,
            self.request_bytes,
            self.start_idx,
            attempt,
            entries,
            now,
        );
        match found {
            Some((attempt, delay)) => {
                let call = CallState { attempt, ..self };
                if delay > 0 {
                    Outcome {
                        call: CallState { phase: Phase::Delaying, ..call },
                        counter: t.counter,
                        entries,
                        directive: Directive::Sleep(delay),
                    }
                } else {
                    call.launched(t, entries)
                }
            },
            None => if self.round == t.config.max_retry_rounds {
                Outcome {
                    call: CallState { phase: Phase::Finished, last_err: None, ..self },
                    counter: t.counter,
                    entries,
                    directive: Directive::Fail(self.last_err->0),
                }
            } else {
                Outcome {
                    call: CallState {
                        round: self.round + 1,
                        backoff: next_backoff(self.backoff, duration::nanos(t.config.max_backoff)),
                        phase: Phase::BetweenRounds,
                        ..self
                    },
                    counter: t.counter,
                    entries,
                    directive: Directive::Sleep(self.backoff),
                }
            },
        }
    }

    /// Begins a round: a new starting endpoint is selected, and no error has been seen.
    pub open spec fn round_begun<R>(
        self,
        t: LoadBalancedTransport,
        entries: Seq<DomainEntry>,
        now: u64,
    ) -> Outcome<R, E> {
        let call = CallState { start_idx: t.selected(t.counter as int), last_err: None, ..self };
        let t = LoadBalancedTransport { counter: throttle::counted(t.counter), ..t };
        call.rotated(t, 0, entries, now)
    }

    /// What an event brings about at time `now`.
    pub open spec fn after<R>(
        self,
        t: LoadBalancedTransport,
        entries: Seq<DomainEntry>,
        event: Event<R, E>,
        now: u64,
    ) -> Outcome<R, E> {
        let idx = self.endpoint(t);
        let k = self.throttle(t);
        let over = CallState { phase: Phase::Finished, last_err: None, ..self };
        match event {
            Event::Elapsed => match self.phase {
                Phase::BetweenRounds => self.round_begun(t, entries, now),
                Phase::Pausing => self.rotated(t, self.attempt + 1, entries, now),
                _ => self.launched(t, entries),
            },
            Event::PermitGranted => Outcome {
                call: CallState { phase: Phase::InFlight, ..self },
                counter: t.counter,
                entries,
                directive: Directive::Send(idx),
            },
            Event::PermitClosed => Outcome {
                call: over,
                counter: t.counter,
                entries,
                directive: Directive::Reject(Rejection::BackendGone),
            },
            Event::Responded(response) => Outcome {
                call: over,
                counter: t.counter,
                entries: entries.update(
                    k,
                    DomainEntry { state: entries[k].state.succeeded(), ..entries[k] },
                ),
                directive: Directive::Return(response),
            },
            Event::Failed { error, carried } => if !error.retryable() {
                Outcome {
                    call: over,
                    counter: t.counter,
                    entries,
                    directive: Directive::Fail(carried),
                }
            } else {
                let call = CallState { last_err: Some(carried), ..self };
                if error.rate_limit() {
                    let entries = entries.update(
                        k,
                        DomainEntry { state: entries[k].state.rate_limited(now), ..entries[k] },
                    );
                    if self.attempt < t.size() - 1 {
                        Outcome {
                            call: CallState { phase: Phase::Pausing, ..call },
                            counter: t.counter,
                            entries,
                            directive: Directive::Sleep(
                                duration::nanos(t.config.rate_limit_failover_delay),
                            ),
                        }
                    } else {
                        call.rotated(t, self.attempt + 1, entries, now)
                    }
                } else {
                    call.rotated(t, self.attempt + 1, entries, now)
                }
            },
        }
    }

    /// Every decay that the event makes the call compute is defined.
    pub open spec fn defined<R>(
        self,
        t: LoadBalancedTransport,
        entries: Seq<DomainEntry>,
        event: Event<R, E>,
        now: u64,
    ) -> bool {
        let rotation = next_defined(
            t,
            self.request_bytes,
            self.start_idx,
            self.attempt + 1,
            entries,
            now,
        );
        match event {
            Event::Elapsed => match self.phase {
                Phase::BetweenRounds => round_defined(t, self.request_bytes, entries, now),
                Phase::Pausing => rotation,
                _ => true,
            },
            Event::Failed { error, .. } => error.retryable() && !error.rate_limit() ==> rotation,
            _ => true,
        }
    }

    /// The call fits the transport: it is not over, its round and endpoint exist, the endpoint
    /// accepts the request, and so does at least one endpoint if none has been tried yet.
    pub open spec fn fits(self, t: LoadBalancedTransport) -> bool {
        &&& self.phase != Phase::Finished
        &&& 0 <= self.round <= t.config.max_retry_rounds
        &&& 0 <= self.start_idx < t.size()
        &&& acceptable(t, self.request_bytes)
        &&& self.phase != Phase::BetweenRounds ==> {
            &&& 0 <= self.attempt < t.size()
            &&& eligible(t, self.request_bytes, self.start_idx, self.attempt)
        }
        &&& self.phase == Phase::Pausing ==> self.last_err is Some
    }
}

/// The event is one that a call in this phase waits for.
pub open spec fn awaited<R, E>(phase: Phase, event: Event<R, E>) -> bool {
    match event {
        Event::Elapsed => phase == Phase::BetweenRounds || phase == Phase::Delaying || phase
            == Phase::Pausing,
        Event::PermitGranted => phase == Phase::Acquiring,
        Event::PermitClosed => phase == Phase::Acquiring,
        Event::Responded(_) => phase == Phase::InFlight,
        Event::Failed { .. } => phase == Phase::InFlight,
    }
}

/// What the first step of a call brings about at time `now`: the request is refused if it is too
/// large for every endpoint, and otherwise the first round begins.
pub open spec fn begun<R, E>(
    t: LoadBalancedTransport,
    entries: Seq<DomainEntry>,
    bytes: usize,
    now: u64,
) -> Outcome<R, E> {
    let call = CallState {
        request_bytes: bytes,
        round: 0,
        backoff: smaller(
            duration::nanos(t.config.initial_backoff),
            duration::nanos(t.config.max_backoff),
        ),
        start_idx: 0,
        attempt: 0,
        phase: Phase::BetweenRounds,
        last_err: None,
    };
    if acceptable(t, bytes) {
        call.round_begun(t, entries, now)
    } else {
        Outcome {
            call: CallState { phase: Phase::Finished, ..call },
            counter: t.counter,
            entries,
            directive: Directive::Reject(Rejection::TooLarge),
        }
    }
}

/// The same domains in the same places under the same configurations, with states that are in
/// order wherever they were.
pub open spec fn kept(before: Seq<DomainEntry>, after: Seq<DomainEntry>) -> bool {
    &&& after.len() == before.len()
    &&& forall|i: int|
        #![trigger after[i]]
        0 <= i < after.len() ==> {
            &&& after[i].domain == before[i].domain
            &&& after[i].state.config == before[i].state.config
            &&& before[i].state.well_formed() ==> after[i].state.well_formed()
        }
}

/// A registry whose entries are kept is as well-formed as before.
proof fn lemma_kept_well_formed(before: ThrottleRegistry, after: ThrottleRegistry)
    requires
        before.well_formed(),
        kept(before.entries@, after.entries@),
    ensures
        after.well_formed(),
{
    assert forall|i: int, j: int|
        #![trigger after.entries@[i], after.entries@[j]]
        0 <= i < j < after.entries@.len() implies after.entries@[i].domain@
        != after.entries@[j].domain@ by {
        assert(after.entries@[i].domain == before.entries@[i].domain);
        assert(after.entries@[j].domain == before.entries@[j].domain);
        assert(before.entries@[i].domain@ != before.entries@[j].domain@);
    }
    assert forall|i: int| 0 <= i < after.entries@.len() implies (
    #[trigger] after.entries@[i]).state.well_formed() by {
        assert(before.entries@[i].state.well_formed());
    }
}

/// The shorter of two durations.
fn shortest(a: Duration, b: Duration) -> (r: Duration)
    ensures
        duration::nanos(r) == smaller(duration::nanos(a), duration::nanos(b)),
        duration::nanos(a) <= duration::longest_nanos(),
        duration::nanos(b) <= duration::longest_nanos(),
{
    if duration::shorter(&b, &a) {
        b
    } else {
        a
    }
}

/// Whether at least one endpoint accepts the request.
pub(crate) fn accepted_anywhere(t: &LoadBalancedTransport, request_bytes: usize) -> (r: bool)
    requires
        t.well_formed(),
    ensures
        r == acceptable(*t, request_bytes),
{
    let mut i: usize = 0;
    while i < t.urls.len()
        invariant
            i <= t.urls.len(),
            t.well_formed(),
            forall|k: int| 0 <= k < i ==> !(#[trigger] t.accepts(k, request_bytes)),
        decreases t.urls.len() - i,
    {
        if t.endpoint_accepts_request(i, request_bytes) {
            return true;
        }
        i += 1;
    }
    false
}

/// The endpoint of an attempt.
pub(crate) fn endpoint_at(t: &LoadBalancedTransport, start: usize, attempt: usize) -> (idx: usize)
    requires
        start < t.size(),
        attempt < t.size(),
    ensures
        idx == endpoint_of(*t, start as int, attempt as int),
        idx < t.size(),
{
    let n: usize = t.urls.len();
    if start < n - attempt {
        proof {
            vstd::arithmetic::div_mod::lemma_small_mod((start + attempt) as nat, n as nat);
        }
        start + attempt
    } else {
        proof {
            vstd::arithmetic::div_mod::lemma_small_mod((start + attempt - n) as nat, n as nat);
            vstd::arithmetic::div_mod::lemma_mod_add_multiples_vanish(
                start + attempt - n,
                n as int,
            );
        }
        start - (n - attempt)
    }
}

/// Looks for an attempt from `attempt` on whose endpoint accepts the request and is not heavily
/// throttled.
fn find_alternative(
    t: &LoadBalancedTransport,
    registry: &mut ThrottleRegistry,
    bytes: usize,
    start: usize,
    attempt: usize,
    now_ms: u64,
) -> (remains: bool)
    requires
        t.well_formed(),
        t.registered_in(*old(registry)),
        start < t.size(),
        attempt <= t.size(),
        alternative_defined(
            *t,
            bytes,
            start as int,
            attempt as int,
            old(registry).entries@,
            now_ms,
        ),
    ensures
        (remains, final(registry).entries@) == alternative(
            *t,
            bytes,
            start as int,
            attempt as int,
            old(registry).entries@,
            now_ms,
        ),
        final(registry).default_config == old(registry).default_config,
        kept(old(registry).entries@, final(registry).entries@),
{
    let n: usize = t.urls.len();
    let mut next: usize = attempt;
    while next < n
        invariant
            attempt <= next <= n,
            n == t.size(),
            t.well_formed(),
            t.registered_in(*registry),
            start < n,
            alternative_defined(*t, bytes, start as int, next as int, registry.entries@, now_ms),
            kept(old(registry).entries@, registry.entries@),
            registry.default_config == old(registry).default_config,
            alternative(*t, bytes, start as int, next as int, registry.entries@, now_ms)
                == alternative(
                *t,
                bytes,
                start as int,
                attempt as int,
                old(registry).entries@,
                now_ms,
            ),
        decreases n - next,
    {
        let idx: usize = endpoint_at(t, start, next);
        if t.endpoint_accepts_request(idx, bytes) {
            let ghost before = registry.entries@;
            let k: usize = t.endpoint_throttles[idx];
            let delay = pre_request_delay_at(&mut registry.entries[k].state, now_ms);
            assert(registry.entries@ =~= decayed_at(before, k as int, now_ms));
            if duration::shorter(&delay, &t.config.heavy_throttle_threshold) {
                return true;
            }
        }
        next += 1;
    }
    false
}

/// Finds the next attempt to make, from `attempt` on, and the delay before it.
fn find_next(
    t: &LoadBalancedTransport,
    registry: &mut ThrottleRegistry,
    bytes: usize,
    start: usize,
    attempt: usize,
    now_ms: u64,
) -> (found: Option<(usize, Duration)>)
    requires
        t.well_formed(),
        t.registered_in(*old(registry)),
        start < t.size(),
        attempt <= t.size(),
        next_defined(
            *t,
            bytes,
            start as int,
            attempt as int,
            old(registry).entries@,
            now_ms,
        ),
    ensures
        ({
            let (expected, entries) = next_try(
                *t,
                bytes,
                start as int,
                attempt as int,
                old(registry).entries@,
                now_ms,
            );
            &&& final(registry).entries@ == entries
            &&& match found {
                Some((a, delay)) => expected == Some((a as int, duration::nanos(delay))),
                None => expected is None,
            }
        }),
        found matches Some((a, _)) ==> {
            &&& attempt <= a < t.size()
            &&& eligible(*t, bytes, start as int, a as int)
        },
        final(registry).default_config == old(registry).default_config,
        kept(old(registry).entries@, final(registry).entries@),
{
    let n: usize = t.urls.len();
    let mut next: usize = attempt;
    while next < n
        invariant
            attempt <= next <= n,
            n == t.size(),
            t.well_formed(),
            t.registered_in(*registry),
            start < n,
            next_defined(*t, bytes, start as int, next as int, registry.entries@, now_ms),
            kept(old(registry).entries@, registry.entries@),
            registry.default_config == old(registry).default_config,
            next_try(*t, bytes, start as int, next as int, registry.entries@, now_ms) == next_try(
                *t,
                bytes,
                start as int,
                attempt as int,
                old(registry).entries@,
                now_ms,
            ),
        decreases n - next,
    {
        let idx: usize = endpoint_at(t, start, next);
        if t.endpoint_accepts_request(idx, bytes) {
            let ghost before = registry.entries@;
            let k: usize = t.endpoint_throttles[idx];
            let delay = pre_request_delay_at(&mut registry.entries[k].state, now_ms);
            assert(registry.entries@ =~= decayed_at(before, k as int, now_ms));
            let remains = find_alternative(t, registry, bytes, start, next + 1, now_ms);
            if !duration::shorter(&delay, &t.config.heavy_throttle_threshold) && remains {
                let ghost looked = registry.entries@;
                record_skip(&mut registry.entries[k].state);
                assert(registry.entries@ =~= skipped_at(looked, k as int));
            } else {
                return Some((next, delay));
            }
        }
        next += 1;
    }
    None
}

/// While an eligible attempt is left, one is found.
pub proof fn lemma_eligible_is_tried(
    t: LoadBalancedTransport,
    bytes: usize,
    start: int,
    attempt: int,
    entries: Seq<DomainEntry>,
    now: u64,
    witness: int,
)
    requires
        attempt <= witness < t.size(),
        eligible(t, bytes, start, witness),
    ensures
        next_try(t, bytes, start, attempt, entries, now).0 is Some,
    decreases t.size() - attempt,
{
    if !eligible(t, bytes, start, attempt) {
        lemma_eligible_is_tried(t, bytes, start, attempt + 1, entries, now, witness);
    } else {
        let k = throttle_of(t, start, attempt);
        let current = decayed_at(entries, k, now);
        let (remains, looked) = alternative(t, bytes, start, attempt + 1, current, now);
        if remains {
            let next = lemma_alternative_is_eligible(t, bytes, start, attempt + 1, current, now);
            lemma_eligible_is_tried(
                t,
                bytes,
                start,
                attempt + 1,
                skipped_at(looked, k),
                now,
                next,
            );
        }
    }
}

/// An alternative is an eligible attempt.
proof fn lemma_alternative_is_eligible(
    t: LoadBalancedTransport,
    bytes: usize,
    start: int,
    attempt: int,
    entries: Seq<DomainEntry>,
    now: u64,
) -> (next: int)
    requires
        alternative(t, bytes, start, attempt, entries, now).0,
    ensures
        attempt <= next < t.size(),
        eligible(t, bytes, start, next),
    decreases t.size() - attempt,
{
    if !eligible(t, bytes, start, attempt) {
        lemma_alternative_is_eligible(t, bytes, start, attempt + 1, entries, now)
    } else {
        let k = throttle_of(t, start, attempt);
        let current = decayed_at(entries, k, now);
        if lightly_throttled(t, current[k].state.delay_nanos()) {
            attempt
        } else {
            lemma_alternative_is_eligible(t, bytes, start, attempt + 1, current, now)
        }
    }
}

/// Where the states of all endpoints can decay, every decay that the search computes is defined.
proof fn lemma_search_defined(
    t: LoadBalancedTransport,
    bytes: usize,
    start: int,
    attempt: int,
    entries: Seq<DomainEntry>,
    now: u64,
)
    requires
        t.well_formed(),
        endpoints_stand(t, entries.len()),
        endpoints_decay(t, entries),
    ensures
        next_defined(t, bytes, start, attempt, entries, now),
        alternative_defined(t, bytes, start, attempt, entries, now),
        endpoints_decay(t, alternative(t, bytes, start, attempt, entries, now).1),
        alternative(t, bytes, start, attempt, entries, now).1.len() == entries.len(),
    decreases t.size() - attempt,
{
    if attempt < t.size() {
        if !eligible(t, bytes, start, attempt) {
            lemma_search_defined(t, bytes, start, attempt + 1, entries, now);
        } else {
            let idx = endpoint_of(t, start, attempt);
            vstd::arithmetic::div_mod::lemma_mod_bound(start + attempt, t.size() as int);
            let k = throttle_of(t, start, attempt);
            assert(entries[t.endpoint_throttles@[idx] as int].state.decay_defined());
            let current = decayed_at(entries, k, now);
            assert(endpoints_decay(t, current)) by {
                assert forall|i: int| 0 <= i < t.endpoint_throttles@.len() implies current[(
                #[trigger] t.endpoint_throttles@[i]) as int].state.decay_defined() by {
                    assert(entries[t.endpoint_throttles@[i] as int].state.decay_defined());
                }
            }
            lemma_search_defined(t, bytes, start, attempt + 1, current, now);
            let looked = alternative(t, bytes, start, attempt + 1, current, now).1;
            let skipped = skipped_at(looked, k);
            assert(endpoints_decay(t, skipped)) by {
                assert forall|i: int| 0 <= i < t.endpoint_throttles@.len() implies skipped[(
                #[trigger] t.endpoint_throttles@[i]) as int].state.decay_defined() by {
                    assert(looked[t.endpoint_throttles@[i] as int].state.decay_defined());
                }
            }
            lemma_search_defined(t, bytes, start, attempt + 1, skipped, now);
        }
    }
}

/// Where the states of all endpoints can decay, calls can begin, and go on after any event.
pub proof fn law_decaying_endpoints_suffice<R, E>(
    call: CallState<E>,
    t: LoadBalancedTransport,
    entries: Seq<DomainEntry>,
    bytes: usize,
    event: Event<R, E>,
    now: u64,
)
    requires
        t.well_formed(),
        endpoints_stand(t, entries.len()),
        endpoints_decay(t, entries),
    ensures
        round_defined(t, bytes, entries, now),
        call.defined(t, entries, event, now),
{
    let next = LoadBalancedTransport { counter: throttle::counted(t.counter), ..t };
    let start = t.selected(t.counter as int);
    lemma_search_defined(next, bytes, start, 0, entries, now);
    lemma_search_defined(next, call.request_bytes, start, 0, entries, now);
    lemma_search_defined(
        t,
        call.request_bytes,
        call.start_idx,
        call.attempt + 1,
        entries,
        now,
    );
}

/// Every endpoint has its attempt, wherever the round starts.
proof fn lemma_attempt_of(t: LoadBalancedTransport, start: int, endpoint: int) -> (attempt: int)
    requires
        0 <= start < t.size(),
        0 <= endpoint < t.size(),
    ensures
        0 <= attempt < t.size(),
        endpoint_of(t, start, attempt) == endpoint,
{
    let n = t.size() as int;
    if start <= endpoint {
        vstd::arithmetic::div_mod::lemma_small_mod(endpoint as nat, n as nat);
        endpoint - start
    } else {
        vstd::arithmetic::div_mod::lemma_small_mod(endpoint as nat, n as nat);
        vstd::arithmetic::div_mod::lemma_mod_add_multiples_vanish(endpoint, n);
        endpoint - start + n
    }
}

impl<E> Call<E> {
    /// Approaches the current endpoint.
    fn launch<R>(
        &mut self,
        t: &LoadBalancedTransport,
        Ghost(entries): Ghost<Seq<DomainEntry>>,
    ) -> (action: Action<R, E>)
        requires
            t.well_formed(),
            old(self).start_idx < t.size(),
            old(self).attempt < t.size(),
        ensures
            ({
                let outcome = old(self)@.launched::<R>(*t, entries);
                &&& final(self)@ == outcome.call
                &&& action@ == outcome.directive
            }),
    {
        let idx: usize = endpoint_at(t, self.start_idx, self.attempt);
        if t.endpoint_in_flight[idx].is_some() {
            self.phase = Phase::Acquiring;
            Action::Acquire(idx)
        } else {
            self.phase = Phase::InFlight;
            Action::Send(idx)
        }
    }

    /// Goes on with the round at the given attempt.
    fn rotate<R>(
        &mut self,
        t: &LoadBalancedTransport,
        registry: &mut ThrottleRegistry,
        attempt: usize,
        now_ms: u64,
    ) -> (action: Action<R, E>)
        requires
            t.well_formed(),
            t.registered_in(*old(registry)),
            next_defined(
                *t,
                old(self).request_bytes,
                old(self).start_idx as int,
                attempt as int,
                old(registry).entries@,
                now_ms,
            ),
            old(self).start_idx < t.size(),
            old(self).round <= t.config.max_retry_rounds,
            attempt <= t.size(),
            acceptable(*t, old(self).request_bytes),
            old(self).last_err is Some || attempt == 0,
        ensures
            ({
                let outcome = old(self)@.rotated::<R>(
                    *t,
                    attempt as int,
                    old(registry).entries@,
                    now_ms,
                );
                &&& final(self)@ == outcome.call
                &&& final(registry).entries@ == outcome.entries
                &&& action@ == outcome.directive
            }),
            final(self).phase != Phase::Finished ==> final(self)@.fits(*t),
            final(registry).default_config == old(registry).default_config,
            kept(old(registry).entries@, final(registry).entries@),
    {
        proof {
            if attempt == 0 {
                let a = choose|a: int|
                    0 <= a < t.size() && #[trigger] t.accepts(a, self.request_bytes);
                let witness = lemma_attempt_of(*t, self.start_idx as int, a);
                lemma_eligible_is_tried(
                    *t,
                    self.request_bytes,
                    self.start_idx as int,
                    0,
                    registry.entries@,
                    now_ms,
                    witness,
                );
            }
        }
        match find_next(t, registry, self.request_bytes, self.start_idx, attempt, now_ms) {
            Some((next, delay)) => {
                self.attempt = next;
                if duration::is_zero(&delay) {
                    self.launch(t, Ghost(registry.entries@))
                } else {
                    self.phase = Phase::Delaying;
                    Action::Sleep(delay)
                }
            },
            None => {
                if self.round == t.config.max_retry_rounds {
                    self.phase = Phase::Finished;
                    let last = self.last_err.take();
                    Action::Fail(last.unwrap())
                } else {
                    let pause = self.backoff;
                    let doubled = pause.saturating_mul(2);
                    self.backoff = shortest(doubled, t.config.max_backoff);
                    self.round = self.round + 1;
                    self.phase = Phase::BetweenRounds;
                    Action::Sleep(pause)
                }
            },
        }
    }

    /// Begins a round.
    fn begin_round<R>(
        &mut self,
        t: &mut LoadBalancedTransport,
        registry: &mut ThrottleRegistry,
        now_ms: u64,
    ) -> (action: Action<R, E>)
        requires
            old(t).well_formed(),
            old(t).registered_in(*old(registry)),
            round_defined(
                *old(t),
                old(self).request_bytes,
                old(registry).entries@,
                now_ms,
            ),
            old(self).round <= old(t).config.max_retry_rounds,
            acceptable(*old(t), old(self).request_bytes),
        ensures
            ({
                let outcome = old(self)@.round_begun::<R>(
                    *old(t),
                    old(registry).entries@,
                    now_ms,
                );
                &&& final(self)@ == outcome.call
                &&& final(t).counter == outcome.counter
                &&& final(registry).entries@ == outcome.entries
                &&& action@ == outcome.directive
            }),
            *final(t) == (LoadBalancedTransport { counter: final(t).counter, ..*old(t) }),
            final(self).phase != Phase::Finished ==> final(self)@.fits(*final(t)),
            final(registry).default_config == old(registry).default_config,
            kept(old(registry).entries@, final(registry).entries@),
    {
        self.start_idx = t.select_endpoint();
        self.last_err = None;
        proof {
            let i = choose|i: int|
                0 <= i < old(t).size() && #[trigger] old(t).accepts(i, self.request_bytes);
            assert(t.accepts(i, self.request_bytes));
        }
        self.rotate(t, registry, 0, now_ms)
    }

    /// Begins a call with a request of that many bytes at time `now_ms`.
    ///
    /// A request that is too large for every endpoint is rejected at once. Otherwise the first
    /// round of the rotation begins.
    pub fn begin<R>(
        t: &mut LoadBalancedTransport,
        registry: &mut ThrottleRegistry,
        request_bytes: usize,
        now_ms: u64,
    ) -> (r: (Call<E>, Action<R, E>))
        requires
            old(t).well_formed(),
            old(t).registered_in(*old(registry)),
            old(registry).well_formed(),
            acceptable(*old(t), request_bytes) ==> round_defined(
                *old(t),
                request_bytes,
                old(registry).entries@,
                now_ms,
            ),
        ensures
            ({
                let outcome = begun::<R, E>(
                    *old(t),
                    old(registry).entries@,
                    request_bytes,
                    now_ms,
                );
                &&& r.0@ == outcome.call
                &&& r.1@ == outcome.directive
                &&& final(t).counter == outcome.counter
                &&& final(registry).entries@ == outcome.entries
            }),
            *final(t) == (LoadBalancedTransport { counter: final(t).counter, ..*old(t) }),
            final(registry).default_config == old(registry).default_config,
            final(registry).well_formed(),
            kept(old(registry).entries@, final(registry).entries@),
            r.0.phase != Phase::Finished ==> r.0@.fits(*final(t)),
    {
        let mut call: Call<E> = Call {
            request_bytes,
            round: 0,
            backoff: shortest(t.config.initial_backoff, t.config.max_backoff),
            start_idx: 0,
            attempt: 0,
            phase: Phase::BetweenRounds,
            last_err: None,
        };
        if accepted_anywhere(t, request_bytes) {
            let action = call.begin_round(t, registry, now_ms);
            proof {
                lemma_kept_well_formed(*old(registry), *registry);
            }
            return (call, action);
        }
        call.phase = Phase::Finished;
        (call, Action::Reject(Rejection::TooLarge))
    }

    /// Goes on after an event that came at time `now_ms`.
    pub fn step<R>(
        &mut self,
        t: &mut LoadBalancedTransport,
        registry: &mut ThrottleRegistry,
        event: Event<R, E>,
        now_ms: u64,
    ) -> (action: Action<R, E>)
        requires
            old(t).well_formed(),
            old(t).registered_in(*old(registry)),
            old(registry).well_formed(),
            old(self)@.defined(*old(t), old(registry).entries@, event, now_ms),
            old(self)@.fits(*old(t)),
            awaited(old(self).phase, event),
        ensures
            ({
                let outcome = old(self)@.after(*old(t), old(registry).entries@, event, now_ms);
                &&& final(self)@ == outcome.call
                &&& action@ == outcome.directive
                &&& final(t).counter == outcome.counter
                &&& final(registry).entries@ == outcome.entries
            }),
            *final(t) == (LoadBalancedTransport { counter: final(t).counter, ..*old(t) }),
            final(registry).default_config == old(registry).default_config,
            final(registry).well_formed(),
            kept(old(registry).entries@, final(registry).entries@),
            final(self).phase != Phase::Finished ==> final(self)@.fits(*final(t)),
    {
        let action = self.react(t, registry, event, now_ms);
        proof {
            lemma_kept_well_formed(*old(registry), *registry);
        }
        action
    }

    /// Goes on after an event; the registry keeps its entries.
    fn react<R>(
        &mut self,
        t: &mut LoadBalancedTransport,
        registry: &mut ThrottleRegistry,
        event: Event<R, E>,
        now_ms: u64,
    ) -> (action: Action<R, E>)
        requires
            old(t).well_formed(),
            old(t).registered_in(*old(registry)),
            old(registry).well_formed(),
            old(self)@.defined(*old(t), old(registry).entries@, event, now_ms),
            old(self)@.fits(*old(t)),
            awaited(old(self).phase, event),
        ensures
            ({
                let outcome = old(self)@.after(*old(t), old(registry).entries@, event, now_ms);
                &&& final(self)@ == outcome.call
                &&& action@ == outcome.directive
                &&& final(t).counter == outcome.counter
                &&& final(registry).entries@ == outcome.entries
            }),
            *final(t) == (LoadBalancedTransport { counter: final(t).counter, ..*old(t) }),
            final(registry).default_config == old(registry).default_config,
            kept(old(registry).entries@, final(registry).entries@),
            final(self).phase != Phase::Finished ==> final(self)@.fits(*final(t)),
    {
        let n: usize = t.urls.len();
        match event {
            Event::Elapsed => {
                match self.phase {
                    Phase::BetweenRounds => self.begin_round(t, registry, now_ms),
                    Phase::Pausing => self.rotate(t, registry, self.attempt + 1, now_ms),
                    _ => self.launch(t, Ghost(registry.entries@)),
                }
            },
            Event::PermitGranted => {
                self.phase = Phase::InFlight;
                Action::Send(endpoint_at(t, self.start_idx, self.attempt))
            },
            Event::PermitClosed => {
                self.phase = Phase::Finished;
                self.last_err = None;
                Action::Reject(Rejection::BackendGone)
            },
            Event::Responded(response) => {
                let idx: usize = endpoint_at(t, self.start_idx, self.attempt);
                let k: usize = t.endpoint_throttles[idx];
                record_success(&mut registry.entries[k].state);
                self.phase = Phase::Finished;
                self.last_err = None;
                Action::Return(response)
            },
            Event::Failed { error, carried } => {
                if !error.is_retryable() {
                    self.phase = Phase::Finished;
                    self.last_err = None;
                    return Action::Fail(carried);
                }
                self.last_err = Some(carried);
                if error.is_rate_limit() {
                    let idx: usize = endpoint_at(t, self.start_idx, self.attempt);
                    let k: usize = t.endpoint_throttles[idx];
                    record_rate_limit_at(&mut registry.entries[k].state, now_ms);
                    if self.attempt < n - 1 {
                        self.phase = Phase::Pausing;
                        return Action::Sleep(t.config.rate_limit_failover_delay);
                    }
                }
                self.rotate(t, registry, self.attempt + 1, now_ms)
            },
        }
    }
}

} // verus!
