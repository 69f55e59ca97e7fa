//! Transparent JSON-RPC request batching.
//!
//! A [`BatchingTransport`] accumulates individual requests. They are due for sending when either
//! `max_batch_size` of them are waiting, or `flush_interval` has elapsed since the first; they are
//! then sent in batches of at most `max_batch_size`.
use crate::duration;
use crate::error::TransportError;
use crate::packet;
use crate::packet::{Id, Response, ResponsePacket};
use std::time::Duration;
use vstd::prelude::*;

verus! {

/// Configuration for request accumulation and the retry of missing responses.
#[derive(Debug)]
pub struct BatchingConfig {
    /// Maximum number of requests to accumulate before flushing. Default: 150.
    pub max_batch_size: usize,
    /// Maximum time to wait for more requests before flushing. Default: 1ms.
    pub flush_interval: Duration,
    /// Maximum retry attempts when the response to a batch is missing entries.
    /// Attempt 0 = initial batch, attempts 1..N-1 = retry as batch,
    /// attempt N = retry each remaining request individually. Default: 2.
    pub max_missing_retries: usize,
}

impl BatchingConfig {
    /// The configuration is the default one.
    pub open spec fn is_default(self) -> bool {
        &&& self.max_batch_size == 150
        &&& duration::nanos(self.flush_interval) == duration::millis(1)
        &&& self.max_missing_retries == 2
    }
}

impl Default for BatchingConfig {
    fn default() -> (config: Self)
        ensures
            config.is_default(),
    {
        BatchingConfig {
            max_batch_size: 150,
            flush_interval: Duration::from_millis(1),
            max_missing_retries: 2,
        }
    }
}

impl Clone for BatchingConfig {
    fn clone(&self) -> (config: Self)
        ensures
            config == *self,
    {
        BatchingConfig {
            max_batch_size: self.max_batch_size,
            flush_interval: self.flush_interval,
            max_missing_retries: self.max_missing_retries,
        }
    }
}

/// A request waiting for its response.
#[derive(Debug)]
pub struct PendingRequest<R, T> {
    /// The request's id.
    pub id: Id,
    /// The request.
    pub request: R,
    /// Where its response goes.
    pub tx: T,
}

/// The configuration was refused: `max_batch_size` is zero, so that no batch could hold a request.
#[derive(Clone, Copy, Debug, PartialEq, Eq, Structural)]
pub struct ZeroBatchSize;

/// Requests on their way out.
#[derive(Debug)]
pub enum Flush<R, T> {
    /// A request to be sent on its own, without the overhead of a batch.
    Single(PendingRequest<R, T>),
    /// Several requests to be sent as a batch.
    Batch(Vec<PendingRequest<R, T>>),
}

/// The requests that are sent together, in order.
pub open spec fn requests_of<R, T>(flush: Flush<R, T>) -> Seq<PendingRequest<R, T>> {
    match flush {
        Flush::Single(pending) => seq![pending],
        Flush::Batch(batch) => batch@,
    }
}

/// Accumulates individual requests into batches.
#[derive(Debug)]
pub struct BatchingTransport<R, T> {
    /// The requests that are waiting, in the order in which they came.
    pub pending: Vec<PendingRequest<R, T>>,
    /// When the first of them came.
    pub first_at: Duration,
    /// Batch size, flush timing, and retries.
    pub config: BatchingConfig,
}

/// The requests in chunks of `max`; the last chunk holds what is left over.
pub open spec fn chunks<A>(requests: Seq<A>, max: nat) -> Seq<Seq<A>>
    decreases requests.len(),
{
    if requests.len() == 0 || max == 0 {
        Seq::empty()
    } else if requests.len() <= max {
        seq![requests]
    } else {
        seq![requests.take(max as int)] + chunks(requests.skip(max as int), max)
    }
}

impl<R, T> BatchingTransport<R, T> {
    /// Batches can hold requests.
    pub open spec fn well_formed(self) -> bool {
        self.config.max_batch_size > 0
    }

    /// The requests fill a batch.
    pub open spec fn full(self) -> bool {
        self.pending@.len() >= self.config.max_batch_size
    }

    /// How long the first request has waited at time `now`, in nanoseconds.
    pub open spec fn waited(self, now: Duration) -> nat {
        if duration::nanos(now) >= duration::nanos(self.first_at) {
            (duration::nanos(now) - duration::nanos(self.first_at)) as nat
        } else {
            0
        }
    }

    /// The requests are to be sent: there are some, and they fill a batch or have waited long
    /// enough.
    pub open spec fn due(self, now: Duration) -> bool {
        &&& self.pending@.len() > 0
        &&& self.full() || self.waited(now) >= duration::nanos(self.config.flush_interval)
    }

    /// How long the requests still have to wait at time `now`, in nanoseconds.
    pub open spec fn time_left(self, now: Duration) -> nat {
        let interval = duration::nanos(self.config.flush_interval);
        if self.full() || self.waited(now) >= interval {
            0
        } else {
            (interval - self.waited(now)) as nat
        }
    }

    /// Create a transport without waiting requests. A batch size of zero is refused.
    pub fn new(config: BatchingConfig) -> (r: Result<Self, ZeroBatchSize>)
        ensures
            r is Err <==> config.max_batch_size == 0,
            r matches Ok(transport) ==> {
                &&& transport.pending@.len() == 0
                &&& transport.config == config
                &&& transport.well_formed()
            },
    {
        if config.max_batch_size == 0 {
            return Err(ZeroBatchSize);
        }
        Ok(BatchingTransport { pending: Vec::new(), first_at: Duration::from_millis(0), config })
    }

    /// Queue a request that comes at time `now`.
    ///
    /// Returns whether the task that sends the requests has to be woken: at the first request, to
    /// begin waiting, and as soon as they fill a batch, to send them.
    pub fn enqueue(&mut self, request: PendingRequest<R, T>, now: Duration) -> (wake: bool)
        ensures
            final(self).pending@ == old(self).pending@.push(request),
            final(self).first_at == if old(self).pending@.len() == 0 {
                now
            } else {
                old(self).first_at
            },
            final(self).config == old(self).config,
            wake == (old(self).pending@.len() == 0 || final(self).full()),
    {
        let first = self.pending.len() == 0;
        if first {
            self.first_at = now;
        }
        self.pending.push(request);
        first || self.pending.len() >= self.config.max_batch_size
    }

    /// Queue the requests of a batch, which come at time `now`, as individual ones, so that they
    /// merge with other concurrent requests.
    ///
    /// Returns whether the task that sends the requests has to be woken.
    pub fn enqueue_all(&mut self, requests: Vec<PendingRequest<R, T>>, now: Duration) -> (wake: bool)
        ensures
            final(self).pending@ == old(self).pending@ + requests@,
            final(self).first_at == if old(self).pending@.len() == 0 && requests@.len() > 0 {
                now
            } else {
                old(self).first_at
            },
            final(self).config == old(self).config,
            wake == (requests@.len() > 0 && (old(self).pending@.len() == 0
                || final(self).full())),
    {
        let mut requests = requests;
        if requests.len() == 0 {
            assert(self.pending@ =~= old(self).pending@ + requests@);
            return false;
        }
        let first = self.pending.len() == 0;
        if first {
            self.first_at = now;
        }
        self.pending.append(&mut requests);
        first || self.pending.len() >= self.config.max_batch_size
    }

    /// How long to wait at time `now` before the requests are due; nothing while there are none.
    pub fn flush_wait(&self, now: Duration) -> (wait: Option<Duration>)
        ensures
            match wait {
                Some(wait) => {
                    &&& self.pending@.len() > 0
                    &&& duration::nanos(wait) == self.time_left(now)
                },
                None => self.pending@.len() == 0,
            },
    {
        if self.pending.len() == 0 {
            return None;
        }
        if self.pending.len() >= self.config.max_batch_size {
            return Some(Duration::from_millis(0));
        }
        let waited = now.saturating_sub(self.first_at);
        Some(self.config.flush_interval.saturating_sub(waited))
    }

    /// Take the requests out at time `now`, if they are due, in chunks of `max_batch_size`.
    pub fn flush(&mut self, now: Duration) -> (flushed: Vec<Flush<R, T>>)
        requires
            old(self).well_formed(),
        ensures
            final(self).config == old(self).config,
            final(self).first_at == old(self).first_at,
            if old(self).due(now) {
                let parts = chunks(old(self).pending@, old(self).config.max_batch_size as nat);
                &&& final(self).pending@.len() == 0
                &&& flushed@.len() == parts.len()
                &&& forall|i: int|
                    #![trigger flushed@[i]]
                    0 <= i < parts.len() ==> carries(flushed@[i], parts[i])
            } else {
                &&& final(self).pending@ == old(self).pending@
                &&& flushed@.len() == 0
            },
    {
        let mut flushed: Vec<Flush<R, T>> = Vec::new();
        match self.flush_wait(now) {
            Some(wait) => {
                if !duration::is_zero(&wait) {
                    return flushed;
                }
            },
            None => {
                return flushed;
            },
        }
        let max: usize = self.config.max_batch_size;
        let mut remaining = self.pending.split_off(0);
        assert(remaining@ =~= old(self).pending@);
        let ghost parts = chunks(remaining@, max as nat);
        let ghost mut done: Seq<Seq<PendingRequest<R, T>>> = Seq::empty();
        assert(done + parts =~= parts);
        while remaining.len() > max
            invariant
                max > 0,
                remaining@.len() > 0,
                parts == done + chunks(remaining@, max as nat),
                done.len() == flushed@.len(),
                forall|i: int| #![trigger flushed@[i]] 0 <= i < done.len() ==> carries(
                    flushed@[i],
                    done[i],
                ),
            decreases remaining@.len(),
        {
            let rest = remaining.split_off(max);
            proof {
                let whole = remaining@ + rest@;
                assert(whole.take(max as int) =~= remaining@);
                assert(whole.skip(max as int) =~= rest@);
                assert(done + (seq![remaining@] + chunks(rest@, max as nat)) =~= done.push(
                    remaining@,
                ) + chunks(rest@, max as nat));
                done = done.push(remaining@);
            }
            flushed.push(packed(remaining));
            remaining = rest;
        }
        proof {
            done = done.push(remaining@);
            assert(parts =~= done);
        }
        flushed.push(packed(remaining));
        flushed
    }
}

/// The requests are sent together: as a batch, unless there is only one.
pub open spec fn carries<R, T>(flush: Flush<R, T>, requests: Seq<PendingRequest<R, T>>) -> bool {
    &&& requests_of(flush) == requests
    &&& flush is Single <==> requests.len() == 1
}

/// Makes the requests ready to be sent together.
fn packed<R, T>(requests: Vec<PendingRequest<R, T>>) -> (flush: Flush<R, T>)
    ensures
        carries(flush, requests@),
{
    let mut requests = requests;
    if requests.len() == 1 {
        let ghost before = requests@;
        let request = requests.swap_remove(0);
        assert(seq![request] =~= before);
        Flush::Single(request)
    } else {
        Flush::Batch(requests)
    }
}

/// What came back for a request.
#[derive(Debug)]
pub enum Reply<P, E> {
    /// It was answered.
    Answered(ResponsePacket<P>),
    /// It failed.
    Failed(E),
    /// Nothing will come any more.
    Dropped,
}

/// Message of the error of a request that is left without a response.
pub const MISSING_RESPONSE: &'static str = "missing response in batch";

/// Why a request has no response.
#[derive(Debug)]
pub enum ReplyError<E> {
    /// It failed.
    Failed(E),
    /// Nothing will come any more.
    BackendGone,
    /// It was answered, but not with a response to it.
    Missing,
}

impl<E> ReplyError<E> {
    /// The error to report, unless the request failed with one of its own.
    pub fn error(&self) -> (err: Option<TransportError>)
        ensures
            match *self {
                ReplyError::Failed(_) => err is None,
                ReplyError::BackendGone => err == Some(TransportError::BackendGone),
                ReplyError::Missing => err matches Some(TransportError::Custom(m)) && m@
                    == MISSING_RESPONSE@,
            },
    {
        match self {
            ReplyError::Failed(_) => None,
            ReplyError::BackendGone => Some(TransportError::backend_gone()),
            ReplyError::Missing => Some(TransportError::custom_str(MISSING_RESPONSE)),
        }
    }
}

/// The response to a single request that was queued.
pub fn single_response<P, E>(reply: Reply<P, E>) -> (r: Result<ResponsePacket<P>, ReplyError<E>>)
    ensures
        r == match reply {
            Reply::Answered(packet) => Ok::<_, ReplyError<E>>(packet),
            Reply::Failed(err) => Err(ReplyError::Failed(err)),
            Reply::Dropped => Err(ReplyError::BackendGone),
        },
{
    match reply {
        Reply::Answered(packet) => Ok(packet),
        Reply::Failed(err) => Err(ReplyError::Failed(err)),
        Reply::Dropped => Err(ReplyError::BackendGone),
    }
}

/// Adds what came back for one request of a batch to the batch's responses. The first request
/// without a response ends the batch with its error.
fn collect_response<P, E>(
    responses: &mut Vec<Response<P>>,
    reply: Reply<P, E>,
) -> (r: Result<(), ReplyError<E>>)
    ensures
        match reply {
            Reply::Answered(packet) => {
                &&& r is Ok
                &&& final(responses)@ == old(responses)@ + packet::responses_of(packet)
            },
            Reply::Failed(err) => {
                &&& r == Err::<(), _>(ReplyError::Failed(err))
                &&& final(responses)@ == old(responses)@
            },
            Reply::Dropped => {
                &&& r == Err::<(), _>(ReplyError::<E>::BackendGone)
                &&& final(responses)@ == old(responses)@
            },
        },
{
    match reply {
        Reply::Answered(packet) => {
            let mut more = packet.into_responses();
            responses.append(&mut more);
            Ok(())
        },
        Reply::Failed(err) => Err(ReplyError::Failed(err)),
        Reply::Dropped => Err(ReplyError::BackendGone),
    }
}

/// The error of a reply that brings no response.
pub open spec fn failure_of<P, E>(reply: Reply<P, E>) -> ReplyError<E> {
    match reply {
        Reply::Failed(err) => ReplyError::Failed(err),
        _ => ReplyError::BackendGone,
    }
}

/// Position of the first reply that brings no response; the number of replies when there is none.
pub open spec fn first_failure<P, E>(replies: Seq<Reply<P, E>>) -> int
    decreases replies.len(),
{
    if replies.len() == 0 || !(replies[0] is Answered) {
        0
    } else {
        1 + first_failure(replies.skip(1))
    }
}

/// The responses of the answers, one after the other.
pub open spec fn joined<P, E>(replies: Seq<Reply<P, E>>) -> Seq<Response<P>>
    decreases replies.len(),
{
    if replies.len() == 0 {
        Seq::empty()
    } else {
        joined(replies.drop_last()) + match replies.last() {
            Reply::Answered(packet) => packet::responses_of(packet),
            _ => Seq::empty(),
        }
    }
}

/// The first failure is where it is, behind answers only.
pub proof fn lemma_first_failure<P, E>(replies: Seq<Reply<P, E>>, at: int)
    requires
        0 <= at <= replies.len(),
        forall|i: int| 0 <= i < at ==> (#[trigger] replies[i]) is Answered,
        at < replies.len() ==> !(replies[at] is Answered),
    ensures
        first_failure(replies) == at,
    decreases at,
{
    if at > 0 {
        let rest = replies.skip(1);
        assert(replies[0] is Answered);
        assert forall|i: int| 0 <= i < at - 1 implies (#[trigger] rest[i]) is Answered by {
            assert(rest[i] == replies[i + 1]);
        }
        if at < replies.len() {
            assert(rest[at - 1] == replies[at]);
        }
        lemma_first_failure(rest, at - 1);
    }
}

/// The response to a batch, of which the replies to its requests are given in the order of the
/// requests: a batch of all their responses in that order, however many there are, or the error
/// of the first request without a response. Replies behind that one do not matter, and need not
/// be waited for.
pub fn batch_response<P, E>(replies: Vec<Reply<P, E>>) -> (r: Result<
    ResponsePacket<P>,
    ReplyError<E>,
>)
    ensures
        ({
            let at = first_failure(replies@);
            if at == replies@.len() {
                r matches Ok(ResponsePacket::Batch(responses)) && responses@ == joined(replies@)
            } else {
                &&& 0 <= at < replies@.len()
                &&& r == Err::<ResponsePacket<P>, _>(failure_of(replies@[at]))
            }
        }),
{
    let ghost all = replies@;
    let mut responses: Vec<Response<P>> = Vec::new();
    proof {
        assert(all.take(0) =~= Seq::empty());
    }
    for reply in it: replies
        invariant
            it.seq() == all,
            all == replies@,
            responses@ == joined(all.take(it.index() as int)),
            forall|i: int| 0 <= i < it.index() ==> (#[trigger] all[i]) is Answered,
    {
        let ghost n = it.index() as int;
        proof {
            assert(all[n] == reply);
            assert(all.take(n + 1).drop_last() =~= all.take(n));
            assert(all.take(n + 1).last() == reply);
        }
        match collect_response(&mut responses, reply) {
            Ok(()) => {},
            Err(err) => {
                proof {
                    lemma_first_failure(all, n);
                }
                return Err(err);
            },
        }
    }
    proof {
        assert(all.take(all.len() as int) =~= all);
        lemma_first_failure(all, all.len() as int);
    }
    Ok(ResponsePacket::Batch(responses))
}

} // verus!
