//! Batches whose responses may be missing.
//!
//! Some providers silently omit responses to requests of a batch. Those requests are retried,
//! first in smaller batches, and in the end each on its own. A [`BatchRetry`] decides; its owner
//! sends what it asks for and hands back what came of it.
use crate::batching::{PendingRequest, Reply, ReplyError};
use crate::error::TransportError;
use crate::packet;
use crate::packet::{Id, IdView, Response, ResponsePacket};
use vstd::prelude::*;
use vstd::string::StringExecFns;

verus! {

/// Maximum concurrent individual requests when falling back from a rejected batch.
/// Prevents DNS exhaustion and connection pool saturation.
pub const INDIVIDUAL_FALLBACK_CONCURRENCY: usize = 10;

/// Message of the error of a request whose id another request of the batch repeats.
pub const DUPLICATE_ID: &'static str = "duplicate request ID in batch";

/// What the message of the error begins with when a batch fails as a whole.
pub const BATCH_FAILED: &'static str = "batch request failed: ";

/// What a waiting request is told.
#[derive(Debug)]
pub struct Answer<T, P> {
    /// Where it goes.
    pub tx: T,
    /// The response, or why there is none.
    pub result: Result<ResponsePacket<P>, TransportError>,
}

/// What to do next with a batch.
#[derive(Clone, Copy, Debug, PartialEq, Eq, Structural)]
pub enum BatchStep {
    /// Nothing; every request has its answer.
    Done,
    /// Send the outstanding requests as a batch.
    SendBatch,
    /// Send each outstanding request on its own.
    SendEach,
}

/// A batch of which some requests may still be without a response.
#[derive(Debug)]
pub struct BatchRetry<R, T> {
    /// The requests without a response.
    pub outstanding: Vec<PendingRequest<R, T>>,
    /// How often the batch has been sent and come back incomplete.
    pub attempt: usize,
    /// At this attempt, the outstanding requests are sent individually.
    pub max_retries: usize,
}

/// A later request repeats the id of the request at position `i`.
pub open spec fn repeated<R, T>(pending: Seq<PendingRequest<R, T>>, i: int) -> bool {
    exists|j: int| i < j < pending.len() && (#[trigger] pending[j]).id@ == pending[i].id@
}

/// Those of the first `n` requests whose ids no later request repeats.
pub open spec fn latest<R, T>(pending: Seq<PendingRequest<R, T>>, n: int) -> Seq<
    PendingRequest<R, T>,
>
    decreases n,
{
    if n <= 0 {
        Seq::empty()
    } else if repeated(pending, n - 1) {
        latest(pending, n - 1)
    } else {
        latest(pending, n - 1).push(pending[n - 1])
    }
}

/// Those of the first `n` requests whose ids a later request repeats.
pub open spec fn superseded<R, T>(pending: Seq<PendingRequest<R, T>>, n: int) -> Seq<
    PendingRequest<R, T>,
>
    decreases n,
{
    if n <= 0 {
        Seq::empty()
    } else if repeated(pending, n - 1) {
        superseded(pending, n - 1).push(pending[n - 1])
    } else {
        superseded(pending, n - 1)
    }
}

/// No id occurs twice.
pub open spec fn distinct<R, T>(pending: Seq<PendingRequest<R, T>>) -> bool {
    forall|i: int, j: int|
        #![trigger pending[i], pending[j]]
        0 <= i < j < pending.len() ==> pending[i].id@ != pending[j].id@
}

/// Position of the request with the given id; the number of requests when there is none.
pub open spec fn position_of<R, T>(pending: Seq<PendingRequest<R, T>>, id: IdView) -> int
    decreases pending.len(),
{
    if pending.len() == 0 || pending[0].id@ == id {
        0
    } else {
        1 + position_of(pending.skip(1), id)
    }
}

/// The requests that are left, and the responses with where they go, when the responses are
/// handed out one after the other, each to the request with its id. A response to no outstanding
/// request goes nowhere.
pub open spec fn handed_out<R, T, P>(
    pending: Seq<PendingRequest<R, T>>,
    responses: Seq<Response<P>>,
) -> (Seq<PendingRequest<R, T>>, Seq<(T, Response<P>)>)
    decreases responses.len(),
{
    if responses.len() == 0 {
        (pending, Seq::empty())
    } else {
        let (left, given) = handed_out(pending, responses.drop_last());
        let response = responses.last();
        let at = position_of(left, response.id@);
        if at < left.len() {
            (left.remove(at), given.push((left[at].tx, response)))
        } else {
            (left, given)
        }
    }
}

/// The answers carry the responses.
pub open spec fn answers_with<T, P>(
    answers: Seq<Answer<T, P>>,
    given: Seq<(T, Response<P>)>,
) -> bool {
    &&& answers.len() == given.len()
    &&& forall|i: int|
        #![trigger answers[i]]
        0 <= i < answers.len() ==> {
            &&& answers[i].tx == given[i].0
            &&& answers[i].result == Ok::<_, TransportError>(ResponsePacket::Single(given[i].1))
        }
}

/// `after` is the batch after the responses were handed out: a batch of which no request was
/// answered is rejected, and its requests are sent individually; one of which some are missing is
/// retried at the next attempt.
pub open spec fn responded<R, T, P>(
    before: BatchRetry<R, T>,
    responses: Seq<Response<P>>,
    after: BatchRetry<R, T>,
    answers: Seq<Answer<T, P>>,
    rejected: bool,
    step: BatchStep,
) -> bool {
    let (left, given) = handed_out(before.outstanding@, responses);
    &&& after.outstanding@ == left
    &&& after.max_retries == before.max_retries
    &&& answers_with(answers, given)
    &&& rejected == (left.len() > 0 && given.len() == 0)
    &&& after.attempt == if left.len() > 0 && given.len() > 0 {
        before.attempt + 1
    } else {
        before.attempt as int
    }
    &&& step == if rejected {
        BatchStep::SendEach
    } else {
        after.next_step()
    }
}

/// The answers tell each of the requests that it failed with the message.
pub open spec fn answers_failing<R, T, P>(
    answers: Seq<Answer<T, P>>,
    pending: Seq<PendingRequest<R, T>>,
    message: Seq<char>,
) -> bool {
    &&& answers.len() == pending.len()
    &&& forall|i: int|
        #![trigger answers[i]]
        0 <= i < answers.len() ==> {
            &&& answers[i].tx == pending[i].tx
            &&& answers[i].result matches Err(TransportError::Custom(m)) && m@ == message
        }
}

/// Whether a later request repeats the id of the request at position `i`.
fn is_repeated<R, T>(pending: &Vec<PendingRequest<R, T>>, i: usize) -> (r: bool)
    requires
        i < pending.len(),
    ensures
        r == repeated(pending@, i as int),
{
    let mut j: usize = i + 1;
    while j < pending.len()
        invariant
            i < j <= pending.len(),
            forall|k: int| i < k < j ==> (#[trigger] pending@[k]).id@ != pending@[i as int].id@,
        decreases pending.len() - j,
    {
        if pending[j].id.same(&pending[i].id) {
            return true;
        }
        j += 1;
    }
    false
}

/// Position of the request with the given id; the number of requests when there is none.
fn find_id<R, T>(pending: &Vec<PendingRequest<R, T>>, id: &Id) -> (at: usize)
    ensures
        at == position_of(pending@, id@),
        at <= pending@.len(),
{
    let mut at: usize = 0;
    proof {
        assert(pending@.skip(0) =~= pending@);
    }
    while at < pending.len()
        invariant
            at <= pending.len(),
            position_of(pending@, id@) == at + position_of(pending@.skip(at as int), id@),
        decreases pending.len() - at,
    {
        if pending[at].id.same(id) {
            return at;
        }
        proof {
            assert(pending@.skip(at as int).skip(1) =~= pending@.skip(at + 1));
        }
        at += 1;
    }
    at
}

/// The latest requests with their ids have distinct ones.
pub proof fn lemma_latest_distinct<R, T>(pending: Seq<PendingRequest<R, T>>, n: int)
    requires
        0 <= n <= pending.len(),
    ensures
        distinct(latest(pending, n)),
        forall|k: int|
            #![trigger latest(pending, n)[k]]
            0 <= k < latest(pending, n).len() ==> exists|i: int|
                0 <= i < n && #[trigger] pending[i] == latest(pending, n)[k] && !repeated(
                    pending,
                    i,
                ),
    decreases n,
{
    if n > 0 {
        lemma_latest_distinct(pending, n - 1);
        let before = latest(pending, n - 1);
        let after = latest(pending, n);
        if !repeated(pending, n - 1) {
            assert forall|k: int| 0 <= k < after.len() implies exists|i: int|
                0 <= i < n && #[trigger] pending[i] == (#[trigger] after[k]) && !repeated(
                    pending,
                    i,
                ) by {
                if k < before.len() {
                    assert(after[k] == before[k]);
                } else {
                    assert(after[k] == pending[n - 1]);
                }
            }
            assert forall|a: int, b: int|
                #![trigger after[a], after[b]]
                0 <= a < b < after.len() implies after[a].id@ != after[b].id@ by {
                assert(after[a] == before[a]);
                if b < before.len() {
                    assert(after[b] == before[b]);
                } else {
                    let i = choose|i: int|
                        0 <= i < n - 1 && #[trigger] pending[i] == before[a] && !repeated(
                            pending,
                            i,
                        );
                    assert(pending[n - 1].id@ != pending[i].id@);
                }
            }
        } else {
            assert forall|k: int| 0 <= k < after.len() implies exists|i: int|
                0 <= i < n && #[trigger] pending[i] == (#[trigger] after[k]) && !repeated(
                    pending,
                    i,
                ) by {
                assert(after[k] == before[k]);
            }
        }
    }
}

impl<R, T> BatchRetry<R, T> {
    /// What is to be done with the outstanding requests at the current attempt.
    pub open spec fn next_step(self) -> BatchStep {
        if self.outstanding@.len() == 0 {
            BatchStep::Done
        } else if self.attempt < self.max_retries {
            BatchStep::SendBatch
        } else {
            BatchStep::SendEach
        }
    }

    /// Takes a batch. Of requests with the same id only the latest stays; the earlier ones are
    /// told that their id is repeated.
    pub fn begin<P>(pending: Vec<PendingRequest<R, T>>, max_retries: usize) -> (r: (
        BatchRetry<R, T>,
        Vec<Answer<T, P>>,
        BatchStep,
    ))
        ensures
            r.0.outstanding@ == latest(pending@, pending@.len() as int),
            r.0.attempt == 0,
            r.0.max_retries == max_retries,
            distinct(r.0.outstanding@),
            answers_failing(r.1@, superseded(pending@, pending@.len() as int), DUPLICATE_ID@),
            r.2 == r.0.next_step(),
    {
        let ghost all = pending@;
        let mut flags: Vec<bool> = Vec::new();
        let mut i: usize = 0;
        while i < pending.len()
            invariant
                i <= pending.len(),
                flags@.len() == i,
                forall|k: int| #![trigger flags@[k]] 0 <= k < i ==> flags@[k] == repeated(
                    pending@,
                    k,
                ),
            decreases pending.len() - i,
        {
            flags.push(is_repeated(&pending, i));
            i += 1;
        }
        let mut outstanding: Vec<PendingRequest<R, T>> = Vec::new();
        let mut answers: Vec<Answer<T, P>> = Vec::new();
        let mut at: usize = 0;
        for request in it: pending
            invariant
                it.seq() == all,
                at == it.index(),
                flags.len() == all.len(),
                forall|k: int| #![trigger flags@[k]] 0 <= k < all.len() ==> flags@[k] == repeated(
                    all,
                    k,
                ),
                outstanding@ == latest(all, at as int),
                answers_failing(answers@, superseded(all, at as int), DUPLICATE_ID@),
        {
            assert(request == all[at as int]);
            if flags[at] {
                answers.push(
                    Answer {
                        tx: request.tx,
                        result: Err(TransportError::custom_str(DUPLICATE_ID)),
                    },
                );
            } else {
                outstanding.push(request);
            }
            at += 1;
        }
        proof {
            lemma_latest_distinct(all, all.len() as int);
        }
        let retry = BatchRetry { outstanding, attempt: 0, max_retries };
        let step = retry.step();
        (retry, answers, step)
    }

    /// What is to be done with the outstanding requests at the current attempt.
    pub fn step(&self) -> (step: BatchStep)
        ensures
            step == self.next_step(),
    {
        if self.outstanding.len() == 0 {
            BatchStep::Done
        } else if self.attempt < self.max_retries {
            BatchStep::SendBatch
        } else {
            BatchStep::SendEach
        }
    }

    /// Hands out the responses to the batch at the current attempt.
    ///
    /// Returns the answers, whether the batch was rejected as a whole, and what is to be done
    /// next. A rejected batch is not retried as one, since the rejection would repeat.
    pub fn on_responses<P>(&mut self, packet: ResponsePacket<P>) -> (r: (
        Vec<Answer<T, P>>,
        bool,
        BatchStep,
    ))
        requires
            old(self).attempt < old(self).max_retries,
        ensures
            responded(*old(self), packet::responses_of(packet), *final(self), r.0@, r.1, r.2),
    {
        let responses = packet.into_responses();
        let ghost all = responses@;
        let mut answers: Vec<Answer<T, P>> = Vec::new();
        proof {
            assert(all.take(0) =~= Seq::empty());
        }
        for response in it: responses
            invariant
                it.seq() == all,
                self.attempt == old(self).attempt,
                self.max_retries == old(self).max_retries,
                self.outstanding@ == handed_out(
                    old(self).outstanding@,
                    all.take(it.index() as int),
                ).0,
                answers_with(
                    answers@,
                    handed_out(old(self).outstanding@, all.take(it.index() as int)).1,
                ),
        {
            proof {
                let n = it.index() as int;
                assert(all.take(n + 1).drop_last() =~= all.take(n));
                assert(all.take(n + 1).last() == response);
            }
            let at: usize = find_id(&self.outstanding, &response.id);
            if at < self.outstanding.len() {
                let request = self.outstanding.remove(at);
                answers.push(
                    Answer { tx: request.tx, result: Ok(ResponsePacket::Single(response)) },
                );
            }
        }
        proof {
            assert(all.take(all.len() as int) =~= all);
        }
        if self.outstanding.len() > 0 && answers.len() == 0 {
            return (answers, true, BatchStep::SendEach);
        }
        if self.outstanding.len() > 0 {
            self.attempt = self.attempt + 1;
        }
        let step = self.step();
        (answers, false, step)
    }

    /// Ends a batch that failed as a whole: every outstanding request is told the same error.
    pub fn on_failure<P>(&mut self, message: &str) -> (answers: Vec<Answer<T, P>>)
        ensures
            answers_failing(answers@, old(self).outstanding@, BATCH_FAILED@ + message@),
            final(self).outstanding@.len() == 0,
            final(self).attempt == old(self).attempt,
            final(self).max_retries == old(self).max_retries,
    {
        let outstanding = self.outstanding.split_off(0);
        let ghost all = outstanding@;
        assert(all =~= old(self).outstanding@);
        let mut answers: Vec<Answer<T, P>> = Vec::new();
        for request in it: outstanding
            invariant
                it.seq() == all,
                answers_failing(answers@, all.take(it.index() as int), BATCH_FAILED@ + message@),
        {
            let mut text: String = BATCH_FAILED.to_owned();
            text.append(message);
            answers.push(Answer { tx: request.tx, result: Err(TransportError::Custom(text)) });
        }
        proof {
            assert(all.take(all.len() as int) =~= all);
        }
        answers
    }
}

/// One of the responses answers the request with the given id: it has the id, or none, as the
/// answer to a request whose id could not be read.
pub open spec fn answers_request<P>(responses: Seq<Response<P>>, id: IdView) -> bool {
    exists|i: int|
        0 <= i < responses.len() && ((#[trigger] responses[i]).id@ == id || responses[i].id@
            == IdView::Null)
}

/// Whether the response answers the request with the given id.
fn is_answer<P>(response: &Response<P>, id: &Id) -> (r: bool)
    ensures
        r == (response.id@ == id@ || response.id@ == IdView::Null),
{
    response.id.same(id) || response.id.same(&Id::Null)
}

/// Whether one of the responses of the packet answers the request with the given id.
fn holds_answer<P>(packet: &ResponsePacket<P>, id: &Id) -> (r: bool)
    ensures
        r == answers_request(packet::responses_of(*packet), id@),
{
    match packet {
        ResponsePacket::Single(response) => {
            let r = is_answer(response, id);
            assert(packet::responses_of(*packet)[0] == response);
            r
        },
        ResponsePacket::Batch(responses) => {
            let mut i: usize = 0;
            while i < responses.len()
                invariant
                    i <= responses.len(),
                    packet::responses_of(*packet) == responses@,
                    forall|k: int|
                        0 <= k < i ==> (#[trigger] responses@[k]).id@ != id@ && responses@[k].id@
                            != IdView::Null,
                decreases responses.len() - i,
            {
                if is_answer(&responses[i], id) {
                    return true;
                }
                i += 1;
            }
            false
        },
    }
}

/// What a request that was sent individually is told: what came back for it, or, if no response
/// in it answers the request, that its response is missing.
pub fn individual_response<P, E>(id: &Id, reply: Reply<P, E>) -> (r: Result<
    ResponsePacket<P>,
    ReplyError<E>,
>)
    ensures
        r == match reply {
            Reply::Answered(packet) => if answers_request(packet::responses_of(packet), id@) {
                Ok::<_, ReplyError<E>>(packet)
            } else {
                Err(ReplyError::Missing)
            },
            Reply::Failed(err) => Err(ReplyError::Failed(err)),
            Reply::Dropped => Err(ReplyError::BackendGone),
        },
{
    match reply {
        Reply::Answered(packet) => {
            if holds_answer(&packet, id) {
                Ok(packet)
            } else {
                Err(ReplyError::Missing)
            }
        },
        Reply::Failed(err) => Err(ReplyError::Failed(err)),
        Reply::Dropped => Err(ReplyError::BackendGone),
    }
}

} // verus!
