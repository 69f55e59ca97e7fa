//! What holds of every flush: no request is lost, and no batch is too large.
use crate::batching;
use crate::batching::{
    BatchingConfig, BatchingTransport, Flush, PendingRequest, Reply, ReplyError,
};
use crate::duration;
use crate::packet::{Response, ResponsePacket};
use std::time::Duration;
use vstd::prelude::*;

verus! {

/// The chunks put together again hold every request exactly once, in the order in which they
/// came.
pub proof fn law_chunks_hold_every_request<A>(requests: Seq<A>, max: nat)
    requires
        max > 0,
    ensures
        batching::chunks(requests, max).flatten() == requests,
    decreases requests.len(),
{
    let parts = batching::chunks(requests, max);
    if requests.len() == 0 {
        assert(parts.flatten() =~= requests);
    } else if requests.len() <= max {
        parts.lemma_flatten_one_element();
    } else {
        let rest = batching::chunks(requests.skip(max as int), max);
        law_chunks_hold_every_request(requests.skip(max as int), max);
        assert(parts.drop_first() =~= rest);
        assert(parts.flatten() == parts.first() + parts.drop_first().flatten());
        assert(requests.take(max as int) + requests.skip(max as int) =~= requests);
    }
}

/// No chunk is empty or larger than the maximum, and only the last may be smaller.
pub proof fn law_only_last_chunk_is_smaller<A>(requests: Seq<A>, max: nat)
    requires
        max > 0,
    ensures
        forall|i: int|
            #![trigger batching::chunks(requests, max)[i]]
            0 <= i < batching::chunks(requests, max).len() ==> {
                &&& 0 < batching::chunks(requests, max)[i].len() <= max
                &&& i < batching::chunks(requests, max).len() - 1 ==> batching::chunks(
                    requests,
                    max,
                )[i].len() == max
            },
        batching::chunks(requests, max).len() == 0 <==> requests.len() == 0,
    decreases requests.len(),
{
    let parts = batching::chunks(requests, max);
    if requests.len() > max {
        let rest = batching::chunks(requests.skip(max as int), max);
        law_only_last_chunk_is_smaller(requests.skip(max as int), max);
        assert forall|i: int| #![trigger parts[i]] 0 <= i < parts.len() implies {
            &&& 0 < parts[i].len() <= max
            &&& i < parts.len() - 1 ==> parts[i].len() == max
        } by {
            if i > 0 {
                assert(parts[i] == rest[i - 1]);
            }
        }
    }
}

/// Requests are due once the time that they had left is over, and not before it, unless more come
/// until they fill a batch.
pub proof fn law_waiting_makes_requests_due<R, T>(
    transport: BatchingTransport<R, T>,
    now: Duration,
    later: Duration,
)
    requires
        transport.pending@.len() > 0,
        duration::nanos(transport.first_at) <= duration::nanos(now) <= duration::nanos(later),
    ensures
        transport.due(later) <==> duration::nanos(later) >= duration::nanos(now)
            + transport.time_left(now),
{
}

/// A batch whose requests have each got a single response is answered with those responses, one
/// for each request, in the order of the requests.
pub proof fn law_batch_keeps_request_order<P, E>(replies: Seq<Reply<P, E>>)
    requires
        forall|i: int|
            0 <= i < replies.len() ==> (#[trigger] replies[i]) matches Reply::Answered(
                ResponsePacket::Single(_),
            ),
    ensures
        batching::first_failure(replies) == replies.len(),
        batching::joined(replies).len() == replies.len(),
        forall|i: int|
            0 <= i < replies.len() ==> (#[trigger] replies[i]) == Reply::<P, E>::Answered(
                ResponsePacket::Single(batching::joined(replies)[i]),
            ),
    decreases replies.len(),
{
    batching::lemma_first_failure(replies, replies.len() as int);
    if replies.len() > 0 {
        let before = replies.drop_last();
        assert forall|i: int| 0 <= i < before.len() implies (
        #[trigger] before[i]) matches Reply::Answered(ResponsePacket::Single(_)) by {
            assert(before[i] == replies[i]);
        }
        law_batch_keeps_request_order(before);
        assert(replies[replies.len() - 1] == replies.last());
        assert forall|i: int| 0 <= i < replies.len() implies (#[trigger] replies[i]) == Reply::<
            P,
            E,
        >::Answered(ResponsePacket::Single(batching::joined(replies)[i])) by {
            if i < before.len() {
                assert(before[i] == replies[i]);
            }
        }
    }
}

/// Requests are due exactly if there are some, and they are as many as a batch holds, or the
/// first has waited for the interval. They fill a batch exactly if they are that many. The time
/// left is zero if they do, and otherwise what the first has still to wait.
pub proof fn law_when_requests_are_due<R, T>(transport: BatchingTransport<R, T>, now: Duration)
    ensures
        ({
            let n = transport.pending@.len();
            let max = transport.config.max_batch_size;
            let interval = duration::nanos(transport.config.flush_interval);
            let first = duration::nanos(transport.first_at);
            let over = interval == 0 || first + interval <= duration::nanos(now);
            &&& transport.full() <==> n >= max
            &&& transport.due(now) <==> n > 0 && (n >= max || over)
            &&& n >= max || over ==> transport.time_left(now) == 0
            &&& n < max && !over && first <= duration::nanos(now) ==> duration::nanos(now)
                + transport.time_left(now) == first + interval
            &&& n < max && !over && duration::nanos(now) < first ==> transport.time_left(now)
                == interval
            &&& transport.well_formed() <==> max != 0
        }),
{
}

/// Requests that are sent together are sent as a batch of them in their order, unless there is
/// only one, which is sent by itself.
pub proof fn law_single_requests_are_sent_by_themselves<R, T>(
    flush: Flush<R, T>,
    requests: Seq<PendingRequest<R, T>>,
)
    requires
        batching::carries(flush, requests),
    ensures
        requests.len() == 1 ==> flush == Flush::Single(requests[0]),
        requests.len() != 1 ==> (flush matches Flush::Batch(batch) && batch@ == requests),
{
    if requests.len() == 1 {
        assert(batching::requests_of(flush)[0] == requests[0]);
    }
}

/// Requests are chunked from the front: a first chunk of as many as a batch holds, and then what
/// is left in the same way; a number that fits in one batch is one chunk.
pub proof fn law_chunks_are_cut_from_the_front<A>(requests: Seq<A>, max: nat, i: int)
    requires
        max > 0,
    ensures
        ({
            let parts = batching::chunks(requests, max);
            0 <= i < parts.len() ==> {
                &&& i * max < requests.len()
                &&& (i + 1) * max <= requests.len() ==> parts[i] == requests.subrange(
                    i * max,
                    (i + 1) * max,
                )
                &&& (i + 1) * max > requests.len() ==> {
                    &&& parts[i] == requests.subrange(i * max, requests.len() as int)
                    &&& i == parts.len() - 1
                }
            }
        }),
    decreases requests.len(),
{
    let parts = batching::chunks(requests, max);
    let m = max as int;
    if 0 <= i < parts.len() {
        if requests.len() <= max {
            assert(0 * m == 0) by (nonlinear_arith);
            assert(1 * m == m) by (nonlinear_arith);
            assert(requests.subrange(0, requests.len() as int) =~= requests);
        } else if i == 0 {
            assert(0 * m == 0) by (nonlinear_arith);
            assert(1 * m == m) by (nonlinear_arith);
            assert(requests.subrange(0, m) =~= requests.take(m));
        } else {
            let rest = requests.skip(m);
            law_chunks_are_cut_from_the_front(rest, max, i - 1);
            assert((i - 1) * m + m == i * m) by (nonlinear_arith);
            assert((i + 1) * m == i * m + m) by (nonlinear_arith);
            assert(((i - 1) + 1) * m == i * m) by (nonlinear_arith);
            assert((i - 1) * m >= 0) by (nonlinear_arith)
                requires
                    i >= 1,
                    m > 0,
            ;
            assert(parts[i] == batching::chunks(rest, max)[i - 1]);
            if (i + 1) * m <= requests.len() {
                assert(rest.subrange((i - 1) * m, i * m) =~= requests.subrange(
                    i * m,
                    (i + 1) * m,
                ));
            } else {
                assert(rest.subrange((i - 1) * m, rest.len() as int) =~= requests.subrange(
                    i * m,
                    requests.len() as int,
                ));
            }
        }
    }
}

/// The first failure is the first reply that is no answer: all before it are answers, and it is
/// none. Its error is its own, or that nothing will come. Without one, all are answers.
pub proof fn law_first_failure_is_the_first_that_is_no_answer<P, E>(replies: Seq<Reply<P, E>>)
    ensures
        ({
            let at = batching::first_failure(replies);
            &&& 0 <= at <= replies.len()
            &&& forall|i: int| 0 <= i < at ==> (#[trigger] replies[i]) is Answered
            &&& at < replies.len() ==> match replies[at] {
                Reply::Answered(_) => false,
                Reply::Failed(err) => batching::failure_of(replies[at]) == ReplyError::<E>::Failed(
                    err,
                ),
                Reply::Dropped => batching::failure_of(replies[at])
                    == ReplyError::<E>::BackendGone,
            }
        }),
    decreases replies.len(),
{
    if replies.len() > 0 && replies[0] is Answered {
        let rest = replies.skip(1);
        law_first_failure_is_the_first_that_is_no_answer(rest);
        let at = batching::first_failure(replies);
        assert forall|i: int| 0 <= i < at implies (#[trigger] replies[i]) is Answered by {
            if i > 0 {
                assert(rest[i - 1] == replies[i]);
            }
        }
        if at < replies.len() {
            assert(rest[at - 1] == replies[at]);
        }
    }
}

/// Every answer adds its responses at the end of those of the answers before it: a single one, or
/// all of a batch in its order.
pub proof fn law_answers_are_joined_in_order<P, E>(
    replies: Seq<Reply<P, E>>,
    response: Response<P>,
    batch: Vec<Response<P>>,
)
    ensures
        batching::joined(Seq::<Reply<P, E>>::empty()) == Seq::<Response<P>>::empty(),
        batching::joined(replies.push(Reply::Answered(ResponsePacket::Single(response))))
            == batching::joined(replies).push(response),
        batching::joined(replies.push(Reply::Answered(ResponsePacket::Batch(batch))))
            == batching::joined(replies) + batch@,
{
    let one = replies.push(Reply::Answered(ResponsePacket::Single(response)));
    let many = replies.push(Reply::Answered(ResponsePacket::Batch(batch)));
    assert(one.drop_last() =~= replies);
    assert(many.drop_last() =~= replies);
    assert(batching::joined(one) =~= batching::joined(replies).push(response));
}

/// The default configuration: batches of 150, after a millisecond, with two retries.
pub proof fn law_default_batching(config: BatchingConfig)
    ensures
        config.is_default() <==> {
            &&& config.max_batch_size == 150
            &&& duration::nanos(config.flush_interval) == 1_000_000
            &&& config.max_missing_retries == 2
        },
{
}

} // verus!
