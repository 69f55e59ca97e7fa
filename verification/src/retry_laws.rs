//! What holds of every batch: each request is answered once, by the response with its id.
use crate::batching::PendingRequest;
use crate::error::TransportError;
use crate::packet::{IdView, Response, ResponsePacket};
use crate::retry;
use crate::retry::{Answer, BatchRetry, BatchStep};
use vstd::prelude::*;

verus! {

/// Where the responses to the requests go.
pub open spec fn senders<R, T>(pending: Seq<PendingRequest<R, T>>) -> Seq<T> {
    pending.map_values(|p: PendingRequest<R, T>| p.tx)
}

/// Where the responses went.
pub open spec fn receivers<T, P>(given: Seq<(T, Response<P>)>) -> Seq<T> {
    given.map_values(|g: (T, Response<P>)| g.0)
}

/// One of the responses has the id.
pub open spec fn answered<P>(responses: Seq<Response<P>>, id: IdView) -> bool {
    exists|i: int| 0 <= i < responses.len() && (#[trigger] responses[i]).id@ == id
}

/// The condition that no response to a request came.
pub open spec fn unanswered<R, T, P>(responses: Seq<Response<P>>) -> spec_fn(
    PendingRequest<R, T>,
) -> bool {
    |p: PendingRequest<R, T>| !answered(responses, p.id@)
}

/// The condition that a request has another id.
spec fn with_other_id<R, T>(id: IdView) -> spec_fn(PendingRequest<R, T>) -> bool {
    |p: PendingRequest<R, T>| p.id@ != id
}

/// The position of an id is that of a request with it, if there is one.
proof fn lemma_position<R, T>(pending: Seq<PendingRequest<R, T>>, id: IdView)
    ensures
        0 <= retry::position_of(pending, id) <= pending.len(),
        retry::position_of(pending, id) < pending.len() ==> pending[retry::position_of(
            pending,
            id,
        )].id@ == id,
        forall|i: int|
            0 <= i < retry::position_of(pending, id) ==> (#[trigger] pending[i]).id@ != id,
    decreases pending.len(),
{
    if pending.len() > 0 && pending[0].id@ != id {
        let rest = pending.skip(1);
        lemma_position(rest, id);
        let at = retry::position_of(rest, id);
        if at < rest.len() {
            assert(rest[at] == pending[at + 1]);
        }
        assert forall|i: int| 0 <= i < at + 1 implies (#[trigger] pending[i]).id@ != id by {
            if i > 0 {
                assert(rest[i - 1] == pending[i]);
            }
        }
    }
}

/// Every request of a batch either stays outstanding or is answered, and neither twice.
pub proof fn law_every_request_is_accounted_for<R, T, P>(
    pending: Seq<PendingRequest<R, T>>,
    responses: Seq<Response<P>>,
)
    ensures
        ({
            let (left, given) = retry::handed_out(pending, responses);
            &&& left.len() + given.len() == pending.len()
            &&& senders(left).to_multiset().add(receivers(given).to_multiset()) == senders(
                pending,
            ).to_multiset()
        }),
    decreases responses.len(),
{
    broadcast use vstd::seq_lib::group_to_multiset_ensures;

    let (left, given) = retry::handed_out(pending, responses);
    if responses.len() == 0 {
        assert(receivers(given) =~= Seq::<T>::empty());
        assert(senders(left).to_multiset().add(receivers(given).to_multiset()) =~= senders(
            pending,
        ).to_multiset());
    } else {
        law_every_request_is_accounted_for(pending, responses.drop_last());
        let (left0, given0) = retry::handed_out(pending, responses.drop_last());
        let response = responses.last();
        let at = retry::position_of(left0, response.id@);
        lemma_position(left0, response.id@);
        if at < left0.len() {
            assert(senders(left) =~= senders(left0).remove(at));
            assert(receivers(given) =~= receivers(given0).push(left0[at].tx));
            assert(senders(left0)[at] == left0[at].tx);
            assert(senders(left0).contains(left0[at].tx));
            assert(senders(left).to_multiset().add(receivers(given).to_multiset()) =~= senders(
                left0,
            ).to_multiset().add(receivers(given0).to_multiset()));
        }
    }
}

/// Exactly those requests stay outstanding to which no response came, in their order, and no id
/// occurs twice among them.
pub proof fn law_request_stays_until_answered<R, T, P>(
    pending: Seq<PendingRequest<R, T>>,
    responses: Seq<Response<P>>,
)
    requires
        retry::distinct(pending),
    ensures
        ({
            let left = retry::handed_out(pending, responses).0;
            &&& retry::distinct(left)
            &&& left == pending.filter(unanswered(responses))
        }),
    decreases responses.len(),
{
    let left = retry::handed_out(pending, responses).0;
    let open = unanswered::<R, T, P>(responses);
    if responses.len() == 0 {
        lemma_filter_all(pending, open);
    } else {
        let before = responses.drop_last();
        let response = responses.last();
        let open0 = unanswered::<R, T, P>(before);
        law_request_stays_until_answered(pending, before);
        let left0 = retry::handed_out(pending, before).0;
        lemma_position(left0, response.id@);
        let at = retry::position_of(left0, response.id@);
        assert forall|p: PendingRequest<R, T>| #[trigger]
            open(p) <==> open0(p) && p.id@ != response.id@ by {
            if open(p) {
                assert(responses[responses.len() - 1].id@ != p.id@);
                assert forall|i: int| 0 <= i < before.len() implies (#[trigger] before[i]).id@
                    != p.id@ by {
                    assert(responses[i] == before[i]);
                }
            }
            if open0(p) && p.id@ != response.id@ {
                assert forall|i: int| 0 <= i < responses.len() implies (
                #[trigger] responses[i]).id@ != p.id@ by {
                    if i < before.len() {
                        assert(before[i] == responses[i]);
                    }
                }
            }
        }
        let other = with_other_id::<R, T>(response.id@);
        lemma_filter_twice(pending, open0, other, open);
        lemma_filter_one_out(left0, response.id@);
    }
}

/// Filtering by what holds of every element changes nothing.
proof fn lemma_filter_all<A>(s: Seq<A>, f: spec_fn(A) -> bool)
    requires
        forall|i: int| 0 <= i < s.len() ==> f(#[trigger] s[i]),
    ensures
        s.filter(f) == s,
    decreases s.len(),
{
    reveal(Seq::filter);
    if s.len() > 0 {
        lemma_filter_all(s.drop_last(), f);
        assert(s.drop_last().push(s.last()) =~= s);
    }
}

/// Filtering by one condition and then by another is filtering by both.
proof fn lemma_filter_twice<A>(
    s: Seq<A>,
    f: spec_fn(A) -> bool,
    g: spec_fn(A) -> bool,
    both: spec_fn(A) -> bool,
)
    requires
        forall|a: A| #[trigger] both(a) <==> f(a) && g(a),
    ensures
        s.filter(f).filter(g) == s.filter(both),
    decreases s.len(),
{
    reveal(Seq::filter);
    if s.len() > 0 {
        lemma_filter_twice(s.drop_last(), f, g, both);
        let last = s.last();
        assert(both(last) <==> f(last) && g(last));
        if f(last) {
            let kept = s.drop_last().filter(f);
            assert(kept.push(last).drop_last() =~= kept);
        }
    }
}

/// Of requests with distinct ids, filtering out an id removes the request at its position.
proof fn lemma_filter_one_out<R, T>(pending: Seq<PendingRequest<R, T>>, id: IdView)
    requires
        retry::distinct(pending),
    ensures
        ({
            let at = retry::position_of(pending, id);
            let rest = if at < pending.len() {
                pending.remove(at)
            } else {
                pending
            };
            &&& retry::distinct(rest)
            &&& rest == pending.filter(with_other_id(id))
        }),
{
    let at = retry::position_of(pending, id);
    let other = with_other_id::<R, T>(id);
    lemma_position(pending, id);
    if at < pending.len() {
        let head = pending.take(at);
        let tail = pending.skip(at + 1);
        let rest = pending.remove(at);
        assert(pending =~= head + (seq![pending[at]] + tail));
        Seq::filter_distributes_over_add(head, seq![pending[at]] + tail, other);
        Seq::filter_distributes_over_add(seq![pending[at]], tail, other);
        assert(seq![pending[at]].filter(other) =~= Seq::empty()) by {
            reveal(Seq::filter);
            assert(seq![pending[at]].drop_last() =~= Seq::empty());
            assert(Seq::<PendingRequest<R, T>>::empty().filter(other) =~= Seq::empty());
        }
        lemma_filter_all(head, other);
        assert forall|i: int| 0 <= i < tail.len() implies other(#[trigger] tail[i]) by {
            assert(pending[at].id@ != pending[at + 1 + i].id@);
        }
        lemma_filter_all(tail, other);
        assert(rest =~= head + (Seq::empty() + tail));
        assert forall|i: int, j: int|
            #![trigger rest[i], rest[j]]
            0 <= i < j < rest.len() implies rest[i].id@ != rest[j].id@ by {
            let a = if i < at {
                i
            } else {
                i + 1
            };
            let b = if j < at {
                j
            } else {
                j + 1
            };
            assert(rest[i] == pending[a] && rest[j] == pending[b]);
        }
    } else {
        lemma_filter_all(pending, other);
    }
}

/// The response is the first with its id.
pub open spec fn first_with_id<P>(responses: Seq<Response<P>>, i: int) -> bool {
    &&& 0 <= i < responses.len()
    &&& forall|j: int| 0 <= j < i ==> (#[trigger] responses[j]).id@ != responses[i].id@
}

/// The response at position `i` answers the request.
pub open spec fn answers<R, T, P>(
    request: PendingRequest<R, T>,
    responses: Seq<Response<P>>,
    i: int,
    given: (T, Response<P>),
) -> bool {
    &&& first_with_id(responses, i)
    &&& responses[i].id@ == request.id@
    &&& given == (request.tx, responses[i])
}

/// What was handed out is the first response with its id, and went to the request with that id.
pub open spec fn delivered<R, T, P>(
    pending: Seq<PendingRequest<R, T>>,
    responses: Seq<Response<P>>,
    given: (T, Response<P>),
) -> bool {
    exists|p: int, i: int|
        0 <= p < pending.len() && #[trigger] answers(pending[p], responses, i, given)
}

/// Every response that is handed out goes to a request with its id, and is the first that came
/// with that id.
pub proof fn law_responses_reach_their_requests<R, T, P>(
    pending: Seq<PendingRequest<R, T>>,
    responses: Seq<Response<P>>,
)
    requires
        retry::distinct(pending),
    ensures
        ({
            let given = retry::handed_out(pending, responses).1;
            forall|k: int|
                0 <= k < given.len() ==> delivered(pending, responses, #[trigger] given[k])
        }),
    decreases responses.len(),
{
    let given = retry::handed_out(pending, responses).1;
    if responses.len() > 0 {
        let before = responses.drop_last();
        let response = responses.last();
        law_responses_reach_their_requests(pending, before);
        law_request_stays_until_answered(pending, before);
        let (left0, given0) = retry::handed_out(pending, before);
        let at = retry::position_of(left0, response.id@);
        lemma_position(left0, response.id@);
        assert forall|k: int| 0 <= k < given.len() implies delivered(
            pending,
            responses,
            #[trigger] given[k],
        ) by {
            if k < given0.len() {
                assert(delivered(pending, before, given0[k]));
                let (p, i) = choose|p: int, i: int|
                    0 <= p < pending.len() && #[trigger] answers(
                        pending[p],
                        before,
                        i,
                        given0[k],
                    );
                assert forall|j: int| 0 <= j < i implies (#[trigger] responses[j]).id@
                    != responses[i].id@ by {
                    assert(before[j] == responses[j]);
                }
                assert(answers(pending[p], responses, i, given[k]));
            } else {
                let open0 = unanswered::<R, T, P>(before);
                assert(left0.contains(left0[at]));
                let p = lemma_kept_by_filter(pending, open0, left0[at]);
                let i = responses.len() - 1;
                assert forall|j: int| 0 <= j < i implies (#[trigger] responses[j]).id@
                    != responses[i].id@ by {
                    assert(before[j] == responses[j]);
                    assert(open0(left0[at]));
                }
                assert(answers(pending[p], responses, i, given[k]));
            }
        }
    }
}

/// What a filter keeps was there, and meets the condition.
proof fn lemma_kept_by_filter<A>(s: Seq<A>, f: spec_fn(A) -> bool, a: A) -> (i: int)
    requires
        s.filter(f).contains(a),
    ensures
        0 <= i < s.len(),
        s[i] == a,
        f(a),
    decreases s.len(),
{
    reveal(Seq::filter);
    let rest = s.drop_last();
    if s.len() > 0 {
        if f(s.last()) && s.last() == a {
            s.len() - 1
        } else {
            let k = choose|k: int| 0 <= k < s.filter(f).len() && s.filter(f)[k] == a;
            assert(rest.filter(f)[k] == a);
            lemma_kept_by_filter(rest, f, a)
        }
    } else {
        assert(s.filter(f).len() == 0);
        0
    }
}

/// Of a batch, every request is either sent or told that its id is repeated, and neither twice;
/// of every id exactly one request is sent.
pub proof fn law_one_request_per_id<R, T>(pending: Seq<PendingRequest<R, T>>, n: int, i: int)
    requires
        0 <= i < n == pending.len(),
    ensures
        retry::distinct(retry::latest(pending, n)),
        retry::latest(pending, n).len() + retry::superseded(pending, n).len() == n,
        senders(retry::latest(pending, n)).to_multiset().add(
            senders(retry::superseded(pending, n)).to_multiset(),
        ) == senders(pending).to_multiset(),
        exists|k: int|
            0 <= k < retry::latest(pending, n).len() && (#[trigger] retry::latest(
                pending,
                n,
            )[k]).id@ == pending[i].id@,
{
    retry::lemma_latest_distinct(pending, n);
    lemma_split_by_id(pending, n);
    assert(senders(pending).take(n) =~= senders(pending));
    let last = lemma_latest_with_id(pending, i);
    let k = lemma_latest_holds(pending, n, last);
    assert(retry::latest(pending, n)[k].id@ == pending[i].id@);
}

/// The requests of a prefix are split in two.
proof fn lemma_split_by_id<R, T>(pending: Seq<PendingRequest<R, T>>, n: int)
    requires
        0 <= n <= pending.len(),
    ensures
        retry::latest(pending, n).len() + retry::superseded(pending, n).len() == n,
        senders(retry::latest(pending, n)).to_multiset().add(
            senders(retry::superseded(pending, n)).to_multiset(),
        ) == senders(pending).take(n).to_multiset(),
    decreases n,
{
    broadcast use vstd::seq_lib::group_to_multiset_ensures;

    let latest = senders(retry::latest(pending, n));
    let superseded = senders(retry::superseded(pending, n));
    let all = senders(pending).take(n);
    if n == 0 {
        assert(latest =~= Seq::<T>::empty());
        assert(superseded =~= Seq::<T>::empty());
        assert(all =~= Seq::<T>::empty());
        assert(latest.to_multiset().add(superseded.to_multiset()) =~= all.to_multiset());
    } else {
        lemma_split_by_id(pending, n - 1);
        let latest0 = senders(retry::latest(pending, n - 1));
        let superseded0 = senders(retry::superseded(pending, n - 1));
        let all0 = senders(pending).take(n - 1);
        let tx = pending[n - 1].tx;
        assert(all =~= all0.push(tx));
        if retry::repeated(pending, n - 1) {
            assert(superseded =~= superseded0.push(tx));
        } else {
            assert(latest =~= latest0.push(tx));
        }
        assert(latest.to_multiset().add(superseded.to_multiset()) =~= all.to_multiset());
    }
}

/// The last request with the id of a given one.
proof fn lemma_latest_with_id<R, T>(pending: Seq<PendingRequest<R, T>>, i: int) -> (last: int)
    requires
        0 <= i < pending.len(),
    ensures
        i <= last < pending.len(),
        pending[last].id@ == pending[i].id@,
        !retry::repeated(pending, last),
    decreases pending.len() - i,
{
    if retry::repeated(pending, i) {
        let j = choose|j: int|
            i < j < pending.len() && (#[trigger] pending[j]).id@ == pending[i].id@;
        lemma_latest_with_id(pending, j)
    } else {
        i
    }
}

/// A request whose id is not repeated is among the latest.
proof fn lemma_latest_holds<R, T>(pending: Seq<PendingRequest<R, T>>, n: int, i: int) -> (k: int)
    requires
        0 <= i < n <= pending.len(),
        !retry::repeated(pending, i),
    ensures
        0 <= k < retry::latest(pending, n).len(),
        retry::latest(pending, n)[k] == pending[i],
    decreases n,
{
    if i == n - 1 {
        retry::latest(pending, n).len() - 1
    } else {
        lemma_latest_holds(pending, n - 1, i)
    }
}

/// Where nothing is handed out, nothing changes.
proof fn lemma_nothing_given<R, T, P>(
    pending: Seq<PendingRequest<R, T>>,
    responses: Seq<Response<P>>,
)
    ensures
        retry::handed_out(pending, responses).1.len() == 0 ==> retry::handed_out(
            pending,
            responses,
        ).0 == pending,
    decreases responses.len(),
{
    if responses.len() > 0 {
        lemma_nothing_given(pending, responses.drop_last());
    }
}

/// A batch is sent at most as often as there are retries, each time with fewer requests than
/// before; whatever is left then is sent individually. A batch of which no request was answered
/// is not sent again at all.
pub proof fn law_batches_are_bounded<R, T, P>(
    before: BatchRetry<R, T>,
    responses: Seq<Response<P>>,
    after: BatchRetry<R, T>,
    answers: Seq<Answer<T, P>>,
    rejected: bool,
    step: BatchStep,
)
    requires
        before.next_step() == BatchStep::SendBatch,
        retry::responded(before, responses, after, answers, rejected, step),
    ensures
        step == BatchStep::SendBatch ==> {
            &&& before.attempt < after.attempt < after.max_retries
            &&& 0 < after.outstanding@.len() < before.outstanding@.len()
        },
        step == BatchStep::Done <==> after.outstanding@.len() == 0,
        after.outstanding@ == before.outstanding@ && answers.len() == 0 <==> rejected,
        rejected ==> step == BatchStep::SendEach,
{
    law_every_request_is_accounted_for(before.outstanding@, responses);
    lemma_nothing_given(before.outstanding@, responses);
}

/// What is done next with a batch: nothing once no request is outstanding; while fewer attempts
/// than retries were made, all that are outstanding are sent as a batch, however many they are;
/// and when all were made, each is sent on its own.
pub proof fn law_requests_are_batched_until_the_last_attempt<R, T>(retry: BatchRetry<R, T>)
    ensures
        retry.next_step() is Done <==> retry.outstanding@.len() == 0,
        retry.next_step() is SendBatch <==> retry.outstanding@.len() > 0 && retry.attempt
            < retry.max_retries,
        retry.next_step() is SendEach <==> retry.outstanding@.len() > 0 && retry.attempt
            >= retry.max_retries,
{
}

/// What responses to a batch bring about. If they leave requests outstanding and have answered
/// some, it is the next attempt's turn: as a batch, however many are left, unless it is the last,
/// which sends each on its own. If they have answered none, the batch is rejected, and each is
/// sent on its own. If none is left, all is done. The requests and the answers are those of the
/// responses as they are handed out.
pub proof fn law_partial_responses_are_followed_by_a_batch<R, T, P>(
    before: BatchRetry<R, T>,
    responses: Seq<Response<P>>,
    after: BatchRetry<R, T>,
    given_answers: Seq<Answer<T, P>>,
    rejected: bool,
    step: BatchStep,
)
    requires
        retry::responded(before, responses, after, given_answers, rejected, step),
    ensures
        ({
            let left = after.outstanding@.len();
            let given = given_answers.len();
            &&& after.outstanding@ == retry::handed_out(before.outstanding@, responses).0
            &&& after.max_retries == before.max_retries
            &&& rejected <==> left > 0 && given == 0
            &&& left == 0 ==> step is Done && after.attempt == before.attempt
            &&& left > 0 && given == 0 ==> step is SendEach && after.attempt == before.attempt
            &&& left > 0 && given > 0 ==> {
                &&& after.attempt == before.attempt + 1
                &&& before.attempt + 1 < before.max_retries ==> step is SendBatch
                &&& before.attempt + 1 >= before.max_retries ==> step is SendEach
            }
            &&& given == retry::handed_out(before.outstanding@, responses).1.len()
            &&& forall|i: int|
                0 <= i < given ==> {
                    &&& (#[trigger] given_answers[i]).tx == retry::handed_out(
                        before.outstanding@,
                        responses,
                    ).1[i].0
                    &&& given_answers[i].result == Ok::<_, TransportError>(
                        ResponsePacket::Single(
                            retry::handed_out(before.outstanding@, responses).1[i].1,
                        ),
                    )
                }
        }),
{
}

/// Of requests with the same id the last is sent, and the others are told so, each group in the
/// order in which they came: the next request of a batch is sent exactly if no later one has its
/// id.
pub proof fn law_last_of_each_id_is_sent<R, T>(pending: Seq<PendingRequest<R, T>>, n: int)
    requires
        0 <= n < pending.len(),
    ensures
        ({
            let unique = forall|j: int|
                n < j < pending.len() ==> (#[trigger] pending[j]).id@ != pending[n].id@;
            &&& unique ==> {
                &&& retry::latest(pending, n + 1) == retry::latest(pending, n).push(pending[n])
                &&& retry::superseded(pending, n + 1) == retry::superseded(pending, n)
            }
            &&& !unique ==> {
                &&& retry::latest(pending, n + 1) == retry::latest(pending, n)
                &&& retry::superseded(pending, n + 1) == retry::superseded(pending, n).push(
                    pending[n],
                )
            }
        }),
        retry::latest(pending, 0).len() == 0,
        retry::superseded(pending, 0).len() == 0,
{
}

/// Ids are distinct exactly if no two requests have the same.
pub proof fn law_distinct_ids<R, T>(pending: Seq<PendingRequest<R, T>>)
    ensures
        retry::distinct(pending) <==> forall|i: int, j: int|
            #![trigger pending[i], pending[j]]
            0 <= i < pending.len() && 0 <= j < pending.len() && i != j ==> pending[i].id@
                != pending[j].id@,
{
}

/// The next response goes to the first outstanding request with its id, which is then outstanding
/// no more; where there is none, it goes nowhere. The others stay in their order.
pub proof fn law_each_response_goes_to_its_request<R, T, P>(
    pending: Seq<PendingRequest<R, T>>,
    responses: Seq<Response<P>>,
    response: Response<P>,
)
    ensures
        ({
            let (left, given) = retry::handed_out(pending, responses);
            let (after, given_after) = retry::handed_out(pending, responses.push(response));
            let matching = exists|i: int|
                0 <= i < left.len() && (#[trigger] left[i]).id@ == response.id@;
            &&& !matching ==> after == left && given_after == given
            &&& matching ==> exists|i: int|
                {
                    &&& 0 <= i < left.len()
                    &&& (#[trigger] left[i]).id@ == response.id@
                    &&& forall|j: int| 0 <= j < i ==> (#[trigger] left[j]).id@ != response.id@
                    &&& after == left.subrange(0, i) + left.subrange(i + 1, left.len() as int)
                    &&& given_after == given.push((left[i].tx, response))
                }
        }),
        retry::handed_out(pending, Seq::<Response<P>>::empty()).0 == pending,
        retry::handed_out(pending, Seq::<Response<P>>::empty()).1.len() == 0,
{
    assert(responses.push(response).drop_last() =~= responses);
    let (left, given) = retry::handed_out(pending, responses);
    lemma_position(left, response.id@);
    let at = retry::position_of(left, response.id@);
    if at < left.len() {
        assert(left[at].id@ == response.id@);
        assert(left.remove(at) =~= left.subrange(0, at) + left.subrange(
            at + 1,
            left.len() as int,
        ));
    } else if exists|i: int| 0 <= i < left.len() && (#[trigger] left[i]).id@ == response.id@ {
        let i = choose|i: int| 0 <= i < left.len() && (#[trigger] left[i]).id@ == response.id@;
        assert(left[i].id@ != response.id@);
    }
}

/// Answers that fail requests tell each of them, in order, the same message.
pub proof fn law_failed_requests_are_all_told<R, T, P>(
    given_answers: Seq<Answer<T, P>>,
    pending: Seq<PendingRequest<R, T>>,
    message: Seq<char>,
    i: int,
)
    requires
        retry::answers_failing(given_answers, pending, message),
        0 <= i < pending.len(),
    ensures
        given_answers.len() == pending.len(),
        given_answers[i].tx == pending[i].tx,
        given_answers[i].result matches Err(TransportError::Custom(told)) && told@ == message,
{
}

/// A packet answers a request exactly if one of its responses has the request's id, or none.
pub proof fn law_answers_have_the_id_or_none<P>(responses: Seq<Response<P>>, id: IdView)
    ensures
        retry::answers_request(responses, id) <==> exists|i: int|
            0 <= i < responses.len() && ((#[trigger] responses[i]).id@ == id || responses[i].id@
                is Null),
{
    if exists|i: int|
        0 <= i < responses.len() && ((#[trigger] responses[i]).id@ == id || responses[i].id@
            is Null) {
        let i = choose|i: int|
            0 <= i < responses.len() && ((#[trigger] responses[i]).id@ == id || responses[i].id@
                is Null);
        assert(responses[i].id@ == id || responses[i].id@ == IdView::Null);
    }
}

} // verus!
