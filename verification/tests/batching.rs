use alloy_transport_balancer::retry::{BATCH_FAILED, DUPLICATE_ID};
use alloy_transport_balancer::packet::bytes_or_max;
use alloy_transport_balancer::{
    batch_response, individual_response, request_bytes, single_response, Answer, BatchRetry,
    BatchStep, BatchingConfig, BatchingTransport, Flush, Id, PendingRequest, Reply, ReplyError,
    RequestPacket, Response, ResponsePacket, TransportError, ZeroBatchSize,
    INDIVIDUAL_FALLBACK_CONCURRENCY, MISSING_RESPONSE,
};
use std::time::Duration;

type Pending = PendingRequest<String, u64>;

fn request(n: u64) -> Pending {
    PendingRequest {
        id: Id::Number(n),
        request: format!("eth_getStorageAt_{n}"),
        tx: n,
    }
}

fn response(n: u64) -> Response<&'static str> {
    Response {
        id: Id::Number(n),
        payload: "0x0",
    }
}

fn answer(n: u64) -> Reply<&'static str, &'static str> {
    Reply::Answered(ResponsePacket::Single(response(n)))
}

fn batching(max_batch_size: usize, flush_interval: Duration) -> BatchingTransport<String, u64> {
    BatchingTransport::new(BatchingConfig {
        max_batch_size,
        flush_interval,
        ..Default::default()
    })
    .unwrap()
}

fn sizes(flushed: &[Flush<String, u64>]) -> Vec<usize> {
    flushed
        .iter()
        .map(|flush| match flush {
            Flush::Single(_) => 1,
            Flush::Batch(batch) => batch.len(),
        })
        .collect()
}

fn senders(flushed: Vec<Flush<String, u64>>) -> Vec<u64> {
    let mut all = Vec::new();
    for flush in flushed {
        match flush {
            Flush::Single(pending) => all.push(pending.tx),
            Flush::Batch(batch) => all.extend(batch.into_iter().map(|pending| pending.tx)),
        }
    }
    all
}

fn answered(answers: &[Answer<u64, &'static str>]) -> Vec<(u64, bool)> {
    answers.iter().map(|answer| (answer.tx, answer.result.is_ok())).collect()
}

fn message(answer: &Answer<u64, &'static str>) -> String {
    match &answer.result {
        Err(TransportError::Custom(message)) => message.clone(),
        other => panic!("expected a custom error, got {other:?}"),
    }
}

#[test]
fn single_request_passthrough() {
    let mut transport: BatchingTransport<String, u64> =
        BatchingTransport::new(BatchingConfig::default()).unwrap();
    assert!(transport.enqueue(request(1), Duration::from_millis(7)));
    let flushed = transport.flush(Duration::from_millis(8));
    assert_eq!(flushed.len(), 1);
    // Single request should be sent as Single
    assert!(matches!(&flushed[0], Flush::Single(pending) if pending.tx == 1));
}

#[test]
fn concurrent_requests_batch() {
    let mut transport = batching(200, Duration::from_millis(5));
    let n = 50;
    for i in 0..n {
        transport.enqueue(request(i), Duration::from_millis(i / 25));
    }
    let flushed = transport.flush(Duration::from_millis(5));
    // All 50 requests should have been sent, in fewer calls
    assert_eq!(sizes(&flushed).iter().sum::<usize>(), n as usize);
    assert!(flushed.len() < n as usize);
    assert_eq!(sizes(&flushed), vec![50]);
}

#[test]
fn transport_error_propagates() {
    let reply: Reply<&str, &str> = Reply::Failed("mock error");
    assert!(matches!(single_response(reply), Err(ReplyError::Failed("mock error"))));
    let dropped: Reply<&str, &str> = Reply::Dropped;
    let err = single_response(dropped).unwrap_err();
    assert!(matches!(err.error(), Some(TransportError::BackendGone)));
}

#[test]
fn batch_passthrough() {
    let mut transport: BatchingTransport<String, u64> =
        BatchingTransport::new(BatchingConfig::default()).unwrap();
    let requests = vec![request(1), request(2)];
    assert!(transport.enqueue_all(requests, Duration::ZERO));
    let flushed = transport.flush(Duration::from_millis(1));
    assert_eq!(sizes(&flushed), vec![2]);
    let replies: Vec<Reply<&str, &str>> = senders(flushed).into_iter().map(answer).collect();
    match batch_response(replies) {
        Ok(ResponsePacket::Batch(v)) => {
            assert_eq!(v.len(), 2);
            assert!(v[0].id.same(&Id::Number(1)));
            assert!(v[1].id.same(&Id::Number(2)));
        }
        _ => panic!("expected batch response"),
    }
}

#[test]
fn max_batch_size_splitting() {
    let mut transport = batching(10, Duration::from_millis(50));
    // Send 25 requests; they are split into batches of 10, 10, 5
    let n = 25;
    for i in 0..n {
        transport.enqueue(request(i), Duration::ZERO);
    }
    let flushed = transport.flush(Duration::ZERO);
    assert_eq!(sizes(&flushed), vec![10, 10, 5]);
    assert_eq!(senders(flushed), (0..n).collect::<Vec<u64>>());
    assert!(transport.pending.is_empty());
}

#[test]
fn last_chunk_of_one_is_sent_as_single() {
    let mut transport = batching(3, Duration::from_millis(50));
    assert!(transport.enqueue_all((0..7).map(request).collect(), Duration::ZERO));
    let flushed = transport.flush(Duration::ZERO);
    assert_eq!(sizes(&flushed), vec![3, 3, 1]);
    assert!(matches!(flushed[2], Flush::Single(_)));
}

#[test]
fn requests_wait_for_the_interval_since_the_first() {
    let mut transport = batching(3, Duration::from_millis(10));
    assert_eq!(transport.flush_wait(Duration::from_millis(90)), None);
    assert!(transport.flush(Duration::from_millis(90)).is_empty());
    assert!(transport.enqueue(request(1), Duration::from_millis(100)));
    // The second neither starts the wait anew nor fills the batch
    assert!(!transport.enqueue(request(2), Duration::from_millis(106)));
    assert_eq!(
        transport.flush_wait(Duration::from_millis(106)),
        Some(Duration::from_millis(4))
    );
    assert!(transport.flush(Duration::from_millis(109)).is_empty());
    assert_eq!(transport.pending.len(), 2);
    // The third fills it
    assert!(transport.enqueue(request(3), Duration::from_millis(107)));
    assert_eq!(transport.flush_wait(Duration::from_millis(107)), Some(Duration::ZERO));
    assert_eq!(sizes(&transport.flush(Duration::from_millis(107))), vec![3]);
}

#[test]
fn requests_are_flushed_when_the_interval_is_over() {
    let mut transport = batching(100, Duration::from_millis(10));
    transport.enqueue(request(1), Duration::from_millis(100));
    transport.enqueue(request(2), Duration::from_millis(109));
    assert_eq!(transport.flush_wait(Duration::from_millis(120)), Some(Duration::ZERO));
    assert_eq!(sizes(&transport.flush(Duration::from_millis(110))), vec![2]);
}

#[test]
fn empty_batch_wakes_nobody() {
    let mut transport = batching(2, Duration::from_millis(10));
    assert!(!transport.enqueue_all(Vec::new(), Duration::from_millis(1)));
    assert_eq!(transport.flush_wait(Duration::from_millis(1)), None);
}

#[test]
fn batch_size_of_zero_is_refused() {
    let refused: Result<BatchingTransport<String, u64>, ZeroBatchSize> =
        BatchingTransport::new(BatchingConfig {
            max_batch_size: 0,
            ..Default::default()
        });
    assert!(matches!(refused, Err(ZeroBatchSize)));
}

#[test]
fn batching_config_defaults() {
    let config = BatchingConfig::default();
    assert_eq!(config.max_batch_size, 150);
    assert_eq!(config.flush_interval, Duration::from_millis(1));
    assert_eq!(config.max_missing_retries, 2);
    assert_eq!(INDIVIDUAL_FALLBACK_CONCURRENCY, 10);
}

/// Answers a batch, but for every third request.
fn dropping(outstanding: &[Pending]) -> ResponsePacket<&'static str> {
    let responses = outstanding
        .iter()
        .enumerate()
        .filter(|(i, _)| (i + 1) % 3 != 0)
        .map(|(_, pending)| response(pending.tx))
        .collect();
    ResponsePacket::from_responses(responses)
}

#[test]
fn retry_on_missing_responses() {
    let n = 12;
    let (mut retry, failed, mut step) =
        BatchRetry::begin::<&str>((0..n).map(request).collect(), 2);
    assert!(failed.is_empty());
    let mut done = Vec::new();
    let mut calls = 0;
    while step == BatchStep::SendBatch {
        calls += 1;
        let (answers, rejected, next) = retry.on_responses(dropping(&retry.outstanding));
        assert!(!rejected);
        done.extend(answered(&answers));
        step = next;
    }
    assert_eq!(calls, 2);
    // 12 requests leave 4 missing, and those leave 1 for the individual round
    assert_eq!(step, BatchStep::SendEach);
    assert_eq!(retry.outstanding.len(), 1);
    for pending in retry.outstanding {
        let reply = answer(pending.tx);
        done.push((pending.tx, individual_response(&pending.id, reply).is_ok()));
    }
    done.sort();
    assert_eq!(done, (0..n).map(|tx| (tx, true)).collect::<Vec<_>>());
}

#[test]
fn individual_fallback_on_batch_rejection() {
    let n = 6;
    let (mut retry, _, step) = BatchRetry::begin::<&str>((0..n).map(request).collect(), 2);
    assert_eq!(step, BatchStep::SendBatch);
    // A single response that matches no request rejects the whole batch
    let rejection = ResponsePacket::Single(Response {
        id: Id::Null,
        payload: "batch error",
    });
    let (answers, rejected, step) = retry.on_responses(rejection);
    assert!(answers.is_empty());
    assert!(rejected);
    // It is not retried as a batch
    assert_eq!(step, BatchStep::SendEach);
    assert_eq!(retry.outstanding.len(), n as usize);
    // Sent individually, every request succeeds
    let mut calls = 1;
    for pending in retry.outstanding {
        calls += 1;
        let response = individual_response(&pending.id, answer(pending.tx));
        assert!(matches!(
            response,
            Ok(ResponsePacket::Single(response)) if response.id.same(&pending.id)
        ));
    }
    assert!(calls >= n + 1);
}

#[test]
fn send_batch_with_retry_duplicate_id_detection() {
    let first = PendingRequest {
        id: Id::Number(1),
        request: "eth_getBalance".to_string(),
        tx: 10,
    };
    let second = PendingRequest {
        id: Id::Number(1),
        request: "eth_getCode".to_string(),
        tx: 20,
    };
    let (mut retry, failed, step) = BatchRetry::begin::<&str>(vec![first, second], 2);
    // First request (superseded by the duplicate) should get an error
    assert_eq!(answered(&failed), vec![(10, false)]);
    assert!(message(&failed[0]).contains("duplicate request ID"));
    assert_eq!(message(&failed[0]), DUPLICATE_ID);
    // Second request should succeed
    assert_eq!(step, BatchStep::SendBatch);
    let (answers, rejected, step) = retry.on_responses(ResponsePacket::Single(response(1)));
    assert_eq!(answered(&answers), vec![(20, true)]);
    assert!(!rejected);
    assert_eq!(step, BatchStep::Done);
}

#[test]
fn only_the_last_of_many_duplicates_is_sent() {
    let mut requests: Vec<Pending> = [1, 2, 1, 3, 2, 1].into_iter().map(request).collect();
    for (i, pending) in requests.iter_mut().enumerate() {
        pending.tx = i as u64;
    }
    let (retry, failed, _) = BatchRetry::begin::<&str>(requests, 2);
    assert_eq!(answered(&failed), vec![(0, false), (1, false), (2, false)]);
    let left: Vec<u64> = retry.outstanding.iter().map(|pending| pending.tx).collect();
    assert_eq!(left, vec![3, 4, 5]);
}

#[test]
fn responses_go_by_id_in_any_order() {
    let (mut retry, _, _) = BatchRetry::begin::<&str>((1..=3).map(request).collect(), 5);
    let responses = vec![response(3), response(9), response(1), response(3)];
    let (answers, rejected, step) = retry.on_responses(ResponsePacket::Batch(responses));
    assert_eq!(answered(&answers), vec![(3, true), (1, true)]);
    assert!(matches!(
        &answers[0].result,
        Ok(ResponsePacket::Single(response)) if response.id.same(&Id::Number(3))
    ));
    assert!(!rejected);
    assert_eq!(step, BatchStep::SendBatch);
    assert_eq!(retry.outstanding[0].tx, 2);
    assert_eq!(retry.attempt, 1);
}

#[test]
fn without_retries_requests_are_sent_individually_at_once() {
    let (_, _, step) = BatchRetry::begin::<&str>(vec![request(1), request(2)], 0);
    assert_eq!(step, BatchStep::SendEach);
    let (_, _, step) = BatchRetry::<String, u64>::begin::<&str>(Vec::new(), 3);
    assert_eq!(step, BatchStep::Done);
}

#[test]
fn failed_batch_tells_every_request() {
    let (mut retry, _, _) = BatchRetry::begin::<&str>(vec![request(1), request(2)], 2);
    let answers = retry.on_failure::<&str>("mock error");
    assert_eq!(answered(&answers), vec![(1, false), (2, false)]);
    assert_eq!(message(&answers[0]), "batch request failed: mock error");
    assert_eq!(message(&answers[1]), format!("{BATCH_FAILED}mock error"));
    assert!(retry.outstanding.is_empty());
    assert_eq!(retry.step(), BatchStep::Done);
}

#[test]
fn individual_request_without_a_response_is_missing() {
    let id = Id::Number(5);
    let empty: Reply<&str, &str> = Reply::Answered(ResponsePacket::Batch(Vec::new()));
    let err = individual_response(&id, empty).unwrap_err();
    assert!(matches!(
        err.error(),
        Some(TransportError::Custom(message)) if message == "missing response in batch"
    ));
    assert_eq!(MISSING_RESPONSE, "missing response in batch");
    // A response to another request is none to this one
    assert!(matches!(individual_response(&id, answer(99)), Err(ReplyError::Missing)));
    assert!(individual_response(&id, answer(5)).is_ok());
    let among: Reply<&str, &str> =
        Reply::Answered(ResponsePacket::Batch(vec![response(99), response(5)]));
    assert!(individual_response(&id, among).is_ok());
    let others: Reply<&str, &str> =
        Reply::Answered(ResponsePacket::Batch(vec![response(98), response(99)]));
    assert!(matches!(individual_response(&id, others), Err(ReplyError::Missing)));
    // An error without an id is handed on
    let unread: Reply<&str, &str> = Reply::Answered(ResponsePacket::Single(Response {
        id: Id::Null,
        payload: "invalid request",
    }));
    assert!(individual_response(&id, unread).is_ok());
    let failed: Reply<&str, &str> = Reply::Failed("down");
    let err = individual_response(&id, failed).unwrap_err();
    assert!(err.error().is_none());
    let dropped: Reply<&str, &str> = Reply::Dropped;
    assert!(matches!(individual_response(&id, dropped), Err(ReplyError::BackendGone)));
}

#[test]
fn request_that_no_answer_matches_is_missing_after_all_rounds() {
    let (mut retry, _, mut step) = BatchRetry::begin::<&str>(vec![request(4), request(5)], 2);
    while step == BatchStep::SendBatch {
        let packet = ResponsePacket::Batch(vec![response(4), response(99)]);
        step = retry.on_responses(packet).2;
    }
    assert_eq!(step, BatchStep::SendEach);
    assert_eq!(retry.outstanding.len(), 1);
    let left = &retry.outstanding[0];
    assert_eq!(left.tx, 5);
    assert!(matches!(individual_response(&left.id, answer(99)), Err(ReplyError::Missing)));
}

#[test]
fn batch_of_one_or_none_is_answered_by_a_batch() {
    let one = batch_response(vec![answer(1)]).unwrap();
    assert!(matches!(one, ResponsePacket::Batch(v) if v.len() == 1));
    let none: Vec<Reply<&str, &str>> = Vec::new();
    assert!(matches!(batch_response(none), Ok(ResponsePacket::Batch(v)) if v.is_empty()));
    let nested: Vec<Reply<&str, &str>> = vec![
        answer(1),
        Reply::Answered(ResponsePacket::Batch(vec![response(2), response(3)])),
        answer(4),
    ];
    let joined = batch_response(nested).unwrap().into_responses();
    let ids: Vec<bool> = joined
        .iter()
        .zip(1..=4)
        .map(|(response, n)| response.id.same(&Id::Number(n)))
        .collect();
    assert_eq!(ids, vec![true; 4]);
}

#[test]
fn first_missing_response_ends_a_batch() {
    let failed = batch_response(vec![answer(1), Reply::Failed("down"), Reply::Dropped]);
    assert!(matches!(failed, Err(ReplyError::Failed("down"))));
    let dropped = batch_response(vec![answer(1), Reply::Dropped, Reply::Failed("down")]);
    assert!(matches!(dropped, Err(ReplyError::BackendGone)));
    // What follows the first failure need not be waited for
    let cut: Vec<Reply<&str, &str>> = vec![Reply::Failed("down")];
    assert!(matches!(batch_response(cut), Err(ReplyError::Failed("down"))));
}

#[test]
fn ids_are_compared_by_value() {
    assert!(Id::Number(4).same(&Id::Number(4)));
    assert!(!Id::Number(4).same(&Id::Number(5)));
    assert!(Id::Text("a".into()).same(&Id::Text("a".into())));
    assert!(!Id::Text("4".into()).same(&Id::Number(4)));
    assert!(Id::Null.same(&Id::Null));
    assert!(!Id::Null.same(&Id::Text(String::new())));
}

#[test]
fn packets_are_measured_as_they_are_serialized() {
    let text = r#"{"jsonrpc":"2.0","id":1}"#;
    assert_eq!(request_bytes(&RequestPacket::Single(text.to_string())), 24);
    // Two texts, the comma between them, and the brackets
    let batch = RequestPacket::Batch(vec![text.to_string(), text.to_string()]);
    assert_eq!(request_bytes(&batch), 24 + 24 + 3);
    let three = RequestPacket::Batch(vec![" 1 ".to_string(), text.to_string(), "22".to_string()]);
    assert_eq!(request_bytes(&three), 1 + 24 + 2 + 2 + 2);
    assert_eq!(request_bytes(&RequestPacket::Batch(Vec::new())), 2);
    let broken = RequestPacket::Single("{".to_string());
    assert_eq!(request_bytes(&broken), usize::MAX);
    let partly_broken = RequestPacket::Batch(vec![text.to_string(), "{".to_string()]);
    assert_eq!(request_bytes(&partly_broken), usize::MAX);
    // Bytes are counted, not characters, and blanks around a text are not
    assert_eq!(request_bytes(&RequestPacket::Single(" \"\u{e4}\" ".to_string())), 4);
    assert_eq!(bytes_or_max(Some(7)), 7);
    assert_eq!(bytes_or_max(None), usize::MAX);
}
