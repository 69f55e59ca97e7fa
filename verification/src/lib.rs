//! Load balancing, rate-limit throttling and request batching for JSON-RPC transports.
//!
//! - [`LoadBalancedTransport`] distributes requests over endpoints by weighted round-robin. A
//!   [`Call`] takes one request through rotation, failover and retry rounds.
//! - [`ThrottleRegistry`] keeps one [`DomainThrottleState`] per rate-limit group, which all
//!   endpoints of the group share: a 429 on one of them makes all of them back off.
//! - [`ClientRegistry`] keeps one HTTP client per rate-limit group.
//! - [`BatchingTransport`] accumulates requests into batches, and a [`BatchRetry`] takes one batch
//!   through the retries of missing responses.
//!
//! Nothing here waits, locks or sends: a value decides what is to be done, its owner does it, and
//! reports what came of it. What holds of several operations together stands in the modules whose
//! names end in `_laws`.
pub mod balancer;
pub mod balancer_laws;
pub mod batching;
pub mod batching_laws;
pub mod call;
pub mod call_laws;
pub mod call_step_laws;
pub mod chart;
pub mod client_pool;
pub mod clock;
pub mod domain;
pub mod duration;
pub mod endpoint;
pub mod error;
pub mod lookahead;
pub mod packet;
pub mod registry;
pub mod registry_laws;
pub mod retry;
pub mod retry_laws;
pub mod snapshot;
pub mod text;
pub mod throttle;
pub mod throttle_laws;

pub use balancer::{
    BalancerConfig, InvalidEndpoints, LoadBalancedTransport, LoadBalancedTransportBuilder,
};
pub use batching::{
    batch_response, single_response, BatchingConfig, BatchingTransport, Flush, PendingRequest,
    Reply, ReplyError, ZeroBatchSize, MISSING_RESPONSE,
};
pub use call::{Action, Call, Event, Phase, Rejection, TOO_LARGE};
pub use client_pool::{
    set_default_http_client_config, shared_client_for_domain, ClientError, ClientRegistry,
    HttpClientConfig,
};
pub use domain::extract_rate_limit_domain;
pub use endpoint::{EndpointConfig, InvalidUrl, Url, Weight};
pub use error::TransportError;
pub use lookahead::{can_begin, can_step};
pub use packet::{request_bytes, Id, RequestPacket, Response, ResponsePacket};
pub use registry::{
    domain_throttle, max_domain_backoff, max_domain_backoff_at, reset_registry,
    set_default_throttle_config, weighted_domain_backoff, weighted_domain_backoff_at, DomainEntry,
    ThrottleRegistry,
};
pub use retry::{
    individual_response, Answer, BatchRetry, BatchStep, INDIVIDUAL_FALLBACK_CONCURRENCY,
};
pub use snapshot::{
    log_throttle_summary, log_throttle_summary_at, throttle_snapshot, throttle_snapshot_at,
    DomainThrottleSnapshot, ThrottleStatus,
};
pub use throttle::{
    pre_request_delay, pre_request_delay_at, record_batch_rejection, record_batch_rejection_at,
    record_rate_limit, record_rate_limit_at, record_skip, record_success, DomainThrottleState,
    ThrottleConfig,
};
