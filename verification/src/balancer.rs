//! The load balancer: configuration, construction and endpoint selection.
use crate::client_pool;
use crate::client_pool::{
    set_default_http_client_config, shared_client_for_domain, ClientError, ClientRegistry,
    HttpClientConfig,
};
use crate::duration;
use crate::endpoint::{EndpointConfig, Url, Weight};
use crate::error::TransportError;
use crate::registry::{domain_throttle, set_default_throttle_config, ThrottleRegistry};
use crate::throttle::ThrottleConfig;
use std::time::Duration;
use vstd::prelude::*;

verus! {

/// Configuration for the load balancer's retry and failover behavior.
#[derive(Debug)]
pub struct BalancerConfig {
    /// Maximum number of full-rotation retry rounds after the initial attempt.
    /// Total rotation attempts = 1 (initial) + max_retry_rounds. Default: 3.
    pub max_retry_rounds: u32,
    /// Initial backoff delay between retry rounds. Default: 100ms.
    pub initial_backoff: Duration,
    /// Maximum backoff delay between retry rounds. Default: 4s.
    pub max_backoff: Duration,
    /// Delay inserted between failovers on 429 responses. Default: 75ms.
    pub rate_limit_failover_delay: Duration,
    /// Domain throttle delay from which on an endpoint is skipped. Default: 500ms.
    pub heavy_throttle_threshold: Duration,
}

impl BalancerConfig {
    /// The configuration is the default one.
    pub open spec fn is_default(self) -> bool {
        &&& self.max_retry_rounds == 3
        &&& duration::nanos(self.initial_backoff) == duration::millis(100)
        &&& duration::nanos(self.max_backoff) == duration::millis(4000)
        &&& duration::nanos(self.rate_limit_failover_delay) == duration::millis(75)
        &&& duration::nanos(self.heavy_throttle_threshold) == duration::millis(500)
    }
}

impl Default for BalancerConfig {
    fn default() -> (config: Self)
        ensures
            config.is_default(),
    {
        BalancerConfig {
            max_retry_rounds: 3,
            initial_backoff: Duration::from_millis(100),
            max_backoff: Duration::from_secs(4),
            rate_limit_failover_delay: Duration::from_millis(75),
            heavy_throttle_threshold: Duration::from_millis(500),
        }
    }
}

impl Clone for BalancerConfig {
    fn clone(&self) -> (config: Self)
        ensures
            config == *self,
    {
        BalancerConfig {
            max_retry_rounds: self.max_retry_rounds,
            initial_backoff: self.initial_backoff,
            max_backoff: self.max_backoff,
            rate_limit_failover_delay: self.rate_limit_failover_delay,
            heavy_throttle_threshold: self.heavy_throttle_threshold,
        }
    }
}

/// Why endpoints cannot be balanced; the number is the position of the endpoint at fault.
#[derive(Clone, Copy, Debug, PartialEq, Eq, Structural)]
pub enum InvalidEndpoints {
    /// There are none.
    Empty,
    /// An endpoint's weight is zero.
    ZeroWeight(usize),
    /// An endpoint's `max_request_bytes` is set to zero.
    ZeroRequestBytes(usize),
    /// An endpoint's `max_in_flight` is set to zero.
    ZeroInFlight(usize),
    /// With this endpoint the total weight exceeds `u64::MAX`.
    WeightOverflow(usize),
}

/// Sum of the endpoints' weights.
pub open spec fn weight_sum(endpoints: Seq<EndpointConfig>) -> nat
    decreases endpoints.len(),
{
    if endpoints.len() == 0 {
        0
    } else {
        weight_sum(endpoints.drop_last()) + endpoints.last().weight.0 as nat
    }
}

/// What is wrong with the endpoint at position `i`, if the ones before it are in order.
pub open spec fn endpoint_fault(endpoints: Seq<EndpointConfig>, i: int) -> Option<InvalidEndpoints> {
    let endpoint = endpoints[i];
    if endpoint.weight.0 == 0 {
        Some(InvalidEndpoints::ZeroWeight(i as usize))
    } else if endpoint.max_request_bytes == Some(0usize) {
        Some(InvalidEndpoints::ZeroRequestBytes(i as usize))
    } else if endpoint.max_in_flight == Some(0usize) {
        Some(InvalidEndpoints::ZeroInFlight(i as usize))
    } else if weight_sum(endpoints.take(i + 1)) > u64::MAX {
        Some(InvalidEndpoints::WeightOverflow(i as usize))
    } else {
        None
    }
}

/// The endpoints can be balanced: there is one, and nothing is wrong with any.
pub open spec fn valid_endpoints(endpoints: Seq<EndpointConfig>) -> bool {
    &&& endpoints.len() > 0
    &&& forall|i: int|
        0 <= i < endpoints.len() ==> (#[trigger] endpoint_fault(endpoints, i)) is None
}

/// Builder for [`LoadBalancedTransport`].
///
/// Allows configuring the balancer, throttle, and HTTP client behavior before constructing the
/// transport.
#[derive(Debug)]
pub struct LoadBalancedTransportBuilder {
    /// The endpoints, in order.
    pub endpoints: Vec<EndpointConfig>,
    /// Retry and failover configuration.
    pub config: BalancerConfig,
    /// Throttle configuration for newly registered domains, if it is to be set.
    pub throttle_config: Option<ThrottleConfig>,
    /// HTTP client configuration for newly made clients, if it is to be set.
    pub http_client_config: Option<HttpClientConfig>,
}

/// A load balancer over multiple HTTP endpoints, using weighted round-robin with automatic
/// failover.
///
/// Endpoints on the same domain share a throttle state, so that a 429 on one of them makes all of
/// them back off, and a single HTTP client.
#[derive(Debug)]
pub struct LoadBalancedTransport {
    /// URL of each endpoint.
    pub urls: Vec<Url>,
    /// HTTP client of each endpoint. Endpoints on the same domain share one.
    pub clients: Vec<reqwest::Client>,
    /// Position of each endpoint's throttle state in the registry. Endpoints on the same domain
    /// share one.
    pub endpoint_throttles: Vec<usize>,
    /// Optional maximum serialized request bytes per endpoint.
    pub endpoint_request_caps: Vec<Option<usize>>,
    /// Optional bound on simultaneous requests per endpoint.
    pub endpoint_in_flight: Vec<Option<usize>>,
    /// Precomputed cumulative weight boundaries for O(log n) weighted selection.
    pub cumulative_weights: Vec<u64>,
    /// Sum of all endpoint weights.
    pub total_weight: u64,
    /// Monotonically increasing counter (modulo 2^64) for round-robin distribution.
    pub counter: u64,
    /// Retry and failover configuration.
    pub config: BalancerConfig,
}

/// Position of the first boundary beyond `bucket`; the number of boundaries when there is none.
pub open spec fn first_beyond(cumulative: Seq<u64>, bucket: int) -> int
    decreases cumulative.len(),
{
    if cumulative.len() == 0 {
        0
    } else if cumulative[0] > bucket {
        0
    } else {
        1 + first_beyond(cumulative.skip(1), bucket)
    }
}

impl LoadBalancedTransport {
    /// Number of endpoints.
    pub open spec fn size(self) -> nat {
        self.urls@.len()
    }

    /// There is an endpoint, everything is known of each, and the weight boundaries rise strictly
    /// up to the total.
    pub open spec fn well_formed(self) -> bool {
        let n = self.size();
        &&& n > 0
        &&& self.clients@.len() == n
        &&& self.endpoint_throttles@.len() == n
        &&& self.endpoint_request_caps@.len() == n
        &&& self.endpoint_in_flight@.len() == n
        &&& self.cumulative_weights@.len() == n
        &&& rising(self.cumulative_weights@)
        &&& self.cumulative_weights@.last() == self.total_weight
    }

    /// Every endpoint's throttle state stands in the registry.
    pub open spec fn registered_in(self, registry: ThrottleRegistry) -> bool {
        forall|i: int|
            0 <= i < self.endpoint_throttles@.len() ==> (#[trigger] self.endpoint_throttles@[i])
                < registry.entries@.len()
    }

    /// The endpoint that a counter value selects.
    pub open spec fn selected(self, tick: int) -> int {
        first_beyond(self.cumulative_weights@, tick % self.total_weight as int)
    }

    /// The endpoint accepts a request of that many bytes.
    pub open spec fn accepts(self, index: int, request_bytes: usize) -> bool {
        match self.endpoint_request_caps@[index] {
            Some(limit) => request_bytes <= limit,
            None => true,
        }
    }

    /// The transport balances these endpoints, and has not selected any yet.
    pub open spec fn balances(
        self,
        endpoints: Seq<EndpointConfig>,
        config: BalancerConfig,
    ) -> bool {
        &&& self.size() == endpoints.len()
        &&& forall|i: int|
            #![trigger endpoints[i]]
            0 <= i < endpoints.len() ==> {
                &&& self.urls@[i] == endpoints[i].url
                &&& self.endpoint_request_caps@[i] == endpoints[i].max_request_bytes
                &&& self.endpoint_in_flight@[i] == endpoints[i].max_in_flight
                &&& self.cumulative_weights@[i] == weight_sum(endpoints.take(i + 1))
            }
        &&& self.total_weight == weight_sum(endpoints)
        &&& self.counter == 0
        &&& self.config == config
    }
}

/// The numbers rise strictly, from above zero.
pub open spec fn rising(cumulative: Seq<u64>) -> bool {
    &&& forall|i: int, j: int|
        #![trigger cumulative[i], cumulative[j]]
        0 <= i < j < cumulative.len() ==> cumulative[i] < cumulative[j]
    &&& cumulative.len() > 0 ==> cumulative[0] > 0
}

/// The throttle configuration for newly registered domains: the one to be set, if there is one,
/// and otherwise the registry's.
pub open spec fn throttle_default(
    registry: ThrottleRegistry,
    config: Option<ThrottleConfig>,
) -> ThrottleConfig {
    match config {
        Some(config) => config,
        None => *registry.default_config,
    }
}

/// The client configuration for newly made clients: the one to be set, if there is one, and
/// otherwise the registry's.
pub open spec fn client_default(
    registry: ClientRegistry,
    config: Option<HttpClientConfig>,
) -> HttpClientConfig {
    match config {
        Some(config) => config,
        None => *registry.default_config,
    }
}

/// One of the first `n` endpoints belongs to the rate-limit group.
pub open spec fn in_group(endpoints: Seq<EndpointConfig>, n: int, group: Seq<char>) -> bool {
    exists|i: int| 0 <= i < n && (#[trigger] endpoints[i]).url@.rate_limit_group() == group
}

/// `after` is `before` with domains of the first `n` endpoints registered: what was there is
/// unchanged, and what is new has seen no traffic, is under the default configuration, and is the
/// domain of one of the endpoints.
pub open spec fn throttles_added(
    before: ThrottleRegistry,
    after: ThrottleRegistry,
    default: ThrottleConfig,
    endpoints: Seq<EndpointConfig>,
    n: int,
) -> bool {
    &&& *after.default_config == default
    &&& before.entries@.len() <= after.entries@.len()
    &&& after.entries@.take(before.entries@.len() as int) == before.entries@
    &&& forall|k: int|
        #![trigger after.entries@[k]]
        before.entries@.len() <= k < after.entries@.len() ==> {
            &&& after.entries@[k].state.fresh(default)
            &&& in_group(endpoints, n, after.entries@[k].domain@)
        }
}

/// `after` is `before` with clients for domains of the first `n` endpoints: what was there is
/// unchanged, and what is new is made under the default configuration for the domain of one of
/// the endpoints.
pub open spec fn clients_added(
    before: ClientRegistry,
    after: ClientRegistry,
    default: HttpClientConfig,
    endpoints: Seq<EndpointConfig>,
    n: int,
) -> bool {
    &&& *after.default_config == default
    &&& before.entries@.len() <= after.entries@.len()
    &&& after.entries@.take(before.entries@.len() as int) == before.entries@
    &&& forall|k: int|
        #![trigger after.entries@[k]]
        before.entries@.len() <= k < after.entries@.len() ==> {
            &&& client_pool::client_settings(after.entries@[k].client) == default.settings()
            &&& in_group(endpoints, n, after.entries@[k].domain@)
        }
}

/// The registries after building stopped at the endpoint at position `n`: its domain has no
/// client. The domains of the endpoints before it are registered and have clients, and nothing
/// else has been added.
pub open spec fn stopped_at(
    throttles: (ThrottleRegistry, ThrottleRegistry),
    clients: (ClientRegistry, ClientRegistry),
    throttle_config: ThrottleConfig,
    client_config: HttpClientConfig,
    endpoints: Seq<EndpointConfig>,
    n: int,
) -> bool {
    &&& 0 <= n < endpoints.len()
    &&& !clients.1.knows(endpoints[n].url@.rate_limit_group())
    &&& forall|i: int|
        #![trigger endpoints[i]]
        0 <= i < n ==> {
            &&& throttles.1.knows(endpoints[i].url@.rate_limit_group())
            &&& clients.1.knows(endpoints[i].url@.rate_limit_group())
        }
    &&& throttles_added(throttles.0, throttles.1, throttle_config, endpoints, n)
    &&& clients_added(clients.0, clients.1, client_config, endpoints, n)
}

impl LoadBalancedTransportBuilder {
    /// Set the balancer retry/failover configuration.
    pub fn config(self, config: BalancerConfig) -> (builder: Self)
        ensures
            builder == (LoadBalancedTransportBuilder { config, ..self }),
    {
        LoadBalancedTransportBuilder { config, ..self }
    }

    /// Set the domain throttle configuration.
    ///
    /// This sets the default for newly registered domains. Already-registered domains keep their
    /// existing configuration.
    pub fn throttle_config(self, config: ThrottleConfig) -> (builder: Self)
        ensures
            builder == (LoadBalancedTransportBuilder { throttle_config: Some(config), ..self }),
    {
        LoadBalancedTransportBuilder { throttle_config: Some(config), ..self }
    }

    /// Set the HTTP client pool configuration.
    ///
    /// This sets the default for newly made clients. Domains that have a client keep it.
    pub fn http_client_config(self, config: HttpClientConfig) -> (builder: Self)
        ensures
            builder == (LoadBalancedTransportBuilder { http_client_config: Some(config), ..self }),
    {
        LoadBalancedTransportBuilder { http_client_config: Some(config), ..self }
    }

    /// Checks that the endpoints can be balanced; reports the first fault.
    pub fn validate(&self) -> (r: Result<(), InvalidEndpoints>)
        ensures
            match r {
                Ok(()) => valid_endpoints(self.endpoints@),
                Err(InvalidEndpoints::Empty) => self.endpoints@.len() == 0,
                Err(fault) => exists|i: int|
                    {
                        &&& 0 <= i < self.endpoints@.len()
                        &&& #[trigger] endpoint_fault(self.endpoints@, i) == Some(fault)
                        &&& valid_endpoints(self.endpoints@.take(i)) || i == 0
                    },
            },
    {
        if self.endpoints.len() == 0 {
            return Err(InvalidEndpoints::Empty);
        }
        let mut total: u64 = 0;
        let mut i: usize = 0;
        while i < self.endpoints.len()
            invariant
                i <= self.endpoints.len(),
                total == weight_sum(self.endpoints@.take(i as int)),
                forall|k: int|
                    0 <= k < i ==> (#[trigger] endpoint_fault(self.endpoints@, k)) is None,
            decreases self.endpoints.len() - i,
        {
            let endpoint = &self.endpoints[i];
            let ghost fault = endpoint_fault(self.endpoints@, i as int);
            proof {
                assert(self.endpoints@.take(i + 1).drop_last() =~= self.endpoints@.take(i as int));
                assert forall|k: int| 0 <= k < i implies (#[trigger] endpoint_fault(
                    self.endpoints@.take(i as int),
                    k,
                )) is None by {
                    assert(endpoint_fault(self.endpoints@, k) is None);
                    assert(self.endpoints@.take(i as int).take(k + 1) =~= self.endpoints@.take(
                        k + 1,
                    ));
                }
            }
            if endpoint.weight.0 == 0 {
                return Err(InvalidEndpoints::ZeroWeight(i));
            }
            if let Some(limit) = endpoint.max_request_bytes {
                if limit == 0 {
                    return Err(InvalidEndpoints::ZeroRequestBytes(i));
                }
            }
            if let Some(limit) = endpoint.max_in_flight {
                if limit == 0 {
                    return Err(InvalidEndpoints::ZeroInFlight(i));
                }
            }
            match total.checked_add(endpoint.weight.0 as u64) {
                Some(sum) => {
                    total = sum;
                },
                None => {
                    return Err(InvalidEndpoints::WeightOverflow(i));
                },
            }
            i += 1;
        }
        Ok(())
    }

    /// Build the [`LoadBalancedTransport`].
    ///
    /// Registers the endpoints' domains, and makes HTTP clients for the domains that have none.
    /// An error is returned if the machine cannot make an HTTP client, that is, exactly if one of
    /// the domains is left without one.
    pub fn build(
        self,
        throttles: &mut ThrottleRegistry,
        clients: &mut ClientRegistry,
    ) -> (r: Result<LoadBalancedTransport, ClientError>)
        requires
            valid_endpoints(self.endpoints@),
            old(throttles).well_formed(),
            old(clients).well_formed(),
        ensures
            final(throttles).well_formed(),
            final(clients).well_formed(),
            old(throttles).decay_defined() ==> final(throttles).decay_defined(),
            throttles_added(
                *old(throttles),
                *final(throttles),
                throttle_default(*old(throttles), self.throttle_config),
                self.endpoints@,
                self.endpoints@.len() as int,
            ),
            clients_added(
                *old(clients),
                *final(clients),
                client_default(*old(clients), self.http_client_config),
                self.endpoints@,
                self.endpoints@.len() as int,
            ),
            r is Err ==> exists|i: int|
                0 <= i < self.endpoints@.len() && !old(clients).knows(
                    (#[trigger] self.endpoints@[i]).url@.rate_limit_group(),
                ),
            r is Err <==> exists|i: int|
                0 <= i < self.endpoints@.len() && !final(clients).knows(
                    (#[trigger] self.endpoints@[i]).url@.rate_limit_group(),
                ),
            r is Err ==> exists|n: int|
                stopped_at(
                    (*old(throttles), *final(throttles)),
                    (*old(clients), *final(clients)),
                    throttle_default(*old(throttles), self.throttle_config),
                    client_default(*old(clients), self.http_client_config),
                    self.endpoints@,
                    n,
                ),
            r matches Ok(transport) ==> {
                &&& transport.well_formed()
                &&& transport.balances(self.endpoints@, self.config)
                &&& transport.registered_in(*final(throttles))
                &&& forall|i: int|
                    #![trigger self.endpoints@[i]]
                    0 <= i < self.endpoints@.len() ==> {
                        let group = self.endpoints@[i].url@.rate_limit_group();
                        &&& final(throttles).holds(transport.endpoint_throttles@[i] as int, group)
                        &&& final(clients).serves(group, transport.clients@[i])
                    }
            },
    {
        let ghost endpoints = self.endpoints@;
        let ghost throttle_config = throttle_default(*old(throttles), self.throttle_config);
        let ghost client_config = client_default(*old(clients), self.http_client_config);
        if let Some(config) = self.throttle_config {
            set_default_throttle_config(throttles, config);
        }
        if let Some(config) = self.http_client_config {
            set_default_http_client_config(clients, config);
        }
        let mut urls: Vec<Url> = Vec::new();
        let mut endpoint_clients: Vec<reqwest::Client> = Vec::new();
        let mut endpoint_throttles: Vec<usize> = Vec::new();
        let mut cumulative: Vec<u64> = Vec::new();
        let mut request_caps: Vec<Option<usize>> = Vec::new();
        let mut in_flight_limits: Vec<Option<usize>> = Vec::new();
        let mut total: u64 = 0;
        proof {
            assert(throttles.entries@.take(throttles.entries@.len() as int)
                =~= throttles.entries@);
            assert(clients.entries@.take(clients.entries@.len() as int) =~= clients.entries@);
        }
        for endpoint in it: self.endpoints
            invariant
                it.seq() == endpoints,
                endpoints == self.endpoints@,
                throttle_config == throttle_default(*old(throttles), self.throttle_config),
                client_config == client_default(*old(clients), self.http_client_config),
                valid_endpoints(endpoints),
                throttles.well_formed(),
                clients.well_formed(),
                old(throttles).decay_defined() ==> throttles.decay_defined(),
                throttles_added(
                    *old(throttles),
                    *throttles,
                    throttle_config,
                    endpoints,
                    it.index() as int,
                ),
                clients_added(
                    *old(clients),
                    *clients,
                    client_config,
                    endpoints,
                    it.index() as int,
                ),
                urls@.len() == it.index(),
                endpoint_clients@.len() == it.index(),
                endpoint_throttles@.len() == it.index(),
                cumulative@.len() == it.index(),
                request_caps@.len() == it.index(),
                in_flight_limits@.len() == it.index(),
                total == weight_sum(endpoints.take(it.index() as int)),
                rising(cumulative@),
                cumulative@.len() > 0 ==> cumulative@.last() == total,
                forall|i: int|
                    #![trigger endpoints[i]]
                    0 <= i < it.index() ==> {
                        let group = endpoints[i].url@.rate_limit_group();
                        &&& urls@[i] == endpoints[i].url
                        &&& request_caps@[i] == endpoints[i].max_request_bytes
                        &&& in_flight_limits@[i] == endpoints[i].max_in_flight
                        &&& cumulative@[i] == weight_sum(endpoints.take(i + 1))
                        &&& throttles.holds(endpoint_throttles@[i] as int, group)
                        &&& clients.serves(group, endpoint_clients@[i])
                    },
        {
            let ghost n = it.index() as int;
            let ghost throttles_before = *throttles;
            let ghost clients_before = *clients;
            proof {
                assert(endpoints.take(n + 1).drop_last() =~= endpoints.take(n));
                assert(endpoint_fault(endpoints, n) is None);
                assert(endpoints[n] == endpoint);
            }
            total = total + endpoint.weight.0 as u64;
            cumulative.push(total);
            let domain: String = endpoint.url.rate_limit_domain();
            let client = match shared_client_for_domain(clients, domain.as_str()) {
                Ok(client) => client,
                Err(err) => {
                    proof {
                        lemma_more_endpoints(endpoints, n, endpoints.len() as int);
                        let group = endpoints[n].url@.rate_limit_group();
                        assert forall|k: int| !old(clients).holds(k, group) by {
                            if old(clients).holds(k, group) {
                                let kept = old(clients).entries@.len() as int;
                                assert(clients.entries@.take(kept)[k] == clients.entries@[k]);
                                assert(clients.holds(k, group));
                            }
                        }
                        assert(!old(clients).knows(endpoints[n].url@.rate_limit_group()));
                        assert forall|i: int| #![trigger endpoints[i]] 0 <= i < n implies {
                            &&& throttles.knows(endpoints[i].url@.rate_limit_group())
                            &&& clients.knows(endpoints[i].url@.rate_limit_group())
                        } by {
                            let earlier = endpoints[i].url@.rate_limit_group();
                            assert(throttles.holds(endpoint_throttles@[i] as int, earlier));
                            assert(clients.serves(earlier, endpoint_clients@[i]));
                        }
                        assert(stopped_at(
                            (*old(throttles), *throttles),
                            (*old(clients), *clients),
                            throttle_config,
                            client_config,
                            endpoints,
                            n,
                        ));
                    }
                    return Err(err);
                },
            };
            let throttle: usize = domain_throttle(throttles, domain.as_str());
            proof {
                lemma_added(
                    *old(throttles),
                    throttles_before,
                    *throttles,
                    throttle_config,
                    endpoints,
                    n,
                );
                lemma_provided(
                    *old(clients),
                    clients_before,
                    *clients,
                    client_config,
                    endpoints,
                    n,
                );
            }
            endpoint_throttles.push(throttle);
            endpoint_clients.push(client);
            urls.push(endpoint.url);
            request_caps.push(endpoint.max_request_bytes);
            in_flight_limits.push(endpoint.max_in_flight);
        }
        proof {
            assert(endpoints.take(endpoints.len() as int) =~= endpoints);
            assert forall|i: int| 0 <= i < endpoint_throttles@.len() implies (
            #[trigger] endpoint_throttles@[i]) < throttles.entries@.len() by {
                let group = endpoints[i].url@.rate_limit_group();
                assert(throttles.holds(endpoint_throttles@[i] as int, group));
            }
            assert forall|i: int| #![trigger endpoints[i]] 0 <= i
                < endpoints.len() implies clients.knows(
                endpoints[i].url@.rate_limit_group(),
            ) by {
                assert(clients.serves(
                    endpoints[i].url@.rate_limit_group(),
                    endpoint_clients@[i],
                ));
            }
        }
        Ok(
            LoadBalancedTransport {
                urls,
                clients: endpoint_clients,
                endpoint_throttles,
                endpoint_request_caps: request_caps,
                endpoint_in_flight: in_flight_limits,
                cumulative_weights: cumulative,
                total_weight: total,
                counter: 0,
                config: self.config,
            },
        )
    }
}

/// More endpoints have no fewer groups.
proof fn lemma_more_endpoints(endpoints: Seq<EndpointConfig>, n: int, m: int)
    requires
        0 <= n <= m,
    ensures
        forall|g: Seq<char>| in_group(endpoints, n, g) ==> in_group(endpoints, m, g),
{
    assert forall|g: Seq<char>| in_group(endpoints, n, g) implies in_group(endpoints, m, g) by {
        let i = choose|i: int|
            0 <= i < n && (#[trigger] endpoints[i]).url@.rate_limit_group() == g;
        assert(endpoints[i].url@.rate_limit_group() == g);
    }
}

/// Registering the domain of endpoint `n` keeps what the registry holds, and adds at most that
/// domain.
proof fn lemma_added(
    first: ThrottleRegistry,
    before: ThrottleRegistry,
    after: ThrottleRegistry,
    default: ThrottleConfig,
    endpoints: Seq<EndpointConfig>,
    n: int,
)
    requires
        0 <= n < endpoints.len(),
        throttles_added(first, before, default, endpoints, n),
        before.registers(endpoints[n].url@.rate_limit_group(), after),
    ensures
        throttles_added(first, after, default, endpoints, n + 1),
        forall|k: int, d: Seq<char>| before.holds(k, d) ==> #[trigger] after.holds(k, d),
{
    let group = endpoints[n].url@.rate_limit_group();
    lemma_more_endpoints(endpoints, n, n + 1);
    assert(in_group(endpoints, n + 1, group));
    if !before.knows(group) {
        assert forall|k: int| #![trigger after.entries@[k]] 0 <= k
            < before.entries@.len() implies after.entries@[k] == before.entries@[k] by {
            assert(after.entries@.drop_last()[k] == before.entries@[k]);
        }
    }
    let m = first.entries@.len() as int;
    assert(after.entries@.take(m) =~= before.entries@.take(m));
    assert forall|k: int| #![trigger after.entries@[k]] m <= k < after.entries@.len() implies {
        &&& after.entries@[k].state.fresh(default)
        &&& in_group(endpoints, n + 1, after.entries@[k].domain@)
    } by {
        if k < before.entries@.len() {
            assert(after.entries@[k] == before.entries@[k]);
        }
    }
}

/// Providing a client for the domain of endpoint `n` keeps what the registry holds, and adds at
/// most that domain.
proof fn lemma_provided(
    first: ClientRegistry,
    before: ClientRegistry,
    after: ClientRegistry,
    default: HttpClientConfig,
    endpoints: Seq<EndpointConfig>,
    n: int,
)
    requires
        0 <= n < endpoints.len(),
        clients_added(first, before, default, endpoints, n),
        before.provides(endpoints[n].url@.rate_limit_group(), after),
    ensures
        clients_added(first, after, default, endpoints, n + 1),
        forall|d: Seq<char>, c: reqwest::Client|
            before.serves(d, c) ==> #[trigger] after.serves(d, c),
{
    let group = endpoints[n].url@.rate_limit_group();
    lemma_more_endpoints(endpoints, n, n + 1);
    assert(in_group(endpoints, n + 1, group));
    if !before.knows(group) {
        assert forall|k: int| #![trigger after.entries@[k]] 0 <= k
            < before.entries@.len() implies after.entries@[k] == before.entries@[k] by {
            assert(after.entries@.drop_last()[k] == before.entries@[k]);
        }
    }
    let m = first.entries@.len() as int;
    assert(after.entries@.take(m) =~= before.entries@.take(m));
    assert forall|k: int| #![trigger after.entries@[k]] m <= k < after.entries@.len() implies {
        &&& client_pool::client_settings(after.entries@[k].client) == default.settings()
        &&& in_group(endpoints, n + 1, after.entries@[k].domain@)
    } by {
        if k < before.entries@.len() {
            assert(after.entries@[k] == before.entries@[k]);
        }
    }
    assert forall|d: Seq<char>, c: reqwest::Client| before.serves(d, c) implies
        #[trigger] after.serves(d, c) by {
        let i = choose|i: int| #[trigger] before.holds(i, d) && before.entries@[i].client == c;
        assert(after.entries@[i] == before.entries@[i]);
        assert(after.holds(i, d));
    }
}

impl LoadBalancedTransport {
    /// Create a new load-balanced transport from a list of `(url, weight)` pairs with default
    /// configuration.
    ///
    /// Endpoints on the same domain automatically share a single HTTP client and a single
    /// throttle state. For custom configuration, use [`LoadBalancedTransport::builder`].
    pub fn new(
        endpoints: Vec<(Url, Weight)>,
        throttles: &mut ThrottleRegistry,
        clients: &mut ClientRegistry,
    ) -> (r: Result<LoadBalancedTransport, ClientError>)
        requires
            valid_endpoints(unrestricted(endpoints@)),
            old(throttles).well_formed(),
            old(clients).well_formed(),
        ensures
            final(throttles).well_formed(),
            final(clients).well_formed(),
            old(throttles).decay_defined() ==> final(throttles).decay_defined(),
            throttles_added(
                *old(throttles),
                *final(throttles),
                *old(throttles).default_config,
                unrestricted(endpoints@),
                endpoints@.len() as int,
            ),
            clients_added(
                *old(clients),
                *final(clients),
                *old(clients).default_config,
                unrestricted(endpoints@),
                endpoints@.len() as int,
            ),
            r is Err ==> exists|i: int|
                0 <= i < endpoints@.len() && !old(clients).knows(
                    (#[trigger] endpoints@[i]).0@.rate_limit_group(),
                ),
            r is Err <==> exists|i: int|
                0 <= i < endpoints@.len() && !final(clients).knows(
                    (#[trigger] endpoints@[i]).0@.rate_limit_group(),
                ),
            r is Err ==> exists|n: int|
                stopped_at(
                    (*old(throttles), *final(throttles)),
                    (*old(clients), *final(clients)),
                    *old(throttles).default_config,
                    *old(clients).default_config,
                    unrestricted(endpoints@),
                    n,
                ),
            r matches Ok(transport) ==> {
                &&& transport.well_formed()
                &&& transport.balances(unrestricted(endpoints@), transport.config)
                &&& transport.config.is_default()
                &&& transport.registered_in(*final(throttles))
                &&& forall|i: int|
                    #![trigger endpoints@[i]]
                    0 <= i < endpoints@.len() ==> {
                        let group = endpoints@[i].0@.rate_limit_group();
                        &&& final(throttles).holds(transport.endpoint_throttles@[i] as int, group)
                        &&& final(clients).serves(group, transport.clients@[i])
                    }
            },
    {
        let ghost pairs = endpoints@;
        let r = LoadBalancedTransport::builder(endpoints).build(throttles, clients);
        proof {
            let configs = unrestricted(pairs);
            assert forall|i: int| #![trigger pairs[i]] 0 <= i < pairs.len() implies configs[i].url
                == pairs[i].0 by {}
            assert forall|i: int| #![trigger configs[i]] 0 <= i < pairs.len() implies configs[i].url
                == pairs[i].0 by {}
        }
        r
    }

    /// Create a builder for a load-balanced transport.
    pub fn builder(endpoints: Vec<(Url, Weight)>) -> (builder: LoadBalancedTransportBuilder)
        ensures
            builder.endpoints@ == unrestricted(endpoints@),
            builder.config.is_default(),
            builder.throttle_config is None,
            builder.http_client_config is None,
    {
        let ghost pairs = endpoints@;
        let mut configs: Vec<EndpointConfig> = Vec::new();
        for pair in it: endpoints
            invariant
                it.seq() == pairs,
                configs@ == unrestricted(pairs.take(it.index() as int)),
        {
            configs.push(EndpointConfig::from(pair));
            proof {
                let n = it.index() as int;
                assert(configs@ =~= unrestricted(pairs.take(n + 1)));
            }
        }
        proof {
            assert(pairs.take(pairs.len() as int) =~= pairs);
        }
        LoadBalancedTransport::builder_with_endpoints(configs)
    }

    /// Create a builder with per-endpoint request and concurrency capabilities.
    pub fn builder_with_endpoints(endpoints: Vec<EndpointConfig>) -> (builder:
        LoadBalancedTransportBuilder)
        ensures
            builder.endpoints == endpoints,
            builder.config.is_default(),
            builder.throttle_config is None,
            builder.http_client_config is None,
    {
        LoadBalancedTransportBuilder {
            endpoints,
            config: BalancerConfig::default(),
            throttle_config: None,
            http_client_config: None,
        }
    }

    /// The endpoint index that is selected next.
    ///
    /// Maps a counter into cumulative weight buckets via binary search.
    pub fn next_endpoint(&self) -> (index: usize)
        requires
            self.well_formed(),
        ensures
            index == self.selected(self.counter as int),
            index < self.size(),
    {
        assert(self.cumulative_weights@.last() > 0);
        let bucket: u64 = self.counter % self.total_weight;
        let mut low: usize = 0;
        let mut high: usize = self.cumulative_weights.len();
        while low < high
            invariant
                low <= high <= self.cumulative_weights.len(),
                rising(self.cumulative_weights@),
                forall|i: int| 0 <= i < low ==> (#[trigger] self.cumulative_weights@[i]) <= bucket,
                forall|i: int|
                    high <= i < self.cumulative_weights@.len() ==> (
                    #[trigger] self.cumulative_weights@[i]) > bucket,
            decreases high - low,
        {
            let middle: usize = low + (high - low) / 2;
            if self.cumulative_weights[middle] <= bucket {
                low = middle + 1;
            } else {
                high = middle;
            }
        }
        proof {
            if low == self.cumulative_weights@.len() {
                assert(self.cumulative_weights@[low - 1] <= bucket);
            }
            lemma_first_beyond(self.cumulative_weights@, bucket as int, low as int);
        }
        low
    }

    /// Select an endpoint index using weighted round-robin.
    pub fn select_endpoint(&mut self) -> (index: usize)
        requires
            old(self).well_formed(),
        ensures
            index == old(self).selected(old(self).counter as int),
            index < old(self).size(),
            final(self).counter == if old(self).counter == u64::MAX {
                0
            } else {
                (old(self).counter + 1) as u64
            },
            *final(self) == (LoadBalancedTransport { counter: final(self).counter, ..*old(self) }),
            final(self).well_formed(),
    {
        let index: usize = self.next_endpoint();
        self.counter = self.counter.wrapping_add(1);
        index
    }

    /// Whether the endpoint accepts a request of that many bytes.
    pub fn endpoint_accepts_request(&self, index: usize, request_bytes: usize) -> (r: bool)
        requires
            index < self.endpoint_request_caps@.len(),
        ensures
            r == self.accepts(index as int, request_bytes),
    {
        match self.endpoint_request_caps[index] {
            Some(limit) => request_bytes <= limit,
            None => true,
        }
    }

    /// Returns `true` if the error warrants failover to the next provider.
    pub fn is_retryable(err: &TransportError) -> (r: bool)
        ensures
            r == err.retryable(),
    {
        err.is_retryable()
    }

    /// Returns `true` if the error is specifically a 429 rate-limit response.
    pub fn is_rate_limit(err: &TransportError) -> (r: bool)
        ensures
            r == err.rate_limit(),
    {
        err.is_rate_limit()
    }
}

/// Endpoints without limits on request size or concurrency.
pub open spec fn unrestricted(pairs: Seq<(Url, Weight)>) -> Seq<EndpointConfig> {
    pairs.map_values(
        |pair: (Url, Weight)|
            EndpointConfig {
                url: pair.0,
                weight: pair.1,
                max_request_bytes: None,
                max_in_flight: None,
            },
    )
}

/// A boundary beyond the bucket, with none before it, is the first.
pub proof fn lemma_first_beyond(cumulative: Seq<u64>, bucket: int, at: int)
    requires
        0 <= at < cumulative.len(),
        cumulative[at] > bucket,
        forall|i: int| 0 <= i < at ==> (#[trigger] cumulative[i]) <= bucket,
    ensures
        first_beyond(cumulative, bucket) == at,
    decreases cumulative.len(),
{
    if at > 0 {
        let rest = cumulative.skip(1);
        assert forall|i: int| 0 <= i < at - 1 implies (#[trigger] rest[i]) <= bucket by {
            assert(rest[i] == cumulative[i + 1]);
        }
        assert(cumulative[0] <= bucket);
        lemma_first_beyond(rest, bucket, at - 1);
    }
}

} // verus!
