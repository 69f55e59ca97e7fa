//! How selection distributes traffic.
use crate::balancer;
use crate::balancer::{BalancerConfig, InvalidEndpoints, LoadBalancedTransport};
use crate::client_pool;
use crate::client_pool::{ClientRegistry, HttpClientConfig};
use crate::duration;
use crate::endpoint::{EndpointConfig, Url, Weight};
use crate::registry::ThrottleRegistry;
use crate::throttle::ThrottleConfig;
use vstd::prelude::*;

verus! {

/// How often `n` consecutive counter values, from `start` on, select the endpoint at `index`.
pub open spec fn hits(transport: LoadBalancedTransport, start: nat, n: nat, index: int) -> nat
    decreases n,
{
    if n == 0 {
        0
    } else {
        hits(transport, start, (n - 1) as nat, index) + hit(transport, start + n - 1, index)
    }
}

/// Whether a counter value selects the endpoint at `index`, as a number.
pub open spec fn hit(transport: LoadBalancedTransport, tick: int, index: int) -> nat {
    if transport.selected(tick) == index {
        1
    } else {
        0
    }
}

/// Where the bucket range of the endpoint at `index` begins.
pub open spec fn range_start(transport: LoadBalancedTransport, index: int) -> int {
    if index == 0 {
        0
    } else {
        transport.cumulative_weights@[index - 1] as int
    }
}

/// A bucket selects exactly the endpoint whose range it lies in.
proof fn lemma_selects(transport: LoadBalancedTransport, tick: int, index: int)
    requires
        transport.well_formed(),
        0 <= tick,
        0 <= index < transport.size(),
    ensures
        0 <= transport.selected(tick) < transport.size(),
        transport.selected(tick) == index <==> range_start(transport, index) <= tick % (
        transport.total_weight as int) < transport.cumulative_weights@[index],
{
    let cumulative = transport.cumulative_weights@;
    assert(cumulative[cumulative.len() - 1] >= cumulative[0]);
    let bucket = tick % transport.total_weight as int;
    let at = lemma_beyond_exists(cumulative, bucket, cumulative.len() - 1);
    balancer::lemma_first_beyond(cumulative, bucket, at);
    if range_start(transport, index) <= bucket && bucket < cumulative[index] {
        if at < index {
            assert(cumulative[at] <= cumulative[index - 1]);
        } else if index < at {
            assert(cumulative[index] <= bucket);
        }
    } else if at == index && index > 0 {
        assert(cumulative[index - 1] <= bucket);
    }
}

/// Among the boundaries up to one beyond the bucket there is a first such.
proof fn lemma_beyond_exists(cumulative: Seq<u64>, bucket: int, last: int) -> (at: int)
    requires
        0 <= last < cumulative.len(),
        cumulative[last] > bucket,
        balancer::rising(cumulative),
    ensures
        0 <= at <= last,
        cumulative[at] > bucket,
        forall|i: int| 0 <= i < at ==> (#[trigger] cumulative[i]) <= bucket,
    decreases last,
{
    if last == 0 || cumulative[last - 1] <= bucket {
        assert forall|i: int| 0 <= i < last implies (#[trigger] cumulative[i]) <= bucket by {
            if i < last - 1 {
                assert(cumulative[i] < cumulative[last - 1]);
            }
        }
        last
    } else {
        lemma_beyond_exists(cumulative, bucket, last - 1)
    }
}

/// Within the first cycle the hits are the part of the endpoint's range that has been passed.
proof fn lemma_first_cycle(transport: LoadBalancedTransport, n: nat, index: int)
    requires
        transport.well_formed(),
        0 <= index < transport.size(),
        n <= transport.total_weight,
    ensures
        hits(transport, 0, n, index) == if n <= range_start(transport, index) {
            0
        } else if n <= transport.cumulative_weights@[index] {
            n - range_start(transport, index)
        } else {
            transport.cumulative_weights@[index] - range_start(transport, index)
        },
    decreases n,
{
    if index > 0 {
        assert(transport.cumulative_weights@[index - 1] < transport.cumulative_weights@[index]);
    }
    if n > 0 {
        lemma_first_cycle(transport, (n - 1) as nat, index);
        lemma_selects(transport, n - 1, index);
        vstd::arithmetic::div_mod::lemma_small_mod((n - 1) as nat, transport.total_weight as nat);
    }
}

/// A series of hits continues where another ends.
proof fn lemma_hits_continue(transport: LoadBalancedTransport, start: nat, m: nat, n: nat, index: int)
    ensures
        hits(transport, start, m + n, index) == hits(transport, start, m, index) + hits(
            transport,
            start + m,
            n,
            index,
        ),
    decreases n,
{
    if n > 0 {
        lemma_hits_continue(transport, start, m, (n - 1) as nat, index);
        assert((m + n - 1) as nat == m + (n - 1) as nat);
        assert(start + (m + n) - 1 == (start + m) + n - 1);
    }
}

/// Selection repeats with the total weight.
proof fn lemma_selection_repeats(transport: LoadBalancedTransport, tick: nat)
    requires
        transport.total_weight > 0,
    ensures
        transport.selected(tick + transport.total_weight) == transport.selected(tick as int),
{
    vstd::arithmetic::div_mod::lemma_mod_add_multiples_vanish(
        tick as int,
        transport.total_weight as int,
    );
}

/// Every cycle has the same hits, wherever it starts.
proof fn lemma_any_cycle(transport: LoadBalancedTransport, start: nat, index: int)
    requires
        transport.well_formed(),
        transport.total_weight > 0,
    ensures
        hits(transport, start, transport.total_weight as nat, index) == hits(
            transport,
            0,
            transport.total_weight as nat,
            index,
        ),
    decreases start,
{
    if start > 0 {
        let total = transport.total_weight as nat;
        let before = (start - 1) as nat;
        lemma_any_cycle(transport, before, index);
        lemma_hits_continue(transport, before, 1, total, index);
        lemma_hits_continue(transport, before, total, 1, index);
        lemma_selection_repeats(transport, before);
        reveal_with_fuel(hits, 2);
        assert(total + 1 == 1 + total);
    }
}

/// The boundary ranges are as wide as the weights.
proof fn lemma_range_is_weight(
    transport: LoadBalancedTransport,
    endpoints: Seq<EndpointConfig>,
    config: BalancerConfig,
    index: int,
)
    requires
        transport.balances(endpoints, config),
        0 <= index < endpoints.len(),
    ensures
        transport.cumulative_weights@[index] - range_start(transport, index)
            == endpoints[index].weight.0,
{
    law_transport_holds_its_endpoints(transport, endpoints, config, index);
}

/// Round-robin is exact: over any number of full cycles of consecutive counter values, wherever
/// they start, each endpoint is selected as many times per cycle as its weight says.
pub proof fn law_distribution_follows_weights(
    transport: LoadBalancedTransport,
    endpoints: Seq<EndpointConfig>,
    config: BalancerConfig,
    start: nat,
    cycles: nat,
    index: int,
)
    requires
        transport.well_formed(),
        transport.balances(endpoints, config),
        0 <= index < endpoints.len(),
    ensures
        hits(transport, start, cycles * transport.total_weight as nat, index) == cycles
            * endpoints[index].weight.0,
    decreases cycles,
{
    let total = transport.total_weight as nat;
    let weight = endpoints[index].weight.0 as nat;
    let cumulative = transport.cumulative_weights@;
    assert(cumulative[cumulative.len() - 1] >= cumulative[0]);
    if cycles == 0 {
        assert(0 * total == 0 && 0 * weight == 0) by (nonlinear_arith);
    } else {
        let before = (cycles - 1) as nat;
        law_distribution_follows_weights(transport, endpoints, config, start, before, index);
        assert(cycles * total == before * total + total) by (nonlinear_arith)
            requires
                cycles == before + 1,
        ;
        assert(cycles * weight == before * weight + weight) by (nonlinear_arith)
            requires
                cycles == before + 1,
        ;
        lemma_hits_continue(transport, start, before * total, total, index);
        lemma_any_cycle(transport, start + before * total, index);
        lemma_first_cycle(transport, total, index);
        lemma_range_is_weight(transport, endpoints, config, index);
        if index < cumulative.len() - 1 {
            assert(cumulative[index] < cumulative[cumulative.len() - 1]);
        }
    }
}

/// Every counter value selects an endpoint.
pub proof fn law_selection_is_total(transport: LoadBalancedTransport, tick: nat)
    requires
        transport.well_formed(),
    ensures
        0 <= transport.selected(tick as int) < transport.size(),
{
    lemma_selects(transport, tick as int, 0);
}

/// A counter value selects the endpoint in whose share of the total weight its remainder lies:
/// beyond the weights of all endpoints before it, and within those up to it.
pub proof fn law_selection_goes_by_cumulative_weights(transport: LoadBalancedTransport, tick: nat)
    requires
        transport.well_formed(),
    ensures
        ({
            let at = transport.selected(tick as int);
            let bucket = tick as int % transport.total_weight as int;
            &&& 0 <= at < transport.urls@.len()
            &&& bucket < transport.cumulative_weights@[at]
            &&& forall|i: int|
                0 <= i < at ==> (#[trigger] transport.cumulative_weights@[i]) <= bucket
        }),
{
    let cumulative = transport.cumulative_weights@;
    let at = transport.selected(tick as int);
    lemma_selects(transport, tick as int, 0);
    lemma_selects(transport, tick as int, at);
    assert forall|i: int| 0 <= i < at implies (#[trigger] cumulative[i]) <= tick as int
        % transport.total_weight as int by {
        if i < at - 1 {
            assert(cumulative[i] < cumulative[at - 1]);
        }
    }
}

/// An endpoint accepts a request exactly if it has no limit, or one that is not below the
/// request's size.
pub proof fn law_endpoints_accept_up_to_their_limit(
    transport: LoadBalancedTransport,
    index: int,
    bytes: usize,
)
    ensures
        transport.endpoint_request_caps@[index] is None ==> transport.accepts(index, bytes),
        transport.endpoint_request_caps@[index] matches Some(limit) ==> (transport.accepts(
            index,
            bytes,
        ) <==> bytes <= limit),
{
}

/// A transport is in order exactly if it has endpoints, knows everything of each, and its
/// cumulative weights rise strictly from above zero to the total.
pub proof fn law_transports_in_order(transport: LoadBalancedTransport, registry: ThrottleRegistry)
    ensures
        transport.size() == transport.urls@.len(),
        transport.well_formed() <==> {
            &&& transport.urls@.len() > 0
            &&& transport.clients@.len() == transport.urls@.len()
            &&& transport.endpoint_throttles@.len() == transport.urls@.len()
            &&& transport.endpoint_request_caps@.len() == transport.urls@.len()
            &&& transport.endpoint_in_flight@.len() == transport.urls@.len()
            &&& transport.cumulative_weights@.len() == transport.urls@.len()
            &&& transport.cumulative_weights@[0] > 0
            &&& forall|i: int, j: int|
                #![trigger transport.cumulative_weights@[i], transport.cumulative_weights@[j]]
                0 <= i < j < transport.urls@.len() ==> transport.cumulative_weights@[i]
                    < transport.cumulative_weights@[j]
            &&& transport.cumulative_weights@[transport.urls@.len() - 1] == transport.total_weight
        },
        transport.registered_in(registry) <==> forall|i: int|
            0 <= i < transport.endpoint_throttles@.len() ==> (
            #[trigger] transport.endpoint_throttles@[i]) < registry.entries@.len(),
{
}

/// Every endpoint adds its weight to the sum; without endpoints it is zero.
pub proof fn law_weights_add_up(endpoints: Seq<EndpointConfig>, endpoint: EndpointConfig)
    ensures
        balancer::weight_sum(Seq::empty()) == 0,
        balancer::weight_sum(endpoints.push(endpoint)) == balancer::weight_sum(endpoints)
            + endpoint.weight.0,
{
    assert(endpoints.push(endpoint).drop_last() =~= endpoints);
}

/// The weight of some of the endpoints is at most that of all.
proof fn lemma_weight_of_prefix(endpoints: Seq<EndpointConfig>, n: int)
    requires
        0 <= n <= endpoints.len(),
    ensures
        balancer::weight_sum(endpoints.take(n)) <= balancer::weight_sum(endpoints),
    decreases endpoints.len(),
{
    if n == endpoints.len() {
        assert(endpoints.take(n) =~= endpoints);
    } else {
        assert(endpoints.drop_last().take(n) =~= endpoints.take(n));
        lemma_weight_of_prefix(endpoints.drop_last(), n);
    }
}

/// Endpoints can be balanced exactly if there is one, every weight is above zero, no limit is
/// zero, and the weights together fit in 64 bits.
pub proof fn law_which_endpoints_can_be_balanced(endpoints: Seq<EndpointConfig>)
    ensures
        balancer::valid_endpoints(endpoints) <==> {
            &&& endpoints.len() > 0
            &&& forall|i: int|
                0 <= i < endpoints.len() ==> {
                    &&& (#[trigger] endpoints[i]).weight.0 > 0
                    &&& endpoints[i].max_request_bytes matches Some(limit) ==> limit > 0
                    &&& endpoints[i].max_in_flight matches Some(limit) ==> limit > 0
                }
            &&& balancer::weight_sum(endpoints) < 0x1_0000_0000_0000_0000
        },
{
    if endpoints.len() > 0 {
        let last = endpoints.len() - 1;
        assert(endpoints.take(last + 1) =~= endpoints);
        if balancer::valid_endpoints(endpoints) {
            assert(balancer::endpoint_fault(endpoints, last) is None);
            assert forall|i: int| 0 <= i < endpoints.len() implies {
                &&& (#[trigger] endpoints[i]).weight.0 > 0
                &&& endpoints[i].max_request_bytes matches Some(limit) ==> limit > 0
                &&& endpoints[i].max_in_flight matches Some(limit) ==> limit > 0
            } by {
                assert(balancer::endpoint_fault(endpoints, i) is None);
            }
        }
        if balancer::weight_sum(endpoints) < 0x1_0000_0000_0000_0000 && forall|i: int|
            0 <= i < endpoints.len() ==> {
                &&& (#[trigger] endpoints[i]).weight.0 > 0
                &&& endpoints[i].max_request_bytes matches Some(limit) ==> limit > 0
                &&& endpoints[i].max_in_flight matches Some(limit) ==> limit > 0
            } {
            assert forall|i: int| 0 <= i < endpoints.len() implies (
            #[trigger] balancer::endpoint_fault(endpoints, i)) is None by {
                assert(endpoints[i].weight.0 > 0);
                lemma_weight_of_prefix(endpoints, i + 1);
            }
        }
    }
}

/// The fault of an endpoint is the first of these: no weight, a request limit of zero, a
/// concurrency limit of zero, and too much weight together with those before it.
pub proof fn law_faults_come_in_order(endpoints: Seq<EndpointConfig>, i: int)
    requires
        0 <= i < endpoints.len() <= usize::MAX,
    ensures
        ({
            let fault = balancer::endpoint_fault(endpoints, i);
            let weightless = endpoints[i].weight.0 == 0;
            let tiny = endpoints[i].max_request_bytes == Some(0usize);
            let stuck = endpoints[i].max_in_flight == Some(0usize);
            let heavy = balancer::weight_sum(endpoints.take(i + 1)) >= 0x1_0000_0000_0000_0000;
            &&& weightless ==> fault == Some(InvalidEndpoints::ZeroWeight(i as usize))
            &&& !weightless && tiny ==> fault == Some(
                InvalidEndpoints::ZeroRequestBytes(i as usize),
            )
            &&& !weightless && !tiny && stuck ==> fault == Some(
                InvalidEndpoints::ZeroInFlight(i as usize),
            )
            &&& !weightless && !tiny && !stuck && heavy ==> fault == Some(
                InvalidEndpoints::WeightOverflow(i as usize),
            )
            &&& !weightless && !tiny && !stuck && !heavy ==> fault is None
        }),
{
}

/// A transport that balances endpoints holds what each of them is configured with, in order. The
/// share of each is its weight, and the total is that of all. Nothing has been selected yet.
pub proof fn law_transport_holds_its_endpoints(
    transport: LoadBalancedTransport,
    endpoints: Seq<EndpointConfig>,
    config: BalancerConfig,
    i: int,
)
    requires
        transport.balances(endpoints, config),
        0 <= i < endpoints.len(),
    ensures
        transport.urls@.len() == endpoints.len(),
        transport.urls@[i] == endpoints[i].url,
        transport.endpoint_request_caps@[i] == endpoints[i].max_request_bytes,
        transport.endpoint_in_flight@[i] == endpoints[i].max_in_flight,
        i == 0 ==> transport.cumulative_weights@[i] == endpoints[i].weight.0,
        i > 0 ==> transport.cumulative_weights@[i] == transport.cumulative_weights@[i - 1]
            + endpoints[i].weight.0,
        i == endpoints.len() - 1 ==> transport.total_weight == transport.cumulative_weights@[i],
        transport.counter == 0,
        transport.config == config,
{
    assert(endpoints.take(i + 1).drop_last() =~= endpoints.take(i));
    if i > 0 {
        let before = endpoints[i - 1];
        assert(transport.cumulative_weights@[i - 1] == balancer::weight_sum(endpoints.take(i)));
    } else {
        assert(endpoints.take(0) =~= Seq::empty());
    }
    if i == endpoints.len() - 1 {
        assert(endpoints.take(i + 1) =~= endpoints);
    }
}

/// Building leaves every domain that was registered as it was, and adds none but domains of the
/// endpoints, which have seen nothing and are under the default configuration.
pub proof fn law_building_adds_the_endpoints_domains(
    before: ThrottleRegistry,
    after: ThrottleRegistry,
    default: ThrottleConfig,
    endpoints: Seq<EndpointConfig>,
    n: int,
    k: int,
)
    requires
        balancer::throttles_added(before, after, default, endpoints, n),
        0 <= k < after.entries@.len(),
    ensures
        *after.default_config == default,
        before.entries@.len() <= after.entries@.len(),
        k < before.entries@.len() ==> after.entries@[k] == before.entries@[k],
        k >= before.entries@.len() ==> {
            &&& exists|i: int|
                0 <= i < n && (#[trigger] endpoints[i]).url@.rate_limit_group()
                    == after.entries@[k].domain@
            &&& after.entries@[k].state.backoff_level == 0
            &&& after.entries@[k].state.last_rate_limit_at == 0
            &&& after.entries@[k].state.consecutive_successes == 0
            &&& after.entries@[k].state.total_rate_limits == 0
            &&& after.entries@[k].state.total_successes == 0
            &&& after.entries@[k].state.total_skips == 0
            &&& after.entries@[k].state.decayed_intervals == 0
            &&& *after.entries@[k].state.config == default
        },
{
    if k < before.entries@.len() {
        assert(after.entries@.take(before.entries@.len() as int)[k] == after.entries@[k]);
    }
}

/// Building leaves every client as it was, and adds none but clients for domains of the
/// endpoints, made with the default configuration.
pub proof fn law_building_adds_the_endpoints_clients(
    before: ClientRegistry,
    after: ClientRegistry,
    default: HttpClientConfig,
    endpoints: Seq<EndpointConfig>,
    n: int,
    k: int,
)
    requires
        balancer::clients_added(before, after, default, endpoints, n),
        0 <= k < after.entries@.len(),
    ensures
        *after.default_config == default,
        before.entries@.len() <= after.entries@.len(),
        k < before.entries@.len() ==> after.entries@[k] == before.entries@[k],
        k >= before.entries@.len() ==> {
            &&& exists|i: int|
                0 <= i < n && (#[trigger] endpoints[i]).url@.rate_limit_group()
                    == after.entries@[k].domain@
            &&& client_pool::client_settings(after.entries@[k].client) == default.settings()
        },
{
    if k < before.entries@.len() {
        assert(after.entries@.take(before.entries@.len() as int)[k] == after.entries@[k]);
    }
}

/// A configuration that is to be set becomes the default; without one, the registry's stays.
pub proof fn law_defaults_are_set_or_stay(
    throttles: ThrottleRegistry,
    clients: ClientRegistry,
    throttle_config: ThrottleConfig,
    client_config: HttpClientConfig,
)
    ensures
        balancer::throttle_default(throttles, Some(throttle_config)) == throttle_config,
        balancer::throttle_default(throttles, None) == *throttles.default_config,
        balancer::client_default(clients, Some(client_config)) == client_config,
        balancer::client_default(clients, None) == *clients.default_config,
{
}

/// Building that stops at an endpoint has found its domain without a client, and has added
/// nothing but domains and clients of the endpoints before it, which all have both.
pub proof fn law_building_stops_at_the_first_domain_without_client(
    throttles: (ThrottleRegistry, ThrottleRegistry),
    clients: (ClientRegistry, ClientRegistry),
    throttle_config: ThrottleConfig,
    client_config: HttpClientConfig,
    endpoints: Seq<EndpointConfig>,
    n: int,
)
    requires
        balancer::stopped_at(throttles, clients, throttle_config, client_config, endpoints, n),
    ensures
        0 <= n < endpoints.len(),
        forall|k: int|
            0 <= k < clients.1.entries@.len() ==> (#[trigger] clients.1.entries@[k]).domain@
                != endpoints[n].url@.rate_limit_group(),
        forall|i: int|
            0 <= i < n ==> {
                &&& throttles.1.knows((#[trigger] endpoints[i]).url@.rate_limit_group())
                &&& clients.1.knows(endpoints[i].url@.rate_limit_group())
            },
        balancer::throttles_added(throttles.0, throttles.1, throttle_config, endpoints, n),
        balancer::clients_added(clients.0, clients.1, client_config, endpoints, n),
{
    assert forall|k: int| 0 <= k < clients.1.entries@.len() implies (
    #[trigger] clients.1.entries@[k]).domain@ != endpoints[n].url@.rate_limit_group() by {
        assert(!clients.1.holds(k, endpoints[n].url@.rate_limit_group()));
    }
}

/// Pairs of a URL and a weight are endpoints with that URL and weight, and without limits.
pub proof fn law_pairs_have_no_limits(pairs: Seq<(Url, Weight)>, i: int)
    requires
        0 <= i < pairs.len(),
    ensures
        balancer::unrestricted(pairs).len() == pairs.len(),
        balancer::unrestricted(pairs)[i].url == pairs[i].0,
        balancer::unrestricted(pairs)[i].weight == pairs[i].1,
        balancer::unrestricted(pairs)[i].max_request_bytes is None,
        balancer::unrestricted(pairs)[i].max_in_flight is None,
{
}

/// The default configuration: three rounds more, pauses from 100 milliseconds to four seconds,
/// 75 milliseconds after a 429, and half a second for heavy throttling.
pub proof fn law_default_balancing(config: BalancerConfig)
    ensures
        config.is_default() <==> {
            &&& config.max_retry_rounds == 3
            &&& duration::nanos(config.initial_backoff) == 100_000_000
            &&& duration::nanos(config.max_backoff) == 4_000_000_000
            &&& duration::nanos(config.rate_limit_failover_delay) == 75_000_000
            &&& duration::nanos(config.heavy_throttle_threshold) == 500_000_000
        },
{
}

} // verus!
