//! What holds of the registry as a whole.
use crate::duration;
use crate::registry;
use crate::registry::{DomainEntry, ThrottleRegistry};
use crate::throttle::DomainThrottleState;
use vstd::prelude::*;

verus! {

/// All lookups of a domain find the same state: registering it again changes nothing, and it
/// stands at one position only.
pub proof fn law_lookups_share_one_state(
    before: ThrottleRegistry,
    once: ThrottleRegistry,
    twice: ThrottleRegistry,
    domain: Seq<char>,
    first: int,
    second: int,
)
    requires
        before.registers(domain, once),
        once.well_formed(),
        once.holds(first, domain),
        once.registers(domain, twice),
        twice.holds(second, domain),
    ensures
        twice.entries@ == once.entries@,
        twice.default_config == once.default_config,
        first == second,
{
    if first < second {
        assert(once.entries@[first].domain@ != once.entries@[second].domain@);
    } else if second < first {
        assert(once.entries@[second].domain@ != once.entries@[first].domain@);
    }
}

/// Different domains have different states.
pub proof fn law_domains_are_independent(
    registry: ThrottleRegistry,
    a: Seq<char>,
    b: Seq<char>,
    i: int,
    j: int,
)
    requires
        registry.holds(i, a),
        registry.holds(j, b),
        a != b,
    ensures
        i != j,
{
}

/// Registering a domain leaves every domain that was known before where it was, with the state
/// and the configuration that it had; this holds whatever the default configuration is by then.
pub proof fn law_registered_domains_stay(
    before: ThrottleRegistry,
    after: ThrottleRegistry,
    domain: Seq<char>,
    i: int,
)
    requires
        before.registers(domain, after),
        0 <= i < before.entries@.len(),
    ensures
        0 <= i < after.entries@.len(),
        after.entries@[i] == before.entries@[i],
{
    if !before.knows(domain) {
        assert(after.entries@.drop_last()[i] == before.entries@[i]);
    }
}

/// No delay is longer than the longest.
proof fn lemma_longest(entries: Seq<DomainEntry>, i: int)
    requires
        0 <= i < entries.len(),
    ensures
        entries[i].state.delay_nanos() <= registry::longest_delay(entries),
    decreases entries.len(),
{
    if i < entries.len() - 1 {
        lemma_longest(entries.drop_last(), i);
        assert(entries.drop_last()[i] == entries[i]);
    }
}

/// Weighted delays are at most the longest delay times the traffic.
proof fn lemma_weighted_at_most_longest(entries: Seq<DomainEntry>, bound: nat)
    requires
        forall|i: int|
            0 <= i < entries.len() ==> registry::delay_millis((#[trigger] entries[i]).state)
                <= bound,
    ensures
        registry::weighted_delays(entries) <= bound * registry::total_traffic(entries),
    decreases entries.len(),
{
    if entries.len() > 0 {
        let rest = entries.drop_last();
        assert forall|i: int| 0 <= i < rest.len() implies registry::delay_millis(
            (#[trigger] rest[i]).state,
        ) <= bound by {
            assert(rest[i] == entries[i]);
        }
        lemma_weighted_at_most_longest(rest, bound);
        let d = registry::delay_millis(entries.last().state);
        let w = registry::traffic_weight(entries.last().state);
        let t = registry::total_traffic(rest);
        assert(entries[entries.len() - 1] == entries.last());
        assert(d * w <= bound * w) by (nonlinear_arith)
            requires
                d <= bound,
        ;
        assert(bound * t + bound * w == bound * (t + w)) by (nonlinear_arith);
    }
}

/// The traffic-weighted average never exceeds the longest delay.
pub proof fn law_average_at_most_longest(entries: Seq<DomainEntry>)
    ensures
        registry::average_delay(entries) <= registry::longest_delay(entries),
{
    if !registry::no_successes(entries) {
        let longest = registry::longest_delay(entries);
        let bound = longest / 1_000_000;
        assert forall|i: int| 0 <= i < entries.len() implies registry::delay_millis(
            (#[trigger] entries[i]).state,
        ) <= bound by {
            lemma_longest(entries, i);
        }
        lemma_weighted_at_most_longest(entries, bound);
        let sum = registry::weighted_delays(entries);
        let total = registry::total_traffic(entries);
        assert(sum / total <= bound) by (nonlinear_arith)
            requires
                sum <= bound * total,
                total > 0,
        ;
    }
}

/// High-traffic healthy domains dilute a sick one: beside a domain that asks for no delay, the
/// sick domain's delay counts only by its share of the traffic.
pub proof fn law_traffic_dilutes_sick_domain(healthy: DomainEntry, sick: DomainEntry)
    requires
        healthy.state.total_successes > 0,
        healthy.state.delay_nanos() == 0,
    ensures
        registry::average_delay(seq![healthy, sick]) == duration::millis(
            registry::delay_millis(sick.state) * registry::traffic_weight(sick.state) / (
            healthy.state.total_successes as nat + registry::traffic_weight(sick.state)),
        ),
{
    let entries = seq![healthy, sick];
    let first = seq![healthy];
    assert(entries[0].state.total_successes != 0);
    assert(!registry::no_successes(entries));
    assert(entries.drop_last() =~= first);
    assert(first.drop_last() =~= Seq::<DomainEntry>::empty());
    let w = registry::traffic_weight(healthy.state);
    assert(0 * w == 0) by (nonlinear_arith);
    assert(registry::weighted_delays(first) == 0) by {
        assert(registry::weighted_delays(first.drop_last()) == 0);
    }
    assert(registry::total_traffic(first) == w) by {
        assert(registry::total_traffic(first.drop_last()) == 0);
    }
}

/// The longest delay is no shorter than that of any domain, and is that of one of them; without
/// domains it is zero.
pub proof fn law_longest_delay_is_attained(entries: Seq<DomainEntry>)
    ensures
        forall|i: int|
            0 <= i < entries.len() ==> (#[trigger] entries[i]).state.delay_nanos()
                <= registry::longest_delay(entries),
        entries.len() > 0 ==> exists|i: int|
            0 <= i < entries.len() && (#[trigger] entries[i]).state.delay_nanos()
                == registry::longest_delay(entries),
        entries.len() == 0 ==> registry::longest_delay(entries) == 0,
    decreases entries.len(),
{
    if entries.len() > 0 {
        let rest = entries.drop_last();
        law_longest_delay_is_attained(rest);
        assert forall|i: int| 0 <= i < entries.len() implies (
        #[trigger] entries[i]).state.delay_nanos() <= registry::longest_delay(entries) by {
            if i < rest.len() {
                assert(rest[i] == entries[i]);
            }
        }
        assert(entries[entries.len() - 1] == entries.last());
        if rest.len() > 0 {
            let i = choose|i: int|
                0 <= i < rest.len() && (#[trigger] rest[i]).state.delay_nanos()
                    == registry::longest_delay(rest);
            assert(entries[i] == rest[i]);
        }
    }
}

/// One more domain lengthens the longest delay exactly if its own is longer, and never shortens
/// it.
pub proof fn law_longest_delay_grows(entries: Seq<DomainEntry>, entry: DomainEntry)
    ensures
        entry.state.delay_nanos() <= registry::longest_delay(entries) ==> registry::longest_delay(
            entries.push(entry),
        ) == registry::longest_delay(entries),
        entry.state.delay_nanos() >= registry::longest_delay(entries) ==> registry::longest_delay(
            entries.push(entry),
        ) == entry.state.delay_nanos(),
{
    assert(entries.push(entry).drop_last() =~= entries);
}

/// A delay in milliseconds is rounded down, and runs over at 2^64; a domain weighs as many as its
/// successes, and one without any weighs one.
pub proof fn law_delays_and_weights_of_a_domain(state: DomainThrottleState)
    ensures
        registry::delay_millis(state) == (state.delay_nanos() / 1_000_000)
            % 0x1_0000_0000_0000_0000,
        state.total_successes > 0 ==> registry::traffic_weight(state) == state.total_successes,
        state.total_successes == 0 ==> registry::traffic_weight(state) == 1,
{
}

/// Each domain adds its weight to the traffic, and its delay as often as it weighs to the sum of
/// the delays; without domains there is neither.
pub proof fn law_traffic_adds_up(entries: Seq<DomainEntry>, entry: DomainEntry, weight: nat)
    requires
        entry.state.total_successes > 0 ==> weight == entry.state.total_successes,
        entry.state.total_successes == 0 ==> weight == 1,
    ensures
        registry::total_traffic(Seq::empty()) == 0,
        registry::weighted_delays(Seq::empty()) == 0,
        registry::total_traffic(entries.push(entry)) == registry::total_traffic(entries) + weight,
        registry::weighted_delays(entries.push(entry)) == registry::weighted_delays(entries) + ((
        entry.state.delay_nanos() / 1_000_000) % 0x1_0000_0000_0000_0000) * weight,
{
    assert(entries.push(entry).drop_last() =~= entries);
}

/// Before any success the average is the longest delay. Afterwards it is a whole number of
/// milliseconds: the largest that, counted once for each unit of traffic, does not exceed the
/// sum of the weighted delays.
pub proof fn law_average_is_the_share_of_the_sum(entries: Seq<DomainEntry>)
    ensures
        (forall|i: int|
            0 <= i < entries.len() ==> (#[trigger] entries[i]).state.total_successes == 0)
            ==> registry::average_delay(entries) == registry::longest_delay(entries),
        (exists|i: int|
            0 <= i < entries.len() && (#[trigger] entries[i]).state.total_successes > 0)
            ==> exists|ms: nat|
            #![trigger ms * registry::total_traffic(entries)]
            {
                &&& registry::average_delay(entries) == ms * 1_000_000
                &&& ms * registry::total_traffic(entries) <= registry::weighted_delays(entries)
                &&& registry::weighted_delays(entries) < (ms + 1) * registry::total_traffic(entries)
            },
{
    if exists|i: int|
        0 <= i < entries.len() && (#[trigger] entries[i]).state.total_successes > 0 {
        let i = choose|i: int|
            0 <= i < entries.len() && (#[trigger] entries[i]).state.total_successes > 0;
        assert(!registry::no_successes(entries));
        lemma_traffic_positive(entries);
        let total = registry::total_traffic(entries);
        let sum = registry::weighted_delays(entries);
        let ms = sum / total;
        vstd::arithmetic::div_mod::lemma_fundamental_div_mod(sum as int, total as int);
        vstd::arithmetic::div_mod::lemma_mod_bound(sum as int, total as int);
        assert(ms * total == total * ms) by (nonlinear_arith);
        assert((ms + 1) * total == ms * total + total) by (nonlinear_arith);
        assert(registry::average_delay(entries) == ms * 1_000_000);
    }
}

/// Where there is a domain, there is traffic.
proof fn lemma_traffic_positive(entries: Seq<DomainEntry>)
    ensures
        entries.len() > 0 ==> registry::total_traffic(entries) > 0,
{
}

/// Bringing all entries up to time `now` brings each of them up to it, and keeps its domain.
pub proof fn law_entries_decay_one_by_one(entries: Seq<DomainEntry>, now: u64, i: int)
    requires
        0 <= i < entries.len(),
    ensures
        registry::decayed_entries(entries, now).len() == entries.len(),
        registry::decayed_entries(entries, now)[i].domain == entries[i].domain,
        registry::decayed_entries(entries, now)[i].state == entries[i].state.decayed(now),
        entries[i].decayed(now).domain == entries[i].domain,
        entries[i].decayed(now).state == entries[i].state.decayed(now),
{
}

/// Registering a domain that is registered changes nothing. Registering another one adds it at
/// the end, with a state that has seen nothing, under the default configuration.
pub proof fn law_registration_adds_what_is_missing(
    before: ThrottleRegistry,
    after: ThrottleRegistry,
    domain: Seq<char>,
)
    requires
        before.registers(domain, after),
    ensures
        *after.default_config == *before.default_config,
        (exists|i: int|
            0 <= i < before.entries@.len() && (#[trigger] before.entries@[i]).domain@ == domain)
            ==> after.entries@ == before.entries@,
        (forall|i: int|
            0 <= i < before.entries@.len() ==> (#[trigger] before.entries@[i]).domain@ != domain)
            ==> {
            &&& after.entries@.len() == before.entries@.len() + 1
            &&& forall|i: int|
                0 <= i < before.entries@.len() ==> (#[trigger] after.entries@[i])
                    == before.entries@[i]
            &&& after.entries@[before.entries@.len() as int].domain@ == domain
            &&& after.entries@[before.entries@.len() as int].state.last_rate_limit_at == 0
            &&& after.entries@[before.entries@.len() as int].state.backoff_level == 0
            &&& after.entries@[before.entries@.len() as int].state.consecutive_successes == 0
            &&& after.entries@[before.entries@.len() as int].state.total_rate_limits == 0
            &&& after.entries@[before.entries@.len() as int].state.total_successes == 0
            &&& after.entries@[before.entries@.len() as int].state.total_skips == 0
            &&& after.entries@[before.entries@.len() as int].state.decayed_intervals == 0
            &&& *after.entries@[before.entries@.len() as int].state.config
                == *before.default_config
        },
{
    if exists|i: int|
        0 <= i < before.entries@.len() && (#[trigger] before.entries@[i]).domain@ == domain {
        let i = choose|i: int|
            0 <= i < before.entries@.len() && (#[trigger] before.entries@[i]).domain@ == domain;
        assert(before.holds(i, domain));
    }
    if !before.knows(domain) {
        assert forall|i: int| 0 <= i < before.entries@.len() implies (#[trigger] after.entries@[i])
            == before.entries@[i] by {
            assert(after.entries@.drop_last()[i] == before.entries@[i]);
        }
    } else {
        let i = choose|i: int| before.holds(i, domain);
        assert(before.entries@[i].domain@ == domain);
    }
}

/// A registry is in order exactly if no domain occurs twice and every state is; a domain stands
/// at a position if it is the one there, and is known if it stands at one; and every state can
/// decay if each can.
pub proof fn law_registries_in_order(registry: ThrottleRegistry, i: int, domain: Seq<char>)
    ensures
        registry.well_formed() <==> {
            &&& forall|a: int, b: int|
                #![trigger registry.entries@[a], registry.entries@[b]]
                0 <= a < registry.entries@.len() && 0 <= b < registry.entries@.len() && a != b
                    ==> registry.entries@[a].domain@ != registry.entries@[b].domain@
            &&& forall|a: int|
                0 <= a < registry.entries@.len() ==> (
                #[trigger] registry.entries@[a]).state.well_formed()
        },
        registry.holds(i, domain) <==> 0 <= i < registry.entries@.len()
            && registry.entries@[i].domain@ == domain,
        registry.knows(domain) <==> exists|a: int|
            0 <= a < registry.entries@.len() && (#[trigger] registry.entries@[a]).domain@ == domain,
        registry.decay_defined() <==> forall|a: int|
            0 <= a < registry.entries@.len() ==> (
            #[trigger] registry.entries@[a]).state.decay_defined(),
{
    if exists|a: int|
        0 <= a < registry.entries@.len() && (#[trigger] registry.entries@[a]).domain@ == domain {
        let a = choose|a: int|
            0 <= a < registry.entries@.len() && (#[trigger] registry.entries@[a]).domain@ == domain;
        assert(registry.holds(a, domain));
    }
    if registry.knows(domain) {
        let a = choose|a: int| registry.holds(a, domain);
        assert(registry.entries@[a].domain@ == domain);
    }
}

} // verus!
