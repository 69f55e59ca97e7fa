//! Observing the throttle states.
use crate::duration;
use crate::registry;
use crate::registry::{DomainEntry, ThrottleRegistry};
use crate::throttle::pre_request_delay_at;
use vstd::prelude::*;

verus! {

/// Snapshot of a single domain's throttle state for observability.
#[derive(Clone, Debug)]
pub struct DomainThrottleSnapshot {
    /// The rate-limit domain name (e.g., `"alchemy.com"`).
    pub domain: String,
    /// Current backoff level (0 = healthy, higher = more throttled).
    pub backoff_level: u32,
    /// Current pre-request delay in milliseconds.
    pub delay_ms: u64,
    /// Total 429 responses received on this domain since startup.
    pub total_rate_limits: u64,
    /// Total successful responses on this domain since startup.
    pub total_successes: u64,
    /// Total requests skipped due to heavy throttling on this domain.
    pub total_skips: u64,
}

impl DomainThrottleSnapshot {
    /// The snapshot shows the entry as it is at time `now`: the level and the delay after decay,
    /// and the totals.
    pub open spec fn shows(self, entry: DomainEntry, now: u64) -> bool {
        &&& self.domain@ == entry.domain@
        &&& self.backoff_level == entry.state.decayed(now).backoff_level
        &&& self.delay_ms == registry::delay_millis(entry.state.decayed(now))
        &&& self.total_rate_limits == entry.state.total_rate_limits
        &&& self.total_successes == entry.state.total_successes
        &&& self.total_skips == entry.state.total_skips
    }
}

/// One snapshot for each entry, in order.
pub open spec fn show_all(
    snapshots: Seq<DomainThrottleSnapshot>,
    entries: Seq<DomainEntry>,
    now: u64,
) -> bool {
    &&& snapshots.len() == entries.len()
    &&& forall|i: int|
        0 <= i < entries.len() ==> (#[trigger] snapshots[i]).shows(entries[i], now)
}

/// Returns a snapshot of all registered domain throttle states at time `now_ms`.
pub fn throttle_snapshot_at(registry: &mut ThrottleRegistry, now_ms: u64) -> (snapshots: Vec<
    DomainThrottleSnapshot,
>)
    requires
        old(registry).decay_defined(),
    ensures
        final(registry).default_config == old(registry).default_config,
        final(registry).entries@ == registry::decayed_entries(old(registry).entries@, now_ms),
        show_all(snapshots@, old(registry).entries@, now_ms),
{
    let mut snapshots: Vec<DomainThrottleSnapshot> = Vec::new();
    let mut i: usize = 0;
    while i < registry.entries.len()
        invariant
            i <= registry.entries.len(),
            old(registry).decay_defined(),
            registry.default_config == old(registry).default_config,
            registry.entries@.len() == old(registry).entries@.len(),
            forall|k: int|
                #![trigger registry.entries@[k]]
                0 <= k < i ==> registry.entries@[k] == old(registry).entries@[k].decayed(now_ms),
            forall|k: int|
                #![trigger registry.entries@[k]]
                i <= k < registry.entries@.len() ==> registry.entries@[k] == old(
                    registry,
                ).entries@[k],
            snapshots@.len() == i,
            forall|k: int|
                0 <= k < i ==> (#[trigger] snapshots@[k]).shows(old(registry).entries@[k], now_ms),
        decreases registry.entries.len() - i,
    {
        let delay = pre_request_delay_at(&mut registry.entries[i].state, now_ms);
        let entry = &registry.entries[i];
        snapshots.push(
            DomainThrottleSnapshot {
                domain: entry.domain.clone(),
                backoff_level: entry.state.backoff_level,
                delay_ms: duration::to_millis(&delay),
                total_rate_limits: entry.state.total_rate_limits,
                total_successes: entry.state.total_successes,
                total_skips: entry.state.total_skips,
            },
        );
        i += 1;
    }
    proof {
        assert(registry.entries@ =~= registry::decayed_entries(
            old(registry).entries@,
            now_ms,
        ));
    }
    snapshots
}

/// Returns a snapshot of all registered domain throttle states now, by the system clock.
///
/// Useful for periodic logging / diagnostics.
pub fn throttle_snapshot(registry: &mut ThrottleRegistry) -> (snapshots: Vec<
    DomainThrottleSnapshot,
>)
    requires
        old(registry).decay_defined(),
    ensures
        final(registry).default_config == old(registry).default_config,
        exists|now: u64|
            {
                &&& duration::clock_time(now)
                &&& final(registry).entries@ == #[trigger] registry::decayed_entries(
                    old(registry).entries@,
                    now,
                )
                &&& show_all(snapshots@, old(registry).entries@, now)
            },
{
    let now: u64 = duration::now_millis();
    throttle_snapshot_at(registry, now)
}

/// A line of the throttle summary.
#[derive(Debug)]
pub enum ThrottleStatus {
    /// A domain that has been rate-limited; to be logged at INFO level with all its figures.
    Throttled(DomainThrottleSnapshot),
    /// A domain that never was; to be logged at DEBUG level.
    Healthy {
        /// The rate-limit domain name.
        domain: String,
        /// Total successful responses on this domain since startup.
        total_ok: u64,
    },
}

impl ThrottleStatus {
    /// The line that stands for the entry at time `now`: in full once it has seen a 429 or backs
    /// off, and otherwise in brief.
    pub open spec fn reports(self, entry: DomainEntry, now: u64) -> bool {
        if entry.state.total_rate_limits > 0 || entry.state.decayed(now).backoff_level > 0 {
            self matches ThrottleStatus::Throttled(snapshot) && snapshot.shows(entry, now)
        } else {
            self matches ThrottleStatus::Healthy { domain, total_ok } && domain@ == entry.domain@
                && total_ok == entry.state.total_successes
        }
    }
}

/// One line for each entry, in order.
pub open spec fn report_all(
    lines: Seq<ThrottleStatus>,
    entries: Seq<DomainEntry>,
    now: u64,
) -> bool {
    &&& lines.len() == entries.len()
    &&& forall|i: int| 0 <= i < entries.len() ==> (#[trigger] lines[i]).reports(entries[i], now)
}

/// The lines of a summary of all domain throttle states at time `now_ms`.
pub fn log_throttle_summary_at(registry: &mut ThrottleRegistry, now_ms: u64) -> (lines: Vec<
    ThrottleStatus,
>)
    requires
        old(registry).decay_defined(),
    ensures
        final(registry).default_config == old(registry).default_config,
        final(registry).entries@ == registry::decayed_entries(old(registry).entries@, now_ms),
        report_all(lines@, old(registry).entries@, now_ms),
{
    let snapshots: Vec<DomainThrottleSnapshot> = throttle_snapshot_at(registry, now_ms);
    let ghost entries = old(registry).entries@;
    let mut lines: Vec<ThrottleStatus> = Vec::new();
    for snapshot in it: snapshots
        invariant
            it.seq() == snapshots@,
            show_all(snapshots@, entries, now_ms),
            lines@.len() == it.index(),
            forall|k: int|
                0 <= k < it.index() ==> (#[trigger] lines@[k]).reports(entries[k], now_ms),
    {
        assert(snapshots@[it.index() as int].shows(entries[it.index() as int], now_ms));
        if snapshot.total_rate_limits > 0 || snapshot.backoff_level > 0 {
            lines.push(ThrottleStatus::Throttled(snapshot));
        } else {
            lines.push(
                ThrottleStatus::Healthy {
                    domain: snapshot.domain,
                    total_ok: snapshot.total_successes,
                },
            );
        }
    }
    lines
}

/// The lines of a summary of all domain throttle states now, by the system clock.
pub fn log_throttle_summary(registry: &mut ThrottleRegistry) -> (lines: Vec<ThrottleStatus>)
    requires
        old(registry).decay_defined(),
    ensures
        final(registry).default_config == old(registry).default_config,
        exists|now: u64|
            {
                &&& duration::clock_time(now)
                &&& final(registry).entries@ == #[trigger] registry::decayed_entries(
                    old(registry).entries@,
                    now,
                )
                &&& report_all(lines@, old(registry).entries@, now)
            },
{
    let now: u64 = duration::now_millis();
    log_throttle_summary_at(registry, now)
}

/// A snapshot of all states has one entry for each domain, in order: its name, its level and its
/// delay at time `now` in whole milliseconds, which run over at 2^64, and its totals.
pub proof fn law_snapshot_tells_current_figures(
    snapshots: Seq<DomainThrottleSnapshot>,
    entries: Seq<DomainEntry>,
    now: u64,
    i: int,
)
    requires
        show_all(snapshots, entries, now),
        0 <= i < entries.len(),
    ensures
        snapshots.len() == entries.len(),
        snapshots[i].domain@ == entries[i].domain@,
        snapshots[i].backoff_level == entries[i].state.decayed(now).backoff_level,
        snapshots[i].delay_ms == (entries[i].state.decayed(now).delay_nanos() / 1_000_000)
            % 0x1_0000_0000_0000_0000,
        snapshots[i].total_rate_limits == entries[i].state.total_rate_limits,
        snapshots[i].total_successes == entries[i].state.total_successes,
        snapshots[i].total_skips == entries[i].state.total_skips,
{
    assert(snapshots[i].shows(entries[i], now));
}

/// A summary has one line for each domain, in order: all its figures if it has seen a 429 or
/// backs off at time `now`, and only its name and successes otherwise.
pub proof fn law_summary_tells_throttled_domains_in_full(
    lines: Seq<ThrottleStatus>,
    entries: Seq<DomainEntry>,
    now: u64,
    i: int,
)
    requires
        report_all(lines, entries, now),
        0 <= i < entries.len(),
    ensures
        lines.len() == entries.len(),
        lines[i] is Throttled <==> entries[i].state.total_rate_limits > 0
            || entries[i].state.decayed(now).backoff_level > 0,
        lines[i] matches ThrottleStatus::Throttled(shot) ==> {
            &&& shot.domain@ == entries[i].domain@
            &&& shot.backoff_level == entries[i].state.decayed(now).backoff_level
            &&& shot.delay_ms == (entries[i].state.decayed(now).delay_nanos() / 1_000_000)
                % 0x1_0000_0000_0000_0000
            &&& shot.total_rate_limits == entries[i].state.total_rate_limits
            &&& shot.total_successes == entries[i].state.total_successes
            &&& shot.total_skips == entries[i].state.total_skips
        },
        lines[i] matches ThrottleStatus::Healthy { domain, total_ok } ==> {
            &&& domain@ == entries[i].domain@
            &&& total_ok == entries[i].state.total_successes
        },
{
    assert(lines[i].reports(entries[i], now));
}

} // verus!
