//! HTTP client pooling by rate-limit domain.
//!
//! There is a single `reqwest::Client` per domain (e.g., `alchemy.com`), shared across all
//! endpoints of the domain. This reduces the number of TLS handshakes and TCP connections from
//! endpoints times threads to just the number of domains.
use crate::duration;
use crate::registry::share;
use std::sync::Arc;
use std::time::Duration;
use vstd::prelude::*;

verus! {

/// An HTTP client of the `reqwest` crate.
#[verifier::external_type_specification]
#[verifier::external_body]
pub struct ExClient(reqwest::Client);

/// An error of the `reqwest` crate.
#[verifier::external_type_specification]
#[verifier::external_body]
pub struct ExClientError(reqwest::Error);

/// Configuration for the shared HTTP client pool.
///
/// Controls connection pooling, keepalive, and timeout settings for the clients shared across
/// endpoints on the same domain.
#[derive(Debug)]
pub struct HttpClientConfig {
    /// Maximum idle connections per host. Default: 8.
    pub pool_max_idle_per_host: usize,
    /// Idle connection timeout. Default: 90s.
    pub pool_idle_timeout: Duration,
    /// TCP keepalive interval. Default: 30s.
    pub tcp_keepalive: Duration,
    /// TCP connect timeout. Default: 10s.
    pub connect_timeout: Duration,
    /// Overall request timeout. Default: 30s.
    pub request_timeout: Duration,
    /// Negotiate gzip-compressed responses. Default: off.
    pub gzip: bool,
}

impl HttpClientConfig {
    /// The configuration is the default one.
    pub open spec fn is_default(self) -> bool {
        &&& self.pool_max_idle_per_host == 8
        &&& duration::nanos(self.pool_idle_timeout) == duration::millis(90_000)
        &&& duration::nanos(self.tcp_keepalive) == duration::millis(30_000)
        &&& duration::nanos(self.connect_timeout) == duration::millis(10_000)
        &&& duration::nanos(self.request_timeout) == duration::millis(30_000)
        &&& !self.gzip
    }

    /// The settings that a client under this configuration is made with.
    pub open spec fn settings(self) -> ClientSettings {
        ClientSettings {
            http2_adaptive_window: true,
            pool_max_idle_per_host: self.pool_max_idle_per_host,
            pool_idle_timeout: self.pool_idle_timeout,
            tcp_keepalive: self.tcp_keepalive,
            connect_timeout: self.connect_timeout,
            timeout: self.request_timeout,
            gzip: self.gzip,
        }
    }
}

impl Clone for HttpClientConfig {
    fn clone(&self) -> (config: Self)
        ensures
            config == *self,
    {
        HttpClientConfig {
            pool_max_idle_per_host: self.pool_max_idle_per_host,
            pool_idle_timeout: self.pool_idle_timeout,
            tcp_keepalive: self.tcp_keepalive,
            connect_timeout: self.connect_timeout,
            request_timeout: self.request_timeout,
            gzip: self.gzip,
        }
    }
}

impl Default for HttpClientConfig {
    fn default() -> (config: Self)
        ensures
            config.is_default(),
    {
        HttpClientConfig {
            pool_max_idle_per_host: 8,
            pool_idle_timeout: Duration::from_secs(90),
            tcp_keepalive: Duration::from_secs(30),
            connect_timeout: Duration::from_secs(10),
            request_timeout: Duration::from_secs(30),
            gzip: false,
        }
    }
}

/// The settings of a client, each under the name of the builder method that takes it.
#[derive(Debug)]
pub struct ClientSettings {
    /// Whether HTTP/2 flow-control windows adapt to the observed throughput.
    pub http2_adaptive_window: bool,
    /// Idle connections kept warm per host.
    pub pool_max_idle_per_host: usize,
    /// How long an idle connection is kept.
    pub pool_idle_timeout: Duration,
    /// TCP keepalive interval, to detect dead connections.
    pub tcp_keepalive: Duration,
    /// Bound on the time to connect.
    pub connect_timeout: Duration,
    /// Bound on the whole request.
    pub timeout: Duration,
    /// Whether gzip-compressed responses are asked for and decompressed.
    pub gzip: bool,
}

/// The settings that a client was made with.
pub uninterp spec fn client_settings(client: reqwest::Client) -> ClientSettings;

/// `reqwest::ClientBuilder`: each setting is handed to the builder method of its name, and
/// `build` makes the client of them. Whether it can be made (TLS, system configuration) is up to
/// the machine.
#[verifier::external_body]
fn build_client(settings: &ClientSettings) -> (r: Result<reqwest::Client, reqwest::Error>)
    ensures
        r matches Ok(client) ==> client_settings(client) == *settings,
{
    reqwest::ClientBuilder::new()
        .http2_adaptive_window(settings.http2_adaptive_window)
        .pool_max_idle_per_host(settings.pool_max_idle_per_host)
        .pool_idle_timeout(settings.pool_idle_timeout)
        .tcp_keepalive(settings.tcp_keepalive)
        .connect_timeout(settings.connect_timeout)
        .timeout(settings.timeout)
        .gzip(settings.gzip)
        .build()
}

/// Cloning a `reqwest::Client` gives another handle on the same client and connection pool.
pub assume_specification[ <reqwest::Client as Clone>::clone ](client: &reqwest::Client) -> (r:
    reqwest::Client)
    ensures
        r == *client,
;

/// No HTTP client could be made on this machine.
#[derive(Debug)]
pub struct ClientError {
    /// What the HTTP library reports.
    pub source: reqwest::Error,
}

/// A domain and the client that its endpoints share.
#[derive(Debug)]
pub struct ClientEntry {
    /// The rate-limit group (e.g. `alchemy.com`).
    pub domain: String,
    /// The client of the domain.
    pub client: reqwest::Client,
}

/// Registry of shared clients, keyed by domain.
#[derive(Debug)]
pub struct ClientRegistry {
    /// The clients, in the order in which they were made.
    pub entries: Vec<ClientEntry>,
    /// Configuration that newly made clients get.
    pub default_config: Arc<HttpClientConfig>,
}

impl ClientRegistry {
    /// No domain occurs twice.
    pub open spec fn well_formed(self) -> bool {
        forall|i: int, j: int|
            #![trigger self.entries@[i], self.entries@[j]]
            0 <= i < j < self.entries@.len() ==> self.entries@[i].domain@
                != self.entries@[j].domain@
    }

    /// The domain has a client.
    pub open spec fn knows(self, domain: Seq<char>) -> bool {
        exists|i: int| self.holds(i, domain)
    }

    /// The client at position `i` is the domain's.
    pub open spec fn holds(self, i: int, domain: Seq<char>) -> bool {
        0 <= i < self.entries@.len() && self.entries@[i].domain@ == domain
    }

    /// `client` is the domain's client.
    pub open spec fn serves(self, domain: Seq<char>, client: reqwest::Client) -> bool {
        exists|i: int| #[trigger] self.holds(i, domain) && self.entries@[i].client == client
    }

    /// `after` is this registry with a client for the domain: the registry itself if there is
    /// one, and otherwise with one more client, made under the default configuration.
    pub open spec fn provides(self, domain: Seq<char>, after: Self) -> bool {
        &&& after.default_config == self.default_config
        &&& if self.knows(domain) {
            after.entries@ == self.entries@
        } else {
            &&& after.entries@.len() == self.entries@.len() + 1
            &&& after.entries@.drop_last() == self.entries@
            &&& after.entries@.last().domain@ == domain
            &&& client_settings(after.entries@.last().client) == self.default_config.settings()
        }
    }

    /// A registry without clients, under the default configuration.
    pub fn new() -> (registry: Self)
        ensures
            registry.entries@.len() == 0,
            registry.default_config.is_default(),
            registry.well_formed(),
    {
        ClientRegistry {
            entries: Vec::new(),
            default_config: Arc::new(HttpClientConfig::default()),
        }
    }

    /// Position of a domain's client, if it has one.
    pub fn find(&self, domain: &str) -> (r: Option<usize>)
        ensures
            match r {
                Some(i) => self.holds(i as int, domain@),
                None => !self.knows(domain@),
            },
    {
        let name: String = domain.to_owned();
        let mut i: usize = 0;
        while i < self.entries.len()
            invariant
                i <= self.entries.len(),
                name@ == domain@,
                forall|k: int| 0 <= k < i ==> (#[trigger] self.entries@[k]).domain@ != domain@,
            decreases self.entries.len() - i,
        {
            if self.entries[i].domain == name {
                return Some(i);
            }
            i += 1;
        }
        None
    }
}

/// Set the default HTTP client configuration for newly made clients.
///
/// Domains already in the registry keep their existing client.
pub fn set_default_http_client_config(registry: &mut ClientRegistry, config: HttpClientConfig)
    ensures
        *final(registry).default_config == config,
        final(registry).entries == old(registry).entries,
{
    registry.default_config = Arc::new(config);
}

/// Get or create an optimized client for the given domain.
///
/// All endpoints on the same domain share the same client, so their requests multiplex over
/// shared TCP connections. The registry stays as it was if no client can be made.
pub fn shared_client_for_domain(registry: &mut ClientRegistry, domain: &str) -> (r: Result<
    reqwest::Client,
    ClientError,
>)
    requires
        old(registry).well_formed(),
    ensures
        final(registry).well_formed(),
        match r {
            Ok(client) => {
                &&& old(registry).provides(domain@, *final(registry))
                &&& final(registry).serves(domain@, client)
            },
            Err(_) => *final(registry) == *old(registry) && !old(registry).knows(domain@),
        },
{
    if let Some(i) = registry.find(domain) {
        assert(registry.holds(i as int, domain@));
        return Ok(registry.entries[i].client.clone());
    }
    let config = share(&registry.default_config);
    let r = adopt_client(registry, domain, build_optimized_client(&config));
    assert(r is Ok ==> registry.holds(registry.entries@.len() - 1, domain@));
    r
}

/// Register a newly built client for a domain that has none, and return it; if building it
/// failed, return the error and register nothing.
pub fn adopt_client(
    registry: &mut ClientRegistry,
    domain: &str,
    built: Result<reqwest::Client, ClientError>,
) -> (r: Result<reqwest::Client, ClientError>)
    requires
        old(registry).well_formed(),
        !old(registry).knows(domain@),
    ensures
        r == built,
        final(registry).well_formed(),
        final(registry).default_config == old(registry).default_config,
        match built {
            Ok(client) => {
                &&& final(registry).entries@.len() == old(registry).entries@.len() + 1
                &&& final(registry).entries@.drop_last() == old(registry).entries@
                &&& final(registry).entries@.last().domain@ == domain@
                &&& final(registry).entries@.last().client == client
            },
            Err(_) => final(registry).entries == old(registry).entries,
        },
{
    let client = match built {
        Ok(client) => client,
        Err(err) => {
            return Err(err);
        },
    };
    registry.entries.push(ClientEntry { domain: domain.to_owned(), client: client.clone() });
    proof {
        let before = old(registry).entries@;
        let after = registry.entries@;
        assert(after.drop_last() =~= before);
        assert forall|i: int, j: int|
            #![trigger after[i], after[j]]
            0 <= i < j < after.len() implies after[i].domain@ != after[j].domain@ by {
            assert(after[i] == before[i]);
            if j < before.len() {
                assert(after[j] == before[j]);
            } else {
                assert(!old(registry).holds(i, domain@));
            }
        }
    }
    Ok(client)
}

/// What came of building a client: the client itself, or the error that was reported.
pub fn built_client(built: Result<reqwest::Client, reqwest::Error>) -> (r: Result<
    reqwest::Client,
    ClientError,
>)
    ensures
        match built {
            Ok(client) => r == Ok::<_, ClientError>(client),
            Err(source) => r == Err::<reqwest::Client, _>(ClientError { source }),
        },
{
    match built {
        Ok(client) => Ok(client),
        Err(source) => Err(ClientError { source }),
    }
}

/// Build a client tuned for high-throughput JSON-RPC workloads.
///
/// Whether it can be built is up to the machine; [`built_client`] says what is returned either
/// way.
pub fn build_optimized_client(config: &HttpClientConfig) -> (r: Result<reqwest::Client, ClientError>)
    ensures
        r matches Ok(client) ==> client_settings(client) == config.settings(),
{
    let settings = ClientSettings {
        http2_adaptive_window: true,
        pool_max_idle_per_host: config.pool_max_idle_per_host,
        pool_idle_timeout: config.pool_idle_timeout,
        tcp_keepalive: config.tcp_keepalive,
        connect_timeout: config.connect_timeout,
        timeout: config.request_timeout,
        gzip: config.gzip,
    };
    built_client(build_client(&settings))
}

/// A domain has one client: whatever client serves it now serves it after any other domain has
/// got its own.
pub proof fn law_clients_are_shared(
    before: ClientRegistry,
    after: ClientRegistry,
    domain: Seq<char>,
    other: Seq<char>,
    client: reqwest::Client,
    again: reqwest::Client,
)
    requires
        before.serves(domain, client),
        before.provides(other, after),
        after.well_formed(),
        after.serves(domain, again),
    ensures
        again == client,
{
    let i = choose|i: int| #[trigger] before.holds(i, domain) && before.entries@[i].client == client;
    let j = choose|j: int| #[trigger] after.holds(j, domain) && after.entries@[j].client == again;
    if !before.knows(other) {
        assert(after.entries@.drop_last()[i] == before.entries@[i]);
    }
    assert(after.entries@[i] == before.entries@[i]);
    if i < j {
        assert(after.entries@[i].domain@ != after.entries@[j].domain@);
    } else if j < i {
        assert(after.entries@[j].domain@ != after.entries@[i].domain@);
    }
}

/// A client is made with every setting of its configuration, each where it belongs, and with
/// adaptive windows.
pub proof fn law_settings_are_the_configured_ones(config: HttpClientConfig)
    ensures
        config.settings().pool_max_idle_per_host == config.pool_max_idle_per_host,
        config.settings().pool_idle_timeout == config.pool_idle_timeout,
        config.settings().tcp_keepalive == config.tcp_keepalive,
        config.settings().connect_timeout == config.connect_timeout,
        config.settings().timeout == config.request_timeout,
        config.settings().gzip == config.gzip,
        config.settings().http2_adaptive_window,
{
}

/// The default configuration: eight idle connections, kept for 90 seconds, keepalive after 30,
/// ten seconds to connect and 30 to respond, and no compression.
pub proof fn law_default_client(config: HttpClientConfig)
    ensures
        config.is_default() <==> {
            &&& config.pool_max_idle_per_host == 8
            &&& duration::nanos(config.pool_idle_timeout) == 90_000_000_000
            &&& duration::nanos(config.tcp_keepalive) == 30_000_000_000
            &&& duration::nanos(config.connect_timeout) == 10_000_000_000
            &&& duration::nanos(config.request_timeout) == 30_000_000_000
            &&& !config.gzip
        },
{
}

/// Providing for a domain that has a client changes nothing. Providing for another one adds a
/// client for it at the end, made with the default configuration.
pub proof fn law_provision_adds_what_is_missing(
    before: ClientRegistry,
    after: ClientRegistry,
    domain: Seq<char>,
)
    requires
        before.provides(domain, after),
    ensures
        *after.default_config == *before.default_config,
        (exists|i: int|
            0 <= i < before.entries@.len() && (#[trigger] before.entries@[i]).domain@ == domain)
            ==> after.entries@ == before.entries@,
        (forall|i: int|
            0 <= i < before.entries@.len() ==> (#[trigger] before.entries@[i]).domain@ != domain)
            ==> {
            &&& after.entries@.len() == before.entries@.len() + 1
            &&& forall|i: int|
                0 <= i < before.entries@.len() ==> (#[trigger] after.entries@[i])
                    == before.entries@[i]
            &&& after.entries@[before.entries@.len() as int].domain@ == domain
            &&& client_settings(after.entries@[before.entries@.len() as int].client)
                == before.default_config.settings()
        },
{
    if exists|i: int|
        0 <= i < before.entries@.len() && (#[trigger] before.entries@[i]).domain@ == domain {
        let i = choose|i: int|
            0 <= i < before.entries@.len() && (#[trigger] before.entries@[i]).domain@ == domain;
        assert(before.holds(i, domain));
    }
    if !before.knows(domain) {
        assert forall|i: int| 0 <= i < before.entries@.len() implies (#[trigger] after.entries@[i])
            == before.entries@[i] by {
            assert(after.entries@.drop_last()[i] == before.entries@[i]);
        }
    } else {
        let i = choose|i: int| before.holds(i, domain);
        assert(before.entries@[i].domain@ == domain);
    }
}

/// A registry is in order exactly if no domain has two clients; a client serves a domain exactly
/// if it stands beside it.
pub proof fn law_client_registries_in_order(
    registry: ClientRegistry,
    domain: Seq<char>,
    client: reqwest::Client,
)
    ensures
        registry.well_formed() <==> forall|a: int, b: int|
            #![trigger registry.entries@[a], registry.entries@[b]]
            0 <= a < registry.entries@.len() && 0 <= b < registry.entries@.len() && a != b
                ==> registry.entries@[a].domain@ != registry.entries@[b].domain@,
        registry.serves(domain, client) <==> exists|i: int|
            0 <= i < registry.entries@.len() && (#[trigger] registry.entries@[i]).domain@ == domain
                && registry.entries@[i].client == client,
        registry.knows(domain) <==> exists|i: int|
            0 <= i < registry.entries@.len() && (#[trigger] registry.entries@[i]).domain@ == domain,
{
    if exists|i: int|
        0 <= i < registry.entries@.len() && (#[trigger] registry.entries@[i]).domain@ == domain
            && registry.entries@[i].client == client {
        let i = choose|i: int|
            0 <= i < registry.entries@.len() && (#[trigger] registry.entries@[i]).domain@ == domain
                && registry.entries@[i].client == client;
        assert(registry.holds(i, domain));
    }
    if exists|i: int|
        0 <= i < registry.entries@.len() && (#[trigger] registry.entries@[i]).domain@ == domain {
        let i = choose|i: int|
            0 <= i < registry.entries@.len() && (#[trigger] registry.entries@[i]).domain@ == domain;
        assert(registry.holds(i, domain));
    }
    if registry.knows(domain) {
        let i = choose|i: int| registry.holds(i, domain);
        assert(registry.entries@[i].domain@ == domain);
    }
    if registry.serves(domain, client) {
        let i = choose|i: int|
            #[trigger] registry.holds(i, domain) && registry.entries@[i].client == client;
        assert(registry.entries@[i].domain@ == domain);
    }
}

} // verus!
