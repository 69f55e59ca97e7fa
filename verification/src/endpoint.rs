//! Endpoints: where they are and what they accept.
use crate::domain;
use crate::domain::extract_rate_limit_domain;
use vstd::prelude::*;

verus! {

/// Relative weight for an endpoint in the load balancer.
///
/// Higher values route proportionally more traffic to an endpoint. The default weight of 100
/// provides headroom for relative adjustments (e.g., `Weight(150)` for a preferred provider,
/// `Weight(50)` for a backup).
#[derive(Clone, Copy, Debug, PartialEq, Eq, PartialOrd, Ord, Hash)]
pub struct Weight(pub u32);

impl Default for Weight {
    fn default() -> (w: Self)
        ensures
            w.0 == 100,
    {
        Weight(100)
    }
}

impl From<u32> for Weight {
    fn from(w: u32) -> (r: Self) {
        Weight(w)
    }
}

impl vstd::std_specs::convert::FromSpecImpl<u32> for Weight {
    open spec fn obeys_from_spec() -> bool {
        true
    }

    open spec fn from_spec(w: u32) -> Self {
        Weight(w)
    }
}

/// What `reqwest::Url::parse` makes of a text: nothing if the text is no absolute URL; otherwise
/// the URL's normalised text, and its host, if it has one.
pub uninterp spec fn parsed_url(text: Seq<char>) -> Option<(Seq<char>, Option<Seq<char>>)>;

/// The characters of an optional string.
pub open spec fn chars(s: Option<String>) -> Option<Seq<char>> {
    match s {
        Some(s) => Some(s@),
        None => None,
    }
}

/// `reqwest::Url::parse` parses an absolute URL, which is handed back as its text (`as_str`) and
/// its host (`host_str`). It goes by the given text alone; which texts are URLs, how they are
/// normalised, and what their hosts are, is not said here.
#[verifier::external_body]
fn parse_url(text: &str) -> (r: Option<(String, Option<String>)>)
    ensures
        match r {
            Some((normal, host)) => parsed_url(text@) == Some((normal@, chars(host))),
            None => parsed_url(text@) is None,
        },
{
    match reqwest::Url::parse(text) {
        Ok(url) => {
            Some((url.as_str().to_string(), url.host_str().map(|host| host.to_string())))
        },
        Err(_) => None,
    }
}

/// The text is not an absolute URL.
#[derive(Clone, Copy, Debug, PartialEq, Eq, Structural)]
pub struct InvalidUrl;

/// An absolute URL and its host.
#[derive(Debug)]
pub struct Url {
    text: String,
    host: Option<String>,
}

/// What a URL holds.
pub struct UrlView {
    /// The URL as normalised text.
    pub text: Seq<char>,
    /// The host, if the URL has one.
    pub host: Option<Seq<char>>,
}

impl View for Url {
    type V = UrlView;

    closed spec fn view(&self) -> UrlView {
        UrlView { text: self.text@, host: chars(self.host) }
    }
}

impl UrlView {
    /// The rate-limit group of the host; a URL without one belongs to `unknown`.
    pub open spec fn rate_limit_group(self) -> Seq<char> {
        domain::rate_limit_group(
            match self.host {
                Some(host) => host,
                None => "unknown"@,
            },
        )
    }
}

impl Url {
    /// Parse an absolute URL from a string.
    pub fn parse(text: &str) -> (r: Result<Url, InvalidUrl>)
        ensures
            match parsed_url(text@) {
                Some((normal, host)) => r matches Ok(url) && url@ == (UrlView {
                    text: normal,
                    host,
                }),
                None => r is Err,
            },
    {
        Url::from_parsed(parse_url(text))
    }

    /// The URL of which parsing has given the normalised text and the host, if it has one; an
    /// error if parsing has failed.
    pub fn from_parsed(parsed: Option<(String, Option<String>)>) -> (r: Result<Url, InvalidUrl>)
        ensures
            match parsed {
                Some((normal, host)) => r matches Ok(url) && url@ == (UrlView {
                    text: normal@,
                    host: chars(host),
                }),
                None => r is Err,
            },
    {
        match parsed {
            Some((text, host)) => Ok(Url { text, host }),
            None => Err(InvalidUrl),
        }
    }

    /// The URL as normalised text.
    pub fn as_str(&self) -> (r: &str)
        ensures
            r@ == self@.text,
    {
        self.text.as_str()
    }

    /// The host, if the URL has one.
    pub fn host_str(&self) -> (r: Option<&str>)
        ensures
            match r {
                Some(host) => self@.host == Some(host@),
                None => self@.host is None,
            },
    {
        match &self.host {
            Some(host) => Some(host.as_str()),
            None => None,
        }
    }

    /// The rate-limit group of the host; a URL without one belongs to `unknown`.
    pub fn rate_limit_domain(&self) -> (r: String)
        ensures
            r@ == self@.rate_limit_group(),
    {
        match self.host_str() {
            Some(host) => extract_rate_limit_domain(host).to_owned(),
            None => extract_rate_limit_domain("unknown").to_owned(),
        }
    }
}

/// Per-endpoint routing capabilities.
///
/// Request-size and in-flight limits let a heterogeneous provider pool keep a low-throughput
/// fallback available without sending it work it cannot accept.
#[derive(Debug)]
pub struct EndpointConfig {
    /// RPC URL.
    pub url: Url,
    /// Relative traffic weight.
    pub weight: Weight,
    /// Maximum serialized JSON-RPC request bytes accepted by this endpoint. `None` leaves request
    /// size unrestricted.
    pub max_request_bytes: Option<usize>,
    /// Maximum simultaneous requests routed to this endpoint. `None` leaves concurrency
    /// unrestricted.
    pub max_in_flight: Option<usize>,
}

impl EndpointConfig {
    /// Construct an endpoint with unrestricted request size and concurrency.
    pub fn new(url: Url, weight: Weight) -> (endpoint: Self)
        ensures
            endpoint == (EndpointConfig {
                url,
                weight,
                max_request_bytes: None,
                max_in_flight: None,
            }),
    {
        EndpointConfig { url, weight, max_request_bytes: None, max_in_flight: None }
    }

    /// Set the largest serialized request this endpoint may receive.
    pub fn with_max_request_bytes(self, bytes: usize) -> (endpoint: Self)
        ensures
            endpoint == (EndpointConfig { max_request_bytes: Some(bytes), ..self }),
    {
        EndpointConfig { max_request_bytes: Some(bytes), ..self }
    }

    /// Bound simultaneous requests sent to this endpoint.
    pub fn with_max_in_flight(self, max_in_flight: usize) -> (endpoint: Self)
        ensures
            endpoint == (EndpointConfig { max_in_flight: Some(max_in_flight), ..self }),
    {
        EndpointConfig { max_in_flight: Some(max_in_flight), ..self }
    }
}

impl From<(Url, Weight)> for EndpointConfig {
    fn from(pair: (Url, Weight)) -> (r: Self) {
        EndpointConfig::new(pair.0, pair.1)
    }
}

impl vstd::std_specs::convert::FromSpecImpl<(Url, Weight)> for EndpointConfig {
    open spec fn obeys_from_spec() -> bool {
        true
    }

    open spec fn from_spec(pair: (Url, Weight)) -> Self {
        EndpointConfig {
            url: pair.0,
            weight: pair.1,
            max_request_bytes: None,
            max_in_flight: None,
        }
    }
}

/// A URL belongs to the group of its host; one without a host belongs to the group of the name
/// `unknown`, which is that name.
pub proof fn law_urls_belong_to_the_group_of_their_host(url: UrlView)
    ensures
        url.host matches Some(host) ==> url.rate_limit_group() == domain::rate_limit_group(host),
        url.host is None ==> url.rate_limit_group() == "unknown"@,
{
    reveal_strlit("unknown");
    let name = "unknown"@;
    assert forall|i: int| 0 <= i < name.len() implies (#[trigger] name[i]) != '.' by {}
    let before = domain::law_group_is_the_last_two_segments(name);
    let group = domain::rate_limit_group(name);
    if before.len() > 0 {
        assert(name[before.len() - 1] == before.last());
    }
    assert(before + group =~= group);
}

/// The characters of a string that may be missing are those of the string, if it is there.
pub proof fn law_chars_of_an_optional_string(s: Option<String>)
    ensures
        s matches Some(text) ==> chars(s) == Some(text@),
        s is None ==> chars(s) is None,
{
}

/// A number is the weight of that number, and a URL with a weight is the endpoint of that URL and
/// that weight, which limits neither the size nor the number of its requests.
pub proof fn law_conversions_keep_what_is_given(w: u32, pair: (Url, Weight))
    ensures
        <Weight as vstd::std_specs::convert::FromSpec<u32>>::from_spec(w).0 == w,
        ({
            let endpoint = <EndpointConfig as vstd::std_specs::convert::FromSpec<
                (Url, Weight),
            >>::from_spec(pair);
            &&& endpoint.url == pair.0
            &&& endpoint.weight == pair.1
            &&& endpoint.max_request_bytes is None
            &&& endpoint.max_in_flight is None
        }),
{
}

} // verus!
