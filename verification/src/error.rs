//! Transport errors, as far as failover depends on them.
use crate::text;
use vstd::prelude::*;

verus! {

/// What went wrong with a request.
#[derive(Debug)]
pub enum TransportError {
    /// The server answered with an HTTP error.
    HttpError {
        /// The HTTP status code.
        status: u16,
        /// The HTTP response body.
        body: String,
    },
    /// The task behind the connection has stopped.
    BackendGone,
    /// Another failure of the transport, described by its message: a timeout, a connection
    /// failure, or an error of this library.
    Custom(String),
    /// A failure of the transport that does not concern the connection, such as a missing
    /// response or unavailable subscriptions.
    OtherTransport(String),
    /// The server answered the request with a JSON-RPC error.
    ErrorResp {
        /// The JSON-RPC error code.
        code: i64,
        /// The JSON-RPC error message.
        message: String,
    },
    /// An error outside the transport, such as one of serialization.
    Other(String),
}

/// The message of a custom error that reports a 429.
pub open spec fn reports_rate_limit(message: Seq<char>) -> bool {
    text::contains_text(message, "429 Too Many Requests"@)
}

impl TransportError {
    /// The error warrants failover to the next provider.
    pub open spec fn retryable(self) -> bool {
        match self {
            TransportError::HttpError { status, .. } => status == 413 || status == 429 || status
                == 502 || status == 503 || status == 504,
            TransportError::BackendGone => true,
            TransportError::Custom(message) => {
                ||| text::contains_text(message@, "timed out"@)
                ||| text::contains_text(message@, "connection"@)
                ||| reports_rate_limit(message@)
            },
            _ => false,
        }
    }

    /// The error is a 429 rate-limit response.
    pub open spec fn rate_limit(self) -> bool {
        match self {
            TransportError::HttpError { status, .. } => status == 429,
            TransportError::Custom(message) => reports_rate_limit(message@),
            _ => false,
        }
    }

    /// An HTTP error with the given status and body.
    pub fn http_error(status: u16, body: String) -> (err: Self)
        ensures
            err == (TransportError::HttpError { status, body }),
    {
        TransportError::HttpError { status, body }
    }

    /// The error of a stopped backend.
    pub fn backend_gone() -> (err: Self)
        ensures
            err == TransportError::BackendGone,
    {
        TransportError::BackendGone
    }

    /// A custom error with the given message.
    pub fn custom_str(message: &str) -> (err: Self)
        ensures
            err matches TransportError::Custom(m) && m@ == message@,
    {
        TransportError::Custom(message.to_owned())
    }

    /// Returns `true` if the error warrants failover to the next provider.
    ///
    /// Retryable: 413 (payload too large), 429 (rate limit), 502/503/504 (gateway errors),
    /// connection failures, timeouts, and backend-gone.
    pub fn is_retryable(&self) -> (r: bool)
        ensures
            r == self.retryable(),
    {
        match self {
            TransportError::HttpError { status, .. } => *status == 413 || *status == 429 || *status
                == 502 || *status == 503 || *status == 504,
            TransportError::BackendGone => true,
            TransportError::Custom(message) => text::contains(message.as_str(), "timed out")
                || text::contains(message.as_str(), "connection") || text::contains(
                message.as_str(),
                "429 Too Many Requests",
            ),
            _ => false,
        }
    }

    /// Returns `true` if the error is specifically a 429 rate-limit response.
    pub fn is_rate_limit(&self) -> (r: bool)
        ensures
            r == self.rate_limit(),
    {
        match self {
            TransportError::HttpError { status, .. } => *status == 429,
            TransportError::Custom(message) => text::contains(
                message.as_str(),
                "429 Too Many Requests",
            ),
            _ => false,
        }
    }
}

/// Every rate-limit error is retryable, so a 429 always fails over.
pub proof fn law_rate_limits_are_retryable(err: TransportError)
    ensures
        err.rate_limit() ==> err.retryable(),
{
}

/// An HTTP error warrants failover exactly if its status is 413, 429, 502, 503 or 504, whatever
/// its body says, and is a rate limit exactly if it is 429.
pub proof fn law_http_errors_go_by_status(status: u16, body: String)
    ensures
        (TransportError::HttpError { status, body }).retryable() <==> set![
            413u16,
            429u16,
            502u16,
            503u16,
            504u16,
        ].contains(status),
        (TransportError::HttpError { status, body }).rate_limit() <==> status == 429,
{
}

/// The message contains the text.
pub open spec fn says(message: Seq<char>, text: Seq<char>) -> bool {
    exists|before: Seq<char>, after: Seq<char>|
        #![trigger before + text + after]
        message == before + text + after
}

/// A custom error goes by its message: it warrants failover exactly if it speaks of a timeout, a
/// connection or a 429, and is a rate limit exactly if it speaks of a 429.
pub proof fn law_custom_errors_go_by_message(message: String)
    ensures
        TransportError::Custom(message).retryable() <==> says(message@, "timed out"@) || says(
            message@,
            "connection"@,
        ) || says(message@, "429 Too Many Requests"@),
        TransportError::Custom(message).rate_limit() <==> says(
            message@,
            "429 Too Many Requests"@,
        ),
{
    text::law_containing_is_standing_somewhere(message@, "timed out"@);
    text::law_containing_is_standing_somewhere(message@, "connection"@);
    text::law_containing_is_standing_somewhere(message@, "429 Too Many Requests"@);
}

/// A stopped backend warrants failover. An error that the server answered with, one that does not
/// concern the connection, and one outside the transport do not. None of them is a rate limit.
pub proof fn law_other_errors_go_by_what_they_are(err: TransportError)
    requires
        !(err is HttpError),
        !(err is Custom),
    ensures
        err.retryable() <==> err is BackendGone,
        !err.rate_limit(),
{
}

} // verus!
