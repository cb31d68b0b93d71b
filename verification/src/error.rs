//! What a request that cannot be served is answered.

use vstd::prelude::*;
use vstd::string::*;

verus! {

/// Why a request cannot be served.
pub enum ProxyError {
    /// There is no access token.
    Token(String),
    /// The upstream endpoint cannot be reached.
    Unreachable(String),
    /// The upstream endpoint refused the request.
    Refused { status: u16, body: String },
    /// The reply of the upstream endpoint cannot be read.
    Malformed(String),
}

/// The number is that of an HTTP status.
pub open spec fn is_status(status: u16) -> bool {
    100 <= status < 1000
}

/// The HTTP status tells of success.
pub open spec fn is_success(status: u16) -> bool {
    200 <= status < 300
}

/// The status that the client gets.
pub open spec fn error_status(error: ProxyError) -> u16 {
    match error {
        ProxyError::Token(_) => 500,
        ProxyError::Unreachable(_) => 502,
        ProxyError::Refused { status, .. } => if is_status(status) {
            status
        } else {
            502
        },
        ProxyError::Malformed(_) => 502,
    }
}

/// The text that the client gets.
pub open spec fn error_text(error: ProxyError) -> Seq<char> {
    match error {
        ProxyError::Token(cause) => cause@,
        ProxyError::Unreachable(cause) => "Upstream error: "@ + cause@,
        ProxyError::Refused { body, .. } => body@,
        ProxyError::Malformed(cause) => cause@,
    }
}

impl ProxyError {
    /// The status that the client gets.
    pub fn status(&self) -> (status: u16)
        ensures
            status == error_status(*self),
    {
        match self {
            ProxyError::Token(_) => 500,
            ProxyError::Unreachable(_) => 502,
            ProxyError::Refused { status, .. } => if 100 <= *status && *status < 1000 {
                *status
            } else {
                502
            },
            ProxyError::Malformed(_) => 502,
        }
    }

    /// The status and the text that the client gets.
    pub fn answer(self) -> (answer: (u16, String))
        ensures
            answer.0 == error_status(self),
            answer.1@ == error_text(self),
    {
        let status = self.status();
        let text = match self {
            ProxyError::Token(cause) => cause,
            ProxyError::Unreachable(cause) => {
                let mut text = "Upstream error: ".to_owned();
                text.append(cause.as_str());
                text
            },
            ProxyError::Refused { body, .. } => body,
            ProxyError::Malformed(cause) => cause,
        };
        (status, text)
    }
}

/// Whether the status tells of success.
pub fn succeeded(status: u16) -> (yes: bool)
    ensures
        yes == is_success(status),
{
    200 <= status && status < 300
}

/// What becomes of an answer of the upstream endpoint.
#[derive(Clone, Copy, PartialEq, Eq, Structural)]
pub enum Outcome {
    /// It is a refusal, which is passed on.
    Refusal,
    /// It is a reply that arrives piece by piece.
    Stream,
    /// It is a reply in one piece.
    Whole,
}

/// What becomes of an answer of the upstream endpoint, by its status and by whether
/// a streamed reply was asked for.
pub open spec fn outcome_of(status: u16, streaming: bool) -> Outcome {
    if !is_success(status) {
        Outcome::Refusal
    } else if streaming {
        Outcome::Stream
    } else {
        Outcome::Whole
    }
}

/// What becomes of an answer of the upstream endpoint.
pub fn outcome(status: u16, streaming: bool) -> (outcome: Outcome)
    ensures
        outcome == outcome_of(status, streaming),
{
    if !succeeded(status) {
        Outcome::Refusal
    } else if streaming {
        Outcome::Stream
    } else {
        Outcome::Whole
    }
}

/// A request that the upstream endpoint refuses is answered with the endpoint's own
/// status and text.
pub proof fn law_refusal_is_passed_on(status: u16, streaming: bool, body: String)
    requires
        is_status(status),
        outcome_of(status, streaming) is Refusal,
    ensures
        error_status(ProxyError::Refused { status, body }) == status,
        error_text(ProxyError::Refused { status, body }) == body@,
        !is_success(error_status(ProxyError::Refused { status, body })),
{
}

/// No failure is answered with a status of success.
pub proof fn law_errors_are_not_success(error: ProxyError)
    requires
        error matches ProxyError::Refused { status, .. } ==> !is_success(status),
    ensures
        !is_success(error_status(error)),
        is_status(error_status(error)),
{
}

/// A missing token is a failure of the proxy; an endpoint that cannot be reached or
/// whose reply cannot be read is a bad gateway. The client is told why.
pub proof fn law_failures_are_told(cause: String)
    ensures
        error_status(ProxyError::Token(cause)) == 500,
        error_text(ProxyError::Token(cause)) == cause@,
        error_status(ProxyError::Unreachable(cause)) == 502,
        error_text(ProxyError::Unreachable(cause)) == "Upstream error: "@ + cause@,
        error_status(ProxyError::Malformed(cause)) == 502,
        error_text(ProxyError::Malformed(cause)) == cause@,
        forall|status: u16|
            100 <= status < 1000 ==> #[trigger] error_status(
                ProxyError::Refused { status, body: cause },
            ) == status,
        forall|status: u16|
            !(100 <= status < 1000) ==> #[trigger] error_status(
                ProxyError::Refused { status, body: cause },
            ) == 502,
{
}

/// An answer is a refusal exactly when its status is not in the two hundreds; a
/// reply is streamed exactly when a stream was asked for.
pub proof fn law_outcomes(status: u16, streaming: bool)
    ensures
        is_success(status) <==> 200 <= status <= 299,
        outcome_of(status, streaming) is Refusal <==> status < 200 || status > 299,
        outcome_of(status, streaming) is Stream <==> 200 <= status <= 299 && streaming,
        outcome_of(status, streaming) is Whole <==> 200 <= status <= 299 && !streaming,
{
}

} // verus!
