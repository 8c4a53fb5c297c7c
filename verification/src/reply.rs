//! Answers that the gateway gives without asking a provider.
use crate::error::ApiError;
use crate::text::{decimal, decimals_are_positional};
use vstd::prelude::*;

verus! {

/// An answer.
#[derive(Debug)]
pub struct Reply {
    pub status: u16,
    pub content_type: &'static str,
    /// Seconds after which the client may try again.
    pub retry_after: Option<&'static str>,
    pub body: String,
}

/// How a request ends before a provider is asked.
#[derive(Debug)]
pub enum Refusal {
    /// With this answer.
    Answered(Reply),
    /// With the answer to this error.
    Failed(ApiError),
}

/// `reply` tells the client that it has sent too many requests.
pub open spec fn says_rate_limited(reply: Reply) -> bool {
    &&& reply.status == 429
    &&& reply.content_type@ == "application/json"@
    &&& reply.retry_after matches Some(seconds) && seconds@ == "60"@
    &&& reply.body@
        == "{\"error\":{\"message\":\"rate limit exceeded\",\"type\":\"rate_limit_error\",\"code\":\"too_many_requests\"}}"@
}

/// `reply` tells the client that the circuit of a provider is open.
pub open spec fn says_circuit_open(reply: Reply, provider: Seq<char>) -> bool {
    &&& reply.status == 503
    &&& reply.content_type@ == "application/json"@
    &&& reply.retry_after is None
    &&& reply.body@ == "{\"error\":{\"message\":\"provider '"@ + provider
        + "' temporairement indisponible (circuit ouvert)\",\"type\":\"server_error\",\"code\":\"provider_unavailable\"}}"@
}

/// The answer to a client that has sent too many requests.
pub fn rate_limited() -> (r: Reply)
    ensures
        says_rate_limited(r),
{
    Reply {
        status: 429,
        content_type: "application/json",
        retry_after: Some("60"),
        body: "{\"error\":{\"message\":\"rate limit exceeded\",\"type\":\"rate_limit_error\",\"code\":\"too_many_requests\"}}".to_owned(),
    }
}

/// The answer when the circuit of a provider is open.
pub fn circuit_open(provider: &str) -> (r: Reply)
    ensures
        says_circuit_open(r, provider@),
{
    Reply {
        status: 503,
        content_type: "application/json",
        retry_after: None,
        body: "{\"error\":{\"message\":\"provider '".to_owned().concat(provider).concat(
            "' temporairement indisponible (circuit ouvert)\",\"type\":\"server_error\",\"code\":\"provider_unavailable\"}}",
        ),
    }
}

/// A client that has sent too many requests is told so, and to wait a minute: the
/// length of a window. One whose provider is cut off is told which, and not when to
/// come back.
pub proof fn refusals_are_told_apart(limited: Reply, cut_off: Reply, provider: Seq<char>)
    requires
        says_rate_limited(limited),
        says_circuit_open(cut_off, provider),
    ensures
        limited.status == 429,
        limited.content_type@ == "application/json"@,
        limited.retry_after matches Some(seconds) && seconds@ == decimal(60),
        limited.body@
            == "{\"error\":{\"message\":\"rate limit exceeded\",\"type\":\"rate_limit_error\",\"code\":\"too_many_requests\"}}"@,
        cut_off.status == 503,
        cut_off.content_type@ == "application/json"@,
        cut_off.retry_after is None,
        cut_off.body@ == "{\"error\":{\"message\":\"provider '"@ + provider
            + "' temporairement indisponible (circuit ouvert)\",\"type\":\"server_error\",\"code\":\"provider_unavailable\"}}"@,
{
    reveal_strlit("60");
    decimals_are_positional(6, 0, 0);
    decimals_are_positional(0, 6, 0);
    assert("60"@ =~= decimal(60));
}

} // verus!
