//! Errors of the gateway and the answers that they become.
//!
//! `ApiError` is the error of every endpoint. It is answered with an HTTP status
//! and a body in the OpenAI format:
//!
//! ```json
//! { "error": { "message": "...", "type": "...", "code": "..." } }
//! ```
use crate::text::{decimal, join, joined, push_decimal, texts};
use vstd::prelude::*;

verus! {

/// What kind of failure a provider reported.
#[derive(Clone, Copy, PartialEq, Eq, Structural, Debug)]
pub enum LlmErrorKind {
    InvalidRequest,
    Unauthorized,
    Forbidden,
    NotFound,
    RateLimited,
    Timeout,
    Network,
    ProviderUnavailable,
    UpstreamError,
    /// The gateway did not call the provider: its circuit is open.
    CircuitOpen,
    /// Any other failure.
    Other,
}

/// A failure of a provider: its kind and its description.
#[derive(Debug)]
pub struct LlmError {
    pub kind: LlmErrorKind,
    pub text: String,
}

impl Clone for LlmError {
    fn clone(&self) -> (r: Self)
        ensures
            r == *self,
    {
        LlmError { kind: self.kind, text: self.text.clone() }
    }
}

/// Error of an endpoint.
#[derive(Debug)]
pub enum ApiError {
    /// The requested alias is not in the configuration. There is no silent
    /// forward to another alias.
    AliasNotFound {
        /// The alias that was requested.
        alias: String,
        /// The configured aliases, sorted.
        available: Vec<String>,
    },
    /// The provider of an alias is not there.
    ProviderNotFound(String),
    /// A failure of the provider.
    Backend(LlmError),
    /// The body of the request cannot be read.
    InvalidBody(String),
    /// Input and `max_tokens` together are over the cap.
    ContextLengthExceeded {
        /// The estimated total.
        total: u64,
        /// The configured cap.
        cap: u64,
    },
}

/// The HTTP status of a provider failure.
pub open spec fn kind_status(kind: LlmErrorKind) -> u16 {
    match kind {
        LlmErrorKind::InvalidRequest => 400,
        LlmErrorKind::Unauthorized => 401,
        LlmErrorKind::Forbidden => 403,
        LlmErrorKind::NotFound => 404,
        LlmErrorKind::RateLimited => 429,
        LlmErrorKind::Timeout => 502,
        LlmErrorKind::Network => 502,
        LlmErrorKind::ProviderUnavailable => 502,
        LlmErrorKind::UpstreamError => 502,
        LlmErrorKind::CircuitOpen => 503,
        LlmErrorKind::Other => 500,
    }
}

/// The HTTP status of an error.
pub open spec fn error_status(e: ApiError) -> u16 {
    match e {
        ApiError::AliasNotFound { .. } => 404,
        ApiError::ProviderNotFound(_) => 500,
        ApiError::Backend(cause) => kind_status(cause.kind),
        ApiError::InvalidBody(_) => 400,
        ApiError::ContextLengthExceeded { .. } => 413,
    }
}

/// The description of an error, as the journal keeps it.
pub open spec fn error_text(e: ApiError) -> Seq<char> {
    match e {
        ApiError::AliasNotFound { alias, available } => "model alias '"@ + alias@
            + "' not found. Available: "@ + joined(texts(available@), ", "@),
        ApiError::ProviderNotFound(provider) => "provider '"@ + provider@
            + "' not found in config"@,
        ApiError::Backend(cause) => "backend error: "@ + cause.text@,
        ApiError::InvalidBody(reason) => "invalid request body: "@ + reason@,
        ApiError::ContextLengthExceeded { total, cap } => "context length exceeded: "@ + decimal(
            total as nat,
        ) + " tokens > cap "@ + decimal(cap as nat),
    }
}

/// The message of the answer to an error.
pub open spec fn answer_message(e: ApiError) -> Seq<char> {
    match e {
        ApiError::AliasNotFound { alias, available } => "Model alias '"@ + alias@
            + "' is not configured. Available aliases: "@ + joined(texts(available@), ", "@),
        ApiError::ProviderNotFound(provider) => "provider '"@ + provider@
            + "' not found in config"@,
        ApiError::Backend(cause) => cause.text@,
        ApiError::InvalidBody(reason) => reason@,
        ApiError::ContextLengthExceeded { total, cap } => "Input + max_tokens exceeds "@ + decimal(
            cap as nat,
        )
            + " token cap (Qwen3.6 slot 262K, hard cap to avoid freeze on cache-bf16 + corpus >200K). Estimated total: "@
            + decimal(total as nat) + " tokens."@,
    }
}

/// The type in the answer to an error.
pub open spec fn answer_type(e: ApiError) -> Seq<char> {
    match e {
        ApiError::AliasNotFound { .. } => "invalid_request_error"@,
        ApiError::ProviderNotFound(_) => "server_error"@,
        ApiError::Backend(_) => "server_error"@,
        ApiError::InvalidBody(_) => "invalid_request_error"@,
        ApiError::ContextLengthExceeded { .. } => "invalid_request_error"@,
    }
}

/// The code in the answer to an error.
pub open spec fn answer_code(e: ApiError) -> Seq<char> {
    match e {
        ApiError::AliasNotFound { .. } => "model_not_found"@,
        ApiError::ProviderNotFound(_) => "provider_not_configured"@,
        ApiError::Backend(_) => "backend_error"@,
        ApiError::InvalidBody(_) => "invalid_body"@,
        ApiError::ContextLengthExceeded { .. } => "context_length_exceeded"@,
    }
}

/// The body of an answer to an error.
#[derive(Debug)]
pub struct ErrorBody {
    pub error: ErrorDetail,
}

/// What the body of an answer to an error says.
#[derive(Debug)]
pub struct ErrorDetail {
    pub message: String,
    pub error_type: &'static str,
    pub code: &'static str,
}

/// The answer to an error.
#[derive(Debug)]
pub struct ErrorReply {
    pub status: u16,
    pub body: ErrorBody,
}

impl LlmErrorKind {
    /// The HTTP status of a provider failure of this kind.
    pub fn status_code(self) -> (r: u16)
        ensures
            r == kind_status(self),
    {
        match self {
            LlmErrorKind::InvalidRequest => 400,
            LlmErrorKind::Unauthorized => 401,
            LlmErrorKind::Forbidden => 403,
            LlmErrorKind::NotFound => 404,
            LlmErrorKind::RateLimited => 429,
            LlmErrorKind::Timeout => 502,
            LlmErrorKind::Network => 502,
            LlmErrorKind::ProviderUnavailable => 502,
            LlmErrorKind::UpstreamError => 502,
            LlmErrorKind::CircuitOpen => 503,
            LlmErrorKind::Other => 500,
        }
    }
}

impl ApiError {
    /// The HTTP status of the error.
    pub fn status_code(&self) -> (r: u16)
        ensures
            r == error_status(*self),
    {
        match self {
            ApiError::AliasNotFound { .. } => 404,
            ApiError::ProviderNotFound(_) => 500,
            ApiError::Backend(cause) => cause.kind.status_code(),
            ApiError::InvalidBody(_) => 400,
            ApiError::ContextLengthExceeded { .. } => 413,
        }
    }

    /// The description of the error.
    pub fn message(&self) -> (r: String)
        ensures
            r@ == error_text(*self),
    {
        match self {
            ApiError::AliasNotFound { alias, available } => {
                let names = join(available, ", ");
                "model alias '".to_owned().concat(alias.as_str()).concat(
                    "' not found. Available: ",
                ).concat(names.as_str())
            },
            ApiError::ProviderNotFound(provider) => {
                "provider '".to_owned().concat(provider.as_str()).concat("' not found in config")
            },
            ApiError::Backend(cause) => "backend error: ".to_owned().concat(cause.text.as_str()),
            ApiError::InvalidBody(reason) => {
                "invalid request body: ".to_owned().concat(reason.as_str())
            },
            ApiError::ContextLengthExceeded { total, cap } => {
                let mut out = "context length exceeded: ".to_owned();
                push_decimal(&mut out, *total);
                out.append(" tokens > cap ");
                push_decimal(&mut out, *cap);
                out
            },
        }
    }

    /// The message of the answer to the error.
    fn reply_message(&self) -> (r: String)
        ensures
            r@ == answer_message(*self),
    {
        match self {
            ApiError::AliasNotFound { alias, available } => {
                let names = join(available, ", ");
                "Model alias '".to_owned().concat(alias.as_str()).concat(
                    "' is not configured. Available aliases: ",
                ).concat(names.as_str())
            },
            ApiError::ProviderNotFound(provider) => {
                "provider '".to_owned().concat(provider.as_str()).concat("' not found in config")
            },
            ApiError::Backend(cause) => cause.text.clone(),
            ApiError::InvalidBody(reason) => reason.clone(),
            ApiError::ContextLengthExceeded { total, cap } => {
                let mut out = "Input + max_tokens exceeds ".to_owned();
                push_decimal(&mut out, *cap);
                out.append(
                    " token cap (Qwen3.6 slot 262K, hard cap to avoid freeze on cache-bf16 + corpus >200K). Estimated total: ",
                );
                push_decimal(&mut out, *total);
                out.append(" tokens.");
                out
            },
        }
    }

    /// The answer to the error.
    pub fn into_response(self) -> (r: ErrorReply)
        ensures
            r.status == error_status(self),
            r.body.error.message@ == answer_message(self),
            r.body.error.error_type@ == answer_type(self),
            r.body.error.code@ == answer_code(self),
    {
        let (error_type, code): (&'static str, &'static str) = match &self {
            ApiError::AliasNotFound { .. } => ("invalid_request_error", "model_not_found"),
            ApiError::ProviderNotFound(_) => ("server_error", "provider_not_configured"),
            ApiError::Backend(_) => ("server_error", "backend_error"),
            ApiError::InvalidBody(_) => ("invalid_request_error", "invalid_body"),
            ApiError::ContextLengthExceeded { .. } => {
                ("invalid_request_error", "context_length_exceeded")
            },
        };
        ErrorReply {
            status: self.status_code(),
            body: ErrorBody {
                error: ErrorDetail { message: self.reply_message(), error_type, code },
            },
        }
    }
}

/// An error is never answered with a status of success.
pub proof fn errors_are_no_success(e: ApiError)
    ensures
        400 <= error_status(e) < 600,
{
}

/// A failure that a provider blames on the client keeps its status. One of the
/// provider, or on the way to it, is a bad gateway. An open circuit is a service
/// that is not available, and any other failure one of the server.
pub proof fn failures_have_their_status(e: LlmError)
    ensures
        e.kind is InvalidRequest ==> error_status(ApiError::Backend(e)) == 400,
        e.kind is Unauthorized ==> error_status(ApiError::Backend(e)) == 401,
        e.kind is Forbidden ==> error_status(ApiError::Backend(e)) == 403,
        e.kind is NotFound ==> error_status(ApiError::Backend(e)) == 404,
        e.kind is RateLimited ==> error_status(ApiError::Backend(e)) == 429,
        e.kind is Timeout || e.kind is Network || e.kind is ProviderUnavailable
            || e.kind is UpstreamError <==> error_status(ApiError::Backend(e)) == 502,
        e.kind is CircuitOpen ==> error_status(ApiError::Backend(e)) == 503,
        e.kind is Other ==> error_status(ApiError::Backend(e)) == 500,
        kind_status(e.kind) == error_status(ApiError::Backend(e)),
{
}

/// A failure of a provider is answered with its description, whatever its kind.
pub proof fn failures_are_described(e: LlmError)
    ensures
        error_text(ApiError::Backend(e)) == "backend error: "@ + e.text@,
        answer_message(ApiError::Backend(e)) == e.text@,
        answer_type(ApiError::Backend(e)) == "server_error"@,
        answer_code(ApiError::Backend(e)) == "backend_error"@,
{
}

/// An unknown alias is not found: the answer names it and the aliases that there
/// are, in their order, with commas between them.
pub proof fn unknown_aliases_are_named(alias: String, available: Vec<String>, names: Seq<char>)
    requires
        names == joined(texts(available@), ", "@),
    ensures
        ({
            let e = ApiError::AliasNotFound { alias, available };
            &&& error_status(e) == 404
            &&& error_text(e) == "model alias '"@ + alias@ + "' not found. Available: "@ + names
            &&& answer_message(e) == "Model alias '"@ + alias@
                + "' is not configured. Available aliases: "@ + names
            &&& answer_type(e) == "invalid_request_error"@
            &&& answer_code(e) == "model_not_found"@
        }),
{
}

/// A request over the cap is too large: the answer names the cap and the total.
pub proof fn totals_over_the_cap_are_named(total: u64, cap: u64)
    ensures
        ({
            let e = ApiError::ContextLengthExceeded { total, cap };
            &&& error_status(e) == 413
            &&& error_text(e) == "context length exceeded: "@ + decimal(total as nat)
                + " tokens > cap "@ + decimal(cap as nat)
            &&& answer_message(e) == "Input + max_tokens exceeds "@ + decimal(cap as nat)
                + " token cap (Qwen3.6 slot 262K, hard cap to avoid freeze on cache-bf16 + corpus >200K). Estimated total: "@
                + decimal(total as nat) + " tokens."@
            &&& answer_type(e) == "invalid_request_error"@
            &&& answer_code(e) == "context_length_exceeded"@
        }),
{
}

/// A provider that is not there is an error of the server, and a body that cannot
/// be read one of the client.
pub proof fn other_errors_are_described(text: String)
    ensures
        ({
            let e = ApiError::ProviderNotFound(text);
            &&& error_status(e) == 500
            &&& error_text(e) == "provider '"@ + text@ + "' not found in config"@
            &&& answer_message(e) == error_text(e)
            &&& answer_type(e) == "server_error"@
            &&& answer_code(e) == "provider_not_configured"@
        }),
        ({
            let e = ApiError::InvalidBody(text);
            &&& error_status(e) == 400
            &&& error_text(e) == "invalid request body: "@ + text@
            &&& answer_message(e) == text@
            &&& answer_type(e) == "invalid_request_error"@
            &&& answer_code(e) == "invalid_body"@
        }),
{
}

} // verus!
