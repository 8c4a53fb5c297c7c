//! `POST /v1/embeddings`: passes an embedding request on to a provider.
//!
//! The model of a request is an alias, as in a chat. There is no second provider:
//! vectors of another model would be of no use. The answer of the provider is
//! passed on as it is.
//!
//! Status of the answer:
//! - 404: unknown alias
//! - 429: too many requests
//! - 500: the provider of the alias is not configured
//! - 502: no answer from the provider
//! - 503: the circuit of the provider is open
//! - any other: as the provider answered
use crate::breaker::BreakerNote;
use crate::config::{copy_text, AliasTarget, Config, ProviderConfig};
use crate::error::{ApiError, LlmError, LlmErrorKind};
use crate::handlers::chat::unknown_alias;
use crate::openai::EmbeddingRequest;
use crate::provider_pool::ProviderPool;
use crate::providers::openai_compat::{
    is_server_error, is_success, send_failure, server_error, success,
};
use crate::rate_limit::{admits, after_request, ClientIp, RateLimiter};
use crate::registry::RequestLogEntry;
use crate::reply::{circuit_open, rate_limited, says_circuit_open, says_rate_limited, Refusal, Reply};
use crate::text::{
    decimal, push_decimal, run_of, trim_end, trim_end_char, trim_end_removes_the_run,
};
use vstd::prelude::*;

verus! {

/// The alias that a request names; the empty one where it names none.
pub open spec fn asked_alias(body: EmbeddingRequest) -> Seq<char> {
    match body.model {
        Some(model) => model@,
        None => Seq::empty(),
    }
}

/// A request that was admitted: its alias and what the alias leads to.
#[derive(Debug)]
pub struct EmbeddingTarget {
    pub model_alias: String,
    pub alias: AliasTarget,
    pub provider: ProviderConfig,
}

/// `r` is what a request is admitted with, or refused with. Rate limit, alias and
/// provider are tried in this order.
pub open spec fn admitted(
    config: Config,
    within_rate: bool,
    body: EmbeddingRequest,
    r: Result<EmbeddingTarget, Refusal>,
) -> bool {
    let asked = asked_alias(body);
    if !within_rate {
        r matches Err(Refusal::Answered(reply)) && says_rate_limited(reply)
    } else if !config.aliases@.contains_key(asked) {
        r matches Err(Refusal::Failed(e)) && unknown_alias(config, asked, e)
    } else if !config.providers@.contains_key(config.aliases@[asked].provider@) {
        r == Err::<EmbeddingTarget, Refusal>(
            Refusal::Failed(ApiError::ProviderNotFound(config.aliases@[asked].provider)),
        )
    } else {
        r matches Ok(target) && {
            &&& target.model_alias@ == asked
            &&& target.alias == config.aliases@[asked]
            &&& target.provider == config.providers@[target.alias.provider@]
        }
    }
}

/// Decides on a request, given whether its client is within the rate limit.
pub fn take_in(config: &Config, within_rate: bool, body: &EmbeddingRequest) -> (r: Result<
    EmbeddingTarget,
    Refusal,
>)
    ensures
        admitted(*config, within_rate, *body, r),
{
    if !within_rate {
        return Err(Refusal::Answered(rate_limited()));
    }
    let model_alias: String = match &body.model {
        Some(model) => model.clone(),
        None => String::new(),
    };
    assert(model_alias@ =~= asked_alias(*body));
    match config.aliases.get(&model_alias) {
        Some(alias) => match config.providers.get(&alias.provider) {
            Some(provider) => Ok(
                EmbeddingTarget { model_alias, alias: alias.clone(), provider: provider.clone() },
            ),
            None => Err(Refusal::Failed(ApiError::ProviderNotFound(alias.provider.clone()))),
        },
        None => Err(
            Refusal::Failed(
                ApiError::AliasNotFound { alias: model_alias, available: config.alias_names() },
            ),
        ),
    }
}

/// Takes a request in: counts it for its client, and decides on it.
pub fn handler(
    config: &Config,
    limiter: &mut RateLimiter,
    client: ClientIp,
    body: &EmbeddingRequest,
) -> (r: Result<EmbeddingTarget, Refusal>)
    ensures
        final(limiter).limit() == old(limiter).limit(),
        final(limiter).origin() == old(limiter).origin(),
        exists|now: u64|
            {
                &&& final(limiter).windows() == #[trigger] after_request(
                    old(limiter).windows(),
                    old(limiter).limit(),
                    client,
                    now,
                )
                &&& admitted(
                    *config,
                    admits(old(limiter).windows(), old(limiter).limit(), client, now),
                    *body,
                    r,
                )
            },
{
    let within_rate: bool = limiter.check_and_increment(client);
    take_in(config, within_rate, body)
}

/// A call to the embedding endpoint of a provider.
#[derive(Debug)]
pub struct EmbeddingCall {
    pub url: String,
    /// The model that is put on the request.
    pub model: String,
    /// The Bearer token of the call.
    pub api_key: Option<String>,
    pub timeout_secs: u64,
    /// The provider that is called.
    pub provider: String,
    /// The alias that the client named.
    pub model_alias: String,
}

/// Address of the embedding endpoint below a base address.
pub open spec fn embedding_address(base: Seq<char>) -> Seq<char> {
    trim_end(base, '/') + "/v1/embeddings"@
}

/// The key of a provider, where there is one.
pub open spec fn key_of(pool: ProviderPool, provider: Seq<char>) -> Option<String> {
    if pool.resolved_api_keys@.contains_key(provider) {
        pool.resolved_api_keys@[provider]
    } else {
        None
    }
}

/// `call` is the call that `target` asks for.
pub open spec fn calls(target: EmbeddingTarget, pool: ProviderPool, call: EmbeddingCall) -> bool {
    &&& call.url@ == embedding_address(target.provider.endpoint@)
    &&& call.model == target.alias.model
    &&& call.api_key == key_of(pool, target.alias.provider@)
    &&& call.timeout_secs == target.provider.timeout_secs
    &&& call.provider == target.alias.provider
    &&& call.model_alias == target.model_alias
}

impl EmbeddingTarget {
    /// The call to make, where the circuit of the provider lets it pass; else the
    /// answer to the client.
    pub fn forward(self, pool: &ProviderPool, allowed: bool) -> (r: Result<EmbeddingCall, Reply>)
        ensures
            match r {
                Ok(call) => allowed && calls(self, *pool, call),
                Err(reply) => !allowed && says_circuit_open(reply, self.alias.provider@),
            },
    {
        if !allowed {
            return Err(circuit_open(self.alias.provider.as_str()));
        }
        let api_key: Option<String> = match pool.resolved_api_keys.get(&self.alias.provider) {
            Some(key) => copy_text(key),
            None => None,
        };
        Ok(
            EmbeddingCall {
                url: trim_end_char(self.provider.endpoint.as_str(), '/').concat("/v1/embeddings"),
                model: self.alias.model,
                api_key,
                timeout_secs: self.provider.timeout_secs,
                provider: self.alias.provider,
                model_alias: self.model_alias,
            },
        )
    }
}

/// What the breakers and the journal are told of an answer.
#[derive(Debug)]
pub struct EmbeddingAccount {
    pub note: BreakerNote,
    pub entry: RequestLogEntry,
}

/// The description of a status of failure.
pub open spec fn upstream_text(status: u16) -> Seq<char> {
    "upstream HTTP "@ + decimal(status as nat)
}

/// The description of a status of failure.
fn upstream_message(status: u16) -> (r: String)
    ensures
        r@ == upstream_text(status),
{
    let mut out = "upstream HTTP ".to_owned();
    push_decimal(&mut out, status as u64);
    out
}

impl EmbeddingCall {
    /// The provider gave no answer, within the timeout or at all; `text` describes
    /// why. The breakers are told, the journal is not.
    pub fn unanswered(&self, timed_out: bool, text: String) -> (r: (BreakerNote, ApiError))
        ensures
            ({
                let e = LlmError {
                    kind: if timed_out {
                        LlmErrorKind::Timeout
                    } else {
                        LlmErrorKind::Network
                    },
                    text,
                };
                &&& r.0 == BreakerNote { provider: self.provider, failure: Some(e) }
                &&& r.1 == ApiError::Backend(e)
            }),
    {
        let e = send_failure(timed_out, text);
        (
            BreakerNote { provider: self.provider.clone(), failure: Some(e.clone()) },
            ApiError::Backend(e),
        )
    }

    /// The provider answered with `status`. A status that blames the server is a
    /// failure of the provider. One that blames the client is none, though the
    /// journal tells of it.
    pub fn answered(&self, status: u16, latency_ms: u128) -> (r: EmbeddingAccount)
        ensures
            r.note.provider == self.provider,
            match r.note.failure {
                Some(e) => server_error(status) && e.kind is UpstreamError && e.text@
                    == upstream_text(status),
                None => !server_error(status),
            },
            r.entry.model_alias == self.model_alias,
            r.entry.provider_real == self.provider,
            r.entry.real_model == self.model,
            r.entry.route@ == "/v1/embeddings"@,
            r.entry.latency_ms == Some((latency_ms % 0x1_0000_0000_0000_0000) as u64),
            r.entry.status_code == status,
            !r.entry.streamed,
            match r.entry.error_message {
                Some(message) => !success(status) && message@ == upstream_text(status),
                None => success(status),
            },
    {
        let failure: Option<LlmError> = if is_server_error(status) {
            Some(LlmError { kind: LlmErrorKind::UpstreamError, text: upstream_message(status) })
        } else {
            None
        };
        let error_message: Option<String> = if is_success(status) {
            None
        } else {
            Some(upstream_message(status))
        };
        EmbeddingAccount {
            note: BreakerNote { provider: self.provider.clone(), failure },
            entry: RequestLogEntry {
                model_alias: self.model_alias.clone(),
                provider_real: self.provider.clone(),
                real_model: self.model.clone(),
                route: "/v1/embeddings".to_owned(),
                latency_ms: Some((latency_ms % 0x1_0000_0000_0000_0000) as u64),
                status_code: status,
                streamed: false,
                error_message,
            },
        }
    }
}

/// What the client is answered.
#[derive(Debug)]
pub struct EmbeddingReply {
    pub status: u16,
    pub content_type: &'static str,
    pub body: Vec<u8>,
}

/// Passes the answer of a provider on, given its status and its body, or why the
/// body could not be read.
///
/// Status and body are passed on as they are. The body of a success is owed; that
/// of a failure is left empty where none could be read.
pub fn pass_on(status: u16, body: Result<Vec<u8>, String>) -> (r: Result<EmbeddingReply, ApiError>)
    ensures
        match (success(status), body) {
            (true, Err(why)) => r == Err::<EmbeddingReply, ApiError>(
                ApiError::Backend(LlmError { kind: LlmErrorKind::Network, text: why }),
            ),
            (true, Ok(bytes)) => r matches Ok(reply) && {
                &&& reply.status == status
                &&& reply.content_type@ == "application/json"@
                &&& reply.body == bytes
            },
            (false, _) => r matches Ok(reply) && {
                &&& reply.status == status
                &&& reply.content_type@ == "application/json"@
                &&& reply.body@ == match body {
                    Ok(bytes) => bytes@,
                    Err(_) => Seq::empty(),
                }
            },
        },
{
    if is_success(status) {
        match body {
            Ok(bytes) => Ok(
                EmbeddingReply { status, content_type: "application/json", body: bytes },
            ),
            Err(why) => Err(
                ApiError::Backend(LlmError { kind: LlmErrorKind::Network, text: why }),
            ),
        }
    } else {
        let bytes: Vec<u8> = match body {
            Ok(bytes) => bytes,
            Err(_) => Vec::new(),
        };
        Ok(EmbeddingReply { status, content_type: "application/json", body: bytes })
    }
}

/// A request that names no alias of the configuration is never passed on.
pub proof fn aliases_are_strict(
    config: Config,
    within_rate: bool,
    body: EmbeddingRequest,
    r: Result<EmbeddingTarget, Refusal>,
)
    requires
        admitted(config, within_rate, body, r),
        !config.aliases@.contains_key(asked_alias(body)),
    ensures
        r is Err,
{
}

/// In a coherent configuration the provider of every alias is there.
pub proof fn coherent_configuration_serves(
    config: Config,
    body: EmbeddingRequest,
    r: Result<EmbeddingTarget, Refusal>,
)
    requires
        config.coherent(),
        admitted(config, true, body, r),
    ensures
        r is Ok <==> config.aliases@.contains_key(asked_alias(body)),
{
    if config.aliases@.contains_key(asked_alias(body)) {
        assert(config.target_declared(config.aliases@[asked_alias(body)]));
    }
}

/// The embedding endpoint stands one slash below the base address, however many
/// slashes the base address ends in.
pub proof fn address_takes_any_slashes(base: Seq<char>, n: nat)
    requires
        base.len() > 0 ==> base.last() != '/',
    ensures
        embedding_address(base + Seq::new(n, |i: int| '/')) == base + "/v1/embeddings"@,
{
    assert(Seq::new(n, |i: int| '/') =~= run_of('/', n));
    trim_end_removes_the_run(base, '/', n);
}

/// Below an address that ends in no slash the endpoint is that address, a slash,
/// and its path.
pub proof fn address_has_one_slash(base: Seq<char>)
    requires
        base.len() > 0 ==> base.last() != '/',
    ensures
        embedding_address(base) == base.push('/') + "v1/embeddings"@,
{
    reveal_strlit("/v1/embeddings");
    reveal_strlit("v1/embeddings");
    address_takes_any_slashes(base, 0);
    assert(base + Seq::new(0, |i: int| '/') =~= base);
    assert(base + "/v1/embeddings"@ =~= base.push('/') + "v1/embeddings"@);
}

/// A call goes below the address of the provider, asks for the model of the alias,
/// and has the key that the pool holds for the provider, where it holds one.
pub proof fn calls_follow_the_target(
    target: EmbeddingTarget,
    pool: ProviderPool,
    call: EmbeddingCall,
    base: Seq<char>,
    n: nat,
)
    requires
        calls(target, pool, call),
        base.len() > 0 ==> base.last() != '/',
        target.provider.endpoint@ == base + Seq::new(n, |i: int| '/'),
    ensures
        call.url@ == base + "/v1/embeddings"@,
        call.model@ == target.alias.model@,
        call.provider@ == target.alias.provider@,
        call.model_alias@ == target.model_alias@,
        call.timeout_secs == target.provider.timeout_secs,
        pool.resolved_api_keys@.contains_key(target.alias.provider@) ==> call.api_key
            == pool.resolved_api_keys@[target.alias.provider@],
        !pool.resolved_api_keys@.contains_key(target.alias.provider@) ==> call.api_key is None,
{
    address_takes_any_slashes(base, n);
}

/// A request is taken in if and only if its client is within the rate limit, it
/// names an alias, and the provider of the alias is configured. It leads to that
/// provider. A request without a model names the empty alias.
pub proof fn requests_are_taken_in(
    config: Config,
    within_rate: bool,
    body: EmbeddingRequest,
    name: Seq<char>,
    r: Result<EmbeddingTarget, Refusal>,
)
    requires
        body.model matches Some(model) ==> model@ == name,
        body.model is None ==> name.len() == 0,
        admitted(config, within_rate, body, r),
    ensures
        r is Ok <==> {
            &&& within_rate
            &&& config.aliases@.contains_key(name)
            &&& config.providers@.contains_key(config.aliases@[name].provider@)
        },
        r matches Ok(target) ==> {
            &&& target.model_alias@ == name
            &&& target.alias == config.aliases@[name]
            &&& target.provider == config.providers@[config.aliases@[name].provider@]
        },
        !within_rate ==> (r matches Err(Refusal::Answered(reply)) && reply.status == 429),
        within_rate && !config.aliases@.contains_key(name) ==> (r matches Err(
            Refusal::Failed(ApiError::AliasNotFound { alias, .. }),
        ) && alias@ == name),
        within_rate && config.aliases@.contains_key(name) && !config.providers@.contains_key(
            config.aliases@[name].provider@,
        ) ==> (r matches Err(Refusal::Failed(ApiError::ProviderNotFound(provider))) && provider@
            == config.aliases@[name].provider@),
{
    assert(asked_alias(body) =~= name);
}

/// The description of a failure ends in its status.
pub proof fn failures_tell_their_status(status: u16)
    ensures
        upstream_text(status) == "upstream HTTP "@ + decimal(status as nat),
{
}

} // verus!
