//! `POST /v1/chat/completions`: passes a chat request on to a provider.
//!
//! The model of a request is an alias. It leads to a provider and to the model
//! that the provider is asked for, and perhaps to a second provider, which is
//! tried when the first fails or its circuit is open. Whether the answer comes as
//! a whole or as a stream, the same rules hold until it begins.
//!
//! Status of the answer:
//! - 404: unknown alias
//! - 413: over the cap on the tokens
//! - 429: too many requests
//! - 500: the provider of the alias is not there
//! - 502: failure of the provider, and of the second where there is one
//! - 503: the circuit is open, and no second provider helped
//! - other 4xx: errors of the client that the provider reported
//!
//! The calls themselves belong to the caller. A dispatch is a series of
//! decisions: each one says what to tell the circuit breakers, and then what to do
//! next.
use crate::breaker::{BreakerNote, CIRCUIT_OPEN_REASON};
use crate::config::{sorted_names, AliasTarget, Config};
use crate::error::{
    error_status, error_text, errors_are_no_success, kind_status, ApiError, LlmError, LlmErrorKind,
};
use crate::metrics::{
    count_of, counted, export_text, recorded_request_is_shown, request_line, stands_at,
    DurationLabels, DurationStat, RequestKey, RequestLabels,
};
use crate::openai::{ChatCompletionRequest, Message};
use crate::provider_pool::ProviderPool;
use crate::providers::openai_compat::{OpenAiCompatProvider, UpstreamCall};
use crate::rate_limit::{admits, after_request, ClientIp, RateLimiter};
use crate::registry::{labels_of, RequestLogEntry};
use crate::reply::{rate_limited, says_rate_limited, Refusal};
use crate::sse::{
    all_bytes, byte_pieces_do_not_matter, data_frame, end_mark_read_back, ended, frame, frames,
    frames_read_back, payloads, plain_payload, received_bytes,
};
use crate::table::{ascending, items_map};
use crate::text::{text_precedes, texts};
use crate::token_counter::{
    answer_tokens, conversation_tokens, each_message_counts, estimate_total_tokens, saturated,
};
use vstd::prelude::*;

verus! {

// ---------------------------------------------------------------------------
// Admission
// ---------------------------------------------------------------------------

/// What becomes of a request before a provider is asked.
pub enum Admission {
    RateLimited,
    OverCap,
    UnknownAlias,
    Admitted,
}

/// The estimated tokens of a request.
pub open spec fn total_tokens(body: ChatCompletionRequest) -> u64 {
    saturated(conversation_tokens(body.messages@) + answer_tokens(body.max_tokens))
}

/// Rate limit, cap and alias are tried in this order. A cap of 0 is none, and a
/// total that just reaches the cap passes.
pub open spec fn admission(
    config: Config,
    within_rate: bool,
    body: ChatCompletionRequest,
) -> Admission {
    let cap = config.server.max_total_tokens;
    if !within_rate {
        Admission::RateLimited
    } else if cap > 0 && total_tokens(body) > cap {
        Admission::OverCap
    } else if !config.aliases@.contains_key(body.model@) {
        Admission::UnknownAlias
    } else {
        Admission::Admitted
    }
}

/// `e` says that `alias` is not configured, and names those that are.
pub open spec fn unknown_alias(config: Config, alias: Seq<char>, e: ApiError) -> bool {
    e matches ApiError::AliasNotFound { alias: asked, available } && {
        &&& asked@ == alias
        &&& sorted_names(texts(available@))
        &&& forall|name: Seq<char>|
            texts(available@).contains(name) <==> config.aliases@.contains_key(name)
    }
}

/// `r` is what a request is admitted with, or refused with.
pub open spec fn admitted(
    config: Config,
    within_rate: bool,
    body: ChatCompletionRequest,
    r: Result<CircuitQuestion, Refusal>,
) -> bool {
    match admission(config, within_rate, body) {
        Admission::RateLimited => r matches Err(Refusal::Answered(reply)) && says_rate_limited(
            reply,
        ),
        Admission::OverCap => r == Err::<CircuitQuestion, Refusal>(
            Refusal::Failed(
                ApiError::ContextLengthExceeded {
                    total: total_tokens(body),
                    cap: config.server.max_total_tokens,
                },
            ),
        ),
        Admission::UnknownAlias => r matches Err(Refusal::Failed(e)) && unknown_alias(
            config,
            body.model@,
            e,
        ),
        Admission::Admitted => r == Ok::<CircuitQuestion, Refusal>(
            CircuitQuestion {
                turn: Turn::Primary,
                routed: Routed {
                    model_alias: body.model,
                    alias: config.aliases@[body.model@],
                    stream: body.stream == Some(true),
                },
            },
        ),
    }
}

/// Decides on a request, given whether its client is within the rate limit.
pub fn take_in(config: &Config, within_rate: bool, body: &ChatCompletionRequest) -> (r: Result<
    CircuitQuestion,
    Refusal,
>)
    ensures
        admitted(*config, within_rate, *body, r),
{
    if !within_rate {
        return Err(Refusal::Answered(rate_limited()));
    }
    let cap: u64 = config.server.max_total_tokens;
    if cap > 0 {
        let total: u64 = estimate_total_tokens(body);
        if total > cap {
            return Err(Refusal::Failed(ApiError::ContextLengthExceeded { total, cap }));
        }
    }
    match config.aliases.get(&body.model) {
        Some(alias) => {
            let stream: bool = match body.stream {
                Some(asked) => asked,
                None => false,
            };
            Ok(
                CircuitQuestion {
                    turn: Turn::Primary,
                    routed: Routed {
                        model_alias: body.model.clone(),
                        alias: alias.clone(),
                        stream,
                    },
                },
            )
        },
        None => Err(
            Refusal::Failed(
                ApiError::AliasNotFound {
                    alias: body.model.clone(),
                    available: config.alias_names(),
                },
            ),
        ),
    }
}

/// Takes a request in: counts it for its client, and decides on it.
pub fn handler(
    config: &Config,
    limiter: &mut RateLimiter,
    client: ClientIp,
    body: &ChatCompletionRequest,
) -> (r: Result<CircuitQuestion, Refusal>)
    ensures
        final(limiter).limit() == old(limiter).limit(),
        final(limiter).origin() == old(limiter).origin(),
        exists|now: u64|
            {
                &&& final(limiter).windows() == #[trigger] after_request(
                    old(limiter).windows(),
                    old(limiter).limit(),
                    client,
                    now,
                )
                &&& admitted(
                    *config,
                    admits(old(limiter).windows(), old(limiter).limit(), client, now),
                    *body,
                    r,
                )
            },
{
    let within_rate: bool = limiter.check_and_increment(client);
    take_in(config, within_rate, body)
}

// ---------------------------------------------------------------------------
// Dispatch
// ---------------------------------------------------------------------------

/// Which provider of an alias is tried.
#[derive(Debug, Clone, Copy, PartialEq, Eq, Structural)]
pub enum Turn {
    Primary,
    Fallback,
}

/// A request that was admitted, and where it leads.
#[derive(Debug)]
pub struct Routed {
    /// The model that the client named.
    pub model_alias: String,
    /// What stands behind it.
    pub alias: AliasTarget,
    /// Whether the answer is to come as a stream.
    pub stream: bool,
}

/// The question whether the circuit of a provider lets a call pass.
#[derive(Debug)]
pub struct CircuitQuestion {
    pub turn: Turn,
    pub routed: Routed,
}

/// The failure that an open circuit stands for.
#[derive(Debug)]
pub struct Denial {
    pub provider: String,
    pub reason: &'static str,
}

/// A call that waits for its outcome.
#[derive(Debug)]
pub struct PendingCall {
    pub turn: Turn,
    pub routed: Routed,
    /// The provider that is called.
    pub provider: String,
    pub call: UpstreamCall,
}

/// Status and headers of an answer.
#[derive(Debug)]
pub struct AnswerHead {
    pub status: u16,
    pub content_type: &'static str,
    pub cache_control: Option<&'static str>,
    pub connection: Option<&'static str>,
}

/// `head` belongs to an answer that comes as a stream, or as a whole.
pub open spec fn heads(head: AnswerHead, stream: bool) -> bool {
    &&& head.status == 200
    &&& if stream {
        &&& head.content_type@ == "text/event-stream"@
        &&& head.cache_control matches Some(c) && c@ == "no-cache"@
        &&& head.connection matches Some(k) && k@ == "keep-alive"@
    } else {
        &&& head.content_type@ == "application/json"@
        &&& head.cache_control is None
        &&& head.connection is None
    }
}

/// The head of an answer that comes as a stream, or as a whole.
pub fn answer_head(stream: bool) -> (r: AnswerHead)
    ensures
        heads(r, stream),
{
    if stream {
        AnswerHead {
            status: 200,
            content_type: "text/event-stream",
            cache_control: Some("no-cache"),
            connection: Some("keep-alive"),
        }
    } else {
        AnswerHead {
            status: 200,
            content_type: "application/json",
            cache_control: None,
            connection: None,
        }
    }
}

/// The outcome of a dispatch, and the provider that gave it.
#[derive(Debug)]
pub struct Finished {
    pub routed: Routed,
    /// The head of the answer, or what is answered in its place.
    pub result: Result<AnswerHead, ApiError>,
    pub provider: String,
}

/// What to do next.
#[derive(Debug)]
pub enum Next {
    Ask(CircuitQuestion),
    Call(PendingCall),
    Finish(Finished),
}

/// What to tell the circuit breakers, in order, and what to do then.
#[derive(Debug)]
pub struct Decision {
    pub notes: Vec<BreakerNote>,
    pub next: Next,
}

/// The provider whose turn it is.
pub open spec fn turn_provider(alias: AliasTarget, turn: Turn) -> String {
    match (turn, alias.fallback_provider) {
        (Turn::Fallback, Some(provider)) => provider,
        _ => alias.provider,
    }
}

/// The model that the provider whose turn it is is asked for.
pub open spec fn turn_model(alias: AliasTarget, turn: Turn) -> String {
    match (turn, alias.fallback_model) {
        (Turn::Fallback, Some(model)) => model,
        _ => alias.model,
    }
}

/// A failure of the provider, as against one of the configuration.
pub open spec fn backend_error(result: Result<(), ApiError>) -> Option<LlmError> {
    match result {
        Err(ApiError::Backend(e)) => Some(e),
        _ => None,
    }
}

/// The note of a success.
pub open spec fn success_note(provider: String) -> BreakerNote {
    BreakerNote { provider, failure: None }
}

/// The note of a failure.
pub open spec fn failure_note(provider: String, e: LlmError) -> BreakerNote {
    BreakerNote { provider, failure: Some(e) }
}

/// What the breakers are told of what a provider gave. A failure of the
/// configuration does not concern them.
pub open spec fn closing_notes(provider: String, result: Result<(), ApiError>) -> Seq<BreakerNote> {
    match result {
        Ok(()) => seq![success_note(provider)],
        Err(ApiError::Backend(e)) => seq![failure_note(provider, e)],
        Err(_) => seq![],
    }
}

/// `finished` is the end of a dispatch in which the provider whose turn it is gave
/// `result`.
pub open spec fn finishes(
    routed: Routed,
    turn: Turn,
    result: Result<(), ApiError>,
    finished: Finished,
) -> bool {
    &&& finished.routed == routed
    &&& finished.provider == turn_provider(routed.alias, turn)
    &&& match result {
        Ok(()) => finished.result matches Ok(head) && heads(head, routed.stream),
        Err(e) => finished.result == Err::<AnswerHead, ApiError>(e),
    }
}

/// `d` is what follows when the provider whose turn it is gave `result`.
///
/// When the first provider failed and there is a second, the failure is noted and
/// the second is asked. Anything else is the outcome. Either way the breakers are
/// told once of each call.
pub open spec fn settles(
    routed: Routed,
    turn: Turn,
    result: Result<(), ApiError>,
    d: Decision,
) -> bool {
    &&& d.notes@ == closing_notes(turn_provider(routed.alias, turn), result)
    &&& if turn is Primary && backend_error(result) is Some
        && routed.alias.fallback_provider is Some {
        d.next == Next::Ask(CircuitQuestion { turn: Turn::Fallback, routed })
    } else {
        d.next matches Next::Finish(finished) && finishes(routed, turn, result, finished)
    }
}

/// The provider whose turn it is.
fn provider_in_turn(alias: &AliasTarget, turn: Turn) -> (r: String)
    ensures
        r == turn_provider(*alias, turn),
{
    match (turn, &alias.fallback_provider) {
        (Turn::Fallback, Some(provider)) => provider.clone(),
        _ => alias.provider.clone(),
    }
}

/// The model that the provider whose turn it is is asked for.
fn model_in_turn(alias: &AliasTarget, turn: Turn) -> (r: String)
    ensures
        r == turn_model(*alias, turn),
{
    match (turn, &alias.fallback_model) {
        (Turn::Fallback, Some(model)) => model.clone(),
        _ => alias.model.clone(),
    }
}

/// Tells whether an error is a failure of the provider, so that the second
/// provider is worth a try.
pub fn is_backend_error(e: &ApiError) -> (r: bool)
    ensures
        r <==> *e is Backend,
{
    match e {
        ApiError::Backend(_) => true,
        _ => false,
    }
}

/// Decides what follows when the provider whose turn it is gave `result`.
pub fn dispatch_with_fallback(
    routed: Routed,
    turn: Turn,
    result: Result<(), ApiError>,
) -> (d: Decision)
    ensures
        settles(routed, turn, result, d),
{
    let provider = provider_in_turn(&routed.alias, turn);
    let mut notes: Vec<BreakerNote> = Vec::new();
    match &result {
        Ok(()) => {
            notes.push(BreakerNote { provider: provider.clone(), failure: None });
        },
        Err(ApiError::Backend(e)) => {
            notes.push(BreakerNote { provider: provider.clone(), failure: Some(e.clone()) });
        },
        Err(_) => {},
    }
    assert(notes@ =~= closing_notes(provider, result));
    let failed: bool = match &result {
        Ok(()) => false,
        Err(e) => is_backend_error(e),
    };
    if failed && turn == Turn::Primary && routed.alias.fallback_provider.is_some() {
        return Decision {
            notes,
            next: Next::Ask(CircuitQuestion { turn: Turn::Fallback, routed }),
        };
    }
    let result: Result<AnswerHead, ApiError> = match result {
        Ok(()) => Ok(answer_head(routed.stream)),
        Err(e) => Err(e),
    };
    Decision { notes, next: Next::Finish(Finished { routed, result, provider }) }
}

impl CircuitQuestion {
    /// The provider whose circuit is to be asked.
    pub fn provider(&self) -> (r: String)
        ensures
            r == turn_provider(self.routed.alias, self.turn),
    {
        provider_in_turn(&self.routed.alias, self.turn)
    }

    /// The failure that stands for the call where the circuit is open.
    pub fn denial(&self) -> (r: Denial)
        ensures
            r.provider == turn_provider(self.routed.alias, self.turn),
            r.reason@ == CIRCUIT_OPEN_REASON@,
            r.reason@ == "circuit breaker ouvert"@,
    {
        Denial { provider: self.provider(), reason: CIRCUIT_OPEN_REASON }
    }

    /// Decides what follows from the answer. `denial` is the text of the failure
    /// that `denial()` gives the parts of.
    ///
    /// An open circuit counts as a failure of the provider. A provider that is not
    /// in the pool is a failure of the configuration. Else the provider is called.
    pub fn try_provider(self, pool: &ProviderPool, allowed: bool, denial: String) -> (d: Decision)
        ensures
            ({
                let provider = turn_provider(self.routed.alias, self.turn);
                if !allowed {
                    settles(
                        self.routed,
                        self.turn,
                        Err(
                            ApiError::Backend(
                                LlmError { kind: LlmErrorKind::CircuitOpen, text: denial },
                            ),
                        ),
                        d,
                    )
                } else if !pool@.contains_key(provider@) {
                    settles(
                        self.routed,
                        self.turn,
                        Err(ApiError::ProviderNotFound(provider)),
                        d,
                    )
                } else {
                    &&& d.notes@ == Seq::<BreakerNote>::empty()
                    &&& d.next matches Next::Call(pending) && {
                        &&& pending.turn == self.turn
                        &&& pending.routed == self.routed
                        &&& pending.provider == provider
                        &&& pool@[provider@].calls(
                            turn_model(self.routed.alias, self.turn)@,
                            self.routed.stream,
                            pending.call,
                        )
                    }
                }
            }),
    {
        let provider = provider_in_turn(&self.routed.alias, self.turn);
        if !allowed {
            return dispatch_with_fallback(
                self.routed,
                self.turn,
                Err(
                    ApiError::Backend(LlmError { kind: LlmErrorKind::CircuitOpen, text: denial }),
                ),
            );
        }
        match pool.get(provider.as_str()) {
            Some(found) => {
                let model = model_in_turn(&self.routed.alias, self.turn);
                let call = found.call(model.as_str(), self.routed.stream);
                Decision {
                    notes: Vec::new(),
                    next: Next::Call(
                        PendingCall { turn: self.turn, routed: self.routed, provider, call },
                    ),
                }
            },
            None => dispatch_with_fallback(
                self.routed,
                self.turn,
                Err(ApiError::ProviderNotFound(provider)),
            ),
        }
    }
}

impl PendingCall {
    /// Decides what follows from the outcome of the call.
    pub fn completed(self, outcome: Result<(), LlmError>) -> (d: Decision)
        ensures
            settles(
                self.routed,
                self.turn,
                match outcome {
                    Ok(()) => Ok(()),
                    Err(e) => Err(ApiError::Backend(e)),
                },
                d,
            ),
    {
        let result: Result<(), ApiError> = match outcome {
            Ok(()) => Ok(()),
            Err(e) => Err(ApiError::Backend(e)),
        };
        dispatch_with_fallback(self.routed, self.turn, result)
    }
}

// ---------------------------------------------------------------------------
// Account
// ---------------------------------------------------------------------------

/// `entry` is the entry of the journal for a dispatch.
pub open spec fn journals(finished: Finished, latency_ms: u128, entry: RequestLogEntry) -> bool {
    &&& entry.model_alias == finished.routed.model_alias
    &&& entry.provider_real == finished.provider
    &&& entry.real_model == finished.routed.alias.model
    &&& entry.route@ == "/v1/chat/completions"@
    &&& entry.latency_ms == Some((latency_ms % 0x1_0000_0000_0000_0000) as u64)
    &&& entry.status_code == match finished.result {
        Ok(head) => head.status,
        Err(e) => error_status(e),
    }
    &&& entry.streamed == finished.routed.stream
    &&& match finished.result {
        Ok(_) => entry.error_message is None,
        Err(e) => entry.error_message matches Some(message) && message@ == error_text(e),
    }
}

impl Finished {
    /// The entry of the journal for the dispatch: under the name that the client
    /// gave, with the model behind the alias, whichever provider answered.
    pub fn journal(&self, latency_ms: u128) -> (entry: RequestLogEntry)
        ensures
            journals(*self, latency_ms, entry),
    {
        let (status_code, error_message): (u16, Option<String>) = match &self.result {
            Ok(head) => (head.status, None),
            Err(e) => (e.status_code(), Some(e.message())),
        };
        RequestLogEntry {
            model_alias: self.routed.model_alias.clone(),
            provider_real: self.provider.clone(),
            real_model: self.routed.alias.model.clone(),
            route: "/v1/chat/completions".to_owned(),
            latency_ms: Some((latency_ms % 0x1_0000_0000_0000_0000) as u64),
            status_code,
            streamed: self.routed.stream,
            error_message,
        }
    }
}

// ---------------------------------------------------------------------------
// Streams
// ---------------------------------------------------------------------------

/// What comes out of the stream of a provider.
#[derive(Debug)]
pub enum StreamItem {
    /// A chunk, as JSON.
    Chunk(String),
    /// A chunk that cannot be written as JSON.
    Unwritable,
    /// A failure of the provider.
    Failed(LlmError),
}

/// What a client is sent, and what the breakers are told.
#[derive(Debug)]
pub struct StreamPiece {
    pub text: String,
    pub note: Option<BreakerNote>,
}

/// The text that a client is sent for an item. A chunk that cannot be written is
/// left out, and a failure ends the stream.
pub open spec fn item_text(item: StreamItem) -> Seq<char> {
    match item {
        StreamItem::Chunk(json) => frame(json@),
        StreamItem::Unwritable => Seq::empty(),
        StreamItem::Failed(_) => frame("[DONE]"@),
    }
}

/// Passes an item of the stream of `provider` on. The breakers are told of a
/// failure.
pub fn sse_stream_from_chunks(provider: &str, item: StreamItem) -> (r: StreamPiece)
    ensures
        r.text@ == item_text(item),
        match item {
            StreamItem::Failed(e) => r.note matches Some(note) && note.provider@ == provider@
                && note.failure == Some(e),
            _ => r.note is None,
        },
{
    match item {
        StreamItem::Chunk(json) => StreamPiece { text: data_frame(json.as_str()), note: None },
        StreamItem::Unwritable => {
            let text = String::new();
            assert(text@ =~= Seq::<char>::empty());
            StreamPiece { text, note: None }
        },
        StreamItem::Failed(e) => StreamPiece {
            text: data_frame("[DONE]"),
            note: Some(BreakerNote { provider: provider.to_owned(), failure: Some(e) }),
        },
    }
}

// ---------------------------------------------------------------------------
// What holds of every request
// ---------------------------------------------------------------------------

/// A model that is no alias is never passed on, not even where there is an alias
/// "default".
pub proof fn aliases_are_strict(config: Config, within_rate: bool, body: ChatCompletionRequest)
    requires
        !config.aliases@.contains_key(body.model@),
    ensures
        !(admission(config, within_rate, body) is Admitted),
{
}

/// Where the cap is 0 no request is over it. Under any other cap but the largest
/// number, a request is over it if and only if its tokens are more than the cap:
/// one that just reaches it passes.
pub proof fn cap_is_inclusive(config: Config, body: ChatCompletionRequest)
    ensures
        config.server.max_total_tokens == 0 ==> !(admission(config, true, body) is OverCap),
        0 < config.server.max_total_tokens < u64::MAX ==> (admission(
            config,
            true,
            body,
        ) is OverCap <==> conversation_tokens(body.messages@) + answer_tokens(body.max_tokens)
            > config.server.max_total_tokens),
{
}

/// The cap is tried before the alias, and the rate limit before both.
pub proof fn order_of_refusals(config: Config, body: ChatCompletionRequest)
    ensures
        admission(config, false, body) is RateLimited,
        config.server.max_total_tokens > 0 && total_tokens(body)
            > config.server.max_total_tokens ==> admission(config, true, body) is OverCap,
{
}

/// The second provider is asked if and only if the first failed, and there is a
/// second.
pub proof fn fallback_after_failure_only(
    routed: Routed,
    turn: Turn,
    result: Result<(), ApiError>,
    d: Decision,
)
    requires
        settles(routed, turn, result, d),
    ensures
        d.next is Ask <==> turn is Primary && backend_error(result) is Some
            && routed.alias.fallback_provider is Some,
        d.next is Ask || d.next is Finish,
{
}

/// The breaker of the first provider is told of its failure, once, also where the
/// second then recovers.
pub proof fn primary_failure_is_noted(routed: Routed, e: LlmError, d: Decision)
    requires
        settles(routed, Turn::Primary, Err(ApiError::Backend(e)), d),
    ensures
        d.notes@ == seq![failure_note(routed.alias.provider, e)],
{
}

/// A failure of the configuration ends the dispatch and leaves the breakers alone.
pub proof fn configuration_errors_spare_breakers(
    routed: Routed,
    turn: Turn,
    e: ApiError,
    d: Decision,
)
    requires
        settles(routed, turn, Err(e), d),
        !(e is Backend),
    ensures
        d.notes@ == Seq::<BreakerNote>::empty(),
        d.next matches Next::Finish(finished) && finished.result == Err::<AnswerHead, ApiError>(e),
{
}

/// A dispatch is over after two attempts at most. Its outcome is that of the
/// second provider where the first failed and there is a second, else that of the
/// first. The breaker of each provider that was tried is told once.
pub proof fn dispatch_ends(
    routed: Routed,
    primary: Result<(), ApiError>,
    fallback: Result<(), ApiError>,
    first: Decision,
    second: Decision,
)
    requires
        settles(routed, Turn::Primary, primary, first),
        settles(routed, Turn::Fallback, fallback, second),
    ensures
        second.next is Finish,
        if backend_error(primary) is Some && routed.alias.fallback_provider is Some {
            &&& first.next == Next::Ask(CircuitQuestion { turn: Turn::Fallback, routed })
            &&& second.next matches Next::Finish(finished) && {
                &&& finishes(routed, Turn::Fallback, fallback, finished)
                &&& finished.provider == routed.alias.fallback_provider->0
            }
            &&& first.notes@ + second.notes@ == seq![
                failure_note(routed.alias.provider, backend_error(primary)->0),
            ] + closing_notes(routed.alias.fallback_provider->0, fallback)
        } else {
            &&& first.next matches Next::Finish(finished) && {
                &&& finishes(routed, Turn::Primary, primary, finished)
                &&& finished.provider == routed.alias.provider
            }
            &&& first.notes@ == closing_notes(routed.alias.provider, primary)
        },
{
}

/// The journal tells the status that the client is answered: 200 if and only if a
/// provider gave an answer.
pub proof fn journal_tells_the_status(
    routed: Routed,
    turn: Turn,
    result: Result<(), ApiError>,
    finished: Finished,
    latency_ms: u128,
    entry: RequestLogEntry,
)
    requires
        finishes(routed, turn, result, finished),
        journals(finished, latency_ms, entry),
    ensures
        entry.status_code == 200 <==> result is Ok,
        entry.model_alias == routed.model_alias,
        entry.real_model == routed.alias.model,
        entry.streamed == routed.stream,
        entry.provider_real == turn_provider(routed.alias, turn),
{
    if let Err(e) = result {
        errors_are_no_success(e);
    }
}

/// The text of a whole stream.
pub open spec fn stream_text(items: Seq<StreamItem>) -> Seq<char>
    decreases items.len(),
{
    if items.len() == 0 {
        Seq::empty()
    } else {
        item_text(items[0]) + stream_text(items.drop_first())
    }
}

/// The chunks of a stream.
pub open spec fn chunks_of(list: Seq<String>) -> Seq<StreamItem> {
    Seq::new(list.len(), |i: int| StreamItem::Chunk(list[i]))
}

/// What a client is sent of a stream of chunks.
proof fn lemma_stream_is_frames(list: Seq<String>)
    ensures
        stream_text(chunks_of(list)) == frames(texts(list)),
    decreases list.len(),
{
    if list.len() > 0 {
        let items = chunks_of(list);
        assert(items.drop_first() =~= chunks_of(list.drop_first()));
        assert(texts(list).drop_first() =~= texts(list.drop_first()));
        assert(texts(list)[0] == list[0]@);
        lemma_stream_is_frames(list.drop_first());
    }
}

/// The client of a stream reads every chunk, as it was, in order. The stream ends
/// without an end mark.
pub proof fn chunks_pass_through(list: Seq<String>)
    requires
        forall|i: int| 0 <= i < list.len() ==> plain_payload((#[trigger] list[i])@),
    ensures
        payloads(stream_text(chunks_of(list))) == texts(list),
        !ended(stream_text(chunks_of(list))),
{
    lemma_stream_is_frames(list);
    assert forall|i: int| 0 <= i < texts(list).len() implies plain_payload(
        #[trigger] texts(list)[i],
    ) by {
        assert(plain_payload(list[i]@));
    }
    frames_read_back(texts(list));
}

/// The text of a stream with one more item.
proof fn lemma_stream_with_one_more(items: Seq<StreamItem>, item: StreamItem)
    ensures
        stream_text(items.push(item)) == stream_text(items) + item_text(item),
    decreases items.len(),
{
    let more = items.push(item);
    if items.len() == 0 {
        assert(more.drop_first() =~= items);
        assert(stream_text(items) == Seq::<char>::empty());
        assert(more[0] == item);
        assert(item_text(item) + Seq::<char>::empty() =~= Seq::<char>::empty() + item_text(item));
    } else {
        assert(more.drop_first() =~= items.drop_first().push(item));
        assert(more[0] == items[0]);
        lemma_stream_with_one_more(items.drop_first(), item);
        assert(item_text(items[0]) + (stream_text(items.drop_first()) + item_text(item)) =~= (
        item_text(items[0]) + stream_text(items.drop_first())) + item_text(item));
    }
}

/// When a provider fails in the middle of a stream, its client has read every
/// chunk before, and reads the end mark.
pub proof fn failure_ends_the_stream(list: Seq<String>, e: LlmError)
    requires
        forall|i: int| 0 <= i < list.len() ==> plain_payload((#[trigger] list[i])@),
    ensures
        payloads(stream_text(chunks_of(list).push(StreamItem::Failed(e)))) == texts(list),
        ended(stream_text(chunks_of(list).push(StreamItem::Failed(e)))),
{
    lemma_stream_is_frames(list);
    lemma_stream_with_one_more(chunks_of(list), StreamItem::Failed(e));
    assert forall|i: int| 0 <= i < texts(list).len() implies plain_payload(
        #[trigger] texts(list)[i],
    ) by {
        assert(plain_payload(list[i]@));
    }
    end_mark_read_back(texts(list));
}

/// However the network cuts the stream of a provider, the gateway reads its
/// chunks, and takes the end mark for itself.
pub proof fn provider_stream_is_read(list: Seq<Seq<char>>, pieces: Seq<Seq<u8>>)
    requires
        forall|i: int| 0 <= i < list.len() ==> plain_payload(#[trigger] list[i]),
        all_bytes(pieces) == vstd::utf8::encode_utf8(frames(list) + frame("[DONE]"@)),
    ensures
        received_bytes(pieces) == list,
{
    let text = frames(list) + frame("[DONE]"@);
    vstd::utf8::encode_utf8_valid_utf8(text);
    vstd::utf8::encode_utf8_decode_utf8(text);
    byte_pieces_do_not_matter(pieces);
    end_mark_read_back(list);
}

// ---------------------------------------------------------------------------
// What a request comes to, case by case
// ---------------------------------------------------------------------------

/// Whatever kind of failure the first provider reports, its breaker is told of it.
/// Then the second provider is asked where there is one, with the request
/// unchanged; where there is none, the failure is the outcome.
pub proof fn any_failure_leads_to_the_second(routed: Routed, e: LlmError, d: Decision)
    requires
        settles(routed, Turn::Primary, Err(ApiError::Backend(e)), d),
    ensures
        d.notes@ == seq![BreakerNote { provider: routed.alias.provider, failure: Some(e) }],
        routed.alias.fallback_provider is Some ==> d.next == Next::Ask(
            CircuitQuestion { turn: Turn::Fallback, routed },
        ),
        routed.alias.fallback_provider is None ==> d.next == Next::Finish(
            Finished {
                routed,
                result: Err(ApiError::Backend(e)),
                provider: routed.alias.provider,
            },
        ),
{
}

/// Whatever the second provider reports is the outcome, and no provider is asked
/// after it. Its breaker is told of a failure of its own.
pub proof fn the_second_is_the_last(
    routed: Routed,
    second: String,
    result: Result<(), ApiError>,
    d: Decision,
)
    requires
        routed.alias.fallback_provider == Some(second),
        settles(routed, Turn::Fallback, result, d),
    ensures
        d.next matches Next::Finish(finished) && {
            &&& finished.routed == routed
            &&& finished.provider == second
            &&& result is Ok <==> finished.result is Ok
            &&& result matches Err(e) ==> finished.result == Err::<AnswerHead, ApiError>(e)
        },
        result matches Err(ApiError::Backend(e)) ==> d.notes@ == seq![
            BreakerNote { provider: second, failure: Some(e) },
        ],
{
}

/// An answer ends the dispatch: the breaker of the provider that gave it is told
/// of the success, and the client is answered 200, with the headers of a stream
/// where it asked for one.
pub proof fn an_answer_ends_the_dispatch(routed: Routed, turn: Turn, d: Decision)
    requires
        settles(routed, turn, Ok(()), d),
        turn is Fallback ==> routed.alias.fallback_provider is Some,
    ensures
        d.notes@ == seq![
            BreakerNote {
                provider: if turn is Primary {
                    routed.alias.provider
                } else {
                    routed.alias.fallback_provider->0
                },
                failure: None,
            },
        ],
        d.next matches Next::Finish(finished) && {
            &&& finished.routed == routed
            &&& finished.provider == d.notes@[0].provider
            &&& finished.result matches Ok(head) && {
                &&& head.status == 200
                &&& routed.stream ==> {
                    &&& head.content_type@ == "text/event-stream"@
                    &&& head.cache_control matches Some(value) && value@ == "no-cache"@
                    &&& head.connection matches Some(value) && value@ == "keep-alive"@
                }
                &&& !routed.stream ==> {
                    &&& head.content_type@ == "application/json"@
                    &&& head.cache_control is None
                    &&& head.connection is None
                }
            }
        },
{
}

/// A provider that is not there ends the dispatch: the second is not asked, and no
/// breaker is told. So does every error that is no failure of a provider.
pub proof fn other_errors_end_the_dispatch(routed: Routed, e: ApiError, d: Decision)
    requires
        settles(routed, Turn::Primary, Err(e), d),
        e is ProviderNotFound || e is AliasNotFound || e is InvalidBody
            || e is ContextLengthExceeded,
    ensures
        d.notes@.len() == 0,
        d.next == Next::Finish(
            Finished { routed, result: Err(e), provider: routed.alias.provider },
        ),
{
}

/// The first provider is the provider of the alias and is asked for its model,
/// whatever the second is asked for. The second is asked for its own model where
/// the alias has one for it, else for the model of the alias; where the alias has
/// no second, the first stands for it.
pub proof fn each_turn_has_its_provider_and_model(alias: AliasTarget)
    ensures
        turn_provider(alias, Turn::Primary) == alias.provider,
        turn_model(alias, Turn::Primary) == alias.model,
        alias.fallback_provider matches Some(second) ==> turn_provider(alias, Turn::Fallback)
            == second,
        alias.fallback_provider is None ==> turn_provider(alias, Turn::Fallback) == alias.provider,
        alias.fallback_model matches Some(model) ==> turn_model(alias, Turn::Fallback) == model,
        alias.fallback_model is None ==> turn_model(alias, Turn::Fallback) == alias.model,
{
}

/// A call to a provider goes to its chat endpoint, with its key and its timeout,
/// and asks for the model of the turn: the model of the alias from the first
/// provider, and from the second the one that the alias has for it, if it has one.
pub proof fn calls_carry_the_model_of_their_turn(
    routed: Routed,
    turn: Turn,
    provider: OpenAiCompatProvider,
    call: UpstreamCall,
)
    requires
        provider.calls(turn_model(routed.alias, turn)@, routed.stream, call),
    ensures
        call.model@ == match (turn, routed.alias.fallback_model) {
            (Turn::Primary, _) => routed.alias.model@,
            (Turn::Fallback, Some(model)) => model@,
            (Turn::Fallback, None) => routed.alias.model@,
        },
        call.stream == routed.stream,
        call.url@ == provider.chat_url@,
        call.api_key == provider.api_key,
{
}

/// A request is taken in if and only if its client is within the rate limit, its
/// tokens are within the cap and its model is an alias. It leads to the first
/// provider of that alias.
pub proof fn requests_are_taken_in(
    config: Config,
    within_rate: bool,
    body: ChatCompletionRequest,
    r: Result<CircuitQuestion, Refusal>,
)
    requires
        admitted(config, within_rate, body, r),
    ensures
        r is Ok <==> {
            &&& within_rate
            &&& config.server.max_total_tokens == 0 || total_tokens(body)
                <= config.server.max_total_tokens
            &&& config.aliases@.contains_key(body.model@)
        },
        r matches Ok(question) ==> {
            &&& question.turn is Primary
            &&& question.routed.model_alias == body.model
            &&& question.routed.alias == config.aliases@[body.model@]
            &&& question.routed.stream <==> body.stream == Some(true)
        },
{
}

/// A request that is refused is told why: the rate limit before the cap, and the
/// cap before the alias.
pub proof fn refusals_say_why(
    config: Config,
    within_rate: bool,
    body: ChatCompletionRequest,
    r: Result<CircuitQuestion, Refusal>,
)
    requires
        admitted(config, within_rate, body, r),
    ensures
        !within_rate ==> (r matches Err(Refusal::Answered(reply)) && reply.status == 429),
        within_rate && 0 < config.server.max_total_tokens < total_tokens(body) ==> (r matches Err(
            Refusal::Failed(ApiError::ContextLengthExceeded { total, cap }),
        ) && total == total_tokens(body) && cap == config.server.max_total_tokens),
        within_rate && (config.server.max_total_tokens == 0 || total_tokens(body)
            <= config.server.max_total_tokens) && !config.aliases@.contains_key(body.model@) ==> (
        r matches Err(Refusal::Failed(ApiError::AliasNotFound { alias, available })) && {
            &&& alias@ == body.model@
            &&& forall|i: int|
                0 <= i < available@.len() ==> config.aliases@.contains_key(
                    #[trigger] texts(available@)[i],
                )
            &&& forall|name: Seq<char>| #[trigger]
                config.aliases@.contains_key(name) ==> texts(available@).contains(name)
            &&& forall|i: int, j: int|
                0 <= i < j < available@.len() ==> text_precedes(
                    #[trigger] texts(available@)[i],
                    #[trigger] texts(available@)[j],
                )
        }),
{
    if let Err(Refusal::Failed(ApiError::AliasNotFound { alias, available })) = r {
        assert forall|i: int| 0 <= i < available@.len() && unknown_alias(
            config,
            body.model@,
            ApiError::AliasNotFound { alias, available },
        ) implies config.aliases@.contains_key(#[trigger] texts(available@)[i]) by {
            assert(texts(available@).contains(texts(available@)[i]));
        }
    }
}

/// The tokens of a request are those of its messages and those that its answer may
/// have. One more message adds a quarter of its characters, rounded up, and four. A
/// total that 64 bits do not hold counts as the largest number that they do.
pub proof fn total_adds_up(
    body: ChatCompletionRequest,
    longer: ChatCompletionRequest,
    message: Message,
    asked: u32,
)
    requires
        longer.messages@ == body.messages@.push(message),
        longer.max_tokens == body.max_tokens,
        body.max_tokens == Some(asked) || (body.max_tokens is None && asked == 0),
    ensures
        body.messages@.len() == 0 ==> total_tokens(body) == asked,
        total_tokens(body) + (message.content@.len() + 3) / 4 + 4 <= u64::MAX ==> total_tokens(
            longer,
        ) == total_tokens(body) + (message.content@.len() + 3) / 4 + 4,
        total_tokens(body) + (message.content@.len() + 3) / 4 + 4 > u64::MAX ==> total_tokens(
            longer,
        ) == 0xffff_ffff_ffff_ffff,
{
    each_message_counts(body.messages@, message);
}

/// The journal has the request under the name that the client gave, with the
/// provider that gave the outcome and the model of the alias, the status that the
/// client is answered, and the lowest 64 bits of the milliseconds that it took.
pub proof fn journal_tells_the_dispatch(
    finished: Finished,
    latency_ms: u128,
    entry: RequestLogEntry,
)
    requires
        journals(finished, latency_ms, entry),
    ensures
        entry.route@ == "/v1/chat/completions"@,
        entry.model_alias@ == finished.routed.model_alias@,
        entry.provider_real@ == finished.provider@,
        entry.real_model@ == finished.routed.alias.model@,
        entry.streamed == finished.routed.stream,
        latency_ms <= u64::MAX ==> (entry.latency_ms matches Some(ms) && ms == latency_ms),
        entry.latency_ms matches Some(ms) && ms == latency_ms as int % 0x1_0000_0000_0000_0000,
        finished.result matches Ok(head) ==> entry.status_code == head.status
            && entry.error_message is None,
        finished.result matches Err(ApiError::AliasNotFound { .. }) ==> entry.status_code == 404,
        finished.result matches Err(ApiError::ProviderNotFound(p)) ==> entry.status_code == 500
            && entry.error_message->0@ == "provider '"@ + p@ + "' not found in config"@,
        finished.result matches Err(ApiError::Backend(e)) ==> entry.status_code == kind_status(
            e.kind,
        ) && entry.error_message->0@ == "backend error: "@ + e.text@,
        finished.result is Err ==> entry.error_message is Some,
{
}

/// The outcome of a dispatch is counted under the provider that gave it, and shown:
/// the counter of its route, alias, provider and status is one higher in the
/// export, and every other counter is as before. `count` is what that counter stood
/// at, 0 where there was none.
pub proof fn outcome_is_counted_for_its_provider(
    routed: Routed,
    turn: Turn,
    result: Result<(), ApiError>,
    finished: Finished,
    latency_ms: u128,
    entry: RequestLogEntry,
    before: Seq<(RequestLabels, u64)>,
    after: Seq<(RequestLabels, u64)>,
    durations: Seq<(DurationLabels, DurationStat)>,
    providers: u64,
    uptime_nanos: u64,
    provider: Seq<char>,
    key: RequestKey,
    count: u64,
    other: RequestKey,
)
    requires
        finishes(routed, turn, result, finished),
        journals(finished, latency_ms, entry),
        turn is Primary ==> provider == routed.alias.provider@,
        turn is Fallback ==> (routed.alias.fallback_provider matches Some(second) && provider
            == second@),
        key == ("/v1/chat/completions"@, routed.model_alias@, provider, entry.status_code),
        ascending(before),
        ascending(after),
        items_map(before).contains_key(key) ==> count == items_map(before)[key],
        !items_map(before).contains_key(key) ==> count == 0,
        count < u64::MAX,
        items_map(after) == counted(items_map(before), labels_of(entry)),
    ensures
        items_map(after).contains_key(key),
        items_map(after)[key] == count + 1,
        exists|at: int| #[trigger]
            stands_at(
                export_text(after, durations, providers, uptime_nanos),
                request_line(key, (count + 1) as u64),
                at,
            ),
        other != key ==> items_map(after).contains_key(other) == items_map(before).contains_key(
            other,
        ),
        other != key && items_map(before).contains_key(other) ==> items_map(after)[other]
            == items_map(before)[other],
        result is Ok <==> entry.status_code == 200,
{
    assert(labels_of(entry) == key);
    assert(count_of(items_map(before), key) == count);
    recorded_request_is_shown(before, after, durations, providers, uptime_nanos, key, other);
    if let Err(e) = result {
        errors_are_no_success(e);
    }
}

/// A chunk is sent as one event, with its JSON as it is. One that cannot be written
/// is left out. In the place of a failure the end mark is sent.
pub proof fn items_are_sent_as_events(json: String, e: LlmError)
    ensures
        item_text(StreamItem::Chunk(json)) == "data: "@ + json@ + "\n\n"@,
        item_text(StreamItem::Unwritable).len() == 0,
        item_text(StreamItem::Failed(e)) == "data: [DONE]\n\n"@,
{
    reveal_strlit("data: ");
    reveal_strlit("[DONE]");
    reveal_strlit("\n\n");
    reveal_strlit("data: [DONE]\n\n");
    assert(item_text(StreamItem::Failed(e)) =~= "data: [DONE]\n\n"@);
}

} // verus!
