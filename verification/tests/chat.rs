use llm_free_gateway_v2::breaker::BreakerNote;
use llm_free_gateway_v2::config::{
    AliasTarget, Config, LoggingConfig, ProviderConfig, ServerConfig,
};
use llm_free_gateway_v2::error::{ApiError, LlmError, LlmErrorKind};
use llm_free_gateway_v2::handlers::chat::{
    dispatch_with_fallback, handler, is_backend_error, sse_stream_from_chunks, take_in,
    CircuitQuestion, Decision, Finished, Next, Routed, StreamItem, Turn,
};
use llm_free_gateway_v2::openai::{ChatCompletionRequest, Message};
use llm_free_gateway_v2::provider_pool::ProviderPool;
use llm_free_gateway_v2::rate_limit::{ClientIp, RateLimiter};
use llm_free_gateway_v2::reply::Refusal;
use llm_free_gateway_v2::table::Table;

fn config_of(
    providers: &[(&str, &str)],
    aliases: Vec<(&str, AliasTarget)>,
    max_total_tokens: u64,
) -> Config {
    let mut provider_table = Table::new();
    for (name, endpoint) in providers {
        provider_table.insert(
            name.to_string(),
            ProviderConfig {
                endpoint: endpoint.to_string(),
                timeout_secs: 2,
                api_key_env: None,
            },
        );
    }
    let mut alias_table = Table::new();
    for (name, target) in aliases {
        alias_table.insert(name.to_string(), target);
    }
    Config {
        server: ServerConfig {
            listen: "127.0.0.1:0".to_string(),
            registry_db: None,
            bearer_token_env: None,
            rate_limit_per_minute: 0,
            circuit_threshold: 5,
            circuit_window_secs: 60,
            circuit_cooldown_secs: 30,
            max_total_tokens,
        },
        logging: LoggingConfig { level: "error".to_string() },
        providers: provider_table,
        aliases: alias_table,
    }
}

fn two_aliases() -> Config {
    config_of(
        &[("chat-backend", "http://127.0.0.1:1"), ("embed-backend", "http://127.0.0.1:1")],
        vec![
            ("default", AliasTarget::simple("chat-backend", "Qwen3.6-35B-A3B")),
            ("bge-m3", AliasTarget::simple("embed-backend", "bge-m3-Q8_0")),
        ],
        0,
    )
}

fn with_cap(max_total_tokens: u64) -> Config {
    config_of(
        &[("fictif", "http://127.0.0.1:1")],
        vec![("cap-test-model", AliasTarget::simple("fictif", "cap-test-real"))],
        max_total_tokens,
    )
}

fn request(model: &str, content: &str, max_tokens: Option<u32>) -> ChatCompletionRequest {
    ChatCompletionRequest {
        model: model.to_string(),
        messages: vec![Message::user(content)],
        max_tokens,
        stream: None,
    }
}

fn refusal_status(r: &Result<CircuitQuestion, Refusal>) -> Option<u16> {
    match r {
        Ok(_) => None,
        Err(Refusal::Answered(reply)) => Some(reply.status),
        Err(Refusal::Failed(e)) => Some(e.status_code()),
    }
}

fn error_of(r: Result<CircuitQuestion, Refusal>) -> ApiError {
    match r {
        Err(Refusal::Failed(e)) => e,
        _ => panic!("no error"),
    }
}

// --- Aliases ---------------------------------------------------------------

#[test]
fn test_chat_alias_inconnu_retourne_404() {
    let r = take_in(&two_aliases(), true, &request("qwen3.5-122b", "reply OK", Some(5)));
    assert_eq!(refusal_status(&r), Some(404));
}

#[test]
fn test_chat_alias_totalement_inconnu_retourne_404() {
    let r = take_in(&two_aliases(), true, &request("modele-qui-nexiste-pas", "test", None));
    assert_eq!(refusal_status(&r), Some(404));
}

#[test]
fn test_chat_404_body_format_et_liste_aliases() {
    let r = take_in(&two_aliases(), true, &request("alias-inexistant", "test", None));
    let reply = error_of(r).into_response();
    assert_eq!(reply.status, 404);
    assert_eq!(reply.body.error.error_type, "invalid_request_error");
    assert_eq!(reply.body.error.code, "model_not_found");
    assert_eq!(
        reply.body.error.message,
        "Model alias 'alias-inexistant' is not configured. Available aliases: bge-m3, default"
    );
}

#[test]
fn known_alias_is_admitted() {
    let question = take_in(&two_aliases(), true, &request("default", "test", None)).unwrap();
    assert_eq!(question.provider(), "chat-backend");
    assert_eq!(question.routed.alias.model, "Qwen3.6-35B-A3B");
    assert_eq!(question.turn, Turn::Primary);
    assert_eq!(question.routed.model_alias, "default");
    assert!(!question.routed.stream);
}

#[test]
fn stream_is_asked_for_by_true_alone() {
    let mut body = request("default", "test", None);
    body.stream = Some(true);
    assert!(take_in(&two_aliases(), true, &body).unwrap().routed.stream);
    body.stream = Some(false);
    assert!(!take_in(&two_aliases(), true, &body).unwrap().routed.stream);
}

// --- Token cap -------------------------------------------------------------

fn content_of_approx_tokens(n_tokens: u64) -> String {
    "x".repeat((n_tokens * 4) as usize)
}

fn cap_status(cap: u64, content: &str, max_tokens: u32) -> Option<u16> {
    let body = request("cap-test-model", content, Some(max_tokens));
    refusal_status(&take_in(&with_cap(cap), true, &body))
}

#[test]
fn test_cap_190k_retourne_413() {
    assert_eq!(cap_status(180_000, &content_of_approx_tokens(189_900), 100), Some(413));
}

#[test]
fn test_cap_150k_passe_cap_retourne_non_413() {
    assert_eq!(cap_status(180_000, &content_of_approx_tokens(149_900), 100), None);
}

#[test]
fn test_cap_override_50k_rejette_60k() {
    assert_eq!(cap_status(50_000, &content_of_approx_tokens(59_900), 100), Some(413));
}

#[test]
fn cap_of_zero_refuses_nothing() {
    assert_eq!(cap_status(0, &content_of_approx_tokens(500_000), 100), None);
}

#[test]
fn test_cap_error_body_format_openai_compat() {
    let body = request("cap-test-model", &content_of_approx_tokens(190_000), Some(0));
    let reply = error_of(take_in(&with_cap(180_000), true, &body)).into_response();
    assert_eq!(reply.status, 413);
    assert_eq!(reply.body.error.error_type, "invalid_request_error");
    assert_eq!(reply.body.error.code, "context_length_exceeded");
    assert_eq!(
        reply.body.error.message,
        "Input + max_tokens exceeds 180000 token cap (Qwen3.6 slot 262K, hard cap to avoid freeze \
         on cache-bf16 + corpus >200K). Estimated total: 190004 tokens."
    );
}

#[test]
fn test_cap_exactement_au_seuil_passe() {
    assert_eq!(cap_status(10_000, &"x".repeat(39_984), 0), None);
    assert_eq!(cap_status(10_000, &"x".repeat(39_984), 1), Some(413));
    assert_eq!(cap_status(10_000, &"x".repeat(39_985), 0), Some(413));
}

#[test]
fn cap_is_tried_before_the_alias_and_the_rate_before_both() {
    let config = with_cap(10);
    let body = request("no-such-alias", &"x".repeat(100), None);
    assert_eq!(refusal_status(&take_in(&config, true, &body)), Some(413));
    assert_eq!(refusal_status(&take_in(&config, false, &body)), Some(429));
}

// --- Rate limit ------------------------------------------------------------

#[test]
fn test_rate_limit_post_enforced() {
    let config = two_aliases();
    let mut limiter = RateLimiter::new(2);
    let client = ClientIp::V4(0x7f00_0001);
    let body = request("default", "hi", None);
    assert!(handler(&config, &mut limiter, client, &body).is_ok());
    assert!(handler(&config, &mut limiter, client, &body).is_ok());
    match handler(&config, &mut limiter, client, &body) {
        Err(Refusal::Answered(reply)) => {
            assert_eq!(reply.status, 429);
            assert_eq!(reply.retry_after, Some("60"));
            assert_eq!(reply.content_type, "application/json");
            assert_eq!(
                reply.body,
                "{\"error\":{\"message\":\"rate limit exceeded\",\
                 \"type\":\"rate_limit_error\",\"code\":\"too_many_requests\"}}"
            );
        }
        _ => panic!("third request must be refused"),
    }
    let other = ClientIp::V4(0x0a01_0203);
    assert!(handler(&config, &mut limiter, other, &body).is_ok());
}

// --- Fallback --------------------------------------------------------------

fn with_fallback(fallback_model: Option<&str>) -> Config {
    config_of(
        &[("primary", "http://primary"), ("fallback-or", "http://fallback/")],
        vec![(
            "test-model",
            AliasTarget::with_fallback(
                "primary",
                "primary-model",
                "fallback-or",
                fallback_model.map(|m| m.to_string()),
            ),
        )],
        0,
    )
}

fn pool_for(config: &Config) -> ProviderPool {
    ProviderPool::from_config(config, &Table::new(), &Table::new())
}

fn failure(kind: LlmErrorKind) -> LlmError {
    LlmError { kind, text: "down".to_string() }
}

/// Answers each circuit question and each call of a dispatch, and gives the
/// outcome, the URLs and models that were called, and the notes.
fn run(
    config: &Config,
    body: &ChatCompletionRequest,
    open_circuits: &[&str],
    mut outcomes: Vec<Result<(), LlmError>>,
) -> (Finished, Vec<(String, String)>, Vec<BreakerNote>) {
    let pool = pool_for(config);
    let mut calls = Vec::new();
    let mut notes = Vec::new();
    let mut next = Next::Ask(take_in(config, true, body).unwrap());
    loop {
        let decision: Decision = match next {
            Next::Ask(question) => {
                let open = open_circuits.contains(&question.provider().as_str());
                question.try_provider(&pool, !open, "circuit open".to_string())
            }
            Next::Call(pending) => {
                calls.push((pending.call.url.clone(), pending.call.model.clone()));
                pending.completed(outcomes.remove(0))
            }
            Next::Finish(finished) => return (finished, calls, notes),
        };
        notes.extend(decision.notes);
        next = decision.next;
    }
}

fn told(notes: &[BreakerNote]) -> Vec<(&str, Option<LlmErrorKind>)> {
    notes.iter().map(|n| (n.provider.as_str(), n.failure.as_ref().map(|e| e.kind))).collect()
}

#[test]
fn test_fallback_triggered_on_primary_503_non_streaming() {
    let config = with_fallback(None);
    let (finished, calls, notes) = run(
        &config,
        &request("test-model", "Bonjour", None),
        &[],
        vec![Err(failure(LlmErrorKind::ProviderUnavailable)), Ok(())],
    );
    assert!(finished.result.is_ok());
    assert_eq!(finished.provider, "fallback-or");
    assert_eq!(
        calls,
        vec![
            ("http://primary/v1/chat/completions".to_string(), "primary-model".to_string()),
            ("http://fallback/v1/chat/completions".to_string(), "primary-model".to_string()),
        ]
    );
    assert_eq!(
        told(&notes),
        vec![("primary", Some(LlmErrorKind::ProviderUnavailable)), ("fallback-or", None)]
    );
}

#[test]
fn test_fallback_triggered_on_primary_unreachable_streaming() {
    let config = with_fallback(Some("second-model"));
    let mut body = request("test-model", "Bonjour streaming", None);
    body.stream = Some(true);
    let (finished, calls, _) =
        run(&config, &body, &[], vec![Err(failure(LlmErrorKind::Network)), Ok(())]);
    assert!(finished.result.is_ok());
    assert_eq!(calls[1].1, "second-model");
    let head = finished.result.as_ref().unwrap();
    assert_eq!(head.status, 200);
    assert_eq!(head.content_type, "text/event-stream");
    assert_eq!(head.cache_control, Some("no-cache"));
    assert_eq!(head.connection, Some("keep-alive"));
    let entry = finished.journal(12);
    assert_eq!(entry.model_alias, "test-model");
    assert_eq!(entry.status_code, 200);
    assert_eq!(entry.provider_real, "fallback-or");
    assert_eq!(entry.real_model, "primary-model");
    assert_eq!(entry.route, "/v1/chat/completions");
    assert_eq!(entry.latency_ms, Some(12));
    assert!(entry.streamed);
    assert_eq!(entry.error_message, None);
}

#[test]
fn test_no_fallback_primary_down_returns_502() {
    let config = config_of(
        &[("primary-only", "http://127.0.0.1:1")],
        vec![("test-model", AliasTarget::simple("primary-only", "test-model-real"))],
        0,
    );
    let (finished, calls, notes) = run(
        &config,
        &request("test-model", "test", None),
        &[],
        vec![Err(failure(LlmErrorKind::Network))],
    );
    assert_eq!(calls.len(), 1);
    assert_eq!(told(&notes), vec![("primary-only", Some(LlmErrorKind::Network))]);
    let entry = finished.journal(1 << 64);
    assert_eq!(entry.real_model, "test-model-real");
    assert!(!entry.streamed);
    assert_eq!(entry.status_code, 502);
    assert_eq!(entry.error_message.as_deref(), Some("backend error: down"));
    assert_eq!(entry.latency_ms, Some(0));
    assert_eq!(finished.result.unwrap_err().status_code(), 502);
}

#[test]
fn test_primary_cb_incremented_when_fallback_succeeds() {
    let config = with_fallback(None);
    let (finished, _, notes) = run(
        &config,
        &request("test-model", "test CB", None),
        &[],
        vec![Err(failure(LlmErrorKind::ProviderUnavailable)), Ok(())],
    );
    assert!(finished.result.is_ok());
    assert_eq!(told(&notes)[0], ("primary", Some(LlmErrorKind::ProviderUnavailable)));
    assert_eq!(notes.iter().filter(|n| n.provider == "primary").count(), 1);
}

#[test]
fn open_circuit_leads_to_the_fallback_without_a_call() {
    let config = with_fallback(None);
    let (finished, calls, notes) =
        run(&config, &request("test-model", "x", None), &["primary"], vec![Ok(())]);
    assert!(finished.result.is_ok());
    assert_eq!(calls.len(), 1);
    assert_eq!(
        told(&notes),
        vec![("primary", Some(LlmErrorKind::CircuitOpen)), ("fallback-or", None)]
    );
}

#[test]
fn open_circuits_are_answered_503() {
    let config = with_fallback(None);
    let (finished, calls, _) = run(
        &config,
        &request("test-model", "x", None),
        &["primary", "fallback-or"],
        vec![],
    );
    assert!(calls.is_empty());
    assert_eq!(finished.provider, "fallback-or");
    let e = finished.result.unwrap_err();
    assert!(is_backend_error(&e));
    let reply = e.into_response();
    assert_eq!(reply.status, 503);
    assert_eq!(reply.body.error.code, "backend_error");
    assert_eq!(reply.body.error.message, "circuit open");
}

#[test]
fn the_last_failure_is_the_outcome() {
    let config = with_fallback(None);
    let (finished, _, notes) = run(
        &config,
        &request("test-model", "x", None),
        &[],
        vec![Err(failure(LlmErrorKind::Timeout)), Err(failure(LlmErrorKind::Unauthorized))],
    );
    assert_eq!(finished.provider, "fallback-or");
    assert_eq!(finished.result.unwrap_err().status_code(), 401);
    assert_eq!(
        told(&notes),
        vec![
            ("primary", Some(LlmErrorKind::Timeout)),
            ("fallback-or", Some(LlmErrorKind::Unauthorized)),
        ]
    );
}

#[test]
fn a_missing_provider_is_no_reason_for_the_fallback() {
    let mut config = with_fallback(None);
    config.providers = Table::new();
    let (finished, calls, notes) = run(&config, &request("test-model", "x", None), &[], vec![]);
    assert!(calls.is_empty());
    assert!(notes.is_empty());
    assert_eq!(finished.provider, "primary");
    let e = finished.result.unwrap_err();
    assert!(!is_backend_error(&e));
    assert_eq!(e.status_code(), 500);
    assert_eq!(e.message(), "provider 'primary' not found in config");
}

#[test]
fn success_is_noted_once() {
    let config = with_fallback(None);
    let (finished, calls, notes) =
        run(&config, &request("test-model", "x", None), &[], vec![Ok(())]);
    assert!(finished.result.is_ok());
    assert_eq!(calls.len(), 1);
    assert_eq!(told(&notes), vec![("primary", None)]);
    let head = finished.result.unwrap();
    assert_eq!((head.status, head.content_type), (200, "application/json"));
    assert_eq!((head.cache_control, head.connection), (None, None));
}

#[test]
fn denials_name_the_provider_and_the_reason() {
    let config = with_fallback(None);
    let question = take_in(&config, true, &request("test-model", "x", None)).unwrap();
    let denial = question.denial();
    assert_eq!((denial.provider.as_str(), denial.reason), ("primary", "circuit breaker ouvert"));
    let second = CircuitQuestion { turn: Turn::Fallback, routed: question.routed };
    assert_eq!(second.denial().provider, "fallback-or");
}

#[test]
fn fallback_turn_never_asks_again() {
    let alias = AliasTarget::with_fallback("a", "m", "b", None);
    let d = dispatch_with_fallback(
        Routed { model_alias: "x".to_string(), alias, stream: false },
        Turn::Fallback,
        Err(ApiError::Backend(failure(LlmErrorKind::Network))),
    );
    assert!(matches!(d.next, Next::Finish(_)));
    assert_eq!(told(&d.notes), vec![("b", Some(LlmErrorKind::Network))]);
}

// --- Streams ---------------------------------------------------------------

#[test]
fn chunks_are_framed_and_failures_end_the_stream() {
    let piece = sse_stream_from_chunks("p", StreamItem::Chunk("{\"a\":1}".to_string()));
    assert_eq!(piece.text, "data: {\"a\":1}\n\n");
    assert!(piece.note.is_none());
    let piece = sse_stream_from_chunks("p", StreamItem::Unwritable);
    assert_eq!(piece.text, "");
    assert!(piece.note.is_none());
    let piece = sse_stream_from_chunks("p", StreamItem::Failed(failure(LlmErrorKind::Network)));
    assert_eq!(piece.text, "data: [DONE]\n\n");
    assert_eq!(told(&[piece.note.unwrap()]), vec![("p", Some(LlmErrorKind::Network))]);
}
