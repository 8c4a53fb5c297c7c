use llm_free_gateway_v2::config::{
    AliasTarget, Config, LoggingConfig, ProviderConfig, ServerConfig,
};
use llm_free_gateway_v2::error::{ApiError, LlmErrorKind};
use llm_free_gateway_v2::handlers::embeddings::{
    handler, pass_on, take_in, EmbeddingCall, EmbeddingTarget,
};
use llm_free_gateway_v2::openai::EmbeddingRequest;
use llm_free_gateway_v2::provider_pool::ProviderPool;
use llm_free_gateway_v2::rate_limit::{ClientIp, RateLimiter};
use llm_free_gateway_v2::reply::Refusal;
use llm_free_gateway_v2::table::Table;

fn two_aliases() -> Config {
    let mut providers = Table::new();
    for name in ["chat-backend", "embed-backend"] {
        providers.insert(
            name.to_string(),
            ProviderConfig {
                endpoint: "http://127.0.0.1:1/".to_string(),
                timeout_secs: 2,
                api_key_env: Some("EMBED_KEY".to_string()),
            },
        );
    }
    let mut aliases = Table::new();
    aliases.insert("default".to_string(), AliasTarget::simple("chat-backend", "Qwen3.6-35B-A3B"));
    aliases.insert("bge-m3".to_string(), AliasTarget::simple("embed-backend", "bge-m3-Q8_0"));
    aliases.insert("lost".to_string(), AliasTarget::simple("nowhere", "m"));
    Config {
        server: ServerConfig {
            listen: "127.0.0.1:0".to_string(),
            registry_db: None,
            bearer_token_env: None,
            rate_limit_per_minute: 0,
            circuit_threshold: 5,
            circuit_window_secs: 60,
            circuit_cooldown_secs: 30,
            max_total_tokens: 0,
        },
        logging: LoggingConfig { level: "error".to_string() },
        providers,
        aliases,
    }
}

fn request(model: Option<&str>) -> EmbeddingRequest {
    EmbeddingRequest { model: model.map(|m| m.to_string()) }
}

fn error_of(r: Result<EmbeddingTarget, Refusal>) -> ApiError {
    match r {
        Err(Refusal::Failed(e)) => e,
        _ => panic!("no error"),
    }
}

#[test]
fn test_embeddings_alias_inconnu_retourne_404() {
    let e = error_of(take_in(&two_aliases(), true, &request(Some("invalid-embed"))));
    assert_eq!(e.status_code(), 404);
}

#[test]
fn test_embeddings_404_body_mention_alias() {
    let e = error_of(take_in(&two_aliases(), true, &request(Some("invalid-embed"))));
    assert!(e.into_response().body.error.message.contains("invalid-embed"));
}

#[test]
fn a_missing_model_is_the_empty_alias() {
    let e = error_of(take_in(&two_aliases(), true, &request(None)));
    let reply = e.into_response();
    assert_eq!(reply.status, 404);
    assert_eq!(
        reply.body.error.message,
        "Model alias '' is not configured. Available aliases: bge-m3, default, lost"
    );
}

#[test]
fn an_alias_without_provider_is_a_server_error() {
    let e = error_of(take_in(&two_aliases(), true, &request(Some("lost"))));
    let reply = e.into_response();
    assert_eq!(reply.status, 500);
    assert_eq!(reply.body.error.code, "provider_not_configured");
    assert_eq!(reply.body.error.message, "provider 'nowhere' not found in config");
}

#[test]
fn the_rate_limit_comes_first() {
    match take_in(&two_aliases(), false, &request(None)) {
        Err(Refusal::Answered(reply)) => assert_eq!(reply.status, 429),
        _ => panic!("must be refused"),
    }
    let config = two_aliases();
    let mut limiter = RateLimiter::new(1);
    let client = ClientIp::V6(1);
    assert!(handler(&config, &mut limiter, client, &request(Some("bge-m3"))).is_ok());
    assert!(matches!(
        handler(&config, &mut limiter, client, &request(Some("bge-m3"))),
        Err(Refusal::Answered(_))
    ));
}

fn call() -> EmbeddingCall {
    let config = two_aliases();
    let mut env = Table::new();
    env.insert("EMBED_KEY".to_string(), "k".to_string());
    let pool = ProviderPool::from_config(&config, &env, &Table::new());
    take_in(&config, true, &request(Some("bge-m3"))).unwrap().forward(&pool, true).unwrap()
}

#[test]
fn the_call_goes_to_the_embedding_endpoint() {
    let call = call();
    assert_eq!(call.url, "http://127.0.0.1:1/v1/embeddings");
    assert_eq!(call.model, "bge-m3-Q8_0");
    assert_eq!(call.api_key.as_deref(), Some("k"));
    assert_eq!(call.timeout_secs, 2);
    assert_eq!(call.provider, "embed-backend");
    assert_eq!(call.model_alias, "bge-m3");
}

#[test]
fn an_open_circuit_is_answered_503() {
    let config = two_aliases();
    let pool = ProviderPool::from_config(&config, &Table::new(), &Table::new());
    let target = take_in(&config, true, &request(Some("bge-m3"))).unwrap();
    let reply = target.forward(&pool, false).unwrap_err();
    assert_eq!(reply.status, 503);
    assert_eq!(reply.content_type, "application/json");
    assert_eq!(reply.retry_after, None);
    assert_eq!(
        reply.body,
        "{\"error\":{\"message\":\"provider 'embed-backend' temporairement indisponible \
         (circuit ouvert)\",\"type\":\"server_error\",\"code\":\"provider_unavailable\"}}"
    );
}

#[test]
fn no_answer_is_a_failure_of_the_provider() {
    let (note, e) = call().unanswered(true, "too slow".to_string());
    assert_eq!(note.provider, "embed-backend");
    assert_eq!(note.failure.unwrap().kind, LlmErrorKind::Timeout);
    assert_eq!(e.status_code(), 502);
    let (note, e) = call().unanswered(false, "refused".to_string());
    assert_eq!(note.failure.unwrap().kind, LlmErrorKind::Network);
    assert_eq!(e.message(), "backend error: refused");
}

#[test]
fn only_server_errors_count_against_the_provider() {
    let ok = call().answered(201, 9);
    assert!(ok.note.failure.is_none());
    assert_eq!(ok.entry.status_code, 201);
    assert_eq!(ok.entry.error_message, None);
    assert_eq!(ok.entry.route, "/v1/embeddings");
    assert_eq!(ok.entry.latency_ms, Some(9));
    assert!(!ok.entry.streamed);
    let refused = call().answered(404, 9);
    assert!(refused.note.failure.is_none());
    assert_eq!(refused.entry.error_message.as_deref(), Some("upstream HTTP 404"));
    let broken = call().answered(503, 9);
    let failure = broken.note.failure.unwrap();
    assert_eq!(failure.kind, LlmErrorKind::UpstreamError);
    assert_eq!(failure.text, "upstream HTTP 503");
    assert_eq!(broken.entry.provider_real, "embed-backend");
    assert_eq!(broken.entry.real_model, "bge-m3-Q8_0");
    assert_eq!(broken.entry.model_alias, "bge-m3");
}

#[test]
fn answers_are_passed_on() {
    let reply = pass_on(200, Ok(vec![1, 2])).unwrap();
    assert_eq!((reply.status, reply.content_type, reply.body), (200, "application/json", vec![1, 2]));
    let reply = pass_on(201, Ok(vec![7])).unwrap();
    assert_eq!((reply.status, reply.body), (201, vec![7]));
    let reply = pass_on(422, Ok(vec![3])).unwrap();
    assert_eq!((reply.status, reply.body), (422, vec![3]));
    let reply = pass_on(500, Err("cut".to_string())).unwrap();
    assert_eq!((reply.status, reply.body), (500, vec![]));
    let e = pass_on(200, Err("cut".to_string())).unwrap_err();
    assert_eq!(e.status_code(), 502);
    assert_eq!(e.message(), "backend error: cut");
}
