use llm_free_gateway_v2::config::{
    AliasTarget, Config, LoggingConfig, ProviderConfig, ServerConfig,
};
use llm_free_gateway_v2::error::{ApiError, LlmError, LlmErrorKind};
use llm_free_gateway_v2::handlers::{health, metrics_handler, models};
use llm_free_gateway_v2::table::Table;
use llm_free_gateway_v2::{AppState, MAX_BODY_BYTES};

fn test_state() -> AppState {
    let mut providers = Table::new();
    providers.insert(
        "test-backend".to_string(),
        ProviderConfig {
            endpoint: "http://127.0.0.1:1".to_string(),
            timeout_secs: 5,
            api_key_env: None,
        },
    );
    let mut aliases = Table::new();
    aliases.insert("test-model".to_string(), AliasTarget::simple("test-backend", "test-model-real"));
    let config = Config {
        server: ServerConfig {
            listen: "127.0.0.1:0".to_string(),
            registry_db: None,
            bearer_token_env: None,
            rate_limit_per_minute: 0,
            circuit_threshold: 5,
            circuit_window_secs: 60,
            circuit_cooldown_secs: 30,
            max_total_tokens: 0,
        },
        logging: LoggingConfig { level: "error".to_string() },
        providers,
        aliases,
    };
    AppState::for_test(config, &Table::new())
}

#[test]
fn test_health_body_status_ok() {
    assert_eq!(health::handler(&test_state().config).status, "ok");
}

#[test]
fn test_health_body_version_present() {
    assert!(health::handler(&test_state().config).version.contains("alpha.3"));
}

#[test]
fn test_health_body_providers_list() {
    assert_eq!(health::handler(&test_state().config).providers, vec!["test-backend"]);
}

#[test]
fn test_models_body_format_openai_compat() {
    let body = models::handler(&test_state().config);
    assert_eq!(body.object, "list");
    assert_eq!(body.data.len(), 1);
    assert_eq!(body.data[0].id, "test-model");
    assert_eq!(body.data[0].object, "model");
    assert_eq!(body.data[0].owned_by, "test-backend");
    assert_eq!(body.data[0].created, 0);
}

#[test]
fn models_are_sorted() {
    let mut config = test_state().config;
    for alias in ["zeta", "alpha", "Beta", "test"] {
        config.aliases.insert(alias.to_string(), AliasTarget::simple("p", "m"));
    }
    let body = models::handler(&config);
    let ids: Vec<&str> = body.data.iter().map(|m| m.id.as_str()).collect();
    assert_eq!(ids, vec!["Beta", "alpha", "test", "test-model", "zeta"]);
}

#[test]
fn test_metrics_returns_200() {
    let reply = metrics_handler::handler(&test_state().metrics);
    assert_eq!(reply.status, 200);
    assert_eq!(reply.content_type, "text/plain; version=0.0.4; charset=utf-8");
    assert_eq!(reply.retry_after, None);
}

#[test]
fn test_metrics_contains_type_counter() {
    let reply = metrics_handler::handler(&test_state().metrics);
    assert!(reply.body.contains("# TYPE gateway_requests_total counter"));
}

#[test]
fn test_metrics_contains_providers_configured() {
    let reply = metrics_handler::handler(&test_state().metrics);
    assert!(reply.body.contains("gateway_providers_configured 1\n"));
}

#[test]
fn bodies_are_limited_to_four_mebibytes() {
    assert_eq!(MAX_BODY_BYTES, 4 * 1024 * 1024);
}

#[test]
fn provider_failures_have_their_status() {
    let status = |kind| {
        ApiError::Backend(LlmError { kind, text: "t".to_string() }).into_response().status
    };
    assert_eq!(status(LlmErrorKind::InvalidRequest), 400);
    assert_eq!(status(LlmErrorKind::Unauthorized), 401);
    assert_eq!(status(LlmErrorKind::Forbidden), 403);
    assert_eq!(status(LlmErrorKind::NotFound), 404);
    assert_eq!(status(LlmErrorKind::RateLimited), 429);
    assert_eq!(status(LlmErrorKind::Timeout), 502);
    assert_eq!(status(LlmErrorKind::Network), 502);
    assert_eq!(status(LlmErrorKind::ProviderUnavailable), 502);
    assert_eq!(status(LlmErrorKind::UpstreamError), 502);
    assert_eq!(status(LlmErrorKind::CircuitOpen), 503);
    assert_eq!(status(LlmErrorKind::Other), 500);
}

#[test]
fn errors_describe_themselves() {
    let e = ApiError::AliasNotFound {
        alias: "x".to_string(),
        available: vec!["a".to_string(), "b".to_string()],
    };
    assert_eq!(e.message(), "model alias 'x' not found. Available: a, b");
    let e = ApiError::InvalidBody("bad JSON".to_string());
    assert_eq!(e.message(), "invalid request body: bad JSON");
    let reply = e.into_response();
    assert_eq!(reply.status, 400);
    assert_eq!(reply.body.error.code, "invalid_body");
    assert_eq!(reply.body.error.error_type, "invalid_request_error");
    assert_eq!(reply.body.error.message, "bad JSON");
    let e = ApiError::ContextLengthExceeded { total: 190_000, cap: 180_000 };
    assert_eq!(e.message(), "context length exceeded: 190000 tokens > cap 180000");
    let e = ApiError::Backend(LlmError { kind: LlmErrorKind::Timeout, text: "slow".to_string() });
    assert_eq!(e.message(), "backend error: slow");
    let reply = e.into_response();
    assert_eq!(reply.body.error.error_type, "server_error");
    assert_eq!(reply.body.error.code, "backend_error");
    assert_eq!(reply.body.error.message, "slow");
}
