use llm_free_gateway_v2::config::{
    AliasTarget, Config, LoggingConfig, ProviderConfig, ServerConfig,
};
use llm_free_gateway_v2::error::LlmErrorKind;
use llm_free_gateway_v2::provider_pool::ProviderPool;
use llm_free_gateway_v2::providers::openai_compat::{
    health_check, is_server_error, is_success, send_failure, CallTimeout, OpenAiCompatProvider,
};
use llm_free_gateway_v2::table::Table;
use llm_free_gateway_v2::AppState;

fn provider(endpoint: &str, api_key_env: Option<&str>) -> ProviderConfig {
    ProviderConfig {
        endpoint: endpoint.to_string(),
        timeout_secs: 5,
        api_key_env: api_key_env.map(|s| s.to_string()),
    }
}

fn test_config_with_two_providers() -> Config {
    let mut providers = Table::new();
    providers.insert("p1".to_string(), provider("http://127.0.0.1:1", None));
    providers.insert("p2".to_string(), provider("http://127.0.0.1:2", None));
    let mut aliases = Table::new();
    aliases.insert("m1".to_string(), AliasTarget::simple("p1", "model-real"));
    Config {
        server: ServerConfig {
            listen: "127.0.0.1:0".to_string(),
            registry_db: None,
            bearer_token_env: None,
            rate_limit_per_minute: 0,
            circuit_threshold: 5,
            circuit_window_secs: 60,
            circuit_cooldown_secs: 30,
            max_total_tokens: 180_000,
        },
        logging: LoggingConfig { level: "error".to_string() },
        providers,
        aliases,
    }
}

fn env(pairs: &[(&str, &str)]) -> Table<String, String> {
    let mut table = Table::new();
    for (name, value) in pairs {
        table.insert(name.to_string(), value.to_string());
    }
    table
}

#[test]
fn test_pool_builds_from_config() {
    let config = test_config_with_two_providers();
    let pool = ProviderPool::from_config(&config, &Table::new(), &Table::new());
    assert_eq!(pool.len(), 2);
    assert!(pool.get("p1").is_some());
    assert!(pool.get("p2").is_some());
    assert!(pool.get("p3").is_none());
}

#[test]
fn test_resolved_api_keys_populated() {
    let config = test_config_with_two_providers();
    let pool = ProviderPool::from_config(&config, &Table::new(), &Table::new());
    let p1 = "p1".to_string();
    let p2 = "p2".to_string();
    assert!(pool.resolved_api_keys.contains_key(&p1));
    assert!(pool.resolved_api_keys.contains_key(&p2));
    assert_eq!(pool.resolved_api_keys.get(&p1), Some(&None));
    assert_eq!(pool.resolved_api_keys.get(&p2), Some(&None));
}

#[test]
fn pool_reads_keys_and_leaves_unusable_providers_out() {
    let mut config = test_config_with_two_providers();
    config.providers.insert("p3".to_string(), provider("http://h//", Some("KEY")));
    config.providers.insert("p4".to_string(), provider("http://h", Some("UNSET")));
    let pool = ProviderPool::from_config(
        &config,
        &env(&[("KEY", "k3"), ("OTHER", "x")]),
        &env(&[("p2", "no TLS")]),
    );
    assert_eq!(pool.names(), vec!["p1", "p3", "p4"]);
    assert_eq!(pool.len(), 3);
    assert!(!pool.is_empty());
    assert!(pool.get("p2").is_none());
    let p3 = pool.get("p3").unwrap();
    assert_eq!(p3.name, "p3");
    assert_eq!(p3.chat_url, "http://h/v1/chat/completions");
    assert_eq!(p3.api_key.as_deref(), Some("k3"));
    assert_eq!(p3.context_max, 131_072);
    assert_eq!(pool.get("p4").unwrap().api_key, None);
    assert_eq!(pool.resolved_api_keys.get(&"p3".to_string()), Some(&Some("k3".to_string())));
    assert_eq!(pool.resolved_api_keys.get(&"p4".to_string()), Some(&None));
    assert!(pool.resolved_api_keys.contains_key(&"p2".to_string()));
}

#[test]
fn empty_pool() {
    let mut config = test_config_with_two_providers();
    config.providers = Table::new();
    let pool = ProviderPool::from_config(&config, &Table::new(), &Table::new());
    assert!(pool.is_empty());
    assert_eq!(pool.len(), 0);
    assert_eq!(pool.names(), Vec::<String>::new());
}

fn new_provider(name: &str, timeout_secs: u64) -> OpenAiCompatProvider {
    OpenAiCompatProvider::new(name, "http://127.0.0.1:9999", timeout_secs, None, &Table::new(), 131_072)
}

#[test]
fn timeout_secs_stored_in_struct() {
    assert_eq!(new_provider("test-provider", 600).timeout_secs, 600);
}

#[test]
fn timeout_secs_default_stored() {
    assert_eq!(new_provider("test-default", 120).timeout_secs, 120);
}

#[test]
fn timeout_secs_large_value_stored() {
    let provider = new_provider("test-large-timeout", 600);
    assert_eq!(provider.timeout_secs, 600);
    assert_eq!(provider.timeout_secs as f64, 600.0_f64);
}

#[test]
fn streams_have_no_timeout_but_for_the_connection() {
    let provider = new_provider("p", 600);
    let whole = provider.call("m", false);
    assert_eq!(whole.timeout, CallTimeout::Total(600));
    assert_eq!(whole.url, "http://127.0.0.1:9999/v1/chat/completions");
    assert_eq!(whole.model, "m");
    assert!(!whole.stream);
    let stream = provider.call("m", true);
    assert_eq!(stream.timeout, CallTimeout::Connect(600));
    assert!(stream.stream);
    assert_eq!(provider.reported_timeout(true), 600);
    assert_eq!(provider.reported_timeout(false), 131_072);
}

#[test]
fn health_endpoint_stands_beside_the_chat_endpoint() {
    assert_eq!(new_provider("p", 1).health_url(), "http://127.0.0.1:9999/health");
    let mut odd = new_provider("p", 1);
    odd.chat_url = "http://h/v1/chat/completions/v1/chat/completions".to_string();
    assert_eq!(odd.health_url(), "http://h/health");
}

#[test]
fn any_answer_but_a_server_error_is_healthy() {
    assert!(health_check(200).is_ok());
    assert!(health_check(404).is_ok());
    assert!(health_check(600).is_ok());
    let e = health_check(503).unwrap_err();
    assert_eq!(e.kind, LlmErrorKind::UpstreamError);
    assert_eq!(e.text, "health check failed");
    assert!(health_check(500).is_err() && health_check(599).is_err());
}

#[test]
fn statuses_are_classed_by_hundreds() {
    assert!(is_success(200) && is_success(299));
    assert!(!is_success(199) && !is_success(300));
    assert!(is_server_error(500) && is_server_error(599));
    assert!(!is_server_error(499) && !is_server_error(600));
}

#[test]
fn failures_to_send_are_timeouts_or_network_failures() {
    let e = send_failure(true, "slow".to_string());
    assert_eq!((e.kind, e.text.as_str()), (LlmErrorKind::Timeout, "slow"));
    let e = send_failure(false, "refused".to_string());
    assert_eq!((e.kind, e.text.as_str()), (LlmErrorKind::Network, "refused"));
}

#[test]
fn state_takes_its_token_from_the_environment() {
    let with_token = |value: Option<&str>| {
        let mut config = test_config_with_two_providers();
        config.server.bearer_token_env = Some("GATEWAY_TOKEN".to_string());
        config.server.rate_limit_per_minute = 7;
        let vars = match value {
            Some(v) => env(&[("GATEWAY_TOKEN", v)]),
            None => env(&[]),
        };
        AppState::new(config, &vars, &Table::new())
    };
    let state = with_token(Some("secret"));
    assert_eq!(state.bearer_token.as_deref(), Some("secret"));
    assert_eq!(state.providers.len(), 2);
    assert_eq!(state.rate_limiter.max_per_minute(), 7);
    assert!(state.metrics.render_at(0).contains("gateway_providers_configured 2\n"));
    assert_eq!(with_token(Some("")).bearer_token, None);
    assert_eq!(with_token(None).bearer_token, None);
    let config = test_config_with_two_providers();
    let state = AppState::new(config, &env(&[("GATEWAY_TOKEN", "secret")]), &Table::new());
    assert_eq!(state.bearer_token, None);
}

#[test]
fn state_for_a_test_asks_for_no_token() {
    let mut config = test_config_with_two_providers();
    config.server.bearer_token_env = Some("GATEWAY_TOKEN".to_string());
    let state = AppState::for_test(config, &env(&[("GATEWAY_TOKEN", "secret")]));
    assert_eq!(state.bearer_token, None);
    assert_eq!(state.providers.names(), vec!["p1", "p2"]);
}
