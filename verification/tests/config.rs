use llm_free_gateway_v2::config::{
    default_circuit_cooldown_secs, default_circuit_threshold, default_circuit_window_secs,
    default_log_level, default_max_total_tokens, default_rate_limit, default_timeout_secs,
    resolve_config_path, AliasTarget, Config, ConfigError, ConfigSource, LoggingConfig,
    ProviderConfig, ServerConfig,
};
use llm_free_gateway_v2::table::Table;

fn text_at(table: &toml::Table, key: &str) -> Option<String> {
    table.get(key).and_then(|v| v.as_str()).map(|s| s.to_string())
}

fn tables_at<'a>(root: &'a toml::Table, key: &str) -> Vec<(&'a String, &'a toml::Table)> {
    match root.get(key).and_then(|v| v.as_table()) {
        Some(table) => table.iter().filter_map(|(k, v)| v.as_table().map(|t| (k, t))).collect(),
        None => Vec::new(),
    }
}

/// The configuration that a TOML text describes.
fn parse(text: &str) -> Config {
    let root: toml::Table = text.parse().unwrap();
    let server = root.get("server").and_then(|v| v.as_table()).unwrap();
    let mut providers = Table::new();
    for (name, t) in tables_at(&root, "providers") {
        providers.insert(
            name.clone(),
            ProviderConfig {
                endpoint: text_at(t, "endpoint").unwrap(),
                timeout_secs: match t.get("timeout_secs").and_then(|v| v.as_integer()) {
                    Some(n) => n as u64,
                    None => default_timeout_secs(),
                },
                api_key_env: text_at(t, "api_key_env"),
            },
        );
    }
    let mut aliases = Table::new();
    for (name, t) in tables_at(&root, "aliases") {
        aliases.insert(
            name.clone(),
            AliasTarget {
                provider: text_at(t, "provider").unwrap(),
                model: text_at(t, "model").unwrap(),
                fallback_provider: text_at(t, "fallback_provider"),
                fallback_model: text_at(t, "fallback_model"),
            },
        );
    }
    Config {
        server: ServerConfig {
            listen: text_at(server, "listen").unwrap(),
            registry_db: text_at(server, "registry_db"),
            bearer_token_env: text_at(server, "bearer_token_env"),
            rate_limit_per_minute: default_rate_limit(),
            circuit_threshold: default_circuit_threshold(),
            circuit_window_secs: default_circuit_window_secs(),
            circuit_cooldown_secs: default_circuit_cooldown_secs(),
            max_total_tokens: default_max_total_tokens(),
        },
        logging: LoggingConfig::default(),
        providers,
        aliases,
    }
}

#[test]
fn test_alias_with_fallback_parses_from_toml() {
    let config = parse(
        r#"
[server]
listen = "127.0.0.1:8435"

[providers.llmcore]
endpoint = "http://192.168.10.118:8080"
timeout_secs = 120

[providers.openrouter]
endpoint = "https://openrouter.ai/api/v1"
timeout_secs = 30
api_key_env = "OPENROUTER_API_KEY"

[aliases]
"default" = { provider = "llmcore", model = "Qwen3.6-35B-A3B", fallback_provider = "openrouter", fallback_model = "anthropic/haiku" }
"qwen3.6-35b" = { provider = "llmcore", model = "Qwen3.6-35B-A3B" }
"#,
    );
    let default_alias = config.aliases.get(&"default".to_string()).unwrap();
    assert_eq!(default_alias.provider, "llmcore");
    assert_eq!(default_alias.model, "Qwen3.6-35B-A3B");
    assert_eq!(default_alias.fallback_provider.as_deref(), Some("openrouter"));
    assert_eq!(default_alias.fallback_model.as_deref(), Some("anthropic/haiku"));
    let qwen_alias = config.aliases.get(&"qwen3.6-35b".to_string()).unwrap();
    assert!(qwen_alias.fallback_provider.is_none());
    assert!(qwen_alias.fallback_model.is_none());
    assert_eq!(config.provider_names(), vec!["llmcore", "openrouter"]);
    assert_eq!(config.alias_names(), vec!["default", "qwen3.6-35b"]);
    assert!(config.validate().is_ok());
}

#[test]
fn test_validate_rejects_unknown_fallback_provider() {
    let config = parse(
        r#"
[server]
listen = "127.0.0.1:8435"

[providers.llmcore]
endpoint = "http://192.168.10.118:8080"

[aliases]
"default" = { provider = "llmcore", model = "test", fallback_provider = "inexistant" }
"#,
    );
    assert_eq!(
        config.aliases.get(&"default".to_string()).unwrap().fallback_provider.as_deref(),
        Some("inexistant")
    );
    let e = config.validate().unwrap_err();
    assert!(e.message().contains("fallback_provider"));
    assert_eq!(
        e.message(),
        "alias 'default' référence le fallback_provider 'inexistant' qui n'est pas déclaré dans [providers]"
    );
}

#[test]
fn test_validate_passes_without_fallback() {
    let config = parse(
        r#"
[server]
listen = "127.0.0.1:8435"

[providers.llmcore]
endpoint = "http://192.168.10.118:8080"

[aliases]
"default" = { provider = "llmcore", model = "test" }
"#,
    );
    assert!(config.validate().is_ok());
}

#[test]
fn test_validate_passes_with_valid_fallback() {
    let config = parse(
        r#"
[server]
listen = "127.0.0.1:8435"

[providers.llmcore]
endpoint = "http://192.168.10.118:8080"

[providers.openrouter]
endpoint = "https://openrouter.ai/api/v1"

[aliases]
"default" = { provider = "llmcore", model = "test", fallback_provider = "openrouter", fallback_model = "mistralai/mistral-7b-instruct" }
"#,
    );
    assert!(config.validate().is_ok());
}

const LOST: &str = r#"
[server]
listen = "127.0.0.1:8435"
registry_db = "/var/lib/gateway.db"

[aliases]
"b" = { provider = "p2", model = "m" }
"a" = { provider = "p1", model = "m" }
"#;

const PLAIN: &str = r#"
[server]
listen = "127.0.0.1:8435"
"#;

#[test]
fn the_first_fault_is_reported() {
    let e = parse(LOST).validate().unwrap_err();
    assert!(matches!(e, ConfigError::UnknownProvider { .. }));
    assert_eq!(
        e.message(),
        "alias 'a' référence le provider 'p1' qui n'est pas déclaré dans [providers]"
    );
}

#[test]
fn loading_reports_what_went_wrong() {
    let load = |source, cap| Config::load("c.toml", source, cap);
    let message = |r: Result<Config, ConfigError>| match r {
        Ok(_) => panic!("must fail"),
        Err(e) => e.message(),
    };
    assert_eq!(
        message(load(ConfigSource::Unreadable("gone".to_string()), None)),
        "impossible de lire le fichier config 'c.toml': gone"
    );
    assert_eq!(
        message(load(ConfigSource::Malformed("line 1".to_string()), None)),
        "config TOML invalide dans 'c.toml': line 1"
    );
    assert_eq!(
        message(load(ConfigSource::Parsed(parse(PLAIN)), Some("12x"))),
        "MAX_TOTAL_TOKENS='12x' invalide — doit être un entier positif"
    );
    assert!(load(ConfigSource::Parsed(parse(LOST)), None).is_err());
}

#[test]
fn the_environment_sets_the_cap() {
    let cap = |value: Option<&str>| {
        match Config::load("c.toml", ConfigSource::Parsed(parse(PLAIN)), value) {
            Ok(config) => Some(config.server.max_total_tokens),
            Err(_) => None,
        }
    };
    assert_eq!(cap(None), Some(180_000));
    assert_eq!(cap(Some("50000")), Some(50_000));
    assert_eq!(cap(Some("+7")), Some(7));
    assert_eq!(cap(Some("0")), Some(0));
    assert_eq!(cap(Some("18446744073709551615")), Some(u64::MAX));
    assert_eq!(cap(Some("18446744073709551616")), None);
    assert_eq!(cap(Some("-1")), None);
    assert_eq!(cap(Some("")), None);
    assert_eq!(cap(Some("+")), None);
    assert_eq!(cap(Some(" 1")), None);
}

#[test]
fn defaults() {
    assert_eq!(default_rate_limit(), 60);
    assert_eq!(default_circuit_threshold(), 5);
    assert_eq!(default_circuit_window_secs(), 60);
    assert_eq!(default_circuit_cooldown_secs(), 30);
    assert_eq!(default_max_total_tokens(), 180_000);
    assert_eq!(default_log_level(), "info");
    assert_eq!(default_timeout_secs(), 120);
    assert_eq!(LoggingConfig::default().level, "info");
    assert_eq!(parse(PLAIN).registry_path(), "./registry.db");
    assert_eq!(parse(LOST).registry_path(), "/var/lib/gateway.db");
}

#[test]
fn the_command_line_comes_before_the_environment() {
    let path = |args: &[&str], env: Option<&str>| {
        let args: Vec<String> = args.iter().map(|a| a.to_string()).collect();
        resolve_config_path(&args, env)
    };
    assert_eq!(path(&["gw", "--config", "a.toml"], Some("b.toml")), "a.toml");
    assert_eq!(path(&["gw", "-v", "--config", "a", "--config", "b"], None), "a");
    assert_eq!(path(&["gw", "--config"], Some("b.toml")), "b.toml");
    assert_eq!(path(&["gw"], Some("")), "");
    assert_eq!(path(&["gw"], None), "./config.toml");
}
