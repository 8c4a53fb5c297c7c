//! Core of an OpenAI-compatible gateway to LLM providers.
//!
//! The library holds what the gateway decides: routing by alias with a second
//! provider, authentication, rate limit, token cap, errors and their answers, the
//! reading and writing of event streams, metrics and configuration. It does no I/O:
//! the program around it serves HTTP, calls the providers and keeps the circuit
//! breakers.
pub mod auth;
pub mod breaker;
mod clock;
pub mod config;
pub mod double;
pub mod error;
pub mod handlers;
pub mod headers;
pub mod metrics;
pub mod openai;
pub mod provider_pool;
pub mod providers;
pub mod rate_limit;
pub mod registry;
pub mod reply;
pub mod sse;
pub mod table;
pub mod text;
pub mod token_counter;

use crate::config::Config;
use crate::metrics::{DurationKey, DurationStat, Metrics, RequestKey};
use crate::provider_pool::{pool_of, ProviderPool};
use crate::providers::openai_compat::{env_value, read_env};
use crate::rate_limit::{ClientIp, RateLimiter, Window};
use crate::table::Table;
use crate::text::opt_text;
use vstd::prelude::*;

verus! {

/// Size of the largest body that a request may have, in bytes.
pub const MAX_BODY_BYTES: usize = 4_194_304;

/// The state that the endpoints share.
pub struct AppState {
    pub config: Config,
    pub providers: ProviderPool,
    pub metrics: Metrics,
    /// The token that clients must send. Without it no authentication is asked
    /// for.
    pub bearer_token: Option<String>,
    pub rate_limiter: RateLimiter,
}

/// The token that clients must send: the value of the variable that the
/// configuration names, where it is set and not empty.
pub open spec fn token_of(config: Config, env: Map<Seq<char>, String>) -> Option<String> {
    match env_value(env, opt_text(config.server.bearer_token_env)) {
        Some(token) => if token@.len() > 0 {
            Some(token)
        } else {
            None
        },
        None => None,
    }
}

impl AppState {
    /// The state at the start of a gateway with this configuration.
    pub open spec fn starts_with(
        self,
        config: Config,
        env: Map<Seq<char>, String>,
        unusable: Map<Seq<char>, String>,
    ) -> bool {
        &&& self.config == config
        &&& pool_of(config, env, unusable, self.providers)
        &&& self.metrics.requests()@ == Map::<RequestKey, u64>::empty()
        &&& self.metrics.latencies()@ == Map::<DurationKey, DurationStat>::empty()
        &&& self.metrics.providers() == self.providers@.dom().len()
        &&& self.rate_limiter.limit() == config.server.rate_limit_per_minute
        &&& self.rate_limiter.windows() == Map::<ClientIp, Window>::empty()
    }

    /// The state for a configuration and the environment variables that it names.
    /// `unusable` names the providers for which no HTTP client could be made.
    pub fn new(
        config: Config,
        env: &Table<String, String>,
        unusable: &Table<String, String>,
    ) -> (r: Self)
        ensures
            r.starts_with(config, env@, unusable@),
            r.bearer_token == token_of(config, env@),
    {
        let name: Option<&str> = match &config.server.bearer_token_env {
            Some(n) => Some(n.as_str()),
            None => None,
        };
        let bearer_token: Option<String> = match read_env(env, name) {
            Some(token) => if token.as_str().unicode_len() > 0 {
                Some(token)
            } else {
                None
            },
            None => None,
        };
        let providers = ProviderPool::from_config(&config, env, unusable);
        let metrics = Metrics::new(providers.len());
        let rate_limiter = RateLimiter::new(config.server.rate_limit_per_minute);
        AppState { config, providers, metrics, bearer_token, rate_limiter }
    }

    /// The state for a test: no authentication is asked for.
    pub fn for_test(config: Config, env: &Table<String, String>) -> (r: Self)
        ensures
            r.starts_with(config, env@, Map::empty()),
            r.bearer_token is None,
    {
        let providers = ProviderPool::from_config(&config, env, &Table::new());
        let metrics = Metrics::new(providers.len());
        let rate_limiter = RateLimiter::new(config.server.rate_limit_per_minute);
        AppState { config, providers, metrics, bearer_token: None, rate_limiter }
    }
}

/// A body may have four mebibytes.
pub proof fn bodies_have_a_limit()
    ensures
        MAX_BODY_BYTES == 4 * 1024 * 1024,
{
}

/// Clients must send a token if and only if the configuration names a variable that
/// is set and not empty. The token is its value.
pub proof fn token_is_the_value_of_its_variable(
    config: Config,
    env: Map<Seq<char>, String>,
    token: String,
)
    ensures
        token_of(config, env) == Some(token) <==> (config.server.bearer_token_env matches Some(
            name,
        ) && env.contains_key(name@) && env[name@] == token && token@.len() > 0),
{
}

/// A gateway starts with its providers and its limit, and without any request.
pub proof fn gateways_start_fresh(
    state: AppState,
    config: Config,
    env: Map<Seq<char>, String>,
    unusable: Map<Seq<char>, String>,
    ip: ClientIp,
    now: u64,
    key: RequestKey,
    pair: DurationKey,
    name: Seq<char>,
)
    requires
        state.starts_with(config, env, unusable),
    ensures
        state.config == config,
        state.providers@.contains_key(name) <==> config.providers@.contains_key(name)
            && !unusable.contains_key(name),
        state.metrics.providers() == state.providers@.dom().len(),
        !state.metrics.requests()@.contains_key(key),
        !state.metrics.latencies()@.contains_key(pair),
        state.rate_limiter.limit() == config.server.rate_limit_per_minute,
        !state.rate_limiter.windows().contains_key(ip),
        rate_limit::admits(
            state.rate_limiter.windows(),
            state.rate_limiter.limit(),
            ip,
            now,
        ),
{
}

} // verus!
