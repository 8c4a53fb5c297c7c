//! Configuration of the gateway.
//!
//! - `server`: listening address, authentication, rate limit, circuit breaker,
//!   token cap
//! - `logging`: level of the trace
//! - `providers`: address and timeout of each provider, by name
//! - `aliases`: the provider and the model behind each public model name
//!
//! The table of aliases is the only routing rule: nothing depends on the name of
//! a model.
use crate::table::{ascending, holds_at, lemma_item_in_map, Table};
use crate::text::{
    opt_str, parse_u64, same_text, text_precedes, text_precedes_irreflexive,
    text_precedes_transitive, texts, u64_of,
};
use vstd::prelude::*;

verus! {

/// The whole configuration.
pub struct Config {
    pub server: ServerConfig,
    pub logging: LoggingConfig,
    /// Providers by name.
    pub providers: Table<String, ProviderConfig>,
    /// Targets by public model name.
    pub aliases: Table<String, AliasTarget>,
}

/// Configuration of the server.
#[derive(Debug)]
pub struct ServerConfig {
    /// Listening address, such as "127.0.0.1:8435".
    pub listen: String,
    /// Path of the journal; "./registry.db" where there is none.
    pub registry_db: Option<String>,
    /// Name of the environment variable that holds the inbound Bearer token.
    /// Without it no authentication is asked for.
    pub bearer_token_env: Option<String>,
    /// Requests per minute and client on the POST endpoints; 0 for no limit.
    pub rate_limit_per_minute: u32,
    /// Failures in a row that open the circuit of a provider.
    pub circuit_threshold: u32,
    /// Time within which those failures count, in seconds.
    pub circuit_window_secs: u64,
    /// Time that an open circuit stays open, in seconds.
    pub circuit_cooldown_secs: u64,
    /// Cap on the estimated tokens of a chat request, input and `max_tokens`
    /// together; 0 for no cap.
    pub max_total_tokens: u64,
}

/// Configuration of the trace.
#[derive(Debug)]
pub struct LoggingConfig {
    /// Level, such as "info", "debug" or "warn".
    pub level: String,
}

/// Configuration of a provider.
#[derive(Debug)]
pub struct ProviderConfig {
    /// Base address, such as "http://192.168.10.118:8080".
    pub endpoint: String,
    /// Timeout of a request, in seconds.
    pub timeout_secs: u64,
    /// Name of the environment variable that holds the key of the provider.
    pub api_key_env: Option<String>,
}

/// What stands behind an alias.
#[derive(Debug)]
pub struct AliasTarget {
    /// The provider.
    pub provider: String,
    /// The model that the provider is asked for.
    pub model: String,
    /// The provider that is tried when the first fails.
    pub fallback_provider: Option<String>,
    /// The model that the second provider is asked for; `model` where there is
    /// none.
    pub fallback_model: Option<String>,
}

/// The default of `rate_limit_per_minute`.
pub fn default_rate_limit() -> (r: u32)
    ensures
        r == 60,
{
    60
}

/// The default of `circuit_threshold`.
pub fn default_circuit_threshold() -> (r: u32)
    ensures
        r == 5,
{
    5
}

/// The default of `circuit_window_secs`.
pub fn default_circuit_window_secs() -> (r: u64)
    ensures
        r == 60,
{
    60
}

/// The default of `circuit_cooldown_secs`.
pub fn default_circuit_cooldown_secs() -> (r: u64)
    ensures
        r == 30,
{
    30
}

/// The default of `max_total_tokens`.
pub fn default_max_total_tokens() -> (r: u64)
    ensures
        r == 180_000,
{
    180_000
}

/// The default of `level`.
pub fn default_log_level() -> (r: String)
    ensures
        r@ == "info"@,
{
    "info".to_owned()
}

/// The default of `timeout_secs`.
pub fn default_timeout_secs() -> (r: u64)
    ensures
        r == 120,
{
    120
}

impl Default for LoggingConfig {
    fn default() -> (r: Self)
        ensures
            r.level@ == "info"@,
    {
        LoggingConfig { level: default_log_level() }
    }
}

/// A copy of an optional string.
pub fn copy_text(s: &Option<String>) -> (r: Option<String>)
    ensures
        r == *s,
{
    match s {
        Some(t) => Some(t.clone()),
        None => None,
    }
}

impl Clone for ProviderConfig {
    fn clone(&self) -> (r: Self)
        ensures
            r == *self,
    {
        ProviderConfig {
            endpoint: self.endpoint.clone(),
            timeout_secs: self.timeout_secs,
            api_key_env: copy_text(&self.api_key_env),
        }
    }
}

impl Clone for AliasTarget {
    fn clone(&self) -> (r: Self)
        ensures
            r == *self,
    {
        AliasTarget {
            provider: self.provider.clone(),
            model: self.model.clone(),
            fallback_provider: copy_text(&self.fallback_provider),
            fallback_model: copy_text(&self.fallback_model),
        }
    }
}

impl AliasTarget {
    /// A target without a second provider.
    pub fn simple(provider: &str, model: &str) -> (r: Self)
        ensures
            r.provider@ == provider@,
            r.model@ == model@,
            r.fallback_provider is None,
            r.fallback_model is None,
    {
        AliasTarget {
            provider: provider.to_owned(),
            model: model.to_owned(),
            fallback_provider: None,
            fallback_model: None,
        }
    }

    /// A target with a second provider, which is asked for `fallback_model`, or
    /// for `model` where that is `None`.
    pub fn with_fallback(
        provider: &str,
        model: &str,
        fallback_provider: &str,
        fallback_model: Option<String>,
    ) -> (r: Self)
        ensures
            r.provider@ == provider@,
            r.model@ == model@,
            r.fallback_provider matches Some(p) && p@ == fallback_provider@,
            r.fallback_model == fallback_model,
    {
        AliasTarget {
            provider: provider.to_owned(),
            model: model.to_owned(),
            fallback_provider: Some(fallback_provider.to_owned()),
            fallback_model,
        }
    }
}

/// Why a configuration is refused.
#[derive(Debug)]
pub enum ConfigError {
    /// The file cannot be read.
    Unreadable { path: String, cause: String },
    /// The file is not a configuration.
    Malformed { path: String, cause: String },
    /// `MAX_TOTAL_TOKENS` is not a number.
    InvalidMaxTotalTokens { value: String },
    /// The provider of an alias is not declared.
    UnknownProvider { alias: String, provider: String },
    /// The second provider of an alias is not declared.
    UnknownFallback { alias: String, provider: String },
}

/// The description of a refusal.
pub open spec fn config_error_text(e: ConfigError) -> Seq<char> {
    match e {
        ConfigError::Unreadable { path, cause } => "impossible de lire le fichier config '"@ + path@
            + "': "@ + cause@,
        ConfigError::Malformed { path, cause } => "config TOML invalide dans '"@ + path@ + "': "@
            + cause@,
        ConfigError::InvalidMaxTotalTokens { value } => "MAX_TOTAL_TOKENS='"@ + value@
            + "' invalide — doit être un entier positif"@,
        ConfigError::UnknownProvider { alias, provider } => "alias '"@ + alias@
            + "' référence le provider '"@ + provider@
            + "' qui n'est pas déclaré dans [providers]"@,
        ConfigError::UnknownFallback { alias, provider } => "alias '"@ + alias@
            + "' référence le fallback_provider '"@ + provider@
            + "' qui n'est pas déclaré dans [providers]"@,
    }
}

impl ConfigError {
    /// The description of the refusal.
    pub fn message(&self) -> (r: String)
        ensures
            r@ == config_error_text(*self),
    {
        match self {
            ConfigError::Unreadable { path, cause } => {
                "impossible de lire le fichier config '".to_owned().concat(path.as_str()).concat(
                    "': ",
                ).concat(cause.as_str())
            },
            ConfigError::Malformed { path, cause } => {
                "config TOML invalide dans '".to_owned().concat(path.as_str()).concat("': ").concat(
                    cause.as_str(),
                )
            },
            ConfigError::InvalidMaxTotalTokens { value } => {
                "MAX_TOTAL_TOKENS='".to_owned().concat(value.as_str()).concat(
                    "' invalide — doit être un entier positif",
                )
            },
            ConfigError::UnknownProvider { alias, provider } => {
                "alias '".to_owned().concat(alias.as_str()).concat(
                    "' référence le provider '",
                ).concat(provider.as_str()).concat("' qui n'est pas déclaré dans [providers]")
            },
            ConfigError::UnknownFallback { alias, provider } => {
                "alias '".to_owned().concat(alias.as_str()).concat(
                    "' référence le fallback_provider '",
                ).concat(provider.as_str()).concat("' qui n'est pas déclaré dans [providers]")
            },
        }
    }
}

/// What reading a configuration file gave.
pub enum ConfigSource {
    /// The file could not be read.
    Unreadable(String),
    /// Its text is not a configuration.
    Malformed(String),
    /// Its text is this configuration.
    Parsed(Config),
}

impl Config {
    /// A provider of that name is declared.
    pub open spec fn declares(self, provider: Seq<char>) -> bool {
        self.providers@.contains_key(provider)
    }

    /// The providers of a target are declared.
    pub open spec fn target_declared(self, target: AliasTarget) -> bool {
        &&& self.declares(target.provider@)
        &&& target.fallback_provider matches Some(p) ==> self.declares(p@)
    }

    /// The providers of every alias are declared.
    pub open spec fn coherent(self) -> bool {
        forall|alias: Seq<char>| #[trigger]
            self.aliases@.contains_key(alias) ==> self.target_declared(self.aliases@[alias])
    }

    /// `e` says what is wrong with the alias at `i`, and the aliases before it are
    /// in order.
    pub open spec fn first_fault(self, i: int, e: ConfigError) -> bool {
        let items = self.aliases.items();
        &&& 0 <= i < items.len()
        &&& forall|j: int| 0 <= j < i ==> self.target_declared((#[trigger] items[j]).1)
        &&& match e {
            ConfigError::UnknownProvider { alias, provider } => {
                &&& alias@ == items[i].0@
                &&& provider@ == items[i].1.provider@
                &&& !self.declares(provider@)
            },
            ConfigError::UnknownFallback { alias, provider } => {
                &&& alias@ == items[i].0@
                &&& self.declares(items[i].1.provider@)
                &&& items[i].1.fallback_provider matches Some(p) && provider@ == p@
                &&& !self.declares(provider@)
            },
            _ => false,
        }
    }

    /// Checks that the providers of every alias are declared.
    pub fn validate(&self) -> (r: Result<(), ConfigError>)
        ensures
            r is Ok <==> self.coherent(),
            r matches Err(e) ==> exists|i: int| self.first_fault(i, e),
    {
        let n: usize = self.aliases.len();
        let mut i: usize = 0;
        while i < n
            invariant
                i <= n,
                n == self.aliases.items().len(),
                ascending(self.aliases.items()),
                forall|j: int|
                    0 <= j < i ==> self.target_declared((#[trigger] self.aliases.items()[j]).1),
            decreases n - i,
        {
            let alias = self.aliases.key_at(i);
            let target = self.aliases.value_at(i);
            proof {
                lemma_item_in_map(self.aliases.items(), i as int);
                assert(self.aliases@.contains_key(alias@));
            }
            if !self.providers.contains_key(&target.provider) {
                let e = ConfigError::UnknownProvider {
                    alias: alias.clone(),
                    provider: target.provider.clone(),
                };
                assert(self.first_fault(i as int, e));
                return Err(e);
            }
            if let Some(fallback) = &target.fallback_provider {
                if !self.providers.contains_key(fallback) {
                    let e = ConfigError::UnknownFallback {
                        alias: alias.clone(),
                        provider: fallback.clone(),
                    };
                    assert(self.first_fault(i as int, e));
                    return Err(e);
                }
            }
            i = i + 1;
        }
        assert forall|alias: Seq<char>| #[trigger]
            self.aliases@.contains_key(alias) implies self.target_declared(
            self.aliases@[alias],
        ) by {
            let items = self.aliases.items();
            let k = choose|k: int| #[trigger] holds_at(items, alias, k);
            lemma_item_in_map(items, k);
        }
        Ok(())
    }

    /// The configuration with the cap that `MAX_TOTAL_TOKENS` gives.
    pub open spec fn capped(self, max_total_tokens: Option<Seq<char>>) -> Config {
        match max_total_tokens {
            Some(value) => Config {
                server: ServerConfig {
                    max_total_tokens: u64_of(value)->0,
                    ..self.server
                },
                ..self
            },
            None => self,
        }
    }

    /// Completes the loading of the file at `path`, given what reading it gave and
    /// the value of `MAX_TOTAL_TOKENS` where it is set.
    ///
    /// The variable replaces the cap of the file. Then the configuration is
    /// checked.
    pub fn load(path: &str, source: ConfigSource, max_total_tokens: Option<&str>) -> (r: Result<
        Config,
        ConfigError,
    >)
        ensures
            match source {
                ConfigSource::Unreadable(why) => r matches Err(
                    ConfigError::Unreadable { path: p, cause },
                ) && p@ == path@ && cause == why,
                ConfigSource::Malformed(why) => r matches Err(
                    ConfigError::Malformed { path: p, cause },
                ) && p@ == path@ && cause == why,
                ConfigSource::Parsed(config) => {
                    let capped = config.capped(opt_str(max_total_tokens));
                    if max_total_tokens is Some && u64_of(max_total_tokens->0@) is None {
                        r matches Err(ConfigError::InvalidMaxTotalTokens { value }) && value@
                            == max_total_tokens->0@
                    } else if capped.coherent() {
                        r == Ok::<Config, ConfigError>(capped)
                    } else {
                        r matches Err(e) && exists|i: int| capped.first_fault(i, e)
                    }
                },
            },
            r matches Ok(config) ==> config.coherent(),
    {
        match source {
            ConfigSource::Unreadable(cause) => Err(
                ConfigError::Unreadable { path: path.to_owned(), cause },
            ),
            ConfigSource::Malformed(cause) => Err(
                ConfigError::Malformed { path: path.to_owned(), cause },
            ),
            ConfigSource::Parsed(parsed) => {
                let mut config = parsed;
                if let Some(value) = max_total_tokens {
                    match parse_u64(value) {
                        Some(n) => {
                            config.server.max_total_tokens = n;
                        },
                        None => {
                            return Err(
                                ConfigError::InvalidMaxTotalTokens { value: value.to_owned() },
                            );
                        },
                    }
                }
                match config.validate() {
                    Ok(()) => Ok(config),
                    Err(e) => Err(e),
                }
            },
        }
    }

    /// The path of the journal.
    pub fn registry_path(&self) -> (r: String)
        ensures
            r@ == match self.server.registry_db {
                Some(path) => path@,
                None => "./registry.db"@,
            },
    {
        match &self.server.registry_db {
            Some(path) => path.clone(),
            None => "./registry.db".to_owned(),
        }
    }

    /// The names of the providers, in the order of the table.
    pub open spec fn provider_keys(self) -> Seq<Seq<char>> {
        Seq::new(self.providers.items().len(), |i: int| self.providers.items()[i].0@)
    }

    /// The names of the aliases, in the order of the table.
    pub open spec fn alias_keys(self) -> Seq<Seq<char>> {
        Seq::new(self.aliases.items().len(), |i: int| self.aliases.items()[i].0@)
    }

    /// The names of the providers, each once, sorted.
    pub fn provider_names(&self) -> (r: Vec<String>)
        ensures
            texts(r@) == self.provider_keys(),
            sorted_names(texts(r@)),
            forall|name: Seq<char>|
                texts(r@).contains(name) <==> self.providers@.contains_key(name),
    {
        keys_of(&self.providers)
    }

    /// The names of the aliases, each once, sorted.
    pub fn alias_names(&self) -> (r: Vec<String>)
        ensures
            texts(r@) == self.alias_keys(),
            sorted_names(texts(r@)),
            forall|name: Seq<char>|
                texts(r@).contains(name) <==> self.aliases@.contains_key(name),
    {
        keys_of(&self.aliases)
    }
}

/// The names stand in strictly ascending order.
pub open spec fn sorted_names(names: Seq<Seq<char>>) -> bool {
    forall|i: int, j: int|
        0 <= i < j < names.len() ==> text_precedes(
            #[trigger] names[i],
            #[trigger] names[j],
        )
}

/// The keys of a table, in its order.
pub fn keys_of<V>(table: &Table<String, V>) -> (r: Vec<String>)
    ensures
        texts(r@) == Seq::new(table.items().len(), |i: int| table.items()[i].0@),
        sorted_names(texts(r@)),
        forall|name: Seq<char>|
            texts(r@).contains(name) <==> table@.contains_key(name),
{
    let n: usize = table.len();
    let mut out: Vec<String> = Vec::new();
    let mut i: usize = 0;
    while i < n
        invariant
            i <= n,
            n == table.items().len(),
            out@.len() == i,
            forall|j: int| 0 <= j < i ==> (#[trigger] out@[j])@ == table.items()[j].0@,
        decreases n - i,
    {
        out.push(table.key_at(i).clone());
        i = i + 1;
    }
    let ghost names = texts(out@);
    let ghost items = table.items();
    assert(names =~= Seq::new(items.len(), |i: int| items[i].0@));
    assert(sorted_names(names)) by {
        assert forall|i: int, j: int| 0 <= i < j < names.len() implies text_precedes(
            #[trigger] names[i],
            #[trigger] names[j],
        ) by {
            assert(items[i].0@ == names[i] && items[j].0@ == names[j]);
        }
    }
    assert forall|name: Seq<char>| names.contains(name) <==> table@.contains_key(name) by {
        if names.contains(name) {
            let k = names.index_of(name);
            lemma_item_in_map(items, k);
        }
        if table@.contains_key(name) {
            let k = choose|k: int| #[trigger] holds_at(items, name, k);
            assert(names[k] == name);
        }
    }
    out
}

/// The path of the configuration file: what follows the first `--config`, else
/// the value of `CONFIG_PATH`, else "./config.toml".
pub fn resolve_config_path(args: &Vec<String>, config_path: Option<&str>) -> (r: String)
    ensures
        r@ == chosen_path(texts(args@), opt_str(config_path)),
{
    let mut at: usize = 0;
    let ghost all = texts(args@);
    assert(all.skip(0) =~= all);
    while at < args.len() && !same_text(args[at].as_str(), "--config")
        invariant
            at <= args.len(),
            all == texts(args@),
            flag_value(all) == flag_value(all.skip(at as int)),
        decreases args.len() - at,
    {
        assert(all.skip(at as int)[0] == args@[at as int]@);
        assert(all.skip(at as int).drop_first() =~= all.skip(at + 1));
        at = at + 1;
    }
    if at < args.len() {
        assert(all.skip(at as int)[0] == args@[at as int]@);
        if at + 1 < args.len() {
            assert(all.skip(at as int)[1] == args@[at + 1]@);
            return args[at + 1].clone();
        }
    }
    match config_path {
        Some(path) => path.to_owned(),
        None => "./config.toml".to_owned(),
    }
}

/// What follows the first `--config` of a command line.
pub open spec fn flag_value(args: Seq<Seq<char>>) -> Option<Seq<char>>
    decreases args.len(),
{
    if args.len() == 0 {
        None
    } else if args[0] == "--config"@ {
        if args.len() > 1 {
            Some(args[1])
        } else {
            None
        }
    } else {
        flag_value(args.drop_first())
    }
}

/// The path of the configuration file.
pub open spec fn chosen_path(args: Seq<Seq<char>>, config_path: Option<Seq<char>>) -> Seq<char> {
    match flag_value(args) {
        Some(path) => path,
        None => match config_path {
            Some(path) => path,
            None => "./config.toml"@,
        },
    }
}

// ---------------------------------------------------------------------------
// What holds of every configuration
// ---------------------------------------------------------------------------

/// A configuration is coherent if and only if each alias has a provider that is
/// declared, and a second one that is declared if it has a second.
pub proof fn coherent_means_declared(config: Config)
    ensures
        config.coherent() <==> forall|alias: Seq<char>| #[trigger]
            config.aliases@.contains_key(alias) ==> {
                &&& config.providers@.contains_key(config.aliases@[alias].provider@)
                &&& config.aliases@[alias].fallback_provider matches Some(second)
                    ==> config.providers@.contains_key(second@)
            },
{
    if config.coherent() {
        assert forall|alias: Seq<char>| #[trigger] config.aliases@.contains_key(alias) implies {
            &&& config.providers@.contains_key(config.aliases@[alias].provider@)
            &&& config.aliases@[alias].fallback_provider matches Some(second)
                ==> config.providers@.contains_key(second@)
        } by {
            assert(config.target_declared(config.aliases@[alias]));
        }
    }
}

/// The fault that is reported names an alias and a provider of it that is not
/// declared, the first provider before the second. The aliases that come before it
/// in alphabetical order are without fault.
pub proof fn the_first_fault_is_reported(config: Config, i: int, e: ConfigError, other: Seq<char>)
    requires
        ascending(config.aliases.items()),
        config.first_fault(i, e),
    ensures
        match e {
            ConfigError::UnknownProvider { alias, provider } => {
                &&& config.aliases@.contains_key(alias@)
                &&& config.aliases@[alias@].provider@ == provider@
                &&& !config.providers@.contains_key(provider@)
                &&& config.aliases@.contains_key(other) && text_precedes(other, alias@)
                    ==> config.providers@.contains_key(config.aliases@[other].provider@)
            },
            ConfigError::UnknownFallback { alias, provider } => {
                &&& config.aliases@.contains_key(alias@)
                &&& config.providers@.contains_key(config.aliases@[alias@].provider@)
                &&& config.aliases@[alias@].fallback_provider matches Some(second) && second@
                    == provider@
                &&& !config.providers@.contains_key(provider@)
                &&& config.aliases@.contains_key(other) && text_precedes(other, alias@)
                    ==> config.providers@.contains_key(config.aliases@[other].provider@)
            },
            _ => false,
        },
        config.aliases@.contains_key(other) && text_precedes(other, config.aliases.items()[i].0@)
            && config.aliases@[other].fallback_provider is Some ==> config.providers@.contains_key(
            config.aliases@[other].fallback_provider->0@,
        ),
{
    let items = config.aliases.items();
    lemma_item_in_map(items, i);
    if config.aliases@.contains_key(other) {
        let k = choose|k: int| #[trigger] holds_at(items, other, k);
        lemma_item_in_map(items, k);
        if text_precedes(other, items[i].0@) {
            if k > i {
                text_precedes_transitive(items[i].0@, other, items[i].0@);
            }
            text_precedes_irreflexive(items[i].0@);
            assert(k < i);
            assert(config.target_declared(items[k].1));
        }
    }
}

/// `MAX_TOTAL_TOKENS` replaces the cap and nothing else.
pub proof fn the_variable_replaces_the_cap(config: Config, value: Seq<char>, n: u64)
    requires
        u64_of(value) == Some(n),
    ensures
        config.capped(None) == config,
        config.capped(Some(value)).server.max_total_tokens == n,
        config.capped(Some(value)).server.listen == config.server.listen,
        config.capped(Some(value)).server.registry_db == config.server.registry_db,
        config.capped(Some(value)).server.bearer_token_env == config.server.bearer_token_env,
        config.capped(Some(value)).server.rate_limit_per_minute
            == config.server.rate_limit_per_minute,
        config.capped(Some(value)).server.circuit_threshold == config.server.circuit_threshold,
        config.capped(Some(value)).server.circuit_window_secs == config.server.circuit_window_secs,
        config.capped(Some(value)).server.circuit_cooldown_secs
            == config.server.circuit_cooldown_secs,
        config.capped(Some(value)).logging == config.logging,
        config.capped(Some(value)).providers == config.providers,
        config.capped(Some(value)).aliases == config.aliases,
        config.capped(Some(value)).coherent() == config.coherent(),
{
    let capped = config.capped(Some(value));
    assert forall|target: AliasTarget| capped.target_declared(target)
        == #[trigger] config.target_declared(target) by {}
    coherent_means_declared(config);
    coherent_means_declared(capped);
}

/// Names that are sorted stand in alphabetical order, each once.
pub proof fn sorted_names_stand_once(names: Seq<Seq<char>>, i: int, j: int)
    requires
        sorted_names(names),
        0 <= i < j < names.len(),
    ensures
        text_precedes(names[i], names[j]),
        names[i] != names[j],
{
    text_precedes_irreflexive(names[i]);
}

/// What follows the first `--config` of a command line is the path, whatever
/// `CONFIG_PATH` holds and whatever follows.
pub proof fn the_flag_gives_the_path(
    before: Seq<Seq<char>>,
    path: Seq<char>,
    after: Seq<Seq<char>>,
    config_path: Option<Seq<char>>,
)
    requires
        !before.contains("--config"@),
    ensures
        chosen_path(before + seq!["--config"@, path] + after, config_path) == path,
    decreases before.len(),
{
    let args = before + seq!["--config"@, path] + after;
    if before.len() == 0 {
        assert(args[0] == "--config"@ && args[1] == path);
    } else {
        let rest = before.drop_first();
        assert(before.contains(before[0]));
        assert(args[0] == before[0]);
        assert(args.drop_first() =~= rest + seq!["--config"@, path] + after);
        assert forall|k: int| 0 <= k < rest.len() implies rest[k] != "--config"@ by {
            assert(before.contains(before[k + 1]));
        }
        the_flag_gives_the_path(rest, path, after, config_path);
    }
}

/// Without `--config`, or with nothing after it, the path is the value of
/// `CONFIG_PATH`, or "./config.toml" where that is not set.
pub proof fn without_the_flag_the_variable_counts(
    args: Seq<Seq<char>>,
    config_path: Option<Seq<char>>,
)
    requires
        !args.contains("--config"@),
    ensures
        chosen_path(args, None) == "./config.toml"@,
        chosen_path(args.push("--config"@), None) == "./config.toml"@,
        config_path matches Some(path) ==> chosen_path(args, config_path) == path && chosen_path(
            args.push("--config"@),
            config_path,
        ) == path,
    decreases args.len(),
{
    let flagged = args.push("--config"@);
    if args.len() > 0 {
        let rest = args.drop_first();
        assert(args.contains(args[0]));
        assert(flagged[0] == args[0]);
        assert(flagged.drop_first() =~= rest.push("--config"@));
        assert forall|k: int| 0 <= k < rest.len() implies rest[k] != "--config"@ by {
            assert(args.contains(args[k + 1]));
        }
        without_the_flag_the_variable_counts(rest, config_path);
    }
}

/// A refusal names the file and the cause, the value, or the alias and its provider.
pub proof fn refusals_name_their_cause(a: String, b: String)
    ensures
        config_error_text(ConfigError::Unreadable { path: a, cause: b })
            == "impossible de lire le fichier config '"@ + a@ + "': "@ + b@,
        config_error_text(ConfigError::Malformed { path: a, cause: b })
            == "config TOML invalide dans '"@ + a@ + "': "@ + b@,
        config_error_text(ConfigError::InvalidMaxTotalTokens { value: a }) == "MAX_TOTAL_TOKENS='"@
            + a@ + "' invalide — doit être un entier positif"@,
        config_error_text(ConfigError::UnknownProvider { alias: a, provider: b }) == "alias '"@ + a@
            + "' référence le provider '"@ + b@ + "' qui n'est pas déclaré dans [providers]"@,
        config_error_text(ConfigError::UnknownFallback { alias: a, provider: b }) == "alias '"@ + a@
            + "' référence le fallback_provider '"@ + b@
            + "' qui n'est pas déclaré dans [providers]"@,
{
}

} // verus!
