//! The providers of the gateway, made once from the configuration.
use crate::config::{keys_of, sorted_names, Config, ProviderConfig};
use crate::providers::openai_compat::{
    addresses_take_any_slashes, chat_address, env_value, read_env, OpenAiCompatProvider,
};
use crate::table::{ascending, holds_at, lemma_item_in_map, Table};
use crate::text::{opt_text, texts};
use vstd::prelude::*;

verus! {

/// Size of the context that a provider is taken to have.
pub const DEFAULT_CONTEXT_MAX: u32 = 131_072;

/// The providers by name, and their keys.
pub struct ProviderPool {
    pub providers: Table<String, OpenAiCompatProvider>,
    /// The key of each declared provider; `None` where it has none.
    pub resolved_api_keys: Table<String, Option<String>>,
}

/// `provider` is what the configuration declares under `name`.
pub open spec fn made_from(
    config: Config,
    env: Map<Seq<char>, String>,
    name: Seq<char>,
    provider: OpenAiCompatProvider,
) -> bool {
    let declared = config.providers@[name];
    &&& provider.name@ == name
    &&& provider.chat_url@ == chat_address(declared.endpoint@)
    &&& provider.api_key == env_value(env, opt_text(declared.api_key_env))
    &&& provider.timeout_secs == declared.timeout_secs
    &&& provider.context_max == DEFAULT_CONTEXT_MAX
}

/// `pool` holds the usable providers that the configuration declares, and a key
/// or its absence for each that it declares.
pub open spec fn pool_of(
    config: Config,
    env: Map<Seq<char>, String>,
    unusable: Map<Seq<char>, String>,
    pool: ProviderPool,
) -> bool {
    &&& forall|name: Seq<char>| #[trigger]
        pool@.contains_key(name) <==> config.providers@.contains_key(name)
            && !unusable.contains_key(name)
    &&& forall|name: Seq<char>| #[trigger]
        pool@.contains_key(name) ==> made_from(config, env, name, pool@[name])
    &&& forall|name: Seq<char>| #[trigger]
        pool.resolved_api_keys@.contains_key(name) <==> config.providers@.contains_key(name)
    &&& forall|name: Seq<char>| #[trigger]
        pool.resolved_api_keys@.contains_key(name) ==> pool.resolved_api_keys@[name] == env_value(
            env,
            opt_text(config.providers@[name].api_key_env),
        )
}

/// `name` stands among the first `n` entries.
spec fn among(items: Seq<(String, ProviderConfig)>, name: Seq<char>, n: int) -> bool {
    exists|k: int| k < n && #[trigger] holds_at(items, name, k)
}

impl View for ProviderPool {
    type V = Map<Seq<char>, OpenAiCompatProvider>;

    open spec fn view(&self) -> Map<Seq<char>, OpenAiCompatProvider> {
        self.providers@
    }
}

impl ProviderPool {
    /// The providers that the configuration declares, each with the key that `env`
    /// holds for it.
    ///
    /// `unusable` names those for which no HTTP client could be made: they are left
    /// out.
    pub fn from_config(
        config: &Config,
        env: &Table<String, String>,
        unusable: &Table<String, String>,
    ) -> (r: Self)
        ensures
            pool_of(*config, env@, unusable@, r),
    {
        let mut providers: Table<String, OpenAiCompatProvider> = Table::new();
        let mut keys: Table<String, Option<String>> = Table::new();
        let declared = &config.providers;
        let n: usize = declared.len();
        let ghost items = declared.items();
        let mut i: usize = 0;
        while i < n
            invariant
                i <= n == items.len(),
                items == config.providers.items(),
                *declared == config.providers,
                ascending(items),
                forall|name: Seq<char>| #[trigger]
                    providers@.contains_key(name) <==> among(items, name, i as int)
                        && !unusable@.contains_key(name),
                forall|name: Seq<char>| #[trigger]
                    providers@.contains_key(name) ==> made_from(
                        *config,
                        env@,
                        name,
                        providers@[name],
                    ),
                forall|name: Seq<char>| #[trigger]
                    keys@.contains_key(name) <==> among(items, name, i as int),
                forall|name: Seq<char>| #[trigger]
                    keys@.contains_key(name) ==> keys@[name] == env_value(
                        env@,
                        opt_text(config.providers@[name].api_key_env),
                    ),
            decreases n - i,
        {
            let name = declared.key_at(i);
            let entry = declared.value_at(i);
            let ghost done = providers@;
            let ghost known = keys@;
            proof {
                lemma_item_in_map(items, i as int);
                assert(holds_at(items, name@, i as int));
                assert forall|other: Seq<char>| #[trigger]
                    among(items, other, i + 1) <==> other == name@ || among(
                        items,
                        other,
                        i as int,
                    ) by {
                    if among(items, other, i + 1) {
                        let k = choose|k: int| k < i + 1 && #[trigger] holds_at(items, other, k);
                        assert(k == i || k < i);
                    }
                }
            }
            let env_name: Option<&str> = match &entry.api_key_env {
                Some(e) => Some(e.as_str()),
                None => None,
            };
            keys.insert(name.clone(), read_env(env, env_name));
            if !unusable.contains_key(name) {
                let provider = OpenAiCompatProvider::new(
                    name.as_str(),
                    entry.endpoint.as_str(),
                    entry.timeout_secs,
                    env_name,
                    env,
                    DEFAULT_CONTEXT_MAX,
                );
                providers.insert(name.clone(), provider);
            }
            i = i + 1;
        }
        proof {
            assert forall|name: Seq<char>| #[trigger]
                config.providers@.contains_key(name) <==> among(items, name, n as int) by {
                if config.providers@.contains_key(name) {
                    let k = choose|k: int| #[trigger] holds_at(items, name, k);
                    assert(holds_at(items, name, k));
                }
            }
        }
        ProviderPool { providers, resolved_api_keys: keys }
    }

    /// The provider of that name, where there is one.
    pub fn get(&self, name: &str) -> (r: Option<&OpenAiCompatProvider>)
        ensures
            match r {
                Some(provider) => self@.contains_key(name@) && *provider == self@[name@],
                None => !self@.contains_key(name@),
            },
    {
        self.providers.get(&name.to_owned())
    }

    /// The number of providers.
    pub fn len(&self) -> (r: usize)
        ensures
            r == self@.dom().len(),
            self@.dom().finite(),
    {
        self.providers.len()
    }

    /// Tells whether there is no provider.
    pub fn is_empty(&self) -> (r: bool)
        ensures
            r <==> self@ == Map::<Seq<char>, OpenAiCompatProvider>::empty(),
    {
        let n: usize = self.providers.len();
        proof {
            if n == 0 {
                assert(self@ =~= Map::<Seq<char>, OpenAiCompatProvider>::empty());
            } else {
                lemma_item_in_map(self.providers.items(), 0);
            }
        }
        n == 0
    }

    /// The names of the providers, each once, sorted.
    pub fn names(&self) -> (r: Vec<String>)
        ensures
            sorted_names(texts(r@)),
            forall|name: Seq<char>| texts(r@).contains(name) <==> self@.contains_key(name),
    {
        keys_of(&self.providers)
    }
}

/// Where the configuration is coherent and every provider is usable, the pool
/// holds the providers of every alias, the second ones too.
pub proof fn coherent_configuration_is_served(
    config: Config,
    env: Map<Seq<char>, String>,
    pool: ProviderPool,
    alias: Seq<char>,
)
    requires
        config.coherent(),
        pool_of(config, env, Map::empty(), pool),
        config.aliases@.contains_key(alias),
    ensures
        pool@.contains_key(config.aliases@[alias].provider@),
        config.aliases@[alias].fallback_provider matches Some(second) ==> pool@.contains_key(
            second@,
        ),
{
    assert(config.target_declared(config.aliases@[alias]));
}

/// The pool holds a provider if and only if it is declared and usable, with the
/// address, the timeout and the key that are declared for it. Its context is taken
/// to have 131072 tokens.
pub proof fn providers_are_as_declared(
    config: Config,
    env: Map<Seq<char>, String>,
    unusable: Map<Seq<char>, String>,
    pool: ProviderPool,
    name: Seq<char>,
    base: Seq<char>,
    n: nat,
)
    requires
        pool_of(config, env, unusable, pool),
        base.len() > 0 ==> base.last() != '/',
        config.providers@.contains_key(name) ==> config.providers@[name].endpoint@ == base
            + Seq::new(n, |i: int| '/'),
    ensures
        pool@.contains_key(name) <==> config.providers@.contains_key(name)
            && !unusable.contains_key(name),
        pool@.contains_key(name) ==> {
            &&& pool@[name].name@ == name
            &&& pool@[name].chat_url@ == base + "/v1/chat/completions"@
            &&& pool@[name].timeout_secs == config.providers@[name].timeout_secs
            &&& pool@[name].context_max == 131072
            &&& pool@[name].api_key == pool.resolved_api_keys@[name]
        },
        pool.resolved_api_keys@.contains_key(name) <==> config.providers@.contains_key(name),
        config.providers@.contains_key(name) ==> match config.providers@[name].api_key_env {
            Some(variable) => if env.contains_key(variable@) {
                pool.resolved_api_keys@[name] == Some(env[variable@])
            } else {
                pool.resolved_api_keys@[name] is None
            },
            None => pool.resolved_api_keys@[name] is None,
        },
{
    addresses_take_any_slashes(base, n);
    if config.providers@.contains_key(name) {
        assert(pool.resolved_api_keys@.contains_key(name));
    }
    if pool@.contains_key(name) {
        assert(made_from(config, env, name, pool@[name]));
    }
}

} // verus!
