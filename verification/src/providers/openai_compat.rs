//! A provider with an OpenAI-compatible endpoint (llama.cpp, vLLM, OpenRouter and
//! the like).
//!
//! Nothing here depends on the name of a model.
use crate::config::copy_text;
use crate::error::{LlmError, LlmErrorKind};
use crate::table::Table;
use crate::text::{
    ends_with, opt_str, repeated, run_of, trim_end, trim_end_char, trim_end_removes_the_run,
    trim_end_str, trim_end_text, trim_end_text_removes_repeats,
};
use vstd::prelude::*;

verus! {

/// A provider.
#[derive(Debug)]
pub struct OpenAiCompatProvider {
    /// Its name, for traces and messages.
    pub name: String,
    /// Address of its chat endpoint.
    pub chat_url: String,
    /// Its key, where it asks for one.
    pub api_key: Option<String>,
    /// Timeout in seconds: of a whole request, and of the connection of a stream.
    pub timeout_secs: u64,
    /// Size of its context, in tokens.
    pub context_max: u32,
}

/// How long a call may take, in seconds.
#[derive(Debug, Clone, Copy, PartialEq, Eq, Structural)]
pub enum CallTimeout {
    /// From the connection to the end of the answer.
    Total(u64),
    /// For the connection alone: a stream may last as long as it likes.
    Connect(u64),
}

/// A call to a provider: what is put on the request that is passed on.
#[derive(Debug)]
pub struct UpstreamCall {
    pub url: String,
    /// The model that the provider is asked for.
    pub model: String,
    /// Whether the answer is asked for as a stream.
    pub stream: bool,
    /// The Bearer token of the call.
    pub api_key: Option<String>,
    pub timeout: CallTimeout,
}

/// The value of the environment variable `name`, where one is named and set.
pub open spec fn env_value(
    env: Map<Seq<char>, String>,
    name: Option<Seq<char>>,
) -> Option<String> {
    match name {
        Some(n) => if env.contains_key(n) {
            Some(env[n])
        } else {
            None
        },
        None => None,
    }
}

/// Looks a variable up.
pub fn read_env(env: &Table<String, String>, name: Option<&str>) -> (r: Option<String>)
    ensures
        r == env_value(env@, opt_str(name)),
{
    match name {
        Some(n) => match env.get(&n.to_owned()) {
            Some(value) => Some(value.clone()),
            None => None,
        },
        None => None,
    }
}

/// Address of the chat endpoint below a base address.
pub open spec fn chat_address(base: Seq<char>) -> Seq<char> {
    trim_end(base, '/') + "/v1/chat/completions"@
}

/// Address of the health endpoint that belongs to a chat endpoint.
pub open spec fn health_address(chat_url: Seq<char>) -> Seq<char> {
    trim_end_text(chat_url, "/v1/chat/completions"@) + "/health"@
}

/// A status of success.
pub open spec fn success(status: u16) -> bool {
    200 <= status < 300
}

/// A status that blames the server.
pub open spec fn server_error(status: u16) -> bool {
    500 <= status < 600
}

/// Tells whether a status is one of success.
pub fn is_success(status: u16) -> (r: bool)
    ensures
        r == success(status),
{
    200 <= status && status < 300
}

/// Tells whether a status blames the server.
pub fn is_server_error(status: u16) -> (r: bool)
    ensures
        r == server_error(status),
{
    500 <= status && status < 600
}

/// The failure of a call that got no answer: it took too long, or the network
/// failed. `text` describes it.
pub fn send_failure(timed_out: bool, text: String) -> (r: LlmError)
    ensures
        r.text == text,
        r.kind == if timed_out {
            LlmErrorKind::Timeout
        } else {
            LlmErrorKind::Network
        },
{
    LlmError {
        kind: if timed_out {
            LlmErrorKind::Timeout
        } else {
            LlmErrorKind::Network
        },
        text,
    }
}

impl OpenAiCompatProvider {
    /// A provider at the base address `endpoint_base`.
    ///
    /// Its key is the value of the variable that `api_key_env` names. Where there
    /// is none, calls go out without a key.
    pub fn new(
        name: &str,
        endpoint_base: &str,
        timeout_secs: u64,
        api_key_env: Option<&str>,
        env: &Table<String, String>,
        context_max: u32,
    ) -> (r: Self)
        ensures
            r.name@ == name@,
            r.chat_url@ == chat_address(endpoint_base@),
            r.api_key == env_value(env@, opt_str(api_key_env)),
            r.timeout_secs == timeout_secs,
            r.context_max == context_max,
    {
        OpenAiCompatProvider {
            name: name.to_owned(),
            chat_url: trim_end_char(endpoint_base, '/').concat("/v1/chat/completions"),
            api_key: read_env(env, api_key_env),
            timeout_secs,
            context_max,
        }
    }

    /// `call` is the call to this provider for a model.
    pub open spec fn calls(self, model: Seq<char>, stream: bool, call: UpstreamCall) -> bool {
        &&& call.url@ == self.chat_url@
        &&& call.model@ == model
        &&& call.stream == stream
        &&& call.api_key == self.api_key
        &&& call.timeout == if stream {
            CallTimeout::Connect(self.timeout_secs)
        } else {
            CallTimeout::Total(self.timeout_secs)
        }
    }

    /// The call for a completion, or for a stream of its chunks.
    pub fn call(&self, model: &str, stream: bool) -> (r: UpstreamCall)
        ensures
            self.calls(model@, stream, r),
    {
        UpstreamCall {
            url: self.chat_url.clone(),
            model: model.to_owned(),
            stream,
            api_key: copy_text(&self.api_key),
            timeout: if stream {
                CallTimeout::Connect(self.timeout_secs)
            } else {
                CallTimeout::Total(self.timeout_secs)
            },
        }
    }

    /// The time that the report of a timeout gives: of a stream the timeout, of a
    /// completion a symbolic value, the size of the context.
    pub fn reported_timeout(&self, stream: bool) -> (r: u64)
        ensures
            r == if stream {
                self.timeout_secs
            } else {
                self.context_max as u64
            },
    {
        if stream {
            self.timeout_secs
        } else {
            self.context_max as u64
        }
    }

    /// Address at which the provider tells whether it is there.
    pub fn health_url(&self) -> (r: String)
        ensures
            r@ == health_address(self.chat_url@),
    {
        trim_end_str(self.chat_url.as_str(), "/v1/chat/completions").concat("/health")
    }
}

/// Decides on the status of a health check: any answer that does not blame the
/// server shows that the provider is there.
pub fn health_check(status: u16) -> (r: Result<(), LlmError>)
    ensures
        r is Ok <==> !server_error(status),
        r matches Err(e) ==> e.kind == LlmErrorKind::UpstreamError && e.text@
            == "health check failed"@,
{
    if is_server_error(status) {
        Err(
            LlmError {
                kind: LlmErrorKind::UpstreamError,
                text: "health check failed".to_owned(),
            },
        )
    } else {
        Ok(())
    }
}

/// The health endpoint of a provider stands beside its chat endpoint, whatever
/// slashes its base address ends in.
pub proof fn health_beside_chat(base: Seq<char>)
    requires
        !ends_with(trim_end(base, '/'), "/v1/chat/completions"@),
    ensures
        health_address(chat_address(base)) == trim_end(base, '/') + "/health"@,
{
    reveal_strlit("/v1/chat/completions");
    let suffix = "/v1/chat/completions"@;
    let root = trim_end(base, '/');
    let url = root + suffix;
    assert(url.skip(url.len() - suffix.len()) =~= suffix);
    assert(url.take(url.len() - suffix.len()) =~= root);
    assert(trim_end_text(root, suffix) == root);
}

/// The chat endpoint stands one slash below the base address, however many slashes
/// the base address ends in, and the health endpoint beside it.
pub proof fn addresses_take_any_slashes(base: Seq<char>, n: nat)
    requires
        base.len() > 0 ==> base.last() != '/',
    ensures
        chat_address(base + Seq::new(n, |i: int| '/')) == base + "/v1/chat/completions"@,
        (forall|x: Seq<char>| base != #[trigger] (x + "/v1/chat/completions"@)) ==> health_address(
            chat_address(base + Seq::new(n, |i: int| '/')),
        ) == base + "/health"@,
{
    let suffix = "/v1/chat/completions"@;
    assert(Seq::new(n, |i: int| '/') =~= run_of('/', n));
    trim_end_removes_the_run(base, '/', n);
    if forall|x: Seq<char>| base != #[trigger] (x + suffix) {
        reveal_strlit("/v1/chat/completions");
        trim_end_text_removes_repeats(base, suffix, 1);
        assert(repeated(suffix, 0) =~= Seq::<char>::empty());
        assert(repeated(suffix, 1) == repeated(suffix, 0) + suffix);
        assert(repeated(suffix, 1) =~= suffix);
    }
}

/// An address that is no chat endpoint is its own root.
pub proof fn health_below_any_other_address(url: Seq<char>)
    requires
        forall|x: Seq<char>| url != #[trigger] (x + "/v1/chat/completions"@),
    ensures
        health_address(url) == url + "/health"@,
{
    reveal_strlit("/v1/chat/completions");
    trim_end_text_removes_repeats(url, "/v1/chat/completions"@, 0);
    assert(url + repeated("/v1/chat/completions"@, 0) =~= url);
}

/// Success is a status from 200 to 299, and a status from 500 to 599 blames the
/// server.
pub proof fn hundreds_tell_the_status(status: u16)
    ensures
        success(status) <==> status as int / 100 == 2,
        server_error(status) <==> status as int / 100 == 5,
{
}

/// A variable that is set has its value, and nothing else has one.
pub proof fn variables_have_their_value(
    env: Map<Seq<char>, String>,
    name: Seq<char>,
    value: String,
)
    ensures
        env_value(env.insert(name, value), Some(name)) == Some(value),
        env_value(env.remove(name), Some(name)) is None,
        env_value(env, None) is None,
{
}

/// A call goes to the chat endpoint of its provider with its key, and asks for the
/// model. The timeout holds for the whole of an answer, and of a stream for the
/// connection alone.
pub proof fn calls_follow_the_provider(
    provider: OpenAiCompatProvider,
    model: Seq<char>,
    stream: bool,
    call: UpstreamCall,
)
    requires
        provider.calls(model, stream, call),
    ensures
        call.url@ == provider.chat_url@,
        call.model@ == model,
        call.stream == stream,
        call.api_key == provider.api_key,
        stream ==> call.timeout == CallTimeout::Connect(provider.timeout_secs),
        !stream ==> call.timeout == CallTimeout::Total(provider.timeout_secs),
{
}

} // verus!
