//! `GET /health`: the state of the gateway and its providers.
//!
//! No provider is asked: the answer comes whenever the gateway runs.
//!
//! ```json
//! { "status": "ok", "version": "0.1.0-alpha.3", "providers": ["llmcore"] }
//! ```
use crate::config::{sorted_names, Config};
use crate::text::texts;
use vstd::prelude::*;

verus! {

/// Version of the gateway.
pub const VERSION: &'static str = "0.1.0-alpha.3";

/// The state of the gateway.
#[derive(Debug)]
pub struct HealthResponse {
    pub status: &'static str,
    pub version: &'static str,
    pub providers: Vec<String>,
}

/// Answers `GET /health`.
pub fn handler(config: &Config) -> (r: HealthResponse)
    ensures
        r.status@ == "ok"@,
        r.version@ == VERSION@,
        r.version@ == "0.1.0-alpha.3"@,
        sorted_names(texts(r.providers@)),
        forall|name: Seq<char>|
            texts(r.providers@).contains(name) <==> config.providers@.contains_key(name),
{
    HealthResponse { status: "ok", version: VERSION, providers: config.provider_names() }
}

} // verus!
