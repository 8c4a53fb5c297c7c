//! What the gateway reads of the requests in the OpenAI format.
//!
//! The rest of a request is passed on as it came.
use vstd::prelude::*;

verus! {

/// A message of a conversation.
#[derive(Debug)]
pub struct Message {
    pub role: String,
    pub content: String,
}

impl Message {
    /// A message of the user.
    pub fn user(content: &str) -> (r: Self)
        ensures
            r.role@ == "user"@,
            r.content@ == content@,
    {
        Message { role: "user".to_owned(), content: content.to_owned() }
    }

    /// A message of the assistant.
    pub fn assistant(content: &str) -> (r: Self)
        ensures
            r.role@ == "assistant"@,
            r.content@ == content@,
    {
        Message { role: "assistant".to_owned(), content: content.to_owned() }
    }

    /// A message of the system.
    pub fn system(content: &str) -> (r: Self)
        ensures
            r.role@ == "system"@,
            r.content@ == content@,
    {
        Message { role: "system".to_owned(), content: content.to_owned() }
    }
}

/// A chat request.
#[derive(Debug)]
pub struct ChatCompletionRequest {
    /// The alias of the model.
    pub model: String,
    pub messages: Vec<Message>,
    /// The most tokens that the answer may have.
    pub max_tokens: Option<u32>,
    /// Whether the answer is to come as a stream.
    pub stream: Option<bool>,
}

/// An embedding request.
#[derive(Debug)]
pub struct EmbeddingRequest {
    /// The alias of the model.
    pub model: Option<String>,
}

} // verus!
