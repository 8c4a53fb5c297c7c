//! Estimate of the tokens of a chat request, for the cap on the context.
//!
//! A message counts one token for every four characters of its content, rounded
//! up, and four tokens for its role and structure. `max_tokens` is added as it
//! is. The estimate errs on the high side: refusing a little early is better than
//! a backend that freezes.
use crate::openai::{ChatCompletionRequest, Message};
use vstd::prelude::*;

verus! {

/// Tokens that a message counts besides its content.
pub const TOKENS_PER_MESSAGE_OVERHEAD: u64 = 4;

/// Characters that count one token.
pub const CHARS_PER_TOKEN: u64 = 4;

/// The tokens of a message of `chars` characters.
pub open spec fn message_tokens(chars: nat) -> nat {
    (chars + CHARS_PER_TOKEN as nat - 1) as nat / CHARS_PER_TOKEN as nat
        + TOKENS_PER_MESSAGE_OVERHEAD as nat
}

/// The tokens of a conversation.
pub open spec fn conversation_tokens(messages: Seq<Message>) -> nat
    decreases messages.len(),
{
    if messages.len() == 0 {
        0
    } else {
        conversation_tokens(messages.drop_last()) + message_tokens(messages.last().content@.len())
    }
}

/// The tokens that an answer may have, where the request says so.
pub open spec fn answer_tokens(max_tokens: Option<u32>) -> nat {
    match max_tokens {
        Some(n) => n as nat,
        None => 0,
    }
}

/// `n`, or the largest `u64` where `n` is larger.
pub open spec fn saturated(n: nat) -> u64 {
    if n <= u64::MAX {
        n as u64
    } else {
        u64::MAX
    }
}

/// Estimates the tokens of a request: those of its messages and those that its
/// answer may have.
#[must_use]
pub fn estimate_total_tokens(request: &ChatCompletionRequest) -> (r: u64)
    ensures
        r == saturated(
            conversation_tokens(request.messages@) + answer_tokens(request.max_tokens),
        ),
{
    let input_tokens: u64 = estimate_input_tokens(request);
    let output_tokens: u64 = match request.max_tokens {
        Some(n) => n as u64,
        None => 0,
    };
    input_tokens.saturating_add(output_tokens)
}

/// Estimates the tokens of the messages of a request.
#[must_use]
pub fn estimate_input_tokens(request: &ChatCompletionRequest) -> (r: u64)
    ensures
        r == saturated(conversation_tokens(request.messages@)),
{
    let messages = &request.messages;
    let mut total: u64 = 0;
    let mut i: usize = 0;
    assert(messages@.take(0) =~= Seq::<Message>::empty());
    while i < messages.len()
        invariant
            i <= messages.len(),
            total == saturated(conversation_tokens(messages@.take(i as int))),
        decreases messages.len() - i,
    {
        let chars: u64 = messages[i].content.as_str().unicode_len() as u64;
        let content_tokens: u64 = chars / CHARS_PER_TOKEN + if chars % CHARS_PER_TOKEN > 0 {
            1
        } else {
            0
        };
        proof {
            let before = messages@.take(i as int);
            let next = messages@.take(i + 1);
            assert(next.drop_last() =~= before);
            assert(next.last() == messages@[i as int]);
        }
        total = total.saturating_add(content_tokens.saturating_add(TOKENS_PER_MESSAGE_OVERHEAD));
        i = i + 1;
    }
    assert(messages@.take(messages@.len() as int) =~= messages@);
    total
}

/// The tokens of a conversation in two parts are those of its parts.
pub proof fn conversations_add_up(first: Seq<Message>, second: Seq<Message>)
    ensures
        conversation_tokens(first + second) == conversation_tokens(first) + conversation_tokens(
            second,
        ),
    decreases second.len(),
{
    if second.len() == 0 {
        assert(first + second =~= first);
    } else {
        assert((first + second).drop_last() =~= first + second.drop_last());
        assert((first + second).last() == second.last());
        conversations_add_up(first, second.drop_last());
    }
}

/// Without `max_tokens` the estimate is that of the messages alone.
pub proof fn no_answer_tokens_without_max_tokens(messages: Seq<Message>)
    ensures
        saturated(conversation_tokens(messages) + answer_tokens(None)) == saturated(
            conversation_tokens(messages),
        ),
{
}

/// A message never counts fewer tokens than a shorter one, and counts at least
/// a token for every four characters.
pub proof fn estimate_is_conservative(chars: nat, more: nat)
    requires
        chars <= more,
    ensures
        message_tokens(chars) <= message_tokens(more),
        CHARS_PER_TOKEN * message_tokens(chars) >= chars,
{
}

/// A message counts four tokens and one for every four characters that it begins.
pub proof fn characters_count_by_fours(quads: nat, rest: nat)
    requires
        1 <= rest <= 3,
    ensures
        message_tokens(4 * quads) == quads + 4,
        message_tokens(4 * quads + rest) == quads + 1 + 4,
{
}

/// Each message adds its tokens, whatever its role and its place; an empty
/// conversation has none.
pub proof fn each_message_counts(messages: Seq<Message>, message: Message)
    ensures
        conversation_tokens(Seq::empty()) == 0,
        conversation_tokens(messages.push(message)) == conversation_tokens(messages) + (
        message.content@.len() + 3) / 4 + 4,
{
    assert(messages.push(message).drop_last() =~= messages);
}

/// The tokens asked for are added as they are, and a total that 64 bits do not hold
/// is the largest that they do.
pub proof fn asked_tokens_are_added(n: nat, asked: u32)
    ensures
        answer_tokens(Some(asked)) == asked,
        answer_tokens(None) == 0,
        n <= 0xffff_ffff_ffff_ffff ==> saturated(n) == n,
        n > 0xffff_ffff_ffff_ffff ==> saturated(n) == 0xffff_ffff_ffff_ffffu64,
{
}

} // verus!
