use llm_free_gateway_v2::openai::{ChatCompletionRequest, Message};
use llm_free_gateway_v2::token_counter::{
    estimate_input_tokens, estimate_total_tokens, CHARS_PER_TOKEN, TOKENS_PER_MESSAGE_OVERHEAD,
};

fn make_request(messages: Vec<Message>, max_tokens: Option<u32>) -> ChatCompletionRequest {
    ChatCompletionRequest { model: "test-model".to_string(), messages, max_tokens, stream: None }
}

#[test]
fn test_vide_retourne_zero_input() {
    let req = make_request(vec![], None);
    assert_eq!(estimate_input_tokens(&req), 0);
}

#[test]
fn test_message_simple_calcul_correct() {
    let content = "a".repeat(40);
    let req = make_request(vec![Message::user(&content)], None);
    let tokens = estimate_input_tokens(&req);
    assert_eq!(tokens, 14, "40 chars / 4 + 4 overhead = 14");
}

#[test]
fn test_max_tokens_ajoute_au_total() {
    let content = "a".repeat(40);
    let req = make_request(vec![Message::user(&content)], Some(100));
    let total = estimate_total_tokens(&req);
    assert_eq!(total, 114, "14 input + 100 max_tokens = 114");
}

#[test]
fn test_plusieurs_messages_cumules() {
    let req = make_request(
        vec![Message::user(&"a".repeat(40)), Message::assistant(&"b".repeat(80))],
        None,
    );
    let tokens = estimate_input_tokens(&req);
    assert_eq!(tokens, 38, "14 + 24 = 38");
}

#[test]
fn test_precision_heuristique_sur_texte_fr_en() {
    let content = "Voici une phrase en français. Here is an English sentence. \
                   Les modèles de langage sont fascinants. \
                   Language models are fascinating and complex. Merci !";
    let chars = content.chars().count() as u64;
    let req = make_request(vec![Message::user(content)], None);
    let estimated = estimate_input_tokens(&req);
    let expected = chars.div_ceil(CHARS_PER_TOKEN) + TOKENS_PER_MESSAGE_OVERHEAD;
    assert_eq!(estimated, expected);
    assert!(
        estimated > 40 && estimated < 100,
        "estimate {} is out of range for {} chars",
        estimated,
        chars
    );
}

#[test]
fn test_sans_max_tokens_total_egale_input() {
    let req = make_request(vec![Message::user("bonjour")], None);
    assert_eq!(estimate_total_tokens(&req), estimate_input_tokens(&req));
}

#[test]
fn test_saturation_pas_de_panique_sur_grandes_valeurs() {
    let content = "x".repeat(1_000_000);
    let req = make_request(vec![Message::user(&content)], Some(u32::MAX));
    assert_eq!(estimate_total_tokens(&req), 250_004 + u32::MAX as u64);
}

#[test]
fn test_system_message_comptabilise() {
    let req = make_request(
        vec![Message::system(&"s".repeat(400)), Message::user(&"u".repeat(40))],
        None,
    );
    let tokens = estimate_input_tokens(&req);
    assert_eq!(tokens, 118, "104 + 14 = 118");
}

#[test]
fn tokens_are_rounded_up_and_characters_are_not_bytes() {
    let tokens = |content: &str| estimate_input_tokens(&make_request(vec![Message::user(content)], None));
    assert_eq!(tokens(""), 4);
    assert_eq!(tokens("a"), 5);
    assert_eq!(tokens("abcd"), 5);
    assert_eq!(tokens("abcde"), 6);
    assert_eq!(tokens("éééé"), 5);
}

#[test]
fn max_tokens_of_zero_adds_nothing() {
    let req = make_request(vec![Message::user("abcd")], Some(0));
    assert_eq!(estimate_total_tokens(&req), 5);
}
