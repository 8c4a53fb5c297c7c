use axum::http::{HeaderMap, HeaderValue};
use llm_free_gateway_v2::auth::{authorize, bearer_auth};

fn with_authorization(value: &[u8]) -> HeaderMap {
    let mut headers = HeaderMap::new();
    headers.insert("Authorization", HeaderValue::from_bytes(value).unwrap());
    headers
}

fn ask(path: &str, token: Option<&str>, authorization: Option<&str>) -> Result<(), u16> {
    let headers = match authorization {
        Some(value) => with_authorization(value.as_bytes()),
        None => HeaderMap::new(),
    };
    bearer_auth(path, token, &headers)
}

#[test]
fn test_health_always_public_no_auth_configured() {
    assert_eq!(ask("/health", None, None), Ok(()));
}

#[test]
fn test_health_always_public_with_auth_configured() {
    assert_eq!(ask("/health", Some("secret123"), None), Ok(()));
}

#[test]
fn test_no_auth_configured_allows_all() {
    assert_eq!(ask("/v1/models", None, None), Ok(()));
}

#[test]
fn test_correct_token_allows() {
    assert_eq!(ask("/v1/models", Some("secret123"), Some("Bearer secret123")), Ok(()));
}

#[test]
fn test_wrong_token_returns_401() {
    assert_eq!(ask("/v1/models", Some("secret123"), Some("Bearer wrongtoken")), Err(401));
}

#[test]
fn test_missing_token_returns_401() {
    assert_eq!(ask("/v1/models", Some("secret123"), None), Err(401));
}

#[test]
fn test_malformed_auth_header_returns_401() {
    assert_eq!(ask("/v1/models", Some("secret123"), Some("Basic secret123")), Err(401));
}

#[test]
fn test_token_different_length_returns_401() {
    assert_eq!(ask("/v1/models", Some("secret123"), Some("Bearer secret")), Err(401));
    assert_eq!(ask("/v1/models", Some("secret123"), Some("Bearer secret123extra")), Err(401));
}

#[test]
fn test_auth_health_always_public() {
    assert_eq!(ask("/health", Some("secret123"), None), Ok(()));
}

#[test]
fn test_auth_models_without_token_returns_401() {
    assert_eq!(ask("/v1/models", Some("secret123"), None), Err(401));
}

#[test]
fn test_auth_models_with_correct_token_returns_200() {
    assert_eq!(ask("/v1/models", Some("secret123"), Some("Bearer secret123")), Ok(()));
}

#[test]
fn test_auth_models_with_wrong_token_returns_401() {
    assert_eq!(ask("/v1/models", Some("secret123"), Some("Bearer wrongtoken")), Err(401));
}

#[test]
fn test_auth_metrics_protected() {
    assert_eq!(ask("/metrics", Some("mytoken"), None), Err(401));
    assert_eq!(ask("/metrics", Some("mytoken"), Some("Bearer mytoken")), Ok(()));
}

#[test]
fn only_the_exact_path_is_public() {
    assert_eq!(ask("/health/", Some("t"), None), Err(401));
    assert_eq!(ask("/Health", Some("t"), None), Err(401));
    assert_eq!(ask("", Some("t"), None), Err(401));
}

#[test]
fn the_scheme_is_case_sensitive_and_one_space_follows() {
    assert!(!authorize("/metrics", Some("t"), Some("bearer t")));
    assert!(!authorize("/metrics", Some("t"), Some("Bearer  t")));
    assert!(!authorize("/metrics", Some("t"), Some("Bearer")));
    assert!(authorize("/metrics", Some("t"), Some("Bearer t")));
    assert!(authorize("/metrics", Some(""), Some("Bearer ")));
}

#[test]
fn a_header_that_is_no_text_is_no_token() {
    assert_eq!(
        bearer_auth("/metrics", Some("t"), &with_authorization(b"Bearer t\xe9")),
        Err(401)
    );
    assert_eq!(bearer_auth("/metrics", Some("t"), &with_authorization(b"Bearer t")), Ok(()));
    assert!(authorize("/metrics", Some("jeton-é"), Some("Bearer jeton-é")));
    assert!(!authorize("/metrics", Some("jeton-é"), Some("Bearer jeton-e")));
}
