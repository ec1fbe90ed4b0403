use aicommit::errors::{classify_provider_error, normalize_provider_error, AicError};

#[test]
fn context_overflow_maps_to_too_many_tokens() {
    let error = normalize_provider_error(
        "openai",
        "gpt-4o",
        Some(400),
        r#"{"error":{"type":"invalid_request_error","message":"This model's maximum context length is 128000 tokens."}}"#,
    );
    assert!(matches!(error, AicError::TooManyTokens));
}

#[test]
fn payload_too_large_status_maps_to_too_many_tokens() {
    let error = normalize_provider_error("anthropic", "sonnet", Some(413), "Payload Too Large");
    assert!(matches!(error, AicError::TooManyTokens));
}

#[test]
fn context_window_body_is_not_reported_as_missing_model() {
    let error = normalize_provider_error(
        "openai",
        "gpt-4o",
        Some(400),
        "invalid_request_error: the request exceeds the model context window",
    );
    assert!(matches!(error, AicError::TooManyTokens));
}

#[test]
fn missing_model_is_still_detected() {
    let error = normalize_provider_error(
        "ollama",
        "llama3",
        Some(404),
        "model 'llama3' not found, try pulling it first",
    );
    assert!(matches!(error, AicError::ModelNotFound { .. }));
}

#[test]
fn status_codes_map_to_their_errors() {
    assert!(matches!(normalize_provider_error("p", "m", Some(401), ""), AicError::Authentication(p) if p == "p"));
    assert!(matches!(normalize_provider_error("p", "m", Some(402), ""), AicError::InsufficientCredits(_)));
    assert!(matches!(normalize_provider_error("p", "m", Some(429), ""), AicError::RateLimited(_)));
    assert!(matches!(normalize_provider_error("p", "m", Some(503), ""), AicError::ServiceUnavailable(p) if p == "p"));
}

#[test]
fn bodies_map_to_their_errors() {
    assert!(matches!(normalize_provider_error("p", "m", None, "Invalid API Key"), AicError::Authentication(_)));
    assert!(matches!(normalize_provider_error("p", "m", Some(400), "Rate Limit reached"), AicError::RateLimited(_)));
    assert!(matches!(normalize_provider_error("p", "m", Some(400), "out of QUOTA"), AicError::InsufficientCredits(_)));
    assert!(matches!(normalize_provider_error("p", "m", Some(400), "Model does not exist"), AicError::ModelNotFound { .. }));
}

#[test]
fn unknown_failure_keeps_provider_and_body() {
    let error = normalize_provider_error("groq", "x", Some(400), "Something odd");
    match error {
        AicError::ServiceUnavailable(detail) => assert_eq!(detail, "groq: Something odd"),
        other => panic!("unexpected {other:?}"),
    }
}

#[test]
fn lowercasing_matters_for_body_matching() {
    // The body is matched after lower-casing: "CONTEXT LENGTH" counts.
    let error = normalize_provider_error("p", "m", Some(400), "CONTEXT LENGTH exceeded");
    assert!(matches!(error, AicError::TooManyTokens));
    // Without lower-casing the same body would not match.
    let raw = classify_provider_error("p", "m", Some(400), "CONTEXT LENGTH exceeded", "CONTEXT LENGTH exceeded");
    assert!(matches!(raw, AicError::ServiceUnavailable(_)));
}

#[test]
fn context_overflow_wins_over_missing_model_on_404() {
    let error = normalize_provider_error("p", "m", Some(404), "model context window exceeded; model not found");
    assert!(matches!(error, AicError::TooManyTokens));
}

#[test]
fn error_messages_read_as_shown() {
    assert_eq!(AicError::UnsupportedConfigKey("X".into()).message(), "unsupported config key: X");
    assert_eq!(
        AicError::InvalidConfigValue { key: "K".into(), message: "bad".into() }.message(),
        "invalid value for K: bad"
    );
    assert_eq!(AicError::NoChanges.message(), "no changes detected");
    assert_eq!(AicError::NotGitRepository.message(), "not a git repository");
    assert_eq!(AicError::MissingApiKey("openai".into()).message(), "API key is missing for provider 'openai'");
    assert_eq!(
        AicError::ModelNotFound { provider: "ollama".into(), model: "llama3".into() }.message(),
        "model 'llama3' is not available for provider 'ollama'"
    );
    assert_eq!(AicError::Authentication("p".into()).message(), "authentication failed for provider 'p'");
    assert_eq!(AicError::RateLimited("p".into()).message(), "rate limit exceeded for provider 'p'");
    assert_eq!(AicError::InsufficientCredits("p".into()).message(), "insufficient credits or quota for provider 'p'");
    assert_eq!(AicError::ServiceUnavailable("p".into()).message(), "service unavailable for provider 'p'");
    assert_eq!(AicError::EmptyMessage.message(), "AI provider returned an empty response");
    assert_eq!(
        AicError::TooManyTokens.message(),
        "diff is too large for the configured token limits - raise AIC_TOKENS_MAX_INPUT or exclude bulky files via .aicommitignore"
    );
}
