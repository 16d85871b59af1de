use codeatlas::enrich::messages::{auth_headers, response_text, ApiMessage, ClaudeProvider, Credentials, DEFAULT_MODEL, OAUTH_BETA};

#[test]
fn the_default_model_is_claude_opus_5_and_the_flag_overrides_it() {
    assert_eq!(ClaudeProvider::new(None).model, DEFAULT_MODEL);
    assert_eq!(DEFAULT_MODEL, "opus-5");
    assert_eq!(ClaudeProvider::new(Some("haiku-4-5")).model, "haiku-4-5");
}

#[test]
fn api_keys_and_oauth_tokens_ride_different_headers() {
    let key = auth_headers(&Credentials::ApiKey("sk-ant-x".into()));
    assert_eq!(key, vec![("x-api-key", "sk-ant-x".to_string())]);
    let oauth = auth_headers(&Credentials::OauthToken("tok".into()));
    assert_eq!(
        oauth,
        vec![("authorization", "Bearer tok".to_string()), ("anthropic-beta", OAUTH_BETA.to_string())]
    );
}

fn message(blocks: &[(&str, &str)], stop: Option<&str>) -> ApiMessage {
    ApiMessage {
        content: blocks.iter().map(|(k, t)| (k.to_string(), t.to_string())).collect(),
        stop_reason: stop.map(str::to_string),
    }
}

#[test]
fn a_schema_valid_response_becomes_typed_summaries() {
    let m = message(&[("thinking", ""), ("text", "{\"answers\": []}")], Some("end_turn"));
    assert_eq!(response_text(&m), Ok("{\"answers\": []}".to_string()));
}

#[test]
fn a_refusal_or_truncation_is_an_error_not_a_repair_attempt() {
    let err = response_text(&message(&[], Some("refusal"))).unwrap_err();
    assert!(err.contains("refusal"), "{err}");
    let err = response_text(&message(&[("text", "{\"summaries\": [")], Some("max_tokens"))).unwrap_err();
    assert!(err.contains("max_tokens"), "{err}");
    assert_eq!(
        err,
        "the model stopped with stop_reason \"max_tokens\" instead of completing the structured response"
    );
}

#[test]
fn a_response_without_text_is_an_error() {
    assert_eq!(
        response_text(&message(&[("thinking", "hmm")], None)),
        Err("the Messages API response carries no text content".to_string())
    );
}
