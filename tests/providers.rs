use honeybeepf::providers::{ProviderConfig, ProviderRegistry, RequestExtractorType, ResponseConfig};
use honeybeepf::usage::{extract_request_text, get_nested_value, parse_response_json};

#[test]
fn test_default_providers() {
    let registry = ProviderRegistry::with_defaults();
    assert_eq!(registry.providers.len(), 3);
}

#[test]
fn test_find_provider() {
    let registry = ProviderRegistry::with_defaults();

    let openai = registry.find_provider("api.openai.com", "/v1/chat/completions");
    assert!(openai.is_some());
    assert_eq!(openai.unwrap().name, "openai");

    let gemini = registry.find_provider(
        "generativelanguage.googleapis.com",
        "/v1/models/gemini:generateContent",
    );
    assert!(gemini.is_some());
    assert_eq!(gemini.unwrap().name, "gemini");
}

fn openai_config() -> ProviderConfig {
    ProviderConfig {
        name: "openai".to_string(),
        hosts: vec!["api.openai.com".to_string()],
        paths: vec!["/chat/completions".to_string()],
        response: ResponseConfig {
            usage_path: "usage".to_string(),
            prompt_tokens: "prompt_tokens".to_string(),
            completion_tokens: "completion_tokens".to_string(),
            thoughts_tokens: None,
            model_path: "model".to_string(),
        },
        request_extractor: RequestExtractorType::Messages,
    }
}

fn gemini_config() -> ProviderConfig {
    ProviderConfig {
        name: "gemini".to_string(),
        hosts: vec!["generativelanguage.googleapis.com".to_string()],
        paths: vec!["generateContent".to_string()],
        response: ResponseConfig {
            usage_path: "usageMetadata".to_string(),
            prompt_tokens: "promptTokenCount".to_string(),
            completion_tokens: "candidatesTokenCount".to_string(),
            thoughts_tokens: Some("thoughtsTokenCount".to_string()),
            model_path: "modelVersion".to_string(),
        },
        request_extractor: RequestExtractorType::Contents,
    }
}

#[test]
fn test_openai_matching() {
    let provider = openai_config();
    assert!(provider.matches("api.openai.com", "/v1/chat/completions"));
    assert!(!provider.matches("api.anthropic.com", "/v1/messages"));
}

#[test]
fn test_openai_parse_usage() {
    let provider = openai_config();
    let response = br#"{"id":"chatcmpl-123","model":"gpt-4","usage":{"prompt_tokens":10,"completion_tokens":20,"total_tokens":30}}"#;
    let usage = provider.parse_usage(response).unwrap();
    assert_eq!(usage.prompt_tokens, 10);
    assert_eq!(usage.completion_tokens, 20);
    assert_eq!(usage.model, Some("gpt-4".to_string()));
}

#[test]
fn test_gemini_parse_usage() {
    let provider = gemini_config();
    let response = br#"{"candidates":[{"content":{"parts":[{"text":"Hello!"}]}}],"usageMetadata":{"promptTokenCount":15,"candidatesTokenCount":25,"thoughtsTokenCount":100},"modelVersion":"gemini-1.5-pro"}"#;
    let usage = provider.parse_usage(response).unwrap();
    assert_eq!(usage.prompt_tokens, 15);
    assert_eq!(usage.completion_tokens, 25);
    assert_eq!(usage.thoughts_tokens, Some(100));
    assert_eq!(usage.model, Some("gemini-1.5-pro".to_string()));
}

#[test]
fn test_extract_request_text() {
    let provider = openai_config();
    let request = br#"{"model":"gpt-4","messages":[{"role":"user","content":"Hello, world!"}]}"#;
    let text = extract_request_text(&provider.request_extractor, request);
    assert_eq!(text, "Hello, world!");
}

#[test]
fn test_nested_path() {
    let json = br#"{"outer":{"inner":{"value":42}}}"#;
    let value = get_nested_value(json, "outer.inner.value").unwrap();
    assert_eq!(value, b"42".to_vec());
}

#[test]
fn test_messages_extractor() {
    let json = br#"{"messages":[{"role":"user","content":"Hello"},{"role":"assistant","content":"Hi there"},{"role":"user","content":"How are you?"}]}"#;
    let result = extract_request_text(&RequestExtractorType::Messages, json);
    assert_eq!(result, "Hello Hi there How are you?");
}

#[test]
fn test_messages_extractor_with_content_blocks() {
    let json = br#"{"messages":[{"role":"user","content":[{"type":"text","text":"What's in this image?"},{"type":"image_url","image_url":{"url":"..."}}]}]}"#;
    let result = extract_request_text(&RequestExtractorType::Messages, json);
    assert_eq!(result, "What's in this image?");
}

#[test]
fn test_contents_extractor() {
    let json = br#"{"contents":[{"parts":[{"text":"Hello from Gemini"}]}]}"#;
    let result = extract_request_text(&RequestExtractorType::Contents, json);
    assert_eq!(result, "Hello from Gemini");
}

#[test]
fn test_prompt_extractor() {
    let json = br#"{"prompt":"Complete this sentence:"}"#;
    let result = extract_request_text(&RequestExtractorType::Prompt, json);
    assert_eq!(result, "Complete this sentence:");
}

#[test]
fn skip_extractor_finds_nothing() {
    let json = br#"{"prompt":"ignored"}"#;
    assert_eq!(extract_request_text(&RequestExtractorType::Skip, json), "");
    assert!(!openai_config().detect_request(br#"{"prompt":"x"}"#));
    assert!(openai_config().detect_request(br#"{"messages":[{"content":"x"}]}"#));
}

#[test]
fn empty_pattern_lists_match_anything() {
    let mut cfg = openai_config();
    cfg.hosts = Vec::new();
    cfg.paths = Vec::new();
    assert!(cfg.matches("", ""));
    let registry = ProviderRegistry::with_defaults();
    assert!(registry.find_provider("example.com", "/v1/chat/completions").is_none());
    assert_eq!(registry.find_provider("api.anthropic.com", "/v1/messages").unwrap().name, "anthropic");
    assert!(registry.is_llm_path("POST /v1/messages"));
    assert!(!registry.is_llm_path("GET /index.html"));
}

#[test]
fn error_member_is_a_failed_exchange() {
    let registry = ProviderRegistry::with_defaults();
    let usage = parse_response_json(&registry, br#"{"error":{"message":"bad"}}"#).unwrap();
    assert_eq!(usage.prompt_tokens, 0);
    assert_eq!(usage.completion_tokens, 0);
    assert_eq!(usage.model, None);
    assert!(parse_response_json(&registry, br#"{"model":"gpt-4"}"#).is_none());
    assert!(parse_response_json(&registry, b"not json").is_none());
}

#[test]
fn missing_count_fails_parse() {
    let provider = openai_config();
    assert!(provider.parse_usage(br#"{"usage":{"prompt_tokens":1}}"#).is_none());
    assert!(provider.parse_usage(br#"{"usage":{"prompt_tokens":"1","completion_tokens":2}}"#).is_none());
}
