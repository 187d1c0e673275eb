use openai_codex::auth::{
    accept_lookup, build_headers, resolve_credentials, AuthError, Credentials,
};
use openai_codex::endpoint::EndpointError;
use openai_codex::input::{build_responses_input, ChatMessage};
use openai_codex::json::Json;
use openai_codex::options::{Environment, ProviderRuntimeOptions};
use openai_codex::provider::OpenAiCodexProvider;
use openai_codex::request::build_request;

fn text(s: &str) -> Option<String> {
    Some(s.to_string())
}

fn value<'a>(headers: &'a [(String, String)], name: &str) -> Option<&'a str> {
    headers.iter().find(|(n, _)| n == name).map(|(_, v)| v.as_str())
}

#[test]
fn constructor_enables_custom_endpoint_key_mode() {
    let options = ProviderRuntimeOptions {
        provider_api_url: Some("https://api.tonsof.blue/v1".to_string()),
        ..ProviderRuntimeOptions::default()
    };

    let provider =
        OpenAiCodexProvider::new(&options, &Environment::default(), Some("test-key")).unwrap();
    assert!(provider.custom_endpoint);
    assert_eq!(provider.gateway_api_key.as_deref(), Some("test-key"));
    assert!(provider.uses_gateway_api_key());
}

#[test]
fn capabilities_includes_vision() {
    let options = ProviderRuntimeOptions {
        provider_api_url: None,
        zeroclaw_dir: None,
        secrets_encrypt: false,
        auth_profile_override: None,
        reasoning_effort: None,
    };
    let provider = OpenAiCodexProvider::new(&options, &Environment::default(), None)
        .expect("provider should initialize");
    let caps = provider.capabilities();

    assert!(!caps.native_tool_calling);
    assert!(caps.vision);
}

#[test]
fn supports_streaming_returns_true() {
    let options = ProviderRuntimeOptions::default();
    let provider = OpenAiCodexProvider::new(&options, &Environment::default(), None).unwrap();
    assert!(provider.supports_streaming());
}

#[test]
fn the_constructor_keeps_what_is_configured() {
    let options = ProviderRuntimeOptions {
        auth_profile_override: text("work"),
        reasoning_effort: text("low"),
        ..ProviderRuntimeOptions::default()
    };
    let provider =
        OpenAiCodexProvider::new(&options, &Environment::default(), Some("key")).unwrap();
    assert_eq!(provider.auth_profile_override.as_deref(), Some("work"));
    assert_eq!(provider.reasoning_effort.as_deref(), Some("low"));
    assert_eq!(provider.responses_url, "https://chatgpt.com/backend-api/codex/responses");
    assert!(!provider.custom_endpoint);
    assert!(!provider.uses_gateway_api_key());
}

#[test]
fn the_constructor_refuses_a_bad_endpoint() {
    let options = ProviderRuntimeOptions {
        provider_api_url: text("ws://example.com"),
        ..ProviderRuntimeOptions::default()
    };
    let err = OpenAiCodexProvider::new(&options, &Environment::default(), None).unwrap_err();
    assert_eq!(err, EndpointError::UnsupportedScheme);
}

#[test]
fn the_default_endpoint_is_not_shown_the_key() {
    let credentials = Credentials { access_token: text("token"), account_id: text("acct") };
    let options = ProviderRuntimeOptions::default();
    let with = OpenAiCodexProvider::new(&options, &Environment::default(), Some("key")).unwrap();
    let without = OpenAiCodexProvider::new(&options, &Environment::default(), None).unwrap();
    assert_eq!(with.headers(&credentials), without.headers(&credentials));
    assert_eq!(value(&with.headers(&credentials), "Authorization"), Some("Bearer token"));
}

#[test]
fn headers_without_a_gateway() {
    let credentials = Credentials { access_token: text("token"), account_id: text("acct") };
    let headers = build_headers(false, Some("key"), &credentials);
    let expected: Vec<(String, String)> = [
        ("Authorization", "Bearer token"),
        ("OpenAI-Beta", "responses=experimental"),
        ("originator", "pi"),
        ("accept", "text/event-stream"),
        ("Content-Type", "application/json"),
        ("chatgpt-account-id", "acct"),
    ]
    .iter()
    .map(|(n, v)| (n.to_string(), v.to_string()))
    .collect();
    assert_eq!(headers, expected);
}

#[test]
fn headers_with_a_gateway() {
    let credentials = Credentials { access_token: text("token"), account_id: text("acct") };
    let headers = build_headers(true, Some("key"), &credentials);
    assert_eq!(headers.len(), 8);
    assert_eq!(value(&headers, "Authorization"), Some("Bearer key"));
    assert_eq!(value(&headers, "chatgpt-account-id"), Some("acct"));
    assert_eq!(value(&headers, "x-openai-access-token"), Some("token"));
    assert_eq!(value(&headers, "x-openai-account-id"), Some("acct"));

    let none = Credentials { access_token: None, account_id: None };
    assert_eq!(build_headers(true, Some("key"), &none).len(), 5);
}

#[test]
fn credentials_need_a_token_and_an_account() {
    let err = resolve_credentials(false, text("acct"), None, None).unwrap_err();
    assert_eq!(err, AuthError::ProfileNotFound);
    assert_eq!(
        err.message(),
        "OpenAI Codex auth profile not found. Run `zeroclaw auth login --provider openai-codex`."
    );
    let err = resolve_credentials(false, None, text("token"), None).unwrap_err();
    assert_eq!(err, AuthError::AccountNotFound);
    assert_eq!(
        err.message(),
        "OpenAI Codex account id not found in auth profile/token. Run `zeroclaw auth login --provider openai-codex` again."
    );
}

#[test]
fn the_profile_names_the_account_before_the_token_does() {
    let found = resolve_credentials(false, text("a"), text("token"), text("b")).unwrap();
    assert_eq!(found.account_id.as_deref(), Some("a"));
    assert_eq!(found.access_token.as_deref(), Some("token"));
    let found = resolve_credentials(false, None, text("token"), text("b")).unwrap();
    assert_eq!(found.account_id.as_deref(), Some("b"));
}

#[test]
fn a_gateway_does_without_credentials() {
    let found = resolve_credentials(true, None, None, text("b")).unwrap();
    assert_eq!(found.access_token, None);
    assert_eq!(found.account_id, None);
}

#[test]
fn a_failed_lookup_finds_nothing_behind_a_gateway() {
    assert_eq!(accept_lookup::<u8, &str>(true, Err("locked")), Ok(None));
    assert_eq!(accept_lookup::<u8, &str>(false, Err("locked")), Err("locked"));
    assert_eq!(accept_lookup::<u8, &str>(true, Ok(Some(1))), Ok(Some(1)));
    assert_eq!(accept_lookup::<u8, &str>(false, Ok(None)), Ok(None));
}

#[test]
fn a_request_asks_for_a_stream() {
    let (instructions, input) = build_responses_input(&[ChatMessage::user("Hi")]);
    let request = build_request("openai/gpt-5-codex", input, instructions, None, Some("Minimal"));
    let json = request.to_json();
    assert_eq!(json.str_at("model"), Some("gpt-5-codex"));
    assert!(matches!(json.get("store"), Some(Json::Bool(false))));
    assert!(matches!(json.get("stream"), Some(Json::Bool(true))));
    assert!(matches!(json.get("parallel_tool_calls"), Some(Json::Bool(true))));
    assert_eq!(json.str_at("tool_choice"), Some("auto"));
    assert_eq!(json.get("text").unwrap().str_at("verbosity"), Some("medium"));
    assert_eq!(json.get("reasoning").unwrap().str_at("effort"), Some("low"));
    assert_eq!(json.get("reasoning").unwrap().str_at("summary"), Some("auto"));
    assert_eq!(
        json.str_at("instructions"),
        Some("You are ZeroClaw, a concise and helpful coding assistant.")
    );
    match (json.get("include"), json.get("input")) {
        (Some(Json::Array(parts)), Some(Json::Array(turns))) => {
            assert_eq!(parts.len(), 1);
            assert_eq!(parts[0].as_str(), Some("reasoning.encrypted_content"));
            assert_eq!(turns.len(), 1);
            assert_eq!(turns[0].str_at("role"), Some("user"));
        }
        other => panic!("no lists: {:?}", other),
    }
}

#[test]
fn a_provider_asks_for_its_configured_effort() {
    let options = ProviderRuntimeOptions {
        reasoning_effort: text("HIGH"),
        ..ProviderRuntimeOptions::default()
    };
    let provider = OpenAiCodexProvider::new(&options, &Environment::default(), None).unwrap();
    let request = provider.request("gpt-5.3-codex", vec![], "Go".to_string(), Some("low"));
    assert_eq!(request.reasoning.effort, "high");
    assert_eq!(request.instructions, "Go");
}

#[test]
fn the_careful_constructor_makes_the_same_provider() {
    let options = ProviderRuntimeOptions {
        provider_api_url: text("https://api.tonsof.blue/v1"),
        ..ProviderRuntimeOptions::default()
    };
    let environment = Environment::default();
    let made = OpenAiCodexProvider::try_new(&options, &environment, Some("key")).unwrap().unwrap();
    assert_eq!(made.responses_url, "https://api.tonsof.blue/v1/responses");
    assert!(made.uses_gateway_api_key());
}
