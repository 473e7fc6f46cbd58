use kxen_core::auth::{credential_for, AuthStore, CredentialKind};
use kxen_core::config::{Config, CustomProviderDef};
use kxen_core::json::Json;
use kxen_core::llm::client::{
    format_http_error, http_error_detail, validate_custom_dispatch, CustomChecks, LlmClient, Route,
};
use kxen_core::llm::managed::{ManagedError, ManagedErrorKind, ManagedOutput, TokenUsage};
use kxen_core::llm::models::{conclude, listed_models, models_request, probe_request, ModelsAuth, Reply};
use kxen_core::llm::mrm::manager::ModelResourceManager;
use kxen_core::llm::types::ModelRef;
use kxen_core::llm::verify::{
    claim_failed, marker_failed, outcome, store_with_temp_cred, verification_model, Probe, ProbeStep,
};
use kxen_core::providers::{AuthKind, ProviderSpec, WireProtocol};

fn api(key: &str) -> CredentialKind {
    CredentialKind::Api { key: key.into(), region: None }
}

fn custom(name: &str, base_url: &str, model: &str) -> Config {
    let mut config = Config::new();
    config.custom_providers.insert(
        name,
        CustomProviderDef {
            base_url: base_url.into(),
            protocol: "openai".into(),
            models: vec![model.into()],
            capabilities: vec!["text".into()],
        },
    );
    config
}

fn sound() -> CustomChecks {
    CustomChecks { endpoint: Ok(()), auth: Ok(()) }
}

fn xai() -> Vec<ProviderSpec> {
    vec![ProviderSpec {
        key: "xai".into(),
        display: "xAI".into(),
        auth: AuthKind::ApiKey,
        protocol: WireProtocol::OpenAi,
        models_dev: None,
        default_model: "grok-build-0.1".into(),
        static_models: vec![],
    }]
}

fn model(provider: &str) -> ModelRef {
    ModelRef { provider: provider.into(), model: "model".into(), account: None }
}

#[test]
fn custom_provider_named_account_uses_the_named_credential() {
    let mut store = AuthStore::new();
    store.insert("custom:lab", api("default-key"));
    store.insert("custom:lab:work", api("work-key"));
    let credential = credential_for(&store, "custom:lab", &Some("work".to_string()));
    assert!(matches!(credential, Some(CredentialKind::Api { key, .. }) if key == "work-key"));
}

#[test]
fn custom_dispatch_rejects_invalid_endpoint_and_header_before_request() {
    let endpoint = CustomChecks { endpoint: Err("missing host".into()), auth: Ok(()) };
    assert!(validate_custom_dispatch(&endpoint).unwrap_err().contains("base_url"));
    let header = CustomChecks { endpoint: Ok(()), auth: Err("invalid header value".into()) };
    assert!(validate_custom_dispatch(&header).unwrap_err().contains("header"));
    assert!(validate_custom_dispatch(&sound()).is_ok());
}

#[test]
fn custom_dispatch_uses_workspace_mrm_definition() {
    let mrm = ModelResourceManager::new(custom("workspace", "https://workspace.example/v1", "model"));
    let mut store = AuthStore::new();
    store.insert("custom:workspace", api("workspace-key"));
    let registry = xai();
    LlmClient::validate_dispatch_in(&model("custom:workspace"), &store, false, &mrm, &registry, &sound())
        .expect("the workspace's provider is known");
    let unknown = ModelResourceManager::new(Config::new());
    assert!(LlmClient::validate_dispatch_in(&model("custom:workspace"), &store, false, &unknown, &registry, &sound())
        .is_err());
    assert!(LlmClient::validate_dispatch_in(&model("nobody"), &store, true, &unknown, &registry, &sound()).is_ok());
}

#[test]
fn what_may_be_dispatched_has_a_route() {
    let mrm = ModelResourceManager::new(Config::new());
    let mut store = AuthStore::new();
    let registry = xai();
    assert!(LlmClient::validate_dispatch_in(&model("xai"), &store, false, &mrm, &registry, &sound()).is_err());
    store.insert("xai", api("k"));
    assert!(LlmClient::validate_dispatch_in(&model("xai"), &store, false, &mrm, &registry, &sound()).is_ok());
    let route = LlmClient::route(&model("xai"), &store, &mrm, &registry, None, "https://api.x.ai/v1/chat".into());
    assert!(matches!(route, Ok(Route::Compatible { url, bearer }) if url == "https://api.x.ai/v1/chat" && bearer == "k"));
}

#[test]
fn http_error_extracts_type_and_message() {
    let body = r#"{"type":"error","error":{"type":"authentication_error","message":"OAuth access token has been revoked"}}"#;
    assert_eq!(
        format_http_error("anthropic", 401, &http_error_detail(body)),
        "anthropic HTTP 401: authentication_error - OAuth access token has been revoked"
    );
}

#[test]
fn http_error_non_json_falls_back_to_truncated_body() {
    assert_eq!(
        format_http_error("xai", 502, &http_error_detail("<html>gateway error</html>")),
        "xai HTTP 502: <html>gateway error</html>"
    );
    let long = "x".repeat(400);
    let out = format_http_error("xai", 502, &http_error_detail(&long));
    assert_eq!(out.len(), "xai HTTP 502: ".len() + 300);
}

#[test]
fn http_error_multiline_message_collapsed() {
    let body = "{\"error\":{\"type\":\"rate_limit_error\",\"message\":\"line1\\nline2\"}}";
    let out = format_http_error("openai", 429, &http_error_detail(body));
    assert_eq!(out, "openai HTTP 429: rate_limit_error - line1 line2");
}

#[test]
fn temp_cred_lands_in_clone_only() {
    let mut store = AuthStore::new();
    store.insert("kimi:work", api("old"));
    let probed = store_with_temp_cred(&store, "kimi", "work", "api", "new-key", "", 0, Some("intl"));
    assert!(matches!(
        probed.get("kimi:work"),
        Some(CredentialKind::Api { key, region }) if key == "new-key" && region.as_deref() == Some("intl")
    ));
    assert!(matches!(store.get("kimi:work"), Some(CredentialKind::Api { key, .. }) if key == "old"));
    let probed = store_with_temp_cred(&store, "anthropic", "default", "oauth", "tok", "ref", 123, None);
    assert!(matches!(
        probed.get("anthropic"),
        Some(CredentialKind::Oauth { access, refresh, expires, .. })
            if access == "tok" && refresh == "ref" && *expires == 123
    ));
}

#[test]
fn custom_verification_model_comes_from_the_supplied_mrm() {
    let registry = xai();
    let mrm = ModelResourceManager::new(custom(
        "workspace_verify_test",
        "https://workspace.example/v1",
        "workspace-model",
    ));
    let name = "custom:workspace_verify_test";
    assert_eq!(verification_model(&mrm, name, None, &registry).unwrap(), "workspace-model");
    assert_eq!(verification_model(&mrm, name, Some("override"), &registry).unwrap(), "override");
    let empty = ModelResourceManager::new(Config::new());
    assert!(verification_model(&empty, name, None, &registry).unwrap_err().contains("not configured"));
    assert_eq!(verification_model(&empty, "xai", None, &registry).unwrap(), "grok-build-0.1");
}

#[test]
fn probe_attempt_settles_known_unknown_and_unstarted_paths() {
    let usage = TokenUsage { input: 2, output: 3 };
    let output = ManagedOutput { text: "ok".into(), usage: Some(usage), metering_warning: None };
    let known = Probe::new(Ok(output), true);
    assert_eq!(known.step(), ProbeStep::Observe(usage));
    assert_eq!(known.on_settled(Ok(None)), None);

    let failed = |started: bool, message: &str, kind: ManagedErrorKind| {
        let error = ManagedError {
            kind,
            message: message.into(),
            request_started: started,
            usage_reported: false,
            usage: None,
            metering_warning: None,
        };
        Probe::new(Err(error), false)
    };
    let unknown = failed(true, "remote failed", ManagedErrorKind::Provider);
    assert_eq!(unknown.step(), ProbeStep::Settle);
    assert_eq!(unknown.on_settled(Ok(None)), Some("remote failed".to_string()));
    assert_eq!(unknown.on_settled(Ok(Some("budget spent".into()))), Some("remote failed\nbudget spent".to_string()));

    let local = failed(false, "invalid", ManagedErrorKind::Local);
    assert_eq!(local.step(), ProbeStep::Discard);
    assert_eq!(local.on_discarded(Ok(None)), Some("invalid".to_string()));

    let shown = outcome(Some("invalid".into()), 12);
    assert!(!shown.ok && shown.detail == "invalid" && shown.latency_ms == 12);
    assert_eq!(outcome(None, 3).detail, "live ok");
    assert_eq!(
        known.on_observe_failed("disk"),
        "probe usage checkpoint failed: disk"
    );
    assert!(claim_failed("x").ends_with("claim failed: x"));
    assert!(marker_failed("x").ends_with("marker failed: x"));
}

fn item(key: &str, text: &str) -> Json {
    Json::object().with_str(key, text)
}

#[test]
fn parses_openai_shape() {
    let body = Json::object().with("data", Json::array(vec![item("id", "m1"), item("id", "m2"), item("no_id", "x")]));
    assert_eq!(listed_models(&body), vec!["m1", "m2"]);
}

#[test]
fn custom_models_use_the_supplied_workspace_mrm_definition() {
    let mrm = ModelResourceManager::new(custom("workspace_models_test", "https://own.example/v1", "configured-model"));
    let mut store = AuthStore::new();
    store.insert("custom:workspace_models_test", api("workspace-key"));
    let request = models_request(
        &mrm,
        &store,
        "custom:workspace_models_test",
        &None,
        &xai(),
        Ok("https://own.example/v1/models".into()),
        None,
    )
    .unwrap();
    assert_eq!(request.url, "https://own.example/v1/models");
    assert_eq!(request.auth, ModelsAuth::Bearer);
    assert_eq!(request.bearer.as_deref(), Some("workspace-key"));
    let body = Json::object().with("data", Json::array(vec![item("id", "workspace-model")]));
    let outcome = conclude(Reply::Body(Ok(body)));
    assert_eq!(outcome.source, "endpoint");
    assert_eq!(outcome.models, vec!["workspace-model"]);
}

#[test]
fn listing_failures_say_why() {
    assert_eq!(conclude(Reply::Refused("HTTP 401".into())).detail, "HTTP 401");
    assert_eq!(conclude(Reply::Failed("no route".into())).detail, "请求失败: no route");
    assert_eq!(conclude(Reply::Body(Ok(Json::object()))).source, "error");
    let bad = probe_request(Err("missing host".into()), "k", "openai").unwrap_err();
    assert_eq!((bad.source.as_str(), bad.detail.as_str()), ("error", "missing host"));
    let keyed = probe_request(Ok("https://own/v1/models".into()), "k", "anthropic").unwrap();
    assert_eq!(keyed.auth, ModelsAuth::ApiKeyHeader);
}
