use kxen_core::llm::catalog::{opening, parse_models_dev, static_catalog, ProviderCatalog, TTL_MS};
use kxen_core::providers::{find, AuthKind, ProviderSpec, StaticModel, WireProtocol};

fn model(id: &str) -> StaticModel {
    StaticModel { id: id.into(), name: id.to_uppercase(), reasoning: false, attachment: false, context: 128_000 }
}

fn provider(key: &str, dev: Option<&str>, default_model: &str, models: Vec<StaticModel>) -> ProviderSpec {
    ProviderSpec {
        key: key.into(),
        display: key.to_uppercase(),
        auth: if key == "ollama" { AuthKind::LocalFree } else { AuthKind::ApiKey },
        protocol: WireProtocol::OpenAi,
        models_dev: dev.map(String::from),
        default_model: default_model.into(),
        static_models: models,
    }
}

fn registry() -> Vec<ProviderSpec> {
    vec![
        provider("anthropic", Some("anthropic"), "c-1", vec![model("c-1")]),
        provider("xai", Some("xai"), "grok-build-0.1", vec![model("grok-build-0.1")]),
        provider("together", Some("togetherai"), "m/t", vec![model("m/t")]),
        provider("kimi", Some("moonshotai"), "kimi-k2.5", vec![model("kimi-k2.5")]),
        provider("zhipu", Some("zhipuai"), "glm-4.6", vec![model("glm-4.6")]),
        provider("openrouter", None, "openai/gpt", vec![model("openai/gpt")]),
        provider("ollama", None, "llama3.3", vec![model("llama3.3")]),
    ]
}

#[test]
fn parse_extracts_registry_providers() {
    let text = r#"{
      "anthropic": {"name": "Anthropic", "models": {"ant-x": {"name": "Ant X", "reasoning": true, "tool_call": true, "attachment": true, "modalities": {"input": ["text", "image"]}, "limit": {"context": 200000, "output": 64000}}}},
      "302ai": {"name": "302.AI", "models": {"foo": {}}},
      "togetherai": {"name": "Together AI", "models": {"m/t": {"name": "T", "limit": {"context": 131072}}}},
      "moonshotai": {"name": "Moonshot AI", "models": {"kimi-k2.5": {"name": "K2.5", "limit": {"context": 262144}}}},
      "zhipuai": {"name": "Zhipu AI", "models": {"glm-4.6": {"name": "GLM-4.6", "limit": {"context": 204800}}}},
      "xai": {"name": "xAI", "models": {"grok-y": {"name": "Grok Y", "limit": {"context": 100000}}}}
    }"#;
    let c = parse_models_dev(text, &registry(), 7).unwrap();
    assert_eq!(c.len(), 5);
    let ant = c.iter().find(|p| p.provider == "anthropic").unwrap();
    assert_eq!(ant.provider_name, "Anthropic");
    assert_eq!(ant.models[0].name, "Ant X");
    assert!(ant.models[0].reasoning);
    assert_eq!(ant.models[0].context, 200000);
    assert_eq!(ant.models[0].modalities_in, vec!["text", "image"]);
    assert!(!c.iter().any(|p| p.provider == "302ai"));
    let tg = c.iter().find(|p| p.provider == "together").expect("togetherai is together");
    assert_eq!(tg.provider_name, "Together AI");
    assert_eq!(tg.models[0].context, 131072);
    let kimi = c.iter().find(|p| p.provider == "kimi").expect("moonshotai is kimi");
    assert_eq!(kimi.models[0].id, "kimi-k2.5");
    let zhipu = c.iter().find(|p| p.provider == "zhipu").expect("zhipuai is zhipu");
    assert_eq!(zhipu.models[0].id, "glm-4.6");
}

#[test]
fn static_catalog_covers_registry() {
    let c = static_catalog(&registry(), 1);
    assert_eq!(c.len(), registry().len());
    for p in &c {
        assert!(!p.models.is_empty(), "{}", p.provider);
        assert!(p.models.iter().all(|m| !m.name.is_empty() && m.context > 0));
    }
}

#[test]
fn static_catalog_has_openrouter_and_ollama() {
    let c = static_catalog(&registry(), 1);
    let or = c.iter().find(|p| p.provider == "openrouter").expect("openrouter is listed");
    assert!(or.models.iter().any(|m| m.id.contains('/')));
    let ol = c.iter().find(|p| p.provider == "ollama").expect("ollama is listed");
    assert!(ol.models.iter().any(|m| m.id == "llama3.3"));
}

#[test]
fn static_catalog_contains_verify_default_models() {
    let c = static_catalog(&registry(), 1);
    for spec in registry() {
        let entry = c.iter().find(|x| x.provider == spec.key).unwrap_or_else(|| panic!("{} is listed", spec.key));
        assert!(
            entry.models.iter().any(|m| m.id == spec.default_model),
            "{} lists {}",
            spec.key,
            spec.default_model
        );
    }
}

#[test]
fn larger_contexts_come_first() {
    let text = r#"{"xai": {"models": {"a": {"limit": {"context": 10}}, "b": {"limit": {"context": 30}}, "c": {"limit": {"context": 20}}}}}"#;
    let c = parse_models_dev(text, &registry(), 0).unwrap();
    let ids: Vec<&str> = c[0].models.iter().map(|m| m.id.as_str()).collect();
    assert_eq!(ids, vec!["b", "c", "a"]);
    assert_eq!(c[0].provider_name, "XAI");
    assert_eq!(parse_models_dev("{", &registry(), 0), None);
    assert_eq!(parse_models_dev(r#"{"xai": {}}"#, &registry(), 0), None);
}

#[test]
fn an_old_catalog_is_shown_and_refreshed() {
    let disk = |at: u64| {
        vec![ProviderCatalog {
            provider: "xai".into(),
            provider_name: "xAI".into(),
            models: vec![],
            fetched_at: at,
            source: "models.dev".into(),
        }]
    };
    let (fresh, stale) = opening(Some(disk(1000)), &registry(), 1000 + TTL_MS);
    assert_eq!((fresh.len(), stale), (1, false));
    assert!(opening(Some(disk(1000)), &registry(), 1001 + TTL_MS).1);
    let (fallback, stale) = opening(Some(vec![]), &registry(), 5);
    assert_eq!((fallback.len(), stale), (registry().len(), true));
    assert!(opening(None, &registry(), 5).1);
}

#[test]
fn providers_are_found_by_name() {
    assert_eq!(find(&registry(), "kimi").unwrap().default_model, "kimi-k2.5");
    assert!(find(&registry(), "nobody").is_none());
}
