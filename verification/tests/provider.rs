use agent_os::provider::{
    ChatMessage, ChatResponse, LLMProvider, NIMProvider, OpenRouterProvider, ProviderFactory,
    ProviderManager, UsageInfo,
};

#[test]
fn test_provider_factory() {
    let openrouter = ProviderFactory::create_provider("openrouter").unwrap();
    assert_eq!(openrouter.name(), "openrouter");

    let nim = ProviderFactory::create_provider("nim").unwrap();
    assert_eq!(nim.name(), "nim");

    let nvidia = ProviderFactory::create_provider("nvidia").unwrap();
    assert_eq!(nvidia.name(), "nim");

    let result = ProviderFactory::create_provider("unknown");
    assert!(result.is_err());
}

#[test]
fn test_provider_manager() {
    let manager = ProviderManager::new();
    assert!(manager.get_provider("openrouter").is_some());
    assert!(manager.get_provider("nim").is_some());
    assert!(manager.get_provider("nvidia").is_some());

    let providers = manager.list_providers();
    assert!(providers.contains(&"openrouter".to_string()));
    assert!(providers.contains(&"nim".to_string()));
    assert!(providers.contains(&"nvidia".to_string()));
}

#[test]
fn factory_ignores_case() {
    assert_eq!(ProviderFactory::create_provider("OpenRouter").unwrap().name(), "openrouter");
    assert_eq!(ProviderFactory::create_provider("NVIDIA-NIM").unwrap().name(), "nim");
    assert_eq!(ProviderFactory::create_provider("Nim").unwrap().name(), "nim");
}

#[test]
fn factory_names_the_unknown_type() {
    assert_eq!(
        ProviderFactory::create_provider("Foo").err().unwrap(),
        "Unknown provider type: Foo"
    );
    assert_eq!(
        ProviderFactory::provider_for("nvidia-nims", "nvidia-nims").err().unwrap(),
        "Unknown provider type: nvidia-nims"
    );
    assert_eq!(ProviderFactory::provider_for("nvidia", "NVIDIA").unwrap().name(), "nim");
}

#[test]
fn manager_holds_builtins_in_order() {
    let manager = ProviderManager::new();
    assert_eq!(
        manager.list_providers(),
        vec!["openrouter".to_string(), "nim".to_string(), "nvidia".to_string(), "nvidia-nim".to_string()]
    );
    assert_eq!(manager.get_provider("nvidia-nim").unwrap().name(), "nim");
    assert_eq!(manager.get_provider("openrouter").unwrap().name(), "openrouter");
    assert!(manager.get_provider("other").is_none());
}

#[test]
fn registering_replaces_under_the_same_name() {
    let mut manager = ProviderManager::new();
    manager.register_provider("nim", Box::new(OpenRouterProvider));
    assert_eq!(manager.get_provider("nim").unwrap().name(), "openrouter");
    assert_eq!(manager.list_providers().len(), 4);
    manager.register_provider("local", Box::new(NIMProvider));
    assert_eq!(manager.list_providers().last().unwrap(), "local");
}

#[test]
fn openrouter_request() {
    let request = OpenRouterProvider.chat_request("sk-1", None);
    assert_eq!(request.url, "https://openrouter.ai/api/v1/chat/completions");
    assert_eq!(
        request.headers,
        vec![
            ("Authorization".to_string(), "Bearer sk-1".to_string()),
            ("HTTP-Referer".to_string(), "https://agent-os.local".to_string()),
            ("X-Title".to_string(), "Agent OS".to_string()),
        ]
    );
    let custom = OpenRouterProvider.chat_request("k", Some("http://localhost:8080/v1"));
    assert_eq!(custom.url, "http://localhost:8080/v1/chat/completions");
}

#[test]
fn nim_request() {
    let request = NIMProvider.chat_request("nv-2", None);
    assert_eq!(request.url, "https://ai.api.nvidia.com/v1/chat/completions");
    assert_eq!(
        request.headers,
        vec![
            ("Authorization".to_string(), "Bearer nv-2".to_string()),
            ("Accept".to_string(), "application/json".to_string()),
        ]
    );
}

#[test]
fn response_from_parts_uses_defaults() {
    let r = ChatResponse::from_parts(None, None, "gpt-x", None, Some(7), Some(4_294_967_297));
    assert_eq!(r.content, "");
    assert_eq!(r.model, "gpt-x");
    assert_eq!(
        r.usage,
        Some(UsageInfo { prompt_tokens: None, completion_tokens: Some(7), total_tokens: Some(1) })
    );
}

#[test]
fn response_from_reply() {
    let reply: serde_json::Value = serde_json::from_str(
        r#"{"model":"m-1","choices":[{"message":{"role":"assistant","content":"hello"}}],
            "usage":{"prompt_tokens":3,"completion_tokens":5,"total_tokens":8}}"#,
    )
    .unwrap();
    let r = ChatResponse::from_reply(&reply, "requested");
    assert_eq!(r.content, "hello");
    assert_eq!(r.model, "m-1");
    assert_eq!(
        r.usage,
        Some(UsageInfo { prompt_tokens: Some(3), completion_tokens: Some(5), total_tokens: Some(8) })
    );
}

#[test]
fn response_from_an_empty_reply() {
    let reply: serde_json::Value = serde_json::from_str(r#"{"choices":[]}"#).unwrap();
    let r = ChatResponse::from_reply(&reply, "requested");
    assert_eq!(r.content, "");
    assert_eq!(r.model, "requested");
    assert_eq!(
        r.usage,
        Some(UsageInfo { prompt_tokens: None, completion_tokens: None, total_tokens: None })
    );
}

#[test]
fn chat_message_holds_role_and_content() {
    let m = ChatMessage { role: "user".to_string(), content: "hi".to_string() };
    let c = m.clone();
    assert_eq!(c.role, "user");
    assert_eq!(c.content, "hi");
}
