use mascord_memory::config::{Config, McpTransport};
use mascord_memory::summarize::SummarizationPolicy;

fn test_config() -> Config {
    Config {
        discord_token: "test".to_string(),
        application_id: 0,
        owner_id: Some(1),
        llama_url: "test".to_string(),
        llama_model: "test".to_string(),
        llama_api_key: None,
        embedding_url: "test".to_string(),
        embedding_model: "test".to_string(),
        embedding_api_key: None,
        database_url: ":memory:".to_string(),
        system_prompt: "test".to_string(),
        max_context_messages: 10,
        status_message: "test".to_string(),
        youtube_cookies: None,
        youtube_download_dir: "downloads".to_string(),
        youtube_cleanup_after_secs: 3600,
        mcp_servers: Vec::new(),
        context_message_limit: 5,
        context_retention_hours: 24,
        llm_timeout_secs: 60,
        embedding_timeout_secs: 30,
        mcp_timeout_secs: 30,
        voice_idle_timeout_secs: 300,
        dev_guild_id: None,
        register_commands: true,
        mcp_tools_require_confirmation: true,
        agent_confirm_timeout_secs: 60,
        embedding_indexer_enabled: false,
        embedding_indexer_batch_size: 32,
        embedding_indexer_interval_secs: 30,
        summarization_enabled: true,
        summarization_interval_secs: 3600,
        summarization_active_channels_lookback_days: 3,
        summarization_initial_min_messages: 20,
        summarization_trigger_new_messages: 50,
        summarization_trigger_age_hours: 6,
        summarization_trigger_min_new_messages: 10,
        summarization_max_tokens: 800,
        summarization_refresh_weeks: 2,
        summarization_refresh_days_lookback: 14,
        long_term_retention_days: 90,
    }
}

#[test]
fn policy_comes_from_config() {
    let p = SummarizationPolicy::from_config(&test_config());
    assert_eq!(p.active_channels_lookback_days, 3);
    assert_eq!(p.initial_min_messages, 20);
    assert_eq!(p.trigger_new_messages, 50);
    assert_eq!(p.trigger_age_hours, 6);
    assert_eq!(p.trigger_min_new_messages, 10);
    assert_eq!(p.max_tokens, 800);
    assert_eq!(p.refresh_weeks, 2);
    assert_eq!(p.refresh_days_lookback, 14);
}

#[test]
fn transport_names_resolve() {
    let s = |x: &str| x.to_string();
    assert!(matches!(McpTransport::resolve(None, true), McpTransport::Stdio));
    assert!(matches!(McpTransport::resolve(Some(&s("SSE")), false), McpTransport::Sse));
    assert!(matches!(McpTransport::resolve(Some(&s("Http")), true), McpTransport::Sse));
    assert!(matches!(McpTransport::resolve(Some(&s("https")), false), McpTransport::Stdio));
    assert!(matches!(McpTransport::resolve(Some(&s("child-process")), true), McpTransport::Stdio));
    assert!(matches!(McpTransport::resolve(Some(&s("carrier pigeon")), true), McpTransport::Stdio));
}
