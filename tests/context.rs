use mascord_memory::cache::MessageCache;
use mascord_memory::context::{ContextMessage, ConversationContext};
use mascord_memory::message::CachedMessage;

fn now_secs() -> i64 {
    chrono::Utc::now().timestamp()
}

fn mock_message(id: u64, channel_id: u64, user_id: u64, content: &str, username: &str) -> CachedMessage {
    CachedMessage::new(id, channel_id, user_id, username.to_string(), content.to_string(), now_secs())
}

#[test]
fn test_context_retrieval() {
    let mut cache = MessageCache::new(100);
    cache.insert(mock_message(1, 100, 1, "Hello everyone", "Alice"));
    cache.insert(mock_message(2, 100, 2, "Hi Alice!", "Bob"));
    cache.insert(mock_message(3, 100, 999, "Hello, how can I help?", "Mascord"));
    cache.insert(mock_message(4, 100, 1, "What's the weather?", "Alice"));

    let context = ConversationContext::get_context_for_channel(&cache, None, (None, None), 10, 24, 100, Some(999));

    assert_eq!(context.len(), 4);
}

#[test]
fn test_context_limit() {
    let mut cache = MessageCache::new(100);
    for i in 1..=10 {
        cache.insert(mock_message(i, 100, 1, &format!("Message {}", i), "User"));
    }

    let context = ConversationContext::get_context_for_channel(&cache, None, (None, None), 5, 24, 100, None);

    assert_eq!(context.len(), 5);
}

#[test]
fn context_roles_summary_and_filters() {
    let now = now_secs();
    let history = vec![
        CachedMessage::new(1, 5, 1, "Alice".to_string(), "old".to_string(), now - 100 * 3600),
        CachedMessage::new(2, 5, 1, "Alice".to_string(), "   ".to_string(), now),
        CachedMessage::new(3, 5, 9, "Bot".to_string(), "I can help".to_string(), now),
        CachedMessage::new(4, 5, 1, "Alice".to_string(), "thanks".to_string(), now),
    ];
    let summary = "They talked.".to_string();
    let ctx = ConversationContext::build(Some(&summary), &history, (now - 24 * 3600) as i128, Some(9));
    assert_eq!(ctx.len(), 3);
    assert!(matches!(&ctx[0], ContextMessage::System(s) if s == "Earlier conversation summary for this channel:\nThey talked."));
    assert!(matches!(&ctx[1], ContextMessage::Assistant(s) if s == "I can help"));
    assert!(matches!(&ctx[2], ContextMessage::User(s) if s == "[Alice]: thanks"));
}

#[test]
fn guild_settings_override_defaults() {
    let mut cache = MessageCache::new(100);
    for i in 1..=4 {
        cache.insert(mock_message(i, 100, 1, "x", "U"));
    }
    let context = ConversationContext::get_context_for_channel(&cache, None, (Some(2), Some(1)), 10, 24, 100, None);
    assert_eq!(context.len(), 2);
}
