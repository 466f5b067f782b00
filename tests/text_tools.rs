use mascord_memory::memory_text::{normalize_memory, truncate_chars};
use mascord_memory::mentions::strip_bot_mentions;
use mascord_memory::system_prompt::{build_datetime_system_message, get_datetime_context};

#[test]
fn test_normalize_memory() {
    let raw = "UPDATED MEMORY:\n- Prefers Rust\n- Wants concise answers\n";
    let normalized = normalize_memory(raw, 200);
    assert!(normalized.contains("Prefers Rust"));
    assert!(normalized.contains("concise"));

    let no_update = normalize_memory("NO_UPDATE", 200);
    assert!(no_update.is_empty());
}

#[test]
fn normalize_memory_exact_forms() {
    assert_eq!(
        normalize_memory("UPDATED MEMORY:\n- Prefers Rust\n- Wants concise answers\n", 200),
        "- Prefers Rust\n- Wants concise answers"
    );
    assert_eq!(normalize_memory("memory:  likes tea\r\n\n  ", 200), "likes tea");
    assert_eq!(normalize_memory("   ", 200), "");
    assert_eq!(normalize_memory("ok, no_update needed", 200), "");
    assert_eq!(normalize_memory("1\n2\n3\n4\n5\n6\n7\n8", 200), "1\n2\n3\n4\n5\n6");
    assert_eq!(normalize_memory("abcdef", 3), "abc...");
}

#[test]
fn truncate_chars_counts_characters() {
    assert_eq!(truncate_chars("héllo", 2), "hé...");
    assert_eq!(truncate_chars("hi", 2), "hi");
    assert_eq!(truncate_chars("", 0), "");
}

#[test]
fn strips_both_mention_forms() {
    assert_eq!(strip_bot_mentions("<@42> hello <@!42>", 42), "hello");
    assert_eq!(strip_bot_mentions("  <@7>what<@7>  ", 7), "what");
    assert_eq!(strip_bot_mentions("<@43> stays", 42), "<@43> stays");
    assert_eq!(strip_bot_mentions("", 1), "");
}

#[test]
fn test_build_datetime_system_message() {
    let msg = build_datetime_system_message();
    assert!(!msg.is_empty());
    assert!(msg.contains("Current date/time:"));
}

#[test]
fn test_datetime_context_format() {
    let context = get_datetime_context();
    assert!(context.contains("Current date/time:"));
    assert!(context.contains("UTC"));
    assert!(context.contains("Local time:"));
    assert!(context.contains("T"));
}
